//! Reading text into values: a tokenizer and a recursive-descent parser. The
//! specification-level `tokenize` and `parse_form` say exactly what the
//! executable reader produces, token for token and form for form.
use vstd::prelude::*;

use crate::types::{
    chars_to_string, str_to_chars, v_err, v_seq, v_val, GErr, GKey, GVal, Hashable, MalError,
    MalVal,
};

verus! {

// ---------------------------------------------------------------------------
// Tokenizer specification
// ---------------------------------------------------------------------------

/// Token separators: Unicode whitespace and commas.
pub open spec fn is_ws(c: char) -> bool {
    c == ' ' || c == '\t' || c == '\n' || c == '\r' || c == ',' || c as u32 == 0x0b || c as u32
        == 0x0c || c as u32 == 0x85 || c as u32 == 0xa0 || c as u32 == 0x1680 || (0x2000 <= c
        as u32 && c as u32 <= 0x200a) || c as u32 == 0x2028 || c as u32 == 0x2029 || c as u32
        == 0x202f || c as u32 == 0x205f || c as u32 == 0x3000
}

/// The single-character special tokens (besides `~`, handled separately).
pub open spec fn is_special(c: char) -> bool {
    c == '[' || c == ']' || c == '{' || c == '}' || c == '(' || c == ')' || c == '\'' || c == '`'
        || c == '^' || c == '@'
}

/// A character that ends an atom token.
pub open spec fn is_term(c: char) -> bool {
    is_ws(c) || is_special(c) || c == '~' || c == '"' || c == ';'
}

pub open spec fn max_i(a: int, b: int) -> int {
    if a < b {
        b
    } else {
        a
    }
}

/// `x` forced into `lo ..= hi`; the scans below use it only to convince the
/// termination checker, and the lemmas show it never binds.
pub open spec fn clamp_i(x: int, lo: int, hi: int) -> int {
    if max_i(x, lo) > hi {
        hi
    } else {
        max_i(x, lo)
    }
}

/// The index just past a comment that starts before `j`: after the next
/// newline, or the end of input.
pub open spec fn skip_comment(s: Seq<char>, j: int) -> int
    decreases s.len() - j,
{
    if j < 0 || j >= s.len() {
        s.len() as int
    } else if s[j] == '\n' {
        j + 1
    } else {
        skip_comment(s, j + 1)
    }
}

/// The first index at or after `i` that starts a token: whitespace, commas
/// and comments are passed over.
pub open spec fn skip_trivia(s: Seq<char>, i: int) -> int
    decreases s.len() - i,
{
    if i < 0 || i >= s.len() {
        s.len() as int
    } else if is_ws(s[i]) {
        skip_trivia(s, i + 1)
    } else if s[i] == ';' {
        skip_trivia(s, clamp_i(skip_comment(s, i + 1), i + 1, s.len() as int))
    } else {
        i
    }
}

/// The end of a string token whose opening quote sits before `j`: just past
/// the closing unescaped quote, or the end of input if it never closes.
pub open spec fn str_token_end(s: Seq<char>, j: int) -> int
    decreases s.len() - j,
{
    if j < 0 || j >= s.len() {
        s.len() as int
    } else if s[j] == '\\' {
        str_token_end(
            s,
            if j + 2 <= s.len() {
                j + 2
            } else {
                s.len() as int
            },
        )
    } else if s[j] == '"' {
        j + 1
    } else {
        str_token_end(s, j + 1)
    }
}

/// The end of an atom token that continues at `j`.
pub open spec fn atom_end(s: Seq<char>, j: int) -> int
    decreases s.len() - j,
{
    if j < 0 || j >= s.len() {
        s.len() as int
    } else if is_term(s[j]) {
        j
    } else {
        atom_end(s, j + 1)
    }
}

/// The exclusive end of the token that starts at `i` (a non-trivia position).
pub open spec fn token_end(s: Seq<char>, i: int) -> int {
    if i < 0 || i >= s.len() {
        s.len() as int
    } else if s[i] == '~' {
        if i + 1 < s.len() && s[i + 1] == '@' {
            i + 2
        } else {
            i + 1
        }
    } else if is_special(s[i]) {
        i + 1
    } else if s[i] == '"' {
        str_token_end(s, i + 1)
    } else {
        atom_end(s, i + 1)
    }
}

/// The tokens of `s[i..]`, in order.
pub open spec fn tokens_from(s: Seq<char>, i: int) -> Seq<Seq<char>>
    decreases s.len() - i,
{
    let j = clamp_i(skip_trivia(s, i), i, s.len() as int);
    if j >= s.len() || j < 0 {
        Seq::empty()
    } else {
        let e = clamp_i(token_end(s, j), j + 1, s.len() as int);
        seq![s.subrange(j, e)] + tokens_from(s, e)
    }
}

/// The token strings of the input, in order; comments and separators gone.
pub open spec fn tokenize(s: Seq<char>) -> Seq<Seq<char>> {
    tokens_from(s, 0)
}

// The scan positions only move forward, so the clamps in the definitions
// above never bind.

proof fn lemma_skip_comment_ge(s: Seq<char>, j: int)
    requires
        0 <= j <= s.len(),
    ensures
        j <= skip_comment(s, j) <= s.len(),
    decreases s.len() - j,
{
    if j < s.len() && s[j] != '\n' {
        lemma_skip_comment_ge(s, j + 1);
    }
}

proof fn lemma_skip_trivia_ge(s: Seq<char>, i: int)
    requires
        0 <= i <= s.len(),
    ensures
        i <= skip_trivia(s, i) <= s.len(),
    decreases s.len() - i,
{
    if i < s.len() {
        if is_ws(s[i]) {
            lemma_skip_trivia_ge(s, i + 1);
        } else if s[i] == ';' {
            lemma_skip_comment_ge(s, i + 1);
            lemma_skip_trivia_ge(s, clamp_i(skip_comment(s, i + 1), i + 1, s.len() as int));
        }
    }
}

proof fn lemma_str_token_end_ge(s: Seq<char>, j: int)
    requires
        0 <= j <= s.len(),
    ensures
        j <= str_token_end(s, j) <= s.len(),
    decreases s.len() - j,
{
    if j < s.len() {
        if s[j] == '\\' {
            lemma_str_token_end_ge(
                s,
                if j + 2 <= s.len() {
                    j + 2
                } else {
                    s.len() as int
                },
            );
        } else if s[j] != '"' {
            lemma_str_token_end_ge(s, j + 1);
        }
    }
}

proof fn lemma_atom_end_ge(s: Seq<char>, j: int)
    requires
        0 <= j <= s.len(),
    ensures
        j <= atom_end(s, j) <= s.len(),
    decreases s.len() - j,
{
    if j < s.len() && !is_term(s[j]) {
        lemma_atom_end_ge(s, j + 1);
    }
}

proof fn lemma_token_end_gt(s: Seq<char>, i: int)
    requires
        0 <= i < s.len(),
    ensures
        i < token_end(s, i) <= s.len(),
{
    if s[i] == '~' || is_special(s[i]) {
    } else if s[i] == '"' {
        lemma_str_token_end_ge(s, i + 1);
    } else {
        lemma_atom_end_ge(s, i + 1);
    }
}

// ---------------------------------------------------------------------------
// Executable tokenizer
// ---------------------------------------------------------------------------

fn ws_char(c: char) -> (r: bool)
    ensures
        r == is_ws(c),
{
    let u = c as u32;
    c == ' ' || c == '\t' || c == '\n' || c == '\r' || c == ',' || u == 0x0b || u == 0x0c || u
        == 0x85 || u == 0xa0 || u == 0x1680 || (0x2000 <= u && u <= 0x200a) || u == 0x2028 || u
        == 0x2029 || u == 0x202f || u == 0x205f || u == 0x3000
}

fn special_char(c: char) -> (r: bool)
    ensures
        r == is_special(c),
{
    c == '[' || c == ']' || c == '{' || c == '}' || c == '(' || c == ')' || c == '\'' || c == '`'
        || c == '^' || c == '@'
}

fn term_char(c: char) -> (r: bool)
    ensures
        r == is_term(c),
{
    ws_char(c) || special_char(c) || c == '~' || c == '"' || c == ';'
}

/// The first token-start position at or after `i`.
fn skip_trivia_exec(s: &Vec<char>, i: usize) -> (r: usize)
    requires
        i <= s@.len(),
    ensures
        r as int == skip_trivia(s@, i as int),
        i <= r <= s@.len(),
{
    let mut cur: usize = i;
    loop
        invariant
            i <= cur <= s@.len(),
            skip_trivia(s@, i as int) == skip_trivia(s@, cur as int),
        decreases s@.len() - cur,
    {
        if cur >= s.len() {
            return cur;
        }
        let c = s[cur];
        if ws_char(c) {
            cur += 1;
        } else if c == ';' {
            let mut k: usize = cur + 1;
            while k < s.len() && s[k] != '\n'
                invariant
                    cur + 1 <= k <= s@.len(),
                    skip_comment(s@, cur as int + 1) == skip_comment(s@, k as int),
                decreases s@.len() - k,
            {
                k += 1;
            }
            if k < s.len() {
                k += 1;
            }
            proof {
                lemma_skip_comment_ge(s@, cur as int + 1);
            }
            cur = k;
        } else {
            return cur;
        }
    }
}

/// The exclusive end of the token starting at `i`.
fn token_end_exec(s: &Vec<char>, i: usize) -> (r: usize)
    requires
        i < s@.len(),
    ensures
        r as int == token_end(s@, i as int),
        i < r <= s@.len(),
{
    proof {
        lemma_token_end_gt(s@, i as int);
    }
    let n = s.len();
    let c = s[i];
    if c == '~' {
        if i + 1 < n && s[i + 1] == '@' {
            i + 2
        } else {
            i + 1
        }
    } else if special_char(c) {
        i + 1
    } else if c == '"' {
        let mut k: usize = i + 1;
        loop
            invariant
                n == s@.len(),
                i + 1 <= k <= n,
                i < n,
                s@[i as int] == '"',
                str_token_end(s@, i as int + 1) == str_token_end(s@, k as int),
            decreases s@.len() - k,
        {
            if k >= n {
                return n;
            }
            let d = s[k];
            if d == '\\' {
                if n - k >= 2 {
                    k += 2;
                } else {
                    k = n;
                }
            } else if d == '"' {
                return k + 1;
            } else {
                k += 1;
            }
        }
    } else {
        let mut k: usize = i + 1;
        while k < n && !term_char(s[k])
            invariant
                n == s@.len(),
                i < n,
                i + 1 <= k <= n,
                s@[i as int] != '~' && !is_special(s@[i as int]) && s@[i as int] != '"',
                atom_end(s@, i as int + 1) == atom_end(s@, k as int),
            decreases s@.len() - k,
        {
            k += 1;
        }
        k
    }
}

/// A copy of `s[from..to]`.
fn copy_range(s: &Vec<char>, from: usize, to: usize) -> (r: Vec<char>)
    requires
        from <= to <= s@.len(),
    ensures
        r@ == s@.subrange(from as int, to as int),
{
    let mut out: Vec<char> = Vec::new();
    let mut k: usize = from;
    while k < to
        invariant
            from <= k <= to <= s@.len(),
            out@ == s@.subrange(from as int, k as int),
        decreases to - k,
    {
        out.push(s[k]);
        proof {
            assert(out@ =~= s@.subrange(from as int, k as int + 1));
        }
        k += 1;
    }
    out
}

/// All tokens of the input.
fn tokenize_exec(s: &Vec<char>) -> (r: Vec<Vec<char>>)
    ensures
        r.deep_view() == tokenize(s@),
{
    let mut out: Vec<Vec<char>> = Vec::new();
    let mut i: usize = 0;
    loop
        invariant
            i <= s@.len(),
            out.deep_view() + tokens_from(s@, i as int) == tokenize(s@),
        decreases s@.len() - i,
    {
        let j = skip_trivia_exec(s, i);
        if j >= s.len() {
            proof {
                assert(out.deep_view() + tokens_from(s@, i as int) =~~= out.deep_view());
            }
            return out;
        }
        let e = token_end_exec(s, j);
        let tok = copy_range(s, j, e);
        let ghost pre = out.deep_view();
        out.push(tok);
        proof {
            assert(out.deep_view() =~~= pre.push(tok@));
            assert(tokens_from(s@, i as int) == seq![s@.subrange(j as int, e as int)]
                + tokens_from(s@, e as int));
            assert(out.deep_view() + tokens_from(s@, e as int) =~~= pre + tokens_from(
                s@,
                i as int,
            ));
        }
        i = e;
    }
}

// ---------------------------------------------------------------------------
// Atom classification: integers, keywords, strings, reserved words, symbols
// ---------------------------------------------------------------------------

pub open spec fn is_digit(c: char) -> bool {
    48 <= c as u32 <= 57
}

pub open spec fn digit_val(c: char) -> int {
    c as u32 - 48
}

pub open spec fn digits_all(t: Seq<char>, i: int) -> bool
    decreases t.len() - i,
{
    i < 0 || i >= t.len() || (is_digit(t[i]) && digits_all(t, i + 1))
}

/// The value of the digits `t[i..]` appended to an accumulator.
pub open spec fn digits_acc(t: Seq<char>, i: int, acc: int) -> int
    decreases t.len() - i,
{
    if i < 0 || i >= t.len() {
        acc
    } else {
        digits_acc(t, i + 1, acc * 10 + digit_val(t[i]))
    }
}

/// Where the digits of an integer token would start: after a leading `-`.
pub open spec fn int_start(t: Seq<char>) -> int {
    if t.len() > 0 && t[0] == '-' {
        1
    } else {
        0
    }
}

/// Whether the token is even tried as an integer: an optional `-`, then a
/// digit. A candidate that fails to parse in full becomes a symbol.
pub open spec fn int_candidate(t: Seq<char>) -> bool {
    int_start(t) < t.len() && is_digit(t[int_start(t)])
}

pub open spec fn int_magnitude(t: Seq<char>) -> int {
    digits_acc(t, int_start(t), 0)
}

/// Whether the whole token is a 64-bit integer literal.
pub open spec fn int_parses(t: Seq<char>) -> bool {
    int_candidate(t) && digits_all(t, int_start(t)) && (if t[0] == '-' {
        int_magnitude(t) <= 0x8000_0000_0000_0000
    } else {
        int_magnitude(t) <= 0x7fff_ffff_ffff_ffff
    })
}

pub open spec fn int_value(t: Seq<char>) -> int {
    if t[0] == '-' {
        -int_magnitude(t)
    } else {
        int_magnitude(t)
    }
}

/// Digits only grow the accumulated value.
proof fn lemma_digits_acc_ge(t: Seq<char>, i: int, acc: int)
    requires
        acc >= 0,
        digits_all(t, i),
    ensures
        digits_acc(t, i, acc) >= acc,
    decreases t.len() - i,
{
    if 0 <= i < t.len() {
        lemma_digits_acc_ge(t, i + 1, acc * 10 + digit_val(t[i]));
    }
}

fn digit_exec(c: char) -> (r: bool)
    ensures
        r == is_digit(c),
{
    let u = c as u32;
    48 <= u && u <= 57
}

/// Parse the token as a 64-bit integer, `None` when it is not one.
fn parse_int(t: &Vec<char>) -> (r: Option<i64>)
    ensures
        match r {
            Option::Some(v) => int_parses(t@) && v as int == int_value(t@),
            Option::None => !int_parses(t@),
        },
{
    let n = t.len();
    if n == 0 {
        return Option::None;
    }
    let neg = t[0] == '-';
    let start: usize = if neg {
        1
    } else {
        0
    };
    if start >= n {
        return Option::None;
    }
    if !digit_exec(t[start]) {
        return Option::None;
    }
    let mut m: u64 = 0;
    let mut i: usize = start;
    while i < n
        invariant
            n == t@.len(),
            start <= i <= n,
            start == int_start(t@),
            start < n,
            is_digit(t@[start as int]),
            digits_all(t@, start as int) == digits_all(t@, i as int),
            digits_acc(t@, start as int, 0) == digits_acc(t@, i as int, m as int),
        decreases n - i,
    {
        let c = t[i];
        if !digit_exec(c) {
            return Option::None;
        }
        let d: u64 = ((c as u32) - 48) as u64;
        let m10 = match m.checked_mul(10) {
            Option::Some(x) => x,
            Option::None => {
                proof {
                    if digits_all(t@, i as int + 1) {
                        lemma_digits_acc_ge(t@, i as int + 1, m as int * 10 + d as int);
                    }
                }
                return Option::None;
            },
        };
        let m2 = match m10.checked_add(d) {
            Option::Some(x) => x,
            Option::None => {
                proof {
                    if digits_all(t@, i as int + 1) {
                        lemma_digits_acc_ge(t@, i as int + 1, m as int * 10 + d as int);
                    }
                }
                return Option::None;
            },
        };
        m = m2;
        i += 1;
    }
    if neg {
        if m <= 0x8000_0000_0000_0000u64 {
            let v: i64 = if m == 0x8000_0000_0000_0000u64 {
                i64::MIN
            } else {
                -(m as i64)
            };
            Option::Some(v)
        } else {
            Option::None
        }
    } else {
        if m <= 0x7fff_ffff_ffff_ffffu64 {
            Option::Some(m as i64)
        } else {
            Option::None
        }
    }
}

/// The outcome of resolving a string token's escapes.
pub enum URes {
    Done(Seq<char>),
    BadEscape,
    Unterminated,
}

/// Resolve escapes in `t[i..]` onto `acc`, up to the closing quote.
pub open spec fn unescape_from(t: Seq<char>, i: int, acc: Seq<char>) -> URes
    decreases t.len() - i,
{
    if i < 0 || i >= t.len() {
        URes::Unterminated
    } else if t[i] == '\\' {
        if i + 1 < t.len() {
            if t[i + 1] == '\\' {
                unescape_from(t, i + 2, acc.push('\\'))
            } else if t[i + 1] == 'n' {
                unescape_from(t, i + 2, acc.push('\n'))
            } else if t[i + 1] == '"' {
                unescape_from(t, i + 2, acc.push('"'))
            } else {
                URes::BadEscape
            }
        } else {
            URes::BadEscape
        }
    } else if t[i] == '"' {
        URes::Done(acc)
    } else {
        unescape_from(t, i + 1, acc.push(t[i]))
    }
}

pub open spec fn txt_bad_escape() -> Seq<char> {
    "unsupported escape in string literal"@
}

pub open spec fn txt_cannot_hash() -> Seq<char> {
    "only strings and keywords can be hash-map keys"@
}

/// The error for a reader-macro token whose form never comes.
pub open spec fn txt_dangling() -> Seq<char> {
    "a reader macro needs a form to follow"@
}

/// Resolve the escapes of a string token (opening quote included).
fn unescape(t: &Vec<char>) -> (r: Result<String, MalError>)
    ensures
        match r {
            Result::Ok(v) => unescape_from(t@, 1, Seq::empty()) == URes::Done(v@),
            Result::Err(e) => unescape_from(t@, 1, Seq::empty()) == (match v_err(e) {
                GErr::Unbalance(_) => URes::Unterminated,
                _ => URes::BadEscape,
            }) && (v_err(e) == GErr::Unbalance("string"@) || v_err(e) == GErr::Other(
                txt_bad_escape(),
            )),
        },
{
    let n = t.len();
    let mut out: Vec<char> = Vec::new();
    let mut i: usize = 1;
    loop
        invariant
            n == t@.len(),
            1 <= i,
            unescape_from(t@, 1, Seq::empty()) == unescape_from(t@, i as int, out@),
        decreases n + 1 - i,
    {
        if i >= n {
            return Result::Err(MalError::Unbalance("string"));
        }
        let c = t[i];
        if c == '\\' {
            if i + 1 < n {
                let d = t[i + 1];
                if d == '\\' {
                    out.push('\\');
                } else if d == 'n' {
                    out.push('\n');
                } else if d == '"' {
                    out.push('"');
                } else {
                    return Result::Err(
                        MalError::Other(String::from_str("unsupported escape in string literal")),
                    );
                }
                i += 2;
            } else {
                return Result::Err(
                    MalError::Other(String::from_str("unsupported escape in string literal")),
                );
            }
        } else if c == '"' {
            return Result::Ok(chars_to_string(&out));
        } else {
            out.push(c);
            i += 1;
        }
    }
}

/// What an atom token denotes: an integer, keyword, string, reserved word or
/// symbol; reader-macro tokens are handled by the parser before this.
pub open spec fn classify(t: Seq<char>) -> Result<GVal, GErr> {
    if int_candidate(t) {
        if int_parses(t) {
            Result::Ok(GVal::Integer(int_value(t)))
        } else {
            Result::Ok(GVal::Symbol(t))
        }
    } else if t.len() > 0 && t[0] == ':' {
        Result::Ok(GVal::Keyword(t.skip(1)))
    } else if t.len() > 0 && t[0] == '"' {
        match unescape_from(t, 1, Seq::empty()) {
            URes::Done(s) => Result::Ok(GVal::Str(s)),
            URes::Unterminated => Result::Err(GErr::Unbalance("string"@)),
            URes::BadEscape => Result::Err(GErr::Other(txt_bad_escape())),
        }
    } else if t == crate::printer::txt_true() {
        Result::Ok(GVal::Bool(true))
    } else if t == crate::printer::txt_false() {
        Result::Ok(GVal::Bool(false))
    } else if t == crate::printer::txt_nil() {
        Result::Ok(GVal::Nil)
    } else {
        Result::Ok(GVal::Symbol(t))
    }
}

/// Classify one atom token.
fn classify_exec(t: &Vec<char>) -> (r: Result<MalVal, MalError>)
    ensures
        match r {
            Result::Ok(v) => classify(t@) == Result::<GVal, GErr>::Ok(v@),
            Result::Err(e) => classify(t@) == Result::<GVal, GErr>::Err(v_err(e)),
        },
{
    let n = t.len();
    let start: usize = if n > 0 && t[0] == '-' {
        1
    } else {
        0
    };
    if start < n && digit_exec(t[start]) {
        match parse_int(t) {
            Option::Some(v) => {
                return Result::Ok(MalVal::Integer(v));
            },
            Option::None => {
                return Result::Ok(MalVal::Symbol(chars_to_string(t)));
            },
        }
    }
    if n > 0 && t[0] == ':' {
        let body = copy_range(t, 1, n);
        proof {
            assert(body@ =~= t@.skip(1));
        }
        return Result::Ok(MalVal::Keyword(chars_to_string(&body)));
    }
    if n > 0 && t[0] == '"' {
        return match unescape(t) {
            Result::Ok(s) => Result::Ok(MalVal::String(s)),
            Result::Err(e) => Result::Err(e),
        };
    }
    if n == 4 && t[0] == 't' && t[1] == 'r' && t[2] == 'u' && t[3] == 'e' {
        proof {
            assert(t@ =~= crate::printer::txt_true());
        }
        return Result::Ok(MalVal::Bool(true));
    }
    if n == 5 && t[0] == 'f' && t[1] == 'a' && t[2] == 'l' && t[3] == 's' && t[4] == 'e' {
        proof {
            assert(t@ =~= crate::printer::txt_false());
        }
        return Result::Ok(MalVal::Bool(false));
    }
    if n == 3 && t[0] == 'n' && t[1] == 'i' && t[2] == 'l' {
        proof {
            assert(t@ =~= crate::printer::txt_nil());
        }
        return Result::Ok(MalVal::Nil);
    }
    Result::Ok(MalVal::Symbol(chars_to_string(t)))
}

// ---------------------------------------------------------------------------
// Parser specification
// ---------------------------------------------------------------------------

/// The outcome of parsing one form: a value and the next token position, or
/// an error.
pub enum PForm {
    Val(GVal, int),
    Fail(GErr),
}

/// The outcome of parsing elements up to a closing token.
pub enum PItems {
    Items(Seq<GVal>, int),
    Fail(GErr),
}

/// The outcome of parsing key/value entries up to `}`.
pub enum PEntries {
    Entries(Seq<(GKey, GVal)>, int),
    Fail(GErr),
}

pub open spec fn txt_quote() -> Seq<char> {
    "quote"@
}

pub open spec fn txt_quasiquote() -> Seq<char> {
    "quasiquote"@
}

pub open spec fn txt_unquote() -> Seq<char> {
    "unquote"@
}

pub open spec fn txt_splice_unquote() -> Seq<char> {
    "splice-unquote"@
}

pub open spec fn txt_deref() -> Seq<char> {
    "deref"@
}

pub open spec fn txt_with_meta() -> Seq<char> {
    "with-meta"@
}

/// The two-element list `(name v)` a reader macro expands to.
pub open spec fn wrap2(name: Seq<char>, v: GVal) -> GVal {
    GVal::List(seq![GVal::Symbol(name), v], Option::None)
}

/// The key a value may serve as, if any.
pub open spec fn to_key(v: GVal) -> Option<GKey> {
    match v {
        GVal::Keyword(s) => Option::Some(GKey::Keyword(s)),
        GVal::Str(s) => Option::Some(GKey::Str(s)),
        _ => Option::None,
    }
}

/// Replace the first entry keyed `k`, or append a new one.
pub open spec fn upsert_from(ps: Seq<(GKey, GVal)>, k: GKey, v: GVal, i: int) -> Seq<(GKey, GVal)>
    decreases ps.len() - i,
{
    if i < 0 || i >= ps.len() {
        ps.push((k, v))
    } else if ps[i].0 == k {
        ps.update(i, (k, v))
    } else {
        upsert_from(ps, k, v, i + 1)
    }
}

pub open spec fn upsert(ps: Seq<(GKey, GVal)>, k: GKey, v: GVal) -> Seq<(GKey, GVal)> {
    upsert_from(ps, k, v, 0)
}

/// Parse the form that starts at token `i`.
pub open spec fn parse_form(toks: Seq<Seq<char>>, i: int) -> PForm
    decreases toks.len() - i, 1int,
{
    if i < 0 || i >= toks.len() {
        PForm::Fail(GErr::Continue)
    } else {
        let t = toks[i];
        if t == seq!['('] {
            match parse_items(toks, i + 1, ')', "list"@, Seq::empty()) {
                PItems::Items(es, j) => PForm::Val(GVal::List(es, Option::None), j),
                PItems::Fail(e) => PForm::Fail(e),
            }
        } else if t == seq!['['] {
            match parse_items(toks, i + 1, ']', "vector"@, Seq::empty()) {
                PItems::Items(es, j) => PForm::Val(GVal::Vector(es, Option::None), j),
                PItems::Fail(e) => PForm::Fail(e),
            }
        } else if t == seq!['{'] {
            match parse_entries(toks, i + 1, Seq::empty()) {
                PEntries::Entries(ps, j) => PForm::Val(GVal::HashMap(ps, Option::None), j),
                PEntries::Fail(e) => PForm::Fail(e),
            }
        } else if t == seq!['\''] {
            parse_wrap(toks, i, txt_quote())
        } else if t == seq!['`'] {
            parse_wrap(toks, i, txt_quasiquote())
        } else if t == seq!['~'] {
            parse_wrap(toks, i, txt_unquote())
        } else if t == seq!['~', '@'] {
            parse_wrap(toks, i, txt_splice_unquote())
        } else if t == seq!['@'] {
            parse_wrap(toks, i, txt_deref())
        } else if t == seq!['^'] {
            if i + 1 >= toks.len() {
                PForm::Fail(GErr::Other(txt_dangling()))
            } else {
                match parse_form(toks, i + 1) {
                    PForm::Val(m, j) => {
                        if j >= toks.len() {
                            PForm::Fail(GErr::Other(txt_dangling()))
                        } else {
                            match parse_form(toks, clamp_i(j, i + 2, toks.len() as int)) {
                                PForm::Val(v, j2) => PForm::Val(
                                    GVal::List(
                                        seq![GVal::Symbol(txt_with_meta()), v, m],
                                        Option::None,
                                    ),
                                    j2,
                                ),
                                PForm::Fail(e) => PForm::Fail(e),
                            }
                        }
                    },
                    PForm::Fail(e) => PForm::Fail(e),
                }
            }
        } else {
            match classify(t) {
                Result::Ok(v) => PForm::Val(v, i + 1),
                Result::Err(e) => PForm::Fail(e),
            }
        }
    }
}

/// A reader macro: read the next form and wrap it as `(name form)`. The
/// absence of that form is a parse error, never the silent skip signal.
pub open spec fn parse_wrap(toks: Seq<Seq<char>>, i: int, name: Seq<char>) -> PForm
    decreases toks.len() - i, 0int,
{
    if i < 0 || i >= toks.len() {
        PForm::Fail(GErr::Continue)
    } else if i + 1 >= toks.len() {
        PForm::Fail(GErr::Other(txt_dangling()))
    } else {
        match parse_form(toks, i + 1) {
            PForm::Val(v, j) => PForm::Val(wrap2(name, v), j),
            PForm::Fail(e) => PForm::Fail(e),
        }
    }
}

/// Parse forms onto `acc` until the closing token; end of input inside the
/// sequence is the unbalance named `kind`.
pub open spec fn parse_items(
    toks: Seq<Seq<char>>,
    i: int,
    close: char,
    kind: Seq<char>,
    acc: Seq<GVal>,
) -> PItems
    decreases toks.len() - i, 2int,
{
    if i < 0 || i >= toks.len() {
        PItems::Fail(GErr::Unbalance(kind))
    } else if toks[i] == seq![close] {
        PItems::Items(acc, i + 1)
    } else {
        match parse_form(toks, i) {
            PForm::Val(v, j) => parse_items(
                toks,
                clamp_i(j, i + 1, toks.len() as int),
                close,
                kind,
                acc.push(v),
            ),
            PForm::Fail(e) => PItems::Fail(e),
        }
    }
}

/// Parse key/value entries onto `acc` until `}`; a later entry with an
/// already-present key replaces it.
pub open spec fn parse_entries(toks: Seq<Seq<char>>, i: int, acc: Seq<(GKey, GVal)>) -> PEntries
    decreases toks.len() - i, 3int,
{
    if i < 0 || i >= toks.len() {
        PEntries::Fail(GErr::Unbalance("hash-map"@))
    } else if toks[i] == seq!['}'] {
        PEntries::Entries(acc, i + 1)
    } else {
        match parse_form(toks, i) {
            PForm::Fail(e) => PEntries::Fail(e),
            PForm::Val(kv, j) => match to_key(kv) {
                Option::None => PEntries::Fail(GErr::Other(txt_cannot_hash())),
                Option::Some(gk) => {
                    if j >= toks.len() {
                        PEntries::Fail(GErr::Unbalance("hash-map"@))
                    } else {
                        match parse_form(toks, clamp_i(j, i + 1, toks.len() as int)) {
                            PForm::Fail(e) => PEntries::Fail(e),
                            PForm::Val(v, j2) => parse_entries(
                                toks,
                                clamp_i(j2, i + 2, toks.len() as int),
                                upsert(acc, gk, v),
                            ),
                        }
                    }
                },
            },
        }
    }
}

// ---------------------------------------------------------------------------
// The silent skip signal comes only from an input with no token at all
// ---------------------------------------------------------------------------

/// A successful parse consumes at least one token and stays within bounds.
proof fn lemma_parse_form_progress(toks: Seq<Seq<char>>, i: int)
    ensures
        parse_form(toks, i) matches PForm::Val(_, j) ==> i < j <= toks.len(),
    decreases toks.len() - i, 1int,
{
    if 0 <= i < toks.len() {
        let t = toks[i];
        if t == seq!['('] || t == seq!['['] {
            lemma_parse_items_progress(
                toks,
                i + 1,
                if t == seq!['('] {
                    ')'
                } else {
                    ']'
                },
                if t == seq!['('] {
                    "list"@
                } else {
                    "vector"@
                },
                Seq::empty(),
            );
            assert(parse_form(toks, i) matches PForm::Val(_, j) ==> i < j <= toks.len());
        } else if t == seq!['{'] {
            lemma_parse_entries_progress(toks, i + 1, Seq::empty());
            assert(parse_form(toks, i) matches PForm::Val(_, j) ==> i < j <= toks.len());
        } else if t == seq!['\''] || t == seq!['`'] || t == seq!['~'] || t == seq!['~', '@'] || t
            == seq!['@'] {
            lemma_parse_form_progress(toks, i + 1);
            if t == seq!['\''] {
                assert(parse_form(toks, i) == parse_wrap(toks, i, txt_quote()));
            } else if t == seq!['`'] {
                assert(parse_form(toks, i) == parse_wrap(toks, i, txt_quasiquote()));
            } else if t == seq!['~'] {
                assert(parse_form(toks, i) == parse_wrap(toks, i, txt_unquote()));
            } else if t == seq!['~', '@'] {
                assert(parse_form(toks, i) == parse_wrap(toks, i, txt_splice_unquote()));
            } else {
                assert(parse_form(toks, i) == parse_wrap(toks, i, txt_deref()));
            }
            assert(parse_form(toks, i) matches PForm::Val(_, j) ==> i < j <= toks.len());
        } else if t == seq!['^'] {
            if i + 1 < toks.len() {
                lemma_parse_form_progress(toks, i + 1);
                match parse_form(toks, i + 1) {
                    PForm::Val(m, j) => {
                        if j < toks.len() {
                            lemma_parse_form_progress(toks, clamp_i(j, i + 2, toks.len() as int));
                        }
                    },
                    PForm::Fail(_) => {},
                }
            }
            assert(parse_form(toks, i) matches PForm::Val(_, j) ==> i < j <= toks.len());
        } else {
            assert(parse_form(toks, i) matches PForm::Val(_, j) ==> i < j <= toks.len());
        }
    }
}

proof fn lemma_parse_items_progress(
    toks: Seq<Seq<char>>,
    i: int,
    close: char,
    kind: Seq<char>,
    acc: Seq<GVal>,
)
    ensures
        parse_items(toks, i, close, kind, acc) matches PItems::Items(_, j) ==> i < j
            <= toks.len(),
    decreases toks.len() - i, 2int,
{
    if 0 <= i < toks.len() && toks[i] != seq![close] {
        lemma_parse_form_progress(toks, i);
        match parse_form(toks, i) {
            PForm::Val(v, j) => {
                lemma_parse_items_progress(
                    toks,
                    clamp_i(j, i + 1, toks.len() as int),
                    close,
                    kind,
                    acc.push(v),
                );
            },
            PForm::Fail(_) => {},
        }
    }
}

proof fn lemma_parse_entries_progress(toks: Seq<Seq<char>>, i: int, acc: Seq<(GKey, GVal)>)
    ensures
        parse_entries(toks, i, acc) matches PEntries::Entries(_, j) ==> i < j <= toks.len(),
    decreases toks.len() - i, 3int,
{
    if 0 <= i < toks.len() && toks[i] != seq!['}'] {
        lemma_parse_form_progress(toks, i);
        match parse_form(toks, i) {
            PForm::Val(kv, j) => {
                match to_key(kv) {
                    Option::Some(gk) => {
                        if j < toks.len() {
                            lemma_parse_form_progress(toks, clamp_i(j, i + 1, toks.len() as int));
                            match parse_form(toks, clamp_i(j, i + 1, toks.len() as int)) {
                                PForm::Val(v, j2) => {
                                    lemma_parse_entries_progress(
                                        toks,
                                        clamp_i(j2, i + 2, toks.len() as int),
                                        upsert(acc, gk, v),
                                    );
                                },
                                PForm::Fail(_) => {},
                            }
                        }
                    },
                    Option::None => {},
                }
            },
            PForm::Fail(_) => {},
        }
    }
}

/// Inside the token stream the parser never fails with the skip signal: every
/// failure there is a real parse error.
proof fn lemma_parse_form_no_continue(toks: Seq<Seq<char>>, i: int)
    requires
        0 <= i < toks.len(),
    ensures
        !(parse_form(toks, i) matches PForm::Fail(e) && e is Continue),
    decreases toks.len() - i, 1int,
{
    let t = toks[i];
    let ghost goal = !(parse_form(toks, i) matches PForm::Fail(e) && e is Continue);
    if t == seq!['('] || t == seq!['['] {
        lemma_parse_items_no_continue(
            toks,
            i + 1,
            if t == seq!['('] {
                ')'
            } else {
                ']'
            },
            if t == seq!['('] {
                "list"@
            } else {
                "vector"@
            },
            Seq::empty(),
        );
        assert(goal);
    } else if t == seq!['{'] {
        lemma_parse_entries_no_continue(toks, i + 1, Seq::empty());
        assert(goal);
    } else if t == seq!['\''] || t == seq!['`'] || t == seq!['~'] || t == seq!['~', '@'] || t
        == seq!['@'] {
        if i + 1 < toks.len() {
            lemma_parse_form_no_continue(toks, i + 1);
        }
        if t == seq!['\''] {
            assert(parse_form(toks, i) == parse_wrap(toks, i, txt_quote()));
        } else if t == seq!['`'] {
            assert(parse_form(toks, i) == parse_wrap(toks, i, txt_quasiquote()));
        } else if t == seq!['~'] {
            assert(parse_form(toks, i) == parse_wrap(toks, i, txt_unquote()));
        } else if t == seq!['~', '@'] {
            assert(parse_form(toks, i) == parse_wrap(toks, i, txt_splice_unquote()));
        } else {
            assert(parse_form(toks, i) == parse_wrap(toks, i, txt_deref()));
        }
        assert(goal);
    } else if t == seq!['^'] {
        if i + 1 < toks.len() {
            lemma_parse_form_no_continue(toks, i + 1);
            lemma_parse_form_progress(toks, i + 1);
            match parse_form(toks, i + 1) {
                PForm::Val(m, j) => {
                    if j < toks.len() {
                        lemma_parse_form_no_continue(toks, clamp_i(j, i + 2, toks.len() as int));
                    }
                },
                PForm::Fail(_) => {},
            }
        }
        assert(goal);
    } else {
        assert(goal);
    }
}

proof fn lemma_parse_items_no_continue(
    toks: Seq<Seq<char>>,
    i: int,
    close: char,
    kind: Seq<char>,
    acc: Seq<GVal>,
)
    requires
        0 <= i,
    ensures
        !(parse_items(toks, i, close, kind, acc) matches PItems::Fail(e) && e is Continue),
    decreases toks.len() - i, 2int,
{
    if i < toks.len() && toks[i] != seq![close] {
        lemma_parse_form_no_continue(toks, i);
        lemma_parse_form_progress(toks, i);
        match parse_form(toks, i) {
            PForm::Val(v, j) => {
                lemma_parse_items_no_continue(
                    toks,
                    clamp_i(j, i + 1, toks.len() as int),
                    close,
                    kind,
                    acc.push(v),
                );
            },
            PForm::Fail(_) => {},
        }
    }
}

proof fn lemma_parse_entries_no_continue(toks: Seq<Seq<char>>, i: int, acc: Seq<(GKey, GVal)>)
    requires
        0 <= i,
    ensures
        !(parse_entries(toks, i, acc) matches PEntries::Fail(e) && e is Continue),
    decreases toks.len() - i, 3int,
{
    if i < toks.len() && toks[i] != seq!['}'] {
        lemma_parse_form_no_continue(toks, i);
        lemma_parse_form_progress(toks, i);
        match parse_form(toks, i) {
            PForm::Val(kv, j) => {
                match to_key(kv) {
                    Option::Some(gk) => {
                        if j < toks.len() {
                            lemma_parse_form_no_continue(
                                toks,
                                clamp_i(j, i + 1, toks.len() as int),
                            );
                            lemma_parse_form_progress(toks, clamp_i(j, i + 1, toks.len() as int));
                            match parse_form(toks, clamp_i(j, i + 1, toks.len() as int)) {
                                PForm::Val(v, j2) => {
                                    lemma_parse_entries_no_continue(
                                        toks,
                                        clamp_i(j2, i + 2, toks.len() as int),
                                        upsert(acc, gk, v),
                                    );
                                },
                                PForm::Fail(_) => {},
                            }
                        }
                    },
                    Option::None => {},
                }
            },
            PForm::Fail(_) => {},
        }
    }
}

/// Law: reading yields the silent skip signal exactly when the input holds
/// no token at all — empty or nothing but separators and comments. Every
/// other failed input yields a printable error.
pub proof fn lemma_continue_iff_no_token(s: Seq<char>)
    ensures
        (read_spec(s) == Result::<GVal, GErr>::Err(GErr::Continue)) <==> tokenize(s).len() == 0,
{
    if tokenize(s).len() > 0 {
        lemma_parse_form_no_continue(tokenize(s), 0);
    }
}

/// Integer literals fit the machine word.
proof fn lemma_classify_wf(t: Seq<char>, ne: nat, na: nat)
    ensures
        classify(t) matches Result::Ok(v) ==> crate::types::wf_val(v, ne, na),
{
    if int_candidate(t) && int_parses(t) {
        assert(int_magnitude(t) >= 0) by {
            lemma_digits_acc_nonneg(t, int_start(t), 0);
        }
        assert(i64::MIN <= int_value(t) <= i64::MAX);
    }
}

proof fn lemma_digits_acc_nonneg(t: Seq<char>, i: int, acc: int)
    requires
        acc >= 0,
        digits_all(t, i),
    ensures
        digits_acc(t, i, acc) >= 0,
    decreases t.len() - i,
{
    if 0 <= i < t.len() {
        lemma_digits_acc_nonneg(t, i + 1, acc * 10 + digit_val(t[i]));
    }
}

/// Everything the parser builds is well formed for any interpreter: it holds
/// no atom or frame indices, its integers fit, and its map keys are
/// distinct.
proof fn lemma_parse_form_wf(toks: Seq<Seq<char>>, i: int, ne: nat, na: nat)
    ensures
        parse_form(toks, i) matches PForm::Val(v, _) ==> crate::types::wf_val(v, ne, na),
    decreases toks.len() - i, 1int,
{
    if 0 <= i < toks.len() {
        let t = toks[i];
        if t == seq!['('] || t == seq!['['] {
            lemma_parse_items_wf(
                toks,
                i + 1,
                if t == seq!['('] {
                    ')'
                } else {
                    ']'
                },
                if t == seq!['('] {
                    "list"@
                } else {
                    "vector"@
                },
                Seq::empty(),
                ne,
                na,
            );
        } else if t == seq!['{'] {
            lemma_parse_entries_wf(toks, i + 1, Seq::empty(), ne, na);
        } else if t == seq!['\''] || t == seq!['`'] || t == seq!['~'] || t == seq!['~', '@'] || t
            == seq!['@'] {
            lemma_parse_form_wf(toks, i + 1, ne, na);
            if i + 1 < toks.len() {
                match parse_form(toks, i + 1) {
                    PForm::Val(v, _) => {
                        lemma_wrap2_wf(v, ne, na);
                    },
                    PForm::Fail(_) => {},
                }
            }
            if t == seq!['\''] {
                assert(parse_form(toks, i) == parse_wrap(toks, i, txt_quote()));
            } else if t == seq!['`'] {
                assert(parse_form(toks, i) == parse_wrap(toks, i, txt_quasiquote()));
            } else if t == seq!['~'] {
                assert(parse_form(toks, i) == parse_wrap(toks, i, txt_unquote()));
            } else if t == seq!['~', '@'] {
                assert(parse_form(toks, i) == parse_wrap(toks, i, txt_splice_unquote()));
            } else {
                assert(parse_form(toks, i) == parse_wrap(toks, i, txt_deref()));
            }
        } else if t == seq!['^'] {
            if i + 1 < toks.len() {
                lemma_parse_form_wf(toks, i + 1, ne, na);
                match parse_form(toks, i + 1) {
                    PForm::Val(m, j) => {
                        if j < toks.len() {
                            lemma_parse_form_wf(toks, clamp_i(j, i + 2, toks.len() as int), ne, na);
                            match parse_form(toks, clamp_i(j, i + 2, toks.len() as int)) {
                                PForm::Val(v, _) => {
                                    lemma_meta_triple_wf(v, m, ne, na);
                                },
                                PForm::Fail(_) => {},
                            }
                        }
                    },
                    PForm::Fail(_) => {},
                }
            }
        } else {
            lemma_classify_wf(t, ne, na);
        }
    }
}

proof fn lemma_wrap2_wf(v: GVal, ne: nat, na: nat)
    requires
        crate::types::wf_val(v, ne, na),
    ensures
        forall|name: Seq<char>| crate::types::wf_val(#[trigger] wrap2(name, v), ne, na),
{
    assert forall|name: Seq<char>| crate::types::wf_val(#[trigger] wrap2(name, v), ne, na) by {
        let es = seq![GVal::Symbol(name), v];
        assert(es.len() == 2);
        assert(es[0] == GVal::Symbol(name));
        assert(es[1] == v);
        assert(crate::types::wf_val(GVal::Symbol(name), ne, na));
        assert(crate::types::wf_seq_from(es, 2, ne, na));
        assert(crate::types::wf_seq_from(es, 1, ne, na));
        assert(crate::types::wf_seq_from(es, 0, ne, na));
    }
}

proof fn lemma_meta_triple_wf(v: GVal, m: GVal, ne: nat, na: nat)
    requires
        crate::types::wf_val(v, ne, na),
        crate::types::wf_val(m, ne, na),
    ensures
        crate::types::wf_val(
            GVal::List(seq![GVal::Symbol(txt_with_meta()), v, m], Option::None),
            ne,
            na,
        ),
{
    let es = seq![GVal::Symbol(txt_with_meta()), v, m];
    assert(es.len() == 3);
    assert(es[0] == GVal::Symbol(txt_with_meta()));
    assert(es[1] == v);
    assert(es[2] == m);
    assert(crate::types::wf_val(GVal::Symbol(txt_with_meta()), ne, na));
    assert(crate::types::wf_seq_from(es, 3, ne, na));
    assert(crate::types::wf_seq_from(es, 2, ne, na));
    assert(crate::types::wf_seq_from(es, 1, ne, na));
    assert(crate::types::wf_seq_from(es, 0, ne, na));
}

proof fn lemma_wf_seq_push(s: Seq<GVal>, v: GVal, i: int, ne: nat, na: nat)
    requires
        crate::types::wf_seq_from(s, i, ne, na),
        crate::types::wf_val(v, ne, na),
        0 <= i,
    ensures
        crate::types::wf_seq_from(s.push(v), i, ne, na),
    decreases s.len() + 1 - i,
{
    if i <= s.len() {
        if i < s.len() {
            assert(s.push(v)[i] == s[i]);
        } else {
            assert(s.push(v)[i] == v);
        }
        lemma_wf_seq_push(s, v, i + 1, ne, na);
    }
}

proof fn lemma_parse_items_wf(
    toks: Seq<Seq<char>>,
    i: int,
    close: char,
    kind: Seq<char>,
    acc: Seq<GVal>,
    ne: nat,
    na: nat,
)
    requires
        crate::types::wf_seq(acc, ne, na),
    ensures
        parse_items(toks, i, close, kind, acc) matches PItems::Items(es, _)
            ==> crate::types::wf_seq(es, ne, na),
    decreases toks.len() - i, 2int,
{
    if 0 <= i < toks.len() && toks[i] != seq![close] {
        lemma_parse_form_wf(toks, i, ne, na);
        match parse_form(toks, i) {
            PForm::Val(v, j) => {
                lemma_wf_seq_push(acc, v, 0, ne, na);
                lemma_parse_items_wf(
                    toks,
                    clamp_i(j, i + 1, toks.len() as int),
                    close,
                    kind,
                    acc.push(v),
                    ne,
                    na,
                );
            },
            PForm::Fail(_) => {},
        }
    }
}

/// Replacing or appending a well-formed entry keeps a map's entries well
/// formed and its keys distinct; positions before `i` must not hold the key.
proof fn lemma_wf_upsert_from(
    ps: Seq<(GKey, GVal)>,
    k: GKey,
    v: GVal,
    i: int,
    ne: nat,
    na: nat,
)
    requires
        crate::types::uniq_keys(ps),
        crate::types::wf_pairs(ps, ne, na),
        crate::types::wf_val(v, ne, na),
        0 <= i,
        forall|j: int| 0 <= j < i && j < ps.len() ==> (#[trigger] ps[j]).0 != k,
    ensures
        crate::types::uniq_keys(upsert_from(ps, k, v, i)),
        crate::types::wf_pairs(upsert_from(ps, k, v, i), ne, na),
    decreases ps.len() - i,
{
    lemma_wf_pairs_members(ps, 0, ne, na);
    if i >= ps.len() {
        let q = ps.push((k, v));
        assert forall|a: int, b: int| 0 <= a < b < q.len() implies (#[trigger] q[a]).0 != (
        #[trigger] q[b]).0 by {
            if b < ps.len() {
                assert(q[a] == ps[a] && q[b] == ps[b]);
            } else {
                assert(q[a] == ps[a] && q[b] == (k, v));
            }
        }
        assert forall|m: int| 0 <= m < q.len() implies crate::types::wf_val(
            (#[trigger] q[m]).1,
            ne,
            na,
        ) by {
            if m < ps.len() {
                assert(q[m] == ps[m]);
            }
        }
        lemma_wf_pairs_assemble(q, 0, ne, na);
    } else if ps[i].0 == k {
        let q = ps.update(i, (k, v));
        assert forall|a: int, b: int| 0 <= a < b < q.len() implies (#[trigger] q[a]).0 != (
        #[trigger] q[b]).0 by {
            assert(q[a].0 == ps[a].0 && q[b].0 == ps[b].0);
        }
        assert forall|m: int| 0 <= m < q.len() implies crate::types::wf_val(
            (#[trigger] q[m]).1,
            ne,
            na,
        ) by {
            if m != i {
                assert(q[m] == ps[m]);
            }
        }
        lemma_wf_pairs_assemble(q, 0, ne, na);
    } else {
        lemma_wf_upsert_from(ps, k, v, i + 1, ne, na);
    }
}

proof fn lemma_wf_pairs_members(s: Seq<(GKey, GVal)>, i: int, ne: nat, na: nat)
    requires
        crate::types::wf_pairs_from(s, i, ne, na),
        0 <= i,
    ensures
        forall|k: int| i <= k < s.len() ==> crate::types::wf_val((#[trigger] s[k]).1, ne, na),
    decreases s.len() - i,
{
    if i < s.len() {
        lemma_wf_pairs_members(s, i + 1, ne, na);
    }
}

proof fn lemma_wf_pairs_assemble(s: Seq<(GKey, GVal)>, i: int, ne: nat, na: nat)
    requires
        forall|k: int| 0 <= k < s.len() ==> crate::types::wf_val((#[trigger] s[k]).1, ne, na),
        0 <= i,
    ensures
        crate::types::wf_pairs_from(s, i, ne, na),
    decreases s.len() - i,
{
    if i < s.len() {
        lemma_wf_pairs_assemble(s, i + 1, ne, na);
    }
}

proof fn lemma_parse_entries_wf(
    toks: Seq<Seq<char>>,
    i: int,
    acc: Seq<(GKey, GVal)>,
    ne: nat,
    na: nat,
)
    requires
        crate::types::uniq_keys(acc),
        crate::types::wf_pairs(acc, ne, na),
    ensures
        parse_entries(toks, i, acc) matches PEntries::Entries(qs, _) ==> (
        crate::types::uniq_keys(qs) && crate::types::wf_pairs(qs, ne, na)),
    decreases toks.len() - i, 3int,
{
    if 0 <= i < toks.len() && toks[i] != seq!['}'] {
        lemma_parse_form_wf(toks, i, ne, na);
        match parse_form(toks, i) {
            PForm::Val(kv, j) => {
                match to_key(kv) {
                    Option::Some(gk) => {
                        if j < toks.len() {
                            lemma_parse_form_wf(toks, clamp_i(j, i + 1, toks.len() as int), ne, na);
                            match parse_form(toks, clamp_i(j, i + 1, toks.len() as int)) {
                                PForm::Val(v, j2) => {
                                    lemma_wf_upsert_from(acc, gk, v, 0, ne, na);
                                    lemma_parse_entries_wf(
                                        toks,
                                        clamp_i(j2, i + 2, toks.len() as int),
                                        upsert(acc, gk, v),
                                        ne,
                                        na,
                                    );
                                },
                                PForm::Fail(_) => {},
                            }
                        }
                    },
                    Option::None => {},
                }
            },
            PForm::Fail(_) => {},
        }
    }
}

/// Law: whatever the reader returns is well formed for any interpreter — it
/// holds no frame or atom indices, its integers fit the machine word, and
/// its hash-map keys are distinct.
pub proof fn lemma_read_spec_wf(s: Seq<char>, ne: nat, na: nat)
    ensures
        read_spec(s) matches Result::Ok(g) ==> crate::types::wf_val(g, ne, na),
{
    lemma_parse_form_wf(tokenize(s), 0, ne, na);
}

/// What reading an input string yields: the first form, or an error;
/// `Continue` when the input holds no token at all.
pub open spec fn read_spec(s: Seq<char>) -> Result<GVal, GErr> {
    match parse_form(tokenize(s), 0) {
        PForm::Val(v, _) => Result::Ok(v),
        PForm::Fail(e) => Result::Err(e),
    }
}

// ---------------------------------------------------------------------------
// Executable parser
// ---------------------------------------------------------------------------

proof fn lemma_tok_view(toks: Vec<Vec<char>>, i: int)
    requires
        0 <= i < toks@.len(),
    ensures
        toks.deep_view().len() == toks@.len(),
        toks.deep_view()[i] == toks@[i]@,
{
    assert(toks.deep_view()[i] =~= toks@[i]@);
}

/// The dangling-reader-macro error.
fn err_dangling() -> (e: MalError)
    ensures
        v_err(e) == GErr::Other(txt_dangling()),
{
    MalError::Other(String::from_str("a reader macro needs a form to follow"))
}

/// Whether the token is the one-character token `c`.
fn tok_is(t: &Vec<char>, c: char) -> (r: bool)
    ensures
        r == (t@ == seq![c]),
{
    if t.len() == 1 && t[0] == c {
        proof {
            assert(t@ =~= seq![c]);
        }
        true
    } else {
        false
    }
}

/// Whether the token is the two-character token `c` `d`.
fn tok_is2(t: &Vec<char>, c: char, d: char) -> (r: bool)
    ensures
        r == (t@ == seq![c, d]),
{
    if t.len() == 2 && t[0] == c && t[1] == d {
        proof {
            assert(t@ =~= seq![c, d]);
        }
        true
    } else {
        false
    }
}

/// A fresh two-element list `(name v)`.
fn wrap2_exec(name: &str, v: MalVal) -> (r: MalVal)
    ensures
        r@ == wrap2(name@, v@),
{
    let mut es: Vec<MalVal> = Vec::new();
    es.push(MalVal::Symbol(name.to_owned()));
    es.push(v);
    let r = MalVal::List(es, Option::None);
    proof {
        crate::types::lemma_v_seq(es@);
        assert(v_seq(es@) =~= seq![GVal::Symbol(name@), v@]);
    }
    r
}

/// Replace the first entry keyed like `k`, or append.
pub(crate) fn upsert_exec(ps: &mut Vec<(Hashable, MalVal)>, k: Hashable, v: MalVal)
    ensures
        crate::types::v_pairs(final(ps)@) == upsert(crate::types::v_pairs(old(ps)@), k@, v@),
{
    let ghost gps = crate::types::v_pairs(ps@);
    let n = ps.len();
    let mut i: usize = 0;
    proof {
        crate::types::lemma_v_pairs(ps@);
    }
    while i < n
        invariant
            n == ps@.len(),
            i <= n,
            ps@ == old(ps)@,
            gps == crate::types::v_pairs(ps@),
            gps.len() == n,
            upsert_from(gps, k@, v@, 0) == upsert_from(gps, k@, v@, i as int),
        decreases n - i,
    {
        proof {
            crate::types::lemma_v_pairs(ps@);
        }
        if crate::types::key_eq(&ps[i].0, &k) {
            let ghost gk = k@;
            let ghost gv = v@;
            ps.remove(i);
            ps.insert(i, (k, v));
            proof {
                assert(ps@ =~= old(ps)@.update(i as int, (ps@[i as int].0, ps@[i as int].1)));
                crate::types::lemma_v_pairs(ps@);
                crate::types::lemma_v_pairs(old(ps)@);
                assert(crate::types::v_pairs(ps@) =~= gps.update(i as int, (gk, gv)));
            }
            return ;
        }
        i += 1;
    }
    ps.push((k, v));
    proof {
        crate::types::lemma_v_pairs(ps@);
        crate::types::lemma_v_pairs(old(ps)@);
        assert(crate::types::v_pairs(ps@) =~= gps.push((k@, v@)));
    }
}

/// The hash-map key a value may serve as.
fn to_key_exec(v: MalVal) -> (r: Result<Hashable, MalVal>)
    ensures
        match r {
            Result::Ok(k) => to_key(v@) == Option::Some(k@),
            Result::Err(w) => to_key(v@) is None && w == v,
        },
{
    match v {
        MalVal::Keyword(s) => Result::Ok(Hashable::Keyword(s)),
        MalVal::String(s) => Result::Ok(Hashable::String(s)),
        _ => Result::Err(v),
    }
}

/// Read the form that starts at token `i`; `Ok` carries the value and the
/// position of the first token after it.
fn read_form(toks: &Vec<Vec<char>>, i: usize) -> (r: Result<(MalVal, usize), MalError>)
    ensures
        match r {
            Result::Ok((v, j)) => parse_form(toks.deep_view(), i as int) == PForm::Val(
                v@,
                j as int,
            ) && i < j <= toks@.len(),
            Result::Err(e) => parse_form(toks.deep_view(), i as int) == PForm::Fail(v_err(e)),
        },
    decreases toks@.len() - i, 1int,
{
    let ghost gt = toks.deep_view();
    proof {
        assert(gt.len() == toks@.len());
    }
    if i >= toks.len() {
        return Result::Err(MalError::Continue);
    }
    proof {
        lemma_tok_view(*toks, i as int);
    }
    let t = &toks[i];
    if tok_is(t, '(') {
        match read_items(toks, i + 1, ')', "list") {
            Result::Ok((es, j)) => {
                let r = MalVal::List(es, Option::None);
                proof {
                    assert(parse_form(gt, i as int) == PForm::Val(r@, j as int));
                }
                Result::Ok((r, j))
            },
            Result::Err(e) => Result::Err(e),
        }
    } else if tok_is(t, '[') {
        match read_items(toks, i + 1, ']', "vector") {
            Result::Ok((es, j)) => {
                let r = MalVal::Vector(es, Option::None);
                proof {
                    assert(parse_form(gt, i as int) == PForm::Val(r@, j as int));
                }
                Result::Ok((r, j))
            },
            Result::Err(e) => Result::Err(e),
        }
    } else if tok_is(t, '{') {
        match read_entries(toks, i + 1) {
            Result::Ok((ps, j)) => {
                let r = MalVal::HashMap(ps, Option::None);
                proof {
                    assert(parse_form(gt, i as int) == PForm::Val(r@, j as int));
                }
                Result::Ok((r, j))
            },
            Result::Err(e) => Result::Err(e),
        }
    } else if tok_is(t, '\'') {
        if i + 1 >= toks.len() {
            proof {
                assert(parse_wrap(gt, i as int, txt_quote()) == PForm::Fail(
                    GErr::Other(txt_dangling()),
                ));
            }
            return Result::Err(err_dangling());
        }
        match read_form(toks, i + 1) {
            Result::Ok((v, j)) => {
                let r = wrap2_exec("quote", v);
                proof {
                    assert("quote"@ == txt_quote());
                    assert(r@ == wrap2(txt_quote(), v@));
                    assert(parse_wrap(gt, i as int, txt_quote()) == PForm::Val(r@, j as int));
                    assert(parse_form(gt, i as int) == PForm::Val(r@, j as int));
                }
                Result::Ok((r, j))
            },
            Result::Err(e) => Result::Err(e),
        }
    } else if tok_is(t, '`') {
        if i + 1 >= toks.len() {
            proof {
                assert(parse_wrap(gt, i as int, txt_quasiquote()) == PForm::Fail(
                    GErr::Other(txt_dangling()),
                ));
            }
            return Result::Err(err_dangling());
        }
        match read_form(toks, i + 1) {
            Result::Ok((v, j)) => {
                let r = wrap2_exec("quasiquote", v);
                proof {
                    assert(r@ == wrap2(txt_quasiquote(), v@));
                    assert(parse_wrap(gt, i as int, txt_quasiquote()) == PForm::Val(r@, j as int));
                    assert(parse_form(gt, i as int) == PForm::Val(r@, j as int));
                }
                Result::Ok((r, j))
            },
            Result::Err(e) => Result::Err(e),
        }
    } else if tok_is2(t, '~', '@') {
        if i + 1 >= toks.len() {
            proof {
                assert(parse_wrap(gt, i as int, txt_splice_unquote()) == PForm::Fail(
                    GErr::Other(txt_dangling()),
                ));
            }
            return Result::Err(err_dangling());
        }
        match read_form(toks, i + 1) {
            Result::Ok((v, j)) => {
                let r = wrap2_exec("splice-unquote", v);
                proof {
                    assert(r@ == wrap2(txt_splice_unquote(), v@));
                    assert(parse_wrap(gt, i as int, txt_splice_unquote()) == PForm::Val(r@, j as int));
                    assert(parse_form(gt, i as int) == PForm::Val(r@, j as int));
                }
                Result::Ok((r, j))
            },
            Result::Err(e) => Result::Err(e),
        }
    } else if tok_is(t, '~') {
        if i + 1 >= toks.len() {
            proof {
                assert(parse_wrap(gt, i as int, txt_unquote()) == PForm::Fail(
                    GErr::Other(txt_dangling()),
                ));
            }
            return Result::Err(err_dangling());
        }
        match read_form(toks, i + 1) {
            Result::Ok((v, j)) => {
                let r = wrap2_exec("unquote", v);
                proof {
                    assert(r@ == wrap2(txt_unquote(), v@));
                    assert(parse_wrap(gt, i as int, txt_unquote()) == PForm::Val(r@, j as int));
                    assert(parse_form(gt, i as int) == PForm::Val(r@, j as int));
                }
                Result::Ok((r, j))
            },
            Result::Err(e) => Result::Err(e),
        }
    } else if tok_is(t, '@') {
        if i + 1 >= toks.len() {
            proof {
                assert(parse_wrap(gt, i as int, txt_deref()) == PForm::Fail(
                    GErr::Other(txt_dangling()),
                ));
            }
            return Result::Err(err_dangling());
        }
        match read_form(toks, i + 1) {
            Result::Ok((v, j)) => {
                let r = wrap2_exec("deref", v);
                proof {
                    assert(r@ == wrap2(txt_deref(), v@));
                    assert(parse_wrap(gt, i as int, txt_deref()) == PForm::Val(r@, j as int));
                    assert(parse_form(gt, i as int) == PForm::Val(r@, j as int));
                }
                Result::Ok((r, j))
            },
            Result::Err(e) => Result::Err(e),
        }
    } else if tok_is(t, '^') {
        if i + 1 >= toks.len() {
            return Result::Err(err_dangling());
        }
        match read_form(toks, i + 1) {
            Result::Err(e) => Result::Err(e),
            Result::Ok((m, j)) => {
                if j >= toks.len() {
                    return Result::Err(err_dangling());
                }
                match read_form(toks, j) {
                Result::Err(e) => Result::Err(e),
                Result::Ok((v, j2)) => {
                    let mut es: Vec<MalVal> = Vec::new();
                    es.push(MalVal::Symbol("with-meta".to_owned()));
                    es.push(v);
                    es.push(m);
                    let r = MalVal::List(es, Option::None);
                    proof {
                        crate::types::lemma_v_seq(es@);
                        assert(v_seq(es@) =~= seq![
                            GVal::Symbol(txt_with_meta()),
                            es@[1]@,
                            es@[2]@,
                        ]);
                        assert(parse_form(gt, i as int) == PForm::Val(r@, j2 as int));
                    }
                    Result::Ok((r, j2))
                },
                }
            },
        }
    } else {
        match classify_exec(t) {
            Result::Ok(v) => {
                proof {
                    assert(parse_form(gt, i as int) == PForm::Val(v@, i as int + 1));
                }
                Result::Ok((v, i + 1))
            },
            Result::Err(e) => Result::Err(e),
        }
    }
}

/// Read forms until the matching `close`.
fn read_items(toks: &Vec<Vec<char>>, i: usize, close: char, kind: &'static str) -> (r: Result<
    (Vec<MalVal>, usize),
    MalError,
>)
    requires
        i <= toks@.len(),
    ensures
        match r {
            Result::Ok((es, j)) => parse_items(
                toks.deep_view(),
                i as int,
                close,
                kind@,
                Seq::empty(),
            ) == PItems::Items(v_seq(es@), j as int) && i < j <= toks@.len(),
            Result::Err(e) => parse_items(toks.deep_view(), i as int, close, kind@, Seq::empty())
                == PItems::Fail(v_err(e)),
        },
    decreases toks@.len() - i, 2int,
{
    let ghost gt = toks.deep_view();
    let mut built: Vec<MalVal> = Vec::new();
    let mut cur = i;
    proof {
        assert(gt.len() == toks@.len());
        crate::types::lemma_v_seq(built@);
        assert(v_seq(built@) =~= Seq::<GVal>::empty());
    }
    loop
        invariant
            i <= cur <= toks@.len(),
            gt == toks.deep_view(),
            gt.len() == toks@.len(),
            parse_items(gt, i as int, close, kind@, Seq::empty()) == parse_items(
                gt,
                cur as int,
                close,
                kind@,
                v_seq(built@),
            ),
        decreases toks@.len() - cur,
    {
        if cur >= toks.len() {
            return Result::Err(MalError::Unbalance(kind));
        }
        proof {
            lemma_tok_view(*toks, cur as int);
        }
        if tok_is(&toks[cur], close) {
            return Result::Ok((built, cur + 1));
        }
        match read_form(toks, cur) {
            Result::Err(e) => {
                return Result::Err(e);
            },
            Result::Ok((v, j)) => {
                let ghost pre = v_seq(built@);
                let ghost gv = v@;
                proof {
                    crate::types::lemma_v_seq(built@);
                }
                built.push(v);
                proof {
                    crate::types::lemma_v_seq(built@);
                    assert(v_seq(built@) =~= pre.push(gv));
                }
                cur = j;
            },
        }
    }
}

/// Read key/value entries until `}`.
fn read_entries(toks: &Vec<Vec<char>>, i: usize) -> (r: Result<
    (Vec<(Hashable, MalVal)>, usize),
    MalError,
>)
    requires
        i <= toks@.len(),
    ensures
        match r {
            Result::Ok((ps, j)) => parse_entries(toks.deep_view(), i as int, Seq::empty())
                == PEntries::Entries(crate::types::v_pairs(ps@), j as int) && i < j <= toks@.len(),
            Result::Err(e) => parse_entries(toks.deep_view(), i as int, Seq::empty())
                == PEntries::Fail(v_err(e)),
        },
    decreases toks@.len() - i, 3int,
{
    let ghost gt = toks.deep_view();
    let mut built: Vec<(Hashable, MalVal)> = Vec::new();
    let mut cur = i;
    proof {
        assert(gt.len() == toks@.len());
        crate::types::lemma_v_pairs(built@);
        assert(crate::types::v_pairs(built@) =~= Seq::<(GKey, GVal)>::empty());
    }
    loop
        invariant
            i <= cur <= toks@.len(),
            gt == toks.deep_view(),
            gt.len() == toks@.len(),
            parse_entries(gt, i as int, Seq::empty()) == parse_entries(
                gt,
                cur as int,
                crate::types::v_pairs(built@),
            ),
        decreases toks@.len() - cur,
    {
        if cur >= toks.len() {
            return Result::Err(MalError::Unbalance("hash-map"));
        }
        proof {
            lemma_tok_view(*toks, cur as int);
        }
        if tok_is(&toks[cur], '}') {
            return Result::Ok((built, cur + 1));
        }
        match read_form(toks, cur) {
            Result::Err(e) => {
                return Result::Err(e);
            },
            Result::Ok((kv, j)) => {
                match to_key_exec(kv) {
                    Result::Err(_) => {
                        return Result::Err(
                            MalError::Other(
                                String::from_str("only strings and keywords can be hash-map keys"),
                            ),
                        );
                    },
                    Result::Ok(k) => {
                        if j >= toks.len() {
                            return Result::Err(MalError::Unbalance("hash-map"));
                        }
                        match read_form(toks, j) {
                            Result::Err(e) => {
                                return Result::Err(e);
                            },
                            Result::Ok((v, j2)) => {
                                upsert_exec(&mut built, k, v);
                                cur = j2;
                            },
                        }
                    },
                }
            },
        }
    }
}

/// Read the first form of the input: the reader's entry point. Trailing
/// tokens are left unread; an input with no token at all is `Continue`.
pub fn read_str(input: &str) -> (r: Result<MalVal, MalError>)
    ensures
        match r {
            Result::Ok(v) => read_spec(input@) == Result::<GVal, GErr>::Ok(v@),
            Result::Err(e) => read_spec(input@) == Result::<GVal, GErr>::Err(v_err(e)),
        },
{
    let cs = str_to_chars(input);
    let toks = tokenize_exec(&cs);
    match read_form(&toks, 0) {
        Result::Ok((v, _)) => Result::Ok(v),
        Result::Err(e) => Result::Err(e),
    }
}

} // verus!
