//! The equality laws of the language's `=`: it is reflexive on well-formed
//! values, it never sees the difference between a list and a vector with the
//! same elements, it ignores a hash-map's entry order, and it ignores
//! metadata.
use vstd::prelude::*;

use crate::printer::{
    dec_digits, digit_char, esc_char, escape_from, escape_prefix, escape_str,
    lemma_escape_prefix_all, print_int,
};
use crate::reader::{
    atom_end, classify, digit_val, digits_acc, digits_all, int_candidate, int_magnitude,
    int_parses, int_start, int_value, is_digit, is_special, is_term, is_ws, parse_form,
    read_spec, token_end, tokenize, tokens_from, unescape_from, PForm, URes,
};
use crate::types::{
    has_match, pairs_fwd, pairs_rev, rev_match, seq_val_eq_from, uniq_keys, val_eq, wf_val, GKey,
    GVal,
};

verus! {

/// The elements of a well-formed stretch are each well formed (local copy of
/// the evaluator's inversion, over ghost sequences).
proof fn lemma_wf_elems(s: Seq<GVal>, i: int, ne: nat, na: nat)
    requires
        crate::types::wf_seq_from(s, i, ne, na),
        0 <= i,
    ensures
        forall|k: int| i <= k < s.len() ==> wf_val(#[trigger] s[k], ne, na),
    decreases s.len() - i,
{
    if i < s.len() {
        lemma_wf_elems(s, i + 1, ne, na);
    }
}

proof fn lemma_wf_pair_elems(s: Seq<(GKey, GVal)>, i: int, ne: nat, na: nat)
    requires
        crate::types::wf_pairs_from(s, i, ne, na),
        0 <= i,
    ensures
        forall|k: int| i <= k < s.len() ==> wf_val((#[trigger] s[k]).1, ne, na),
    decreases s.len() - i,
{
    if i < s.len() {
        lemma_wf_pair_elems(s, i + 1, ne, na);
    }
}

/// Equal sequences are pairwise `val_eq` once every element equals itself.
proof fn lemma_seq_refl(x: Seq<GVal>, i: int, ne: nat, na: nat)
    requires
        forall|k: int| 0 <= k < x.len() ==> wf_val(#[trigger] x[k], ne, na),
        0 <= i,
    ensures
        seq_val_eq_from(x, x, i),
    decreases x, 1int, x.len() - i,
{
    if i < x.len() {
        lemma_val_eq_refl(x[i], ne, na);
        lemma_seq_refl(x, i + 1, ne, na);
    }
}

/// Scanning for `ps[t]`'s key finds `ps[t]` itself when keys are distinct.
proof fn lemma_has_match_self(ps: Seq<(GKey, GVal)>, j: int, t: int)
    requires
        uniq_keys(ps),
        0 <= j <= t < ps.len(),
        val_eq(ps[t].1, ps[t].1),
    ensures
        has_match(ps[t].0, ps[t].1, ps, j),
    decreases t - j,
{
    if j < t {
        lemma_has_match_self(ps, j + 1, t);
    }
}

proof fn lemma_rev_match_self(ps: Seq<(GKey, GVal)>, j: int, t: int)
    requires
        uniq_keys(ps),
        0 <= j <= t < ps.len(),
        val_eq(ps[t].1, ps[t].1),
    ensures
        rev_match(ps[t].0, ps[t].1, ps, j),
    decreases t - j,
{
    if j < t {
        lemma_rev_match_self(ps, j + 1, t);
    }
}

proof fn lemma_pairs_fwd_refl(ps: Seq<(GKey, GVal)>, i: int, ne: nat, na: nat)
    requires
        uniq_keys(ps),
        forall|k: int| 0 <= k < ps.len() ==> wf_val((#[trigger] ps[k]).1, ne, na),
        0 <= i,
    ensures
        pairs_fwd(ps, ps, i),
    decreases ps, 1int, ps.len() - i,
{
    if i < ps.len() {
        lemma_val_eq_refl(ps[i].1, ne, na);
        lemma_has_match_self(ps, 0, i);
        lemma_pairs_fwd_refl(ps, i + 1, ne, na);
    }
}

proof fn lemma_pairs_rev_refl(ps: Seq<(GKey, GVal)>, j: int, ne: nat, na: nat)
    requires
        uniq_keys(ps),
        forall|k: int| 0 <= k < ps.len() ==> wf_val((#[trigger] ps[k]).1, ne, na),
        0 <= j,
    ensures
        pairs_rev(ps, ps, j),
    decreases ps, 1int, ps.len() - j,
{
    if j < ps.len() {
        lemma_val_eq_refl(ps[j].1, ne, na);
        lemma_rev_match_self(ps, 0, j);
        lemma_pairs_rev_refl(ps, j + 1, ne, na);
    }
}

/// The language's `=` is reflexive on well-formed values.
pub proof fn lemma_val_eq_refl(v: GVal, ne: nat, na: nat)
    requires
        wf_val(v, ne, na),
    ensures
        val_eq(v, v),
    decreases v, 2int, 0int,
{
    match v {
        GVal::List(x, _) => {
            lemma_wf_elems(x, 0, ne, na);
            lemma_seq_refl(x, 0, ne, na);
        },
        GVal::Vector(x, _) => {
            lemma_wf_elems(x, 0, ne, na);
            lemma_seq_refl(x, 0, ne, na);
        },
        GVal::HashMap(ps, _) => {
            lemma_wf_pair_elems(ps, 0, ne, na);
            lemma_pairs_fwd_refl(ps, 0, ne, na);
            lemma_pairs_rev_refl(ps, 0, ne, na);
        },
        _ => {},
    }
}

/// Law: a list and a vector carrying the same elements are equal under the
/// language's `=`, whatever their metadata — the tag never separates them.
pub proof fn lemma_list_vector_equal(
    x: Seq<GVal>,
    m1: Option<Box<GVal>>,
    m2: Option<Box<GVal>>,
    ne: nat,
    na: nat,
)
    requires
        wf_val(GVal::List(x, m1), ne, na),
    ensures
        val_eq(GVal::List(x, m1), GVal::Vector(x, m2)),
        val_eq(GVal::Vector(x, m2), GVal::List(x, m1)),
        val_eq(GVal::List(x, m1), GVal::List(x, m2)),
        val_eq(GVal::Vector(x, m1), GVal::Vector(x, m2)),
    decreases x.len(),
{
    lemma_wf_elems(x, 0, ne, na);
    lemma_seq_refl(x, 0, ne, na);
}

/// Scanning `y` for `k` finds entry `t` when `y[t]` is the only entry keyed
/// `k`.
proof fn lemma_has_match_found(y: Seq<(GKey, GVal)>, k: GKey, v: GVal, j: int, t: int)
    requires
        uniq_keys(y),
        0 <= j <= t < y.len(),
        y[t].0 == k,
        val_eq(v, y[t].1),
    ensures
        has_match(k, v, y, j),
    decreases t - j,
{
    if j < t {
        lemma_has_match_found(y, k, v, j + 1, t);
    }
}

proof fn lemma_rev_match_found(x: Seq<(GKey, GVal)>, k: GKey, yv: GVal, j: int, t: int)
    requires
        uniq_keys(x),
        0 <= j <= t < x.len(),
        x[t].0 == k,
        val_eq(x[t].1, yv),
    ensures
        rev_match(k, yv, x, j),
    decreases t - j,
{
    if j < t {
        lemma_rev_match_found(x, k, yv, j + 1, t);
    }
}

/// Two maps hold the same entries: each entry of either appears, exactly as
/// it is, in the other.
pub open spec fn same_entries(x: Seq<(GKey, GVal)>, y: Seq<(GKey, GVal)>) -> bool {
    (forall|i: int|
        #![trigger x[i]]
        0 <= i < x.len() ==> exists|j: int| 0 <= j < y.len() && #[trigger] y[j] == x[i]) && (
    forall|j: int|
        #![trigger y[j]]
        0 <= j < y.len() ==> exists|i: int| 0 <= i < x.len() && #[trigger] x[i] == y[j])
}

proof fn lemma_pairs_fwd_perm(
    x: Seq<(GKey, GVal)>,
    y: Seq<(GKey, GVal)>,
    i: int,
    ne: nat,
    na: nat,
)
    requires
        uniq_keys(y),
        same_entries(x, y),
        forall|k: int| 0 <= k < x.len() ==> wf_val((#[trigger] x[k]).1, ne, na),
        0 <= i,
    ensures
        pairs_fwd(x, y, i),
    decreases x, 1int, x.len() - i,
{
    if i < x.len() {
        let j = choose|j: int| 0 <= j < y.len() && #[trigger] y[j] == x[i];
        lemma_val_eq_refl(x[i].1, ne, na);
        lemma_has_match_found(y, x[i].0, x[i].1, 0, j);
        lemma_pairs_fwd_perm(x, y, i + 1, ne, na);
    }
}

proof fn lemma_pairs_rev_perm(
    x: Seq<(GKey, GVal)>,
    y: Seq<(GKey, GVal)>,
    j: int,
    ne: nat,
    na: nat,
)
    requires
        uniq_keys(x),
        same_entries(x, y),
        forall|k: int| 0 <= k < x.len() ==> wf_val((#[trigger] x[k]).1, ne, na),
        0 <= j,
    ensures
        pairs_rev(x, y, j),
    decreases x, 1int, y.len() - j,
{
    if j < y.len() {
        let i = choose|i: int| 0 <= i < x.len() && #[trigger] x[i] == y[j];
        lemma_val_eq_refl(x[i].1, ne, na);
        lemma_rev_match_found(x, y[j].0, y[j].1, 0, i);
        lemma_pairs_rev_perm(x, y, j + 1, ne, na);
    }
}

/// Law: hash-map equality ignores insertion order. Two maps with distinct
/// keys that hold the same entries, in any order and under any metadata, are
/// equal under the language's `=`.
pub proof fn lemma_map_order_irrelevant(
    x: Seq<(GKey, GVal)>,
    y: Seq<(GKey, GVal)>,
    m1: Option<Box<GVal>>,
    m2: Option<Box<GVal>>,
    ne: nat,
    na: nat,
)
    requires
        uniq_keys(x),
        uniq_keys(y),
        same_entries(x, y),
        wf_val(GVal::HashMap(x, m1), ne, na),
    ensures
        val_eq(GVal::HashMap(x, m1), GVal::HashMap(y, m2)),
{
    lemma_wf_pair_elems(x, 0, ne, na);
    lemma_pairs_fwd_perm(x, y, 0, ne, na);
    lemma_pairs_rev_perm(x, y, 0, ne, na);
}

/// Law: metadata never takes part in equality: giving a value other metadata
/// leaves it equal to itself under the language's `=`.
pub proof fn lemma_meta_ignored(v: GVal, m: GVal, ne: nat, na: nat)
    requires
        wf_val(v, ne, na),
    ensures
        crate::malcore::set_meta(v, m) matches Option::Some(w) ==> val_eq(v, w) && val_eq(w, v),
{
    lemma_val_eq_refl(v, ne, na);
    match v {
        GVal::List(x, _) => {
            lemma_wf_elems(x, 0, ne, na);
            lemma_seq_refl(x, 0, ne, na);
        },
        GVal::Vector(x, _) => {
            lemma_wf_elems(x, 0, ne, na);
            lemma_seq_refl(x, 0, ne, na);
        },
        GVal::HashMap(ps, _) => {
            lemma_wf_pair_elems(ps, 0, ne, na);
            lemma_pairs_fwd_refl(ps, 0, ne, na);
            lemma_pairs_rev_refl(ps, 0, ne, na);
        },
        _ => {},
    }
}

// ---------------------------------------------------------------------------
// Reading back what the printer wrote: the string law
// ---------------------------------------------------------------------------

/// The string token the readable printer emits for `s`.
pub open spec fn string_token(s: Seq<char>) -> Seq<char> {
    seq!['"'] + escape_str(s) + seq!['"']
}

proof fn lemma_unescape_from_escape(s: Seq<char>, i: int, acc: Seq<char>)
    requires
        0 <= i <= s.len(),
    ensures
        unescape_from(string_token(s), 1 + escape_prefix(s, i).len() as int, acc) == URes::Done(
            acc + s.skip(i),
        ),
    decreases s.len() - i,
{
    let t = string_token(s);
    lemma_escape_prefix_all(s, i);
    let pos: int = 1 + escape_prefix(s, i).len() as int;
    if i == s.len() {
        assert(escape_from(s, i) =~= Seq::<char>::empty());
        assert(escape_str(s) =~= escape_prefix(s, i));
        assert(t[pos] == '"');
        assert(acc + s.skip(i) =~= acc);
    } else {
        let c = s[i];
        assert(escape_prefix(s, i + 1) == escape_prefix(s, i) + esc_char(c));
        assert(escape_from(s, i) == esc_char(c) + escape_from(s, i + 1));
        lemma_escape_prefix_all(s, i + 1);
        lemma_unescape_from_escape(s, i + 1, acc.push(c));
        assert(acc.push(c) + s.skip(i + 1) =~= acc + s.skip(i));
        if c == '\\' {
            assert(t[pos] == '\\');
            assert(t[pos + 1] == '\\');
        } else if c == '"' {
            assert(t[pos] == '\\');
            assert(t[pos + 1] == '"');
        } else if c == '\n' {
            assert(t[pos] == '\\');
            assert(t[pos + 1] == 'n');
        } else {
            assert(t[pos] == c);
        }
    }
}

/// Law: reading back the readable form of a string recovers the string: the
/// escapes the printer writes are exactly the escapes the reader resolves.
pub proof fn lemma_string_round_trip(s: Seq<char>)
    ensures
        unescape_from(string_token(s), 1, Seq::empty()) == URes::Done(s),
{
    lemma_unescape_from_escape(s, 0, Seq::empty());
    assert(escape_prefix(s, 0).len() == 0);
    assert(Seq::<char>::empty() + s.skip(0) =~= s);
}

/// The scan for the end of the printed string token passes every escape and
/// stops just past the closing quote.
proof fn lemma_str_token_end_of_escape(s: Seq<char>, i: int)
    requires
        0 <= i <= s.len(),
    ensures
        crate::reader::str_token_end(string_token(s), 1 + escape_prefix(s, i).len() as int)
            == string_token(s).len(),
    decreases s.len() - i,
{
    let t = string_token(s);
    lemma_escape_prefix_all(s, i);
    let pos: int = 1 + escape_prefix(s, i).len() as int;
    if i == s.len() {
        assert(escape_from(s, i) =~= Seq::<char>::empty());
        assert(escape_str(s) =~= escape_prefix(s, i));
        assert(t[pos] == '"');
    } else {
        let c = s[i];
        assert(escape_prefix(s, i + 1) == escape_prefix(s, i) + esc_char(c));
        assert(escape_from(s, i) == esc_char(c) + escape_from(s, i + 1));
        lemma_str_token_end_of_escape(s, i + 1);
        if c == '\\' || c == '"' || c == '\n' {
            assert(t[pos] == '\\');
        } else {
            assert(t[pos] == c);
        }
    }
}

/// Law: the readable text the printer writes for a string reads back as the
/// same string — through the whole reader, tokenizer included.
pub proof fn lemma_string_read_round_trip(s: Seq<char>)
    ensures
        read_spec(string_token(s)) == Result::<GVal, crate::types::GErr>::Ok(GVal::Str(s)),
        string_token(s) == crate::printer::print_string(s, true),
{
    let t = string_token(s);
    assert(t[0] == '"');
    assert(t.len() >= 2);
    lemma_str_token_end_of_escape(s, 0);
    assert(crate::reader::skip_trivia(t, 0) == 0);
    assert(token_end(t, 0) == t.len());
    assert(t.subrange(0, t.len() as int) =~= t);
    assert(tokens_from(t, t.len() as int) =~= Seq::<Seq<char>>::empty());
    assert(tokenize(t) =~= seq![t]);
    let toks = seq![t];
    assert(toks[0] == t);
    assert(t != seq!['(']) by {
        if t == seq!['('] {
            assert(t[0] == '(');
        }
    }
    assert(t != seq!['[']) by {
        if t == seq!['['] {
            assert(t[0] == '[');
        }
    }
    assert(t != seq!['{']) by {
        if t == seq!['{'] {
            assert(t[0] == '{');
        }
    }
    assert(t != seq!['\'']) by {
        if t == seq!['\''] {
            assert(t[0] == '\'');
        }
    }
    assert(t != seq!['`']) by {
        if t == seq!['`'] {
            assert(t[0] == '`');
        }
    }
    assert(t != seq!['~']) by {
        if t == seq!['~'] {
            assert(t[0] == '~');
        }
    }
    assert(t != seq!['~', '@']) by {
        if t == seq!['~', '@'] {
            assert(t[0] == '~');
        }
    }
    assert(t != seq!['@']) by {
        if t == seq!['@'] {
            assert(t[0] == '@');
        }
    }
    assert(t != seq!['^']) by {
        if t == seq!['^'] {
            assert(t[0] == '^');
        }
    }
    assert(!int_candidate(t));
    lemma_string_round_trip(s);
    assert(classify(t) == Result::<GVal, crate::types::GErr>::Ok(GVal::Str(s)));
    assert(parse_form(toks, 0) == PForm::Val(GVal::Str(s), 1));
}

/// Law: the text the printer writes for a keyword reads back as the same
/// keyword, provided the name is made of atom characters — the only names a
/// keyword can ever have been read with.
pub proof fn lemma_keyword_read_round_trip(name: Seq<char>)
    requires
        forall|k: int| 0 <= k < name.len() ==> !is_term(#[trigger] name[k]),
    ensures
        read_spec(seq![':'] + name) == Result::<GVal, crate::types::GErr>::Ok(GVal::Keyword(name)),
        seq![':'] + name == crate::printer::print_key(GKey::Keyword(name), true),
{
    let t = seq![':'] + name;
    assert(t[0] == ':');
    assert forall|k: int| 0 <= k < t.len() implies !is_term(#[trigger] t[k]) by {
        if k > 0 {
            assert(t[k] == name[k - 1]);
        }
    }
    lemma_atom_parses_by_classify(t);
    assert(!int_candidate(t));
    assert(t.skip(1) =~= name);
    assert(classify(t) == Result::<GVal, crate::types::GErr>::Ok(GVal::Keyword(name)));
}

/// Law: the words `nil`, `true` and `false` read back as the values the
/// printer wrote them for.
pub proof fn lemma_reserved_words_read_round_trip()
    ensures
        read_spec(crate::printer::txt_nil()) == Result::<GVal, crate::types::GErr>::Ok(GVal::Nil),
        read_spec(crate::printer::txt_true()) == Result::<GVal, crate::types::GErr>::Ok(
            GVal::Bool(true),
        ),
        read_spec(crate::printer::txt_false()) == Result::<GVal, crate::types::GErr>::Ok(
            GVal::Bool(false),
        ),
{
    let tn = crate::printer::txt_nil();
    let tt = crate::printer::txt_true();
    let tf = crate::printer::txt_false();
    assert(forall|k: int| 0 <= k < tn.len() ==> !is_term(#[trigger] tn[k]));
    assert(forall|k: int| 0 <= k < tt.len() ==> !is_term(#[trigger] tt[k]));
    assert(forall|k: int| 0 <= k < tf.len() ==> !is_term(#[trigger] tf[k]));
    lemma_atom_parses_by_classify(tn);
    lemma_atom_parses_by_classify(tt);
    lemma_atom_parses_by_classify(tf);
}

/// Law: a symbol's name reads back as the same symbol, provided the name is
/// made of atom characters and is not something else first: not a reserved
/// word, not an integer literal, and not shaped like a keyword or string.
pub proof fn lemma_symbol_read_round_trip(name: Seq<char>)
    requires
        name.len() >= 1,
        forall|k: int| 0 <= k < name.len() ==> !is_term(#[trigger] name[k]),
        name[0] != ':',
        !int_candidate(name),
        name != crate::printer::txt_true(),
        name != crate::printer::txt_false(),
        name != crate::printer::txt_nil(),
    ensures
        read_spec(name) == Result::<GVal, crate::types::GErr>::Ok(GVal::Symbol(name)),
{
    assert(name[0] != '"');
    lemma_atom_parses_by_classify(name);
    assert(classify(name) == Result::<GVal, crate::types::GErr>::Ok(GVal::Symbol(name)));
}

// ---------------------------------------------------------------------------
// Reading back what the printer wrote: the integer law
// ---------------------------------------------------------------------------

proof fn lemma_digit_char_is_digit(d: nat)
    requires
        d < 10,
    ensures
        is_digit(digit_char(d)),
        digit_val(digit_char(d)) == d,
        digit_char(d) != '-',
{
}

proof fn lemma_digits_all_push(s: Seq<char>, c: char, i: int)
    requires
        digits_all(s, i),
        is_digit(c),
    ensures
        digits_all(s.push(c), i),
    decreases s.len() + 1 - i,
{
    if 0 <= i <= s.len() {
        lemma_digits_all_push(s, c, i + 1);
    }
}

proof fn lemma_dec_digits_all(n: nat)
    ensures
        digits_all(dec_digits(n), 0),
        dec_digits(n).len() >= 1,
        forall|k: int| 0 <= k < dec_digits(n).len() ==> is_digit(#[trigger] dec_digits(n)[k]),
        dec_digits(n)[0] != '-',
    decreases n,
{
    if n < 10 {
        lemma_digit_char_is_digit(n);
        assert(dec_digits(n) == seq![digit_char(n)]);
        assert(dec_digits(n)[0] == digit_char(n));
        assert(digits_all(dec_digits(n), 1));
        assert(digits_all(dec_digits(n), 0));
        lemma_all_digits_from(dec_digits(n), 0);
    } else {
        lemma_dec_digits_all(n / 10);
        lemma_digit_char_is_digit(n % 10);
        lemma_digits_all_push(dec_digits(n / 10), digit_char(n % 10), 0);
        assert(dec_digits(n) == dec_digits(n / 10).push(digit_char(n % 10)));
        assert(dec_digits(n)[0] == dec_digits(n / 10)[0]);
        lemma_all_digits_from(dec_digits(n), 0);
    }
}

/// `digits_all` gives each position, and each position gives `digits_all`.
proof fn lemma_all_digits_from(s: Seq<char>, i: int)
    requires
        digits_all(s, i),
        0 <= i,
    ensures
        forall|k: int| i <= k < s.len() ==> is_digit(#[trigger] s[k]),
    decreases s.len() - i,
{
    if i < s.len() {
        lemma_all_digits_from(s, i + 1);
    }
}

proof fn lemma_digits_acc_push(s: Seq<char>, d: char, i: int, acc: int)
    requires
        0 <= i <= s.len(),
    ensures
        digits_acc(s.push(d), i, acc) == digits_acc(s, i, acc) * 10 + digit_val(d),
    decreases s.len() - i,
{
    assert(s.push(d).len() == s.len() + 1);
    if i < s.len() {
        assert(s.push(d)[i] == s[i]);
        lemma_digits_acc_push(s, d, i + 1, acc * 10 + digit_val(s[i]));
    } else {
        assert(s.push(d)[i] == d);
        assert(digits_acc(s.push(d), i + 1, acc * 10 + digit_val(d)) == acc * 10 + digit_val(
            d,
        ));
    }
}

proof fn lemma_dec_digits_value(n: nat)
    ensures
        digits_acc(dec_digits(n), 0, 0) == n,
    decreases n,
{
    if n < 10 {
        lemma_digit_char_is_digit(n);
        assert(dec_digits(n) == seq![digit_char(n)]);
        assert(digits_acc(dec_digits(n), 1, n as int) == n);
        assert(digits_acc(dec_digits(n), 0, 0) == digits_acc(dec_digits(n), 1, 0 * 10
            + digit_val(dec_digits(n)[0])));
    } else {
        lemma_dec_digits_value(n / 10);
        lemma_digit_char_is_digit(n % 10);
        lemma_digits_acc_push(dec_digits(n / 10), digit_char(n % 10), 0, 0);
    }
}

proof fn lemma_digits_all_shift(s: Seq<char>, c: char, i: int)
    requires
        digits_all(s, i),
        0 <= i,
    ensures
        digits_all(seq![c] + s, i + 1),
    decreases s.len() - i,
{
    if i < s.len() {
        assert((seq![c] + s)[i + 1] == s[i]);
        lemma_digits_all_shift(s, c, i + 1);
    }
}

proof fn lemma_digits_acc_shift(s: Seq<char>, c: char, i: int, acc: int)
    requires
        0 <= i,
    ensures
        digits_acc(seq![c] + s, i + 1, acc) == digits_acc(s, i, acc),
    decreases s.len() - i,
{
    if i < s.len() {
        assert((seq![c] + s)[i + 1] == s[i]);
        lemma_digits_acc_shift(s, c, i + 1, acc * 10 + digit_val(s[i]));
    }
}

/// A character of a decimal literal: a digit or the leading minus sign.
pub open spec fn dec_char(c: char) -> bool {
    is_digit(c) || c == '-'
}

proof fn lemma_dec_char_is_plain(c: char)
    requires
        dec_char(c),
    ensures
        !is_term(c),
        !is_special(c),
        !is_ws(c),
        c != '~' && c != '"' && c != ';' && c != '^' && c != '@' && c != '\'' && c != '`' && c
            != '(' && c != '[' && c != '{' && c != '}' && c != ']' && c != ')',
{
}

proof fn lemma_atom_end_all(t: Seq<char>, j: int)
    requires
        0 <= j <= t.len(),
        forall|k: int| 0 <= k < t.len() ==> !is_term(#[trigger] t[k]),
    ensures
        atom_end(t, j) == t.len(),
    decreases t.len() - j,
{
    if j < t.len() {
        lemma_atom_end_all(t, j + 1);
    }
}

/// Text made of atom characters is one whole token.
proof fn lemma_atom_tokenizes_whole(t: Seq<char>)
    requires
        t.len() >= 1,
        forall|k: int| 0 <= k < t.len() ==> !is_term(#[trigger] t[k]),
        t[0] != ';',
    ensures
        tokenize(t) == seq![t],
{
    lemma_atom_end_all(t, 1);
    assert(crate::reader::skip_trivia(t, 0) == 0);
    assert(token_end(t, 0) == t.len());
    assert(t.subrange(0, t.len() as int) =~= t);
    assert(tokens_from(t, t.len() as int) =~= Seq::<Seq<char>>::empty());
    assert(seq![t.subrange(0, t.len() as int)] + tokens_from(t, t.len() as int) =~= seq![t]);
}

/// An atom-character token is none of the reader-macro tokens, so the parser
/// hands it to classification.
proof fn lemma_atom_parses_by_classify(t: Seq<char>)
    requires
        t.len() >= 1,
        forall|k: int| 0 <= k < t.len() ==> !is_term(#[trigger] t[k]),
        t[0] != ';',
    ensures
        read_spec(t) == (match classify(t) {
            Result::Ok(v) => Result::<GVal, crate::types::GErr>::Ok(v),
            Result::Err(e) => Result::<GVal, crate::types::GErr>::Err(e),
        }),
{
    lemma_atom_tokenizes_whole(t);
    let toks = seq![t];
    assert(toks[0] == t);
    assert(t != seq!['(']) by {
        if t == seq!['('] {
            assert(t[0] == '(');
        }
    }
    assert(t != seq!['[']) by {
        if t == seq!['['] {
            assert(t[0] == '[');
        }
    }
    assert(t != seq!['{']) by {
        if t == seq!['{'] {
            assert(t[0] == '{');
        }
    }
    assert(t != seq!['\'']) by {
        if t == seq!['\''] {
            assert(t[0] == '\'');
        }
    }
    assert(t != seq!['`']) by {
        if t == seq!['`'] {
            assert(t[0] == '`');
        }
    }
    assert(t != seq!['~']) by {
        if t == seq!['~'] {
            assert(t[0] == '~');
        }
    }
    assert(t != seq!['~', '@']) by {
        if t == seq!['~', '@'] {
            assert(t[0] == '~');
        }
    }
    assert(t != seq!['@']) by {
        if t == seq!['@'] {
            assert(t[0] == '@');
        }
    }
    assert(t != seq!['^']) by {
        if t == seq!['^'] {
            assert(t[0] == '^');
        }
    }
    match classify(t) {
        Result::Ok(v) => {
            assert(parse_form(toks, 0) == PForm::Val(v, 1));
        },
        Result::Err(e) => {
            assert(parse_form(toks, 0) == PForm::Fail(e));
        },
    }
}

/// The characters the printer writes for an integer are decimal characters.
proof fn lemma_print_int_chars(i: int)
    requires
        i64::MIN <= i <= i64::MAX,
    ensures
        print_int(i).len() >= 1,
        forall|k: int| 0 <= k < print_int(i).len() ==> dec_char(#[trigger] print_int(i)[k]),
{
    if i >= 0 {
        lemma_dec_digits_all(i as nat);
        lemma_all_digits_from(dec_digits(i as nat), 0);
    } else {
        let m = (-i) as nat;
        lemma_dec_digits_all(m);
        lemma_all_digits_from(dec_digits(m), 0);
        assert forall|k: int| 0 <= k < print_int(i).len() implies dec_char(
            #[trigger] print_int(i)[k],
        ) by {
            if k > 0 {
                assert(print_int(i)[k] == dec_digits(m)[k - 1]);
            }
        }
    }
}

/// Law: the decimal text the printer writes for an integer is read back as
/// the same integer — through the whole reader, tokenizer included.
pub proof fn lemma_integer_read_round_trip(i: int)
    requires
        i64::MIN <= i <= i64::MAX,
    ensures
        read_spec(print_int(i)) == Result::<GVal, crate::types::GErr>::Ok(GVal::Integer(i)),
{
    let t = print_int(i);
    lemma_print_int_chars(i);
    assert forall|k: int| 0 <= k < t.len() implies !is_term(#[trigger] t[k]) by {
        lemma_dec_char_is_plain(t[k]);
    }
    lemma_dec_char_is_plain(t[0]);
    lemma_atom_parses_by_classify(t);
    lemma_integer_round_trip(i);
}

/// Law: the decimal text the printer writes for an integer is read back as
/// the same integer.
pub proof fn lemma_integer_round_trip(i: int)
    requires
        i64::MIN <= i <= i64::MAX,
    ensures
        int_parses(print_int(i)),
        int_value(print_int(i)) == i,
        classify(print_int(i)) == Result::<GVal, crate::types::GErr>::Ok(GVal::Integer(i)),
{
    let t = print_int(i);
    if i >= 0 {
        lemma_dec_digits_all(i as nat);
        lemma_dec_digits_value(i as nat);
        assert(t[0] != '-');
        assert(int_start(t) == 0);
        assert(is_digit(t[0]));
        assert(int_magnitude(t) == i);
    } else {
        let m = (-i) as nat;
        lemma_dec_digits_all(m);
        lemma_dec_digits_value(m);
        assert(t == seq!['-'] + dec_digits(m));
        assert(t[0] == '-');
        assert(t[1] == dec_digits(m)[0]);
        assert(int_start(t) == 1);
        lemma_digits_all_shift(dec_digits(m), '-', 0);
        lemma_digits_acc_shift(dec_digits(m), '-', 0, 0);
        assert(digits_all(t, 1));
        assert(int_magnitude(t) == m);
    }
}

} // verus!
