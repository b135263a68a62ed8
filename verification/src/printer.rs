//! Printing values back to text, readably (strings quoted and escaped) or
//! plainly. The specification-level printer `print_val` is the exact text the
//! executable printer produces; the reader's round-trip laws speak of it.
use vstd::prelude::*;

use crate::types::{
    chars_to_string, v_seq, v_val, GKey, GVal, Hashable, MalVal,
};

verus! {

pub open spec fn txt_nil() -> Seq<char> {
    seq!['n', 'i', 'l']
}

pub open spec fn txt_true() -> Seq<char> {
    seq!['t', 'r', 'u', 'e']
}

pub open spec fn txt_false() -> Seq<char> {
    seq!['f', 'a', 'l', 's', 'e']
}

pub open spec fn txt_fn() -> Seq<char> {
    seq!['#', '<', 'f', 'u', 'n', 'c', 't', 'i', 'o', 'n', '>']
}

pub open spec fn txt_atom_open() -> Seq<char> {
    seq!['(', 'a', 't', 'o', 'm', ' ']
}

pub open spec fn txt_dots() -> Seq<char> {
    seq!['.', '.', '.']
}

/// The decimal digit character for `d` (`d < 10`).
pub open spec fn digit_char(d: nat) -> char {
    ((d + 0x30) as u8) as char
}

/// The decimal digits of `n`, most significant first.
pub open spec fn dec_digits(n: nat) -> Seq<char>
    decreases n,
{
    if n < 10 {
        seq![digit_char(n)]
    } else {
        dec_digits(n / 10).push(digit_char(n % 10))
    }
}

/// The decimal rendering of an integer, with `-` for negatives.
pub open spec fn print_int(i: int) -> Seq<char> {
    if i < 0 {
        seq!['-'] + dec_digits((-i) as nat)
    } else {
        dec_digits(i as nat)
    }
}

/// How one character prints inside a readable string literal: backslash,
/// quote and newline are escaped, everything else stands for itself.
pub open spec fn esc_char(c: char) -> Seq<char> {
    if c == '\\' {
        seq!['\\', '\\']
    } else if c == '"' {
        seq!['\\', '"']
    } else if c == '\n' {
        seq!['\\', 'n']
    } else {
        seq![c]
    }
}

pub open spec fn escape_from(s: Seq<char>, i: int) -> Seq<char>
    decreases s.len() - i,
{
    if i < 0 || i >= s.len() {
        Seq::empty()
    } else {
        esc_char(s[i]) + escape_from(s, i + 1)
    }
}

/// A string's characters with the readable escapes applied.
pub open spec fn escape_str(s: Seq<char>) -> Seq<char> {
    escape_from(s, 0)
}

/// How a string prints: quoted and escaped when readable, verbatim otherwise.
pub open spec fn print_string(s: Seq<char>, readably: bool) -> Seq<char> {
    if readably {
        seq!['"'] + escape_str(s) + seq!['"']
    } else {
        s
    }
}

/// How a hash-map key prints.
pub open spec fn print_key(k: GKey, readably: bool) -> Seq<char> {
    match k {
        GKey::Keyword(s) => seq![':'] + s,
        GKey::Str(s) => print_string(s, readably),
    }
}

/// The printed text of a value. Atoms print their current content from the
/// atom store; `fuel` bounds how many atom indirections are followed, so a
/// cell that reaches itself prints an ellipsis instead of recurring forever.
pub open spec fn print_val(v: GVal, readably: bool, atoms: Seq<GVal>, fuel: nat) -> Seq<char>
    decreases fuel, v, 1int, 0int,
{
    match v {
        GVal::Fn(_, _) => txt_fn(),
        GVal::List(es, _) => seq!['('] + print_items(es, readably, atoms, fuel, es.len() as int)
            + seq![')'],
        GVal::Vector(es, _) => seq!['['] + print_items(es, readably, atoms, fuel, es.len() as int)
            + seq![']'],
        GVal::HashMap(ps, _) => seq!['{'] + print_entries(
            ps,
            readably,
            atoms,
            fuel,
            ps.len() as int,
        ) + seq!['}'],
        GVal::Keyword(s) => seq![':'] + s,
        GVal::Str(s) => print_string(s, readably),
        GVal::Integer(i) => print_int(i),
        GVal::Bool(b) => if b {
            txt_true()
        } else {
            txt_false()
        },
        GVal::Nil => txt_nil(),
        GVal::Symbol(s) => s,
        GVal::Atom(a) => txt_atom_open() + (if fuel == 0 {
            txt_dots()
        } else if a < atoms.len() {
            print_val(atoms[a as int], readably, atoms, (fuel - 1) as nat)
        } else {
            txt_nil()
        }) + seq![')'],
    }
}

/// The first `n` elements printed, separated by single spaces.
pub open spec fn print_items(
    es: Seq<GVal>,
    readably: bool,
    atoms: Seq<GVal>,
    fuel: nat,
    n: int,
) -> Seq<char>
    decreases fuel, es, 2int, n,
{
    if n <= 0 || n > es.len() {
        Seq::empty()
    } else if n == 1 {
        print_val(es[0], readably, atoms, fuel)
    } else {
        print_items(es, readably, atoms, fuel, n - 1) + seq![' '] + print_val(
            es[n - 1],
            readably,
            atoms,
            fuel,
        )
    }
}

/// The first `n` key/value entries printed as `key value`, space-separated.
pub open spec fn print_entries(
    ps: Seq<(GKey, GVal)>,
    readably: bool,
    atoms: Seq<GVal>,
    fuel: nat,
    n: int,
) -> Seq<char>
    decreases fuel, ps, 2int, n,
{
    if n <= 0 || n > ps.len() {
        Seq::empty()
    } else if n == 1 {
        print_key(ps[0].0, readably) + seq![' '] + print_val(ps[0].1, readably, atoms, fuel)
    } else {
        print_entries(ps, readably, atoms, fuel, n - 1) + seq![' '] + print_key(
            ps[n - 1].0,
            readably,
        ) + seq![' '] + print_val(ps[n - 1].1, readably, atoms, fuel)
    }
}

// ---------------------------------------------------------------------------
// Executable printing
// ---------------------------------------------------------------------------

/// Append the decimal digits of `n`.
fn write_nat(n: u64, out: &mut Vec<char>)
    ensures
        final(out)@ == old(out)@ + dec_digits(n as nat),
    decreases n,
{
    if n < 10 {
        let c = ((n as u8) + 0x30) as char;
        out.push(c);
        proof {
            assert(final(out)@ =~= old(out)@ + dec_digits(n as nat));
        }
    } else {
        write_nat(n / 10, out);
        let c = (((n % 10) as u8) + 0x30) as char;
        out.push(c);
        proof {
            assert(final(out)@ =~= old(out)@ + dec_digits(n as nat));
        }
    }
}

/// Append the decimal rendering of `i`.
fn write_int(i: i64, out: &mut Vec<char>)
    ensures
        final(out)@ == old(out)@ + print_int(i as int),
{
    if i >= 0 {
        write_nat(i as u64, out);
    } else {
        out.push('-');
        let m: u64 = ((-(i + 1)) as u64) + 1;
        proof {
            assert(m as nat == (-(i as int)) as nat);
        }
        write_nat(m, out);
        proof {
            assert(final(out)@ =~= old(out)@ + print_int(i as int));
        }
    }
}

/// Append a string's characters with readable escapes.
fn write_escaped(s: &String, out: &mut Vec<char>)
    ensures
        final(out)@ == old(out)@ + escape_str(s@),
{
    let cs = crate::types::str_to_chars(s.as_str());
    let n = cs.len();
    let mut i: usize = 0;
    while i < n
        invariant
            n == cs@.len(),
            cs@ == s@,
            i <= n,
            out@ == old(out)@ + escape_prefix(s@, i as int),
        decreases n - i,
    {
        let c = cs[i];
        if c == '\\' {
            out.push('\\');
            out.push('\\');
        } else if c == '"' {
            out.push('\\');
            out.push('"');
        } else if c == '\n' {
            out.push('\\');
            out.push('n');
        } else {
            out.push(c);
        }
        proof {
            lemma_escape_prefix_step(s@, i as int);
            assert(out@ =~= old(out)@ + escape_prefix(s@, i as int + 1));
        }
        i += 1;
    }
    proof {
        lemma_escape_prefix_all(s@, s@.len() as int);
        assert(final(out)@ =~= old(out)@ + escape_str(s@));
    }
}

/// The escapes of the first `i` characters.
pub open spec fn escape_prefix(s: Seq<char>, i: int) -> Seq<char>
    decreases i,
{
    if i <= 0 || i > s.len() {
        Seq::empty()
    } else {
        escape_prefix(s, i - 1) + esc_char(s[i - 1])
    }
}

proof fn lemma_escape_prefix_step(s: Seq<char>, i: int)
    requires
        0 <= i < s.len(),
    ensures
        escape_prefix(s, i + 1) == escape_prefix(s, i) + esc_char(s[i]),
{
}

/// The whole prefix is the whole escape.
pub proof fn lemma_escape_prefix_all(s: Seq<char>, i: int)
    requires
        0 <= i <= s.len(),
    ensures
        escape_prefix(s, i) + escape_from(s, i) =~= escape_str(s),
    decreases i,
{
    if i > 0 {
        lemma_escape_prefix_all(s, i - 1);
        assert(escape_prefix(s, i) == escape_prefix(s, i - 1) + esc_char(s[i - 1]));
        assert(escape_from(s, i - 1) == esc_char(s[i - 1]) + escape_from(s, i));
        assert((escape_prefix(s, i - 1) + esc_char(s[i - 1])) + escape_from(s, i) =~= escape_prefix(
            s,
            i - 1,
        ) + (esc_char(s[i - 1]) + escape_from(s, i)));
    } else {
        assert(escape_prefix(s, 0) + escape_from(s, 0) =~= escape_from(s, 0));
    }
}

/// Append a string's characters verbatim.
fn write_plain(s: &String, out: &mut Vec<char>)
    ensures
        final(out)@ == old(out)@ + s@,
{
    let cs = crate::types::str_to_chars(s.as_str());
    let mut i: usize = 0;
    while i < cs.len()
        invariant
            i <= cs@.len(),
            cs@ == s@,
            out@ == old(out)@ + s@.subrange(0, i as int),
        decreases cs@.len() - i,
    {
        out.push(cs[i]);
        proof {
            assert(out@ =~= old(out)@ + s@.subrange(0, i as int + 1));
        }
        i += 1;
    }
    proof {
        assert(s@.subrange(0, s@.len() as int) =~= s@);
    }
}

/// Append a hash-map key's printed form.
fn write_key(k: &Hashable, readably: bool, out: &mut Vec<char>)
    ensures
        final(out)@ == old(out)@ + print_key(k@, readably),
{
    match k {
        Hashable::Keyword(s) => {
            out.push(':');
            write_plain(s, out);
            proof {
                assert(final(out)@ =~= old(out)@ + print_key(k@, readably));
            }
        },
        Hashable::String(s) => {
            if readably {
                out.push('"');
                write_escaped(s, out);
                out.push('"');
                proof {
                    assert(final(out)@ =~= old(out)@ + print_key(k@, true));
                }
            } else {
                write_plain(s, out);
            }
        },
    }
}

impl Hashable {
    /// The printed form of a hash-map key.
    pub fn pr_str(&self, readably: bool) -> (r: String)
        ensures
            r@ == print_key(self@, readably),
    {
        let mut out: Vec<char> = Vec::new();
        write_key(self, readably, &mut out);
        chars_to_string(&out)
    }
}

/// Append a value's printed form; `fuel` bounds atom indirections.
pub(crate) fn write_val(v: &MalVal, readably: bool, atoms: &Vec<MalVal>, fuel: u64, out: &mut Vec<char>)
    ensures
        final(out)@ == old(out)@ + print_val(v@, readably, v_seq(atoms@), fuel as nat),
    decreases fuel, *v, 1int, 0int,
{
    let ghost gatoms = v_seq(atoms@);
    match v {
        MalVal::Fn(_, _) => {
            out.push('#');
            out.push('<');
            out.push('f');
            out.push('u');
            out.push('n');
            out.push('c');
            out.push('t');
            out.push('i');
            out.push('o');
            out.push('n');
            out.push('>');
            proof {
                assert(final(out)@ =~= old(out)@ + txt_fn());
            }
        },
        MalVal::List(es, _) => {
            out.push('(');
            write_items(es, readably, atoms, fuel, out);
            out.push(')');
            proof {
                crate::types::lemma_v_seq(es@);
                assert(final(out)@ =~= old(out)@ + print_val(
                    v@,
                    readably,
                    gatoms,
                    fuel as nat,
                ));
            }
        },
        MalVal::Vector(es, _) => {
            out.push('[');
            write_items(es, readably, atoms, fuel, out);
            out.push(']');
            proof {
                crate::types::lemma_v_seq(es@);
                assert(final(out)@ =~= old(out)@ + print_val(
                    v@,
                    readably,
                    gatoms,
                    fuel as nat,
                ));
            }
        },
        MalVal::HashMap(ps, _) => {
            out.push('{');
            write_entries(ps, readably, atoms, fuel, out);
            out.push('}');
            proof {
                crate::types::lemma_v_pairs(ps@);
                assert(final(out)@ =~= old(out)@ + print_val(
                    v@,
                    readably,
                    gatoms,
                    fuel as nat,
                ));
            }
        },
        MalVal::Keyword(s) => {
            out.push(':');
            write_plain(s, out);
            proof {
                assert(final(out)@ =~= old(out)@ + (seq![':'] + s@));
            }
        },
        MalVal::String(s) => {
            if readably {
                out.push('"');
                write_escaped(s, out);
                out.push('"');
                proof {
                    assert(final(out)@ =~= old(out)@ + print_string(s@, true));
                }
            } else {
                write_plain(s, out);
            }
        },
        MalVal::Integer(i) => {
            write_int(*i, out);
        },
        MalVal::Bool(b) => {
            if *b {
                out.push('t');
                out.push('r');
                out.push('u');
                out.push('e');
                proof {
                    assert(final(out)@ =~= old(out)@ + txt_true());
                }
            } else {
                out.push('f');
                out.push('a');
                out.push('l');
                out.push('s');
                out.push('e');
                proof {
                    assert(final(out)@ =~= old(out)@ + txt_false());
                }
            }
        },
        MalVal::Nil => {
            out.push('n');
            out.push('i');
            out.push('l');
            proof {
                assert(final(out)@ =~= old(out)@ + txt_nil());
            }
        },
        MalVal::Symbol(s) => {
            write_plain(s, out);
        },
        MalVal::Atom(a) => {
            out.push('(');
            out.push('a');
            out.push('t');
            out.push('o');
            out.push('m');
            out.push(' ');
            if fuel == 0 {
                out.push('.');
                out.push('.');
                out.push('.');
            } else if *a < atoms.len() {
                proof {
                    crate::types::lemma_v_seq(atoms@);
                }
                write_val(&atoms[*a], readably, atoms, fuel - 1, out);
            } else {
                out.push('n');
                out.push('i');
                out.push('l');
            }
            out.push(')');
            proof {
                crate::types::lemma_v_seq(atoms@);
                assert(final(out)@ =~= old(out)@ + print_val(
                    v@,
                    readably,
                    gatoms,
                    fuel as nat,
                ));
            }
        },
    }
}

/// Append `es` printed space-separated.
fn write_items(es: &Vec<MalVal>, readably: bool, atoms: &Vec<MalVal>, fuel: u64, out: &mut Vec<
    char,
>)
    ensures
        final(out)@ == old(out)@ + print_items(
            v_seq(es@),
            readably,
            v_seq(atoms@),
            fuel as nat,
            es@.len() as int,
        ),
    decreases fuel, *es, 2int, 0int,
{
    let ghost ges = v_seq(es@);
    let ghost gatoms = v_seq(atoms@);
    proof {
        crate::types::lemma_v_seq(es@);
    }
    let mut i: usize = 0;
    while i < es.len()
        invariant
            i <= es@.len(),
            ges == v_seq(es@),
            ges.len() == es@.len(),
            gatoms == v_seq(atoms@),
            out@ == old(out)@ + print_items(ges, readably, gatoms, fuel as nat, i as int),
        decreases es@.len() - i,
    {
        proof {
            crate::types::lemma_v_seq(es@);
        }
        if i > 0 {
            out.push(' ');
        }
        write_val(&es[i], readably, atoms, fuel, out);
        proof {
            if i == 0 {
                assert(out@ =~= old(out)@ + print_items(
                    ges,
                    readably,
                    gatoms,
                    fuel as nat,
                    1int,
                ));
            } else {
                assert(out@ =~= old(out)@ + print_items(
                    ges,
                    readably,
                    gatoms,
                    fuel as nat,
                    i as int + 1,
                ));
            }
        }
        i += 1;
    }
}

/// Append `ps` printed as space-separated `key value` entries.
fn write_entries(
    ps: &Vec<(Hashable, MalVal)>,
    readably: bool,
    atoms: &Vec<MalVal>,
    fuel: u64,
    out: &mut Vec<char>,
)
    ensures
        final(out)@ == old(out)@ + print_entries(
            crate::types::v_pairs(ps@),
            readably,
            v_seq(atoms@),
            fuel as nat,
            ps@.len() as int,
        ),
    decreases fuel, *ps, 2int, 0int,
{
    let ghost gps = crate::types::v_pairs(ps@);
    let ghost gatoms = v_seq(atoms@);
    proof {
        crate::types::lemma_v_pairs(ps@);
    }
    let mut i: usize = 0;
    while i < ps.len()
        invariant
            i <= ps@.len(),
            gps == crate::types::v_pairs(ps@),
            gps.len() == ps@.len(),
            gatoms == v_seq(atoms@),
            out@ == old(out)@ + print_entries(gps, readably, gatoms, fuel as nat, i as int),
        decreases ps@.len() - i,
    {
        proof {
            crate::types::lemma_v_pairs(ps@);
        }
        if i > 0 {
            out.push(' ');
        }
        write_key(&ps[i].0, readably, out);
        out.push(' ');
        write_val(&ps[i].1, readably, atoms, fuel, out);
        proof {
            if i == 0 {
                assert(out@ =~= old(out)@ + print_entries(
                    gps,
                    readably,
                    gatoms,
                    fuel as nat,
                    1int,
                ));
            } else {
                assert(out@ =~= old(out)@ + print_entries(
                    gps,
                    readably,
                    gatoms,
                    fuel as nat,
                    i as int + 1,
                ));
            }
        }
        i += 1;
    }
}

impl MalVal {
    /// The printed form of a value. `atoms` is the interpreter's atom store,
    /// consulted to show an atom's content; `atom_depth` bounds how many atom
    /// indirections are followed.
    pub fn pr_str(&self, readably: bool, atoms: &Vec<MalVal>, atom_depth: u64) -> (r: String)
        ensures
            r@ == print_val(self@, readably, v_seq(atoms@), atom_depth as nat),
    {
        let mut out: Vec<char> = Vec::new();
        write_val(self, readably, atoms, atom_depth, &mut out);
        chars_to_string(&out)
    }
}

} // verus!
