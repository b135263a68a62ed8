//! The evaluator: a tail-call loop over an abstract syntax tree and an
//! environment frame, with macro expansion, quasiquotation, special forms and
//! function application. The interpreter's whole mutable state — the frame
//! arena, the atom store and the buffered output — lives in `Interp`.
use vstd::prelude::*;

use crate::env::{env_wf, lookup, Env, GFrame};
use crate::printer::{print_val};
use crate::types::{
    lemma_v_seq, lemma_wf_mono, v_err, v_fn, v_seq, v_val, wf_val, GErr, GFn, GVal, MalError,
    MalFn, MalFunc, MalResult, MalVal,
};

verus! {

/// How many atom indirections the printer follows before it gives up on a
/// self-referential cell.
pub const PRINT_ATOM_DEPTH: u64 = 64;

/// The interpreter: the environment arena (frame 0 is the top level), the
/// atom store, and a record of the lines printed so far, in order. The lines
/// are written to standard output the moment they are produced; the record is
/// what the contracts and the tests speak of.
pub struct Interp {
    pub env: Env,
    pub atoms: Vec<MalVal>,
    pub out: Vec<String>,
}

/// Every value a table binds is well formed.
pub open spec fn wf_table(t: Map<Seq<char>, GVal>, ne: nat, na: nat) -> bool {
    forall|k: Seq<char>| #[trigger] t.contains_key(k) ==> wf_val(t[k], ne, na)
}

/// The interpreter invariant: outer links point downwards, and every value
/// reachable from a frame or an atom cell only mentions frames and atoms
/// that exist.
pub open spec fn wf_interp(it: Interp) -> bool {
    &&& env_wf(it.env@)
    &&& it.env@.len() >= 1
    &&& forall|f: int|
        0 <= f < it.env@.len() ==> wf_table(
            (#[trigger] it.env@[f]).table,
            it.env@.len(),
            it.atoms@.len(),
        )
    &&& forall|a: int|
        0 <= a < it.atoms@.len() ==> wf_val(
            v_val(#[trigger] it.atoms@[a]),
            it.env@.len(),
            it.atoms@.len(),
        )
}

/// Evaluation only adds frames and atoms; it never redirects an existing
/// frame's outer link, and already-printed output stays printed.
pub open spec fn interp_grows(pre: Interp, post: Interp) -> bool {
    &&& post.env@.len() >= pre.env@.len()
    &&& post.atoms@.len() >= pre.atoms@.len()
    &&& forall|i: int|
        0 <= i < pre.env@.len() ==> (#[trigger] post.env@[i]).outer == pre.env@[i].outer
    &&& post.out@.len() >= pre.out@.len()
    &&& forall|i: int| 0 <= i < pre.out@.len() ==> #[trigger] post.out@[i] == pre.out@[i]
}

/// Every argument is well formed.
pub open spec fn wf_args(args: Seq<MalVal>, ne: nat, na: nat) -> bool {
    forall|i: int| 0 <= i < args.len() ==> wf_val(v_val(#[trigger] args[i]), ne, na)
}

/// Growing is transitive; the proofs of the evaluator chain steps through
/// this.
pub proof fn lemma_grows_trans(a: Interp, b: Interp, c: Interp)
    requires
        interp_grows(a, b),
        interp_grows(b, c),
    ensures
        interp_grows(a, c),
{
}

// ---------------------------------------------------------------------------
// Quasiquotation: a pure rewrite, evaluated later by the main loop
// ---------------------------------------------------------------------------

pub open spec fn txt_cons() -> Seq<char> {
    "cons"@
}

pub open spec fn txt_concat() -> Seq<char> {
    "concat"@
}

pub open spec fn txt_vec_sym() -> Seq<char> {
    "vec"@
}

/// An element a quasiquoted list splices: `(splice-unquote x)`.
pub open spec fn is_splice(v: GVal) -> bool {
    match v {
        GVal::List(l, _) => l.len() > 1 && l[0] == GVal::Symbol(
            crate::reader::txt_splice_unquote(),
        ),
        _ => false,
    }
}

pub open spec fn splice_arg(v: GVal) -> GVal {
    v->List_0[1]
}

/// The right fold over a quasiquoted sequence's elements from position `i`:
/// a spliced element becomes `(concat x <rest>)`, any other `e` becomes
/// `(cons (quasiquote e) <rest>)`. The result is the element list of the
/// rewritten form.
pub open spec fn qq_fold(es: Seq<GVal>, i: int) -> Seq<GVal>
    decreases es, 2int, es.len() - i,
{
    if i < 0 || i >= es.len() {
        Seq::empty()
    } else {
        let rest = GVal::List(qq_fold(es, i + 1), Option::None);
        if is_splice(es[i]) {
            seq![GVal::Symbol(txt_concat()), splice_arg(es[i]), rest]
        } else {
            seq![GVal::Symbol(txt_cons()), qq_spec(es[i]), rest]
        }
    }
}

/// The quasiquote rewrite: `(unquote x)` becomes `x`; a list folds by
/// `qq_fold`; a vector folds and is wrapped in `(vec ...)`; a hash-map or a
/// symbol is quoted; everything else passes through. It constructs new
/// values only — it never evaluates and never reads an environment.
pub open spec fn qq_spec(ast: GVal) -> GVal
    decreases ast, 1int, 0int,
{
    match ast {
        GVal::List(es, m) => {
            if es.len() == 0 {
                ast
            } else if es[0] == GVal::Symbol(crate::reader::txt_unquote()) && es.len() >= 2 {
                es[1]
            } else {
                GVal::List(qq_fold(es, 0), Option::None)
            }
        },
        GVal::Vector(es, m) => GVal::List(
            seq![
                GVal::Symbol(txt_vec_sym()),
                GVal::List(qq_fold(es, 0), Option::None),
            ],
            Option::None,
        ),
        GVal::HashMap(_, _) => GVal::List(
            seq![GVal::Symbol(crate::reader::txt_quote()), ast],
            Option::None,
        ),
        GVal::Symbol(_) => GVal::List(
            seq![GVal::Symbol(crate::reader::txt_quote()), ast],
            Option::None,
        ),
        _ => ast,
    }
}

/// Whether this string holds exactly the characters of `t`.
fn str_is(s: &String, lit: &str) -> (r: bool)
    ensures
        r == (s@ == lit@),
{
    let l = lit.to_owned();
    crate::types::string_eq(s, &l)
}

/// Whether the element is a `(splice-unquote x)` form.
fn splice_of(v: &MalVal) -> (r: Option<&MalVal>)
    ensures
        match r {
            Option::Some(x) => is_splice(v@) && x@ == splice_arg(v@),
            Option::None => !is_splice(v@),
        },
{
    match v {
        MalVal::List(l, _) => {
            proof {
                lemma_v_seq(l@);
            }
            if l.len() > 1 {
                match &l[0] {
                    MalVal::Symbol(s) => {
                        if str_is(s, "splice-unquote") {
                            Option::Some(&l[1])
                        } else {
                            Option::None
                        }
                    },
                    _ => Option::None,
                }
            } else {
                Option::None
            }
        },
        _ => Option::None,
    }
}

/// The three elements the fold builds at each step.
fn qq_step(head: &str, a: MalVal, rest: MalVal) -> (r: Vec<MalVal>)
    ensures
        v_seq(r@) == seq![GVal::Symbol(head@), a@, rest@],
{
    let ghost ga = a@;
    let ghost grest = rest@;
    let mut es: Vec<MalVal> = Vec::new();
    es.push(MalVal::Symbol(head.to_owned()));
    es.push(a);
    es.push(rest);
    proof {
        lemma_v_seq(es@);
        assert(v_seq(es@) =~= seq![GVal::Symbol(head@), ga, grest]);
    }
    es
}

/// The quasiquote rewrite, exactly `qq_spec`.
pub fn quasiquote(ast: &MalVal) -> (r: MalVal)
    ensures
        r@ == qq_spec(ast@),
    decreases *ast, 1int, 0int,
{
    match ast {
        MalVal::List(es, _) => {
            proof {
                lemma_v_seq(es@);
            }
            if es.len() == 0 {
                return ast.duplicate();
            }
            let unq = match &es[0] {
                MalVal::Symbol(s) => str_is(s, "unquote"),
                _ => false,
            };
            if unq && es.len() >= 2 {
                return es[1].duplicate();
            }
            let ghost ges = v_seq(es@);
            let mut acc: Vec<MalVal> = Vec::new();
            let mut k: usize = es.len();
            proof {
                lemma_v_seq(acc@);
                assert(v_seq(acc@) =~= qq_fold(ges, es@.len() as int));
            }
            while k > 0
                invariant
                    k <= es@.len(),
                    ges == v_seq(es@),
                    ges.len() == es@.len(),
                    decreases_to!(*ast => *es),
                    v_seq(acc@) == qq_fold(ges, k as int),
                decreases k,
            {
                k -= 1;
                proof {
                    lemma_v_seq(es@);
                }
                let rest = MalVal::List(acc, Option::None);
                match splice_of(&es[k]) {
                    Option::Some(x) => {
                        acc = qq_step("concat", x.duplicate(), rest);
                    },
                    Option::None => {
                        proof {
                            assert(decreases_to!(*es => es@[k as int]));
                            assert(decreases_to!(*ast => es@[k as int]));
                        }
                        let q = quasiquote(&es[k]);
                        acc = qq_step("cons", q, rest);
                    },
                }
                proof {
                    lemma_v_seq(acc@);
                    assert(v_seq(acc@) =~= qq_fold(ges, k as int));
                }
            }
            MalVal::List(acc, Option::None)
        },
        MalVal::Vector(es, _) => {
            proof {
                lemma_v_seq(es@);
            }
            let ghost ges = v_seq(es@);
            let mut acc: Vec<MalVal> = Vec::new();
            let mut k: usize = es.len();
            proof {
                lemma_v_seq(acc@);
                assert(v_seq(acc@) =~= qq_fold(ges, es@.len() as int));
            }
            while k > 0
                invariant
                    k <= es@.len(),
                    ges == v_seq(es@),
                    ges.len() == es@.len(),
                    decreases_to!(*ast => *es),
                    v_seq(acc@) == qq_fold(ges, k as int),
                decreases k,
            {
                k -= 1;
                proof {
                    lemma_v_seq(es@);
                }
                let rest = MalVal::List(acc, Option::None);
                match splice_of(&es[k]) {
                    Option::Some(x) => {
                        acc = qq_step("concat", x.duplicate(), rest);
                    },
                    Option::None => {
                        proof {
                            assert(decreases_to!(*es => es@[k as int]));
                            assert(decreases_to!(*ast => es@[k as int]));
                        }
                        let q = quasiquote(&es[k]);
                        acc = qq_step("cons", q, rest);
                    },
                }
                proof {
                    lemma_v_seq(acc@);
                    assert(v_seq(acc@) =~= qq_fold(ges, k as int));
                }
            }
            let mut outer: Vec<MalVal> = Vec::new();
            outer.push(MalVal::Symbol("vec".to_owned()));
            outer.push(MalVal::List(acc, Option::None));
            let r = MalVal::List(outer, Option::None);
            proof {
                lemma_v_seq(outer@);
                assert(v_seq(outer@) =~= seq![GVal::Symbol(txt_vec_sym()), outer@[1]@]);
            }
            r
        },
        MalVal::HashMap(_, _) => {
            let mut outer: Vec<MalVal> = Vec::new();
            outer.push(MalVal::Symbol("quote".to_owned()));
            outer.push(ast.duplicate());
            let r = MalVal::List(outer, Option::None);
            proof {
                lemma_v_seq(outer@);
                assert(v_seq(outer@) =~= seq![
                    GVal::Symbol(crate::reader::txt_quote()),
                    outer@[1]@,
                ]);
            }
            r
        },
        MalVal::Symbol(_) => {
            let mut outer: Vec<MalVal> = Vec::new();
            outer.push(MalVal::Symbol("quote".to_owned()));
            outer.push(ast.duplicate());
            let r = MalVal::List(outer, Option::None);
            proof {
                lemma_v_seq(outer@);
                assert(v_seq(outer@) =~= seq![
                    GVal::Symbol(crate::reader::txt_quote()),
                    outer@[1]@,
                ]);
            }
            r
        },
        _ => ast.duplicate(),
    }
}

// ---------------------------------------------------------------------------
// Well-formedness plumbing
// ---------------------------------------------------------------------------

proof fn lemma_wf_table_mono(t: Map<Seq<char>, GVal>, ne: nat, na: nat, ne2: nat, na2: nat)
    requires
        wf_table(t, ne, na),
        ne <= ne2,
        na <= na2,
    ensures
        wf_table(t, ne2, na2),
{
    assert forall|k: Seq<char>| #[trigger] t.contains_key(k) implies wf_val(t[k], ne2, na2) by {
        lemma_wf_mono(t[k], ne, na, ne2, na2);
    }
}

/// Re-establish the interpreter invariant after a mutation: every frame and
/// atom is either carried over unchanged or already well formed for the new
/// sizes.
proof fn lemma_wf_interp_again(a: Interp, b: Interp)
    requires
        wf_interp(a),
        b.env@.len() >= a.env@.len(),
        b.atoms@.len() >= a.atoms@.len(),
        env_wf(b.env@),
        b.env@.len() >= 1,
        forall|f: int|
            0 <= f < b.env@.len() ==> ((f < a.env@.len() && (#[trigger] b.env@[f]).table
                == a.env@[f].table) || wf_table(b.env@[f].table, b.env@.len(), b.atoms@.len())),
        forall|x: int|
            0 <= x < b.atoms@.len() ==> ((x < a.atoms@.len() && #[trigger] b.atoms@[x]
                == a.atoms@[x]) || wf_val(v_val(b.atoms@[x]), b.env@.len(), b.atoms@.len())),
    ensures
        wf_interp(b),
{
    assert forall|f: int| 0 <= f < b.env@.len() implies wf_table(
        (#[trigger] b.env@[f]).table,
        b.env@.len(),
        b.atoms@.len(),
    ) by {
        if f < a.env@.len() && b.env@[f].table == a.env@[f].table {
            lemma_wf_table_mono(
                a.env@[f].table,
                a.env@.len(),
                a.atoms@.len(),
                b.env@.len(),
                b.atoms@.len(),
            );
        }
    }
    assert forall|x: int| 0 <= x < b.atoms@.len() implies wf_val(
        v_val(#[trigger] b.atoms@[x]),
        b.env@.len(),
        b.atoms@.len(),
    ) by {
        if x < a.atoms@.len() && b.atoms@[x] == a.atoms@[x] {
            lemma_wf_mono(
                v_val(a.atoms@[x]),
                a.env@.len(),
                a.atoms@.len(),
                b.env@.len(),
                b.atoms@.len(),
            );
        }
    }
}

proof fn lemma_wf_table_insert(
    t: Map<Seq<char>, GVal>,
    ne: nat,
    na: nat,
    ne2: nat,
    na2: nat,
    k: Seq<char>,
    v: GVal,
)
    requires
        wf_table(t, ne, na),
        ne <= ne2,
        na <= na2,
        wf_val(v, ne2, na2),
    ensures
        wf_table(t.insert(k, v), ne2, na2),
{
    assert forall|q: Seq<char>| #[trigger] t.insert(k, v).contains_key(q) implies wf_val(
        t.insert(k, v)[q],
        ne2,
        na2,
    ) by {
        if q != k {
            lemma_wf_mono(t[q], ne, na, ne2, na2);
        }
    }
}

/// Every element of a sequence of well-formed values makes the recursive
/// element check true.
proof fn lemma_wf_seq_of_all(s: Seq<GVal>, i: int, ne: nat, na: nat)
    requires
        forall|k: int| 0 <= k < s.len() ==> wf_val(#[trigger] s[k], ne, na),
    ensures
        crate::types::wf_seq_from(s, i, ne, na),
    decreases s.len() - i,
{
    if 0 <= i < s.len() {
        lemma_wf_seq_of_all(s, i + 1, ne, na);
    }
}

/// A looked-up binding is well formed.
proof fn lemma_lookup_wf(fs: Seq<GFrame>, f: int, sym: Seq<char>, ne: nat, na: nat)
    requires
        0 <= f < fs.len(),
        forall|g: int| 0 <= g < fs.len() ==> wf_table((#[trigger] fs[g]).table, ne, na),
    ensures
        match lookup(fs, f, sym) {
            Option::Some(v) => wf_val(v, ne, na),
            Option::None => true,
        },
    decreases f,
{
    if !fs[f].table.contains_key(sym) {
        match fs[f].outer {
            Option::Some(o) => {
                if o < f {
                    lemma_lookup_wf(fs, o as int, sym, ne, na);
                }
            },
            Option::None => {},
        }
    }
}

// ---------------------------------------------------------------------------
// Macro detection and expansion
// ---------------------------------------------------------------------------

/// Whether the form is a call of a symbol presently bound to a macro.
pub open spec fn is_macro_spec(fs: Seq<GFrame>, ast: GVal, env: int) -> bool {
    match ast {
        GVal::List(es, _) => es.len() > 0 && match es[0] {
            GVal::Symbol(s) => match lookup(fs, env, s) {
                Option::Some(b) => match b {
                    GVal::Fn(f, _) => f matches GFn::Closure { is_marco: true, .. },
                    _ => false,
                },
                Option::None => false,
            },
            _ => false,
        },
        _ => false,
    }
}

/// A value that evaluates to itself: anything but a list, vector, hash-map
/// or symbol.
pub open spec fn self_eval_val(v: GVal) -> bool {
    !(v is List || v is Vector || v is HashMap || v is Symbol)
}

/// The message for an unbound symbol: `'name' not found.`
pub open spec fn not_found_msg(s: Seq<char>) -> Seq<char> {
    seq!['\''] + s + "' not found."@
}

fn err_fuel() -> (r: MalResult)
    ensures
        r matches Result::Err(e) && v_err(e) == GErr::Other(txt_fuel()),
{
    Result::Err(MalError::Other(String::from_str("interpreter step limit reached")))
}

pub open spec fn txt_fuel() -> Seq<char> {
    "interpreter step limit reached"@
}

pub open spec fn txt_bad_form() -> Seq<char> {
    "malformed special form"@
}

pub open spec fn txt_not_fn() -> Seq<char> {
    "not a function"@
}

fn err_form() -> (r: MalResult)
    ensures
        r matches Result::Err(e) && v_err(e) == GErr::Other(txt_bad_form()),
{
    Result::Err(MalError::Other(String::from_str("malformed special form")))
}

/// The macro closure a form would call, if any.
fn get_macro(it: &Interp, ast: &MalVal, env: usize) -> (r: Option<MalFunc>)
    requires
        wf_interp(*it),
        env < it.env@.len(),
    ensures
        match r {
            Option::Some(mf) => is_macro_spec(it.env@, ast@, env as int) && mf.is_marco
                && mf.env < it.env@.len() && wf_val(
                v_val(*mf.ast),
                it.env@.len(),
                it.atoms@.len(),
            ),
            Option::None => !is_macro_spec(it.env@, ast@, env as int),
        },
{
    match ast {
        MalVal::List(es, _) => {
            proof {
                lemma_v_seq(es@);
            }
            if es.len() == 0 {
                return Option::None;
            }
            match &es[0] {
                MalVal::Symbol(s) => {
                    proof {
                        lemma_lookup_wf(
                            it.env@,
                            env as int,
                            s@,
                            it.env@.len(),
                            it.atoms@.len(),
                        );
                    }
                    match it.env.get(env, s) {
                        Option::Some(v) => match v {
                            MalVal::Fn(f, _) => match *f {
                                MalFn::MalFunc(mf) => {
                                    if mf.is_marco {
                                        Option::Some(mf)
                                    } else {
                                        Option::None
                                    }
                                },
                                MalFn::RegularFn(_) => Option::None,
                            },
                            _ => Option::None,
                        },
                        Option::None => Option::None,
                    }
                },
                _ => Option::None,
            }
        },
        _ => Option::None,
    }
}

impl MalFunc {
    /// A copy of the closure with the macro flag set: what `defmacro!` binds.
    pub fn construct_marco(&self) -> (r: MalFunc)
        ensures
            v_fn(MalFn::MalFunc(r)) == (match v_fn(MalFn::MalFunc(*self)) {
                GFn::Closure { params, body, env, is_marco } => GFn::Closure {
                    params,
                    body,
                    env,
                    is_marco: true,
                },
                g => g,
            }),
    {
        let mut params: Vec<String> = Vec::new();
        let mut i: usize = 0;
        while i < self.params.len()
            invariant
                i <= self.params@.len(),
                params@.len() == i,
                forall|j: int| 0 <= j < i ==> params@[j]@ == self.params@[j]@,
            decreases self.params@.len() - i,
        {
            params.push(self.params[i].clone());
            i += 1;
        }
        proof {
            assert(params.deep_view() =~= self.params.deep_view());
        }
        MalFunc { ast: Box::new(self.ast.duplicate()), params, env: self.env, is_marco: true }
    }

    /// Call the closure: a fresh frame under its captured environment, the
    /// parameters bound to the arguments by `bind_model`, the body evaluated
    /// there. The fresh frame always appears, its outer link is the captured
    /// frame and never changes; when the arguments do not fit the parameter
    /// list the call is an error.
    pub fn run(&self, it: &mut Interp, args: &Vec<MalVal>, fuel: u64) -> (r: MalResult)
        requires
            wf_interp(*old(it)),
            self.env < old(it).env@.len(),
            wf_val(v_val(*self.ast), old(it).env@.len(), old(it).atoms@.len()),
            wf_args(args@, old(it).env@.len(), old(it).atoms@.len()),
        ensures
            wf_interp(*final(it)),
            interp_grows(*old(it), *final(it)),
            r matches Result::Ok(v) ==> wf_val(v@, final(it).env@.len(), final(it).atoms@.len()),
            final(it).env@.len() > old(it).env@.len(),
            final(it).env@[old(it).env@.len() as int].outer == Option::Some(self.env as nat),
            crate::env::bind_model(
                Map::empty(),
                self.params.deep_view(),
                v_seq(args@),
                0,
            ) is None ==> r is Err,
        decreases fuel, 1int,
    {
        let ghost pre = *it;
        let f = it.env.push_frame(self.env);
        proof {
            lemma_wf_interp_again(pre, *it);
            assert(interp_grows(pre, *it));
        }
        let ghost mid = *it;
        proof {
            assert forall|j: int| 0 <= j < args@.len() implies wf_val(
                v_val(#[trigger] args@[j]),
                mid.env@.len(),
                mid.atoms@.len(),
            ) by {
                lemma_wf_mono(
                    v_val(args@[j]),
                    pre.env@.len(),
                    pre.atoms@.len(),
                    mid.env@.len(),
                    mid.atoms@.len(),
                );
            }
        }
        match it.env.bind_expr(f, &self.params, args) {
            Result::Err(e) => {
                proof {
                    bind_keeps_wf(mid, *it, f as int, args@);
                    assert(interp_grows(pre, *it));
                }
                Result::Err(e)
            },
            Result::Ok(()) => {
                proof {
                    bind_keeps_wf(mid, *it, f as int, args@);
                    assert(interp_grows(pre, *it));
                }
                if fuel == 0 {
                    return err_fuel();
                }
                let body = self.ast.duplicate();
                let ghost mid2 = *it;
                proof {
                    lemma_wf_mono(
                        v_val(*self.ast),
                        old(it).env@.len(),
                        old(it).atoms@.len(),
                        it.env@.len(),
                        it.atoms@.len(),
                    );
                }
                let r = eval(it, body, f, fuel - 1);
                proof {
                    lemma_grows_trans(pre, mid2, *it);
                }
                r
            },
        }
    }
}

/// After `bind_expr` on a frame whose other frames were untouched, the
/// interpreter invariant still holds: every value the binding put in the
/// table is an argument, a list of arguments, or was there before.
proof fn bind_keeps_wf(a: Interp, b: Interp, f: int, args: Seq<MalVal>)
    requires
        wf_interp(a),
        wf_args(args, a.env@.len(), a.atoms@.len()),
        0 <= f < a.env@.len(),
        b.atoms@ == a.atoms@,
        b.out@ == a.out@,
        b.env@.len() == a.env@.len(),
        forall|i: int| 0 <= i < a.env@.len() && i != f ==> #[trigger] b.env@[i] == a.env@[i],
        b.env@[f].outer == a.env@[f].outer,
        forall|k: Seq<char>|
            #[trigger] b.env@[f].table.contains_key(k) ==> (a.env@[f].table.contains_key(k)
                && b.env@[f].table[k] == a.env@[f].table[k]) || (exists|j: int|
                0 <= j < args.len() && b.env@[f].table[k] == v_seq(args)[j]) || (exists|j: int|
                0 <= j <= args.len() && b.env@[f].table[k] == GVal::List(
                    v_seq(args).skip(j),
                    Option::None,
                )),
    ensures
        wf_interp(b),
        interp_grows(a, b),
{
    crate::types::lemma_v_seq(args);
    assert forall|g: int| 0 <= g < b.env@.len() implies env_wf_at(b.env@, g) by {
        if g != f {
            assert(b.env@[g] == a.env@[g]);
        }
    }
    assert(env_wf(b.env@));
    assert forall|g: int| 0 <= g < b.env@.len() implies wf_table(
        (#[trigger] b.env@[g]).table,
        b.env@.len(),
        b.atoms@.len(),
    ) by {
        if g != f {
            assert(b.env@[g] == a.env@[g]);
        } else {
            assert forall|k: Seq<char>| #[trigger] b.env@[f].table.contains_key(k) implies wf_val(
                b.env@[f].table[k],
                b.env@.len(),
                b.atoms@.len(),
            ) by {
                if a.env@[f].table.contains_key(k) && b.env@[f].table[k] == a.env@[f].table[k] {
                } else if exists|j: int|
                    0 <= j < args.len() && b.env@[f].table[k] == v_seq(args)[j] {
                    let j = choose|j: int|
                        0 <= j < args.len() && b.env@[f].table[k] == v_seq(args)[j];
                    assert(wf_val(v_val(args[j]), a.env@.len(), a.atoms@.len()));
                } else {
                    let j = choose|j: int|
                        0 <= j <= args.len() && b.env@[f].table[k] == GVal::List(
                            v_seq(args).skip(j),
                            Option::None,
                        );
                    let sk = v_seq(args).skip(j);
                    assert forall|m: int| 0 <= m < sk.len() implies wf_val(
                        #[trigger] sk[m],
                        b.env@.len(),
                        b.atoms@.len(),
                    ) by {
                        assert(sk[m] == v_seq(args)[j + m]);
                        assert(wf_val(v_val(args[j + m]), a.env@.len(), a.atoms@.len()));
                    }
                    lemma_wf_seq_of_all(sk, 0, b.env@.len(), b.atoms@.len());
                }
            }
        }
    }
}

/// One frame's outer points below it.
pub open spec fn env_wf_at(fs: Seq<GFrame>, i: int) -> bool {
    0 <= i < fs.len() ==> match fs[i].outer {
        Option::Some(o) => o < i,
        Option::None => true,
    }
}

// ---------------------------------------------------------------------------
// Evaluation of the pieces: symbols and container elements
// ---------------------------------------------------------------------------

/// Evaluate the parts of a non-special value: a symbol is looked up, the
/// elements of a list, vector or hash-map are each evaluated, anything else
/// is itself.
fn eval_ast(it: &mut Interp, ast: &MalVal, env: usize, fuel: u64) -> (r: MalResult)
    requires
        wf_interp(*old(it)),
        wf_val(ast@, old(it).env@.len(), old(it).atoms@.len()),
        env < old(it).env@.len(),
    ensures
        wf_interp(*final(it)),
        interp_grows(*old(it), *final(it)),
        r matches Result::Ok(v) ==> wf_val(v@, final(it).env@.len(), final(it).atoms@.len()),
        ast@ matches GVal::Symbol(s) ==> (match lookup(old(it).env@, env as int, s) {
            Option::Some(gv) => r matches Result::Ok(v) && v@ == gv,
            Option::None => r matches Result::Err(e) && v_err(e) == GErr::Other(
                not_found_msg(s),
            ),
        }),
        ast@ is Symbol ==> *final(it) == *old(it),
        self_eval_val(ast@) ==> (r matches Result::Ok(v) && v@ == ast@ && *final(it) == *old(
            it)),
        ast@ matches GVal::List(es, _) ==> (r matches Result::Ok(v) ==> (v@ matches GVal::List(
            fs,
            m,
        ) && fs.len() == es.len() && m is None && (fuel >= 2 ==> (forall|i: int|
            0 <= i < es.len() && self_eval_val(#[trigger] es[i]) ==> fs[i] == es[i])))),
        ast@ matches GVal::Vector(es, _) ==> (r matches Result::Ok(v) ==> (v@
            matches GVal::Vector(fs, m) && fs.len() == es.len() && m is None && (fuel >= 2 ==> (
        forall|i: int| 0 <= i < es.len() && self_eval_val(#[trigger] es[i]) ==> fs[i] == es[i])))),
        ast@ matches GVal::HashMap(ps, _) ==> (r matches Result::Ok(v) ==> (v@
            matches GVal::HashMap(qs, m) && qs.len() == ps.len() && m is None && (forall|j: int|
            0 <= j < ps.len() ==> (#[trigger] qs[j]).0 == ps[j].0) && (fuel >= 2 ==> (forall|
            j: int,
        |
            0 <= j < ps.len() && self_eval_val(#[trigger] ps[j].1) ==> qs[j].1 == ps[j].1)))),
    decreases fuel, 5int,
{
    let ghost pre = *it;
    match ast {
        MalVal::Symbol(s) => {
            proof {
                lemma_lookup_wf(it.env@, env as int, s@, it.env@.len(), it.atoms@.len());
            }
            match it.env.get(env, s) {
                Option::Some(v) => Result::Ok(v),
                Option::None => {
                    let mut msg = String::from_str("'");
                    msg.append(s.as_str());
                    msg.append("' not found.");
                    proof {
                        reveal_strlit("'");
                        assert(msg@ =~= not_found_msg(s@));
                    }
                    Result::Err(MalError::Other(msg))
                },
            }
        },
        MalVal::List(es, _) => {
            proof {
                lemma_v_seq(es@);
                lemma_wf_elems_vals(es@, it.env@.len(), it.atoms@.len());
            }
            let mut out: Vec<MalVal> = Vec::new();
            let mut i: usize = 0;
            if fuel == 0 {
                return err_fuel();
            }
            while i < es.len()
                invariant
                    i <= es@.len(),
                    out@.len() == i,
                    fuel >= 1,
                    env < it.env@.len(),
                    wf_interp(*it),
                    pre == *old(it),
                    !(ast@ is Symbol),
                    !self_eval_val(ast@),
                    interp_grows(pre, *it),
                    decreases_to!(*ast => *es),
                    forall|j: int|
                        0 <= j < es@.len() ==> wf_val(
                            v_val(#[trigger] es@[j]),
                            pre.env@.len(),
                            pre.atoms@.len(),
                        ),
                    forall|j: int|
                        0 <= j < i ==> wf_val(
                            v_val(#[trigger] out@[j]),
                            it.env@.len(),
                            it.atoms@.len(),
                        ),
                    fuel >= 2 ==> (forall|j: int|
                        0 <= j < i && self_eval_val(v_val(#[trigger] es@[j])) ==> v_val(out@[j])
                            == v_val(es@[j])),
                decreases es@.len() - i,
            {
                let ghost mid = *it;
                proof {
                    lemma_wf_mono(
                        v_val(es@[i as int]),
                        pre.env@.len(),
                        pre.atoms@.len(),
                        it.env@.len(),
                        it.atoms@.len(),
                    );
                }
                match eval(it, es[i].duplicate(), env, fuel - 1) {
                    Result::Ok(v) => {
                        out.push(v);
                    },
                    Result::Err(e) => {
                        proof {
                            lemma_grows_trans(pre, mid, *it);
                        }
                        return Result::Err(e);
                    },
                }
                proof {
                    lemma_grows_trans(pre, mid, *it);
                    assert forall|j: int| 0 <= j < out@.len() implies wf_val(
                        v_val(#[trigger] out@[j]),
                        it.env@.len(),
                        it.atoms@.len(),
                    ) by {
                        if j < out@.len() - 1 {
                            lemma_wf_mono(
                                v_val(out@[j]),
                                mid.env@.len(),
                                mid.atoms@.len(),
                                it.env@.len(),
                                it.atoms@.len(),
                            );
                        }
                    }
                }
                i += 1;
            }
            proof {
                lemma_v_seq(out@);
                lemma_wf_seq_of_all(v_seq(out@), 0, it.env@.len(), it.atoms@.len());
            }
            Result::Ok(MalVal::List(out, Option::None))
        },
        MalVal::Vector(es, _) => {
            proof {
                lemma_v_seq(es@);
                lemma_wf_elems_vals(es@, it.env@.len(), it.atoms@.len());
            }
            let mut out: Vec<MalVal> = Vec::new();
            let mut i: usize = 0;
            if fuel == 0 {
                return err_fuel();
            }
            while i < es.len()
                invariant
                    i <= es@.len(),
                    out@.len() == i,
                    fuel >= 1,
                    env < it.env@.len(),
                    wf_interp(*it),
                    pre == *old(it),
                    !(ast@ is Symbol),
                    !self_eval_val(ast@),
                    interp_grows(pre, *it),
                    decreases_to!(*ast => *es),
                    forall|j: int|
                        0 <= j < es@.len() ==> wf_val(
                            v_val(#[trigger] es@[j]),
                            pre.env@.len(),
                            pre.atoms@.len(),
                        ),
                    forall|j: int|
                        0 <= j < i ==> wf_val(
                            v_val(#[trigger] out@[j]),
                            it.env@.len(),
                            it.atoms@.len(),
                        ),
                    fuel >= 2 ==> (forall|j: int|
                        0 <= j < i && self_eval_val(v_val(#[trigger] es@[j])) ==> v_val(out@[j])
                            == v_val(es@[j])),
                decreases es@.len() - i,
            {
                let ghost mid = *it;
                proof {
                    lemma_wf_mono(
                        v_val(es@[i as int]),
                        pre.env@.len(),
                        pre.atoms@.len(),
                        it.env@.len(),
                        it.atoms@.len(),
                    );
                }
                match eval(it, es[i].duplicate(), env, fuel - 1) {
                    Result::Ok(v) => {
                        out.push(v);
                    },
                    Result::Err(e) => {
                        proof {
                            lemma_grows_trans(pre, mid, *it);
                        }
                        return Result::Err(e);
                    },
                }
                proof {
                    lemma_grows_trans(pre, mid, *it);
                    assert forall|j: int| 0 <= j < out@.len() implies wf_val(
                        v_val(#[trigger] out@[j]),
                        it.env@.len(),
                        it.atoms@.len(),
                    ) by {
                        if j < out@.len() - 1 {
                            lemma_wf_mono(
                                v_val(out@[j]),
                                mid.env@.len(),
                                mid.atoms@.len(),
                                it.env@.len(),
                                it.atoms@.len(),
                            );
                        }
                    }
                }
                i += 1;
            }
            proof {
                lemma_v_seq(out@);
                lemma_wf_seq_of_all(v_seq(out@), 0, it.env@.len(), it.atoms@.len());
            }
            Result::Ok(MalVal::Vector(out, Option::None))
        },
        MalVal::HashMap(ps, _) => {
            proof {
                crate::types::lemma_v_pairs(ps@);
                lemma_wf_pairs_vals(ps@, it.env@.len(), it.atoms@.len());
            }
            let mut out: Vec<(crate::types::Hashable, MalVal)> = Vec::new();
            let mut i: usize = 0;
            if fuel == 0 {
                return err_fuel();
            }
            while i < ps.len()
                invariant
                    i <= ps@.len(),
                    out@.len() == i,
                    fuel >= 1,
                    env < it.env@.len(),
                    wf_interp(*it),
                    pre == *old(it),
                    !(ast@ is Symbol),
                    !self_eval_val(ast@),
                    interp_grows(pre, *it),
                    decreases_to!(*ast => *ps),
                    forall|j: int|
                        0 <= j < ps@.len() ==> wf_val(
                            v_val((#[trigger] ps@[j]).1),
                            pre.env@.len(),
                            pre.atoms@.len(),
                        ),
                    forall|j: int|
                        0 <= j < i ==> wf_val(
                            v_val((#[trigger] out@[j]).1),
                            it.env@.len(),
                            it.atoms@.len(),
                        ),
                    forall|j: int|
                        0 <= j < i ==> crate::types::v_key((#[trigger] out@[j]).0)
                            == crate::types::v_key(ps@[j].0),
                    fuel >= 2 ==> (forall|j: int|
                        0 <= j < i && self_eval_val(v_val((#[trigger] ps@[j]).1)) ==> v_val(
                            out@[j].1,
                        ) == v_val(ps@[j].1)),
                decreases ps@.len() - i,
            {
                let ghost mid = *it;
                proof {
                    lemma_wf_mono(
                        v_val(ps@[i as int].1),
                        pre.env@.len(),
                        pre.atoms@.len(),
                        it.env@.len(),
                        it.atoms@.len(),
                    );
                }
                let k = ps[i].0.duplicate();
                match eval(it, ps[i].1.duplicate(), env, fuel - 1) {
                    Result::Ok(v) => {
                        out.push((k, v));
                    },
                    Result::Err(e) => {
                        proof {
                            lemma_grows_trans(pre, mid, *it);
                        }
                        return Result::Err(e);
                    },
                }
                proof {
                    lemma_grows_trans(pre, mid, *it);
                    assert forall|j: int| 0 <= j < out@.len() implies wf_val(
                        v_val((#[trigger] out@[j]).1),
                        it.env@.len(),
                        it.atoms@.len(),
                    ) by {
                        if j < out@.len() - 1 {
                            lemma_wf_mono(
                                v_val(out@[j].1),
                                mid.env@.len(),
                                mid.atoms@.len(),
                                it.env@.len(),
                                it.atoms@.len(),
                            );
                        }
                    }
                }
                i += 1;
            }
            proof {
                crate::types::lemma_v_pairs(out@);
                hashmap_out_wf(v_pairs_local(out@), v_pairs_local(ps@), it.env@.len(), it.atoms@.len());
            }
            Result::Ok(MalVal::HashMap(out, Option::None))
        },
        _ => Result::Ok(ast.duplicate()),
    }
}

pub open spec fn v_pairs_local(s: Seq<(crate::types::Hashable, MalVal)>) -> Seq<
    (crate::types::GKey, GVal),
> {
    crate::types::v_pairs(s)
}

/// The evaluated entries are well formed and keep the input map's keys, so the
/// new map is well formed if the old one was.
proof fn hashmap_out_wf(
    qs: Seq<(crate::types::GKey, GVal)>,
    ps: Seq<(crate::types::GKey, GVal)>,
    ne: nat,
    na: nat,
)
    requires
        qs.len() == ps.len(),
        forall|j: int| 0 <= j < qs.len() ==> (#[trigger] qs[j]).0 == ps[j].0,
        crate::types::uniq_keys(ps),
        forall|j: int| 0 <= j < qs.len() ==> wf_val((#[trigger] qs[j]).1, ne, na),
    ensures
        crate::types::uniq_keys(qs),
        crate::types::wf_pairs(qs, ne, na),
{
    lemma_wf_pairs_of_all(qs, 0, ne, na);
}

proof fn lemma_wf_pairs_of_all(s: Seq<(crate::types::GKey, GVal)>, i: int, ne: nat, na: nat)
    requires
        forall|k: int| 0 <= k < s.len() ==> wf_val((#[trigger] s[k]).1, ne, na),
    ensures
        crate::types::wf_pairs_from(s, i, ne, na),
    decreases s.len() - i,
{
    if 0 <= i < s.len() {
        lemma_wf_pairs_of_all(s, i + 1, ne, na);
    }
}

// ---------------------------------------------------------------------------
// Macro expansion
// ---------------------------------------------------------------------------

/// Expand macro calls at the head of `ast` until none is left. The macro's
/// arguments are handed over unevaluated; a form that is no macro call comes
/// back untouched, with the interpreter untouched too.
fn macroexpand(it: &mut Interp, ast: MalVal, env: usize, fuel: u64) -> (r: MalResult)
    requires
        wf_interp(*old(it)),
        wf_val(ast@, old(it).env@.len(), old(it).atoms@.len()),
        env < old(it).env@.len(),
    ensures
        wf_interp(*final(it)),
        interp_grows(*old(it), *final(it)),
        r matches Result::Ok(v) ==> wf_val(v@, final(it).env@.len(), final(it).atoms@.len()),
        r matches Result::Ok(v) ==> !is_macro_spec(final(it).env@, v@, env as int),
        !is_macro_spec(old(it).env@, ast@, env as int) ==> (*final(it) == *old(it) && (r matches
        Result::Ok(v) && v@ == ast@)),
    decreases fuel, 4int,
{
    let ghost pre = *it;
    let mut cur = ast;
    let mut fl = fuel;
    let ghost entry_macro = is_macro_spec(pre.env@, cur@, env as int);
    loop
        invariant
            wf_interp(*it),
            env < it.env@.len(),
            pre == *old(it),
            wf_val(cur@, it.env@.len(), it.atoms@.len()),
            interp_grows(pre, *it),
            fl <= fuel,
            entry_macro == is_macro_spec(pre.env@, ast@, env as int),
            !entry_macro ==> (*it == pre && cur@ == ast@),
        decreases fl,
    {
        match get_macro(it, &cur, env) {
            Option::None => {
                return Result::Ok(cur);
            },
            Option::Some(mf) => {
                if fl == 0 {
                    return err_fuel();
                }
                fl = fl - 1;
                let tail = match &cur {
                    MalVal::List(es, _) => {
                        proof {
                            lemma_v_seq(es@);
                            lemma_wf_elems_vals(es@, it.env@.len(), it.atoms@.len());
                        }
                        let mut t: Vec<MalVal> = Vec::new();
                        let mut i: usize = 1;
                        while i < es.len()
                            invariant
                                1 <= i <= es@.len() || (i == 1 && es@.len() == 0),
                                forall|j: int|
                                    0 <= j < t@.len() ==> wf_val(
                                        v_val(#[trigger] t@[j]),
                                        it.env@.len(),
                                        it.atoms@.len(),
                                    ),
                                wf_interp(*it),
                                wf_val(cur@, it.env@.len(), it.atoms@.len()),
                                decreases_to!(cur => *es),
                                forall|j: int|
                                    0 <= j < es@.len() ==> wf_val(
                                        v_val(#[trigger] es@[j]),
                                        it.env@.len(),
                                        it.atoms@.len(),
                                    ),
                            decreases es@.len() - i,
                        {
                            t.push(es[i].duplicate());
                            i += 1;
                        }
                        t
                    },
                    _ => {
                        return Result::Ok(cur);
                    },
                };
                let ghost mid = *it;
                proof {
                    assert(wf_args(tail@, it.env@.len(), it.atoms@.len()));
                }
                match mf.run(it, &tail, fl) {
                    Result::Ok(v) => {
                        proof {
                            lemma_grows_trans(pre, mid, *it);
                        }
                        cur = v;
                    },
                    Result::Err(e) => {
                        proof {
                            lemma_grows_trans(pre, mid, *it);
                        }
                        return Result::Err(e);
                    },
                }
            },
        }
    }
}

// ---------------------------------------------------------------------------
// Executable well-formedness
// ---------------------------------------------------------------------------

/// The elements of a well-formed stretch are each well formed.
proof fn lemma_wf_seq_elems(s: Seq<GVal>, i: int, ne: nat, na: nat)
    requires
        crate::types::wf_seq_from(s, i, ne, na),
        0 <= i,
    ensures
        forall|k: int| i <= k < s.len() ==> wf_val(#[trigger] s[k], ne, na),
    decreases s.len() - i,
{
    if i < s.len() {
        lemma_wf_seq_elems(s, i + 1, ne, na);
    }
}

/// The elements of a well-formed vector of values are each well formed.
proof fn lemma_wf_elems_vals(es: Seq<MalVal>, ne: nat, na: nat)
    requires
        crate::types::wf_seq(v_seq(es), ne, na),
    ensures
        forall|j: int| 0 <= j < es.len() ==> wf_val(v_val(#[trigger] es[j]), ne, na),
{
    lemma_v_seq(es);
    lemma_wf_seq_elems(v_seq(es), 0, ne, na);
    assert forall|j: int| 0 <= j < es.len() implies wf_val(
        v_val(#[trigger] es[j]),
        ne,
        na,
    ) by {
        assert(v_seq(es)[j] == v_val(es[j]));
    }
}

proof fn lemma_wf_pairs_vals(ps: Seq<(crate::types::Hashable, MalVal)>, ne: nat, na: nat)
    requires
        crate::types::wf_pairs(crate::types::v_pairs(ps), ne, na),
    ensures
        forall|j: int| 0 <= j < ps.len() ==> wf_val(v_val((#[trigger] ps[j]).1), ne, na),
{
    crate::types::lemma_v_pairs(ps);
    lemma_wf_pairs_elems(crate::types::v_pairs(ps), 0, ne, na);
    assert forall|j: int| 0 <= j < ps.len() implies wf_val(
        v_val((#[trigger] ps[j]).1),
        ne,
        na,
    ) by {
        assert(crate::types::v_pairs(ps)[j] == (
        crate::types::v_key(ps[j].0),
        v_val(ps[j].1),
        ));
    }
}

proof fn lemma_wf_pairs_elems(s: Seq<(crate::types::GKey, GVal)>, i: int, ne: nat, na: nat)
    requires
        crate::types::wf_pairs_from(s, i, ne, na),
        0 <= i,
    ensures
        forall|k: int| i <= k < s.len() ==> wf_val((#[trigger] s[k]).1, ne, na),
    decreases s.len() - i,
{
    if i < s.len() {
        lemma_wf_pairs_elems(s, i + 1, ne, na);
    }
}

/// Whether no two entries share a key.
fn keys_unique(ps: &Vec<(crate::types::Hashable, MalVal)>) -> (r: bool)
    ensures
        r == crate::types::uniq_keys(crate::types::v_pairs(ps@)),
{
    let ghost gps = crate::types::v_pairs(ps@);
    proof {
        crate::types::lemma_v_pairs(ps@);
    }
    let n = ps.len();
    let mut i: usize = 0;
    while i < n
        invariant
            n == ps@.len(),
            i <= n,
            gps == crate::types::v_pairs(ps@),
            gps.len() == n,
            forall|a: int, b: int| 0 <= a < b < n && a < i ==> gps[a].0 != gps[b].0,
        decreases n - i,
    {
        let mut j: usize = i + 1;
        while j < n
            invariant
                n == ps@.len(),
                i < j <= n || (j == i + 1 && i + 1 > n),
                i < n,
                gps == crate::types::v_pairs(ps@),
                gps.len() == n,
                forall|b: int| i < b < j ==> gps[i as int].0 != gps[b].0,
            decreases n - j,
        {
            proof {
                crate::types::lemma_v_pairs(ps@);
            }
            if crate::types::key_eq(&ps[i].0, &ps[j].0) {
                proof {
                    assert(0 <= i < j < gps.len() && (#[trigger] gps[i as int]).0 == gps[
                        j as int].0);
                    assert(!crate::types::uniq_keys(gps));
                }
                return false;
            }
            j += 1;
        }
        i += 1;
    }
    true
}

/// Whether a value is well formed for an interpreter with `ne` frames and
/// `na` atoms: the runtime twin of `wf_val`, used where a value enters the
/// interpreter from outside the proofs.
pub fn check_wf(v: &MalVal, ne: usize, na: usize) -> (r: bool)
    ensures
        r == wf_val(v@, ne as nat, na as nat),
    decreases *v, 1int,
{
    match v {
        MalVal::Fn(f, m) => {
            let fok = match &**f {
                MalFn::RegularFn(_) => true,
                MalFn::MalFunc(mf) => mf.env < ne && check_wf(&mf.ast, ne, na),
            };
            fok && check_wf_meta(m, ne, na)
        },
        MalVal::List(es, m) => check_wf_all(es, ne, na, v) && check_wf_meta(m, ne, na),
        MalVal::Vector(es, m) => check_wf_all(es, ne, na, v) && check_wf_meta(m, ne, na),
        MalVal::HashMap(ps, m) => keys_unique(ps) && check_wf_pairs(ps, ne, na, v)
            && check_wf_meta(m, ne, na),
        MalVal::Integer(_) => true,
        MalVal::Atom(a) => *a < na,
        _ => true,
    }
}

fn check_wf_meta(m: &Option<Box<MalVal>>, ne: usize, na: usize) -> (r: bool)
    ensures
        r == crate::types::wf_meta(crate::types::v_meta(*m), ne as nat, na as nat),
    decreases *m, 1int,
{
    match m {
        Option::None => true,
        Option::Some(b) => check_wf(b, ne, na),
    }
}

/// All elements well formed; `whole` carries the termination measure.
fn check_wf_all(es: &Vec<MalVal>, ne: usize, na: usize, whole: &MalVal) -> (r: bool)
    requires
        decreases_to!(*whole => *es),
    ensures
        r == crate::types::wf_seq(v_seq(es@), ne as nat, na as nat),
    decreases *whole, 0int,
{
    let ghost ges = v_seq(es@);
    proof {
        lemma_v_seq(es@);
    }
    let mut i: usize = 0;
    while i < es.len()
        invariant
            i <= es@.len(),
            ges == v_seq(es@),
            ges.len() == es@.len(),
            decreases_to!(*whole => *es),
            crate::types::wf_seq_from(ges, 0, ne as nat, na as nat) == crate::types::wf_seq_from(
                ges,
                i as int,
                ne as nat,
                na as nat,
            ),
        decreases es@.len() - i,
    {
        proof {
            lemma_v_seq(es@);
            assert(decreases_to!(*es => es@[i as int]));
        }
        if !check_wf(&es[i], ne, na) {
            proof {
                assert(!crate::types::wf_seq_from(ges, i as int, ne as nat, na as nat));
            }
            return false;
        }
        i += 1;
    }
    true
}

fn check_wf_pairs(
    ps: &Vec<(crate::types::Hashable, MalVal)>,
    ne: usize,
    na: usize,
    whole: &MalVal,
) -> (r: bool)
    requires
        decreases_to!(*whole => *ps),
    ensures
        r == crate::types::wf_pairs(
            crate::types::v_pairs(ps@),
            ne as nat,
            na as nat,
        ),
    decreases *whole, 0int,
{
    let ghost gps = crate::types::v_pairs(ps@);
    proof {
        crate::types::lemma_v_pairs(ps@);
    }
    let mut i: usize = 0;
    while i < ps.len()
        invariant
            i <= ps@.len(),
            gps == crate::types::v_pairs(ps@),
            gps.len() == ps@.len(),
            decreases_to!(*whole => *ps),
            crate::types::wf_pairs_from(gps, 0, ne as nat, na as nat)
                == crate::types::wf_pairs_from(gps, i as int, ne as nat, na as nat),
        decreases ps@.len() - i,
    {
        proof {
            crate::types::lemma_v_pairs(ps@);
            assert(decreases_to!(*ps => ps@[i as int]));
            assert(decreases_to!(*ps => ps@[i as int].1));
        }
        if !check_wf(&ps[i].1, ne, na) {
            proof {
                assert(!crate::types::wf_pairs_from(gps, i as int, ne as nat, na as nat));
            }
            return false;
        }
        i += 1;
    }
    true
}

// ---------------------------------------------------------------------------
// The evaluator
// ---------------------------------------------------------------------------

pub open spec fn empty_list_shape(v: GVal) -> bool {
    v matches GVal::List(es, _) && es.len() == 0
}

pub open spec fn quote_shape(v: GVal) -> bool {
    v matches GVal::List(es, _) && es.len() >= 2 && es[0] == GVal::Symbol(
        crate::reader::txt_quote(),
    )
}

pub open spec fn def_shape(v: GVal) -> bool {
    v matches GVal::List(es, _) && es.len() >= 3 && es[0] == GVal::Symbol("def!"@) && es[1]
        is Symbol
}

pub open spec fn def_name(v: GVal) -> Seq<char> {
    v->List_0[1]->Symbol_0
}

/// A parameter list: a list or vector of symbols.
pub open spec fn params_ok(p: GVal) -> bool {
    match p {
        GVal::List(ps, _) => forall|i: int| 0 <= i < ps.len() ==> (#[trigger] ps[i]) is Symbol,
        GVal::Vector(ps, _) => forall|i: int| 0 <= i < ps.len() ==> (#[trigger] ps[i]) is Symbol,
        _ => false,
    }
}

pub open spec fn params_seq(p: GVal) -> Seq<GVal> {
    match p {
        GVal::List(ps, _) => ps,
        GVal::Vector(ps, _) => ps,
        _ => Seq::empty(),
    }
}

/// The names of the symbols from position `i` on.
pub open spec fn names_from(ps: Seq<GVal>, i: int) -> Seq<Seq<char>>
    decreases ps.len() - i,
{
    if i < 0 || i >= ps.len() {
        Seq::empty()
    } else {
        match ps[i] {
            GVal::Symbol(s) => seq![s] + names_from(ps, i + 1),
            _ => names_from(ps, i + 1),
        }
    }
}

pub open spec fn fn_shape(v: GVal) -> bool {
    v matches GVal::List(es, _) && es.len() >= 3 && es[0] == GVal::Symbol("fn*"@) && params_ok(
        es[1],
    )
}

/// The closure an `fn*` form evaluates to in frame `env`.
pub open spec fn fn_result(v: GVal, env: int) -> GVal {
    GVal::Fn(
        GFn::Closure {
            params: names_from(params_seq(v->List_0[1]), 0),
            body: Box::new(v->List_0[2]),
            env: env as nat,
            is_marco: false,
        },
        Option::None,
    )
}

pub open spec fn defmacro_shape(v: GVal) -> bool {
    v matches GVal::List(es, _) && es.len() >= 3 && es[0] == GVal::Symbol("defmacro!"@) && es[1]
        is Symbol
}

/// A `def!` or `defmacro!` whose value expression is itself an `fn*` form:
/// the shape of the bootstrap definitions. Its evaluation is deterministic —
/// nothing but the one binding changes.
pub open spec fn def_of_fn_shape(v: GVal, env0: int, fs0: Seq<GFrame>) -> bool {
    (def_shape(v) || defmacro_shape(v)) && fn_shape(v->List_0[2]) && !is_macro_spec(
        fs0,
        v,
        env0,
    ) && !is_macro_spec(fs0, v->List_0[2], env0)
}

/// What evaluating a `def!`/`defmacro!` of an `fn*` form does: the closure —
/// flagged for `defmacro!` — is returned and bound under the name, and
/// nothing else moves.
pub open spec fn def_of_fn_post(pre: Interp, post: Interp, v0: GVal, env0: int, r: MalResult) -> bool {
    let bound = if def_shape(v0) {
        fn_result(v0->List_0[2], env0)
    } else {
        flag_macro(fn_result(v0->List_0[2], env0))
    };
    &&& r matches Result::Ok(v) && v@ == bound
    &&& post.env@.len() == pre.env@.len()
    &&& post.env@[env0].outer == pre.env@[env0].outer
    &&& post.env@[env0].table == pre.env@[env0].table.insert(def_name(v0), bound)
    &&& forall|f: int| 0 <= f < pre.env@.len() && f != env0 ==> #[trigger] post.env@[f] == pre.env@[f]
    &&& post.atoms@ == pre.atoms@
    &&& post.out@ == pre.out@
}

/// The same closure with its macro flag raised.
pub open spec fn flag_macro(v: GVal) -> GVal {
    match v {
        GVal::Fn(f, m) => GVal::Fn(
            match f {
                GFn::Closure { params, body, env, is_marco } => GFn::Closure {
                    params,
                    body,
                    env,
                    is_marco: true,
                },
                g => g,
            },
            m,
        ),
        _ => v,
    }
}

/// The entry shapes whose exact result the evaluator's contract states.
pub open spec fn exact_entry(ast0: GVal, env0: int, fs0: Seq<GFrame>) -> bool {
    self_eval_val(ast0) || ast0 is Symbol || ast0 is Vector || ast0 is HashMap
        || empty_list_shape(ast0) || (!is_macro_spec(fs0, ast0, env0) && (quote_shape(ast0)
        || def_shape(ast0) || defmacro_shape(ast0) || fn_shape(ast0)))
}

/// The special-form head symbols are pairwise distinct words.
proof fn lemma_heads()
    ensures
        "def!"@.len() == 4,
        "defmacro!"@.len() == 9,
        "let*"@.len() == 4,
        "do"@.len() == 2,
        "if"@.len() == 2,
        "fn*"@.len() == 3,
        "quote"@.len() == 5,
        "quasiquote"@.len() == 10,
        "quasiquoteexpand"@.len() == 16,
        "macroexpand"@.len() == 11,
        "def!"@[0] == 'd',
        "let*"@[0] == 'l',
{
    reveal_strlit("def!");
    reveal_strlit("defmacro!");
    reveal_strlit("let*");
    reveal_strlit("do");
    reveal_strlit("if");
    reveal_strlit("fn*");
    reveal_strlit("quote");
    reveal_strlit("quasiquote");
    reveal_strlit("quasiquoteexpand");
    reveal_strlit("macroexpand");
}

/// Whether the list's head is the symbol `lit`.
fn head_is(es: &Vec<MalVal>, lit: &str) -> (r: bool)
    requires
        es@.len() > 0,
    ensures
        r == (v_seq(es@)[0] == GVal::Symbol(lit@)),
{
    proof {
        lemma_v_seq(es@);
    }
    match &es[0] {
        MalVal::Symbol(s) => str_is(s, lit),
        _ => false,
    }
}

/// Evaluate `ast0` in frame `env0`. `fuel` bounds the depth of nested
/// evaluation and the number of expansion steps; the tail positions —
/// a `let*` or `do` body, a chosen `if` branch, a quasiquote expansion and a
/// called closure's body — iterate in place instead of recursing.
#[verifier::rlimit(100)]
pub fn eval(it: &mut Interp, ast0: MalVal, env0: usize, fuel: u64) -> (r: MalResult)
    requires
        wf_interp(*old(it)),
        wf_val(ast0@, old(it).env@.len(), old(it).atoms@.len()),
        env0 < old(it).env@.len(),
    ensures
        wf_interp(*final(it)),
        interp_grows(*old(it), *final(it)),
        r matches Result::Ok(v) ==> wf_val(v@, final(it).env@.len(), final(it).atoms@.len()),
        fuel >= 1 && self_eval_val(ast0@) ==> (r matches Result::Ok(v) && v@ == ast0@
            && *final(it) == *old(it)),
        fuel >= 1 ==> (ast0@ matches GVal::Symbol(s) ==> (match lookup(
            old(it).env@,
            env0 as int,
            s,
        ) {
            Option::Some(gv) => r matches Result::Ok(v) && v@ == gv,
            Option::None => r matches Result::Err(e) && v_err(e) == GErr::Other(
                not_found_msg(s),
            ),
        })),
        fuel >= 1 && ast0@ is Symbol ==> *final(it) == *old(it),
        fuel >= 1 && empty_list_shape(ast0@) ==> (r matches Result::Ok(v) && v@ == ast0@
            && *final(it) == *old(it)),
        fuel >= 3 ==> (ast0@ matches GVal::Vector(es, _) ==> (r matches Result::Ok(v) ==> (v@
            matches GVal::Vector(fs, m) && fs.len() == es.len() && m is None && (forall|i: int|
            0 <= i < es.len() && self_eval_val(#[trigger] es[i]) ==> fs[i] == es[i])))),
        fuel >= 3 ==> (ast0@ matches GVal::HashMap(ps, _) ==> (r matches Result::Ok(v) ==> (v@
            matches GVal::HashMap(qs, m) && qs.len() == ps.len() && m is None && (forall|j: int|
            0 <= j < ps.len() ==> (#[trigger] qs[j]).0 == ps[j].0) && (forall|j: int|
            0 <= j < ps.len() && self_eval_val((#[trigger] ps[j]).1) ==> qs[j].1 == ps[j].1)))),
        fuel >= 1 && quote_shape(ast0@) && !is_macro_spec(old(it).env@, ast0@, env0 as int) ==> (
        r matches Result::Ok(v) && v@ == ast0@->List_0[1] && *final(it) == *old(it)),
        fuel >= 1 && def_shape(ast0@) && !is_macro_spec(old(it).env@, ast0@, env0 as int) ==> (r
            matches Result::Ok(v) ==> lookup(final(it).env@, env0 as int, def_name(ast0@))
            == Option::Some(v@)),
        fuel >= 1 && defmacro_shape(ast0@) && !is_macro_spec(old(it).env@, ast0@, env0 as int)
            ==> (r matches Result::Ok(v) ==> lookup(
            final(it).env@,
            env0 as int,
            def_name(ast0@),
        ) == Option::Some(v@) && crate::malcore::is_macro_val(v@)),
        fuel >= 2 && def_of_fn_shape(ast0@, env0 as int, old(it).env@) ==> def_of_fn_post(
            *old(it),
            *final(it),
            ast0@,
            env0 as int,
            r,
        ),
        fuel >= 1 && fn_shape(ast0@) && !is_macro_spec(old(it).env@, ast0@, env0 as int) ==> (r
            matches Result::Ok(v) && v@ == fn_result(ast0@, env0 as int) && *final(it) == *old(
            it)),
    decreases fuel, 6int,
{
    let ghost g0 = *it;
    let ghost gast0 = ast0@;
    let ghost gmac0 = is_macro_spec(g0.env@, gast0, env0 as int);
    let mut ast = ast0;
    let mut env = env0;
    let mut fl = fuel;
    loop
        invariant
            wf_interp(*it),
            env < it.env@.len(),
            wf_val(ast@, it.env@.len(), it.atoms@.len()),
            interp_grows(g0, *it),
            g0 == *old(it),
            fl <= fuel,
            wf_interp(g0),
            env0 < g0.env@.len(),
            gast0 == ast0@,
            gmac0 == is_macro_spec(g0.env@, gast0, env0 as int),
            (ast@ == gast0 && env == env0 && *it == g0 && fl == fuel) || !exact_entry(
                gast0,
                env0 as int,
                g0.env@,
            ),
        decreases fl,
    {
        let ghost pending = ast@ == gast0 && env == env0 && *it == g0 && fl == fuel;
        if fl == 0 {
            proof {
                if pending && fuel >= 1 {
                    assert(false);
                }
            }
            return err_fuel();
        }
        fl = fl - 1;
        let ghost pre_mx = *it;
        ast = match macroexpand(it, ast, env, fl) {
            Result::Ok(v) => v,
            Result::Err(e) => {
                proof {
                    lemma_grows_trans(g0, pre_mx, *it);
                    if pending && !gmac0 {
                        assert(false);
                    }
                }
                return Result::Err(e);
            },
        };
        proof {
            lemma_grows_trans(g0, pre_mx, *it);
        }
        let ghost stable = pending && !gmac0;
        proof {
            if stable {
                assert(ast@ == gast0 && *it == g0);
            }
        }
        match ast {
            MalVal::List(es, meta) => {
                proof {
                    lemma_v_seq(es@);
                    lemma_wf_elems_vals(es@, it.env@.len(), it.atoms@.len());
                }
                if es.len() == 0 {
                    proof {
                        lemma_heads();
                    }
                    return Result::Ok(MalVal::List(es, meta));
                }
                if head_is(&es, "def!") {
                    proof {
                        lemma_heads();
                    }
                    if es.len() < 3 {
                        return err_form();
                    }
                    let name = match &es[1] {
                        MalVal::Symbol(s) => s.clone(),
                        _ => {
                            return err_form();
                        },
                    };
                    let ghost pre_d = *it;
                    match eval(it, es[2].duplicate(), env, fl) {
                        Result::Err(e) => {
                            proof {
                                lemma_grows_trans(g0, pre_d, *it);
                            }
                            return Result::Err(e);
                        },
                        Result::Ok(val) => {
                            let ghost pre_set = *it;
                            proof {
                                lemma_grows_trans(g0, pre_d, *it);
                            }
                            it.env.set(env, name, val.duplicate());
                            proof {
                                lemma_wf_table_insert(
                                    pre_set.env@[env as int].table,
                                    pre_set.env@.len(),
                                    pre_set.atoms@.len(),
                                    it.env@.len(),
                                    it.atoms@.len(),
                                    name@,
                                    val@,
                                );
                                lemma_wf_interp_again(pre_set, *it);
                                lemma_grows_trans(g0, pre_set, *it);
                                lemma_wf_mono(
                                    val@,
                                    pre_set.env@.len(),
                                    pre_set.atoms@.len(),
                                    it.env@.len(),
                                    it.atoms@.len(),
                                );
                            }
                            return Result::Ok(val);
                        },
                    }
                }
                if head_is(&es, "defmacro!") {
                    proof {
                        lemma_heads();
                    }
                    if es.len() < 3 {
                        return err_form();
                    }
                    let name = match &es[1] {
                        MalVal::Symbol(s) => s.clone(),
                        _ => {
                            return err_form();
                        },
                    };
                    let ghost pre_d = *it;
                    match eval(it, es[2].duplicate(), env, fl) {
                        Result::Err(e) => {
                            proof {
                                lemma_grows_trans(g0, pre_d, *it);
                            }
                            return Result::Err(e);
                        },
                        Result::Ok(val) => {
                            proof {
                                lemma_grows_trans(g0, pre_d, *it);
                            }
                            let flagged = match &val {
                                MalVal::Fn(fb, _) => match &**fb {
                                    MalFn::MalFunc(mf) => MalVal::Fn(
                                        Box::new(MalFn::MalFunc(mf.construct_marco())),
                                        Option::None,
                                    ),
                                    _ => {
                                        return err_form();
                                    },
                                },
                                _ => {
                                    return err_form();
                                },
                            };
                            let ghost pre_set = *it;
                            it.env.set(env, name, flagged.duplicate());
                            proof {
                                lemma_wf_table_insert(
                                    pre_set.env@[env as int].table,
                                    pre_set.env@.len(),
                                    pre_set.atoms@.len(),
                                    it.env@.len(),
                                    it.atoms@.len(),
                                    name@,
                                    flagged@,
                                );
                                lemma_wf_interp_again(pre_set, *it);
                                lemma_grows_trans(g0, pre_set, *it);
                                lemma_wf_mono(
                                    flagged@,
                                    pre_set.env@.len(),
                                    pre_set.atoms@.len(),
                                    it.env@.len(),
                                    it.atoms@.len(),
                                );
                            }
                            return Result::Ok(flagged);
                        },
                    }
                }
                if head_is(&es, "let*") {
                    proof {
                        lemma_heads();
                    }
                    if es.len() < 3 {
                        return err_form();
                    }
                    let ghost pre_f = *it;
                    let nf = it.env.push_frame(env);
                    proof {
                        lemma_wf_interp_again(pre_f, *it);
                        lemma_grows_trans(g0, pre_f, *it);
                    }
                    proof {
                        lemma_heads();
                        assert(!exact_entry(gast0, env0 as int, g0.env@));
                    }
                    match &es[1] {
                        MalVal::List(bs, _) | MalVal::Vector(bs, _) => {
                            proof {
                                lemma_v_seq(bs@);
                                assert(wf_val(
                                    v_val(es@[1]),
                                    pre_f.env@.len(),
                                    pre_f.atoms@.len(),
                                ));
                                lemma_wf_elems_vals(bs@, pre_f.env@.len(), pre_f.atoms@.len());
                            }
                            let mut i: usize = 0;
                            while i < bs.len()
                                invariant
                                    i <= bs@.len(),
                                    wf_interp(*it),
                                    g0 == *old(it),
                                    gast0 == ast0@,
                                    env0 < g0.env@.len(),
                                    !exact_entry(gast0, env0 as int, g0.env@),
                                    interp_grows(g0, *it),
                                    nf < it.env@.len(),
                                    fl < fuel,
                                    forall|j: int|
                                        0 <= j < bs@.len() ==> wf_val(
                                            v_val(#[trigger] bs@[j]),
                                            pre_f.env@.len(),
                                            pre_f.atoms@.len(),
                                        ),
                                    pre_f.env@.len() <= it.env@.len(),
                                    pre_f.atoms@.len() <= it.atoms@.len(),
                                decreases bs@.len() - i,
                            {
                                let name = match &bs[i] {
                                    MalVal::Symbol(s) => s.clone(),
                                    _ => {
                                        return err_form();
                                    },
                                };
                                if i + 1 >= bs.len() {
                                    return err_form();
                                }
                                let ghost pre_b = *it;
                                proof {
                                    lemma_wf_mono(
                                        v_val(bs@[i as int + 1]),
                                        pre_f.env@.len(),
                                        pre_f.atoms@.len(),
                                        it.env@.len(),
                                        it.atoms@.len(),
                                    );
                                }
                                match eval(it, bs[i + 1].duplicate(), nf, fl) {
                                    Result::Err(e) => {
                                        proof {
                                            lemma_grows_trans(g0, pre_b, *it);
                                        }
                                        return Result::Err(e);
                                    },
                                    Result::Ok(val) => {
                                        proof {
                                            lemma_grows_trans(g0, pre_b, *it);
                                        }
                                        let ghost pre_set = *it;
                                        it.env.set(nf, name, val);
                                        proof {
                                            lemma_wf_table_insert(
                                                pre_set.env@[nf as int].table,
                                                pre_set.env@.len(),
                                                pre_set.atoms@.len(),
                                                it.env@.len(),
                                                it.atoms@.len(),
                                                name@,
                                                val@,
                                            );
                                            lemma_wf_interp_again(pre_set, *it);
                                            lemma_grows_trans(g0, pre_set, *it);
                                        }
                                    },
                                }
                                i += 2;
                            }
                        },
                        _ => {
                            return err_form();
                        },
                    }
                    proof {
                        lemma_wf_mono(
                            v_val(es@[2]),
                            pre_f.env@.len(),
                            pre_f.atoms@.len(),
                            it.env@.len(),
                            it.atoms@.len(),
                        );
                        if pending {
                            lemma_heads();
                            assert(!exact_entry(gast0, env0 as int, g0.env@));
                        }
                    }
                    env = nf;
                    ast = es[2].duplicate();
                    continue ;
                }
                if head_is(&es, "do") {
                    proof {
                        lemma_heads();
                    }
                    if es.len() == 1 {
                        proof {
                            if pending {
                                assert(!exact_entry(gast0, env0 as int, g0.env@));
                            }
                        }
                        return Result::Ok(MalVal::Nil);
                    }
                    proof {
                        lemma_heads();
                        assert(!exact_entry(gast0, env0 as int, g0.env@));
                    }
                    let ghost pre_do = *it;
                    let n = es.len();
                    let mut i: usize = 1;
                    while n - i > 1
                        invariant
                            n == es@.len(),
                            1 <= i <= n,
                            wf_interp(*it),
                            g0 == *old(it),
                            gast0 == ast0@,
                            env0 < g0.env@.len(),
                            !exact_entry(gast0, env0 as int, g0.env@),
                            interp_grows(g0, *it),
                            env < it.env@.len(),
                            fl < fuel,
                            forall|j: int|
                                0 <= j < es@.len() ==> wf_val(
                                    v_val(#[trigger] es@[j]),
                                    pre_do.env@.len(),
                                    pre_do.atoms@.len(),
                                ),
                            pre_do.env@.len() <= it.env@.len(),
                            pre_do.atoms@.len() <= it.atoms@.len(),
                        decreases es@.len() - i,
                    {
                        let ghost pre_b = *it;
                        proof {
                            lemma_wf_mono(
                                v_val(es@[i as int]),
                                pre_do.env@.len(),
                                pre_do.atoms@.len(),
                                it.env@.len(),
                                it.atoms@.len(),
                            );
                        }
                        match eval(it, es[i].duplicate(), env, fl) {
                            Result::Err(e) => {
                                proof {
                                    lemma_grows_trans(g0, pre_b, *it);
                                }
                                return Result::Err(e);
                            },
                            Result::Ok(_) => {
                                proof {
                                    lemma_grows_trans(g0, pre_b, *it);
                                }
                            },
                        }
                        i += 1;
                    }
                    proof {
                        lemma_wf_mono(
                            v_val(es@[es@.len() - 1]),
                            pre_do.env@.len(),
                            pre_do.atoms@.len(),
                            it.env@.len(),
                            it.atoms@.len(),
                        );
                        if pending {
                            lemma_heads();
                            assert(!exact_entry(gast0, env0 as int, g0.env@));
                        }
                    }
                    ast = es[es.len() - 1].duplicate();
                    continue ;
                }
                if head_is(&es, "if") {
                    proof {
                        lemma_heads();
                    }
                    if es.len() < 3 {
                        return err_form();
                    }
                    let ghost pre_c = *it;
                    let cond = match eval(it, es[1].duplicate(), env, fl) {
                        Result::Err(e) => {
                            proof {
                                lemma_grows_trans(g0, pre_c, *it);
                            }
                            return Result::Err(e);
                        },
                        Result::Ok(v) => v,
                    };
                    proof {
                        lemma_grows_trans(g0, pre_c, *it);
                        lemma_wf_mono(
                            v_val(es@[2]),
                            pre_c.env@.len(),
                            pre_c.atoms@.len(),
                            it.env@.len(),
                            it.atoms@.len(),
                        );
                        if es@.len() > 3 {
                            lemma_wf_mono(
                                v_val(es@[3]),
                                pre_c.env@.len(),
                                pre_c.atoms@.len(),
                                it.env@.len(),
                                it.atoms@.len(),
                            );
                        }
                        if pending {
                            lemma_heads();
                            assert(!exact_entry(gast0, env0 as int, g0.env@));
                        }
                    }
                    let falsy = match &cond {
                        MalVal::Nil => true,
                        MalVal::Bool(b) => !*b,
                        _ => false,
                    };
                    if falsy {
                        if es.len() > 3 {
                            ast = es[3].duplicate();
                            continue ;
                        } else {
                            return Result::Ok(MalVal::Nil);
                        }
                    } else {
                        ast = es[2].duplicate();
                        continue ;
                    }
                }
                if head_is(&es, "fn*") {
                    proof {
                        lemma_heads();
                    }
                    if es.len() < 3 {
                        return err_form();
                    }
                    let names = match collect_params(&es[1]) {
                        Result::Ok(ns) => ns,
                        Result::Err(e) => {
                            return Result::Err(e);
                        },
                    };
                    let body = Box::new(es[2].duplicate());
                    let clo = MalVal::Fn(
                        Box::new(
                            MalFn::MalFunc(
                                MalFunc { ast: body, params: names, env, is_marco: false },
                            ),
                        ),
                        Option::None,
                    );
                    proof {
                        lemma_heads();
                    }
                    return Result::Ok(clo);
                }
                if head_is(&es, "quote") {
                    proof {
                        lemma_heads();
                    }
                    if es.len() < 2 {
                        return err_form();
                    }
                    return Result::Ok(es[1].duplicate());
                }
                if head_is(&es, "quasiquoteexpand") {
                    proof {
                        lemma_heads();
                    }
                    if es.len() < 2 {
                        return err_form();
                    }
                    let q = quasiquote(&es[1]);
                    let ne = it.env.frames.len();
                    let na = it.atoms.len();
                    if check_wf(&q, ne, na) {
                        return Result::Ok(q);
                    } else {
                        return err_form();
                    }
                }
                if head_is(&es, "quasiquote") {
                    proof {
                        lemma_heads();
                    }
                    if es.len() < 2 {
                        return err_form();
                    }
                    let q = quasiquote(&es[1]);
                    let ne = it.env.frames.len();
                    let na = it.atoms.len();
                    if check_wf(&q, ne, na) {
                        proof {
                            if pending {
                                lemma_heads();
                                assert(!exact_entry(gast0, env0 as int, g0.env@));
                            }
                        }
                        ast = q;
                        continue ;
                    } else {
                        return err_form();
                    }
                }
                if head_is(&es, "macroexpand") {
                    proof {
                        lemma_heads();
                    }
                    if es.len() < 2 {
                        return err_form();
                    }
                    let ghost pre_m = *it;
                    let r = macroexpand(it, es[1].duplicate(), env, fl);
                    proof {
                        lemma_grows_trans(g0, pre_m, *it);
                    }
                    return r;
                }
                // function application
                let full = MalVal::List(es, meta);
                let ghost pre_a = *it;
                let evaled = match eval_ast(it, &full, env, fl) {
                    Result::Err(e) => {
                        proof {
                            lemma_grows_trans(g0, pre_a, *it);
                            if pending {
                                assert(!exact_entry(gast0, env0 as int, g0.env@));
                            }
                        }
                        return Result::Err(e);
                    },
                    Result::Ok(v) => v,
                };
                proof {
                    lemma_grows_trans(g0, pre_a, *it);
                }
                match evaled {
                    MalVal::List(mut vs, _) => {
                        proof {
                            lemma_v_seq(vs@);
                            lemma_wf_elems_vals(vs@, it.env@.len(), it.atoms@.len());
                        }
                        let ghost pre_vs = vs@;
                        let f0 = vs.remove(0);
                        let args = vs;
                        proof {
                            lemma_v_seq(args@);
                            assert(v_val(f0) == v_val(pre_vs[0]));
                            assert(wf_val(v_val(f0), it.env@.len(), it.atoms@.len()));
                            assert forall|j: int| 0 <= j < args@.len() implies wf_val(
                                v_val(#[trigger] args@[j]),
                                it.env@.len(),
                                it.atoms@.len(),
                            ) by {
                                assert(args@[j] == pre_vs[j + 1]);
                            }
                            assert(wf_args(args@, it.env@.len(), it.atoms@.len()));
                        }
                        match f0 {
                            MalVal::Fn(fb, _) => match *fb {
                                MalFn::RegularFn(b) => {
                                    let ghost pre_cb = *it;
                                    let r = call_builtin(it, b, &args, fl);
                                    proof {
                                        lemma_grows_trans(g0, pre_cb, *it);
                                        if pending {
                                            assert(!exact_entry(gast0, env0 as int, g0.env@));
                                        }
                                    }
                                    return r;
                                },
                                MalFn::MalFunc(mf) => {
                                    let ghost pre_ap = *it;
                                    let nf = it.env.push_frame(mf.env);
                                    proof {
                                        lemma_wf_interp_again(pre_ap, *it);
                                        lemma_grows_trans(g0, pre_ap, *it);
                                    }
                                    let ghost pre_bd = *it;
                                    proof {
                                        assert forall|j: int|
                                            0 <= j < args@.len() implies wf_val(
                                            v_val(#[trigger] args@[j]),
                                            pre_bd.env@.len(),
                                            pre_bd.atoms@.len(),
                                        ) by {
                                            lemma_wf_mono(
                                                v_val(args@[j]),
                                                pre_ap.env@.len(),
                                                pre_ap.atoms@.len(),
                                                pre_bd.env@.len(),
                                                pre_bd.atoms@.len(),
                                            );
                                        }
                                    }
                                    match it.env.bind_expr(nf, &mf.params, &args) {
                                        Result::Err(e) => {
                                            proof {
                                                bind_keeps_wf(pre_bd, *it, nf as int, args@);
                                                lemma_grows_trans(g0, pre_bd, *it);
                                                if pending {
                                                    assert(!exact_entry(
                                                        gast0,
                                                        env0 as int,
                                                        g0.env@,
                                                    ));
                                                }
                                            }
                                            return Result::Err(e);
                                        },
                                        Result::Ok(()) => {
                                            proof {
                                                bind_keeps_wf(pre_bd, *it, nf as int, args@);
                                                lemma_grows_trans(g0, pre_bd, *it);
                                                lemma_wf_mono(
                                                    v_val(*mf.ast),
                                                    pre_ap.env@.len(),
                                                    pre_ap.atoms@.len(),
                                                    it.env@.len(),
                                                    it.atoms@.len(),
                                                );
                                                if pending {
                                                    assert(!exact_entry(
                                                        gast0,
                                                        env0 as int,
                                                        g0.env@,
                                                    ));
                                                }
                                            }
                                            env = nf;
                                            ast = *mf.ast;
                                            continue ;
                                        },
                                    }
                                },
                            },
                            _ => {
                                return Result::Err(
                                    MalError::Other(String::from_str("not a function")),
                                );
                            },
                        }
                    },
                    _ => {
                        proof {
                            assert(false);
                        }
                        return err_form();
                    },
                }
            },
            v => {
                let ghost pre_o = *it;
                let r = eval_ast(it, &v, env, fl);
                proof {
                    lemma_grows_trans(g0, pre_o, *it);
                }
                return r;
            },
        }
    }
}

/// Collect a parameter list's names; an element that is not a symbol is an
/// error.
fn collect_params(p: &MalVal) -> (r: Result<Vec<String>, MalError>)
    ensures
        match r {
            Result::Ok(ns) => params_ok(p@) && ns.deep_view() == names_from(params_seq(p@), 0),
            Result::Err(_) => !params_ok(p@),
        },
{
    let es = match p {
        MalVal::List(es, _) => es,
        MalVal::Vector(es, _) => es,
        _ => {
            return Result::Err(MalError::Other(String::from_str("malformed special form")));
        },
    };
    proof {
        lemma_v_seq(es@);
    }
    let ghost gps = v_seq(es@);
    let mut out: Vec<String> = Vec::new();
    proof {
        assert(out.deep_view() + names_from(gps, 0) =~~= names_from(gps, 0));
    }
    let mut i: usize = 0;
    while i < es.len()
        invariant
            i <= es@.len(),
            gps == v_seq(es@),
            gps.len() == es@.len(),
            params_seq(p@) == gps,
            (p@ is List || p@ is Vector),
            forall|j: int| 0 <= j < i ==> (#[trigger] gps[j]) is Symbol,
            names_from(gps, 0) == out.deep_view() + names_from(gps, i as int),
        decreases es@.len() - i,
    {
        proof {
            lemma_v_seq(es@);
        }
        match &es[i] {
            MalVal::Symbol(s) => {
                let ghost pre = out.deep_view();
                out.push(s.clone());
                proof {
                    assert(out.deep_view() =~~= pre.push(s@));
                    assert(pre + (seq![s@] + names_from(gps, i as int + 1)) =~~= (pre + seq![s@])
                        + names_from(gps, i as int + 1));
                }
            },
            _ => {
                return Result::Err(MalError::Other(String::from_str("malformed special form")));
            },
        }
        i += 1;
    }
    proof {
        assert(out.deep_view() + names_from(gps, es@.len() as int) =~~= out.deep_view());
    }
    Result::Ok(out)
}

// ---------------------------------------------------------------------------
// Stateful primitives and dispatch
// ---------------------------------------------------------------------------

/// The text printed for the arguments, separated when `spaced`, from the
/// first `n` of them.
pub open spec fn join_vals(
    args: Seq<MalVal>,
    atoms: Seq<GVal>,
    readably: bool,
    spaced: bool,
    n: int,
) -> Seq<char>
    decreases n,
{
    if n <= 0 || n > args.len() {
        Seq::empty()
    } else if n == 1 {
        print_val(v_val(args[0]), readably, atoms, PRINT_ATOM_DEPTH as nat)
    } else {
        join_vals(args, atoms, readably, spaced, n - 1) + (if spaced {
            seq![' ']
        } else {
            Seq::empty()
        }) + print_val(v_val(args[n - 1]), readably, atoms, PRINT_ATOM_DEPTH as nat)
    }
}

/// The arguments printed into one string.
fn join_args(args: &Vec<MalVal>, atoms: &Vec<MalVal>, readably: bool, spaced: bool) -> (s: String)
    ensures
        s@ == join_vals(args@, v_seq(atoms@), readably, spaced, args@.len() as int),
{
    let ghost gatoms = v_seq(atoms@);
    let mut out: Vec<char> = Vec::new();
    let mut i: usize = 0;
    while i < args.len()
        invariant
            i <= args@.len(),
            gatoms == v_seq(atoms@),
            out@ == join_vals(args@, gatoms, readably, spaced, i as int),
        decreases args@.len() - i,
    {
        if i > 0 && spaced {
            out.push(' ');
        }
        crate::printer::write_val(&args[i], readably, atoms, PRINT_ATOM_DEPTH, &mut out);
        proof {
            if i == 0 {
                assert(out@ =~= join_vals(args@, gatoms, readably, spaced, 1int));
            } else {
                assert(out@ =~= join_vals(args@, gatoms, readably, spaced, i as int + 1));
            }
        }
        i += 1;
    }
    crate::types::chars_to_string(&out)
}

/// Relies on std::io::Stdout and its Write impl: print the text now.
#[verifier::external_body]
fn host_write(s: &str) {
    let mut o = std::io::stdout();
    let _ = std::io::Write::write_all(&mut o, s.as_bytes());
    let _ = std::io::Write::flush(&mut o);
}

/// Relies on std::io::Stdin::read_line: one line of input, `None` at end of
/// input. Nothing is promised of the text, which comes from outside.
#[verifier::external_body]
fn host_read_line() -> (r: Option<String>)
{
    let mut buf = String::new();
    match std::io::stdin().read_line(&mut buf) {
        Result::Ok(n) if n > 0 => Option::Some(buf),
        _ => Option::None,
    }
}

/// Relies on std::time::SystemTime::now: milliseconds since the epoch.
/// Nothing is promised of the value, which depends on the clock.
#[verifier::external_body]
fn host_now_ms() -> (r: u64)
{
    match std::time::SystemTime::now().duration_since(std::time::UNIX_EPOCH) {
        Result::Ok(d) => d.as_millis() as u64,
        Result::Err(_) => 0,
    }
}

// ---------------------------------------------------------------------------
// Well-formedness of what the pure primitives build
// ---------------------------------------------------------------------------

proof fn lemma_wf_seq_cons(x: GVal, s: Seq<GVal>, ne: nat, na: nat)
    requires
        wf_val(x, ne, na),
        crate::types::wf_seq(s, ne, na),
    ensures
        crate::types::wf_seq(seq![x] + s, ne, na),
{
    lemma_wf_seq_elems(s, 0, ne, na);
    assert forall|k: int| 0 <= k < (seq![x] + s).len() implies wf_val(
        #[trigger] (seq![x] + s)[k],
        ne,
        na,
    ) by {
        if k > 0 {
            assert((seq![x] + s)[k] == s[k - 1]);
        }
    }
    lemma_wf_seq_of_all(seq![x] + s, 0, ne, na);
}

proof fn lemma_wf_seq_append(a: Seq<GVal>, b: Seq<GVal>, ne: nat, na: nat)
    requires
        crate::types::wf_seq(a, ne, na),
        crate::types::wf_seq(b, ne, na),
    ensures
        crate::types::wf_seq(a + b, ne, na),
{
    lemma_wf_seq_elems(a, 0, ne, na);
    lemma_wf_seq_elems(b, 0, ne, na);
    assert forall|k: int| 0 <= k < (a + b).len() implies wf_val(#[trigger] (a + b)[k], ne, na) by {
        if k < a.len() {
            assert((a + b)[k] == a[k]);
        } else {
            assert((a + b)[k] == b[k - a.len()]);
        }
    }
    lemma_wf_seq_of_all(a + b, 0, ne, na);
}

/// Replacing or appending one well-formed entry keeps the keys distinct and
/// the values well formed; positions at or past `i` that do not hold `k`
/// must not, which the top-level call satisfies vacuously.
proof fn lemma_wf_upsert(
    ps: Seq<(crate::types::GKey, GVal)>,
    k: crate::types::GKey,
    v: GVal,
    i: int,
    ne: nat,
    na: nat,
)
    requires
        crate::types::uniq_keys(ps),
        crate::types::wf_pairs(ps, ne, na),
        wf_val(v, ne, na),
        0 <= i,
        forall|j: int| 0 <= j < i && j < ps.len() ==> (#[trigger] ps[j]).0 != k,
    ensures
        crate::types::uniq_keys(crate::reader::upsert_from(ps, k, v, i)),
        crate::types::wf_pairs(crate::reader::upsert_from(ps, k, v, i), ne, na),
    decreases ps.len() - i,
{
    lemma_wf_pairs_elems(ps, 0, ne, na);
    if i >= ps.len() {
        let q = ps.push((k, v));
        assert forall|a: int, b: int| 0 <= a < b < q.len() implies (#[trigger] q[a]).0 != (
        #[trigger] q[b]).0 by {
            if b < ps.len() {
                assert(q[a] == ps[a] && q[b] == ps[b]);
            } else {
                assert(q[a] == ps[a] && q[b] == (k, v));
            }
        }
        assert forall|m: int| 0 <= m < q.len() implies wf_val((#[trigger] q[m]).1, ne, na) by {
            if m < ps.len() {
                assert(q[m] == ps[m]);
            }
        }
        lemma_wf_pairs_of_all(q, 0, ne, na);
    } else if ps[i].0 == k {
        let q = ps.update(i, (k, v));
        assert forall|a: int, b: int| 0 <= a < b < q.len() implies (#[trigger] q[a]).0 != (
        #[trigger] q[b]).0 by {
            assert(q[a].0 == ps[a].0 && q[b].0 == ps[b].0);
        }
        assert forall|m: int| 0 <= m < q.len() implies wf_val((#[trigger] q[m]).1, ne, na) by {
            if m != i {
                assert(q[m] == ps[m]);
            }
        }
        lemma_wf_pairs_of_all(q, 0, ne, na);
    } else {
        lemma_wf_upsert(ps, k, v, i + 1, ne, na);
    }
}

proof fn lemma_wf_build_map(
    args: Seq<MalVal>,
    i: int,
    acc: Seq<(crate::types::GKey, GVal)>,
    ne: nat,
    na: nat,
)
    requires
        wf_args(args, ne, na),
        crate::types::uniq_keys(acc),
        crate::types::wf_pairs(acc, ne, na),
        0 <= i,
    ensures
        crate::malcore::build_map(args, i, acc) matches Option::Some(qs) ==> (
        crate::types::uniq_keys(qs) && crate::types::wf_pairs(qs, ne, na)),
    decreases args.len() - i,
{
    if 0 <= i && i + 1 < args.len() {
        match crate::reader::to_key(v_val(args[i])) {
            Option::Some(k) => {
                lemma_wf_upsert(acc, k, v_val(args[i + 1]), 0, ne, na);
                lemma_wf_build_map(
                    args,
                    i + 2,
                    crate::reader::upsert(acc, k, v_val(args[i + 1])),
                    ne,
                    na,
                );
            },
            Option::None => {},
        }
    }
}

/// Removing a key keeps the remaining keys distinct and the values well
/// formed; every surviving entry comes from the original tail.
proof fn lemma_wf_del_key(
    ps: Seq<(crate::types::GKey, GVal)>,
    k: crate::types::GKey,
    i: int,
    ne: nat,
    na: nat,
)
    requires
        crate::types::uniq_keys(ps),
        crate::types::wf_pairs(ps, ne, na),
        0 <= i,
    ensures
        crate::types::uniq_keys(crate::malcore::del_key(ps, k, i)),
        crate::types::wf_pairs(crate::malcore::del_key(ps, k, i), ne, na),
        forall|m: int|
            0 <= m < crate::malcore::del_key(ps, k, i).len() ==> exists|j: int|
                i <= j < ps.len() && ps[j] == #[trigger] crate::malcore::del_key(ps, k, i)[m],
    decreases ps.len() - i,
{
    lemma_wf_pairs_elems(ps, 0, ne, na);
    if i < ps.len() {
        lemma_wf_del_key(ps, k, i + 1, ne, na);
        if ps[i].0 != k {
            let rest = crate::malcore::del_key(ps, k, i + 1);
            let q = seq![ps[i]] + rest;
            assert forall|m: int| 0 <= m < q.len() implies exists|j: int|
                i <= j < ps.len() && ps[j] == #[trigger] q[m] by {
                if m == 0 {
                    assert(ps[i] == q[0]);
                } else {
                    assert(q[m] == rest[m - 1]);
                    let j = choose|j: int| i + 1 <= j < ps.len() && ps[j] == rest[m - 1];
                    assert(i <= j < ps.len() && ps[j] == q[m]);
                }
            }
            assert forall|a: int, b: int| 0 <= a < b < q.len() implies (#[trigger] q[a]).0 != (
            #[trigger] q[b]).0 by {
                if a == 0 {
                    assert(q[b] == rest[b - 1]);
                    let j = choose|j: int| i + 1 <= j < ps.len() && ps[j] == rest[b - 1];
                    assert(ps[i].0 != ps[j].0);
                } else {
                    assert(q[a] == rest[a - 1] && q[b] == rest[b - 1]);
                }
            }
            assert forall|m: int| 0 <= m < q.len() implies wf_val(
                (#[trigger] q[m]).1,
                ne,
                na,
            ) by {
                if m == 0 {
                } else {
                    let j = choose|j: int| i + 1 <= j < ps.len() && ps[j] == rest[m - 1];
                    assert(q[m] == ps[j]);
                }
            }
            lemma_wf_pairs_of_all(q, 0, ne, na);
        }
    }
}

proof fn lemma_wf_del_all(
    args: Seq<MalVal>,
    i: int,
    acc: Seq<(crate::types::GKey, GVal)>,
    ne: nat,
    na: nat,
)
    requires
        crate::types::uniq_keys(acc),
        crate::types::wf_pairs(acc, ne, na),
        0 <= i,
    ensures
        crate::malcore::del_all(args, i, acc) matches Option::Some(qs) ==> (
        crate::types::uniq_keys(qs) && crate::types::wf_pairs(qs, ne, na)),
    decreases args.len() - i,
{
    if 0 <= i && i < args.len() {
        match crate::reader::to_key(v_val(args[i])) {
            Option::Some(k) => {
                lemma_wf_del_key(acc, k, 0, ne, na);
                lemma_wf_del_all(args, i + 1, crate::malcore::del_key(acc, k, 0), ne, na);
            },
            Option::None => {},
        }
    }
}

proof fn lemma_wf_concat_all(args: Seq<MalVal>, i: int, ne: nat, na: nat)
    requires
        wf_args(args, ne, na),
        0 <= i,
    ensures
        crate::malcore::concat_all(args, i) matches Option::Some(es) ==> crate::types::wf_seq(
            es,
            ne,
            na,
        ),
    decreases args.len() - i,
{
    if i >= args.len() {
        lemma_wf_seq_of_all(Seq::<GVal>::empty(), 0, ne, na);
    } else {
        lemma_wf_concat_all(args, i + 1, ne, na);
        match crate::malcore::seq_of(v_val(args[i])) {
            Option::Some(es) => {
                match crate::malcore::concat_all(args, i + 1) {
                    Option::Some(rest) => {
                        lemma_wf_seq_append(es, rest, ne, na);
                    },
                    Option::None => {},
                }
            },
            Option::None => {},
        }
    }
}

proof fn lemma_wf_keys_of(ps: Seq<(crate::types::GKey, GVal)>, i: int, ne: nat, na: nat)
    requires
        0 <= i,
    ensures
        crate::types::wf_seq(crate::malcore::keys_of(ps, i), ne, na),
    decreases ps.len() - i,
{
    if i >= ps.len() {
        lemma_wf_seq_of_all(Seq::<GVal>::empty(), 0, ne, na);
    } else {
        lemma_wf_keys_of(ps, i + 1, ne, na);
        lemma_wf_seq_cons(
            crate::malcore::key_val(ps[i].0),
            crate::malcore::keys_of(ps, i + 1),
            ne,
            na,
        );
    }
}

proof fn lemma_wf_vals_of(ps: Seq<(crate::types::GKey, GVal)>, i: int, ne: nat, na: nat)
    requires
        crate::types::wf_pairs(ps, ne, na),
        0 <= i,
    ensures
        crate::types::wf_seq(crate::malcore::vals_of(ps, i), ne, na),
    decreases ps.len() - i,
{
    lemma_wf_pairs_elems(ps, 0, ne, na);
    if i >= ps.len() {
        lemma_wf_seq_of_all(Seq::<GVal>::empty(), 0, ne, na);
    } else {
        lemma_wf_vals_of(ps, i + 1, ne, na);
        lemma_wf_seq_cons(ps[i].1, crate::malcore::vals_of(ps, i + 1), ne, na);
    }
}

proof fn lemma_wf_chars_of(t: Seq<char>, i: int, ne: nat, na: nat)
    requires
        0 <= i,
    ensures
        crate::types::wf_seq(crate::malcore::chars_of(t, i), ne, na),
    decreases t.len() - i,
{
    if i >= t.len() {
        lemma_wf_seq_of_all(Seq::<GVal>::empty(), 0, ne, na);
    } else {
        lemma_wf_chars_of(t, i + 1, ne, na);
        lemma_wf_seq_cons(GVal::Str(seq![t[i]]), crate::malcore::chars_of(t, i + 1), ne, na);
    }
}

proof fn lemma_wf_rev_pre(args: Seq<MalVal>, n: int, ne: nat, na: nat)
    requires
        wf_args(args, ne, na),
    ensures
        crate::types::wf_seq(crate::malcore::rev_pre(args, n), ne, na),
    decreases n,
{
    if n <= 1 || n > args.len() {
        lemma_wf_seq_of_all(Seq::<GVal>::empty(), 0, ne, na);
    } else {
        lemma_wf_rev_pre(args, n - 1, ne, na);
        lemma_wf_seq_cons(v_val(args[n - 1]), crate::malcore::rev_pre(args, n - 1), ne, na);
    }
}

proof fn lemma_wf_args_tail(args: Seq<MalVal>, i: int, ne: nat, na: nat)
    requires
        wf_args(args, ne, na),
        0 <= i,
    ensures
        crate::types::wf_seq(crate::malcore::args_tail(args, i), ne, na),
    decreases args.len() - i,
{
    if i >= args.len() {
        lemma_wf_seq_of_all(Seq::<GVal>::empty(), 0, ne, na);
    } else {
        lemma_wf_args_tail(args, i + 1, ne, na);
        lemma_wf_seq_cons(v_val(args[i]), crate::malcore::args_tail(args, i + 1), ne, na);
    }
}

proof fn lemma_wf_args_seq(args: Seq<MalVal>, ne: nat, na: nat)
    requires
        wf_args(args, ne, na),
    ensures
        crate::types::wf_seq(v_seq(args), ne, na),
{
    lemma_v_seq(args);
    assert forall|k: int| 0 <= k < v_seq(args).len() implies wf_val(
        #[trigger] v_seq(args)[k],
        ne,
        na,
    ) by {
        assert(v_seq(args)[k] == v_val(args[k]));
    }
    lemma_wf_seq_of_all(v_seq(args), 0, ne, na);
}

proof fn lemma_wf_rest_of(es: Seq<GVal>, ne: nat, na: nat)
    requires
        crate::types::wf_seq(es, ne, na),
    ensures
        crate::types::wf_seq(crate::malcore::rest_of(es), ne, na),
{
    lemma_wf_seq_elems(es, 0, ne, na);
    let rs = crate::malcore::rest_of(es);
    assert forall|k: int| 0 <= k < rs.len() implies wf_val(#[trigger] rs[k], ne, na) by {
        if es.len() > 0 {
            assert(rs[k] == es[k + 1]);
        }
    }
    lemma_wf_seq_of_all(rs, 0, ne, na);
}

proof fn lemma_wf_find_val(
    ps: Seq<(crate::types::GKey, GVal)>,
    k: crate::types::GKey,
    i: int,
    ne: nat,
    na: nat,
)
    requires
        crate::types::wf_pairs(ps, ne, na),
        0 <= i,
    ensures
        crate::malcore::find_val(ps, k, i) matches Option::Some(v) ==> wf_val(v, ne, na),
    decreases ps.len() - i,
{
    lemma_wf_pairs_elems(ps, 0, ne, na);
    if i < ps.len() && ps[i].0 != k {
        lemma_wf_find_val(ps, k, i + 1, ne, na);
    }
}

proof fn lemma_args_tail_pointwise(args: Seq<MalVal>, i: int)
    requires
        0 <= i <= args.len(),
    ensures
        crate::malcore::args_tail(args, i).len() == args.len() - i,
        forall|m: int|
            0 <= m < args.len() - i ==> #[trigger] crate::malcore::args_tail(args, i)[m] == v_val(
                args[i + m],
            ),
    decreases args.len() - i,
{
    if i < args.len() {
        lemma_args_tail_pointwise(args, i + 1);
    }
}

/// The step a printing primitive takes: one line is appended to the output
/// record, everything else stays.
pub open spec fn out_appended(pre: Interp, post: Interp, line: Seq<char>) -> bool {
    &&& post.env@ == pre.env@
    &&& post.atoms@ == pre.atoms@
    &&& post.out@.len() == pre.out@.len() + 1
    &&& post.out@[pre.out@.len() as int]@ == line
}

impl MalFn {
    /// A fresh user-defined, non-macro function.
    pub fn custom_func(ast: MalVal, params: Vec<String>, env: usize) -> (r: MalFn)
        ensures
            v_fn(r) == (GFn::Closure {
                params: params.deep_view(),
                body: Box::new(ast@),
                env: env as nat,
                is_marco: false,
            }),
    {
        MalFn::MalFunc(MalFunc { ast: Box::new(ast), params, env, is_marco: false })
    }

    /// Call the function on the arguments: a primitive dispatches to its
    /// implementation and does exactly what the dispatch contract says; a
    /// closure binds a fresh frame under its captured one and evaluates its
    /// body there.
    pub fn run(&self, it: &mut Interp, args: &Vec<MalVal>, fuel: u64) -> (r: MalResult)
        requires
            wf_interp(*old(it)),
            wf_val(
                GVal::Fn(v_fn(*self), Option::None),
                old(it).env@.len(),
                old(it).atoms@.len(),
            ),
            wf_args(args@, old(it).env@.len(), old(it).atoms@.len()),
        ensures
            wf_interp(*final(it)),
            interp_grows(*old(it), *final(it)),
            r matches Result::Ok(v) ==> wf_val(v@, final(it).env@.len(), final(it).atoms@.len()),
            v_fn(*self) matches GFn::Builtin(b) ==> builtin_call_post(
                b,
                *old(it),
                *final(it),
                args@,
                fuel,
                r,
            ),
            v_fn(*self) matches GFn::Closure { params, env, .. } ==> (final(it).env@.len() > old(
                it,
            ).env@.len() && final(it).env@[old(it).env@.len() as int].outer == Option::Some(env)
                && (crate::env::bind_model(Map::empty(), params, v_seq(args@), 0) is None ==> r
                is Err)),
        decreases fuel, 3int,
    {
        match self {
            MalFn::RegularFn(b) => call_builtin(it, *b, args, fuel),
            MalFn::MalFunc(mf) => mf.run(it, args, fuel),
        }
    }
}

/// What one primitive call does, clause by clause: a pure primitive leaves
/// the interpreter alone and meets its library contract; the atom, printing
/// and host primitives do exactly their stated step. Stated once, carried by
/// the dispatch and by function application alike.
pub open spec fn builtin_call_post(
    b: crate::types::Builtin,
    pre: Interp,
    post: Interp,
    args: Seq<MalVal>,
    fuel: u64,
    r: MalResult,
) -> bool {
    &&& (crate::malcore::is_pure(b) ==> (post == pre && crate::malcore::pure_post( b, args, r, )))
    &&& (b == crate::types::Builtin::MkAtom && args.len() >= 1 ==> (post.atoms@.len() == pre.atoms@.len() + 1 && v_val(post.atoms@[pre.atoms@.len() as int]) == v_val( args[0], ) && (r matches Result::Ok(v) && v@ == GVal::Atom(pre.atoms@.len()))))
    &&& (b == crate::types::Builtin::Deref ==> (args.len() >= 1 ==> (v_val(args[0]) matches GVal::Atom(a) ==> (post == pre && (r matches Result::Ok(v) && v@ == v_val( pre.atoms@[a as int], ))))))
    &&& (b == crate::types::Builtin::Reset ==> (args.len() >= 2 ==> (v_val(args[0]) matches GVal::Atom(a) ==> (post.atoms@.len() == pre.atoms@.len() && v_val( post.atoms@[a as int], ) == v_val(args[1]) && (r matches Result::Ok(v) && v@ == v_val(args[1])) && (forall|x: int| 0 <= x < pre.atoms@.len() && x != a ==> v_val(#[trigger] post.atoms@[x]) == v_val(pre.atoms@[x]))))))
    &&& (b == crate::types::Builtin::Swap ==> (v_val(args[0]) matches GVal::Atom(a) ==> (r matches Result::Ok(v) ==> a < post.atoms@.len() && v_val( post.atoms@[a as int], ) == v@)))
    &&& (b == crate::types::Builtin::ReadLine ==> (r matches Result::Ok(v) ==> (v@ is Str || v@ is Nil)))
    &&& (b == crate::types::Builtin::PrStr ==> (post == pre && (r matches Result::Ok(v) && v@ == GVal::Str( join_vals(args, v_seq(pre.atoms@), true, true, args.len() as int), ))))
    &&& (b == crate::types::Builtin::StrCat ==> (post == pre && (r matches Result::Ok( v, ) && v@ == GVal::Str( join_vals(args, v_seq(pre.atoms@), false, false, args.len() as int), ))))
    &&& (b == crate::types::Builtin::Prn ==> (out_appended( pre, post, join_vals(args, v_seq(pre.atoms@), true, true, args.len() as int), ) && (r matches Result::Ok(v) && v@ == GVal::Nil)))
    &&& (b == crate::types::Builtin::PrintLn ==> (out_appended( pre, post, join_vals(args, v_seq(pre.atoms@), false, true, args.len() as int), ) && (r matches Result::Ok(v) && v@ == GVal::Nil)))
    &&& (b == crate::types::Builtin::Swap ==> (fuel >= 1 ==> (args.len() >= 2 ==> (v_val(
        args[0],
    ) matches GVal::Atom(a) ==> (a < pre.atoms@.len() ==> (v_val(args[1]) matches GVal::Fn(
        ff,
        _,
    ) ==> (
    ff matches GFn::Builtin(bb) ==> (crate::malcore::is_pure(bb) ==> (exists|ps: Seq<MalVal>|
        v_seq(ps) == seq![v_val(pre.atoms@[a as int])] + crate::malcore::args_tail(args, 2)
            && #[trigger] crate::malcore::pure_post(bb, ps, r))))))))))
    &&& (b == crate::types::Builtin::Slurp ==> (post == pre && (r matches Result::Err(e) && v_err(
        e,
    ) == GErr::Other("slurp: file access is not available"@))))
    &&& (b == crate::types::Builtin::TimeMs ==> (post == pre && (r matches Result::Ok(v) && (v@
        matches GVal::Integer(n) && n >= 0))))
}

/// Run one primitive on evaluated arguments. The pure ones live in the
/// core library; the ones that read or change the interpreter's state —
/// atoms, output, the clock, the terminal, or evaluation itself — are here.
#[verifier::rlimit(100)]
pub fn call_builtin(it: &mut Interp, b: crate::types::Builtin, args: &Vec<MalVal>, fuel: u64) -> (r:
    MalResult)
    requires
        wf_interp(*old(it)),
        wf_args(args@, old(it).env@.len(), old(it).atoms@.len()),
    ensures
        wf_interp(*final(it)),
        interp_grows(*old(it), *final(it)),
        r matches Result::Ok(v) ==> wf_val(v@, final(it).env@.len(), final(it).atoms@.len()),
        builtin_call_post(b, *old(it), *final(it), args@, fuel, r),
    decreases fuel, 2int,
{
    let ghost g0 = *it;
    match b {
        crate::types::Builtin::Add => {
            let r = crate::malcore::add(args);
            proof {
                assert(r matches Result::Ok(v) ==> wf_val(
                    v@,
                    it.env@.len(),
                    it.atoms@.len(),
                ));
                assert(crate::malcore::pure_post(crate::types::Builtin::Add, args@, r));
            }
            r
        },
        crate::types::Builtin::Sub => {
            let r = crate::malcore::sub(args);
            proof {
                assert(r matches Result::Ok(v) ==> wf_val(
                    v@,
                    it.env@.len(),
                    it.atoms@.len(),
                ));
                assert(crate::malcore::pure_post(crate::types::Builtin::Sub, args@, r));
            }
            r
        },
        crate::types::Builtin::Mul => {
            let r = crate::malcore::mul(args);
            proof {
                assert(r matches Result::Ok(v) ==> wf_val(
                    v@,
                    it.env@.len(),
                    it.atoms@.len(),
                ));
                assert(crate::malcore::pure_post(crate::types::Builtin::Mul, args@, r));
            }
            r
        },
        crate::types::Builtin::Div => {
            let r = crate::malcore::div(args);
            proof {
                assert(r matches Result::Ok(v) ==> wf_val(
                    v@,
                    it.env@.len(),
                    it.atoms@.len(),
                ));
                assert(crate::malcore::pure_post(crate::types::Builtin::Div, args@, r));
            }
            r
        },
        crate::types::Builtin::Lt => {
            let r = crate::malcore::lt(args);
            proof {
                assert(r matches Result::Ok(v) ==> wf_val(
                    v@,
                    it.env@.len(),
                    it.atoms@.len(),
                ));
                assert(crate::malcore::pure_post(crate::types::Builtin::Lt, args@, r));
            }
            r
        },
        crate::types::Builtin::Lte => {
            let r = crate::malcore::lte(args);
            proof {
                assert(r matches Result::Ok(v) ==> wf_val(
                    v@,
                    it.env@.len(),
                    it.atoms@.len(),
                ));
                assert(crate::malcore::pure_post(crate::types::Builtin::Lte, args@, r));
            }
            r
        },
        crate::types::Builtin::Gt => {
            let r = crate::malcore::gt(args);
            proof {
                assert(r matches Result::Ok(v) ==> wf_val(
                    v@,
                    it.env@.len(),
                    it.atoms@.len(),
                ));
                assert(crate::malcore::pure_post(crate::types::Builtin::Gt, args@, r));
            }
            r
        },
        crate::types::Builtin::Gte => {
            let r = crate::malcore::gte(args);
            proof {
                assert(r matches Result::Ok(v) ==> wf_val(
                    v@,
                    it.env@.len(),
                    it.atoms@.len(),
                ));
                assert(crate::malcore::pure_post(crate::types::Builtin::Gte, args@, r));
            }
            r
        },
        crate::types::Builtin::Eq => {
            let r = crate::malcore::eq(args);
            proof {
                assert(r matches Result::Ok(v) ==> wf_val(
                    v@,
                    it.env@.len(),
                    it.atoms@.len(),
                ));
                assert(crate::malcore::pure_post(crate::types::Builtin::Eq, args@, r));
            }
            r
        },
        crate::types::Builtin::MkList => {
            let d = crate::types::dup_vec(args);
            let r = crate::malcore::list(d);
            proof {
                lemma_wf_args_seq(args@, it.env@.len(), it.atoms@.len());
                assert(r matches Result::Ok(v) ==> wf_val(
                    v@,
                    it.env@.len(),
                    it.atoms@.len(),
                ));
                assert(crate::malcore::pure_post(crate::types::Builtin::MkList, args@, r));
            }
            r
        },
        crate::types::Builtin::MkVector => {
            let d = crate::types::dup_vec(args);
            let r = crate::malcore::vector(d);
            proof {
                lemma_wf_args_seq(args@, it.env@.len(), it.atoms@.len());
                assert(r matches Result::Ok(v) ==> wf_val(
                    v@,
                    it.env@.len(),
                    it.atoms@.len(),
                ));
                assert(crate::malcore::pure_post(crate::types::Builtin::MkVector, args@, r));
            }
            r
        },
        crate::types::Builtin::IsList => {
            let r = crate::malcore::is_list(args);
            proof {
                assert(r matches Result::Ok(v) ==> wf_val(
                    v@,
                    it.env@.len(),
                    it.atoms@.len(),
                ));
                assert(crate::malcore::pure_post(crate::types::Builtin::IsList, args@, r));
            }
            r
        },
        crate::types::Builtin::IsEmpty => {
            let r = crate::malcore::is_empty(args);
            proof {
                assert(r matches Result::Ok(v) ==> wf_val(
                    v@,
                    it.env@.len(),
                    it.atoms@.len(),
                ));
                assert(crate::malcore::pure_post(crate::types::Builtin::IsEmpty, args@, r));
            }
            r
        },
        crate::types::Builtin::Count => {
            let r = crate::malcore::count(args);
            proof {
                assert(r matches Result::Ok(v) ==> wf_val(
                    v@,
                    it.env@.len(),
                    it.atoms@.len(),
                ));
                assert(crate::malcore::pure_post(crate::types::Builtin::Count, args@, r));
            }
            r
        },
        crate::types::Builtin::Cons => {
            let r = crate::malcore::cons(args);
            proof {
                if args@.len() >= 2 {
                    assert(wf_val(v_val(args@[0]), it.env@.len(), it.atoms@.len()));
                    assert(wf_val(v_val(args@[1]), it.env@.len(), it.atoms@.len()));
                    match v_val(args@[1]) {
                        GVal::List(es, _) => {
                            lemma_wf_seq_cons(v_val(args@[0]), es, it.env@.len(), it.atoms@.len());
                        },
                        GVal::Vector(es, _) => {
                            lemma_wf_seq_cons(v_val(args@[0]), es, it.env@.len(), it.atoms@.len());
                        },
                        _ => {},
                    }
                }
                assert(r matches Result::Ok(v) ==> wf_val(
                    v@,
                    it.env@.len(),
                    it.atoms@.len(),
                ));
                assert(crate::malcore::pure_post(crate::types::Builtin::Cons, args@, r));
            }
            r
        },
        crate::types::Builtin::Concat => {
            let r = crate::malcore::concat(args);
            proof {
                lemma_wf_concat_all(args@, 0, it.env@.len(), it.atoms@.len());
                assert(r matches Result::Ok(v) ==> wf_val(
                    v@,
                    it.env@.len(),
                    it.atoms@.len(),
                ));
                assert(crate::malcore::pure_post(crate::types::Builtin::Concat, args@, r));
            }
            r
        },
        crate::types::Builtin::ToVec => {
            let r = crate::malcore::vec(args);
            proof {
                if args@.len() >= 1 {
                    assert(wf_val(v_val(args@[0]), it.env@.len(), it.atoms@.len()));
                }
                assert(r matches Result::Ok(v) ==> wf_val(
                    v@,
                    it.env@.len(),
                    it.atoms@.len(),
                ));
                assert(crate::malcore::pure_post(crate::types::Builtin::ToVec, args@, r));
            }
            r
        },
        crate::types::Builtin::Nth => {
            let r = crate::malcore::nth(args);
            proof {
                if args@.len() >= 1 {
                    assert(wf_val(v_val(args@[0]), it.env@.len(), it.atoms@.len()));
                    match v_val(args@[0]) {
                        GVal::List(es, _) => {
                            lemma_wf_seq_elems(es, 0, it.env@.len(), it.atoms@.len());
                        },
                        GVal::Vector(es, _) => {
                            lemma_wf_seq_elems(es, 0, it.env@.len(), it.atoms@.len());
                        },
                        _ => {},
                    }
                }
                assert(r matches Result::Ok(v) ==> wf_val(
                    v@,
                    it.env@.len(),
                    it.atoms@.len(),
                ));
                assert(crate::malcore::pure_post(crate::types::Builtin::Nth, args@, r));
            }
            r
        },
        crate::types::Builtin::First => {
            let r = crate::malcore::first(args);
            proof {
                if args@.len() >= 1 {
                    assert(wf_val(v_val(args@[0]), it.env@.len(), it.atoms@.len()));
                    match v_val(args@[0]) {
                        GVal::List(es, _) => {
                            lemma_wf_seq_elems(es, 0, it.env@.len(), it.atoms@.len());
                        },
                        GVal::Vector(es, _) => {
                            lemma_wf_seq_elems(es, 0, it.env@.len(), it.atoms@.len());
                        },
                        _ => {},
                    }
                }
                assert(r matches Result::Ok(v) ==> wf_val(
                    v@,
                    it.env@.len(),
                    it.atoms@.len(),
                ));
                assert(crate::malcore::pure_post(crate::types::Builtin::First, args@, r));
            }
            r
        },
        crate::types::Builtin::Rest => {
            let r = crate::malcore::rest(args);
            proof {
                assert(crate::types::wf_seq_from(
                    Seq::<GVal>::empty(),
                    0,
                    it.env@.len(),
                    it.atoms@.len(),
                ));
                if args@.len() >= 1 {
                    assert(wf_val(v_val(args@[0]), it.env@.len(), it.atoms@.len()));
                    match v_val(args@[0]) {
                        GVal::List(es, _) => {
                            lemma_wf_rest_of(es, it.env@.len(), it.atoms@.len());
                        },
                        GVal::Vector(es, _) => {
                            lemma_wf_rest_of(es, it.env@.len(), it.atoms@.len());
                        },
                        _ => {},
                    }
                }
                assert(r matches Result::Ok(v) ==> wf_val(
                    v@,
                    it.env@.len(),
                    it.atoms@.len(),
                ));
                assert(crate::malcore::pure_post(crate::types::Builtin::Rest, args@, r));
            }
            r
        },
        crate::types::Builtin::Throw => {
            let r = crate::malcore::throw(args);
            proof {
                assert(r matches Result::Ok(v) ==> wf_val(
                    v@,
                    it.env@.len(),
                    it.atoms@.len(),
                ));
                assert(crate::malcore::pure_post(crate::types::Builtin::Throw, args@, r));
            }
            r
        },
        crate::types::Builtin::IsNil => {
            let r = crate::malcore::is_nil(args);
            proof {
                assert(r matches Result::Ok(v) ==> wf_val(
                    v@,
                    it.env@.len(),
                    it.atoms@.len(),
                ));
                assert(crate::malcore::pure_post(crate::types::Builtin::IsNil, args@, r));
            }
            r
        },
        crate::types::Builtin::IsTrue => {
            let r = crate::malcore::is_true(args);
            proof {
                assert(r matches Result::Ok(v) ==> wf_val(
                    v@,
                    it.env@.len(),
                    it.atoms@.len(),
                ));
                assert(crate::malcore::pure_post(crate::types::Builtin::IsTrue, args@, r));
            }
            r
        },
        crate::types::Builtin::IsFalse => {
            let r = crate::malcore::is_false(args);
            proof {
                assert(r matches Result::Ok(v) ==> wf_val(
                    v@,
                    it.env@.len(),
                    it.atoms@.len(),
                ));
                assert(crate::malcore::pure_post(crate::types::Builtin::IsFalse, args@, r));
            }
            r
        },
        crate::types::Builtin::IsSymbol => {
            let r = crate::malcore::is_symbol(args);
            proof {
                assert(r matches Result::Ok(v) ==> wf_val(
                    v@,
                    it.env@.len(),
                    it.atoms@.len(),
                ));
                assert(crate::malcore::pure_post(crate::types::Builtin::IsSymbol, args@, r));
            }
            r
        },
        crate::types::Builtin::ToSymbol => {
            let r = crate::malcore::symbol(args);
            proof {
                assert(r matches Result::Ok(v) ==> wf_val(
                    v@,
                    it.env@.len(),
                    it.atoms@.len(),
                ));
                assert(crate::malcore::pure_post(crate::types::Builtin::ToSymbol, args@, r));
            }
            r
        },
        crate::types::Builtin::ToKeyword => {
            let r = crate::malcore::keyword(args);
            proof {
                assert(r matches Result::Ok(v) ==> wf_val(
                    v@,
                    it.env@.len(),
                    it.atoms@.len(),
                ));
                assert(crate::malcore::pure_post(crate::types::Builtin::ToKeyword, args@, r));
            }
            r
        },
        crate::types::Builtin::IsKeyword => {
            let r = crate::malcore::is_keyword(args);
            proof {
                assert(r matches Result::Ok(v) ==> wf_val(
                    v@,
                    it.env@.len(),
                    it.atoms@.len(),
                ));
                assert(crate::malcore::pure_post(crate::types::Builtin::IsKeyword, args@, r));
            }
            r
        },
        crate::types::Builtin::IsVector => {
            let r = crate::malcore::is_vector(args);
            proof {
                assert(r matches Result::Ok(v) ==> wf_val(
                    v@,
                    it.env@.len(),
                    it.atoms@.len(),
                ));
                assert(crate::malcore::pure_post(crate::types::Builtin::IsVector, args@, r));
            }
            r
        },
        crate::types::Builtin::IsSequential => {
            let r = crate::malcore::is_sequential(args);
            proof {
                assert(r matches Result::Ok(v) ==> wf_val(
                    v@,
                    it.env@.len(),
                    it.atoms@.len(),
                ));
                assert(crate::malcore::pure_post(crate::types::Builtin::IsSequential, args@, r));
            }
            r
        },
        crate::types::Builtin::MkHashMap => {
            let r = crate::malcore::hash_map(args);
            proof {
                assert(crate::types::wf_pairs(
                    Seq::<(crate::types::GKey, GVal)>::empty(),
                    it.env@.len(), it.atoms@.len(),
                ));
                lemma_wf_build_map(args@, 0, Seq::empty(), it.env@.len(), it.atoms@.len());
                assert(r matches Result::Ok(v) ==> wf_val(
                    v@,
                    it.env@.len(),
                    it.atoms@.len(),
                ));
                assert(crate::malcore::pure_post(crate::types::Builtin::MkHashMap, args@, r));
            }
            r
        },
        crate::types::Builtin::IsMap => {
            let r = crate::malcore::is_map(args);
            proof {
                assert(r matches Result::Ok(v) ==> wf_val(
                    v@,
                    it.env@.len(),
                    it.atoms@.len(),
                ));
                assert(crate::malcore::pure_post(crate::types::Builtin::IsMap, args@, r));
            }
            r
        },
        crate::types::Builtin::Assoc => {
            let r = crate::malcore::assoc(args);
            proof {
                if args@.len() >= 1 {
                    assert(wf_val(v_val(args@[0]), it.env@.len(), it.atoms@.len()));
                    match v_val(args@[0]) {
                        GVal::HashMap(ps, _) => {
                            lemma_wf_build_map(args@, 1, ps, it.env@.len(), it.atoms@.len());
                        },
                        _ => {},
                    }
                }
                assert(r matches Result::Ok(v) ==> wf_val(
                    v@,
                    it.env@.len(),
                    it.atoms@.len(),
                ));
                assert(crate::malcore::pure_post(crate::types::Builtin::Assoc, args@, r));
            }
            r
        },
        crate::types::Builtin::Dissoc => {
            let r = crate::malcore::dissoc(args);
            proof {
                if args@.len() >= 1 {
                    assert(wf_val(v_val(args@[0]), it.env@.len(), it.atoms@.len()));
                    match v_val(args@[0]) {
                        GVal::HashMap(ps, _) => {
                            lemma_wf_del_all(args@, 1, ps, it.env@.len(), it.atoms@.len());
                        },
                        _ => {},
                    }
                }
                assert(r matches Result::Ok(v) ==> wf_val(
                    v@,
                    it.env@.len(),
                    it.atoms@.len(),
                ));
                assert(crate::malcore::pure_post(crate::types::Builtin::Dissoc, args@, r));
            }
            r
        },
        crate::types::Builtin::MapGet => {
            let r = crate::malcore::get(args);
            proof {
                if args@.len() >= 2 {
                    assert(wf_val(v_val(args@[0]), it.env@.len(), it.atoms@.len()));
                    match v_val(args@[0]) {
                        GVal::HashMap(ps, _) => {
                            match crate::reader::to_key(v_val(args@[1])) {
                                Option::Some(k) => {
                                    lemma_wf_find_val(ps, k, 0, it.env@.len(), it.atoms@.len());
                                },
                                Option::None => {},
                            }
                        },
                        _ => {},
                    }
                }
                assert(r matches Result::Ok(v) ==> wf_val(
                    v@,
                    it.env@.len(),
                    it.atoms@.len(),
                ));
                assert(crate::malcore::pure_post(crate::types::Builtin::MapGet, args@, r));
            }
            r
        },
        crate::types::Builtin::Contains => {
            let r = crate::malcore::is_contains(args);
            proof {
                assert(r matches Result::Ok(v) ==> wf_val(
                    v@,
                    it.env@.len(),
                    it.atoms@.len(),
                ));
                assert(crate::malcore::pure_post(crate::types::Builtin::Contains, args@, r));
            }
            r
        },
        crate::types::Builtin::Keys => {
            let r = crate::malcore::keys(args);
            proof {
                if args@.len() >= 1 {
                    match v_val(args@[0]) {
                        GVal::HashMap(ps, _) => {
                            lemma_wf_keys_of(ps, 0, it.env@.len(), it.atoms@.len());
                        },
                        _ => {},
                    }
                }
                assert(r matches Result::Ok(v) ==> wf_val(
                    v@,
                    it.env@.len(),
                    it.atoms@.len(),
                ));
                assert(crate::malcore::pure_post(crate::types::Builtin::Keys, args@, r));
            }
            r
        },
        crate::types::Builtin::Vals => {
            let r = crate::malcore::vals(args);
            proof {
                if args@.len() >= 1 {
                    assert(wf_val(v_val(args@[0]), it.env@.len(), it.atoms@.len()));
                    match v_val(args@[0]) {
                        GVal::HashMap(ps, _) => {
                            lemma_wf_vals_of(ps, 0, it.env@.len(), it.atoms@.len());
                        },
                        _ => {},
                    }
                }
                assert(r matches Result::Ok(v) ==> wf_val(
                    v@,
                    it.env@.len(),
                    it.atoms@.len(),
                ));
                assert(crate::malcore::pure_post(crate::types::Builtin::Vals, args@, r));
            }
            r
        },
        crate::types::Builtin::Meta => {
            let r = crate::malcore::meta(args);
            proof {
                if args@.len() >= 1 {
                    assert(wf_val(v_val(args@[0]), it.env@.len(), it.atoms@.len()));
                    match v_val(args@[0]) {
                        GVal::Fn(_, m) => {
                            match m {
                                Option::Some(b) => {
                                    assert(wf_val(*b, it.env@.len(), it.atoms@.len()));
                                },
                                Option::None => {},
                            }
                        },
                        GVal::List(_, m) => {
                            match m {
                                Option::Some(b) => {
                                    assert(wf_val(*b, it.env@.len(), it.atoms@.len()));
                                },
                                Option::None => {},
                            }
                        },
                        GVal::Vector(_, m) => {
                            match m {
                                Option::Some(b) => {
                                    assert(wf_val(*b, it.env@.len(), it.atoms@.len()));
                                },
                                Option::None => {},
                            }
                        },
                        GVal::HashMap(_, m) => {
                            match m {
                                Option::Some(b) => {
                                    assert(wf_val(*b, it.env@.len(), it.atoms@.len()));
                                },
                                Option::None => {},
                            }
                        },
                        _ => {},
                    }
                }
                assert(r matches Result::Ok(v) ==> wf_val(
                    v@,
                    it.env@.len(),
                    it.atoms@.len(),
                ));
                assert(crate::malcore::pure_post(crate::types::Builtin::Meta, args@, r));
            }
            r
        },
        crate::types::Builtin::WithMeta => {
            let r = crate::malcore::with_meta(args);
            proof {
                if args@.len() >= 2 {
                    assert(wf_val(v_val(args@[0]), it.env@.len(), it.atoms@.len()));
                    assert(wf_val(v_val(args@[1]), it.env@.len(), it.atoms@.len()));
                }
                assert(r matches Result::Ok(v) ==> wf_val(
                    v@,
                    it.env@.len(),
                    it.atoms@.len(),
                ));
                assert(crate::malcore::pure_post(crate::types::Builtin::WithMeta, args@, r));
            }
            r
        },
        crate::types::Builtin::Conj => {
            let r = crate::malcore::conj(args);
            proof {
                if args@.len() >= 1 {
                    assert(wf_val(v_val(args@[0]), it.env@.len(), it.atoms@.len()));
                    match v_val(args@[0]) {
                        GVal::List(es, _) => {
                            lemma_wf_rev_pre(args@, args@.len() as int, it.env@.len(), it.atoms@.len());
                            lemma_wf_seq_append(
                                crate::malcore::rev_pre(args@, args@.len() as int),
                                es,
                                it.env@.len(), it.atoms@.len(),
                            );
                        },
                        GVal::Vector(es, _) => {
                            lemma_wf_args_tail(args@, 1, it.env@.len(), it.atoms@.len());
                            lemma_wf_seq_append(
                                es,
                                crate::malcore::args_tail(args@, 1),
                                it.env@.len(), it.atoms@.len(),
                            );
                        },
                        _ => {},
                    }
                }
                assert(r matches Result::Ok(v) ==> wf_val(
                    v@,
                    it.env@.len(),
                    it.atoms@.len(),
                ));
                assert(crate::malcore::pure_post(crate::types::Builtin::Conj, args@, r));
            }
            r
        },
        crate::types::Builtin::IsString => {
            let r = crate::malcore::is_string(args);
            proof {
                assert(r matches Result::Ok(v) ==> wf_val(
                    v@,
                    it.env@.len(),
                    it.atoms@.len(),
                ));
                assert(crate::malcore::pure_post(crate::types::Builtin::IsString, args@, r));
            }
            r
        },
        crate::types::Builtin::IsNumber => {
            let r = crate::malcore::is_number(args);
            proof {
                assert(r matches Result::Ok(v) ==> wf_val(
                    v@,
                    it.env@.len(),
                    it.atoms@.len(),
                ));
                assert(crate::malcore::pure_post(crate::types::Builtin::IsNumber, args@, r));
            }
            r
        },
        crate::types::Builtin::IsFn => {
            let r = crate::malcore::is_fn(args);
            proof {
                assert(r matches Result::Ok(v) ==> wf_val(
                    v@,
                    it.env@.len(),
                    it.atoms@.len(),
                ));
                assert(crate::malcore::pure_post(crate::types::Builtin::IsFn, args@, r));
            }
            r
        },
        crate::types::Builtin::IsMacro => {
            let r = crate::malcore::is_macro(args);
            proof {
                assert(r matches Result::Ok(v) ==> wf_val(
                    v@,
                    it.env@.len(),
                    it.atoms@.len(),
                ));
                assert(crate::malcore::pure_post(crate::types::Builtin::IsMacro, args@, r));
            }
            r
        },
        crate::types::Builtin::IsAtom => {
            let r = crate::malcore::is_atom(args);
            proof {
                assert(r matches Result::Ok(v) ==> wf_val(
                    v@,
                    it.env@.len(),
                    it.atoms@.len(),
                ));
                assert(crate::malcore::pure_post(crate::types::Builtin::IsAtom, args@, r));
            }
            r
        },
        crate::types::Builtin::ToSeq => {
            let r = crate::malcore::to_seq(args);
            proof {
                if args@.len() >= 1 {
                    assert(wf_val(v_val(args@[0]), it.env@.len(), it.atoms@.len()));
                    match v_val(args@[0]) {
                        GVal::Str(t) => {
                            lemma_wf_chars_of(t, 0, it.env@.len(), it.atoms@.len());
                        },
                        _ => {},
                    }
                }
                assert(r matches Result::Ok(v) ==> wf_val(
                    v@,
                    it.env@.len(),
                    it.atoms@.len(),
                ));
                assert(crate::malcore::pure_post(crate::types::Builtin::ToSeq, args@, r));
            }
            r
        },
        crate::types::Builtin::ReadString => {
            let r = crate::malcore::read_string(args);
            proof {
                if args@.len() >= 1 {
                    match v_val(args@[0]) {
                        GVal::Str(t) => {
                            crate::reader::lemma_read_spec_wf(t, it.env@.len(), it.atoms@.len());
                        },
                        _ => {},
                    }
                }
                assert(r matches Result::Ok(v) ==> wf_val(
                    v@,
                    it.env@.len(),
                    it.atoms@.len(),
                ));
                assert(crate::malcore::pure_post(crate::types::Builtin::ReadString, args@, r));
            }
            r
        },
        crate::types::Builtin::PrStr => {
            let s = join_args(args, &it.atoms, true, true);
            Result::Ok(MalVal::String(s))
        },
        crate::types::Builtin::StrCat => {
            let s = join_args(args, &it.atoms, false, false);
            Result::Ok(MalVal::String(s))
        },
        crate::types::Builtin::Prn => {
            let s = join_args(args, &it.atoms, true, true);
            host_write(s.as_str());
            host_write("\n");
            it.out.push(s);
            proof {
                assert(wf_interp(*it));
            }
            Result::Ok(MalVal::Nil)
        },
        crate::types::Builtin::PrintLn => {
            let s = join_args(args, &it.atoms, false, true);
            host_write(s.as_str());
            host_write("\n");
            it.out.push(s);
            Result::Ok(MalVal::Nil)
        },
        crate::types::Builtin::MkAtom => {
            if args.len() == 0 {
                return Result::Err(
                    MalError::Other(String::from_str("wrong arguments to a primitive")),
                );
            }
            let idx = it.atoms.len();
            it.atoms.push(args[0].duplicate());
            proof {
                assert forall|x: int| 0 <= x < it.atoms@.len() implies wf_val(
                    v_val(#[trigger] it.atoms@[x]),
                    it.env@.len(),
                    it.atoms@.len(),
                ) by {
                    if x < g0.atoms@.len() {
                        lemma_wf_mono(
                            v_val(g0.atoms@[x]),
                            g0.env@.len(),
                            g0.atoms@.len(),
                            it.env@.len(),
                            it.atoms@.len(),
                        );
                    } else {
                        lemma_wf_mono(
                            v_val(args@[0]),
                            g0.env@.len(),
                            g0.atoms@.len(),
                            it.env@.len(),
                            it.atoms@.len(),
                        );
                    }
                }
                assert forall|f: int| 0 <= f < it.env@.len() implies wf_table(
                    (#[trigger] it.env@[f]).table,
                    it.env@.len(),
                    it.atoms@.len(),
                ) by {
                    lemma_wf_table_mono(
                        g0.env@[f].table,
                        g0.env@.len(),
                        g0.atoms@.len(),
                        it.env@.len(),
                        it.atoms@.len(),
                    );
                }
            }
            Result::Ok(MalVal::Atom(idx))
        },
        crate::types::Builtin::Deref => {
            if args.len() == 0 {
                return Result::Err(
                    MalError::Other(String::from_str("wrong arguments to a primitive")),
                );
            }
            match &args[0] {
                MalVal::Atom(a) => {
                    proof {
                        assert(wf_val(v_val(args@[0]), it.env@.len(), it.atoms@.len()));
                    }
                    Result::Ok(it.atoms[*a].duplicate())
                },
                _ => Result::Err(
                    MalError::Other(String::from_str("wrong arguments to a primitive")),
                ),
            }
        },
        crate::types::Builtin::Reset => {
            if args.len() < 2 {
                return Result::Err(
                    MalError::Other(String::from_str("wrong arguments to a primitive")),
                );
            }
            match &args[0] {
                MalVal::Atom(a) => {
                    proof {
                        assert(wf_val(v_val(args@[0]), it.env@.len(), it.atoms@.len()));
                    }
                    let i = *a;
                    it.atoms.remove(i);
                    it.atoms.insert(i, args[1].duplicate());
                    proof {
                        assert(it.atoms@ =~= g0.atoms@.update(i as int, it.atoms@[i as int]));
                        lemma_wf_interp_again(g0, *it);
                    }
                    Result::Ok(args[1].duplicate())
                },
                _ => Result::Err(
                    MalError::Other(String::from_str("wrong arguments to a primitive")),
                ),
            }
        },
        crate::types::Builtin::Swap => {
            if args.len() < 2 {
                return Result::Err(
                    MalError::Other(String::from_str("wrong arguments to a primitive")),
                );
            }
            let a = match &args[0] {
                MalVal::Atom(a) => *a,
                _ => {
                    return Result::Err(
                        MalError::Other(String::from_str("wrong arguments to a primitive")),
                    );
                },
            };
            proof {
                assert(wf_val(v_val(args@[0]), it.env@.len(), it.atoms@.len()));
            }
            let mut params: Vec<MalVal> = Vec::new();
            params.push(it.atoms[a].duplicate());
            let mut i: usize = 2;
            while i < args.len()
                invariant
                    2 <= i <= args@.len() || (i == 2 && args@.len() == 2),
                    a < it.atoms@.len(),
                    wf_interp(*it),
                    g0 == *old(it),
                    *it == g0,
                    params@.len() == i - 1,
                    v_val(params@[0]) == v_val(g0.atoms@[a as int]),
                    forall|j: int|
                        1 <= j < params@.len() ==> v_val(#[trigger] params@[j]) == v_val(
                            args@[j + 1],
                        ),
                    forall|j: int|
                        0 <= j < params@.len() ==> wf_val(
                            v_val(#[trigger] params@[j]),
                            it.env@.len(),
                            it.atoms@.len(),
                        ),
                    forall|j: int|
                        0 <= j < args@.len() ==> wf_val(
                            v_val(#[trigger] args@[j]),
                            it.env@.len(),
                            it.atoms@.len(),
                        ),
                decreases args@.len() - i,
            {
                params.push(args[i].duplicate());
                i += 1;
            }
            proof {
                lemma_v_seq(params@);
                lemma_args_tail_pointwise(args@, 2);
                assert(v_seq(params@) =~= seq![v_val(g0.atoms@[a as int])]
                    + crate::malcore::args_tail(args@, 2));
            }
            if fuel == 0 {
                return err_fuel();
            }
            let ghost pre_r = *it;
            let r = match &args[1] {
                MalVal::Fn(fb, _) => {
                    proof {
                        assert(wf_val(v_val(args@[1]), it.env@.len(), it.atoms@.len()));
                    }
                    (**fb).run(it, &params, fuel - 1)
                },
                _ => {
                    return Result::Err(
                        MalError::Other(String::from_str("wrong arguments to a primitive")),
                    );
                },
            };
            proof {
                match v_val(args@[1]) {
                    GVal::Fn(ff, _) => {
                        match ff {
                            GFn::Builtin(bb) => {
                                if crate::malcore::is_pure(bb) {
                                    assert(crate::malcore::pure_post(bb, params@, r));
                                }
                            },
                            _ => {},
                        }
                    },
                    _ => {},
                }
            }
            match r {
                Result::Err(e) => {
                    proof {
                        lemma_grows_trans(g0, pre_r, *it);
                    }
                    Result::Err(e)
                },
                Result::Ok(v) => {
                    proof {
                        lemma_grows_trans(g0, pre_r, *it);
                    }
                    let ghost pre_w = *it;
                    it.atoms.remove(a);
                    it.atoms.insert(a, v.duplicate());
                    proof {
                        assert(it.atoms@ =~= pre_w.atoms@.update(a as int, it.atoms@[a as int]));
                        lemma_wf_interp_again(pre_w, *it);
                        lemma_grows_trans(g0, pre_w, *it);
                    }
                    Result::Ok(v)
                },
            }
        },
        crate::types::Builtin::Apply => {
            if args.len() < 2 {
                return Result::Err(
                    MalError::Other(String::from_str("wrong arguments to a primitive")),
                );
            }
            let last = &args[args.len() - 1];
            let tailv = match crate::malcore::elems_of(last) {
                Option::Some(es) => es,
                Option::None => {
                    return Result::Err(
                        MalError::Other(String::from_str("wrong arguments to a primitive")),
                    );
                },
            };
            proof {
                assert(wf_val(
                    v_val(args@[args@.len() - 1]),
                    it.env@.len(),
                    it.atoms@.len(),
                ));
                lemma_v_seq(tailv@);
                lemma_wf_elems_vals(tailv@, it.env@.len(), it.atoms@.len());
            }
            let mut params: Vec<MalVal> = Vec::new();
            let mut i: usize = 1;
            while i < args.len() - 1
                invariant
                    1 <= i <= args@.len(),
                    g0 == *old(it),
                    args@.len() >= 2,
                    forall|j: int|
                        0 <= j < args@.len() ==> wf_val(
                            v_val(#[trigger] args@[j]),
                            it.env@.len(),
                            it.atoms@.len(),
                        ),
                    forall|j: int|
                        0 <= j < params@.len() ==> wf_val(
                            v_val(#[trigger] params@[j]),
                            it.env@.len(),
                            it.atoms@.len(),
                        ),
                    *it == g0,
                decreases args@.len() - i,
            {
                params.push(args[i].duplicate());
                i += 1;
            }
            let mut j: usize = 0;
            while j < tailv.len()
                invariant
                    j <= tailv@.len(),
                    g0 == *old(it),
                    forall|m: int|
                        0 <= m < tailv@.len() ==> wf_val(
                            v_val(#[trigger] tailv@[m]),
                            it.env@.len(),
                            it.atoms@.len(),
                        ),
                    forall|m: int|
                        0 <= m < params@.len() ==> wf_val(
                            v_val(#[trigger] params@[m]),
                            it.env@.len(),
                            it.atoms@.len(),
                        ),
                    *it == g0,
                decreases tailv@.len() - j,
            {
                params.push(tailv[j].duplicate());
                j += 1;
            }
            if fuel == 0 {
                return err_fuel();
            }
            match &args[0] {
                MalVal::Fn(fb, _) => {
                    proof {
                        assert(wf_val(v_val(args@[0]), it.env@.len(), it.atoms@.len()));
                    }
                    (**fb).run(it, &params, fuel - 1)
                },
                _ => Result::Err(
                    MalError::Other(String::from_str("wrong arguments to a primitive")),
                ),
            }
        },
        crate::types::Builtin::MapFn => {
            if args.len() < 2 {
                return Result::Err(
                    MalError::Other(String::from_str("wrong arguments to a primitive")),
                );
            }
            let n = match crate::malcore::elems_of(&args[1]) {
                Option::Some(es) => {
                    proof {
                        lemma_v_seq(es@);
                    }
                    es.len()
                },
                Option::None => {
                    return Result::Err(
                        MalError::Other(String::from_str("wrong arguments to a primitive")),
                    );
                },
            };
            if fuel == 0 {
                return err_fuel();
            }
            let mut out: Vec<MalVal> = Vec::new();
            let mut i: usize = 0;
            while i < n
                invariant
                    i <= n,
                    wf_interp(*it),
                    g0 == *old(it),
                    b == crate::types::Builtin::MapFn,
                    interp_grows(g0, *it),
                    args@.len() >= 2,
                    fuel >= 1,
                    crate::malcore::seq_of(v_val(args@[1])) matches Option::Some(gs) && gs.len()
                        == n,
                    forall|j: int|
                        0 <= j < args@.len() ==> wf_val(
                            v_val(#[trigger] args@[j]),
                            g0.env@.len(),
                            g0.atoms@.len(),
                        ),
                    forall|j: int|
                        0 <= j < out@.len() ==> wf_val(
                            v_val(#[trigger] out@[j]),
                            it.env@.len(),
                            it.atoms@.len(),
                        ),
                decreases n - i,
            {
                let elems = match crate::malcore::elems_of(&args[1]) {
                    Option::Some(es) => es,
                    Option::None => {
                        proof {
                            assert(false);
                        }
                        return err_fuel();
                    },
                };
                proof {
                    lemma_v_seq(elems@);
                    assert(wf_val(v_val(args@[1]), g0.env@.len(), g0.atoms@.len()));
                    lemma_wf_mono(
                        v_val(args@[1]),
                        g0.env@.len(),
                        g0.atoms@.len(),
                        it.env@.len(),
                        it.atoms@.len(),
                    );
                    lemma_wf_seq_elems(v_seq(elems@), 0, it.env@.len(), it.atoms@.len());
                }
                let mut one: Vec<MalVal> = Vec::new();
                one.push(elems[i].duplicate());
                proof {
                    assert(v_seq(elems@)[i as int] == v_val(elems@[i as int]));
                    assert(wf_val(v_val(one@[0]), it.env@.len(), it.atoms@.len()));
                    assert(wf_args(one@, it.env@.len(), it.atoms@.len()));
                }
                let ghost pre_r = *it;
                let r = match &args[0] {
                    MalVal::Fn(fb, _) => {
                        proof {
                            assert(wf_val(v_val(args@[0]), g0.env@.len(), g0.atoms@.len()));
                            lemma_wf_mono(
                                v_val(args@[0]),
                                g0.env@.len(),
                                g0.atoms@.len(),
                                it.env@.len(),
                                it.atoms@.len(),
                            );
                        }
                        (**fb).run(it, &one, fuel - 1)
                    },
                    _ => {
                        return Result::Err(
                            MalError::Other(String::from_str("wrong arguments to a primitive")),
                        );
                    },
                };
                match r {
                    Result::Err(e) => {
                        proof {
                            lemma_grows_trans(g0, pre_r, *it);
                        }
                        return Result::Err(e);
                    },
                    Result::Ok(v) => {
                        out.push(v);
                        proof {
                            lemma_grows_trans(g0, pre_r, *it);
                            assert forall|j: int| 0 <= j < out@.len() implies wf_val(
                                v_val(#[trigger] out@[j]),
                                it.env@.len(),
                                it.atoms@.len(),
                            ) by {
                                if j < out@.len() - 1 {
                                    lemma_wf_mono(
                                        v_val(out@[j]),
                                        pre_r.env@.len(),
                                        pre_r.atoms@.len(),
                                        it.env@.len(),
                                        it.atoms@.len(),
                                    );
                                }
                            }
                        }
                    },
                }
                i += 1;
            }
            proof {
                lemma_v_seq(out@);
                lemma_wf_seq_of_all(v_seq(out@), 0, it.env@.len(), it.atoms@.len());
            }
            Result::Ok(MalVal::List(out, Option::None))
        },
        crate::types::Builtin::Eval => {
            if args.len() == 0 {
                return Result::Err(
                    MalError::Other(String::from_str("wrong arguments to a primitive")),
                );
            }
            if fuel == 0 {
                return err_fuel();
            }
            proof {
                assert(wf_val(v_val(args@[0]), it.env@.len(), it.atoms@.len()));
            }
            eval(it, args[0].duplicate(), 0, fuel - 1)
        },
        crate::types::Builtin::Slurp => Result::Err(
            MalError::Other(String::from_str("slurp: file access is not available")),
        ),
        crate::types::Builtin::ReadLine => {
            if args.len() == 0 {
                return Result::Err(
                    MalError::Other(String::from_str("wrong arguments to a primitive")),
                );
            }
            match &args[0] {
                MalVal::String(p) => {
                    host_write(p.as_str());
                    match host_read_line() {
                        Option::Some(line) => {
                            let mut cs = crate::types::str_to_chars(line.as_str());
                            if cs.len() > 0 {
                                let last = cs[cs.len() - 1];
                                if last == '\n' {
                                    cs.pop();
                                }
                            }
                            Result::Ok(MalVal::String(crate::types::chars_to_string(&cs)))
                        },
                        Option::None => Result::Ok(MalVal::Nil),
                    }
                },
                _ => Result::Err(
                    MalError::Other(String::from_str("wrong arguments to a primitive")),
                ),
            }
        },
        crate::types::Builtin::TimeMs => {
            let t = host_now_ms();
            if t <= 0x7fff_ffff_ffff_ffffu64 {
                Result::Ok(MalVal::Integer(t as i64))
            } else {
                Result::Ok(MalVal::Integer(0))
            }
        },
    }
}

// ---------------------------------------------------------------------------
// The interpreter's front door
// ---------------------------------------------------------------------------

/// No binding of the table is a macro.
pub open spec fn no_macro_bindings(t: Map<Seq<char>, GVal>) -> bool {
    forall|k: Seq<char>|
        #[trigger] t.contains_key(k) ==> !crate::malcore::is_macro_val(t[k])
}

/// Every binding of the table is a primitive function.
pub open spec fn only_builtin_bindings(t: Map<Seq<char>, GVal>) -> bool {
    forall|k: Seq<char>|
        #[trigger] t.contains_key(k) ==> t[k] matches GVal::Fn(GFn::Builtin(_), _)
}

/// With a macro-free top frame and no outer scope, no form is a macro call.
proof fn lemma_no_macro_no_call(fs: Seq<GFrame>, ast: GVal)
    requires
        fs.len() >= 1,
        fs[0].outer is None,
        no_macro_bindings(fs[0].table),
    ensures
        !is_macro_spec(fs, ast, 0),
{
}

impl Interp {
    /// A fresh interpreter: one top-level frame holding every primitive under
    /// its language name, an empty atom store, no output yet; nothing it
    /// binds is a macro. The bootstrap forms are not yet evaluated;
    /// `bootstrap` adds them.
    pub fn new() -> (it: Interp)
        ensures
            wf_interp(it),
            it.env@.len() == 1,
            it.atoms@.len() == 0,
            it.out@.len() == 0,
            it.env@[0].outer is None,
            no_macro_bindings(it.env@[0].table),
            only_builtin_bindings(it.env@[0].table),
            it.env@[0].table.contains_key("+"@),
            it.env@[0].table.contains_key("-"@),
            it.env@[0].table.contains_key("*"@),
            it.env@[0].table.contains_key("/"@),
            it.env@[0].table.contains_key("prn"@),
            it.env@[0].table.contains_key("list"@),
            it.env@[0].table.contains_key("list?"@),
            it.env@[0].table.contains_key("empty?"@),
            it.env@[0].table.contains_key("count"@),
            it.env@[0].table.contains_key("="@),
            it.env@[0].table.contains_key("<"@),
            it.env@[0].table.contains_key("<="@),
            it.env@[0].table.contains_key(">"@),
            it.env@[0].table.contains_key(">="@),
            it.env@[0].table.contains_key("pr-str"@),
            it.env@[0].table.contains_key("str"@),
            it.env@[0].table.contains_key("println"@),
            it.env@[0].table.contains_key("read-string"@),
            it.env@[0].table.contains_key("slurp"@),
            it.env@[0].table.contains_key("atom"@),
            it.env@[0].table.contains_key("atom?"@),
            it.env@[0].table.contains_key("deref"@),
            it.env@[0].table.contains_key("reset!"@),
            it.env@[0].table.contains_key("swap!"@),
            it.env@[0].table.contains_key("cons"@),
            it.env@[0].table.contains_key("concat"@),
            it.env@[0].table.contains_key("vec"@),
            it.env@[0].table.contains_key("nth"@),
            it.env@[0].table.contains_key("first"@),
            it.env@[0].table.contains_key("rest"@),
            it.env@[0].table.contains_key("throw"@),
            it.env@[0].table.contains_key("apply"@),
            it.env@[0].table.contains_key("map"@),
            it.env@[0].table.contains_key("nil?"@),
            it.env@[0].table.contains_key("true?"@),
            it.env@[0].table.contains_key("false?"@),
            it.env@[0].table.contains_key("symbol?"@),
            it.env@[0].table.contains_key("symbol"@),
            it.env@[0].table.contains_key("keyword"@),
            it.env@[0].table.contains_key("keyword?"@),
            it.env@[0].table.contains_key("vector"@),
            it.env@[0].table.contains_key("vector?"@),
            it.env@[0].table.contains_key("sequential?"@),
            it.env@[0].table.contains_key("hash-map"@),
            it.env@[0].table.contains_key("map?"@),
            it.env@[0].table.contains_key("assoc"@),
            it.env@[0].table.contains_key("dissoc"@),
            it.env@[0].table.contains_key("get"@),
            it.env@[0].table.contains_key("contains?"@),
            it.env@[0].table.contains_key("keys"@),
            it.env@[0].table.contains_key("vals"@),
            it.env@[0].table.contains_key("readline"@),
            it.env@[0].table.contains_key("time-ms"@),
            it.env@[0].table.contains_key("meta"@),
            it.env@[0].table.contains_key("with-meta"@),
            it.env@[0].table.contains_key("fn?"@),
            it.env@[0].table.contains_key("string?"@),
            it.env@[0].table.contains_key("number?"@),
            it.env@[0].table.contains_key("seq"@),
            it.env@[0].table.contains_key("conj"@),
            it.env@[0].table.contains_key("macro?"@),
            it.env@[0].table.contains_key("eval"@),
    {
        let mut it = Interp { env: Env::new(), atoms: Vec::new(), out: Vec::new() };
        let names: Vec<(&'static str, crate::types::Builtin)> = vec![
            ("+", crate::types::Builtin::Add),
            ("-", crate::types::Builtin::Sub),
            ("*", crate::types::Builtin::Mul),
            ("/", crate::types::Builtin::Div),
            ("prn", crate::types::Builtin::Prn),
            ("list", crate::types::Builtin::MkList),
            ("list?", crate::types::Builtin::IsList),
            ("empty?", crate::types::Builtin::IsEmpty),
            ("count", crate::types::Builtin::Count),
            ("=", crate::types::Builtin::Eq),
            ("<", crate::types::Builtin::Lt),
            ("<=", crate::types::Builtin::Lte),
            (">", crate::types::Builtin::Gt),
            (">=", crate::types::Builtin::Gte),
            ("pr-str", crate::types::Builtin::PrStr),
            ("str", crate::types::Builtin::StrCat),
            ("println", crate::types::Builtin::PrintLn),
            ("read-string", crate::types::Builtin::ReadString),
            ("slurp", crate::types::Builtin::Slurp),
            ("atom", crate::types::Builtin::MkAtom),
            ("atom?", crate::types::Builtin::IsAtom),
            ("deref", crate::types::Builtin::Deref),
            ("reset!", crate::types::Builtin::Reset),
            ("swap!", crate::types::Builtin::Swap),
            ("cons", crate::types::Builtin::Cons),
            ("concat", crate::types::Builtin::Concat),
            ("vec", crate::types::Builtin::ToVec),
            ("nth", crate::types::Builtin::Nth),
            ("first", crate::types::Builtin::First),
            ("rest", crate::types::Builtin::Rest),
            ("throw", crate::types::Builtin::Throw),
            ("apply", crate::types::Builtin::Apply),
            ("map", crate::types::Builtin::MapFn),
            ("nil?", crate::types::Builtin::IsNil),
            ("true?", crate::types::Builtin::IsTrue),
            ("false?", crate::types::Builtin::IsFalse),
            ("symbol?", crate::types::Builtin::IsSymbol),
            ("symbol", crate::types::Builtin::ToSymbol),
            ("keyword", crate::types::Builtin::ToKeyword),
            ("keyword?", crate::types::Builtin::IsKeyword),
            ("vector", crate::types::Builtin::MkVector),
            ("vector?", crate::types::Builtin::IsVector),
            ("sequential?", crate::types::Builtin::IsSequential),
            ("hash-map", crate::types::Builtin::MkHashMap),
            ("map?", crate::types::Builtin::IsMap),
            ("assoc", crate::types::Builtin::Assoc),
            ("dissoc", crate::types::Builtin::Dissoc),
            ("get", crate::types::Builtin::MapGet),
            ("contains?", crate::types::Builtin::Contains),
            ("keys", crate::types::Builtin::Keys),
            ("vals", crate::types::Builtin::Vals),
            ("readline", crate::types::Builtin::ReadLine),
            ("time-ms", crate::types::Builtin::TimeMs),
            ("meta", crate::types::Builtin::Meta),
            ("with-meta", crate::types::Builtin::WithMeta),
            ("fn?", crate::types::Builtin::IsFn),
            ("string?", crate::types::Builtin::IsString),
            ("number?", crate::types::Builtin::IsNumber),
            ("seq", crate::types::Builtin::ToSeq),
            ("conj", crate::types::Builtin::Conj),
            ("macro?", crate::types::Builtin::IsMacro),
            ("eval", crate::types::Builtin::Eval),
        ];
        let mut i: usize = 0;
        while i < names.len()
            invariant
                i <= names@.len(),
                names@.len() == 62,
                it.env@.len() == 1,
                it.atoms@.len() == 0,
                it.out@.len() == 0,
                it.env@[0].outer is None,
                no_macro_bindings(it.env@[0].table),
                only_builtin_bindings(it.env@[0].table),
                forall|j: int|
                    0 <= j < i ==> it.env@[0].table.contains_key((#[trigger] names@[j]).0@),
                wf_interp(it),
            decreases names@.len() - i,
        {
            let ghost pre = it;
            let b = names[i].1;
            it.env.set(0, names[i].0.to_owned(), MalVal::Fn(
                Box::new(MalFn::RegularFn(b)),
                Option::None,
            ));
            proof {
                lemma_wf_interp_again(pre, it);
                assert forall|k: Seq<char>|
                    #[trigger] it.env@[0].table.contains_key(k) implies !crate::malcore::is_macro_val(
                    it.env@[0].table[k],
                ) && (it.env@[0].table[k] matches GVal::Fn(GFn::Builtin(_), _)) by {
                    if !pre.env@[0].table.contains_key(k) || it.env@[0].table[k] != pre.env@[0].table[k] {
                    }
                }
            }
            i += 1;
        }
        proof {
            assert(it.env@[0].table.contains_key("+"@)) by {
                assert(names@[0].0@ == "+"@);
            }
            assert(it.env@[0].table.contains_key("-"@)) by {
                assert(names@[1].0@ == "-"@);
            }
            assert(it.env@[0].table.contains_key("*"@)) by {
                assert(names@[2].0@ == "*"@);
            }
            assert(it.env@[0].table.contains_key("/"@)) by {
                assert(names@[3].0@ == "/"@);
            }
            assert(it.env@[0].table.contains_key("prn"@)) by {
                assert(names@[4].0@ == "prn"@);
            }
            assert(it.env@[0].table.contains_key("list"@)) by {
                assert(names@[5].0@ == "list"@);
            }
            assert(it.env@[0].table.contains_key("list?"@)) by {
                assert(names@[6].0@ == "list?"@);
            }
            assert(it.env@[0].table.contains_key("empty?"@)) by {
                assert(names@[7].0@ == "empty?"@);
            }
            assert(it.env@[0].table.contains_key("count"@)) by {
                assert(names@[8].0@ == "count"@);
            }
            assert(it.env@[0].table.contains_key("="@)) by {
                assert(names@[9].0@ == "="@);
            }
            assert(it.env@[0].table.contains_key("<"@)) by {
                assert(names@[10].0@ == "<"@);
            }
            assert(it.env@[0].table.contains_key("<="@)) by {
                assert(names@[11].0@ == "<="@);
            }
            assert(it.env@[0].table.contains_key(">"@)) by {
                assert(names@[12].0@ == ">"@);
            }
            assert(it.env@[0].table.contains_key(">="@)) by {
                assert(names@[13].0@ == ">="@);
            }
            assert(it.env@[0].table.contains_key("pr-str"@)) by {
                assert(names@[14].0@ == "pr-str"@);
            }
            assert(it.env@[0].table.contains_key("str"@)) by {
                assert(names@[15].0@ == "str"@);
            }
            assert(it.env@[0].table.contains_key("println"@)) by {
                assert(names@[16].0@ == "println"@);
            }
            assert(it.env@[0].table.contains_key("read-string"@)) by {
                assert(names@[17].0@ == "read-string"@);
            }
            assert(it.env@[0].table.contains_key("slurp"@)) by {
                assert(names@[18].0@ == "slurp"@);
            }
            assert(it.env@[0].table.contains_key("atom"@)) by {
                assert(names@[19].0@ == "atom"@);
            }
            assert(it.env@[0].table.contains_key("atom?"@)) by {
                assert(names@[20].0@ == "atom?"@);
            }
            assert(it.env@[0].table.contains_key("deref"@)) by {
                assert(names@[21].0@ == "deref"@);
            }
            assert(it.env@[0].table.contains_key("reset!"@)) by {
                assert(names@[22].0@ == "reset!"@);
            }
            assert(it.env@[0].table.contains_key("swap!"@)) by {
                assert(names@[23].0@ == "swap!"@);
            }
            assert(it.env@[0].table.contains_key("cons"@)) by {
                assert(names@[24].0@ == "cons"@);
            }
            assert(it.env@[0].table.contains_key("concat"@)) by {
                assert(names@[25].0@ == "concat"@);
            }
            assert(it.env@[0].table.contains_key("vec"@)) by {
                assert(names@[26].0@ == "vec"@);
            }
            assert(it.env@[0].table.contains_key("nth"@)) by {
                assert(names@[27].0@ == "nth"@);
            }
            assert(it.env@[0].table.contains_key("first"@)) by {
                assert(names@[28].0@ == "first"@);
            }
            assert(it.env@[0].table.contains_key("rest"@)) by {
                assert(names@[29].0@ == "rest"@);
            }
            assert(it.env@[0].table.contains_key("throw"@)) by {
                assert(names@[30].0@ == "throw"@);
            }
            assert(it.env@[0].table.contains_key("apply"@)) by {
                assert(names@[31].0@ == "apply"@);
            }
            assert(it.env@[0].table.contains_key("map"@)) by {
                assert(names@[32].0@ == "map"@);
            }
            assert(it.env@[0].table.contains_key("nil?"@)) by {
                assert(names@[33].0@ == "nil?"@);
            }
            assert(it.env@[0].table.contains_key("true?"@)) by {
                assert(names@[34].0@ == "true?"@);
            }
            assert(it.env@[0].table.contains_key("false?"@)) by {
                assert(names@[35].0@ == "false?"@);
            }
            assert(it.env@[0].table.contains_key("symbol?"@)) by {
                assert(names@[36].0@ == "symbol?"@);
            }
            assert(it.env@[0].table.contains_key("symbol"@)) by {
                assert(names@[37].0@ == "symbol"@);
            }
            assert(it.env@[0].table.contains_key("keyword"@)) by {
                assert(names@[38].0@ == "keyword"@);
            }
            assert(it.env@[0].table.contains_key("keyword?"@)) by {
                assert(names@[39].0@ == "keyword?"@);
            }
            assert(it.env@[0].table.contains_key("vector"@)) by {
                assert(names@[40].0@ == "vector"@);
            }
            assert(it.env@[0].table.contains_key("vector?"@)) by {
                assert(names@[41].0@ == "vector?"@);
            }
            assert(it.env@[0].table.contains_key("sequential?"@)) by {
                assert(names@[42].0@ == "sequential?"@);
            }
            assert(it.env@[0].table.contains_key("hash-map"@)) by {
                assert(names@[43].0@ == "hash-map"@);
            }
            assert(it.env@[0].table.contains_key("map?"@)) by {
                assert(names@[44].0@ == "map?"@);
            }
            assert(it.env@[0].table.contains_key("assoc"@)) by {
                assert(names@[45].0@ == "assoc"@);
            }
            assert(it.env@[0].table.contains_key("dissoc"@)) by {
                assert(names@[46].0@ == "dissoc"@);
            }
            assert(it.env@[0].table.contains_key("get"@)) by {
                assert(names@[47].0@ == "get"@);
            }
            assert(it.env@[0].table.contains_key("contains?"@)) by {
                assert(names@[48].0@ == "contains?"@);
            }
            assert(it.env@[0].table.contains_key("keys"@)) by {
                assert(names@[49].0@ == "keys"@);
            }
            assert(it.env@[0].table.contains_key("vals"@)) by {
                assert(names@[50].0@ == "vals"@);
            }
            assert(it.env@[0].table.contains_key("readline"@)) by {
                assert(names@[51].0@ == "readline"@);
            }
            assert(it.env@[0].table.contains_key("time-ms"@)) by {
                assert(names@[52].0@ == "time-ms"@);
            }
            assert(it.env@[0].table.contains_key("meta"@)) by {
                assert(names@[53].0@ == "meta"@);
            }
            assert(it.env@[0].table.contains_key("with-meta"@)) by {
                assert(names@[54].0@ == "with-meta"@);
            }
            assert(it.env@[0].table.contains_key("fn?"@)) by {
                assert(names@[55].0@ == "fn?"@);
            }
            assert(it.env@[0].table.contains_key("string?"@)) by {
                assert(names@[56].0@ == "string?"@);
            }
            assert(it.env@[0].table.contains_key("number?"@)) by {
                assert(names@[57].0@ == "number?"@);
            }
            assert(it.env@[0].table.contains_key("seq"@)) by {
                assert(names@[58].0@ == "seq"@);
            }
            assert(it.env@[0].table.contains_key("conj"@)) by {
                assert(names@[59].0@ == "conj"@);
            }
            assert(it.env@[0].table.contains_key("macro?"@)) by {
                assert(names@[60].0@ == "macro?"@);
            }
            assert(it.env@[0].table.contains_key("eval"@)) by {
                assert(names@[61].0@ == "eval"@);
            }
        }
        it
    }

    /// One bootstrap body, read from its source text; text that failed to
    /// read or check would become `nil`, which the definitions never produce.
    fn read_body(&self, src: &str) -> (b: MalVal)
        ensures
            wf_val(b@, self.env@.len(), self.atoms@.len()),
    {
        match crate::reader::read_str(src) {
            Result::Ok(v) => {
                let ne = self.env.frames.len();
                let na = self.atoms.len();
                if check_wf(&v, ne, na) {
                    v
                } else {
                    MalVal::Nil
                }
            },
            Result::Err(_) => MalVal::Nil,
        }
    }

    /// Evaluate the bootstrap forms: `not`, `load-file` and the `cond`
    /// macro. Each is a definition of an `fn*` closure, so each is bound for
    /// certain: afterwards `not` and `load-file` resolve at the top level and
    /// `cond` resolves to a macro.
    pub fn bootstrap(&mut self, fuel: u64)
        requires
            wf_interp(*old(self)),
            old(self).env@.len() >= 1,
            old(self).env@[0].outer is None,
            no_macro_bindings(old(self).env@[0].table),
            fuel >= 2,
        ensures
            wf_interp(*final(self)),
            interp_grows(*old(self), *final(self)),
            lookup(final(self).env@, 0, "not"@) is Some,
            lookup(final(self).env@, 0, "load-file"@) is Some,
            (lookup(final(self).env@, 0, "cond"@) matches Option::Some(c)
                && crate::malcore::is_macro_val(c)),
    {
        let ghost g0 = *self;
        let body1 = self.read_body("(if a false true)");
        let mut p1: Vec<MalVal> = Vec::new();
        p1.push(MalVal::Symbol("a".to_owned()));
        proof {
            lemma_v_seq(p1@);
        }
        let form1 = Self::def_form("def!", "not", p1, body1);
        proof {
            lemma_no_macro_no_call(self.env@, form1@);
            lemma_no_macro_no_call(self.env@, form1@->List_0[2]);
            assert(def_of_fn_shape(form1@, 0, self.env@));
        }
        let r1 = eval(self, form1, 0, fuel);
        let ghost g1 = *self;
        proof {
            assert forall|k: Seq<char>|
                #[trigger] g1.env@[0].table.contains_key(k) implies !crate::malcore::is_macro_val(
                g1.env@[0].table[k],
            ) by {}
        }
        let body2 = self.read_body(
            "(eval (read-string (str \"(do \" (slurp f) \"\\nnil)\")))",
        );
        let mut p2: Vec<MalVal> = Vec::new();
        p2.push(MalVal::Symbol("f".to_owned()));
        proof {
            lemma_v_seq(p2@);
        }
        let form2 = Self::def_form("def!", "load-file", p2, body2);
        proof {
            lemma_no_macro_no_call(self.env@, form2@);
            lemma_no_macro_no_call(self.env@, form2@->List_0[2]);
            assert(def_of_fn_shape(form2@, 0, self.env@));
        }
        let r2 = eval(self, form2, 0, fuel);
        let ghost g2 = *self;
        proof {
            assert forall|k: Seq<char>|
                #[trigger] g2.env@[0].table.contains_key(k) implies !crate::malcore::is_macro_val(
                g2.env@[0].table[k],
            ) by {}
        }
        let body3 = self.read_body(
            "(if (> (count xs) 0) (list 'if (first xs) (if (> (count xs) 1) (nth xs 1) (throw \"odd number of forms to cond\")) (cons 'cond (rest (rest xs)))))",
        );
        let mut p3: Vec<MalVal> = Vec::new();
        p3.push(MalVal::Symbol("&".to_owned()));
        p3.push(MalVal::Symbol("xs".to_owned()));
        proof {
            lemma_v_seq(p3@);
        }
        let form3 = Self::def_form("defmacro!", "cond", p3, body3);
        proof {
            lemma_no_macro_no_call(self.env@, form3@);
            lemma_no_macro_no_call(self.env@, form3@->List_0[2]);
            assert(def_of_fn_shape(form3@, 0, self.env@));
        }
        let r3 = eval(self, form3, 0, fuel);
        proof {
            lemma_grows_trans(g0, g1, g2);
            lemma_grows_trans(g0, g2, *self);
            reveal_strlit("not");
            reveal_strlit("load-file");
            reveal_strlit("cond");
            assert("not"@.len() == 3 && "load-file"@.len() == 9 && "cond"@.len() == 4);
            assert("not"@ != "load-file"@ && "not"@ != "cond"@ && "load-file"@ != "cond"@);
            assert(self.env@[0].table.contains_key("not"@));
            assert(self.env@[0].table.contains_key("load-file"@));
            assert(self.env@[0].table.contains_key("cond"@));
        }
    }

    /// Build the definition form `(head name (fn* params body))`.
    fn def_form(head: &str, name: &str, params: Vec<MalVal>, body: MalVal) -> (r: MalVal)
        requires
            forall|j: int| 0 <= j < params@.len() ==> v_val(#[trigger] params@[j]) is Symbol,
        ensures
            r@ == GVal::List(
                seq![
                    GVal::Symbol(head@),
                    GVal::Symbol(name@),
                    GVal::List(
                        seq![
                            GVal::Symbol("fn*"@),
                            GVal::List(v_seq(params@), Option::None),
                            body@,
                        ],
                        Option::None,
                    ),
                ],
                Option::None,
            ),
            params_ok(GVal::List(v_seq(params@), Option::None)),
            forall|ne: nat, na: nat|
                wf_val(body@, ne, na) ==> wf_val(#[trigger] r@, ne, na),
    {
        let ghost gp = v_seq(params@);
        let ghost gb = body@;
        proof {
            lemma_v_seq(params@);
        }
        let mut inner: Vec<MalVal> = Vec::new();
        inner.push(MalVal::Symbol("fn*".to_owned()));
        inner.push(MalVal::List(params, Option::None));
        inner.push(body);
        proof {
            lemma_v_seq(inner@);
            assert(v_seq(inner@) =~= seq![
                GVal::Symbol("fn*"@),
                GVal::List(gp, Option::None),
                gb,
            ]);
        }
        let mut outer: Vec<MalVal> = Vec::new();
        outer.push(MalVal::Symbol(head.to_owned()));
        outer.push(MalVal::Symbol(name.to_owned()));
        outer.push(MalVal::List(inner, Option::None));
        let r = MalVal::List(outer, Option::None);
        proof {
            lemma_v_seq(outer@);
            assert(v_seq(outer@) =~= seq![
                GVal::Symbol(head@),
                GVal::Symbol(name@),
                outer@[2]@,
            ]);
            assert forall|ne: nat, na: nat| wf_val(gb, ne, na) implies wf_val(
                #[trigger] r@,
                ne,
                na,
            ) by {
                lemma_wf_seq_of_all(gp, 0, ne, na);
                lemma_wf_seq_of_all(v_seq(inner@), 0, ne, na);
                lemma_wf_seq_of_all(v_seq(outer@), 0, ne, na);
            }
        }
        r
    }

    /// One read-eval-print round: `None` when the input holds no form (the
    /// caller re-prompts silently), otherwise the printed result or the
    /// printed error. Side output (from `prn` and friends) is written as it
    /// is produced and recorded in `out`.
    pub fn rep(&mut self, input: &str, fuel: u64) -> (r: Option<String>)
        requires
            wf_interp(*old(self)),
            old(self).env@.len() >= 1,
        ensures
            wf_interp(*final(self)),
            interp_grows(*old(self), *final(self)),
            crate::reader::read_spec(input@) == Result::<GVal, GErr>::Err(GErr::Continue) ==> (r
                is None && *final(self) == *old(self)),
            crate::reader::read_spec(input@) matches Result::Err(ge) ==> (ge matches
            GErr::Unbalance(_) ==> (r matches Option::Some(s) && s@ == "EOF"@)),
            crate::reader::read_spec(input@) matches Result::Err(ge) ==> (ge matches GErr::Other(
                m,
            ) ==> (r matches Option::Some(s) && s@ == m)),
            fuel >= 1 ==> (crate::reader::read_spec(input@) matches Result::Ok(g) ==> (
            self_eval_val(g) && wf_val(g, old(self).env@.len(), old(self).atoms@.len()) ==> (r
                matches Option::Some(s) && s@ == print_val(
                g,
                true,
                v_seq(old(self).atoms@),
                PRINT_ATOM_DEPTH as nat,
            )))),
    {
        let ghost g0 = *self;
        match crate::reader::read_str(input) {
            Result::Err(e) => self.describe_error(e),
            Result::Ok(ast) => {
                let ne = self.env.frames.len();
                let na = self.atoms.len();
                if !check_wf(&ast, ne, na) {
                    return Option::Some(String::from_str("ill-formed input"));
                }
                match eval(self, ast, 0, fuel) {
                    Result::Ok(v) => Option::Some(v.pr_str(true, &self.atoms, PRINT_ATOM_DEPTH)),
                    Result::Err(e) => {
                        let r = self.describe_error(e);
                        r
                    },
                }
            },
        }
    }

    /// The printed form of an error, as the driver shows it; `Continue` shows
    /// nothing, an unbalance shows `EOF`, a thrown value is shown readably
    /// behind `Eexception`, and a textual error shows its text. `rep` prints
    /// every evaluation error through this.
    pub fn describe_error(&self, e: MalError) -> (r: Option<String>)
        ensures
            v_err(e) == GErr::Continue <==> r is None,
            v_err(e) is Unbalance ==> (r matches Option::Some(s) && s@ == "EOF"@),
            v_err(e) matches GErr::Other(m) ==> (r matches Option::Some(s) && s@ == m),
            v_err(e) matches GErr::Throw(v) ==> (r matches Option::Some(s) && s@ == "Eexception "@
                + print_val(v, true, v_seq(self.atoms@), PRINT_ATOM_DEPTH as nat)),
    {
        match e {
            MalError::Continue => Option::None,
            MalError::Throw(v) => {
                let mut msg = String::from_str("Eexception ");
                let shown = v.pr_str(true, &self.atoms, PRINT_ATOM_DEPTH);
                msg.append(shown.as_str());
                Option::Some(msg)
            },
            MalError::Unbalance(_) => Option::Some(String::from_str("EOF")),
            MalError::Other(m) => Option::Some(m),
        }
    }
}

} // verus!
