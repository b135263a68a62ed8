//! The value model: the tagged sum of runtime values, its ghost counterpart,
//! well-formedness, deep copying, and the language's structural equality.
use vstd::prelude::*;

verus! {

// ---------------------------------------------------------------------------
// Errors
// ---------------------------------------------------------------------------

/// An error raised while reading or evaluating.
#[derive(Debug)]
pub enum MalError {
    /// A user- or primitive-initiated exception carrying an arbitrary value.
    Throw(MalVal),
    /// The reader hit end-of-input inside a list, vector, hash-map or string;
    /// the payload names which.
    Unbalance(&'static str),
    /// The reader produced no token at all: nothing to do, re-prompt silently.
    Continue,
    /// Any textual error: unknown symbol, type mismatch in a primitive, ...
    Other(String),
}

pub type MalResult = Result<MalVal, MalError>;

// ---------------------------------------------------------------------------
// Builtins
// ---------------------------------------------------------------------------

/// The primitive operations of the language, dispatched by the evaluator.
#[derive(Clone, Copy, PartialEq, Eq, Structural, Debug)]
pub enum Builtin {
    Add,
    Sub,
    Mul,
    Div,
    Prn,
    MkList,
    IsList,
    IsEmpty,
    Count,
    Eq,
    Lt,
    Lte,
    Gt,
    Gte,
    PrStr,
    StrCat,
    PrintLn,
    ReadString,
    Slurp,
    MkAtom,
    IsAtom,
    Deref,
    Reset,
    Swap,
    Cons,
    Concat,
    ToVec,
    Nth,
    First,
    Rest,
    Throw,
    Apply,
    MapFn,
    IsNil,
    IsTrue,
    IsFalse,
    IsSymbol,
    ToSymbol,
    ToKeyword,
    IsKeyword,
    MkVector,
    IsVector,
    IsSequential,
    MkHashMap,
    IsMap,
    Assoc,
    Dissoc,
    MapGet,
    Contains,
    Keys,
    Vals,
    ReadLine,
    TimeMs,
    Meta,
    WithMeta,
    IsFn,
    IsString,
    IsNumber,
    ToSeq,
    Conj,
    IsMacro,
    Eval,
}

// ---------------------------------------------------------------------------
// Values
// ---------------------------------------------------------------------------

/// The two kinds of value that may be a hash-map key; disjoint by tag.
#[derive(Debug)]
pub enum Hashable {
    Keyword(String),
    String(String),
}

/// A user-defined function: a body, a parameter list (possibly with a `&`
/// variadic marker), the environment frame captured when `fn*` ran, and the
/// macro flag set by `defmacro!`.
#[derive(Debug)]
pub struct MalFunc {
    pub ast: Box<MalVal>,
    pub params: Vec<String>,
    pub env: usize,
    pub is_marco: bool,
}

/// A callable: either a user-defined function or a named primitive.
#[derive(Debug)]
pub enum MalFn {
    MalFunc(MalFunc),
    RegularFn(Builtin),
}

/// A runtime value. Lists, vectors, hash-maps and functions carry an optional
/// metadata slot that never takes part in equality. An `Atom` holds an index
/// into the interpreter's store of mutable cells; an environment frame is
/// likewise an index, so values themselves form finite trees.
#[derive(Debug)]
pub enum MalVal {
    Fn(Box<MalFn>, Option<Box<MalVal>>),
    List(Vec<MalVal>, Option<Box<MalVal>>),
    Vector(Vec<MalVal>, Option<Box<MalVal>>),
    HashMap(Vec<(Hashable, MalVal)>, Option<Box<MalVal>>),
    Keyword(String),
    String(String),
    Integer(i64),
    Bool(bool),
    Nil,
    Symbol(String),
    Atom(usize),
}

// ---------------------------------------------------------------------------
// The ghost model: the same trees over mathematical sequences
// ---------------------------------------------------------------------------

/// Ghost counterpart of `Hashable`.
pub enum GKey {
    Keyword(Seq<char>),
    Str(Seq<char>),
}

/// Ghost counterpart of `MalFn`.
pub enum GFn {
    Builtin(Builtin),
    Closure { params: Seq<Seq<char>>, body: Box<GVal>, env: nat, is_marco: bool },
}

/// Ghost counterpart of `MalVal`.
pub enum GVal {
    Fn(GFn, Option<Box<GVal>>),
    List(Seq<GVal>, Option<Box<GVal>>),
    Vector(Seq<GVal>, Option<Box<GVal>>),
    HashMap(Seq<(GKey, GVal)>, Option<Box<GVal>>),
    Keyword(Seq<char>),
    Str(Seq<char>),
    Integer(int),
    Bool(bool),
    Nil,
    Symbol(Seq<char>),
    Atom(nat),
}

pub open spec fn v_key(k: Hashable) -> GKey {
    match k {
        Hashable::Keyword(s) => GKey::Keyword(s@),
        Hashable::String(s) => GKey::Str(s@),
    }
}

pub open spec fn v_fn(f: MalFn) -> GFn
    decreases f, 0int,
{
    match f {
        MalFn::RegularFn(b) => GFn::Builtin(b),
        MalFn::MalFunc(mf) => GFn::Closure {
            params: mf.params.deep_view(),
            body: Box::new(v_val(*mf.ast)),
            env: mf.env as nat,
            is_marco: mf.is_marco,
        },
    }
}

pub open spec fn v_meta(m: Option<Box<MalVal>>) -> Option<Box<GVal>>
    decreases m, 0int,
{
    match m {
        Option::None => Option::None,
        Option::Some(b) => Option::Some(Box::new(v_val(*b))),
    }
}

pub open spec fn v_seq_from(s: Seq<MalVal>, i: int) -> Seq<GVal>
    decreases s, s.len() - i,
{
    if i < 0 || i >= s.len() {
        Seq::empty()
    } else {
        seq![v_val(s[i])] + v_seq_from(s, i + 1)
    }
}

pub open spec fn v_seq(s: Seq<MalVal>) -> Seq<GVal>
    decreases s, s.len() + 1,
{
    v_seq_from(s, 0)
}

pub open spec fn v_pairs_from(s: Seq<(Hashable, MalVal)>, i: int) -> Seq<(GKey, GVal)>
    decreases s, s.len() - i,
{
    if i < 0 || i >= s.len() {
        Seq::empty()
    } else {
        seq![(v_key(s[i].0), v_val(s[i].1))] + v_pairs_from(s, i + 1)
    }
}

pub open spec fn v_pairs(s: Seq<(Hashable, MalVal)>) -> Seq<(GKey, GVal)>
    decreases s, s.len() + 1,
{
    v_pairs_from(s, 0)
}

/// The deep view of a value: the same tree with `Vec` replaced by `Seq`,
/// `String` by `Seq<char>`, and machine integers by `int`/`nat`.
pub open spec fn v_val(v: MalVal) -> GVal
    decreases v, 0int,
{
    match v {
        MalVal::Fn(f, m) => GVal::Fn(v_fn(*f), v_meta(m)),
        MalVal::List(es, m) => GVal::List(v_seq(es@), v_meta(m)),
        MalVal::Vector(es, m) => GVal::Vector(v_seq(es@), v_meta(m)),
        MalVal::HashMap(ps, m) => GVal::HashMap(v_pairs(ps@), v_meta(m)),
        MalVal::Keyword(s) => GVal::Keyword(s@),
        MalVal::String(s) => GVal::Str(s@),
        MalVal::Integer(i) => GVal::Integer(i as int),
        MalVal::Bool(b) => GVal::Bool(b),
        MalVal::Nil => GVal::Nil,
        MalVal::Symbol(s) => GVal::Symbol(s@),
        MalVal::Atom(i) => GVal::Atom(i as nat),
    }
}

impl View for MalVal {
    type V = GVal;

    open spec fn view(&self) -> GVal {
        v_val(*self)
    }
}

impl View for Hashable {
    type V = GKey;

    open spec fn view(&self) -> GKey {
        v_key(*self)
    }
}

// ---------------------------------------------------------------------------
// Pointwise descriptions of the sequence views
// ---------------------------------------------------------------------------

proof fn lemma_v_seq_from(s: Seq<MalVal>, i: int)
    requires
        0 <= i <= s.len(),
    ensures
        v_seq_from(s, i).len() == s.len() - i,
        forall|j: int| 0 <= j < s.len() - i ==> v_seq_from(s, i)[j] == v_val(s[i + j]),
    decreases s.len() - i,
{
    if i < s.len() {
        lemma_v_seq_from(s, i + 1);
    }
}

pub broadcast proof fn lemma_v_seq(s: Seq<MalVal>)
    ensures
        (#[trigger] v_seq(s)).len() == s.len(),
        forall|j: int| 0 <= j < s.len() ==> #[trigger] v_seq(s)[j] == v_val(s[j]),
{
    lemma_v_seq_from(s, 0);
}

proof fn lemma_v_pairs_from(s: Seq<(Hashable, MalVal)>, i: int)
    requires
        0 <= i <= s.len(),
    ensures
        v_pairs_from(s, i).len() == s.len() - i,
        forall|j: int| 0 <= j < s.len() - i ==> v_pairs_from(s, i)[j] == (
        v_key(s[i + j].0),
        v_val(s[i + j].1),
        ),
    decreases s.len() - i,
{
    if i < s.len() {
        lemma_v_pairs_from(s, i + 1);
    }
}

pub broadcast proof fn lemma_v_pairs(s: Seq<(Hashable, MalVal)>)
    ensures
        (#[trigger] v_pairs(s)).len() == s.len(),
        forall|j: int| 0 <= j < s.len() ==> #[trigger] v_pairs(s)[j] == (v_key(s[j].0), v_val(s[j].1)),
{
    lemma_v_pairs_from(s, 0);
}

pub broadcast group group_view_lemmas {
    lemma_v_seq,
    lemma_v_pairs,
}

// ---------------------------------------------------------------------------
// Well-formedness
// ---------------------------------------------------------------------------

/// No two entries of a hash-map's entry sequence share a key.
pub open spec fn uniq_keys(ps: Seq<(GKey, GVal)>) -> bool {
    forall|i: int, j: int| 0 <= i < j < ps.len() ==> ps[i].0 != ps[j].0
}

pub open spec fn wf_meta(m: Option<Box<GVal>>, nenv: nat, natoms: nat) -> bool
    decreases m, 0int,
{
    match m {
        Option::None => true,
        Option::Some(b) => wf_val(*b, nenv, natoms),
    }
}

pub open spec fn wf_seq_from(s: Seq<GVal>, i: int, nenv: nat, natoms: nat) -> bool
    decreases s, s.len() - i,
{
    i >= s.len() || i < 0 || (wf_val(s[i], nenv, natoms) && wf_seq_from(s, i + 1, nenv, natoms))
}

pub open spec fn wf_seq(s: Seq<GVal>, nenv: nat, natoms: nat) -> bool
    decreases s, s.len() + 1,
{
    wf_seq_from(s, 0, nenv, natoms)
}

pub open spec fn wf_pairs_from(s: Seq<(GKey, GVal)>, i: int, nenv: nat, natoms: nat) -> bool
    decreases s, s.len() - i,
{
    i >= s.len() || i < 0 || (wf_val(s[i].1, nenv, natoms) && wf_pairs_from(
        s,
        i + 1,
        nenv,
        natoms,
    ))
}

pub open spec fn wf_pairs(s: Seq<(GKey, GVal)>, nenv: nat, natoms: nat) -> bool
    decreases s, s.len() + 1,
{
    wf_pairs_from(s, 0, nenv, natoms)
}

pub open spec fn wf_fn(f: GFn, nenv: nat, natoms: nat) -> bool
    decreases f, 0int,
{
    match f {
        GFn::Builtin(_) => true,
        GFn::Closure { params, body, env, is_marco } => env < nenv && wf_val(
            *body,
            nenv,
            natoms,
        ),
    }
}

/// A value is well formed with respect to an interpreter that has `nenv`
/// environment frames and `natoms` atom cells: every frame or atom index it
/// holds is in range, every integer fits in the machine word, and every
/// hash-map's keys are distinct.
pub open spec fn wf_val(v: GVal, nenv: nat, natoms: nat) -> bool
    decreases v, 1int,
{
    match v {
        GVal::Fn(f, m) => wf_fn(f, nenv, natoms) && wf_meta(m, nenv, natoms),
        GVal::List(es, m) => wf_seq(es, nenv, natoms) && wf_meta(m, nenv, natoms),
        GVal::Vector(es, m) => wf_seq(es, nenv, natoms) && wf_meta(m, nenv, natoms),
        GVal::HashMap(ps, m) => uniq_keys(ps) && wf_pairs(ps, nenv, natoms) && wf_meta(
            m,
            nenv,
            natoms,
        ),
        GVal::Integer(n) => i64::MIN <= n <= i64::MAX,
        GVal::Atom(a) => a < natoms,
        _ => true,
    }
}

proof fn lemma_wf_seq_from_mono(
    s: Seq<GVal>,
    i: int,
    nenv: nat,
    natoms: nat,
    nenv2: nat,
    natoms2: nat,
)
    requires
        wf_seq_from(s, i, nenv, natoms),
        nenv <= nenv2,
        natoms <= natoms2,
    ensures
        wf_seq_from(s, i, nenv2, natoms2),
    decreases s, s.len() - i, 2int,
{
    if 0 <= i < s.len() {
        lemma_wf_mono(s[i], nenv, natoms, nenv2, natoms2);
        lemma_wf_seq_from_mono(s, i + 1, nenv, natoms, nenv2, natoms2);
    }
}

proof fn lemma_wf_pairs_from_mono(
    s: Seq<(GKey, GVal)>,
    i: int,
    nenv: nat,
    natoms: nat,
    nenv2: nat,
    natoms2: nat,
)
    requires
        wf_pairs_from(s, i, nenv, natoms),
        nenv <= nenv2,
        natoms <= natoms2,
    ensures
        wf_pairs_from(s, i, nenv2, natoms2),
    decreases s, s.len() - i, 2int,
{
    if 0 <= i < s.len() {
        lemma_wf_mono(s[i].1, nenv, natoms, nenv2, natoms2);
        lemma_wf_pairs_from_mono(s, i + 1, nenv, natoms, nenv2, natoms2);
    }
}

/// Well-formedness is preserved when the interpreter grows: a value that was
/// valid for a smaller arena stays valid for a larger one.
pub proof fn lemma_wf_mono(v: GVal, nenv: nat, natoms: nat, nenv2: nat, natoms2: nat)
    requires
        wf_val(v, nenv, natoms),
        nenv <= nenv2,
        natoms <= natoms2,
    ensures
        wf_val(v, nenv2, natoms2),
    decreases v, 3int,
{
    match v {
        GVal::Fn(f, m) => {
            match f {
                GFn::Closure { params, body, env, is_marco } => {
                    lemma_wf_mono(*body, nenv, natoms, nenv2, natoms2);
                },
                _ => {},
            }
            lemma_wf_meta_mono(m, nenv, natoms, nenv2, natoms2);
        },
        GVal::List(es, m) => {
            lemma_wf_seq_from_mono(es, 0, nenv, natoms, nenv2, natoms2);
            lemma_wf_meta_mono(m, nenv, natoms, nenv2, natoms2);
        },
        GVal::Vector(es, m) => {
            lemma_wf_seq_from_mono(es, 0, nenv, natoms, nenv2, natoms2);
            lemma_wf_meta_mono(m, nenv, natoms, nenv2, natoms2);
        },
        GVal::HashMap(ps, m) => {
            lemma_wf_pairs_from_mono(ps, 0, nenv, natoms, nenv2, natoms2);
            lemma_wf_meta_mono(m, nenv, natoms, nenv2, natoms2);
        },
        _ => {},
    }
}

proof fn lemma_wf_meta_mono(
    m: Option<Box<GVal>>,
    nenv: nat,
    natoms: nat,
    nenv2: nat,
    natoms2: nat,
)
    requires
        wf_meta(m, nenv, natoms),
        nenv <= nenv2,
        natoms <= natoms2,
    ensures
        wf_meta(m, nenv2, natoms2),
    decreases m, 2int,
{
    match m {
        Option::Some(b) => lemma_wf_mono(*b, nenv, natoms, nenv2, natoms2),
        Option::None => {},
    }
}

// ---------------------------------------------------------------------------
// The language's `=`: structural equality that crosses list/vector tags,
// ignores hash-map entry order, and never looks at metadata
// ---------------------------------------------------------------------------

pub open spec fn seq_val_eq_from(x: Seq<GVal>, y: Seq<GVal>, i: int) -> bool
    decreases x, x.len() - i,
{
    i < 0 || i >= x.len() || (val_eq(x[i], y[i]) && seq_val_eq_from(x, y, i + 1))
}

/// Two element sequences are equal when they have the same length and the
/// elements are pairwise `val_eq`.
pub open spec fn seq_val_eq(x: Seq<GVal>, y: Seq<GVal>) -> bool
    decreases x, x.len() + 1,
{
    x.len() == y.len() && seq_val_eq_from(x, y, 0)
}

/// Whether the first entry of `y[j..]` whose key is `k` carries a value
/// `val_eq` to `v`; false when no entry has key `k`.
pub open spec fn has_match(k: GKey, v: GVal, y: Seq<(GKey, GVal)>, j: int) -> bool
    decreases v, y.len() - j,
{
    if j < 0 || j >= y.len() {
        false
    } else if y[j].0 == k {
        val_eq(v, y[j].1)
    } else {
        has_match(k, v, y, j + 1)
    }
}

pub open spec fn pairs_fwd(x: Seq<(GKey, GVal)>, y: Seq<(GKey, GVal)>, i: int) -> bool
    decreases x, x.len() - i,
{
    i < 0 || i >= x.len() || (has_match(x[i].0, x[i].1, y, 0) && pairs_fwd(x, y, i + 1))
}

/// Whether the first entry of `x[i..]` whose key is `k` carries a value
/// `val_eq` to `yv`; false when no entry has key `k`.
pub open spec fn rev_match(k: GKey, yv: GVal, x: Seq<(GKey, GVal)>, i: int) -> bool
    decreases x, x.len() - i,
{
    if i < 0 || i >= x.len() {
        false
    } else if x[i].0 == k {
        val_eq(x[i].1, yv)
    } else {
        rev_match(k, yv, x, i + 1)
    }
}

pub open spec fn pairs_rev(x: Seq<(GKey, GVal)>, y: Seq<(GKey, GVal)>, j: int) -> bool
    decreases x, x.len() + 1 + y.len() - j,
{
    j < 0 || j >= y.len() || (rev_match(y[j].0, y[j].1, x, 0) && pairs_rev(x, y, j + 1))
}

/// Hash-map equality: every entry of either map is matched, by key, in the
/// other, with `val_eq` values. On maps with distinct keys (the only kind the
/// interpreter builds) this is equality as finite maps, whatever the entry
/// order.
pub open spec fn pairs_eq(x: Seq<(GKey, GVal)>, y: Seq<(GKey, GVal)>) -> bool
    decreases x, x.len() + y.len() + 2,
{
    pairs_fwd(x, y, 0) && pairs_rev(x, y, 0)
}

/// The language's `=` on values. Functions compare equal to functions and
/// atoms to atoms regardless of identity, as the evaluator's `=` does.
pub open spec fn val_eq(a: GVal, b: GVal) -> bool
    decreases a, 0int,
{
    match (a, b) {
        (GVal::List(x, _), GVal::List(y, _)) => seq_val_eq(x, y),
        (GVal::List(x, _), GVal::Vector(y, _)) => seq_val_eq(x, y),
        (GVal::Vector(x, _), GVal::List(y, _)) => seq_val_eq(x, y),
        (GVal::Vector(x, _), GVal::Vector(y, _)) => seq_val_eq(x, y),
        (GVal::HashMap(x, _), GVal::HashMap(y, _)) => pairs_eq(x, y),
        (GVal::Keyword(s), GVal::Keyword(t)) => s == t,
        (GVal::Str(s), GVal::Str(t)) => s == t,
        (GVal::Integer(i), GVal::Integer(j)) => i == j,
        (GVal::Bool(p), GVal::Bool(q)) => p == q,
        (GVal::Symbol(s), GVal::Symbol(t)) => s == t,
        (GVal::Nil, GVal::Nil) => true,
        (GVal::Fn(_, _), GVal::Fn(_, _)) => true,
        (GVal::Atom(_), GVal::Atom(_)) => true,
        _ => false,
    }
}

// ---------------------------------------------------------------------------
// Deep copy
// ---------------------------------------------------------------------------

impl Hashable {
    /// A fresh key with the same view.
    pub fn duplicate(&self) -> (r: Hashable)
        ensures
            r@ == self@,
    {
        match self {
            Hashable::Keyword(s) => Hashable::Keyword(s.clone()),
            Hashable::String(s) => Hashable::String(s.clone()),
        }
    }
}

pub fn dup_meta_pub(m: &Option<Box<MalVal>>) -> (r: Option<Box<MalVal>>)
    ensures
        v_meta(r) == v_meta(*m),
    decreases *m, 1int,
{
    match m {
        Option::None => Option::None,
        Option::Some(b) => Option::Some(Box::new(b.duplicate())),
    }
}

pub fn dup_vec(es: &Vec<MalVal>) -> (r: Vec<MalVal>)
    ensures
        r@.len() == es@.len(),
        v_seq(r@) == v_seq(es@),
        forall|j: int| 0 <= j < es@.len() ==> v_val(r@[j]) == v_val(es@[j]),
    decreases *es, 3int,
{
    broadcast use group_view_lemmas;
    let mut out: Vec<MalVal> = Vec::new();
    let mut i: usize = 0;
    while i < es.len()
        invariant
            i <= es@.len(),
            out@.len() == i,
            forall|j: int| 0 <= j < i ==> v_val(out@[j]) == v_val(es@[j]),
        decreases es@.len() - i,
    {
        out.push(es[i].duplicate());
        i += 1;
    }
    proof {
        assert(v_seq(out@) =~= v_seq(es@));
    }
    out
}

pub fn dup_pairs(ps: &Vec<(Hashable, MalVal)>) -> (r: Vec<(Hashable, MalVal)>)
    ensures
        r@.len() == ps@.len(),
        v_pairs(r@) == v_pairs(ps@),
        forall|j: int|
            0 <= j < ps@.len() ==> v_key(r@[j].0) == v_key(ps@[j].0) && v_val(r@[j].1) == v_val(
                ps@[j].1,
            ),
    decreases *ps, 3int,
{
    broadcast use group_view_lemmas;
    let mut out: Vec<(Hashable, MalVal)> = Vec::new();
    let mut i: usize = 0;
    while i < ps.len()
        invariant
            i <= ps@.len(),
            out@.len() == i,
            forall|j: int|
                0 <= j < i ==> v_key(out@[j].0) == v_key(ps@[j].0) && v_val(out@[j].1) == v_val(
                    ps@[j].1,
                ),
        decreases ps@.len() - i,
    {
        let e = &ps[i];
        out.push((e.0.duplicate(), e.1.duplicate()));
        i += 1;
    }
    proof {
        assert(v_pairs(out@) =~= v_pairs(ps@));
    }
    out
}

fn dup_fn(f: &MalFn) -> (r: MalFn)
    ensures
        v_fn(r) == v_fn(*f),
    decreases *f, 1int,
{
    match f {
        MalFn::RegularFn(b) => MalFn::RegularFn(*b),
        MalFn::MalFunc(mf) => {
            let mut params: Vec<String> = Vec::new();
            let mut i: usize = 0;
            while i < mf.params.len()
                invariant
                    i <= mf.params@.len(),
                    params@.len() == i,
                    forall|j: int| 0 <= j < i ==> params@[j]@ == mf.params@[j]@,
                decreases mf.params@.len() - i,
            {
                params.push(mf.params[i].clone());
                i += 1;
            }
            proof {
                assert(params.deep_view() =~= mf.params.deep_view());
            }
            MalFn::MalFunc(
                MalFunc {
                    ast: Box::new(mf.ast.duplicate()),
                    params,
                    env: mf.env,
                    is_marco: mf.is_marco,
                },
            )
        },
    }
}

impl MalVal {
    /// A fresh value with the same view: the interpreter's substitute for
    /// reference sharing.
    pub fn duplicate(&self) -> (r: MalVal)
        ensures
            r@ == self@,
        decreases *self, 0int,
    {
        match self {
            MalVal::Fn(f, m) => MalVal::Fn(Box::new(dup_fn(f)), dup_meta_pub(m)),
            MalVal::List(es, m) => MalVal::List(dup_vec(es), dup_meta_pub(m)),
            MalVal::Vector(es, m) => MalVal::Vector(dup_vec(es), dup_meta_pub(m)),
            MalVal::HashMap(ps, m) => MalVal::HashMap(dup_pairs(ps), dup_meta_pub(m)),
            MalVal::Keyword(s) => MalVal::Keyword(s.clone()),
            MalVal::String(s) => MalVal::String(s.clone()),
            MalVal::Integer(i) => MalVal::Integer(*i),
            MalVal::Bool(b) => MalVal::Bool(*b),
            MalVal::Nil => MalVal::Nil,
            MalVal::Symbol(s) => MalVal::Symbol(s.clone()),
            MalVal::Atom(i) => MalVal::Atom(*i),
        }
    }
}

// ---------------------------------------------------------------------------
// Executable structural equality
// ---------------------------------------------------------------------------

/// Character-for-character string equality.
pub fn string_eq(a: &String, b: &String) -> (r: bool)
    ensures
        r == (a@ == b@),
{
    a.eq(b)
}

/// Whether two hash-map keys are the same key.
pub fn key_eq(a: &Hashable, b: &Hashable) -> (r: bool)
    ensures
        r == (a@ == b@),
{
    match a {
        Hashable::Keyword(s) => match b {
            Hashable::Keyword(t) => string_eq(s, t),
            _ => false,
        },
        Hashable::String(s) => match b {
            Hashable::String(t) => string_eq(s, t),
            _ => false,
        },
    }
}

fn eq_seqs(x: &Vec<MalVal>, y: &Vec<MalVal>) -> (r: bool)
    ensures
        r == seq_val_eq(v_seq(x@), v_seq(y@)),
    decreases *x, 3int,
{
    broadcast use group_view_lemmas;
    proof {
        lemma_v_seq(x@);
        lemma_v_seq(y@);
    }
    if x.len() != y.len() {
        return false;
    }
    let ghost gx = v_seq(x@);
    let ghost gy = v_seq(y@);
    let mut i: usize = 0;
    while i < x.len()
        invariant
            i <= x@.len(),
            x@.len() == y@.len(),
            gx == v_seq(x@),
            gy == v_seq(y@),
            seq_val_eq_from(gx, gy, 0) == seq_val_eq_from(gx, gy, i as int),
        decreases x@.len() - i,
    {
        proof {
            lemma_v_seq(x@);
            lemma_v_seq(y@);
        }
        if !eq_val(&x[i], &y[i]) {
            proof {
                assert(!seq_val_eq_from(gx, gy, i as int));
            }
            return false;
        }
        i += 1;
    }
    true
}

fn scan_fwd(k: &Hashable, v: &MalVal, y: &Vec<(Hashable, MalVal)>) -> (r: bool)
    ensures
        r == has_match(k@, v@, v_pairs(y@), 0),
    decreases *v, 1int,
{
    broadcast use group_view_lemmas;
    let ghost gy = v_pairs(y@);
    let mut j: usize = 0;
    while j < y.len()
        invariant
            j <= y@.len(),
            gy == v_pairs(y@),
            has_match(k@, v@, gy, 0) == has_match(k@, v@, gy, j as int),
        decreases y@.len() - j,
    {
        proof {
            lemma_v_pairs(y@);
        }
        if key_eq(k, &y[j].0) {
            return eq_val(v, &y[j].1);
        }
        j += 1;
    }
    false
}

fn scan_rev(k: &Hashable, yv: &MalVal, x: &Vec<(Hashable, MalVal)>) -> (r: bool)
    ensures
        r == rev_match(k@, yv@, v_pairs(x@), 0),
    decreases *x, 1int,
{
    broadcast use group_view_lemmas;
    let ghost gx = v_pairs(x@);
    let mut i: usize = 0;
    while i < x.len()
        invariant
            i <= x@.len(),
            gx == v_pairs(x@),
            rev_match(k@, yv@, gx, 0) == rev_match(k@, yv@, gx, i as int),
        decreases x@.len() - i,
    {
        proof {
            lemma_v_pairs(x@);
        }
        if key_eq(&x[i].0, k) {
            return eq_val(&x[i].1, yv);
        }
        i += 1;
    }
    false
}

fn eq_pairs(x: &Vec<(Hashable, MalVal)>, y: &Vec<(Hashable, MalVal)>) -> (r: bool)
    ensures
        r == pairs_eq(v_pairs(x@), v_pairs(y@)),
    decreases *x, 4int,
{
    broadcast use group_view_lemmas;
    let ghost gx = v_pairs(x@);
    let ghost gy = v_pairs(y@);
    let mut i: usize = 0;
    while i < x.len()
        invariant
            i <= x@.len(),
            gx == v_pairs(x@),
            gy == v_pairs(y@),
            pairs_fwd(gx, gy, 0) == pairs_fwd(gx, gy, i as int),
        decreases x@.len() - i,
    {
        proof {
            lemma_v_pairs(x@);
            lemma_v_pairs(y@);
        }
        let e = &x[i];
        if !scan_fwd(&e.0, &e.1, y) {
            proof {
                assert(!pairs_fwd(gx, gy, i as int));
            }
            return false;
        }
        i += 1;
    }
    let mut j: usize = 0;
    while j < y.len()
        invariant
            j <= y@.len(),
            gx == v_pairs(x@),
            gy == v_pairs(y@),
            pairs_fwd(gx, gy, 0),
            pairs_rev(gx, gy, 0) == pairs_rev(gx, gy, j as int),
        decreases y@.len() - j,
    {
        proof {
            lemma_v_pairs(x@);
            lemma_v_pairs(y@);
        }
        let e = &y[j];
        if !scan_rev(&e.0, &e.1, x) {
            proof {
                assert(!pairs_rev(gx, gy, j as int));
            }
            return false;
        }
        j += 1;
    }
    true
}

/// The language's `=`, exactly `val_eq` on the views.
pub fn eq_val(a: &MalVal, b: &MalVal) -> (r: bool)
    ensures
        r == val_eq(a@, b@),
    decreases *a, 0int,
{
    broadcast use group_view_lemmas;
    match a {
        MalVal::List(x, _) => match b {
            MalVal::List(y, _) => eq_seqs(x, y),
            MalVal::Vector(y, _) => eq_seqs(x, y),
            _ => false,
        },
        MalVal::Vector(x, _) => match b {
            MalVal::List(y, _) => eq_seqs(x, y),
            MalVal::Vector(y, _) => eq_seqs(x, y),
            _ => false,
        },
        MalVal::HashMap(x, _) => match b {
            MalVal::HashMap(y, _) => eq_pairs(x, y),
            _ => false,
        },
        MalVal::Keyword(s) => match b {
            MalVal::Keyword(t) => string_eq(s, t),
            _ => false,
        },
        MalVal::String(s) => match b {
            MalVal::String(t) => string_eq(s, t),
            _ => false,
        },
        MalVal::Integer(i) => match b {
            MalVal::Integer(j) => i == j,
            _ => false,
        },
        MalVal::Bool(p) => match b {
            MalVal::Bool(q) => p == q,
            _ => false,
        },
        MalVal::Symbol(s) => match b {
            MalVal::Symbol(t) => string_eq(s, t),
            _ => false,
        },
        MalVal::Nil => match b {
            MalVal::Nil => true,
            _ => false,
        },
        MalVal::Fn(_, _) => match b {
            MalVal::Fn(_, _) => true,
            _ => false,
        },
        MalVal::Atom(_) => match b {
            MalVal::Atom(_) => true,
            _ => false,
        },
    }
}

/// Ghost counterpart of `MalError`.
pub enum GErr {
    Throw(GVal),
    Unbalance(Seq<char>),
    Continue,
    Other(Seq<char>),
}

/// The deep view of an error.
pub open spec fn v_err(e: MalError) -> GErr {
    match e {
        MalError::Throw(v) => GErr::Throw(v_val(v)),
        MalError::Unbalance(k) => GErr::Unbalance(k@),
        MalError::Continue => GErr::Continue,
        MalError::Other(m) => GErr::Other(m@),
    }
}

// ---------------------------------------------------------------------------
// Text conversions
// ---------------------------------------------------------------------------

/// Relies on str::chars: the characters of the string, in order.
#[verifier::external_body]
pub fn str_to_chars(s: &str) -> (r: Vec<char>)
    ensures
        r@ == s@,
{
    s.chars().collect()
}

/// Relies on the FromIterator impl of String: the string of these characters.
#[verifier::external_body]
pub fn chars_to_string(v: &Vec<char>) -> (r: String)
    ensures
        r@ == v@,
{
    v.iter().collect()
}

} // verus!
