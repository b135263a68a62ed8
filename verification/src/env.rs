//! Nested symbol-to-value environments. Frames live in one arena and refer to
//! their outer frame by index, every outer index pointing strictly downwards;
//! a frame's bindings are an append-only row of symbol/value pairs whose
//! meaning is the map that the later entries win.
use vstd::prelude::*;

use crate::types::{lemma_v_seq, v_seq, v_val, GVal, MalError, MalVal};

verus! {

/// One scope: a local binding table and an optional outer scope.
pub struct Frame {
    pub outer: Option<usize>,
    pub data: Vec<(String, MalVal)>,
}

/// The arena of all frames. Frame 0 is the top level.
pub struct Env {
    pub frames: Vec<Frame>,
}

/// Ghost counterpart of a frame: the binding map it denotes.
pub struct GFrame {
    pub outer: Option<nat>,
    pub table: Map<Seq<char>, GVal>,
}

/// The map denoted by a binding row: later entries shadow earlier ones.
pub open spec fn table_view(s: Seq<(String, MalVal)>) -> Map<Seq<char>, GVal>
    decreases s.len(),
{
    if s.len() == 0 {
        Map::empty()
    } else {
        table_view(s.drop_last()).insert(s.last().0@, v_val(s.last().1))
    }
}

/// The value of the last entry of `s` bound to `k`, if any.
pub open spec fn row_lookup(s: Seq<(String, MalVal)>, k: Seq<char>) -> Option<GVal>
    decreases s.len(),
{
    if s.len() == 0 {
        Option::None
    } else if s.last().0@ == k {
        Option::Some(v_val(s.last().1))
    } else {
        row_lookup(s.drop_last(), k)
    }
}

pub open spec fn v_frame(f: Frame) -> GFrame {
    GFrame {
        outer: match f.outer {
            Option::None => Option::None,
            Option::Some(o) => Option::Some(o as nat),
        },
        table: table_view(f.data@),
    }
}

impl View for Env {
    type V = Seq<GFrame>;

    open spec fn view(&self) -> Seq<GFrame> {
        Seq::new(self.frames@.len(), |i: int| v_frame(self.frames@[i]))
    }
}

/// Every outer reference points to an earlier frame, so chains terminate.
pub open spec fn env_wf(fs: Seq<GFrame>) -> bool {
    forall|i: int|
        0 <= i < fs.len() ==> match (#[trigger] fs[i]).outer {
            Option::Some(o) => o < i,
            Option::None => true,
        }
}

/// The binding a symbol denotes at frame `f`: the innermost frame of the
/// chain that binds it, consulted local-first.
pub open spec fn lookup(fs: Seq<GFrame>, f: int, sym: Seq<char>) -> Option<GVal>
    decreases f,
{
    if f < 0 || f >= fs.len() {
        Option::None
    } else if fs[f].table.contains_key(sym) {
        Option::Some(fs[f].table[sym])
    } else {
        match fs[f].outer {
            Option::Some(o) => {
                if o < f {
                    lookup(fs, o as int, sym)
                } else {
                    Option::None
                }
            },
            Option::None => Option::None,
        }
    }
}

/// `row_lookup` is exactly lookup in the denoted map.
proof fn lemma_row_table(s: Seq<(String, MalVal)>, k: Seq<char>)
    ensures
        row_lookup(s, k) == (if table_view(s).contains_key(k) {
            Option::Some(table_view(s)[k])
        } else {
            Option::<GVal>::None
        }),
    decreases s.len(),
{
    if s.len() > 0 {
        lemma_row_table(s.drop_last(), k);
    }
}

/// What a frame sees depends only on the frames at or below it: growing the
/// arena above, or rebinding in higher frames, changes nothing it can name.
/// This is why a `let*` body cannot disturb the scope around it and why a
/// closure keeps seeing its captured scope unchanged.
pub proof fn lemma_lookup_depends_below(fs1: Seq<GFrame>, fs2: Seq<GFrame>, f: int, sym: Seq<char>)
    requires
        0 <= f < fs1.len(),
        f < fs2.len(),
        forall|i: int| 0 <= i <= f ==> fs1[i] == fs2[i],
    ensures
        lookup(fs1, f, sym) == lookup(fs2, f, sym),
    decreases f,
{
    if !fs1[f].table.contains_key(sym) {
        match fs1[f].outer {
            Option::Some(o) => {
                if o < f {
                    lemma_lookup_depends_below(fs1, fs2, o as int, sym);
                }
            },
            Option::None => {},
        }
    }
}

impl Env {
    /// A fresh environment: one top-level frame with no bindings.
    pub fn new() -> (e: Env)
        ensures
            e@.len() == 1,
            e@[0].outer is None,
            e@[0].table == Map::<Seq<char>, GVal>::empty(),
    {
        let mut frames: Vec<Frame> = Vec::new();
        frames.push(Frame { outer: Option::None, data: Vec::new() });
        let e = Env { frames };
        proof {
            assert(e@[0].table =~= Map::<Seq<char>, GVal>::empty());
        }
        e
    }

    /// A fresh frame whose outer scope is `outer`; returns its index.
    pub fn push_frame(&mut self, outer: usize) -> (f: usize)
        requires
            outer < old(self)@.len(),
        ensures
            f == old(self)@.len(),
            final(self)@.len() == old(self)@.len() + 1,
            forall|i: int| 0 <= i < old(self)@.len() ==> final(self)@[i] == old(self)@[i],
            final(self)@[f as int].outer == Option::Some(outer as nat),
            final(self)@[f as int].table == Map::<Seq<char>, GVal>::empty(),
    {
        let f = self.frames.len();
        self.frames.push(Frame { outer: Option::Some(outer), data: Vec::new() });
        proof {
            assert forall|i: int| 0 <= i < old(self)@.len() implies final(self)@[i] == old(
                self,
            )@[i] by {}
        }
        f
    }

    /// Bind `symbol` to `value` in frame `f`, shadowing any previous binding.
    pub fn set(&mut self, f: usize, symbol: String, value: MalVal)
        requires
            f < old(self)@.len(),
        ensures
            final(self)@.len() == old(self)@.len(),
            forall|i: int|
                0 <= i < old(self)@.len() && i != f ==> final(self)@[i] == old(self)@[i],
            final(self)@[f as int].outer == old(self)@[f as int].outer,
            final(self)@[f as int].table == old(self)@[f as int].table.insert(symbol@, value@),
    {
        let ghost sym = symbol@;
        let ghost gv = value@;
        let fr = &mut self.frames[f];
        fr.data.push((symbol, value));
        proof {
            assert(self.frames@[f as int].data@.drop_last() =~= old(self).frames@[f as int].data@);
            assert forall|i: int|
                0 <= i < old(self)@.len() && i != f implies final(self)@[i] == old(
                self,
            )@[i] by {}
        }
    }

    /// The innermost binding of `sym` visible from frame `f`, or `None`.
    pub fn get(&self, f: usize, sym: &String) -> (r: Option<MalVal>)
        requires
            f < self@.len(),
            env_wf(self@),
        ensures
            match r {
                Option::Some(v) => lookup(self@, f as int, sym@) == Option::Some(v@),
                Option::None => lookup(self@, f as int, sym@) is None,
            },
    {
        let mut cur = f;
        loop
            invariant
                cur < self@.len(),
                env_wf(self@),
                lookup(self@, f as int, sym@) == lookup(self@, cur as int, sym@),
            decreases cur,
        {
            let fr = &self.frames[cur];
            let mut i = fr.data.len();
            let ghost row = fr.data@;
            proof {
                assert(row.take(row.len() as int) =~= row);
            }
            while i > 0
                invariant
                    i <= row.len(),
                    row == fr.data@,
                    cur < self@.len(),
                    row == self.frames@[cur as int].data@,
                    lookup(self@, f as int, sym@) == lookup(self@, cur as int, sym@),
                    row_lookup(row, sym@) == row_lookup(row.take(i as int), sym@),
                decreases i,
            {
                i -= 1;
                let e = &fr.data[i];
                if crate::types::string_eq(&e.0, sym) {
                    proof {
                        assert(row.take(i as int + 1).last() == row[i as int]);
                        lemma_row_table(row, sym@);
                    }
                    return Option::Some(e.1.duplicate());
                }
                proof {
                    assert(row.take(i as int + 1).drop_last() =~= row.take(i as int));
                }
            }
            proof {
                assert(row.take(0) =~= Seq::<(String, MalVal)>::empty());
                lemma_row_table(row, sym@);
            }
            match fr.outer {
                Option::Some(o) => {
                    cur = o;
                },
                Option::None => {
                    return Option::None;
                },
            }
        }
    }
}

/// The variadic marker in a parameter list.
pub open spec fn amp() -> Seq<char> {
    seq!['&']
}

/// What binding a parameter list to an argument list does to a table, walking
/// the names from position `i`: each name takes the argument at its position;
/// the name after a `&` takes the remaining arguments as one fresh list and
/// binding stops. `None` when the arguments run short of the positional names
/// or a `&` has no name after it.
pub open spec fn bind_model(
    t: Map<Seq<char>, GVal>,
    binds: Seq<Seq<char>>,
    exprs: Seq<GVal>,
    i: int,
) -> Option<Map<Seq<char>, GVal>>
    decreases binds.len() - i,
{
    if i < 0 || i >= binds.len() {
        Option::Some(t)
    } else if binds[i] == amp() {
        if i + 1 < binds.len() {
            Option::Some(t.insert(binds[i + 1], GVal::List(exprs.skip(i), Option::None)))
        } else {
            Option::None
        }
    } else if i < exprs.len() {
        bind_model(t.insert(binds[i], exprs[i]), binds, exprs, i + 1)
    } else {
        Option::None
    }
}

/// Whether a parameter name is the variadic marker `&`.
fn is_amp(s: &String) -> (r: bool)
    ensures
        r == (s@ == amp()),
{
    let n = s.as_str().unicode_len();
    if n != 1 {
        proof {
            assert(s@ != amp());
        }
        return false;
    }
    let c = s.as_str().get_char(0);
    proof {
        if c == '&' {
            assert(s@ =~= amp());
        } else {
            assert(s@ != amp());
        }
    }
    c == '&'
}

impl Env {
    /// Populate frame `f` from a parameter-name list and an argument list,
    /// honouring the `&` variadic marker, exactly as `bind_model` says.
    pub fn bind_expr(&mut self, f: usize, binds: &Vec<String>, exprs: &Vec<MalVal>) -> (r: Result<
        (),
        MalError,
    >)
        requires
            f < old(self)@.len(),
        ensures
            final(self)@.len() == old(self)@.len(),
            forall|i: int|
                0 <= i < old(self)@.len() && i != f ==> final(self)@[i] == old(self)@[i],
            final(self)@[f as int].outer == old(self)@[f as int].outer,
            r is Ok <==> bind_model(
                old(self)@[f as int].table,
                binds.deep_view(),
                v_seq(exprs@),
                0,
            ) is Some,
            r is Ok ==> Option::Some(final(self)@[f as int].table) == bind_model(
                old(self)@[f as int].table,
                binds.deep_view(),
                v_seq(exprs@),
                0,
            ),
            forall|k: Seq<char>|
                #[trigger] final(self)@[f as int].table.contains_key(k) ==> (old(
                    self,
                )@[f as int].table.contains_key(k) && final(self)@[f as int].table[k] == old(
                    self,
                )@[f as int].table[k]) || (exists|j: int|
                    0 <= j < exprs@.len() && final(self)@[f as int].table[k] == v_seq(exprs@)[j])
                    || (exists|j: int|
                    0 <= j <= exprs@.len() && final(self)@[f as int].table[k] == GVal::List(
                        v_seq(exprs@).skip(j),
                        Option::None,
                    )),
    {
        let ghost t0 = old(self)@[f as int].table;
        let ghost gb = binds.deep_view();
        let ghost ge = v_seq(exprs@);
        proof {
            lemma_v_seq(exprs@);
        }
        let mut i: usize = 0;
        while i < binds.len()
            invariant
                i <= binds@.len(),
                i <= exprs@.len(),
                f < self@.len(),
                self@.len() == old(self)@.len(),
                gb == binds.deep_view(),
                ge == v_seq(exprs@),
                ge.len() == exprs@.len(),
                t0 == old(self)@[f as int].table,
                forall|j: int|
                    0 <= j < old(self)@.len() && j != f ==> self@[j] == old(self)@[j],
                self@[f as int].outer == old(self)@[f as int].outer,
                bind_model(t0, gb, ge, 0) == bind_model(self@[f as int].table, gb, ge, i as int),
                forall|k: Seq<char>|
                    #[trigger] self@[f as int].table.contains_key(k) ==> (t0.contains_key(k)
                        && self@[f as int].table[k] == t0[k]) || (exists|j: int|
                        0 <= j < exprs@.len() && self@[f as int].table[k] == v_seq(exprs@)[j]) || (
                    exists|j: int|
                        0 <= j <= exprs@.len() && self@[f as int].table[k] == GVal::List(
                            v_seq(exprs@).skip(j),
                            Option::None,
                        )),
            decreases binds@.len() - i,
        {
            proof {
                lemma_v_seq(exprs@);
            }
            if is_amp(&binds[i]) {
                if i + 1 < binds.len() {
                    let mut rest: Vec<MalVal> = Vec::new();
                    let mut j: usize = i;
                    while j < exprs.len()
                        invariant
                            i <= j <= exprs@.len(),
                            rest@.len() == j - i,
                            forall|m: int|
                                0 <= m < j - i ==> v_val(#[trigger] rest@[m]) == v_val(
                                    exprs@[i + m],
                                ),
                        decreases exprs@.len() - j,
                    {
                        rest.push(exprs[j].duplicate());
                        j += 1;
                    }
                    proof {
                        lemma_v_seq(rest@);
                        lemma_v_seq(exprs@);
                        assert(v_seq(rest@) =~= v_seq(exprs@).skip(i as int));
                    }
                    let name = binds[i + 1].clone();
                    self.set(f, name, MalVal::List(rest, Option::None));
                    return Result::Ok(());
                } else {
                    return Result::Err(
                        MalError::Other(String::from_str("missing name after & in parameter list")),
                    );
                }
            } else {
                if i < exprs.len() {
                    let name = binds[i].clone();
                    self.set(f, name, exprs[i].duplicate());
                    i += 1;
                } else {
                    return Result::Err(
                        MalError::Other(String::from_str("too few arguments for parameter list")),
                    );
                }
            }
        }
        Result::Ok(())
    }
}

} // verus!
