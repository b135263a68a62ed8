//! The built-in function library: each primitive takes the evaluated argument
//! vector and returns a value or an error, exactly as its contract says.
//! Primitives that touch the interpreter's state (atoms, output, re-entering
//! the evaluator) live with the evaluator instead.
use vstd::prelude::*;

use crate::reader::{to_key, upsert, upsert_exec};
use crate::types::{
    lemma_v_pairs, lemma_v_seq, v_err, v_pairs, v_seq, v_val, GErr, GKey, GVal, Hashable,
    MalError, MalResult, MalVal,
};

verus! {

/// The error text for a primitive applied to the wrong arguments.
pub open spec fn txt_args() -> Seq<char> {
    "wrong arguments to a primitive"@
}

/// The error text for arithmetic leaving the 64-bit range.
pub open spec fn txt_overflow() -> Seq<char> {
    "integer overflow"@
}

/// The error text for division by zero.
pub open spec fn txt_div_zero() -> Seq<char> {
    "divide by zero"@
}

/// The result is a value whose view is `g`.
pub open spec fn is_ok_with(r: MalResult, g: GVal) -> bool {
    r matches Result::Ok(v) && v_val(v) == g
}

/// The result is the error `ge`.
pub open spec fn is_err(r: MalResult, ge: GErr) -> bool {
    r matches Result::Err(e) && v_err(e) == ge
}

/// Whether the arguments are exactly two integers.
pub open spec fn two_ints(args: Seq<MalVal>) -> bool {
    args.len() == 2 && v_val(args[0]) is Integer && v_val(args[1]) is Integer
}

pub open spec fn arg_int(args: Seq<MalVal>, i: int) -> int {
    v_val(args[i])->Integer_0
}

fn err_args() -> (r: MalResult)
    ensures
        is_err(r, GErr::Other(txt_args())),
{
    Result::Err(MalError::Other(String::from_str("wrong arguments to a primitive")))
}

fn err_overflow() -> (r: MalResult)
    ensures
        is_err(r, GErr::Other(txt_overflow())),
{
    Result::Err(MalError::Other(String::from_str("integer overflow")))
}

/// Fetch the two integer operands, if that is what the arguments are.
fn get_two_ints(args: &Vec<MalVal>) -> (r: Option<(i64, i64)>)
    ensures
        match r {
            Option::Some((a, b)) => two_ints(args@) && a as int == arg_int(args@, 0) && b as int
                == arg_int(args@, 1),
            Option::None => !two_ints(args@),
        },
{
    if args.len() != 2 {
        return Option::None;
    }
    let a = match &args[0] {
        MalVal::Integer(x) => *x,
        _ => {
            return Option::None;
        },
    };
    let b = match &args[1] {
        MalVal::Integer(x) => *x,
        _ => {
            return Option::None;
        },
    };
    Option::Some((a, b))
}

/// `+`: the sum of two integers; overflow is an error.
pub fn add(args: &Vec<MalVal>) -> (r: MalResult)
    ensures
        two_ints(args@) && i64::MIN <= arg_int(args@, 0) + arg_int(args@, 1) <= i64::MAX ==> is_ok_with(r, GVal::Integer(arg_int(args@, 0) + arg_int(args@, 1))),
        two_ints(args@) && !(i64::MIN <= arg_int(args@, 0) + arg_int(args@, 1) <= i64::MAX) ==> is_err(r, GErr::Other(txt_overflow())),
        !two_ints(args@) ==> is_err(r, GErr::Other(txt_args())),
{
    match get_two_ints(args) {
        Option::Some((a, b)) => match a.checked_add(b) {
            Option::Some(s) => Result::Ok(MalVal::Integer(s)),
            Option::None => err_overflow(),
        },
        Option::None => err_args(),
    }
}

/// `-`: the difference of two integers; overflow is an error.
pub fn sub(args: &Vec<MalVal>) -> (r: MalResult)
    ensures
        two_ints(args@) && i64::MIN <= arg_int(args@, 0) - arg_int(args@, 1) <= i64::MAX ==> is_ok_with(r, GVal::Integer(arg_int(args@, 0) - arg_int(args@, 1))),
        two_ints(args@) && !(i64::MIN <= arg_int(args@, 0) - arg_int(args@, 1) <= i64::MAX) ==> is_err(r, GErr::Other(txt_overflow())),
        !two_ints(args@) ==> is_err(r, GErr::Other(txt_args())),
{
    match get_two_ints(args) {
        Option::Some((a, b)) => match a.checked_sub(b) {
            Option::Some(s) => Result::Ok(MalVal::Integer(s)),
            Option::None => err_overflow(),
        },
        Option::None => err_args(),
    }
}

/// `*`: the product of two integers; overflow is an error.
pub fn mul(args: &Vec<MalVal>) -> (r: MalResult)
    ensures
        two_ints(args@) && i64::MIN <= arg_int(args@, 0) * arg_int(args@, 1) <= i64::MAX ==> is_ok_with(r, GVal::Integer(arg_int(args@, 0) * arg_int(args@, 1))),
        two_ints(args@) && !(i64::MIN <= arg_int(args@, 0) * arg_int(args@, 1) <= i64::MAX) ==> is_err(r, GErr::Other(txt_overflow())),
        !two_ints(args@) ==> is_err(r, GErr::Other(txt_args())),
{
    match get_two_ints(args) {
        Option::Some((a, b)) => match a.checked_mul(b) {
            Option::Some(s) => Result::Ok(MalVal::Integer(s)),
            Option::None => err_overflow(),
        },
        Option::None => err_args(),
    }
}

/// The quotient of two integers, truncated toward zero.
pub open spec fn tdiv(a: int, b: int) -> int {
    let m = (if a < 0 {
        -a
    } else {
        a
    }) / (if b < 0 {
        -b
    } else {
        b
    });
    if (a < 0) == (b < 0) {
        m
    } else {
        -m
    }
}

/// `/`: the quotient of two integers, truncated toward zero; division by
/// zero and overflow are errors.
pub fn div(args: &Vec<MalVal>) -> (r: MalResult)
    ensures
        two_ints(args@) && arg_int(args@, 1) != 0 && i64::MIN <= tdiv(
            arg_int(args@, 0),
            arg_int(args@, 1),
        ) <= i64::MAX ==> is_ok_with(r, GVal::Integer( tdiv(arg_int(args@, 0), arg_int(args@, 1))),
        ),
        two_ints(args@) && arg_int(args@, 1) == 0 ==> is_err(r, GErr::Other(txt_div_zero())),
        two_ints(args@) && arg_int(args@, 1) != 0 && !(i64::MIN <= tdiv(
            arg_int(args@, 0),
            arg_int(args@, 1),
        ) <= i64::MAX) ==> is_err(r, GErr::Other(txt_overflow())),
        !two_ints(args@) ==> is_err(r, GErr::Other(txt_args())),
{
    match get_two_ints(args) {
        Option::Some((a, b)) => {
            if b == 0 {
                Result::Err(MalError::Other(String::from_str("divide by zero")))
            } else {
                let ma: u64 = if a >= 0 {
                    a as u64
                } else {
                    ((-(a + 1)) as u64) + 1
                };
                let mb: u64 = if b >= 0 {
                    b as u64
                } else {
                    ((-(b + 1)) as u64) + 1
                };
                let m = ma / mb;
                if (a < 0) == (b < 0) {
                    if m <= 0x7fff_ffff_ffff_ffffu64 {
                        Result::Ok(MalVal::Integer(m as i64))
                    } else {
                        err_overflow()
                    }
                } else {
                    let q: i64 = if m == 0x8000_0000_0000_0000u64 {
                        i64::MIN
                    } else if m <= 0x7fff_ffff_ffff_ffffu64 {
                        -(m as i64)
                    } else {
                        return err_overflow();
                    };
                    Result::Ok(MalVal::Integer(q))
                }
            }
        },
        Option::None => err_args(),
    }
}

/// `<` on two integers.
pub fn lt(args: &Vec<MalVal>) -> (r: MalResult)
    ensures
        two_ints(args@) ==> is_ok_with(r, GVal::Bool(arg_int(args@, 0) < arg_int(args@, 1))),
        !two_ints(args@) ==> is_err(r, GErr::Other(txt_args())),
{
    match get_two_ints(args) {
        Option::Some((a, b)) => Result::Ok(MalVal::Bool(a < b)),
        Option::None => err_args(),
    }
}

/// `<=` on two integers.
pub fn lte(args: &Vec<MalVal>) -> (r: MalResult)
    ensures
        two_ints(args@) ==> is_ok_with(r, GVal::Bool(arg_int(args@, 0) <= arg_int(args@, 1))),
        !two_ints(args@) ==> is_err(r, GErr::Other(txt_args())),
{
    match get_two_ints(args) {
        Option::Some((a, b)) => Result::Ok(MalVal::Bool(a <= b)),
        Option::None => err_args(),
    }
}

/// `>` on two integers.
pub fn gt(args: &Vec<MalVal>) -> (r: MalResult)
    ensures
        two_ints(args@) ==> is_ok_with(r, GVal::Bool(arg_int(args@, 0) > arg_int(args@, 1))),
        !two_ints(args@) ==> is_err(r, GErr::Other(txt_args())),
{
    match get_two_ints(args) {
        Option::Some((a, b)) => Result::Ok(MalVal::Bool(a > b)),
        Option::None => err_args(),
    }
}

/// `>=` on two integers.
pub fn gte(args: &Vec<MalVal>) -> (r: MalResult)
    ensures
        two_ints(args@) ==> is_ok_with(r, GVal::Bool(arg_int(args@, 0) >= arg_int(args@, 1))),
        !two_ints(args@) ==> is_err(r, GErr::Other(txt_args())),
{
    match get_two_ints(args) {
        Option::Some((a, b)) => Result::Ok(MalVal::Bool(a >= b)),
        Option::None => err_args(),
    }
}

/// `=`: the language's structural equality of the first two arguments.
pub fn eq(args: &Vec<MalVal>) -> (r: MalResult)
    ensures
        args@.len() >= 2 ==> is_ok_with(
            r,
            GVal::Bool(crate::types::val_eq(v_val(args@[0]), v_val(args@[1]))),
        ),
        args@.len() < 2 ==> is_err(r, GErr::Other(txt_args())),
{
    if args.len() < 2 {
        return err_args();
    }
    Result::Ok(MalVal::Bool(crate::types::eq_val(&args[0], &args[1])))
}

// ---------------------------------------------------------------------------
// Sequences
// ---------------------------------------------------------------------------

/// All but the first element; the empty sequence stays empty.
pub open spec fn rest_of(es: Seq<GVal>) -> Seq<GVal> {
    if es.len() == 0 {
        Seq::empty()
    } else {
        es.skip(1)
    }
}

/// The elements of a list or vector, if the value is one.
pub open spec fn seq_of(v: GVal) -> Option<Seq<GVal>> {
    match v {
        GVal::List(es, _) => Option::Some(es),
        GVal::Vector(es, _) => Option::Some(es),
        _ => Option::None,
    }
}

/// Borrow the elements of a list or vector argument.
pub(crate) fn elems_of(v: &MalVal) -> (r: Option<&Vec<MalVal>>)
    ensures
        match r {
            Option::Some(es) => seq_of(v@) == Option::Some(v_seq(es@)),
            Option::None => seq_of(v@) is None,
        },
{
    match v {
        MalVal::List(es, _) => Option::Some(es),
        MalVal::Vector(es, _) => Option::Some(es),
        _ => Option::None,
    }
}

/// `list`: a fresh list of the arguments.
pub fn list(args: Vec<MalVal>) -> (r: MalResult)
    ensures
        is_ok_with(r, GVal::List(v_seq(args@), Option::None)),
{
    Result::Ok(MalVal::List(args, Option::None))
}

/// `vector`: a fresh vector of the arguments.
pub fn vector(args: Vec<MalVal>) -> (r: MalResult)
    ensures
        is_ok_with(r, GVal::Vector(v_seq(args@), Option::None)),
{
    Result::Ok(MalVal::Vector(args, Option::None))
}

/// `list?`: whether the first argument is a list.
pub fn is_list(args: &Vec<MalVal>) -> (r: MalResult)
    ensures
        args@.len() >= 1 ==> is_ok_with(r, GVal::Bool(v_val(args@[0]) is List)),
        args@.len() == 0 ==> is_err(r, GErr::Other(txt_args())),
{
    if args.len() == 0 {
        return err_args();
    }
    match &args[0] {
        MalVal::List(_, _) => Result::Ok(MalVal::Bool(true)),
        _ => Result::Ok(MalVal::Bool(false)),
    }
}

/// `empty?`: whether the first argument, a list or vector, has no elements.
pub fn is_empty(args: &Vec<MalVal>) -> (r: MalResult)
    ensures
        args@.len() >= 1 ==> (seq_of(v_val(args@[0])) matches Option::Some(es) ==> is_ok_with(
            r,
            GVal::Bool(es.len() == 0),
        )),
        args@.len() == 0 || seq_of(v_val(args@[0])) is None ==> is_err(
            r,
            GErr::Other(txt_args()),
        ),
{
    if args.len() == 0 {
        return err_args();
    }
    match elems_of(&args[0]) {
        Option::Some(es) => {
            proof {
                lemma_v_seq(es@);
            }
            Result::Ok(MalVal::Bool(es.len() == 0))
        },
        Option::None => err_args(),
    }
}

/// `count`: the number of elements of a list or vector; 0 for anything else.
pub fn count(args: &Vec<MalVal>) -> (r: MalResult)
    ensures
        args@.len() >= 1 ==> (seq_of(v_val(args@[0])) matches Option::Some(es) ==> (es.len()
            <= i64::MAX ==> is_ok_with(r, GVal::Integer(es.len() as int)))),
        args@.len() >= 1 ==> (seq_of(v_val(args@[0])) matches Option::Some(es) ==> (es.len()
            > i64::MAX ==> is_err(r, GErr::Other(txt_overflow())))),
        args@.len() >= 1 && seq_of(v_val(args@[0])) is None ==> is_ok_with(r, GVal::Integer(0)),
        args@.len() == 0 ==> is_err(r, GErr::Other(txt_args())),
{
    if args.len() == 0 {
        return err_args();
    }
    match elems_of(&args[0]) {
        Option::Some(es) => {
            proof {
                lemma_v_seq(es@);
            }
            let n = es.len();
            if (n as u64) <= 0x7fff_ffff_ffff_ffffu64 {
                Result::Ok(MalVal::Integer(n as i64))
            } else {
                err_overflow()
            }
        },
        Option::None => Result::Ok(MalVal::Integer(0)),
    }
}

/// `cons`: a fresh list of the first argument followed by the elements of the
/// second.
pub fn cons(args: &Vec<MalVal>) -> (r: MalResult)
    ensures
        args@.len() >= 2 ==> (seq_of(v_val(args@[1])) matches Option::Some(es) ==> is_ok_with(
            r,
            GVal::List(seq![v_val(args@[0])] + es, Option::None),
        )),
        args@.len() < 2 || seq_of(v_val(args@[1])) is None ==> is_err(
            r,
            GErr::Other(txt_args()),
        ),
{
    if args.len() < 2 {
        return err_args();
    }
    match elems_of(&args[1]) {
        Option::None => err_args(),
        Option::Some(es) => {
            let mut out: Vec<MalVal> = Vec::new();
            out.push(args[0].duplicate());
            let mut i: usize = 0;
            while i < es.len()
                invariant
                    i <= es@.len(),
                    out@.len() == i + 1,
                    v_val(out@[0]) == v_val(args@[0]),
                    forall|j: int| 0 <= j < i ==> v_val(out@[j + 1]) == v_val(es@[j]),
                decreases es@.len() - i,
            {
                out.push(es[i].duplicate());
                i += 1;
            }
            proof {
                lemma_v_seq(out@);
                lemma_v_seq(es@);
                assert(v_seq(out@) =~= seq![v_val(args@[0])] + v_seq(es@));
            }
            Result::Ok(MalVal::List(out, Option::None))
        },
    }
}

/// The concatenation of the elements of the arguments, all lists or vectors.
pub open spec fn concat_all(args: Seq<MalVal>, i: int) -> Option<Seq<GVal>>
    decreases args.len() - i,
{
    if i < 0 || i >= args.len() {
        Option::Some(Seq::empty())
    } else {
        match seq_of(v_val(args[i])) {
            Option::Some(es) => match concat_all(args, i + 1) {
                Option::Some(rest) => Option::Some(es + rest),
                Option::None => Option::None,
            },
            Option::None => Option::None,
        }
    }
}

/// `concat`: one fresh list of all the arguments' elements, in order.
pub fn concat(args: &Vec<MalVal>) -> (r: MalResult)
    ensures
        concat_all(args@, 0) matches Option::Some(es) ==> is_ok_with(
            r,
            GVal::List(es, Option::None),
        ),
        concat_all(args@, 0) is None ==> is_err(r, GErr::Other(txt_args())),
{
    let mut out: Vec<MalVal> = Vec::new();
    let mut i: usize = 0;
    while i < args.len()
        invariant
            i <= args@.len(),
            match concat_all(args@, i as int) {
                Option::Some(rest) => concat_all(args@, 0) == Option::Some(v_seq(out@) + rest),
                Option::None => concat_all(args@, 0) is None,
            },
        decreases args@.len() - i,
    {
        match elems_of(&args[i]) {
            Option::None => {
                return err_args();
            },
            Option::Some(es) => {
                let ghost pre = v_seq(out@);
                proof {
                    lemma_v_seq(out@);
                    lemma_v_seq(es@);
                    assert(pre + v_seq(es@).take(0) =~= pre);
                }
                let mut j: usize = 0;
                while j < es.len()
                    invariant
                        j <= es@.len(),
                        out@.len() == pre.len() + j,
                        v_seq(out@) == pre + v_seq(es@).take(j as int),
                    decreases es@.len() - j,
                {
                    proof {
                        lemma_v_seq(out@);
                        lemma_v_seq(es@);
                    }
                    let ghost preout = out@;
                    out.push(es[j].duplicate());
                    proof {
                        lemma_v_seq(out@);
                        lemma_v_seq(es@);
                        assert(out@.len() == preout.len() + 1);
                        assert(v_seq(out@).len() == pre.len() + j + 1);
                        assert(forall|k: int|
                            0 <= k < preout.len() ==> out@[k] == preout[k] && v_seq(out@)[k]
                                == v_seq(preout)[k]);
                        assert(v_seq(out@)[preout.len() as int] == v_val(es@[j as int]));
                        assert(v_seq(out@) =~= pre + v_seq(es@).take(j as int + 1));
                    }
                    j += 1;
                }
                proof {
                    lemma_v_seq(es@);
                    assert(v_seq(es@).take(es@.len() as int) =~= v_seq(es@));
                    assert((pre + v_seq(es@)) + (match concat_all(args@, i as int + 1) {
                        Option::Some(rest) => rest,
                        Option::None => Seq::empty(),
                    }) =~= pre + (v_seq(es@) + (match concat_all(args@, i as int + 1) {
                        Option::Some(rest) => rest,
                        Option::None => Seq::empty(),
                    })));
                }
                i += 1;
            },
        }
    }
    proof {
        assert(v_seq(out@) + Seq::<GVal>::empty() =~= v_seq(out@));
    }
    Result::Ok(MalVal::List(out, Option::None))
}

/// `vec`: the same elements as a vector; a vector passes through.
pub fn vec(args: &Vec<MalVal>) -> (r: MalResult)
    ensures
        args@.len() >= 1 ==> (v_val(args@[0]) matches GVal::List(es, _) ==> is_ok_with(
            r,
            GVal::Vector(es, Option::None),
        )),
        args@.len() >= 1 ==> (v_val(args@[0]) is Vector ==> is_ok_with(r, v_val(args@[0]))),
        args@.len() == 0 || seq_of(v_val(args@[0])) is None ==> is_err(
            r,
            GErr::Other(txt_args()),
        ),
{
    if args.len() == 0 {
        return err_args();
    }
    match &args[0] {
        MalVal::Vector(_, _) => Result::Ok(args[0].duplicate()),
        MalVal::List(es, _) => {
            let out = crate::types::dup_vec(es);
            Result::Ok(MalVal::Vector(out, Option::None))
        },
        _ => err_args(),
    }
}

pub open spec fn txt_out_of_bounds() -> Seq<char> {
    "out of bounds"@
}

/// `nth`: the element at an integer index; an index outside the sequence
/// raises a `Throw` of the string `out of bounds`.
pub fn nth(args: &Vec<MalVal>) -> (r: MalResult)
    ensures
        args@.len() >= 2 ==> (seq_of(v_val(args@[0])) matches Option::Some(es) ==> (v_val(
            args@[1],
        ) matches GVal::Integer(i) ==> (if 0 <= i < es.len() {
            is_ok_with(r, es[i])
        } else {
            is_err(r, GErr::Throw(GVal::Str(txt_out_of_bounds())))
        }))),
        args@.len() < 2 || seq_of(v_val(args@[0])) is None || !(v_val(args@[1]) is Integer)
            ==> is_err(r, GErr::Other(txt_args())),
{
    if args.len() < 2 {
        return err_args();
    }
    let i = match &args[1] {
        MalVal::Integer(i) => *i,
        _ => {
            return err_args();
        },
    };
    match elems_of(&args[0]) {
        Option::None => err_args(),
        Option::Some(es) => {
            proof {
                lemma_v_seq(es@);
            }
            if 0 <= i && (i as u64) < (es.len() as u64) {
                Result::Ok(es[i as usize].duplicate())
            } else {
                Result::Err(MalError::Throw(MalVal::String(String::from_str("out of bounds"))))
            }
        },
    }
}

/// `first`: the first element of a list or vector, `nil` when it is empty or
/// the argument is `nil`.
pub fn first(args: &Vec<MalVal>) -> (r: MalResult)
    ensures
        args@.len() >= 1 ==> (seq_of(v_val(args@[0])) matches Option::Some(es) ==> is_ok_with(
            r,
            (if es.len() > 0 {
                es[0]
            } else {
                GVal::Nil
            }),
        )),
        args@.len() >= 1 && v_val(args@[0]) is Nil ==> is_ok_with(r, GVal::Nil),
        args@.len() == 0 || !(seq_of(v_val(args@[0])) is Some || v_val(args@[0]) is Nil)
            ==> is_err(r, GErr::Other(txt_args())),
{
    if args.len() == 0 {
        return err_args();
    }
    match &args[0] {
        MalVal::Nil => Result::Ok(MalVal::Nil),
        _ => match elems_of(&args[0]) {
            Option::None => err_args(),
            Option::Some(es) => {
                proof {
                    lemma_v_seq(es@);
                }
                if es.len() > 0 {
                    Result::Ok(es[0].duplicate())
                } else {
                    Result::Ok(MalVal::Nil)
                }
            },
        },
    }
}

/// `rest`: all but the first element, always as a list; `nil` gives the
/// empty list.
pub fn rest(args: &Vec<MalVal>) -> (r: MalResult)
    ensures
        args@.len() >= 1 ==> (seq_of(v_val(args@[0])) matches Option::Some(es) ==> is_ok_with(
            r,
            GVal::List(rest_of(es), Option::None),
        )),
        args@.len() >= 1 && v_val(args@[0]) is Nil ==> is_ok_with(
            r,
            GVal::List(Seq::empty(), Option::None),
        ),
        args@.len() == 0 || !(seq_of(v_val(args@[0])) is Some || v_val(args@[0]) is Nil)
            ==> is_err(r, GErr::Other(txt_args())),
{
    if args.len() == 0 {
        return err_args();
    }
    match &args[0] {
        MalVal::Nil => {
            let out: Vec<MalVal> = Vec::new();
            proof {
                lemma_v_seq(out@);
                assert(v_seq(out@) =~= Seq::<GVal>::empty());
            }
            Result::Ok(MalVal::List(out, Option::None))
        },
        _ => match elems_of(&args[0]) {
            Option::None => err_args(),
            Option::Some(es) => {
                let mut out: Vec<MalVal> = Vec::new();
                if es.len() == 0 {
                    proof {
                        lemma_v_seq(out@);
                        lemma_v_seq(es@);
                        assert(v_seq(out@) =~= rest_of(v_seq(es@)));
                    }
                    return Result::Ok(MalVal::List(out, Option::None));
                }
                let mut i: usize = 1;
                while i < es.len()
                    invariant
                        1 <= i <= es@.len(),
                        out@.len() == i - 1,
                        forall|j: int| 0 <= j < out@.len() ==> v_val(out@[j]) == v_val(es@[j + 1]),
                    decreases es@.len() - i,
                {
                    out.push(es[i].duplicate());
                    i += 1;
                }
                proof {
                    lemma_v_seq(out@);
                    lemma_v_seq(es@);
                    assert(v_seq(out@) =~= rest_of(v_seq(es@)));
                }
                Result::Ok(MalVal::List(out, Option::None))
            },
        },
    }
}

/// `throw`: raise the first argument as an exception.
pub fn throw(args: &Vec<MalVal>) -> (r: MalResult)
    ensures
        args@.len() >= 1 ==> is_err(r, GErr::Throw(v_val(args@[0]))),
        args@.len() == 0 ==> is_err(r, GErr::Other(txt_args())),
{
    if args.len() == 0 {
        return err_args();
    }
    Result::Err(MalError::Throw(args[0].duplicate()))
}

// ---------------------------------------------------------------------------
// Predicates and conversions
// ---------------------------------------------------------------------------

/// Whether a value counts as a function to `fn?`: any primitive, or a
/// closure that is not a macro.
pub open spec fn is_fn_val(v: GVal) -> bool {
    match v {
        GVal::Fn(f, _) => !(f matches crate::types::GFn::Closure { is_marco: true, .. }),
        _ => false,
    }
}

/// Whether a value is a macro.
pub open spec fn is_macro_val(v: GVal) -> bool {
    match v {
        GVal::Fn(f, _) => f matches crate::types::GFn::Closure { is_marco: true, .. },
        _ => false,
    }
}

/// One unary predicate primitive: `true` exactly when `holds` of the first
/// argument's view.
fn pred_result(holds: bool) -> (r: MalResult)
    ensures
        is_ok_with(r, GVal::Bool(holds)),
{
    Result::Ok(MalVal::Bool(holds))
}

/// `nil?`.
pub fn is_nil(args: &Vec<MalVal>) -> (r: MalResult)
    ensures
        args@.len() >= 1 ==> is_ok_with(r, GVal::Bool(v_val(args@[0]) is Nil)),
        args@.len() == 0 ==> is_err(r, GErr::Other(txt_args())),
{
    if args.len() == 0 {
        return err_args();
    }
    pred_result(matches!(&args[0], MalVal::Nil))
}

/// `true?`.
pub fn is_true(args: &Vec<MalVal>) -> (r: MalResult)
    ensures
        args@.len() >= 1 ==> is_ok_with(r, GVal::Bool(v_val(args@[0]) == GVal::Bool(true))),
        args@.len() == 0 ==> is_err(r, GErr::Other(txt_args())),
{
    if args.len() == 0 {
        return err_args();
    }
    pred_result(matches!(&args[0], MalVal::Bool(true)))
}

/// `false?`.
pub fn is_false(args: &Vec<MalVal>) -> (r: MalResult)
    ensures
        args@.len() >= 1 ==> is_ok_with(r, GVal::Bool(v_val(args@[0]) == GVal::Bool(false))),
        args@.len() == 0 ==> is_err(r, GErr::Other(txt_args())),
{
    if args.len() == 0 {
        return err_args();
    }
    pred_result(matches!(&args[0], MalVal::Bool(false)))
}

/// `symbol?`.
pub fn is_symbol(args: &Vec<MalVal>) -> (r: MalResult)
    ensures
        args@.len() >= 1 ==> is_ok_with(r, GVal::Bool(v_val(args@[0]) is Symbol)),
        args@.len() == 0 ==> is_err(r, GErr::Other(txt_args())),
{
    if args.len() == 0 {
        return err_args();
    }
    pred_result(matches!(&args[0], MalVal::Symbol(_)))
}

/// `keyword?`.
pub fn is_keyword(args: &Vec<MalVal>) -> (r: MalResult)
    ensures
        args@.len() >= 1 ==> is_ok_with(r, GVal::Bool(v_val(args@[0]) is Keyword)),
        args@.len() == 0 ==> is_err(r, GErr::Other(txt_args())),
{
    if args.len() == 0 {
        return err_args();
    }
    pred_result(matches!(&args[0], MalVal::Keyword(_)))
}

/// `vector?`.
pub fn is_vector(args: &Vec<MalVal>) -> (r: MalResult)
    ensures
        args@.len() >= 1 ==> is_ok_with(r, GVal::Bool(v_val(args@[0]) is Vector)),
        args@.len() == 0 ==> is_err(r, GErr::Other(txt_args())),
{
    if args.len() == 0 {
        return err_args();
    }
    pred_result(matches!(&args[0], MalVal::Vector(_, _)))
}

/// `sequential?`.
pub fn is_sequential(args: &Vec<MalVal>) -> (r: MalResult)
    ensures
        args@.len() >= 1 ==> is_ok_with(r, GVal::Bool(seq_of(v_val(args@[0])) is Some)),
        args@.len() == 0 ==> is_err(r, GErr::Other(txt_args())),
{
    if args.len() == 0 {
        return err_args();
    }
    pred_result(matches!(&args[0], MalVal::List(_, _) | MalVal::Vector(_, _)))
}

/// `map?`.
pub fn is_map(args: &Vec<MalVal>) -> (r: MalResult)
    ensures
        args@.len() >= 1 ==> is_ok_with(r, GVal::Bool(v_val(args@[0]) is HashMap)),
        args@.len() == 0 ==> is_err(r, GErr::Other(txt_args())),
{
    if args.len() == 0 {
        return err_args();
    }
    pred_result(matches!(&args[0], MalVal::HashMap(_, _)))
}

/// `string?`.
pub fn is_string(args: &Vec<MalVal>) -> (r: MalResult)
    ensures
        args@.len() >= 1 ==> is_ok_with(r, GVal::Bool(v_val(args@[0]) is Str)),
        args@.len() == 0 ==> is_err(r, GErr::Other(txt_args())),
{
    if args.len() == 0 {
        return err_args();
    }
    pred_result(matches!(&args[0], MalVal::String(_)))
}

/// `number?`.
pub fn is_number(args: &Vec<MalVal>) -> (r: MalResult)
    ensures
        args@.len() >= 1 ==> is_ok_with(r, GVal::Bool(v_val(args@[0]) is Integer)),
        args@.len() == 0 ==> is_err(r, GErr::Other(txt_args())),
{
    if args.len() == 0 {
        return err_args();
    }
    pred_result(matches!(&args[0], MalVal::Integer(_)))
}

/// `atom?`.
pub fn is_atom(args: &Vec<MalVal>) -> (r: MalResult)
    ensures
        args@.len() >= 1 ==> is_ok_with(r, GVal::Bool(v_val(args@[0]) is Atom)),
        args@.len() == 0 ==> is_err(r, GErr::Other(txt_args())),
{
    if args.len() == 0 {
        return err_args();
    }
    pred_result(matches!(&args[0], MalVal::Atom(_)))
}

/// `fn?`: functions and non-macro closures.
pub fn is_fn(args: &Vec<MalVal>) -> (r: MalResult)
    ensures
        args@.len() >= 1 ==> is_ok_with(r, GVal::Bool(is_fn_val(v_val(args@[0])))),
        args@.len() == 0 ==> is_err(r, GErr::Other(txt_args())),
{
    if args.len() == 0 {
        return err_args();
    }
    match &args[0] {
        MalVal::Fn(f, _) => match &**f {
            crate::types::MalFn::MalFunc(mf) => pred_result(!mf.is_marco),
            crate::types::MalFn::RegularFn(_) => pred_result(true),
        },
        _ => pred_result(false),
    }
}

/// `macro?`.
pub fn is_macro(args: &Vec<MalVal>) -> (r: MalResult)
    ensures
        args@.len() >= 1 ==> is_ok_with(r, GVal::Bool(is_macro_val(v_val(args@[0])))),
        args@.len() == 0 ==> is_err(r, GErr::Other(txt_args())),
{
    if args.len() == 0 {
        return err_args();
    }
    match &args[0] {
        MalVal::Fn(f, _) => match &**f {
            crate::types::MalFn::MalFunc(mf) => pred_result(mf.is_marco),
            crate::types::MalFn::RegularFn(_) => pred_result(false),
        },
        _ => pred_result(false),
    }
}

/// `symbol`: the symbol named by a string.
pub fn symbol(args: &Vec<MalVal>) -> (r: MalResult)
    ensures
        args@.len() >= 1 ==> (v_val(args@[0]) matches GVal::Str(t) ==> is_ok_with(
            r,
            GVal::Symbol(t),
        )),
        args@.len() == 0 || !(v_val(args@[0]) is Str) ==> is_err(r, GErr::Other(txt_args())),
{
    if args.len() == 0 {
        return err_args();
    }
    match &args[0] {
        MalVal::String(t) => Result::Ok(MalVal::Symbol(t.clone())),
        _ => err_args(),
    }
}

/// `keyword`: the keyword named by a string; a keyword passes through.
pub fn keyword(args: &Vec<MalVal>) -> (r: MalResult)
    ensures
        args@.len() >= 1 ==> (v_val(args@[0]) matches GVal::Str(t) ==> is_ok_with(
            r,
            GVal::Keyword(t),
        )),
        args@.len() >= 1 ==> (v_val(args@[0]) matches GVal::Keyword(t) ==> is_ok_with(
            r,
            GVal::Keyword(t),
        )),
        args@.len() == 0 || !(v_val(args@[0]) is Str || v_val(args@[0]) is Keyword) ==> is_err(
            r,
            GErr::Other(txt_args()),
        ),
{
    if args.len() == 0 {
        return err_args();
    }
    match &args[0] {
        MalVal::String(t) => Result::Ok(MalVal::Keyword(t.clone())),
        MalVal::Keyword(t) => Result::Ok(MalVal::Keyword(t.clone())),
        _ => err_args(),
    }
}

/// `read-string`: read the first form of a source string; exactly the
/// reader's contract.
pub fn read_string(args: &Vec<MalVal>) -> (r: MalResult)
    ensures
        args@.len() >= 1 ==> (v_val(args@[0]) matches GVal::Str(t) ==> (match crate::reader::read_spec(
            t,
        ) {
            Result::Ok(g) => is_ok_with(r, g),
            Result::Err(ge) => is_err(r, ge),
        })),
        args@.len() == 0 || !(v_val(args@[0]) is Str) ==> is_err(r, GErr::Other(txt_args())),
{
    if args.len() == 0 {
        return err_args();
    }
    match &args[0] {
        MalVal::String(t) => crate::reader::read_str(t.as_str()),
        _ => err_args(),
    }
}

// ---------------------------------------------------------------------------
// Hash-map primitives
// ---------------------------------------------------------------------------

/// The value of the first entry keyed `k`, if any.
pub open spec fn find_val(ps: Seq<(GKey, GVal)>, k: GKey, i: int) -> Option<GVal>
    decreases ps.len() - i,
{
    if i < 0 || i >= ps.len() {
        Option::None
    } else if ps[i].0 == k {
        Option::Some(ps[i].1)
    } else {
        find_val(ps, k, i + 1)
    }
}

/// The entries of `ps[i..]` not keyed `k`.
pub open spec fn del_key(ps: Seq<(GKey, GVal)>, k: GKey, i: int) -> Seq<(GKey, GVal)>
    decreases ps.len() - i,
{
    if i < 0 || i >= ps.len() {
        Seq::empty()
    } else if ps[i].0 == k {
        del_key(ps, k, i + 1)
    } else {
        seq![ps[i]] + del_key(ps, k, i + 1)
    }
}

/// Entries `acc` extended by the key/value argument pairs from position `i`;
/// a trailing odd argument is dropped; a key that is not a string or keyword
/// is an error.
pub open spec fn build_map(args: Seq<MalVal>, i: int, acc: Seq<(GKey, GVal)>) -> Option<
    Seq<(GKey, GVal)>,
>
    decreases args.len() - i,
{
    if i < 0 || i + 1 >= args.len() {
        Option::Some(acc)
    } else {
        match to_key(v_val(args[i])) {
            Option::None => Option::None,
            Option::Some(k) => build_map(args, i + 2, upsert(acc, k, v_val(args[i + 1]))),
        }
    }
}

/// The value a key stands for when it appears in a sequence.
pub open spec fn key_val(k: GKey) -> GVal {
    match k {
        GKey::Keyword(t) => GVal::Keyword(t),
        GKey::Str(t) => GVal::Str(t),
    }
}

pub open spec fn keys_of(ps: Seq<(GKey, GVal)>, i: int) -> Seq<GVal>
    decreases ps.len() - i,
{
    if i < 0 || i >= ps.len() {
        Seq::empty()
    } else {
        seq![key_val(ps[i].0)] + keys_of(ps, i + 1)
    }
}

pub open spec fn vals_of(ps: Seq<(GKey, GVal)>, i: int) -> Seq<GVal>
    decreases ps.len() - i,
{
    if i < 0 || i >= ps.len() {
        Seq::empty()
    } else {
        seq![ps[i].1] + vals_of(ps, i + 1)
    }
}

/// The key a value may serve as, copied out of it.
fn key_of_val(v: &MalVal) -> (r: Option<Hashable>)
    ensures
        match r {
            Option::Some(k) => to_key(v@) == Option::Some(k@),
            Option::None => to_key(v@) is None,
        },
{
    match v {
        MalVal::Keyword(t) => Option::Some(Hashable::Keyword(t.clone())),
        MalVal::String(t) => Option::Some(Hashable::String(t.clone())),
        _ => Option::None,
    }
}

/// Extend `out` by the key/value argument pairs from position `start`.
fn build_map_exec(out: &mut Vec<(Hashable, MalVal)>, args: &Vec<MalVal>, start: usize) -> (r:
    Result<(), MalError>)
    ensures
        match r {
            Result::Ok(()) => build_map(args@, start as int, v_pairs(old(out)@))
                == Option::Some(v_pairs(final(out)@)),
            Result::Err(e) => build_map(args@, start as int, v_pairs(old(out)@)) is None && v_err(
                e,
            ) == GErr::Other(txt_args()),
        },
{
    let n = args.len();
    let mut i: usize = start;
    while i < n && n - i > 1
        invariant
            n == args@.len(),
            start <= i,
            build_map(args@, start as int, v_pairs(old(out)@)) == build_map(
                args@,
                i as int,
                v_pairs(out@),
            ),
        decreases args@.len() - i,
    {
        match key_of_val(&args[i]) {
            Option::None => {
                return Result::Err(
                    MalError::Other(String::from_str("wrong arguments to a primitive")),
                );
            },
            Option::Some(k) => {
                upsert_exec(out, k, args[i + 1].duplicate());
                i += 2;
            },
        }
    }
    Result::Ok(())
}

/// `hash-map`: a fresh map of the key/value argument pairs.
pub fn hash_map(args: &Vec<MalVal>) -> (r: MalResult)
    ensures
        build_map(args@, 0, Seq::empty()) matches Option::Some(qs) ==> is_ok_with(
            r,
            GVal::HashMap(qs, Option::None),
        ),
        build_map(args@, 0, Seq::empty()) is None ==> is_err(r, GErr::Other(txt_args())),
{
    let mut out: Vec<(Hashable, MalVal)> = Vec::new();
    proof {
        lemma_v_pairs(out@);
        assert(v_pairs(out@) =~= Seq::<(GKey, GVal)>::empty());
    }
    match build_map_exec(&mut out, args, 0) {
        Result::Ok(()) => Result::Ok(MalVal::HashMap(out, Option::None)),
        Result::Err(e) => Result::Err(e),
    }
}

/// `assoc`: the first argument, a map, with the later key/value pairs bound.
pub fn assoc(args: &Vec<MalVal>) -> (r: MalResult)
    ensures
        args@.len() >= 1 ==> (v_val(args@[0]) matches GVal::HashMap(ps, _) ==> (match build_map(
            args@,
            1,
            ps,
        ) {
            Option::Some(qs) => is_ok_with(r, GVal::HashMap(qs, Option::None)),
            Option::None => is_err(r, GErr::Other(txt_args())),
        })),
        args@.len() == 0 || !(v_val(args@[0]) is HashMap) ==> is_err(
            r,
            GErr::Other(txt_args()),
        ),
{
    if args.len() == 0 {
        return err_args();
    }
    match &args[0] {
        MalVal::HashMap(ps, _) => {
            let mut out = crate::types::dup_pairs(ps);
            match build_map_exec(&mut out, args, 1) {
                Result::Ok(()) => Result::Ok(MalVal::HashMap(out, Option::None)),
                Result::Err(e) => Result::Err(e),
            }
        },
        _ => err_args(),
    }
}

/// `dissoc`: the first argument, a map, with the later keys removed.
pub open spec fn del_all(args: Seq<MalVal>, i: int, acc: Seq<(GKey, GVal)>) -> Option<
    Seq<(GKey, GVal)>,
>
    decreases args.len() - i,
{
    if i < 0 || i >= args.len() {
        Option::Some(acc)
    } else {
        match to_key(v_val(args[i])) {
            Option::None => Option::None,
            Option::Some(k) => del_all(args, i + 1, del_key(acc, k, 0)),
        }
    }
}

/// One key removed, executably.
fn del_key_exec(ps: &Vec<(Hashable, MalVal)>, k: &Hashable) -> (r: Vec<(Hashable, MalVal)>)
    ensures
        v_pairs(r@) == del_key(v_pairs(ps@), k@, 0),
{
    let ghost gps = v_pairs(ps@);
    let mut out: Vec<(Hashable, MalVal)> = Vec::new();
    proof {
        lemma_v_pairs(ps@);
        lemma_v_pairs(out@);
        assert(v_pairs(out@) =~= Seq::<(GKey, GVal)>::empty());
        assert(v_pairs(out@) + del_key(gps, k@, 0) =~= del_key(gps, k@, 0));
    }
    let mut i: usize = 0;
    while i < ps.len()
        invariant
            i <= ps@.len(),
            gps == v_pairs(ps@),
            gps.len() == ps@.len(),
            del_key(gps, k@, 0) == v_pairs(out@) + del_key(gps, k@, i as int),
        decreases ps@.len() - i,
    {
        proof {
            lemma_v_pairs(ps@);
            lemma_v_pairs(out@);
        }
        let e = &ps[i];
        if !crate::types::key_eq(&e.0, k) {
            let ghost pre = v_pairs(out@);
            out.push((e.0.duplicate(), e.1.duplicate()));
            proof {
                lemma_v_pairs(out@);
                assert(v_pairs(out@) =~= pre + seq![gps[i as int]]);
                assert(pre + (seq![gps[i as int]] + del_key(gps, k@, i as int + 1)) =~= (pre
                    + seq![gps[i as int]]) + del_key(gps, k@, i as int + 1));
            }
        }
        i += 1;
    }
    proof {
        assert(v_pairs(out@) + del_key(gps, k@, ps@.len() as int) =~= v_pairs(out@));
    }
    out
}

/// `dissoc` itself.
pub fn dissoc(args: &Vec<MalVal>) -> (r: MalResult)
    ensures
        args@.len() >= 1 ==> (v_val(args@[0]) matches GVal::HashMap(ps, _) ==> (match del_all(
            args@,
            1,
            ps,
        ) {
            Option::Some(qs) => is_ok_with(r, GVal::HashMap(qs, Option::None)),
            Option::None => is_err(r, GErr::Other(txt_args())),
        })),
        args@.len() == 0 || !(v_val(args@[0]) is HashMap) ==> is_err(
            r,
            GErr::Other(txt_args()),
        ),
{
    if args.len() == 0 {
        return err_args();
    }
    match &args[0] {
        MalVal::HashMap(ps, _) => {
            let ghost gps0 = v_pairs(ps@);
            let mut out = crate::types::dup_pairs(ps);
            let mut i: usize = 1;
            while i < args.len()
                invariant
                    1 <= i,
                    args@.len() >= 1,
                    (v_val(args@[0]) matches GVal::HashMap(qs, _) && qs == gps0),
                    del_all(args@, 1, gps0) == del_all(args@, i as int, v_pairs(out@)),
                decreases args@.len() - i,
            {
                match key_of_val(&args[i]) {
                    Option::None => {
                        return err_args();
                    },
                    Option::Some(k) => {
                        out = del_key_exec(&out, &k);
                        i += 1;
                    },
                }
            }
            Result::Ok(MalVal::HashMap(out, Option::None))
        },
        _ => err_args(),
    }
}

/// `get`: the value a key maps to, `nil` when absent or when the map is
/// `nil`.
pub fn get(args: &Vec<MalVal>) -> (r: MalResult)
    ensures
        args@.len() >= 2 ==> (v_val(args@[0]) matches GVal::HashMap(ps, _) ==> (match to_key(
            v_val(args@[1]),
        ) {
            Option::Some(k) => match find_val(ps, k, 0) {
                Option::Some(v) => is_ok_with(r, v),
                Option::None => is_ok_with(r, GVal::Nil),
            },
            Option::None => is_err(r, GErr::Other(txt_args())),
        })),
        args@.len() >= 1 && v_val(args@[0]) is Nil ==> is_ok_with(r, GVal::Nil),
        args@.len() == 0 || (args@.len() == 1 && !(v_val(args@[0]) is Nil)) || !(v_val(
            args@[0],
        ) is HashMap || v_val(args@[0]) is Nil) ==> is_err(r, GErr::Other(txt_args())),
{
    if args.len() == 0 {
        return err_args();
    }
    if matches!(&args[0], MalVal::Nil) {
        return Result::Ok(MalVal::Nil);
    }
    if args.len() < 2 {
        return err_args();
    }
    match &args[0] {
        MalVal::HashMap(ps, _) => {
            let k = match key_of_val(&args[1]) {
                Option::Some(k) => k,
                Option::None => {
                    return err_args();
                },
            };
            let ghost gps = v_pairs(ps@);
            proof {
                lemma_v_pairs(ps@);
            }
            let mut i: usize = 0;
            while i < ps.len()
                invariant
                    i <= ps@.len(),
                    gps == v_pairs(ps@),
                    gps.len() == ps@.len(),
                    args@.len() >= 2,
                    (v_val(args@[0]) matches GVal::HashMap(qs, _) && qs == gps),
                    to_key(v_val(args@[1])) == Option::Some(k@),
                    find_val(gps, k@, 0) == find_val(gps, k@, i as int),
                decreases ps@.len() - i,
            {
                proof {
                    lemma_v_pairs(ps@);
                }
                if crate::types::key_eq(&ps[i].0, &k) {
                    return Result::Ok(ps[i].1.duplicate());
                }
                i += 1;
            }
            Result::Ok(MalVal::Nil)
        },
        _ => err_args(),
    }
}

/// `contains?`: whether the map binds the key.
pub fn is_contains(args: &Vec<MalVal>) -> (r: MalResult)
    ensures
        args@.len() >= 2 ==> (v_val(args@[0]) matches GVal::HashMap(ps, _) ==> (match to_key(
            v_val(args@[1]),
        ) {
            Option::Some(k) => is_ok_with(r, GVal::Bool(find_val(ps, k, 0) is Some)),
            Option::None => is_err(r, GErr::Other(txt_args())),
        })),
        args@.len() < 2 || !(v_val(args@[0]) is HashMap) ==> is_err(
            r,
            GErr::Other(txt_args()),
        ),
{
    if args.len() < 2 {
        return err_args();
    }
    match &args[0] {
        MalVal::HashMap(ps, _) => {
            let k = match key_of_val(&args[1]) {
                Option::Some(k) => k,
                Option::None => {
                    return err_args();
                },
            };
            let ghost gps = v_pairs(ps@);
            proof {
                lemma_v_pairs(ps@);
            }
            let mut i: usize = 0;
            while i < ps.len()
                invariant
                    i <= ps@.len(),
                    gps == v_pairs(ps@),
                    gps.len() == ps@.len(),
                    args@.len() >= 2,
                    (v_val(args@[0]) matches GVal::HashMap(qs, _) && qs == gps),
                    to_key(v_val(args@[1])) == Option::Some(k@),
                    find_val(gps, k@, 0) == find_val(gps, k@, i as int),
                decreases ps@.len() - i,
            {
                proof {
                    lemma_v_pairs(ps@);
                }
                if crate::types::key_eq(&ps[i].0, &k) {
                    return Result::Ok(MalVal::Bool(true));
                }
                i += 1;
            }
            Result::Ok(MalVal::Bool(false))
        },
        _ => err_args(),
    }
}

/// `keys`: the map's keys as a fresh list.
pub fn keys(args: &Vec<MalVal>) -> (r: MalResult)
    ensures
        args@.len() >= 1 ==> (v_val(args@[0]) matches GVal::HashMap(ps, _) ==> is_ok_with(
            r,
            GVal::List(keys_of(ps, 0), Option::None),
        )),
        args@.len() == 0 || !(v_val(args@[0]) is HashMap) ==> is_err(
            r,
            GErr::Other(txt_args()),
        ),
{
    if args.len() == 0 {
        return err_args();
    }
    match &args[0] {
        MalVal::HashMap(ps, _) => {
            let ghost gps = v_pairs(ps@);
            let mut out: Vec<MalVal> = Vec::new();
            proof {
                lemma_v_pairs(ps@);
                lemma_v_seq(out@);
                assert(v_seq(out@) + keys_of(gps, 0) =~= keys_of(gps, 0));
            }
            let mut i: usize = 0;
            while i < ps.len()
                invariant
                    i <= ps@.len(),
                    gps == v_pairs(ps@),
                    gps.len() == ps@.len(),
                    args@.len() >= 1,
                    (v_val(args@[0]) matches GVal::HashMap(qs, _) && qs == gps),
                    keys_of(gps, 0) == v_seq(out@) + keys_of(gps, i as int),
                decreases ps@.len() - i,
            {
                proof {
                    lemma_v_pairs(ps@);
                    lemma_v_seq(out@);
                }
                let ghost pre = v_seq(out@);
                let kv = match &ps[i].0 {
                    Hashable::Keyword(t) => MalVal::Keyword(t.clone()),
                    Hashable::String(t) => MalVal::String(t.clone()),
                };
                out.push(kv);
                proof {
                    lemma_v_seq(out@);
                    assert(v_seq(out@) =~= pre + seq![key_val(gps[i as int].0)]);
                    assert(pre + (seq![key_val(gps[i as int].0)] + keys_of(gps, i as int + 1))
                        =~= (pre + seq![key_val(gps[i as int].0)]) + keys_of(
                        gps,
                        i as int + 1,
                    ));
                }
                i += 1;
            }
            proof {
                assert(v_seq(out@) + keys_of(gps, ps@.len() as int) =~= v_seq(out@));
            }
            Result::Ok(MalVal::List(out, Option::None))
        },
        _ => err_args(),
    }
}

/// `vals`: the map's values as a fresh list.
pub fn vals(args: &Vec<MalVal>) -> (r: MalResult)
    ensures
        args@.len() >= 1 ==> (v_val(args@[0]) matches GVal::HashMap(ps, _) ==> is_ok_with(
            r,
            GVal::List(vals_of(ps, 0), Option::None),
        )),
        args@.len() == 0 || !(v_val(args@[0]) is HashMap) ==> is_err(
            r,
            GErr::Other(txt_args()),
        ),
{
    if args.len() == 0 {
        return err_args();
    }
    match &args[0] {
        MalVal::HashMap(ps, _) => {
            let ghost gps = v_pairs(ps@);
            let mut out: Vec<MalVal> = Vec::new();
            proof {
                lemma_v_pairs(ps@);
                lemma_v_seq(out@);
                assert(v_seq(out@) + vals_of(gps, 0) =~= vals_of(gps, 0));
            }
            let mut i: usize = 0;
            while i < ps.len()
                invariant
                    i <= ps@.len(),
                    gps == v_pairs(ps@),
                    gps.len() == ps@.len(),
                    args@.len() >= 1,
                    (v_val(args@[0]) matches GVal::HashMap(qs, _) && qs == gps),
                    vals_of(gps, 0) == v_seq(out@) + vals_of(gps, i as int),
                decreases ps@.len() - i,
            {
                proof {
                    lemma_v_pairs(ps@);
                    lemma_v_seq(out@);
                }
                let ghost pre = v_seq(out@);
                out.push(ps[i].1.duplicate());
                proof {
                    lemma_v_seq(out@);
                    assert(v_seq(out@) =~= pre + seq![gps[i as int].1]);
                    assert(pre + (seq![gps[i as int].1] + vals_of(gps, i as int + 1)) =~= (pre
                        + seq![gps[i as int].1]) + vals_of(gps, i as int + 1));
                }
                i += 1;
            }
            proof {
                assert(v_seq(out@) + vals_of(gps, ps@.len() as int) =~= v_seq(out@));
            }
            Result::Ok(MalVal::List(out, Option::None))
        },
        _ => err_args(),
    }
}

// ---------------------------------------------------------------------------
// Metadata, conj, seq
// ---------------------------------------------------------------------------

/// The metadata slot of a value that has one.
pub open spec fn meta_of(v: GVal) -> Option<Option<Box<GVal>>> {
    match v {
        GVal::Fn(_, m) => Option::Some(m),
        GVal::List(_, m) => Option::Some(m),
        GVal::Vector(_, m) => Option::Some(m),
        GVal::HashMap(_, m) => Option::Some(m),
        _ => Option::None,
    }
}

/// The same value with its metadata slot set to `m`.
pub open spec fn set_meta(v: GVal, m: GVal) -> Option<GVal> {
    match v {
        GVal::Fn(f, _) => Option::Some(GVal::Fn(f, Option::Some(Box::new(m)))),
        GVal::List(es, _) => Option::Some(GVal::List(es, Option::Some(Box::new(m)))),
        GVal::Vector(es, _) => Option::Some(GVal::Vector(es, Option::Some(Box::new(m)))),
        GVal::HashMap(ps, _) => Option::Some(GVal::HashMap(ps, Option::Some(Box::new(m)))),
        _ => Option::None,
    }
}

/// `meta`: a value's metadata, `nil` when the slot is empty.
pub fn meta(args: &Vec<MalVal>) -> (r: MalResult)
    ensures
        args@.len() >= 1 ==> (meta_of(v_val(args@[0])) matches Option::Some(m) ==> is_ok_with(
            r,
            match m {
                Option::Some(b) => *b,
                Option::None => GVal::Nil,
            },
        )),
        args@.len() == 0 || meta_of(v_val(args@[0])) is None ==> is_err(
            r,
            GErr::Other(txt_args()),
        ),
{
    if args.len() == 0 {
        return err_args();
    }
    match &args[0] {
        MalVal::Fn(_, m) | MalVal::List(_, m) | MalVal::Vector(_, m) | MalVal::HashMap(_, m) => {
            match m {
                Option::Some(b) => Result::Ok(b.duplicate()),
                Option::None => Result::Ok(MalVal::Nil),
            }
        },
        _ => err_args(),
    }
}

/// `with-meta`: the first argument with the second as its metadata.
pub fn with_meta(args: &Vec<MalVal>) -> (r: MalResult)
    ensures
        args@.len() >= 2 ==> (set_meta(v_val(args@[0]), v_val(args@[1])) matches Option::Some(w)
            ==> is_ok_with(r, w)),
        args@.len() < 2 || set_meta(v_val(args@[0]), v_val(args@[1])) is None ==> is_err(
            r,
            GErr::Other(txt_args()),
        ),
{
    if args.len() < 2 {
        return err_args();
    }
    let d = args[0].duplicate();
    match d {
        MalVal::Fn(f, _) => Result::Ok(MalVal::Fn(f, Option::Some(Box::new(args[1].duplicate())))),
        MalVal::List(es, _) => Result::Ok(
            MalVal::List(es, Option::Some(Box::new(args[1].duplicate()))),
        ),
        MalVal::Vector(es, _) => Result::Ok(
            MalVal::Vector(es, Option::Some(Box::new(args[1].duplicate()))),
        ),
        MalVal::HashMap(ps, _) => Result::Ok(
            MalVal::HashMap(ps, Option::Some(Box::new(args[1].duplicate()))),
        ),
        _ => err_args(),
    }
}

/// The views of `args[1..n]`, last first: what `conj` puts before a list.
pub open spec fn rev_pre(args: Seq<MalVal>, n: int) -> Seq<GVal>
    decreases n,
{
    if n <= 1 || n > args.len() {
        Seq::empty()
    } else {
        seq![v_val(args[n - 1])] + rev_pre(args, n - 1)
    }
}

/// The views of `args[i..]`: what `conj` puts after a vector.
pub open spec fn args_tail(args: Seq<MalVal>, i: int) -> Seq<GVal>
    decreases args.len() - i,
{
    if i < 0 || i >= args.len() {
        Seq::empty()
    } else {
        seq![v_val(args[i])] + args_tail(args, i + 1)
    }
}

/// `conj`: the later arguments joined onto the first; onto a list each goes
/// to the front in turn, onto a vector they go to the back. Metadata is kept.
pub fn conj(args: &Vec<MalVal>) -> (r: MalResult)
    ensures
        args@.len() >= 1 ==> (v_val(args@[0]) matches GVal::List(es, m) ==> is_ok_with(
            r,
            GVal::List(rev_pre(args@, args@.len() as int) + es, m),
        )),
        args@.len() >= 1 ==> (v_val(args@[0]) matches GVal::Vector(es, m) ==> is_ok_with(
            r,
            GVal::Vector(es + args_tail(args@, 1), m),
        )),
        args@.len() == 0 || !(seq_of(v_val(args@[0])) is Some) ==> is_err(
            r,
            GErr::Other(txt_args()),
        ),
{
    if args.len() == 0 {
        return err_args();
    }
    match &args[0] {
        MalVal::List(es, m) => {
            let mut out: Vec<MalVal> = Vec::new();
            proof {
                lemma_v_seq(out@);
                assert(v_seq(out@) + rev_pre(args@, args@.len() as int) =~= rev_pre(
                    args@,
                    args@.len() as int,
                ));
            }
            let mut k: usize = args.len();
            while k > 1
                invariant
                    1 <= k <= args@.len(),
                    rev_pre(args@, args@.len() as int) == v_seq(out@) + rev_pre(args@, k as int),
                decreases k,
            {
                proof {
                    lemma_v_seq(out@);
                }
                let ghost pre = v_seq(out@);
                out.push(args[k - 1].duplicate());
                proof {
                    lemma_v_seq(out@);
                    assert(v_seq(out@) =~= pre + seq![v_val(args@[k - 1])]);
                    assert(pre + (seq![v_val(args@[k - 1])] + rev_pre(args@, k as int - 1)) =~= (
                    pre + seq![v_val(args@[k - 1])]) + rev_pre(args@, k as int - 1));
                }
                k -= 1;
            }
            proof {
                assert(v_seq(out@) + rev_pre(args@, 1) =~= v_seq(out@));
            }
            let ghost built = v_seq(out@);
            proof {
                lemma_v_seq(out@);
                lemma_v_seq(es@);
                assert(built + v_seq(es@).take(0) =~= built);
            }
            let mut i: usize = 0;
            while i < es.len()
                invariant
                    i <= es@.len(),
                    out@.len() == built.len() + i,
                    v_seq(out@) == built + v_seq(es@).take(i as int),
                decreases es@.len() - i,
            {
                proof {
                    lemma_v_seq(out@);
                    lemma_v_seq(es@);
                }
                let ghost preout = out@;
                out.push(es[i].duplicate());
                proof {
                    lemma_v_seq(out@);
                    lemma_v_seq(es@);
                    assert(out@.len() == preout.len() + 1);
                    assert(forall|j: int|
                        0 <= j < preout.len() ==> out@[j] == preout[j] && v_seq(out@)[j] == v_seq(
                            preout,
                        )[j]);
                    assert(v_seq(out@)[preout.len() as int] == v_val(es@[i as int]));
                    assert(v_seq(out@) =~= built + v_seq(es@).take(i as int + 1));
                }
                i += 1;
            }
            proof {
                lemma_v_seq(es@);
                assert(v_seq(es@).take(es@.len() as int) =~= v_seq(es@));
            }
            Result::Ok(MalVal::List(out, crate::types::dup_meta_pub(m)))
        },
        MalVal::Vector(es, m) => {
            let mut out = crate::types::dup_vec(es);
            let ghost base = v_seq(out@);
            proof {
                lemma_v_seq(out@);
                assert(base + args_tail(args@, args@.len() as int) =~= base);
            }
            let mut i: usize = args.len();
            let n = args.len();
            let mut k: usize = 1;
            while k < n
                invariant
                    1 <= k <= n,
                    n == args@.len(),
                    v_seq(out@) + args_tail(args@, k as int) == base + args_tail(args@, 1),
                decreases n - k,
            {
                proof {
                    lemma_v_seq(out@);
                }
                let ghost pre = v_seq(out@);
                out.push(args[k].duplicate());
                proof {
                    lemma_v_seq(out@);
                    assert(v_seq(out@) =~= pre + seq![v_val(args@[k as int])]);
                    assert((pre + seq![v_val(args@[k as int])]) + args_tail(args@, k as int + 1)
                        =~= pre + (seq![v_val(args@[k as int])] + args_tail(
                        args@,
                        k as int + 1,
                    )));
                }
                k += 1;
            }
            proof {
                assert(v_seq(out@) + args_tail(args@, n as int) =~= v_seq(out@));
            }
            Result::Ok(MalVal::Vector(out, crate::types::dup_meta_pub(m)))
        },
        _ => err_args(),
    }
}

/// The single-character strings of a string's characters.
pub open spec fn chars_of(s: Seq<char>, i: int) -> Seq<GVal>
    decreases s.len() - i,
{
    if i < 0 || i >= s.len() {
        Seq::empty()
    } else {
        seq![GVal::Str(seq![s[i]])] + chars_of(s, i + 1)
    }
}

/// `seq`: a non-empty list stays itself; a non-empty vector becomes a list
/// with the same elements and metadata; a non-empty string becomes a list of
/// its one-character strings; every empty one, and `nil`, becomes `nil`.
pub fn to_seq(args: &Vec<MalVal>) -> (r: MalResult)
    ensures
        args@.len() >= 1 ==> (v_val(args@[0]) matches GVal::List(es, m) ==> is_ok_with(
            r,
            if es.len() == 0 {
                GVal::Nil
            } else {
                GVal::List(es, m)
            },
        )),
        args@.len() >= 1 ==> (v_val(args@[0]) matches GVal::Vector(es, m) ==> is_ok_with(
            r,
            if es.len() == 0 {
                GVal::Nil
            } else {
                GVal::List(es, m)
            },
        )),
        args@.len() >= 1 ==> (v_val(args@[0]) matches GVal::Str(t) ==> is_ok_with(
            r,
            if t.len() == 0 {
                GVal::Nil
            } else {
                GVal::List(chars_of(t, 0), Option::None)
            },
        )),
        args@.len() >= 1 && v_val(args@[0]) is Nil ==> is_ok_with(r, GVal::Nil),
        args@.len() == 0 || !(seq_of(v_val(args@[0])) is Some || v_val(args@[0]) is Str || v_val(
            args@[0],
        ) is Nil) ==> is_err(r, GErr::Other(txt_args())),
{
    if args.len() == 0 {
        return err_args();
    }
    match &args[0] {
        MalVal::Nil => Result::Ok(MalVal::Nil),
        MalVal::List(es, _) => {
            proof {
                lemma_v_seq(es@);
            }
            if es.len() == 0 {
                Result::Ok(MalVal::Nil)
            } else {
                Result::Ok(args[0].duplicate())
            }
        },
        MalVal::Vector(es, m) => {
            proof {
                lemma_v_seq(es@);
            }
            if es.len() == 0 {
                Result::Ok(MalVal::Nil)
            } else {
                Result::Ok(MalVal::List(crate::types::dup_vec(es), crate::types::dup_meta_pub(m)))
            }
        },
        MalVal::String(t) => {
            let cs = crate::types::str_to_chars(t.as_str());
            if cs.len() == 0 {
                return Result::Ok(MalVal::Nil);
            }
            let mut out: Vec<MalVal> = Vec::new();
            proof {
                lemma_v_seq(out@);
                assert(v_seq(out@) + chars_of(t@, 0) =~= chars_of(t@, 0));
            }
            let mut i: usize = 0;
            while i < cs.len()
                invariant
                    i <= cs@.len(),
                    cs@ == t@,
                    chars_of(t@, 0) == v_seq(out@) + chars_of(t@, i as int),
                decreases cs@.len() - i,
            {
                proof {
                    lemma_v_seq(out@);
                }
                let ghost pre = v_seq(out@);
                let mut one: Vec<char> = Vec::new();
                one.push(cs[i]);
                out.push(MalVal::String(crate::types::chars_to_string(&one)));
                proof {
                    lemma_v_seq(out@);
                    assert(one@ =~= seq![t@[i as int]]);
                    assert(v_seq(out@) =~= pre + seq![GVal::Str(seq![t@[i as int]])]);
                    assert(pre + (seq![GVal::Str(seq![t@[i as int]])] + chars_of(
                        t@,
                        i as int + 1,
                    )) =~= (pre + seq![GVal::Str(seq![t@[i as int]])]) + chars_of(
                        t@,
                        i as int + 1,
                    ));
                }
                i += 1;
            }
            proof {
                assert(v_seq(out@) + chars_of(t@, t@.len() as int) =~= v_seq(out@));
            }
            Result::Ok(MalVal::List(out, Option::None))
        },
        _ => err_args(),
    }
}

/// The pure primitives: those whose result is a function of the arguments
/// alone and that never touch the interpreter's state.
pub open spec fn is_pure(b: crate::types::Builtin) -> bool {
    match b {
        crate::types::Builtin::Add => true,
        crate::types::Builtin::Sub => true,
        crate::types::Builtin::Mul => true,
        crate::types::Builtin::Div => true,
        crate::types::Builtin::Lt => true,
        crate::types::Builtin::Lte => true,
        crate::types::Builtin::Gt => true,
        crate::types::Builtin::Gte => true,
        crate::types::Builtin::Eq => true,
        crate::types::Builtin::MkList => true,
        crate::types::Builtin::MkVector => true,
        crate::types::Builtin::IsList => true,
        crate::types::Builtin::IsEmpty => true,
        crate::types::Builtin::Count => true,
        crate::types::Builtin::Cons => true,
        crate::types::Builtin::Concat => true,
        crate::types::Builtin::ToVec => true,
        crate::types::Builtin::Nth => true,
        crate::types::Builtin::First => true,
        crate::types::Builtin::Rest => true,
        crate::types::Builtin::Throw => true,
        crate::types::Builtin::IsNil => true,
        crate::types::Builtin::IsTrue => true,
        crate::types::Builtin::IsFalse => true,
        crate::types::Builtin::IsSymbol => true,
        crate::types::Builtin::ToSymbol => true,
        crate::types::Builtin::ToKeyword => true,
        crate::types::Builtin::IsKeyword => true,
        crate::types::Builtin::IsVector => true,
        crate::types::Builtin::IsSequential => true,
        crate::types::Builtin::MkHashMap => true,
        crate::types::Builtin::IsMap => true,
        crate::types::Builtin::Assoc => true,
        crate::types::Builtin::Dissoc => true,
        crate::types::Builtin::MapGet => true,
        crate::types::Builtin::Contains => true,
        crate::types::Builtin::Keys => true,
        crate::types::Builtin::Vals => true,
        crate::types::Builtin::Meta => true,
        crate::types::Builtin::WithMeta => true,
        crate::types::Builtin::Conj => true,
        crate::types::Builtin::IsString => true,
        crate::types::Builtin::IsNumber => true,
        crate::types::Builtin::IsFn => true,
        crate::types::Builtin::IsMacro => true,
        crate::types::Builtin::IsAtom => true,
        crate::types::Builtin::ToSeq => true,
        crate::types::Builtin::ReadString => true,
        _ => false,
    }
}

/// What each pure primitive's call must satisfy: exactly the contract of its
/// implementation above, gathered so the evaluator's dispatch can carry it.
pub open spec fn pure_post(b: crate::types::Builtin, args: Seq<MalVal>, r: MalResult) -> bool {
    match b {
        crate::types::Builtin::Add => {
            &&& (two_ints(args) && i64::MIN <= arg_int(args, 0) + arg_int(args, 1) <= i64::MAX ==> is_ok_with(r, GVal::Integer(arg_int(args, 0) + arg_int(args, 1))))
            &&& (two_ints(args) && !(i64::MIN <= arg_int(args, 0) + arg_int(args, 1) <= i64::MAX) ==> is_err(r, GErr::Other(txt_overflow())))
            &&& (!two_ints(args) ==> is_err(r, GErr::Other(txt_args())))
        },
        crate::types::Builtin::Sub => {
            &&& (two_ints(args) && i64::MIN <= arg_int(args, 0) - arg_int(args, 1) <= i64::MAX ==> is_ok_with(r, GVal::Integer(arg_int(args, 0) - arg_int(args, 1))))
            &&& (two_ints(args) && !(i64::MIN <= arg_int(args, 0) - arg_int(args, 1) <= i64::MAX) ==> is_err(r, GErr::Other(txt_overflow())))
            &&& (!two_ints(args) ==> is_err(r, GErr::Other(txt_args())))
        },
        crate::types::Builtin::Mul => {
            &&& (two_ints(args) && i64::MIN <= arg_int(args, 0) * arg_int(args, 1) <= i64::MAX ==> is_ok_with(r, GVal::Integer(arg_int(args, 0) * arg_int(args, 1))))
            &&& (two_ints(args) && !(i64::MIN <= arg_int(args, 0) * arg_int(args, 1) <= i64::MAX) ==> is_err(r, GErr::Other(txt_overflow())))
            &&& (!two_ints(args) ==> is_err(r, GErr::Other(txt_args())))
        },
        crate::types::Builtin::Div => {
            &&& (two_ints(args) && arg_int(args, 1) != 0 && i64::MIN <= tdiv( arg_int(args, 0), arg_int(args, 1), ) <= i64::MAX ==> is_ok_with(r, GVal::Integer( tdiv(arg_int(args, 0), arg_int(args, 1))), ))
            &&& (two_ints(args) && arg_int(args, 1) == 0 ==> is_err(r, GErr::Other(txt_div_zero())))
            &&& (two_ints(args) && arg_int(args, 1) != 0 && !(i64::MIN <= tdiv( arg_int(args, 0), arg_int(args, 1), ) <= i64::MAX) ==> is_err(r, GErr::Other(txt_overflow())))
            &&& (!two_ints(args) ==> is_err(r, GErr::Other(txt_args())))
        },
        crate::types::Builtin::Lt => {
            &&& (two_ints(args) ==> is_ok_with(r, GVal::Bool(arg_int(args, 0) < arg_int(args, 1))))
            &&& (!two_ints(args) ==> is_err(r, GErr::Other(txt_args())))
        },
        crate::types::Builtin::Lte => {
            &&& (two_ints(args) ==> is_ok_with(r, GVal::Bool(arg_int(args, 0) <= arg_int(args, 1))))
            &&& (!two_ints(args) ==> is_err(r, GErr::Other(txt_args())))
        },
        crate::types::Builtin::Gt => {
            &&& (two_ints(args) ==> is_ok_with(r, GVal::Bool(arg_int(args, 0) > arg_int(args, 1))))
            &&& (!two_ints(args) ==> is_err(r, GErr::Other(txt_args())))
        },
        crate::types::Builtin::Gte => {
            &&& (two_ints(args) ==> is_ok_with(r, GVal::Bool(arg_int(args, 0) >= arg_int(args, 1))))
            &&& (!two_ints(args) ==> is_err(r, GErr::Other(txt_args())))
        },
        crate::types::Builtin::Eq => {
            &&& (args.len() >= 2 ==> is_ok_with( r, GVal::Bool(crate::types::val_eq(v_val(args[0]), v_val(args[1]))), ))
            &&& (args.len() < 2 ==> is_err(r, GErr::Other(txt_args())))
        },
        crate::types::Builtin::MkList => {
            &&& (is_ok_with(r, GVal::List(v_seq(args), Option::None)))
        },
        crate::types::Builtin::MkVector => {
            &&& (is_ok_with(r, GVal::Vector(v_seq(args), Option::None)))
        },
        crate::types::Builtin::IsList => {
            &&& (args.len() >= 1 ==> is_ok_with(r, GVal::Bool(v_val(args[0]) is List)))
            &&& (args.len() == 0 ==> is_err(r, GErr::Other(txt_args())))
        },
        crate::types::Builtin::IsEmpty => {
            &&& (args.len() >= 1 ==> (seq_of(v_val(args[0])) matches Option::Some(es) ==> is_ok_with( r, GVal::Bool(es.len() == 0), )))
            &&& (args.len() == 0 || seq_of(v_val(args[0])) is None ==> is_err( r, GErr::Other(txt_args()), ))
        },
        crate::types::Builtin::Count => {
            &&& (args.len() >= 1 ==> (seq_of(v_val(args[0])) matches Option::Some(es) ==> (es.len() <= i64::MAX ==> is_ok_with(r, GVal::Integer(es.len() as int)))))
            &&& (args.len() >= 1 ==> (seq_of(v_val(args[0])) matches Option::Some(es) ==> (es.len() > i64::MAX ==> is_err(r, GErr::Other(txt_overflow())))))
            &&& (args.len() >= 1 && seq_of(v_val(args[0])) is None ==> is_ok_with(r, GVal::Integer(0)))
            &&& (args.len() == 0 ==> is_err(r, GErr::Other(txt_args())))
        },
        crate::types::Builtin::Cons => {
            &&& (args.len() >= 2 ==> (seq_of(v_val(args[1])) matches Option::Some(es) ==> is_ok_with( r, GVal::List(seq![v_val(args[0])] + es, Option::None), )))
            &&& (args.len() < 2 || seq_of(v_val(args[1])) is None ==> is_err( r, GErr::Other(txt_args()), ))
        },
        crate::types::Builtin::Concat => {
            &&& (concat_all(args, 0) matches Option::Some(es) ==> is_ok_with( r, GVal::List(es, Option::None), ))
            &&& (concat_all(args, 0) is None ==> is_err(r, GErr::Other(txt_args())))
        },
        crate::types::Builtin::ToVec => {
            &&& (args.len() >= 1 ==> (v_val(args[0]) matches GVal::List(es, _) ==> is_ok_with(
                r,
                GVal::Vector(es, Option::None),
            )))
            &&& (args.len() >= 1 ==> (v_val(args[0]) is Vector ==> is_ok_with(r, v_val(args[0]))))
            &&& (args.len() == 0 || seq_of(v_val(args[0])) is None ==> is_err(
                r,
                GErr::Other(txt_args()),
            ))
        },
        crate::types::Builtin::Nth => {
            &&& (args.len() >= 2 ==> (seq_of(v_val(args[0])) matches Option::Some(es) ==> (v_val( args[1], ) matches GVal::Integer(i) ==> (if 0 <= i < es.len() { is_ok_with(r, es[i]) } else { is_err(r, GErr::Throw(GVal::Str(txt_out_of_bounds()))) }))))
            &&& (args.len() < 2 || seq_of(v_val(args[0])) is None || !(v_val(args[1]) is Integer) ==> is_err(r, GErr::Other(txt_args())))
        },
        crate::types::Builtin::First => {
            &&& (args.len() >= 1 ==> (seq_of(v_val(args[0])) matches Option::Some(es) ==> is_ok_with( r, (if es.len() > 0 { es[0] } else { GVal::Nil }), )))
            &&& (args.len() >= 1 && v_val(args[0]) is Nil ==> is_ok_with(r, GVal::Nil))
            &&& (args.len() == 0 || !(seq_of(v_val(args[0])) is Some || v_val(args[0]) is Nil) ==> is_err(r, GErr::Other(txt_args())))
        },
        crate::types::Builtin::Rest => {
            &&& (args.len() >= 1 ==> (seq_of(v_val(args[0])) matches Option::Some(es) ==> is_ok_with( r, GVal::List(rest_of(es), Option::None), )))
            &&& (args.len() >= 1 && v_val(args[0]) is Nil ==> is_ok_with( r, GVal::List(Seq::empty(), Option::None), ))
            &&& (args.len() == 0 || !(seq_of(v_val(args[0])) is Some || v_val(args[0]) is Nil) ==> is_err(r, GErr::Other(txt_args())))
        },
        crate::types::Builtin::Throw => {
            &&& (args.len() >= 1 ==> is_err(r, GErr::Throw(v_val(args[0]))))
            &&& (args.len() == 0 ==> is_err(r, GErr::Other(txt_args())))
        },
        crate::types::Builtin::IsNil => {
            &&& (args.len() >= 1 ==> is_ok_with(r, GVal::Bool(v_val(args[0]) is Nil)))
            &&& (args.len() == 0 ==> is_err(r, GErr::Other(txt_args())))
        },
        crate::types::Builtin::IsTrue => {
            &&& (args.len() >= 1 ==> is_ok_with(r, GVal::Bool(v_val(args[0]) == GVal::Bool(true))))
            &&& (args.len() == 0 ==> is_err(r, GErr::Other(txt_args())))
        },
        crate::types::Builtin::IsFalse => {
            &&& (args.len() >= 1 ==> is_ok_with(r, GVal::Bool(v_val(args[0]) == GVal::Bool(false))))
            &&& (args.len() == 0 ==> is_err(r, GErr::Other(txt_args())))
        },
        crate::types::Builtin::IsSymbol => {
            &&& (args.len() >= 1 ==> is_ok_with(r, GVal::Bool(v_val(args[0]) is Symbol)))
            &&& (args.len() == 0 ==> is_err(r, GErr::Other(txt_args())))
        },
        crate::types::Builtin::ToSymbol => {
            &&& (args.len() >= 1 ==> (v_val(args[0]) matches GVal::Str(t) ==> is_ok_with( r, GVal::Symbol(t), )))
            &&& (args.len() == 0 || !(v_val(args[0]) is Str) ==> is_err(r, GErr::Other(txt_args())))
        },
        crate::types::Builtin::ToKeyword => {
            &&& (args.len() >= 1 ==> (v_val(args[0]) matches GVal::Str(t) ==> is_ok_with( r, GVal::Keyword(t), )))
            &&& (args.len() >= 1 ==> (v_val(args[0]) matches GVal::Keyword(t) ==> is_ok_with( r, GVal::Keyword(t), )))
            &&& (args.len() == 0 || !(v_val(args[0]) is Str || v_val(args[0]) is Keyword) ==> is_err( r, GErr::Other(txt_args()), ))
        },
        crate::types::Builtin::IsKeyword => {
            &&& (args.len() >= 1 ==> is_ok_with(r, GVal::Bool(v_val(args[0]) is Keyword)))
            &&& (args.len() == 0 ==> is_err(r, GErr::Other(txt_args())))
        },
        crate::types::Builtin::IsVector => {
            &&& (args.len() >= 1 ==> is_ok_with(r, GVal::Bool(v_val(args[0]) is Vector)))
            &&& (args.len() == 0 ==> is_err(r, GErr::Other(txt_args())))
        },
        crate::types::Builtin::IsSequential => {
            &&& (args.len() >= 1 ==> is_ok_with(r, GVal::Bool(seq_of(v_val(args[0])) is Some)))
            &&& (args.len() == 0 ==> is_err(r, GErr::Other(txt_args())))
        },
        crate::types::Builtin::MkHashMap => {
            &&& (build_map(args, 0, Seq::empty()) matches Option::Some(qs) ==> is_ok_with( r, GVal::HashMap(qs, Option::None), ))
            &&& (build_map(args, 0, Seq::empty()) is None ==> is_err(r, GErr::Other(txt_args())))
        },
        crate::types::Builtin::IsMap => {
            &&& (args.len() >= 1 ==> is_ok_with(r, GVal::Bool(v_val(args[0]) is HashMap)))
            &&& (args.len() == 0 ==> is_err(r, GErr::Other(txt_args())))
        },
        crate::types::Builtin::Assoc => {
            &&& (args.len() >= 1 ==> (v_val(args[0]) matches GVal::HashMap(ps, _) ==> (match build_map( args, 1, ps, ) { Option::Some(qs) => is_ok_with(r, GVal::HashMap(qs, Option::None)), Option::None => is_err(r, GErr::Other(txt_args())), })))
            &&& (args.len() == 0 || !(v_val(args[0]) is HashMap) ==> is_err( r, GErr::Other(txt_args()), ))
        },
        crate::types::Builtin::Dissoc => {
            &&& (args.len() >= 1 ==> (v_val(args[0]) matches GVal::HashMap(ps, _) ==> (match del_all( args, 1, ps, ) { Option::Some(qs) => is_ok_with(r, GVal::HashMap(qs, Option::None)), Option::None => is_err(r, GErr::Other(txt_args())), })))
            &&& (args.len() == 0 || !(v_val(args[0]) is HashMap) ==> is_err( r, GErr::Other(txt_args()), ))
        },
        crate::types::Builtin::MapGet => {
            &&& (args.len() >= 2 ==> (v_val(args[0]) matches GVal::HashMap(ps, _) ==> (match to_key( v_val(args[1]), ) { Option::Some(k) => match find_val(ps, k, 0) { Option::Some(v) => is_ok_with(r, v), Option::None => is_ok_with(r, GVal::Nil), }, Option::None => is_err(r, GErr::Other(txt_args())), })))
            &&& (args.len() >= 1 && v_val(args[0]) is Nil ==> is_ok_with(r, GVal::Nil))
            &&& (args.len() == 0 || (args.len() == 1 && !(v_val(args[0]) is Nil)) || !(v_val( args[0], ) is HashMap || v_val(args[0]) is Nil) ==> is_err(r, GErr::Other(txt_args())))
        },
        crate::types::Builtin::Contains => {
            &&& (args.len() >= 2 ==> (v_val(args[0]) matches GVal::HashMap(ps, _) ==> (match to_key( v_val(args[1]), ) { Option::Some(k) => is_ok_with(r, GVal::Bool(find_val(ps, k, 0) is Some)), Option::None => is_err(r, GErr::Other(txt_args())), })))
            &&& (args.len() < 2 || !(v_val(args[0]) is HashMap) ==> is_err( r, GErr::Other(txt_args()), ))
        },
        crate::types::Builtin::Keys => {
            &&& (args.len() >= 1 ==> (v_val(args[0]) matches GVal::HashMap(ps, _) ==> is_ok_with( r, GVal::List(keys_of(ps, 0), Option::None), )))
            &&& (args.len() == 0 || !(v_val(args[0]) is HashMap) ==> is_err( r, GErr::Other(txt_args()), ))
        },
        crate::types::Builtin::Vals => {
            &&& (args.len() >= 1 ==> (v_val(args[0]) matches GVal::HashMap(ps, _) ==> is_ok_with( r, GVal::List(vals_of(ps, 0), Option::None), )))
            &&& (args.len() == 0 || !(v_val(args[0]) is HashMap) ==> is_err( r, GErr::Other(txt_args()), ))
        },
        crate::types::Builtin::Meta => {
            &&& (args.len() >= 1 ==> (meta_of(v_val(args[0])) matches Option::Some(m) ==> is_ok_with( r, match m { Option::Some(b) => *b, Option::None => GVal::Nil, }, )))
            &&& (args.len() == 0 || meta_of(v_val(args[0])) is None ==> is_err( r, GErr::Other(txt_args()), ))
        },
        crate::types::Builtin::WithMeta => {
            &&& (args.len() >= 2 ==> (set_meta(v_val(args[0]), v_val(args[1])) matches Option::Some(w) ==> is_ok_with(r, w)))
            &&& (args.len() < 2 || set_meta(v_val(args[0]), v_val(args[1])) is None ==> is_err( r, GErr::Other(txt_args()), ))
        },
        crate::types::Builtin::Conj => {
            &&& (args.len() >= 1 ==> (v_val(args[0]) matches GVal::List(es, m) ==> is_ok_with( r, GVal::List(rev_pre(args, args.len() as int) + es, m), )))
            &&& (args.len() >= 1 ==> (v_val(args[0]) matches GVal::Vector(es, m) ==> is_ok_with( r, GVal::Vector(es + args_tail(args, 1), m), )))
            &&& (args.len() == 0 || !(seq_of(v_val(args[0])) is Some) ==> is_err( r, GErr::Other(txt_args()), ))
        },
        crate::types::Builtin::IsString => {
            &&& (args.len() >= 1 ==> is_ok_with(r, GVal::Bool(v_val(args[0]) is Str)))
            &&& (args.len() == 0 ==> is_err(r, GErr::Other(txt_args())))
        },
        crate::types::Builtin::IsNumber => {
            &&& (args.len() >= 1 ==> is_ok_with(r, GVal::Bool(v_val(args[0]) is Integer)))
            &&& (args.len() == 0 ==> is_err(r, GErr::Other(txt_args())))
        },
        crate::types::Builtin::IsFn => {
            &&& (args.len() >= 1 ==> is_ok_with(r, GVal::Bool(is_fn_val(v_val(args[0])))))
            &&& (args.len() == 0 ==> is_err(r, GErr::Other(txt_args())))
        },
        crate::types::Builtin::IsMacro => {
            &&& (args.len() >= 1 ==> is_ok_with(r, GVal::Bool(is_macro_val(v_val(args[0])))))
            &&& (args.len() == 0 ==> is_err(r, GErr::Other(txt_args())))
        },
        crate::types::Builtin::IsAtom => {
            &&& (args.len() >= 1 ==> is_ok_with(r, GVal::Bool(v_val(args[0]) is Atom)))
            &&& (args.len() == 0 ==> is_err(r, GErr::Other(txt_args())))
        },
        crate::types::Builtin::ToSeq => {
            &&& (args.len() >= 1 ==> (v_val(args[0]) matches GVal::List(es, m) ==> is_ok_with( r, if es.len() == 0 { GVal::Nil } else { GVal::List(es, m) }, )))
            &&& (args.len() >= 1 ==> (v_val(args[0]) matches GVal::Vector(es, m) ==> is_ok_with( r, if es.len() == 0 { GVal::Nil } else { GVal::List(es, m) }, )))
            &&& (args.len() >= 1 ==> (v_val(args[0]) matches GVal::Str(t) ==> is_ok_with( r, if t.len() == 0 { GVal::Nil } else { GVal::List(chars_of(t, 0), Option::None) }, )))
            &&& (args.len() >= 1 && v_val(args[0]) is Nil ==> is_ok_with(r, GVal::Nil))
            &&& (args.len() == 0 || !(seq_of(v_val(args[0])) is Some || v_val(args[0]) is Str || v_val( args[0], ) is Nil) ==> is_err(r, GErr::Other(txt_args())))
        },
        crate::types::Builtin::ReadString => {
            &&& (args.len() >= 1 ==> (v_val(args[0]) matches GVal::Str(t) ==> (match crate::reader::read_spec( t, ) { Result::Ok(g) => is_ok_with(r, g), Result::Err(ge) => is_err(r, ge), })))
            &&& (args.len() == 0 || !(v_val(args[0]) is Str) ==> is_err(r, GErr::Other(txt_args())))
        },
        _ => true,
    }
}

} // verus!
