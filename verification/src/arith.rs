//! Integer arithmetic that wraps around at the ends of `isize`.

use crate::value::IntrinsicOp;
use vstd::arithmetic::div_mod::{
    lemma_add_mod_noop, lemma_fundamental_div_mod, lemma_mod_bound, lemma_mod_multiples_vanish,
    lemma_mul_mod_noop_general, lemma_small_mod, lemma_sub_mod_noop,
};
use vstd::prelude::*;

verus! {

/// The number of values of `isize`.
pub open spec fn range() -> int {
    usize::MAX + 1
}

/// The integer in the range of `isize` that differs from `x` by a multiple of
/// the number of values of `isize`.
pub open spec fn wrap(x: int) -> int {
    let r = x % range();
    if r > isize::MAX {
        r - range()
    } else {
        r
    }
}

/// One step of an arithmetic operation.
pub open spec fn combine(op: IntrinsicOp, acc: int, v: int) -> int {
    match op {
        IntrinsicOp::Add => acc + v,
        IntrinsicOp::Subtract => acc - v,
        _ => acc * v,
    }
}

/// The sum of the integers `vs`.
pub open spec fn sum(vs: Seq<int>) -> int
    decreases vs.len(),
{
    if vs.len() == 0 {
        0
    } else {
        vs[0] + sum(vs.drop_first())
    }
}

/// The product of the integers `vs`.
pub open spec fn product(vs: Seq<int>) -> int
    decreases vs.len(),
{
    if vs.len() == 0 {
        1
    } else {
        vs[0] * product(vs.drop_first())
    }
}

/// What an arithmetic operation makes of the integers `vs`: their sum, the
/// first less the sum of the others, or their product.
pub open spec fn total(op: IntrinsicOp, vs: Seq<int>) -> int {
    match op {
        IntrinsicOp::Add => sum(vs),
        IntrinsicOp::Subtract => vs[0] - sum(vs.drop_first()),
        _ => product(vs),
    }
}

/// What the steps of an arithmetic operation make of `acc` and the integers
/// `vs`, taken one after the other.
pub open spec fn combined(op: IntrinsicOp, acc: int, vs: Seq<int>) -> int
    decreases vs.len(),
{
    if vs.len() == 0 {
        acc
    } else {
        combined(op, combine(op, acc, vs[0]), vs.drop_first())
    }
}

/// Step by step an operation comes to what it makes of all the integers at
/// once.
pub proof fn lemma_combined(op: IntrinsicOp, acc: int, vs: Seq<int>)
    ensures
        combined(op, acc, vs) == match op {
            IntrinsicOp::Add => acc + sum(vs),
            IntrinsicOp::Subtract => acc - sum(vs),
            _ => acc * product(vs),
        },
    decreases vs.len(),
{
    if vs.len() > 0 {
        lemma_combined(op, combine(op, acc, vs[0]), vs.drop_first());
        if op != IntrinsicOp::Add && op != IntrinsicOp::Subtract {
            vstd::arithmetic::mul::lemma_mul_is_associative(
                acc,
                vs[0],
                product(vs.drop_first()),
            );
        }
    }
}

proof fn lemma_range()
    ensures
        range() == 2 * (isize::MAX + 1),
        isize::MIN == -(isize::MAX + 1),
        range() > 0,
{
}

/// `wrap` yields a value of `isize` and leaves such a value as it is.
pub proof fn lemma_wrap_basics(x: int)
    ensures
        isize::MIN <= wrap(x) <= isize::MAX,
        isize::MIN <= x <= isize::MAX ==> wrap(x) == x,
        wrap(x) % range() == x % range(),
{
    lemma_range();
    lemma_mod_bound(x, range());
    let r = x % range();
    if isize::MIN <= x <= isize::MAX {
        if x >= 0 {
            lemma_small_mod(x as nat, range() as nat);
        } else {
            lemma_small_mod((x + range()) as nat, range() as nat);
            lemma_mod_multiples_vanish(1, x, range());
        }
    }
    if r > isize::MAX {
        lemma_mod_multiples_vanish(-1, r, range());
        lemma_small_mod(r as nat, range() as nat);
    } else {
        lemma_small_mod(r as nat, range() as nat);
    }
}

/// Two integers of `isize` that differ by a multiple of its number of values
/// are equal.
proof fn lemma_wrap_unique(a: int, b: int)
    requires
        isize::MIN <= a <= isize::MAX,
        a % range() == b % range(),
    ensures
        a == wrap(b),
{
    lemma_wrap_basics(a);
    lemma_wrap_basics(b);
}

/// Wrapping after each step gives what wrapping once at the end gives.
pub proof fn lemma_wrap_step(op: IntrinsicOp, acc: int, v: int)
    ensures
        wrap(combine(op, wrap(acc), v)) == wrap(combine(op, acc, v)),
{
    lemma_range();
    lemma_wrap_basics(acc);
    let m = range();
    let w = wrap(acc);
    match op {
        IntrinsicOp::Add => {
            lemma_add_mod_noop(w, v, m);
            lemma_add_mod_noop(acc, v, m);
        },
        IntrinsicOp::Subtract => {
            lemma_sub_mod_noop(w, v, m);
            lemma_sub_mod_noop(acc, v, m);
        },
        _ => {
            lemma_mul_mod_noop_general(w, v, m);
            lemma_mul_mod_noop_general(acc, v, m);
        },
    }
    assert(combine(op, w, v) % m == combine(op, acc, v) % m);
}

/// One step of an arithmetic operation on `isize`, wrapping around.
pub fn step(op: IntrinsicOp, acc: isize, v: isize) -> (r: isize)
    ensures
        r == wrap(combine(op, acc as int, v as int)),
{
    proof {
        lemma_range();
        lemma_wrap_basics(combine(op, acc as int, v as int));
    }
    match op {
        IntrinsicOp::Add => {
            let r = acc.wrapping_add(v);
            proof {
                if acc + v > isize::MAX {
                    lemma_mod_multiples_vanish(-1, acc + v, range());
                } else if acc + v < isize::MIN {
                    lemma_mod_multiples_vanish(1, acc + v, range());
                }
                lemma_wrap_unique(r as int, acc + v);
            }
            r
        },
        IntrinsicOp::Subtract => {
            let r = acc.wrapping_sub(v);
            proof {
                if acc - v > isize::MAX {
                    lemma_mod_multiples_vanish(-1, acc - v, range());
                } else if acc - v < isize::MIN {
                    lemma_mod_multiples_vanish(1, acc - v, range());
                }
                lemma_wrap_unique(r as int, acc - v);
            }
            r
        },
        _ => acc.wrapping_mul(v),
    }
}

} // verus!
