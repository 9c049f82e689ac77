//! Equality of values, as far as it can be told without floating-point
//! arithmetic.

use crate::value::{ceiling, cell_ok, lemma_below_ceiling, well_formed, LispType, Runtime, Value, Var};
use vstd::prelude::*;

verus! {

/// A number above the index of every cell that the value refers to directly.
pub open spec fn reach(v: Value) -> nat {
    match v {
        Value::List(items) => ceiling(items),
        _ => 0,
    }
}

/// What comparing `a` and `b` comes to: `None` if they differ, and else the
/// pairs of floating-point literals that have to be equal for `a` and `b` to
/// be equal.
///
/// Integers and strings are equal as usual, and nil is equal to nil. Two
/// lists are equal if they are as long as each other and the values in their
/// cells are equal, item by item. A function is equal to nothing, and so is a
/// call, whose operator is a function. Values of different kinds differ.
pub open spec fn alike(h: Seq<Value>, a: Value, b: Value) -> Option<Seq<(Seq<char>, Seq<char>)>>
    decreases reach(a), 1int, 0int,
{
    match (a, b) {
        (Value::Integer(x), Value::Integer(y)) => if x == y {
            Some(Seq::empty())
        } else {
            None
        },
        (Value::Str(x), Value::Str(y)) => if x == y {
            Some(Seq::empty())
        } else {
            None
        },
        (Value::Nil, Value::Nil) => Some(Seq::empty()),
        (Value::Floating(x), Value::Floating(y)) => Some(seq![(x, y)]),
        (Value::List(xs), Value::List(ys)) => if xs.len() == ys.len() {
            alike_items(h, xs, ys, 0)
        } else {
            None
        },
        _ => None,
    }
}

/// What comparing the values in the cells of `xs` and `ys` from index `i` on
/// comes to, pair by pair. A cell that refers to itself or to a later cell,
/// which no cell of a well-formed runtime does, differs from every cell.
pub open spec fn alike_items(h: Seq<Value>, xs: Seq<Var>, ys: Seq<Var>, i: int) -> Option<
    Seq<(Seq<char>, Seq<char>)>,
>
    decreases ceiling(xs), 0int, xs.len() - i,
{
    if i < 0 || i >= xs.len() {
        Some(Seq::empty())
    } else if reach(h[xs[i]@ as int]) <= xs[i]@ {
        proof {
            lemma_below_ceiling(xs, i);
        }
        match alike(h, h[xs[i]@ as int], h[ys[i]@ as int]) {
            Some(first) => match alike_items(h, xs, ys, i + 1) {
                Some(rest) => Some(first + rest),
                None => None,
            },
            None => None,
        }
    } else {
        None
    }
}

/// What the pairs of strings stand for.
pub open spec fn pairs_view(v: Seq<(String, String)>) -> Seq<(Seq<char>, Seq<char>)> {
    Seq::new(v.len(), |i: int| (v[i].0@, v[i].1@))
}

impl LispType {
    /// Compares the value with `other`, both speaking of the cells of `rt`.
    /// Floating-point literals are not compared: `None` says that the two
    /// values differ, and `Some` that they are equal if each pair of
    /// floating-point literals in it is, which is left to the caller.
    pub fn alike(&self, other: &LispType, rt: &Runtime) -> (r: Option<Vec<(String, String)>>)
        requires
            rt.wf(),
            reach(self@) <= rt.cells().len(),
            reach(other@) <= rt.cells().len(),
        ensures
            match r {
                Some(pairs) => alike(rt.cells(), self@, other@) == Some(pairs_view(pairs@)),
                None => alike(rt.cells(), self@, other@) is None,
            },
        decreases reach(self@),
    {
        let ghost h = rt.cells();
        match (self, other) {
            (LispType::Integer(x), LispType::Integer(y)) => {
                if *x == *y {
                    let pairs: Vec<(String, String)> = Vec::new();
                    assert(pairs_view(pairs@) =~= Seq::empty());
                    Some(pairs)
                } else {
                    None
                }
            },
            (LispType::Str(x), LispType::Str(y)) => {
                if *x == *y {
                    let pairs: Vec<(String, String)> = Vec::new();
                    assert(pairs_view(pairs@) =~= Seq::empty());
                    Some(pairs)
                } else {
                    None
                }
            },
            (LispType::Nil, LispType::Nil) => {
                let pairs: Vec<(String, String)> = Vec::new();
                assert(pairs_view(pairs@) =~= Seq::empty());
                Some(pairs)
            },
            (LispType::Floating(x), LispType::Floating(y)) => {
                let mut pairs: Vec<(String, String)> = Vec::new();
                pairs.push((x.clone(), y.clone()));
                assert(pairs_view(pairs@) =~= seq![(x@, y@)]);
                Some(pairs)
            },
            (LispType::List(xs), LispType::List(ys)) => {
                if xs.len() != ys.len() {
                    return None;
                }
                let mut pairs: Vec<(String, String)> = Vec::new();
                let mut i: usize = 0;
                assert(pairs_view(pairs@) =~= Seq::empty());
                while i < xs.len()
                    invariant
                        h == rt.cells(),
                        rt.wf(),
                        reach(self@) == ceiling(xs@),
                        alike(h, self@, other@) == alike_items(h, xs@, ys@, 0),
                        xs@.len() == ys@.len(),
                        ceiling(xs@) <= h.len(),
                        ceiling(ys@) <= h.len(),
                        i <= xs.len(),
                        alike_items(h, xs@, ys@, 0) == match alike_items(h, xs@, ys@, i as int) {
                            Some(rest) => Some(pairs_view(pairs@) + rest),
                            None => None,
                        },
                    decreases xs.len() - i,
                {
                    proof {
                        lemma_below_ceiling(xs@, i as int);
                        lemma_below_ceiling(ys@, i as int);
                        assert(cell_ok(h, xs@[i as int]@ as int));
                        assert(cell_ok(h, ys@[i as int]@ as int));
                    }
                    let ghost so_far = pairs_view(pairs@);
                    match xs[i].get(rt).alike(ys[i].get(rt), rt) {
                        Some(mut more) => {
                            let ghost first = pairs_view(more@);
                            let ghost added = more@;
                            let ghost kept = pairs@;
                            pairs.append(&mut more);
                            proof {
                                assert(pairs@ == kept + added);
                                assert(pairs_view(pairs@) =~= so_far + first);
                                if let Some(rest) = alike_items(h, xs@, ys@, i + 1) {
                                    assert(so_far + (first + rest) =~= (so_far + first) + rest);
                                }
                            }
                        },
                        None => {
                            return None;
                        },
                    }
                    i += 1;
                }
                assert(pairs_view(pairs@) + Seq::empty() =~= pairs_view(pairs@));
                Some(pairs)
            },
            _ => None,
        }
    }
}

} // verus!
