//! What holds of evaluation whatever is evaluated.

use crate::arith::{combine, combined, lemma_combined, total, wrap};
use crate::eval::{
    applied, apply, eval, fold_from, folded, resolved, run, show, show_items, shown, shown_items,
};
use crate::location::Place;
use crate::value::{
    cell_ok, ceiling, extends, lemma_below_ceiling, lemma_extends_refl, lemma_extends_trans,
    lemma_push_value, lemma_set_cache, node_ok, well_formed, IntrinsicOp, Node, Value, Var,
};
use vstd::prelude::*;

verus! {

/// Cells added at the end and rewritten result slots change nothing of what
/// an earlier cell resolves to.
pub proof fn lemma_eval_frame(h1: Seq<Value>, h2: Seq<Value>, id: nat)
    requires
        well_formed(h1),
        extends(h1, h2),
        id < h1.len(),
    ensures
        eval(h2, id) == eval(h1, id),
    decreases id, 3int, 0int,
{
    assert(cell_ok(h1, id as int));
    assert(h1[id as int].uncached() == h2[id as int].uncached());
    match h1[id as int] {
        Value::Call(n) => {
            assert(h1[n.op@ as int].uncached() == h2[n.op@ as int].uncached());
            lemma_apply_frame(h1, h2, h1[n.op@ as int]->Func_0, n.args, n.loc);
        },
        _ => {},
    }
}

/// Cells added at the end and rewritten result slots change nothing of what
/// an operation comes to on earlier cells.
pub proof fn lemma_apply_frame(
    h1: Seq<Value>,
    h2: Seq<Value>,
    op: IntrinsicOp,
    args: Seq<Var>,
    loc: Place,
)
    requires
        well_formed(h1),
        extends(h1, h2),
        ceiling(args) <= h1.len(),
    ensures
        apply(h2, op, args, loc) == apply(h1, op, args, loc),
    decreases ceiling(args), 2int, 0int,
{
    match op {
        IntrinsicOp::Print => {
            if args.len() == 1 {
                lemma_below_ceiling(args, 0);
                lemma_show_frame(h1, h2, args[0]@);
            }
        },
        IntrinsicOp::Add => {
            lemma_fold_frame(h1, h2, op, args, 0, 0);
        },
        _ => {
            if args.len() > 0 {
                lemma_below_ceiling(args, 0);
                lemma_eval_frame(h1, h2, args[0]@);
                if let Ok(Value::Integer(v)) = eval(h1, args[0]@).result {
                    lemma_fold_frame(h1, h2, op, args, 1, v);
                }
            }
        },
    }
}

/// A call comes to the same, and writes the same lines, whatever its result
/// slot holds and whatever cells were added or result slots rewritten since:
/// running it again does all its work again.
pub proof fn lemma_rerun(h1: Seq<Value>, h2: Seq<Value>, n: Node, cache: Option<Var>)
    requires
        well_formed(h1),
        node_ok(h1, n, h1.len() as int),
        extends(h1, h2),
    ensures
        run(h2, Node { cache, ..n }) == run(h1, n),
{
    assert(h1[n.op@ as int].uncached() == h2[n.op@ as int].uncached());
    lemma_apply_frame(h1, h2, h1[n.op@ as int]->Func_0, n.args, n.loc);
}

/// `print` with one operand always writes: its last line is the operand as
/// text, and it comes to zero.
pub proof fn lemma_print_writes(h: Seq<Value>, args: Seq<Var>, loc: Place)
    requires
        args.len() == 1,
    ensures
        apply(h, IntrinsicOp::Print, args, loc).result == Ok::<int, Seq<char>>(0),
        apply(h, IntrinsicOp::Print, args, loc).lines.len() >= 1,
        apply(h, IntrinsicOp::Print, args, loc).lines.last() == show(h, args[0]@).text,
{
    lemma_below_ceiling(args, 0);
}

/// Resolving a cell leaves the cells well formed, and changes them only by
/// adding cells at the end and by rewriting result slots.
pub proof fn lemma_resolved_extends(h: Seq<Value>, id: nat)
    requires
        well_formed(h),
        id < h.len(),
    ensures
        well_formed(resolved(h, id)),
        extends(h, resolved(h, id)),
    decreases id, 3int, 0int,
{
    lemma_extends_refl(h);
    assert(cell_ok(h, id as int));
    if let Value::Call(n) = h[id as int] {
        let op = h[n.op@ as int]->Func_0;
        let after = applied(h, op, n.args);
        lemma_applied_extends(h, op, n.args);
        if apply(h, op, n.args, n.loc).result is Ok {
            let c = Var::at((after.len() - 1) as nat);
            Var::lemma_bounded(c);
            if after.len() - 1 <= usize::MAX {
                Var::lemma_at((after.len() - 1) as nat);
            }
            assert(h[id as int].uncached() == after[id as int].uncached());
            lemma_set_cache(after, id as int, c);
            lemma_extends_trans(h, after, resolved(h, id));
        }
    }
}

/// Running an operation leaves the cells well formed, and changes them only
/// by adding cells at the end and by rewriting result slots.
pub proof fn lemma_applied_extends(h: Seq<Value>, op: IntrinsicOp, args: Seq<Var>)
    requires
        well_formed(h),
        ceiling(args) <= h.len(),
    ensures
        well_formed(applied(h, op, args)),
        extends(h, applied(h, op, args)),
    decreases ceiling(args), 2int, 0int,
{
    lemma_extends_refl(h);
    match op {
        IntrinsicOp::Print => {
            if args.len() == 1 {
                lemma_below_ceiling(args, 0);
                lemma_shown_extends(h, args[0]@);
                let after = shown(h, args[0]@);
                lemma_push_value(after, Value::Integer(0));
                lemma_extends_trans(h, after, after.push(Value::Integer(0)));
            }
        },
        IntrinsicOp::Add => {
            lemma_folded_extends(h, op, args, 0, 0);
        },
        _ => {
            if args.len() > 0 {
                lemma_below_ceiling(args, 0);
                lemma_resolved_extends(h, args[0]@);
                let after = resolved(h, args[0]@);
                if let Ok(Value::Integer(v)) = eval(h, args[0]@).result {
                    lemma_folded_extends(after, op, args, 1, v);
                    lemma_extends_trans(h, after, folded(after, op, args, 1, v));
                }
            }
        },
    }
}

proof fn lemma_folded_extends(h: Seq<Value>, op: IntrinsicOp, args: Seq<Var>, i: int, acc: int)
    requires
        well_formed(h),
        ceiling(args) <= h.len(),
    ensures
        well_formed(folded(h, op, args, i, acc)),
        extends(h, folded(h, op, args, i, acc)),
    decreases ceiling(args), 1int, args.len() - i,
{
    lemma_extends_refl(h);
    if 0 <= i < args.len() {
        lemma_below_ceiling(args, i);
        lemma_resolved_extends(h, args[i]@);
        let after = resolved(h, args[i]@);
        match eval(h, args[i]@).result {
            Ok(Value::Integer(v)) => {
                lemma_folded_extends(after, op, args, i + 1, combine(op, acc, v));
                lemma_extends_trans(h, after, folded(after, op, args, i + 1, combine(op, acc, v)));
            },
            Ok(_) => {
                if op == IntrinsicOp::Add {
                    lemma_shown_extends(after, args[i]@);
                    lemma_extends_trans(h, after, shown(after, args[i]@));
                }
            },
            Err(_) => {},
        }
    } else {
        lemma_push_value(h, Value::Integer(wrap(acc)));
    }
}

/// Making a cell text leaves the cells well formed, and changes them only by
/// adding cells at the end and by rewriting result slots.
pub proof fn lemma_shown_extends(h: Seq<Value>, id: nat)
    requires
        well_formed(h),
        id < h.len(),
    ensures
        well_formed(shown(h, id)),
        extends(h, shown(h, id)),
    decreases id, 4int, 0int,
{
    lemma_extends_refl(h);
    assert(cell_ok(h, id as int));
    match h[id as int] {
        Value::Call(_) => {
            lemma_resolved_extends(h, id);
        },
        Value::List(items) => {
            lemma_shown_items_extends(h, items, 0);
        },
        _ => {},
    }
}

proof fn lemma_shown_items_extends(h: Seq<Value>, items: Seq<Var>, i: int)
    requires
        well_formed(h),
        ceiling(items) <= h.len(),
    ensures
        well_formed(shown_items(h, items, i)),
        extends(h, shown_items(h, items, i)),
    decreases ceiling(items), 1int, items.len() - i,
{
    lemma_extends_refl(h);
    if 0 <= i < items.len() {
        lemma_below_ceiling(items, i);
        lemma_shown_extends(h, items[i]@);
        let after = shown(h, items[i]@);
        lemma_shown_items_extends(after, items, i + 1);
        lemma_extends_trans(h, after, shown_items(after, items, i + 1));
    }
}

/// Resolving a cell a second time comes to the same and writes the same
/// lines again: what the first time left in result slots is not used.
pub proof fn lemma_resolve_twice(h: Seq<Value>, id: nat)
    requires
        well_formed(h),
        id < h.len(),
    ensures
        eval(resolved(h, id), id) == eval(h, id),
{
    lemma_resolved_extends(h, id);
    lemma_eval_frame(h, resolved(h, id), id);
}

/// Running a call a second time comes to the same and writes the same lines
/// again, whatever its result slot holds by then.
pub proof fn lemma_run_twice(h: Seq<Value>, n: Node, cache: Option<Var>)
    requires
        well_formed(h),
        node_ok(h, n, h.len() as int),
    ensures
        run(applied(h, h[n.op@ as int]->Func_0, n.args), Node { cache, ..n }) == run(h, n),
{
    lemma_applied_extends(h, h[n.op@ as int]->Func_0, n.args);
    lemma_rerun(h, applied(h, h[n.op@ as int]->Func_0, n.args), n, cache);
}

proof fn lemma_fold_combined(
    h: Seq<Value>,
    op: IntrinsicOp,
    args: Seq<Var>,
    vs: Seq<int>,
    i: int,
    acc: int,
)
    requires
        op != IntrinsicOp::Print,
        vs.len() == args.len(),
        0 <= i <= args.len(),
        forall|j: int|
            0 <= j < args.len() ==> (#[trigger] eval(h, args[j]@)).result == Ok::<
                Value,
                Seq<char>,
            >(Value::Integer(vs[j])),
    ensures
        fold_from(h, op, args, i, acc).result == Ok::<int, Seq<char>>(
            wrap(combined(op, acc, vs.skip(i))),
        ),
    decreases args.len() - i,
{
    if i < args.len() {
        lemma_fold_combined(h, op, args, vs, i + 1, combine(op, acc, vs[i]));
        assert(vs.skip(i).drop_first() == vs.skip(i + 1));
        assert(eval(h, args[i]@).result == Ok::<Value, Seq<char>>(Value::Integer(vs[i])));
    }
}

/// An arithmetic operation whose operands all resolve to integers comes to
/// their sum, to the first less the sum of the others, or to their product,
/// wrapped around at the ends of `isize`.
pub proof fn lemma_arithmetic(
    h: Seq<Value>,
    op: IntrinsicOp,
    args: Seq<Var>,
    loc: Place,
    vs: Seq<int>,
)
    requires
        op != IntrinsicOp::Print,
        op != IntrinsicOp::Add ==> args.len() > 0,
        vs.len() == args.len(),
        forall|j: int|
            0 <= j < args.len() ==> (#[trigger] eval(h, args[j]@)).result == Ok::<
                Value,
                Seq<char>,
            >(Value::Integer(vs[j])),
    ensures
        apply(h, op, args, loc).result == Ok::<int, Seq<char>>(wrap(total(op, vs))),
{
    if op == IntrinsicOp::Add {
        lemma_fold_combined(h, op, args, vs, 0, 0);
        lemma_combined(op, 0, vs);
        assert(vs.skip(0) == vs);
    } else {
        lemma_fold_combined(h, op, args, vs, 1, vs[0]);
        lemma_combined(op, vs[0], vs.skip(1));
        assert(vs.skip(1) == vs.drop_first());
        assert(eval(h, args[0]@).result == Ok::<Value, Seq<char>>(Value::Integer(vs[0])));
    }
}

proof fn lemma_fold_frame(
    h1: Seq<Value>,
    h2: Seq<Value>,
    op: IntrinsicOp,
    args: Seq<Var>,
    i: int,
    acc: int,
)
    requires
        well_formed(h1),
        extends(h1, h2),
        ceiling(args) <= h1.len(),
    ensures
        fold_from(h2, op, args, i, acc) == fold_from(h1, op, args, i, acc),
    decreases ceiling(args), 1int, args.len() - i,
{
    if 0 <= i < args.len() {
        lemma_below_ceiling(args, i);
        lemma_eval_frame(h1, h2, args[i]@);
        match eval(h1, args[i]@).result {
            Ok(Value::Integer(v)) => {
                lemma_fold_frame(h1, h2, op, args, i + 1, combine(op, acc, v));
            },
            Ok(_) => {
                lemma_show_frame(h1, h2, args[i]@);
            },
            Err(_) => {},
        }
    }
}

/// Cells added at the end and rewritten result slots change nothing of the
/// text of an earlier cell.
pub proof fn lemma_show_frame(h1: Seq<Value>, h2: Seq<Value>, id: nat)
    requires
        well_formed(h1),
        extends(h1, h2),
        id < h1.len(),
    ensures
        show(h2, id) == show(h1, id),
    decreases id, 4int, 0int,
{
    assert(cell_ok(h1, id as int));
    assert(h1[id as int].uncached() == h2[id as int].uncached());
    match h1[id as int] {
        Value::Call(_) => {
            lemma_eval_frame(h1, h2, id);
        },
        Value::List(items) => {
            lemma_show_items_frame(h1, h2, items, 0);
        },
        _ => {},
    }
}

proof fn lemma_show_items_frame(h1: Seq<Value>, h2: Seq<Value>, items: Seq<Var>, i: int)
    requires
        well_formed(h1),
        extends(h1, h2),
        ceiling(items) <= h1.len(),
    ensures
        show_items(h2, items, i) == show_items(h1, items, i),
    decreases ceiling(items), 1int, items.len() - i,
{
    if 0 <= i < items.len() {
        lemma_below_ceiling(items, i);
        lemma_show_frame(h1, h2, items[i]@);
        lemma_show_items_frame(h1, h2, items, i + 1);
    }
}

} // verus!
