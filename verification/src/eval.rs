//! Evaluation: what a cell resolves to, what the built-in operations compute,
//! and what is written on the way.

use crate::arith::{combine, lemma_wrap_basics, lemma_wrap_step, step, wrap};
use crate::error::TypeError;
use crate::laws::{lemma_eval_frame, lemma_show_frame};
use crate::location::{Location, Place};
use crate::text::{push_signed_decimal, signed_decimal};
use crate::value::{
    ceiling, extends, lemma_below_ceiling, lemma_extends_refl, lemma_extends_trans,
    lemma_push_value, lemma_set_cache, node_ok, well_formed, IntrinsicOp, LispType, Node, Runtime,
    Statement, Value, Var,
};
use vstd::prelude::*;
use vstd::string::StringExecFns;

verus! {

/// What a computation comes to: its result, or the message of the error that
/// ended it, and the lines that it wrote before, oldest first.
pub struct Outcome<T> {
    pub result: Result<T, Seq<char>>,
    pub lines: Seq<Seq<char>>,
}

impl<T> Outcome<T> {
    pub open spec fn done(value: T) -> Outcome<T> {
        Outcome { result: Ok(value), lines: Seq::empty() }
    }

    pub open spec fn failed(message: Seq<char>) -> Outcome<T> {
        Outcome { result: Err(message), lines: Seq::empty() }
    }

    /// The outcome that first writes `lines`.
    pub open spec fn after(self, lines: Seq<Seq<char>>) -> Outcome<T> {
        Outcome { result: self.result, lines: lines + self.lines }
    }
}

/// A text and the lines that were written while it was made.
pub struct Shown {
    pub text: Seq<char>,
    pub lines: Seq<Seq<char>>,
}

/// The name of an arithmetic operation in a message.
pub open spec fn op_name(op: IntrinsicOp) -> Seq<char> {
    match op {
        IntrinsicOp::Add => "Addition"@,
        IntrinsicOp::Subtract => "Subtraction"@,
        IntrinsicOp::Multiply => "Multiplication"@,
        IntrinsicOp::Print => "Print"@,
    }
}

/// The line that tells of a call at `loc` with fewer than two operands.
pub open spec fn few_operands(op: IntrinsicOp, loc: Place) -> Seq<char> {
    loc.text() + " - "@ + op_name(op) + " requires at least two arguments!"@
}

/// The message for a call with no operand at all.
pub open spec fn no_operand(op: IntrinsicOp) -> Seq<char> {
    op_name(op) + " requires at least one argument!"@
}

/// The message for a first operand that is no integer.
pub open spec fn bad_first(op: IntrinsicOp) -> Seq<char> {
    match op {
        IntrinsicOp::Subtract => "Cannot subtract from a non-integer!"@,
        _ => "Cannot multiply with a non-integer type!"@,
    }
}

/// The message for a later operand of a subtraction or multiplication that
/// is no integer.
pub open spec fn bad_operand(op: IntrinsicOp) -> Seq<char> {
    match op {
        IntrinsicOp::Subtract => "Cannot subtract a non-integer type from an integer!"@,
        _ => "Cannot multiply a non-integer type with an integer!"@,
    }
}

/// The message for an operand of an addition that is no integer; `text` is
/// the operand as text.
pub open spec fn bad_addend(text: Seq<char>) -> Seq<char> {
    "Cannot add a non-integer type to an integer: "@ + text + "!"@
}

/// The message for a `print` that has not exactly one operand.
pub open spec fn bad_print() -> Seq<char> {
    "Print intrinsic requires only one argument!"@
}

/// What cell `id` of `h` resolves to: a call to what the call comes to, any
/// other value to itself. The result slot of a call is not read.
///
/// A call with an operand that is not an earlier cell, which no cell of a
/// well-formed runtime is, comes to an error with no message.
pub open spec fn eval(h: Seq<Value>, id: nat) -> Outcome<Value>
    decreases id, 3int, 0int,
{
    match h[id as int] {
        Value::Call(n) => {
            if ceiling(n.args) <= id {
                let c = apply(h, h[n.op@ as int]->Func_0, n.args, n.loc);
                Outcome::<Value> {
                    result: match c.result {
                        Ok(v) => Ok(Value::Integer(v)),
                        Err(e) => Err(e),
                    },
                    lines: c.lines,
                }
            } else {
                Outcome::failed(Seq::empty())
            }
        },
        v => Outcome::done(v),
    }
}

/// What the call `n` comes to: what its operator, the function in the cell
/// `n.op`, comes to on its operands.
pub open spec fn run(h: Seq<Value>, n: Node) -> Outcome<int> {
    apply(h, h[n.op@ as int]->Func_0, n.args, n.loc)
}

/// What the operation `op` comes to on the operands `args`, called at `loc`.
///
/// The arithmetic operations first write a line if they have fewer than two
/// operands, and go on. Addition starts from zero; subtraction and
/// multiplication start from their first operand and fail without one. Each
/// operand is resolved in turn and has to be an integer. The result wraps
/// around at the ends of `isize`. `print` takes exactly one operand, writes
/// it as text in a line of its own and comes to zero.
pub open spec fn apply(h: Seq<Value>, op: IntrinsicOp, args: Seq<Var>, loc: Place) -> Outcome<int>
    decreases ceiling(args), 2int, 0int,
{
    let warning = if args.len() < 2 {
        seq![few_operands(op, loc)]
    } else {
        Seq::empty()
    };
    match op {
        IntrinsicOp::Print => {
            if args.len() != 1 {
                Outcome::failed(bad_print())
            } else {
                proof {
                    lemma_below_ceiling(args, 0);
                }
                let s = show(h, args[0]@);
                Outcome { result: Ok(0), lines: s.lines.push(s.text) }
            }
        },
        IntrinsicOp::Add => fold_from(h, op, args, 0, 0).after(warning),
        _ => {
            if args.len() == 0 {
                Outcome::failed(no_operand(op)).after(warning)
            } else {
                proof {
                    lemma_below_ceiling(args, 0);
                }
                let first = eval(h, args[0]@);
                match first.result {
                    Ok(Value::Integer(v)) => fold_from(h, op, args, 1, v).after(first.lines).after(
                        warning,
                    ),
                    Ok(_) => Outcome::failed(bad_first(op)).after(first.lines).after(warning),
                    Err(e) => Outcome::failed(e).after(first.lines).after(warning),
                }
            }
        },
    }
}

/// What the arithmetic operation `op` comes to on the operands from index `i`
/// on, when the operands before come to `acc`.
pub open spec fn fold_from(h: Seq<Value>, op: IntrinsicOp, args: Seq<Var>, i: int, acc: int) -> Outcome<int>
    decreases ceiling(args), 1int, args.len() - i,
{
    if i < 0 || i >= args.len() {
        Outcome::done(wrap(acc))
    } else {
        proof {
            lemma_below_ceiling(args, i);
        }
        let r = eval(h, args[i]@);
        match r.result {
            Ok(Value::Integer(v)) => fold_from(h, op, args, i + 1, combine(op, acc, v)).after(
                r.lines,
            ),
            Ok(_) => if op == IntrinsicOp::Add {
                let s = show(h, args[i]@);
                Outcome::failed(bad_addend(s.text)).after(s.lines).after(r.lines)
            } else {
                Outcome::failed(bad_operand(op)).after(r.lines)
            },
            Err(e) => Outcome::failed(e).after(r.lines),
        }
    }
}

/// Cell `id` of `h` as text. A call is resolved for it, and shown as its
/// result or as the message of its error; a list is shown as its items, each
/// after a space, between parentheses. A floating-point number is shown as
/// it was written.
///
/// A list with an item that is not an earlier cell, which no cell of a
/// well-formed runtime is, is shown as nothing.
pub open spec fn show(h: Seq<Value>, id: nat) -> Shown
    decreases id, 4int, 0int,
{
    match h[id as int] {
        Value::Integer(i) => Shown { text: signed_decimal(i), lines: Seq::empty() },
        Value::Str(s) => Shown { text: s, lines: Seq::empty() },
        Value::Func(_) => Shown { text: "<Function>"@, lines: Seq::empty() },
        Value::Call(_) => {
            let r = eval(h, id);
            Shown {
                text: match r.result {
                    Ok(v) => signed_decimal(v->Integer_0),
                    Err(e) => e,
                },
                lines: r.lines,
            }
        },
        Value::List(items) => {
            if ceiling(items) <= id {
                let inner = show_items(h, items, 0);
                Shown { text: seq!['('] + inner.text + seq![')'], lines: inner.lines }
            } else {
                Shown { text: Seq::empty(), lines: Seq::empty() }
            }
        },
        Value::Floating(t) => Shown { text: t, lines: Seq::empty() },
        Value::Nil => Shown { text: "nil"@, lines: Seq::empty() },
    }
}

/// The items of a list from index `i` on as text, each after a space.
pub open spec fn show_items(h: Seq<Value>, items: Seq<Var>, i: int) -> Shown
    decreases ceiling(items), 1int, items.len() - i,
{
    if i < 0 || i >= items.len() {
        Shown { text: Seq::empty(), lines: Seq::empty() }
    } else {
        proof {
            lemma_below_ceiling(items, i);
        }
        let first = show(h, items[i]@);
        let rest = show_items(h, items, i + 1);
        Shown { text: seq![' '] + first.text + rest.text, lines: first.lines + rest.lines }
    }
}

/// The cells after cell `id` of `h` was resolved: for a call, those after
/// its operation ran, with the call's result slot set to the new last cell
/// if the operation succeeded; for any other value, `h` unchanged.
pub open spec fn resolved(h: Seq<Value>, id: nat) -> Seq<Value>
    decreases id, 3int, 0int,
{
    match h[id as int] {
        Value::Call(n) => {
            if ceiling(n.args) <= id {
                let op = h[n.op@ as int]->Func_0;
                let after = applied(h, op, n.args);
                if apply(h, op, n.args, n.loc).result is Ok {
                    after.update(
                        id as int,
                        Value::Call(Node { cache: Some(Var::at((after.len() - 1) as nat)), ..n }),
                    )
                } else {
                    after
                }
            } else {
                h
            }
        },
        _ => h,
    }
}

/// The cells after the operation `op` ran on the operands `args`: those
/// after its operands were resolved or shown, one after the other as far as
/// the operation got, and at the end a new cell with the result if it
/// succeeded.
pub open spec fn applied(h: Seq<Value>, op: IntrinsicOp, args: Seq<Var>) -> Seq<Value>
    decreases ceiling(args), 2int, 0int,
{
    match op {
        IntrinsicOp::Print => {
            if args.len() != 1 {
                h
            } else {
                proof {
                    lemma_below_ceiling(args, 0);
                }
                shown(h, args[0]@).push(Value::Integer(0))
            }
        },
        IntrinsicOp::Add => folded(h, op, args, 0, 0),
        _ => {
            if args.len() == 0 {
                h
            } else {
                proof {
                    lemma_below_ceiling(args, 0);
                }
                match eval(h, args[0]@).result {
                    Ok(Value::Integer(v)) => folded(resolved(h, args[0]@), op, args, 1, v),
                    _ => resolved(h, args[0]@),
                }
            }
        },
    }
}

/// The cells after the arithmetic operation `op` ran on the operands from
/// index `i` on, when the operands before come to `acc`.
pub open spec fn folded(h: Seq<Value>, op: IntrinsicOp, args: Seq<Var>, i: int, acc: int) -> Seq<Value>
    decreases ceiling(args), 1int, args.len() - i,
{
    if i < 0 || i >= args.len() {
        h.push(Value::Integer(wrap(acc)))
    } else {
        proof {
            lemma_below_ceiling(args, i);
        }
        let after = resolved(h, args[i]@);
        match eval(h, args[i]@).result {
            Ok(Value::Integer(v)) => folded(after, op, args, i + 1, combine(op, acc, v)),
            Ok(_) => if op == IntrinsicOp::Add {
                shown(after, args[i]@)
            } else {
                after
            },
            Err(_) => after,
        }
    }
}

/// The cells after cell `id` of `h` was made text.
pub open spec fn shown(h: Seq<Value>, id: nat) -> Seq<Value>
    decreases id, 4int, 0int,
{
    match h[id as int] {
        Value::Call(_) => resolved(h, id),
        Value::List(items) => if ceiling(items) <= id {
            shown_items(h, items, 0)
        } else {
            h
        },
        _ => h,
    }
}

/// The cells after the items of a list from index `i` on were made text.
pub open spec fn shown_items(h: Seq<Value>, items: Seq<Var>, i: int) -> Seq<Value>
    decreases ceiling(items), 1int, items.len() - i,
{
    if i < 0 || i >= items.len() {
        h
    } else {
        proof {
            lemma_below_ceiling(items, i);
        }
        shown_items(shown(h, items[i]@), items, i + 1)
    }
}

/// What can be called with operands: the contract between a call and its
/// operator.
pub trait Callable {
    /// Runs the operation on the operand cells `args`, for a call written at
    /// `loc_called`, and hands back the cell with the result.
    fn call(&self, rt: &mut Runtime, args: &Vec<Var>, loc_called: &Location) -> (r: Result<
        Var,
        TypeError,
    >)
        requires
            old(rt).wf(),
            ceiling(args@) <= old(rt).cells().len(),
        ensures
            final(rt).wf(),
            extends(old(rt).cells(), final(rt).cells()),
            old(rt).lines().is_prefix_of(final(rt).lines()),
            r matches Ok(v) ==> v@ < final(rt).cells().len(),
    ;
}

/// Whether `new` is `old` after a computation that wrote `lines`.
pub open spec fn advanced(old: &Runtime, new: &Runtime, lines: Seq<Seq<char>>) -> bool {
    &&& new.wf()
    &&& extends(old.cells(), new.cells())
    &&& new.lines() == old.lines() + lines
}

/// Whether `r` is what `outcome` asks for: a cell of `h` that holds the
/// result, or the error with the message.
pub open spec fn delivers(h: Seq<Value>, r: Result<Var, TypeError>, outcome: Outcome<Value>) -> bool {
    match r {
        Ok(v) => v@ < h.len() && outcome.result == Ok::<Value, Seq<char>>(h[v@ as int]),
        Err(e) => outcome.result == Err::<Value, Seq<char>>(e@),
    }
}

/// Whether `r` is what `outcome` asks for: the last cell of `h`, which is
/// not among its first `fresh_from` ones and holds the integer, or the error
/// with the message.
pub open spec fn delivers_int(
    h: Seq<Value>,
    r: Result<Var, TypeError>,
    outcome: Outcome<int>,
    fresh_from: nat,
) -> bool {
    match r {
        Ok(v) => {
            &&& fresh_from <= v@ == h.len() - 1
            &&& outcome.result == Ok::<int, Seq<char>>(h[v@ as int]->Integer_0)
            &&& h[v@ as int] is Integer
        },
        Err(e) => outcome.result == Err::<int, Seq<char>>(e@),
    }
}

proof fn lemma_after_after<T>(o: Outcome<T>, a: Seq<Seq<char>>, b: Seq<Seq<char>>)
    ensures
        o.after(a).after(b) == o.after(b + a),
{
    assert(b + (a + o.lines) =~= (b + a) + o.lines);
}

fn op_word(op: IntrinsicOp) -> (word: &'static str)
    ensures
        word@ == op_name(op),
{
    match op {
        IntrinsicOp::Add => "Addition",
        IntrinsicOp::Subtract => "Subtraction",
        IntrinsicOp::Multiply => "Multiplication",
        IntrinsicOp::Print => "Print",
    }
}

fn few_operands_line(op: IntrinsicOp, loc: &Location) -> (line: String)
    ensures
        line@ == few_operands(op, loc@),
{
    let mut line = loc.to_text();
    line.append(" - ");
    line.append(op_word(op));
    line.append(" requires at least two arguments!");
    line
}

fn no_operand_error(op: IntrinsicOp) -> (e: TypeError)
    ensures
        e@ == no_operand(op),
{
    let mut msg = op_word(op).to_owned();
    msg.append(" requires at least one argument!");
    TypeError::new(msg)
}

fn bad_first_error(op: IntrinsicOp) -> (e: TypeError)
    ensures
        e@ == bad_first(op),
{
    match op {
        IntrinsicOp::Subtract => TypeError::new("Cannot subtract from a non-integer!".to_owned()),
        _ => TypeError::new("Cannot multiply with a non-integer type!".to_owned()),
    }
}

fn bad_operand_error(op: IntrinsicOp) -> (e: TypeError)
    requires
        op != IntrinsicOp::Add,
    ensures
        e@ == bad_operand(op),
{
    match op {
        IntrinsicOp::Subtract => TypeError::new(
            "Cannot subtract a non-integer type from an integer!".to_owned(),
        ),
        _ => TypeError::new("Cannot multiply a non-integer type with an integer!".to_owned()),
    }
}

fn bad_addend_error(text: &str) -> (e: TypeError)
    ensures
        e@ == bad_addend(text@),
{
    let mut msg = "Cannot add a non-integer type to an integer: ".to_owned();
    msg.append(text);
    msg.append("!");
    TypeError::new(msg)
}

impl Callable for IntrinsicOp {
    fn call(&self, rt: &mut Runtime, args: &Vec<Var>, loc_called: &Location) -> (r: Result<
        Var,
        TypeError,
    >)
        ensures
            advanced(old(rt), final(rt), apply(old(rt).cells(), *self, args@, loc_called@).lines),
            delivers_int(
                final(rt).cells(),
                r,
                apply(old(rt).cells(), *self, args@, loc_called@),
                old(rt).cells().len(),
            ),
            final(rt).cells() == applied(old(rt).cells(), *self, args@),
        decreases ceiling(args@), 2int, 0int,
    {
        let op = *self;
        let ghost h0 = rt.cells();
        let ghost lines0 = rt.lines();
        let ghost total = apply(h0, op, args@, loc_called@);
        proof {
            lemma_extends_refl(h0);
        }
        if let IntrinsicOp::Print = op {
            if args.len() != 1 {
                assert(lines0 + total.lines =~= lines0);
                return Err(TypeError::new("Print intrinsic requires only one argument!".to_owned()));
            }
            proof {
                lemma_below_ceiling(args@, 0);
            }
            let text = args[0].to_text(rt);
            rt.emit(text);
            let ghost grown = rt.cells();
            let v = Var::new(rt, LispType::Integer(0));
            proof {
                assert(rt.lines() =~= lines0 + total.lines);
                lemma_push_value(grown, Value::Integer(0));
                lemma_extends_trans(h0, grown, rt.cells());
            }
            return Ok(v);
        }
        let ghost mut written: Seq<Seq<char>> = Seq::empty();
        if args.len() < 2 {
            rt.emit(few_operands_line(op, loc_called));
            proof {
                written = seq![few_operands(op, loc_called@)];
            }
        }
        assert(rt.lines() =~= lines0 + written);
        let mut acc: isize = 0;
        let mut i: usize = 0;
        let ghost mut sum: int = 0;
        proof {
            lemma_wrap_basics(0);
        }
        if let IntrinsicOp::Add = op {
        } else {
            if args.len() == 0 {
                assert(total.lines =~= written);
                return Err(no_operand_error(op));
            }
            proof {
                lemma_below_ceiling(args@, 0);
            }
            let ghost run = eval(h0, args@[0]@);
            let first = args[0].resolve(rt);
            proof {
                assert(rt.lines() =~= lines0 + (written + run.lines));
                match run.result {
                    Ok(Value::Integer(v)) => {
                        lemma_after_after(fold_from(h0, op, args@, 1, v), run.lines, written);
                    },
                    Ok(_) => {
                        lemma_after_after(Outcome::<int>::failed(bad_first(op)), run.lines, written);
                    },
                    Err(e) => {
                        lemma_after_after(Outcome::<int>::failed(e), run.lines, written);
                    },
                }
                written = written + run.lines;
            }
            match first {
                Ok(v) => match v.get(rt) {
                    LispType::Integer(x) => {
                        acc = *x;
                        i = 1;
                        proof {
                            sum = *x as int;
                            lemma_wrap_basics(sum);
                        }
                    },
                    _ => {
                        assert(total.lines =~= written);
                        return Err(bad_first_error(op));
                    },
                },
                Err(e) => {
                    assert(total.lines =~= written);
                    return Err(e);
                },
            }
        }
        while i < args.len()
            invariant
                op == *self,
                op != IntrinsicOp::Print,
                well_formed(h0),
                h0 == old(rt).cells(),
                lines0 == old(rt).lines(),
                total == apply(h0, op, args@, loc_called@),
                rt.wf(),
                extends(h0, rt.cells()),
                ceiling(args@) <= h0.len(),
                i <= args.len(),
                acc == wrap(sum),
                total == fold_from(h0, op, args@, i as int, sum).after(written),
                applied(h0, op, args@) == folded(rt.cells(), op, args@, i as int, sum),
                rt.lines() == lines0 + written,
            decreases args.len() - i,
        {
            let ghost a = args@[i as int]@;
            let ghost mid = rt.cells();
            let ghost run = eval(h0, a);
            proof {
                lemma_below_ceiling(args@, i as int);
                lemma_eval_frame(h0, mid, a);
            }
            let r = args[i].resolve(rt);
            proof {
                lemma_extends_trans(h0, mid, rt.cells());
                assert(rt.lines() =~= lines0 + (written + run.lines));
            }
            match r {
                Ok(v) => {
                    match v.get(rt) {
                        LispType::Integer(x) => {
                            proof {
                                lemma_wrap_step(op, sum, *x as int);
                                lemma_after_after(
                                    fold_from(h0, op, args@, i + 1, combine(op, sum, *x as int)),
                                    run.lines,
                                    written,
                                );
                                sum = combine(op, sum, *x as int);
                                written = written + run.lines;
                            }
                            acc = step(op, acc, *x);
                        },
                        _ => {
                            if let IntrinsicOp::Add = op {
                                let ghost mid2 = rt.cells();
                                let ghost s = show(h0, a);
                                proof {
                                    lemma_show_frame(h0, mid2, a);
                                }
                                let text = args[i].to_text(rt);
                                proof {
                                    lemma_extends_trans(h0, mid2, rt.cells());
                                    lemma_after_after(
                                        Outcome::<int>::failed(bad_addend(s.text)),
                                        s.lines,
                                        run.lines,
                                    );
                                    lemma_after_after(
                                        Outcome::<int>::failed(bad_addend(s.text)),
                                        run.lines + s.lines,
                                        written,
                                    );
                                    assert(total.lines =~= written + run.lines + s.lines);
                                    assert(rt.lines() =~= lines0 + total.lines);
                                }
                                return Err(bad_addend_error(text.as_str()));
                            } else {
                                proof {
                                    lemma_after_after(
                                        Outcome::<int>::failed(bad_operand(op)),
                                        run.lines,
                                        written,
                                    );
                                    assert(total.lines =~= written + run.lines);
                                }
                                return Err(bad_operand_error(op));
                            }
                        },
                    }
                },
                Err(e) => {
                    proof {
                        lemma_after_after(Outcome::<int>::failed(e@), run.lines, written);
                        assert(total.lines =~= written + run.lines);
                    }
                    return Err(e);
                },
            }
            i += 1;
        }
        let ghost grown = rt.cells();
        let v = Var::new(rt, LispType::Integer(acc));
        proof {
            assert(total.lines =~= written);
            lemma_push_value(grown, Value::Integer(acc as int));
            lemma_extends_trans(h0, grown, rt.cells());
        }
        Ok(v)
    }
}

impl Var {
    /// What the cell resolves to: for a call, the cell with the result of
    /// calling its operator on its operands, which is then also noted in the
    /// call's result slot; for any other value, the cell itself. A call is
    /// run anew each time; its result slot is never read.
    pub fn resolve(&self, rt: &mut Runtime) -> (r: Result<Var, TypeError>)
        requires
            old(rt).wf(),
            self@ < old(rt).cells().len(),
        ensures
            advanced(old(rt), final(rt), eval(old(rt).cells(), self@).lines),
            delivers(final(rt).cells(), r, eval(old(rt).cells(), self@)),
            !(old(rt).cells()[self@ as int] is Call) ==> final(rt).cells() == old(rt).cells()
                && r == Ok::<Var, TypeError>(*self),
            old(rt).cells()[self@ as int] is Call ==> (r matches Ok(v) ==> {
                &&& v@ >= old(rt).cells().len()
                &&& v@ == final(rt).cells().len() - 1
                &&& final(rt).cells()[self@ as int]->Call_0.cache == Some(v)
            }),
            final(rt).cells() == resolved(old(rt).cells(), self@),
        decreases self@, 3int, 0int,
    {
        let ghost h0 = rt.cells();
        let ghost lines0 = rt.lines();
        proof {
            assert(crate::value::cell_ok(h0, self@ as int));
            lemma_extends_refl(h0);
        }
        let (operator, operands, loc) = match self.get(rt) {
            LispType::Statement(s) => (s.op.new_ref(), Var::aliases(&s.args), s.loc.clone()),
            _ => {
                assert(lines0 + Seq::<Seq<char>>::empty() =~= lines0);
                return Ok(self.new_ref());
            },
        };
        let op = operator.get(rt).unwrap_func();
        let r = op.call(rt, &operands, &loc);
        match r {
            Ok(v) => {
                let ghost grown = rt.cells();
                proof {
                    assert(h0[self@ as int].uncached() == grown[self@ as int].uncached());
                    lemma_set_cache(grown, self@ as int, v);
                }
                let node = Statement { args: operands, op: operator, res: Some(v.new_ref()), loc };
                self.set(rt, LispType::Statement(node));
                proof {
                    assert(rt.cells() =~= grown.update(
                        self@ as int,
                        Value::Call(Node { cache: Some(v), ..grown[self@ as int]->Call_0 }),
                    ));
                    lemma_extends_trans(h0, grown, rt.cells());
                    Var::lemma_at_view(v);
                }
                Ok(v)
            },
            Err(e) => Err(e),
        }
    }

    /// The cell as text. A call is resolved for it, and shown as its result
    /// or as the message of its error.
    pub fn to_text(&self, rt: &mut Runtime) -> (text: String)
        requires
            old(rt).wf(),
            self@ < old(rt).cells().len(),
        ensures
            advanced(old(rt), final(rt), show(old(rt).cells(), self@).lines),
            text@ == show(old(rt).cells(), self@).text,
            final(rt).cells() == shown(old(rt).cells(), self@),
        decreases self@, 4int, 0int,
    {
        let ghost h0 = rt.cells();
        let ghost lines0 = rt.lines();
        proof {
            assert(crate::value::cell_ok(h0, self@ as int));
            assert(lines0 + Seq::<Seq<char>>::empty() =~= lines0);
            lemma_extends_refl(h0);
        }
        let items = match self.get(rt) {
            LispType::Integer(i) => {
                let mut s = String::new();
                push_signed_decimal(&mut s, *i);
                assert(s@ =~= signed_decimal(*i as int));
                return s;
            },
            LispType::Str(s) => {
                return s.clone();
            },
            LispType::Func(_) => {
                return "<Function>".to_owned();
            },
            LispType::Floating(t) => {
                return t.clone();
            },
            LispType::Nil => {
                return "nil".to_owned();
            },
            LispType::Statement(_) => None,
            LispType::List(l) => Some(Var::aliases(l)),
        };
        match items {
            None => {
                match self.resolve(rt) {
                    Ok(v) => match v.get(rt) {
                        LispType::Integer(i) => {
                            let mut s = String::new();
                            push_signed_decimal(&mut s, *i);
                            assert(s@ =~= signed_decimal(*i as int));
                            s
                        },
                        _ => {
                            assert(false);
                            String::new()
                        },
                    },
                    Err(e) => e.msg,
                }
            },
            Some(items) => {
                let mut inner = String::new();
                let mut i: usize = 0;
                let ghost mut written: Seq<Seq<char>> = Seq::empty();
                let ghost goal = show_items(h0, items@, 0);
                while i < items.len()
                    invariant
                        well_formed(h0),
                        h0 == old(rt).cells(),
                        lines0 == old(rt).lines(),
                        rt.wf(),
                        extends(h0, rt.cells()),
                        ceiling(items@) <= self@ < h0.len(),
                        i <= items.len(),
                        goal.text == inner@ + show_items(h0, items@, i as int).text,
                        goal.lines == written + show_items(h0, items@, i as int).lines,
                        shown_items(h0, items@, 0) == shown_items(rt.cells(), items@, i as int),
                        rt.lines() == lines0 + written,
                    decreases items.len() - i,
                {
                    let ghost a = items@[i as int]@;
                    let ghost mid = rt.cells();
                    let ghost first = show(h0, a);
                    let ghost rest = show_items(h0, items@, i + 1);
                    let ghost inner0 = inner@;
                    proof {
                        lemma_below_ceiling(items@, i as int);
                        lemma_show_frame(h0, mid, a);
                    }
                    let t = items[i].to_text(rt);
                    inner.push(' ');
                    inner.append(t.as_str());
                    proof {
                        lemma_extends_trans(h0, mid, rt.cells());
                        assert(goal.text =~= (inner0 + seq![' '] + first.text) + rest.text) by {
                            assert(show_items(h0, items@, i as int).text == seq![' ']
                                + first.text + rest.text);
                        }
                        assert(goal.lines =~= (written + first.lines) + rest.lines);
                        assert(rt.lines() =~= lines0 + (written + first.lines));
                        written = written + first.lines;
                    }
                    i += 1;
                }
                let mut s = "(".to_owned();
                s.append(inner.as_str());
                s.push(')');
                proof {
                    reveal_strlit("(");
                    assert("("@ =~= seq!['(']);
                    assert(goal.text =~= inner@);
                    assert(goal.lines =~= written);
                }
                s
            },
        }
    }
}

impl Statement {
    /// A call of `op` on the operand cells `args`, written at `loc`. The
    /// operator gets a cell of its own.
    pub fn new(rt: &mut Runtime, op: IntrinsicOp, args: Vec<Var>, loc: Location) -> (s: Statement)
        ensures
            final(rt).cells() == old(rt).cells().push(Value::Func(op)),
            final(rt).lines() == old(rt).lines(),
            s@ == (Node { op: s.op, args: args@, cache: None, loc: loc@ }),
            s.op@ == old(rt).cells().len(),
    {
        let operator = Var::new(rt, LispType::Func(op));
        Statement { args, op: operator, res: None, loc }
    }

    /// Runs the call: calls its operator on its operands and, if that
    /// succeeds, notes the result in the result slot. The call is run anew
    /// each time; the result slot is never read.
    pub fn resolve(&mut self, rt: &mut Runtime) -> (r: Result<Var, TypeError>)
        requires
            old(rt).wf(),
            node_ok(old(rt).cells(), old(self)@, old(rt).cells().len() as int),
        ensures
            advanced(old(rt), final(rt), run(old(rt).cells(), old(self)@).lines),
            delivers_int(
                final(rt).cells(),
                r,
                run(old(rt).cells(), old(self)@),
                old(rt).cells().len(),
            ),
            final(self)@ == (Node {
                cache: match r {
                    Ok(v) => Some(v),
                    Err(_) => old(self)@.cache,
                },
                ..old(self)@
            }),
            node_ok(final(rt).cells(), final(self)@, final(rt).cells().len() as int),
            final(rt).cells() == applied(
                old(rt).cells(),
                old(rt).cells()[old(self)@.op@ as int]->Func_0,
                old(self)@.args,
            ),
    {
        let op = self.op.get(rt).unwrap_func();
        let r = op.call(rt, &self.args, &self.loc);
        proof {
            assert(old(rt).cells()[self.op@ as int].uncached() == rt.cells()[self.op@ as int].uncached());
        }
        match r {
            Ok(v) => {
                self.res = Some(v.new_ref());
                Ok(v)
            },
            Err(e) => Err(e),
        }
    }
}

} // verus!
