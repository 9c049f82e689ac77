//! The tree builder: tokens to a call whose operands are cells.

use crate::error::{Failure, LispError};
use crate::lexer::token_views;
use crate::location::{Location, Place};
use crate::scope::Scope;
use crate::token::{literals_fit, Token, TokenKind, TokenType, TokenView};
use crate::value::{
    ceiling, extends, lemma_ceiling_least, lemma_extends_refl, lemma_extends_trans,
    lemma_push_call, lemma_push_value, node_ok, well_formed, LispType, Node, Runtime, Statement,
    Value, Var,
};
use vstd::prelude::*;

verus! {

/// The state of the builder between two tokens of one pair of parentheses.
pub struct Scan {
    /// The indices of the `(` that are open, the earliest first.
    pub stack: Seq<int>,
    /// The cells collected so far: the operator first, then the operands.
    pub operands: Seq<Var>,
    /// The place of the call: that of the last identifier met outside inner
    /// parentheses.
    pub loc: Place,
    /// The cells of the runtime.
    pub cells: Seq<Value>,
    /// Why the scan stopped early, if it did.
    pub failure: Option<Failure>,
}

/// What building comes to: the call or the reason why there is none, and the
/// cells of the runtime afterwards.
pub struct Built {
    pub result: Result<Node, Failure>,
    pub cells: Seq<Value>,
}

/// The state after the tokens `ts[i..hi]`, read between a pair of
/// parentheses whose inside starts at `lo`.
///
/// A `(` is pushed on the stack. A `)` pops it; the one that empties the
/// stack ends an inner call, which is built from the tokens between the two
/// and put in a fresh cell, the next operand. With no `(` open, a literal is
/// put in a fresh cell, the next operand; an identifier stands for the cell
/// that `env` binds it to, the next operand, and its place becomes the place
/// of the call. Inside inner parentheses literals and identifiers are passed
/// over. The scan stops at a `)` that closes nothing, at an identifier that
/// `env` does not bind, and where an inner call cannot be built.
pub open spec fn scan(
    ts: Seq<TokenView>,
    env: Map<Seq<char>, Var>,
    lo: int,
    i: int,
    hi: int,
    st: Scan,
) -> Scan
    decreases hi - lo, 0int, hi - i,
{
    if i < lo || i >= hi {
        st
    } else {
        match ts[i].dat {
            TokenKind::OpenParens => scan(
                ts,
                env,
                lo,
                i + 1,
                hi,
                Scan { stack: st.stack.push(i), ..st },
            ),
            TokenKind::CloseParens => {
                if st.stack.len() == 0 {
                    Scan {
                        failure: Some(Failure::UnmatchedClosingParen { location: ts[i].loc }),
                        ..st
                    }
                } else if st.stack.len() == 1 && lo <= st.stack[0] < i {
                    let open = st.stack[0];
                    let inner = build(ts, env, open + 1, i, ts[open + 1].loc, st.cells);
                    match inner.result {
                        Ok(n) => scan(
                            ts,
                            env,
                            lo,
                            i + 1,
                            hi,
                            Scan {
                                stack: Seq::empty(),
                                operands: st.operands.push(Var::at(inner.cells.len())),
                                cells: inner.cells.push(Value::Call(n)),
                                ..st
                            },
                        ),
                        Err(f) => Scan { failure: Some(f), cells: inner.cells, ..st },
                    }
                } else {
                    scan(ts, env, lo, i + 1, hi, Scan { stack: st.stack.drop_last(), ..st })
                }
            },
            TokenKind::Recognizable(v) => {
                if st.stack.len() == 0 {
                    scan(
                        ts,
                        env,
                        lo,
                        i + 1,
                        hi,
                        Scan {
                            operands: st.operands.push(Var::at(st.cells.len())),
                            cells: st.cells.push(v),
                            ..st
                        },
                    )
                } else {
                    scan(ts, env, lo, i + 1, hi, st)
                }
            },
            TokenKind::Ident(name) => {
                if st.stack.len() > 0 {
                    scan(ts, env, lo, i + 1, hi, st)
                } else if env.contains_key(name) {
                    scan(
                        ts,
                        env,
                        lo,
                        i + 1,
                        hi,
                        Scan { operands: st.operands.push(env[name]), loc: ts[i].loc, ..st },
                    )
                } else {
                    Scan {
                        failure: Some(Failure::UnknownIdentifier { name, location: ts[i].loc }),
                        ..st
                    }
                }
            },
        }
    }
}

/// The call that the tokens `ts[lo..hi]` make, these being what stands
/// between a pair of parentheses; `start` is the place to blame when they
/// make none.
///
/// After the scan, a `(` still open is an error, reported at the earliest
/// such; so is to have collected nothing, and a first cell that holds no
/// function. Else the first cell is the operator and the others are the
/// operands.
pub open spec fn build(
    ts: Seq<TokenView>,
    env: Map<Seq<char>, Var>,
    lo: int,
    hi: int,
    start: Place,
    h: Seq<Value>,
) -> Built
    decreases hi - lo, 1int, 0int,
{
    let s = scan(
        ts,
        env,
        lo,
        lo,
        hi,
        Scan {
            stack: Seq::empty(),
            operands: Seq::empty(),
            loc: start,
            cells: h,
            failure: None,
        },
    );
    Built {
        cells: s.cells,
        result: if let Some(f) = s.failure {
            Err(f)
        } else if s.stack.len() > 0 {
            Err(Failure::UnmatchedOpeningParen { location: ts[s.stack[0]].loc })
        } else if s.operands.len() == 0 {
            Err(Failure::EmptyStatement { location: start })
        } else if !(s.cells[s.operands[0]@ as int] is Func) {
            Err(Failure::NotCallable { location: start })
        } else {
            Ok(
                Node {
                    op: s.operands[0],
                    args: s.operands.subrange(1, s.operands.len() as int),
                    cache: None,
                    loc: s.loc,
                },
            )
        },
    }
}

/// The call that the tokens `ts` make. One `(` at the front and one `)` at
/// the end are left out, so the tokens may come with or without the
/// parentheses around them.
pub open spec fn parse(
    ts: Seq<TokenView>,
    env: Map<Seq<char>, Var>,
    start: Place,
    h: Seq<Value>,
) -> Built {
    let lo: int = if ts.len() > 0 && ts[0].dat is OpenParens {
        1
    } else {
        0
    };
    let hi: int = if ts.len() > 0 && ts.last().dat is CloseParens {
        ts.len() - 1
    } else {
        ts.len() as int
    };
    build(ts, env, lo, hi, start, h)
}

proof fn lemma_scan_keeps_operands(
    ts: Seq<TokenView>,
    env: Map<Seq<char>, Var>,
    lo: int,
    i: int,
    hi: int,
    st: Scan,
)
    ensures
        st.operands.is_prefix_of(scan(ts, env, lo, i, hi, st).operands),
    decreases hi - i,
{
    if lo <= i < hi {
        match ts[i].dat {
            TokenKind::OpenParens => {
                lemma_scan_keeps_operands(
                    ts,
                    env,
                    lo,
                    i + 1,
                    hi,
                    Scan { stack: st.stack.push(i), ..st },
                );
            },
            TokenKind::CloseParens => {
                if st.stack.len() == 0 {
                } else if st.stack.len() == 1 && lo <= st.stack[0] < i {
                    let open = st.stack[0];
                    let inner = build(ts, env, open + 1, i, ts[open + 1].loc, st.cells);
                    if let Ok(n) = inner.result {
                        lemma_scan_keeps_operands(
                            ts,
                            env,
                            lo,
                            i + 1,
                            hi,
                            Scan {
                                stack: Seq::empty(),
                                operands: st.operands.push(Var::at(inner.cells.len())),
                                cells: inner.cells.push(Value::Call(n)),
                                ..st
                            },
                        );
                    }
                } else {
                    lemma_scan_keeps_operands(
                        ts,
                        env,
                        lo,
                        i + 1,
                        hi,
                        Scan { stack: st.stack.drop_last(), ..st },
                    );
                }
            },
            TokenKind::Recognizable(v) => {
                if st.stack.len() == 0 {
                    lemma_scan_keeps_operands(
                        ts,
                        env,
                        lo,
                        i + 1,
                        hi,
                        Scan {
                            operands: st.operands.push(Var::at(st.cells.len())),
                            cells: st.cells.push(v),
                            ..st
                        },
                    );
                } else {
                    lemma_scan_keeps_operands(ts, env, lo, i + 1, hi, st);
                }
            },
            TokenKind::Ident(name) => {
                if st.stack.len() > 0 {
                    lemma_scan_keeps_operands(ts, env, lo, i + 1, hi, st);
                } else if env.contains_key(name) {
                    lemma_scan_keeps_operands(
                        ts,
                        env,
                        lo,
                        i + 1,
                        hi,
                        Scan { operands: st.operands.push(env[name]), loc: ts[i].loc, ..st },
                    );
                }
            },
        }
    }
}

/// The operator of a call that starts with an identifier is the cell that
/// the environment binds the identifier to.
pub proof fn lemma_operator_is_bound_cell(
    ts: Seq<TokenView>,
    env: Map<Seq<char>, Var>,
    lo: int,
    hi: int,
    start: Place,
    h: Seq<Value>,
)
    requires
        0 <= lo < hi <= ts.len(),
        ts[lo].dat is Ident,
        build(ts, env, lo, hi, start, h).result is Ok,
    ensures
        env.contains_key(ts[lo].dat->Ident_0),
        build(ts, env, lo, hi, start, h).result->Ok_0.op == env[ts[lo].dat->Ident_0],
{
    let name = ts[lo].dat->Ident_0;
    let first = Scan {
        stack: Seq::empty(),
        operands: Seq::empty(),
        loc: start,
        cells: h,
        failure: None,
    };
    if env.contains_key(name) {
        let next = Scan { operands: first.operands.push(env[name]), loc: ts[lo].loc, ..first };
        lemma_scan_keeps_operands(ts, env, lo, lo + 1, hi, next);
        assert(next.operands[0] == env[name]);
    }
}

/// Two calls that start with the same identifier, built with one
/// environment, have one cell for their operator: what is written to it
/// through the one call is read through the other.
pub proof fn lemma_same_name_same_cell(
    env: Map<Seq<char>, Var>,
    ts1: Seq<TokenView>,
    lo1: int,
    hi1: int,
    start1: Place,
    h1: Seq<Value>,
    ts2: Seq<TokenView>,
    lo2: int,
    hi2: int,
    start2: Place,
    h2: Seq<Value>,
    cells: Seq<Value>,
    value: Value,
)
    requires
        0 <= lo1 < hi1 <= ts1.len(),
        0 <= lo2 < hi2 <= ts2.len(),
        ts1[lo1].dat is Ident,
        ts2[lo2].dat == ts1[lo1].dat,
        build(ts1, env, lo1, hi1, start1, h1).result is Ok,
        build(ts2, env, lo2, hi2, start2, h2).result is Ok,
        build(ts1, env, lo1, hi1, start1, h1).result->Ok_0.op@ < cells.len(),
    ensures
        build(ts1, env, lo1, hi1, start1, h1).result->Ok_0.op == build(
            ts2,
            env,
            lo2,
            hi2,
            start2,
            h2,
        ).result->Ok_0.op,
        cells.update(build(ts1, env, lo1, hi1, start1, h1).result->Ok_0.op@ as int, value)[build(
            ts2,
            env,
            lo2,
            hi2,
            start2,
            h2,
        ).result->Ok_0.op@ as int] == value,
{
    lemma_operator_is_bound_cell(ts1, env, lo1, hi1, start1, h1);
    lemma_operator_is_bound_cell(ts2, env, lo2, hi2, start2, h2);
}

spec fn ints(s: Seq<usize>) -> Seq<int> {
    Seq::new(s.len(), |k: int| s[k] as int)
}

fn build_range(
    rt: &mut Runtime,
    ts: &[Token],
    lo: usize,
    hi: usize,
    idents: &Scope,
    start: &Location,
) -> (r: Result<Statement, LispError>)
    requires
        old(rt).wf(),
        idents.within(old(rt).cells()),
        literals_fit(token_views(ts@), old(rt).cells().len()),
        lo <= hi <= ts@.len(),
    ensures
        built(
            old(rt),
            final(rt),
            r,
            build(token_views(ts@), idents@, lo as int, hi as int, start@, old(rt).cells()),
        ),
    decreases hi - lo,
{
    let ghost tsv = token_views(ts@);
    let ghost env = idents@;
    let ghost h0 = rt.cells();
    let ghost first = Scan {
        stack: Seq::empty(),
        operands: Seq::empty(),
        loc: start@,
        cells: h0,
        failure: None,
    };
    let ghost goal = scan(tsv, env, lo as int, lo as int, hi as int, first);
    let mut stack: Vec<usize> = Vec::new();
    let mut operands: Vec<Var> = Vec::new();
    let mut loc = start.clone();
    let mut i: usize = lo;
    proof {
        lemma_extends_refl(h0);
        assert(ints(stack@) =~= Seq::empty());
    }
    while i < hi
        invariant
            tsv == token_views(ts@),
            env == idents@,
            h0 == old(rt).cells(),
            literals_fit(tsv, h0.len()),
            lo <= i <= hi <= ts@.len(),
            rt.wf(),
            rt.lines() == old(rt).lines(),
            extends(h0, rt.cells()),
            idents.within(h0),
            first == (Scan {
                stack: Seq::empty(),
                operands: Seq::empty(),
                loc: start@,
                cells: h0,
                failure: None,
            }),
            goal == scan(tsv, env, lo as int, lo as int, hi as int, first),
            forall|k: int| 0 <= k < stack@.len() ==> lo <= #[trigger] stack@[k] < i,
            forall|k: int| 0 <= k < operands@.len() ==> (#[trigger] operands@[k])@ < rt.cells().len(),
            goal == scan(
                tsv,
                env,
                lo as int,
                i as int,
                hi as int,
                Scan {
                    stack: ints(stack@),
                    operands: operands@,
                    loc: loc@,
                    cells: rt.cells(),
                    failure: None,
                },
            ),
        decreases hi - i,
    {
        let ghost here = rt.cells();
        let ghost stack0 = stack@;
        assert(tsv[i as int] == ts@[i as int]@);
        match &ts[i].dat {
            TokenType::OpenParens => {
                stack.push(i);
                assert(ints(stack@) =~= ints(stack0).push(i as int));
            },
            TokenType::CloseParens => {
                if stack.len() == 0 {
                    return Err(LispError::UnmatchedClosingParen { location: ts[i].loc.clone() });
                } else if stack.len() == 1 {
                    let open = stack[0];
                    assert(tsv[open + 1] == ts@[open + 1]@);
                    let inner = build_range(rt, ts, open + 1, i, idents, &ts[open + 1].loc);
                    match inner {
                        Ok(s) => {
                            let ghost grown = rt.cells();
                            let v = Var::new(rt, LispType::Statement(s));
                            operands.push(v);
                            stack = Vec::new();
                            proof {
                                lemma_push_call(grown, s@);
                                lemma_extends_trans(h0, here, grown);
                                lemma_extends_trans(h0, grown, rt.cells());
                                assert(ints(stack@) =~= Seq::empty());
                            }
                        },
                        Err(e) => {
                            proof {
                                lemma_extends_trans(h0, here, rt.cells());
                            }
                            return Err(e);
                        },
                    }
                } else {
                    stack.pop();
                    assert(ints(stack@) =~= ints(stack0).drop_last());
                }
            },
            TokenType::Recognizable(value) => {
                if stack.len() == 0 {
                    assert(value@.duplicable());
                    let v = Var::new(rt, value.duplicate());
                    operands.push(v);
                    proof {
                        lemma_push_value(here, value@);
                        lemma_extends_trans(h0, here, rt.cells());
                    }
                }
            },
            TokenType::Ident(name) => {
                if stack.len() == 0 {
                    match idents.get(name.as_str()) {
                        Some(v) => {
                            assert(idents@.contains_key(name@));
                            operands.push(v);
                            loc = ts[i].loc.clone();
                        },
                        None => {
                            return Err(
                                LispError::UnknownIdentifier {
                                    name: name.clone(),
                                    location: ts[i].loc.clone(),
                                },
                            );
                        },
                    }
                }
            },
        }
        i += 1;
    }
    if stack.len() > 0 {
        let open = stack[0];
        assert(tsv[open as int] == ts@[open as int]@);
        return Err(LispError::UnmatchedOpeningParen { location: ts[open].loc.clone() });
    }
    if operands.len() == 0 {
        return Err(LispError::EmptyStatement { location: start.clone() });
    }
    let ghost collected = operands@;
    let operator = operands.remove(0);
    if !operator.get(rt).is_func() {
        return Err(LispError::NotCallable { location: start.clone() });
    }
    proof {
        assert(operands@ =~= collected.subrange(1, collected.len() as int));
        lemma_ceiling_least(operands@, rt.cells().len());
    }
    Ok(Statement { args: operands, op: operator, res: None, loc })
}

/// Whether `new` and `r` are what `b` asks for after `old`: the cells are
/// those of `b`, nothing was written, and `r` is the call or the error of
/// `b`. The cells are then well formed, they are the old ones with cells
/// added at the end, and the call, if there is one, speaks of them only.
pub open spec fn built(old: &Runtime, new: &Runtime, r: Result<Statement, LispError>, b: Built) -> bool {
    &&& new.cells() == b.cells
    &&& new.lines() == old.lines()
    &&& match r {
        Ok(s) => b.result == Ok::<Node, Failure>(s@),
        Err(e) => b.result == Err::<Node, Failure>(e@),
    }
    &&& new.wf()
    &&& extends(old.cells(), new.cells())
    &&& r matches Ok(s) ==> node_ok(new.cells(), s@, new.cells().len() as int)
}

/// The call that the tokens make, with identifiers looked up in `idents` and
/// literals and inner calls put in fresh cells of `rt`. `start` is the place
/// to blame when the tokens make no call.
pub fn make_ast(rt: &mut Runtime, ts: &[Token], idents: &Scope, start: &Location) -> (r: Result<
    Statement,
    LispError,
>)
    requires
        old(rt).wf(),
        idents.within(old(rt).cells()),
        literals_fit(token_views(ts@), old(rt).cells().len()),
    ensures
        built(old(rt), final(rt), r, parse(token_views(ts@), idents@, start@, old(rt).cells())),
{
    let n = ts.len();
    let ghost tsv = token_views(ts@);
    let mut lo: usize = 0;
    let mut hi: usize = n;
    if n > 0 {
        assert(tsv[0] == ts@[0]@);
        assert(tsv.last() == ts@[n - 1]@);
        if let TokenType::OpenParens = ts[0].dat {
            lo = 1;
        }
        if let TokenType::CloseParens = ts[n - 1].dat {
            hi = n - 1;
        }
    }
    build_range(rt, ts, lo, hi, idents, start)
}

} // verus!
