//! Running a source text from end to end.

use crate::ast::{make_ast, parse};
use crate::error::{Failure, LispError};
use crate::eval::{applied, run};
use crate::lexer::{lemma_tokens_are_literals, token_views, tokenize, tokens_of};
use crate::location::{Location, Place};
use crate::scope::{default_cells, default_env, Scope};
use crate::token::Token;
use crate::value::{Runtime, Statement, Value, Var};
use vstd::prelude::*;

verus! {

/// What running a source text comes to: the integer that it evaluates to, or
/// the reason why it does not, the lines that it writes, and the cells that
/// it leaves.
pub struct Ran {
    pub result: Result<int, Failure>,
    pub lines: Seq<Seq<char>>,
    pub cells: Seq<Value>,
}

/// The place that stands for the whole of a file.
pub open spec fn origin(file: Seq<char>) -> Place {
    Place { file, line: 0, col: 0 }
}

/// What running the source text `source` of the file named `file` comes to:
/// its tokens are built into a call, over the cells of the built-in
/// operations, and the call is run.
pub open spec fn ran(source: Seq<char>, file: Seq<char>) -> Ran {
    let b = parse(tokens_of(source, file), default_env(0), origin(file), default_cells());
    match b.result {
        Ok(n) => {
            let c = run(b.cells, n);
            Ran {
                result: match c.result {
                    Ok(v) => Ok(v),
                    Err(message) => Err(Failure::TypeMismatch { message }),
                },
                lines: c.lines,
                cells: applied(b.cells, b.cells[n.op@ as int]->Func_0, n.args),
            }
        },
        Err(f) => Ran { result: Err(f), lines: Seq::empty(), cells: b.cells },
    }
}

/// Whether `value` and `rt` are what `ran` asks for: `value` is the last
/// cell of `rt`, which holds the integer, or the error, and `rt` holds the
/// lines and the cells.
pub open spec fn finished(value: Result<Var, LispError>, rt: &Runtime, ran: Ran) -> bool {
    &&& rt.wf()
    &&& rt.lines() == ran.lines
    &&& rt.cells() == ran.cells
    &&& match value {
        Ok(v) => {
            &&& v@ == rt.cells().len() - 1
            &&& rt.cells()[v@ as int] is Integer
            &&& ran.result == Ok::<int, Failure>(rt.cells()[v@ as int]->Integer_0)
        },
        Err(e) => ran.result == Err::<int, Failure>(e@),
    }
}

/// A finished run: the cell with the result or the error, and the runtime
/// with all the cells and with the lines that were written.
#[derive(Debug)]
pub struct Run {
    pub value: Result<Var, LispError>,
    pub runtime: Runtime,
}

/// A finished run together with the tokens that were read and the call that
/// was built from them, if one was.
#[derive(Debug)]
pub struct Trace {
    pub tokens: Vec<Token>,
    pub tree: Option<Statement>,
    pub value: Result<Var, LispError>,
    pub runtime: Runtime,
}

/// Runs the source text `source` of the file named `file`.
pub fn run_lisp(source: &str, file: &str) -> (r: Run)
    ensures
        finished(r.value, &r.runtime, ran(source@, file@)),
{
    let t = run_lisp_dumped(source, file);
    Run { value: t.value, runtime: t.runtime }
}

/// Runs the source text `source` of the file named `file`, and hands out the
/// tokens and the call with the rest. The call is as the run left it: its
/// result slot holds the result.
pub fn run_lisp_dumped(source: &str, file: &str) -> (t: Trace)
    ensures
        finished(t.value, &t.runtime, ran(source@, file@)),
        token_views(t.tokens@) == tokens_of(source@, file@),
        match parse(tokens_of(source@, file@), default_env(0), origin(file@), default_cells()).result {
            Ok(n) => t.tree matches Some(s) && s@.op == n.op && s@.args == n.args && s@.loc
                == n.loc && s@.cache == match t.value {
                Ok(v) => Some(v),
                Err(_) => None,
            },
            Err(_) => t.tree is None,
        },
{
    let mut rt = Runtime::new();
    let tokens = match tokenize(source, file) {
        Ok(tokens) => tokens,
        Err(e) => {
            return Trace { tokens: Vec::new(), tree: None, value: Err(e), runtime: rt };
        },
    };
    let scope = Scope::default(&mut rt);
    let start = Location { filename: file.to_owned(), line: 0, col: 0 };
    proof {
        lemma_tokens_are_literals(source@, file@);
        crate::token::lemma_literals_fit(tokens_of(source@, file@), rt.cells().len());
        assert(rt.cells() =~= default_cells());
    }
    match make_ast(&mut rt, tokens.as_slice(), &scope, &start) {
        Ok(mut tree) => {
            let value = match tree.resolve(&mut rt) {
                Ok(v) => Ok(v),
                Err(e) => Err(LispError::from(e)),
            };
            Trace { tokens, tree: Some(tree), value, runtime: rt }
        },
        Err(e) => Trace { tokens, tree: None, value: Err(e), runtime: rt },
    }
}

} // verus!
