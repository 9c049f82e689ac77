//! The environment: the names that a program can use.

use crate::value::{extends, lemma_push_value, IntrinsicOp, LispType, Runtime, Value, Var};
use vstd::prelude::*;

verus! {

/// A name and the cell bound to it.
#[derive(Debug)]
struct Binding {
    name: String,
    cell: Var,
}

/// A fixed table from names to cells, with each name in it once.
#[derive(Debug)]
pub struct Scope {
    vars: Vec<Binding>,
}

/// The cell that the first binding of `name` in `bindings` holds.
spec fn lookup(bindings: Seq<Binding>, name: Seq<char>) -> Option<Var>
    decreases bindings.len(),
{
    if bindings.len() == 0 {
        None
    } else if bindings[0].name@ == name {
        Some(bindings[0].cell)
    } else {
        lookup(bindings.drop_first(), name)
    }
}

proof fn lemma_lookup_from(bindings: Seq<Binding>, name: Seq<char>, i: int)
    requires
        0 <= i <= bindings.len(),
        forall|j: int| 0 <= j < i ==> (#[trigger] bindings[j]).name@ != name,
    ensures
        lookup(bindings, name) == lookup(bindings.skip(i), name),
    decreases i,
{
    if i > 0 {
        lemma_lookup_from(bindings, name, i - 1);
        assert(bindings.skip(i - 1).drop_first() == bindings.skip(i));
    } else {
        assert(bindings.skip(0) == bindings);
    }
}

/// The names of the built-in operations, each bound to the cell that holds
/// it, when the first of these cells is cell `base`: `print`, `+`, `-` and
/// `*`, in this order.
pub open spec fn default_env(base: nat) -> Map<Seq<char>, Var> {
    map![
        "print"@ => Var::at(base),
        "+"@ => Var::at(base + 1),
        "-"@ => Var::at(base + 2),
        "*"@ => Var::at(base + 3),
    ]
}

/// The cells of the built-in operations, in the order of `default_env`.
pub open spec fn default_cells() -> Seq<Value> {
    seq![
        Value::Func(IntrinsicOp::Print),
        Value::Func(IntrinsicOp::Add),
        Value::Func(IntrinsicOp::Subtract),
        Value::Func(IntrinsicOp::Multiply),
    ]
}

impl View for Scope {
    type V = Map<Seq<char>, Var>;

    closed spec fn view(&self) -> Map<Seq<char>, Var> {
        Map::new(
            |name: Seq<char>| lookup(self.vars@, name) is Some,
            |name: Seq<char>| lookup(self.vars@, name)->Some_0,
        )
    }
}

impl Scope {
    /// Whether every cell of the table is a cell of `h`.
    pub open spec fn within(&self, h: Seq<Value>) -> bool {
        forall|name: Seq<char>| #[trigger] self@.contains_key(name) ==> self@[name]@ < h.len()
    }

    /// The built-in operations, each in a fresh cell of `rt`.
    pub fn default(rt: &mut Runtime) -> (scope: Scope)
        ensures
            scope@ == default_env(old(rt).cells().len()),
            final(rt).cells() == old(rt).cells() + default_cells(),
            final(rt).lines() == old(rt).lines(),
            scope.within(final(rt).cells()),
            old(rt).wf() ==> final(rt).wf(),
            extends(old(rt).cells(), final(rt).cells()),
    {
        let ghost h0 = rt.cells();
        let print = Var::new(rt, LispType::Func(IntrinsicOp::Print));
        let ghost h1 = rt.cells();
        let add = Var::new(rt, LispType::Func(IntrinsicOp::Add));
        let ghost h2 = rt.cells();
        let subtract = Var::new(rt, LispType::Func(IntrinsicOp::Subtract));
        let ghost h3 = rt.cells();
        let multiply = Var::new(rt, LispType::Func(IntrinsicOp::Multiply));
        proof {
            if old(rt).wf() {
                lemma_push_value(h0, Value::Func(IntrinsicOp::Print));
                lemma_push_value(h1, Value::Func(IntrinsicOp::Add));
                lemma_push_value(h2, Value::Func(IntrinsicOp::Subtract));
                lemma_push_value(h3, Value::Func(IntrinsicOp::Multiply));
            }
        }
        let mut vars: Vec<Binding> = Vec::new();
        vars.push(Binding { name: "print".to_owned(), cell: print });
        vars.push(Binding { name: "+".to_owned(), cell: add });
        vars.push(Binding { name: "-".to_owned(), cell: subtract });
        vars.push(Binding { name: "*".to_owned(), cell: multiply });
        let scope = Scope { vars };
        proof {
            reveal_strlit("print");
            reveal_strlit("+");
            reveal_strlit("-");
            reveal_strlit("*");
            reveal_with_fuel(lookup, 5);
            let b = scope.vars@;
            assert(b.drop_first().drop_first().drop_first().drop_first().len() == 0);
            assert forall|name: Seq<char>| #[trigger]
                scope@.dom().contains(name) == set!["print"@, "+"@, "-"@, "*"@].contains(
                    name,
                ) by {
                assert(b[0].name@ == "print"@);
                assert(b.drop_first()[0].name@ == "+"@);
                assert(b.drop_first().drop_first()[0].name@ == "-"@);
                assert(b.drop_first().drop_first().drop_first()[0].name@ == "*"@);
            }
            assert(scope@.dom() =~= set!["print"@, "+"@, "-"@, "*"@]);
            assert("print"@.len() == 5 && "+"@.len() == 1 && "-"@.len() == 1 && "*"@.len() == 1);
            assert("+"@[0] == '+' && "-"@[0] == '-' && "*"@[0] == '*');
            assert(b[0].name@ == "print"@);
            assert(b.drop_first()[0].name@ == "+"@);
            assert(b.drop_first().drop_first()[0].name@ == "-"@);
            assert(b.drop_first().drop_first().drop_first()[0].name@ == "*"@);
            assert(lookup(b, "print"@) == Some(print));
            assert(lookup(b, "+"@) == Some(add));
            assert(lookup(b, "-"@) == Some(subtract));
            assert(lookup(b, "*"@) == Some(multiply));
            assert(scope@ =~= default_env(old(rt).cells().len()));
            assert(rt.cells() =~= old(rt).cells() + default_cells());
        }
        scope
    }

    /// Another handle to the cell bound to `name`, if one is.
    pub fn get(&self, name: &str) -> (r: Option<Var>)
        ensures
            r == if self@.contains_key(name@) {
                Some(self@[name@])
            } else {
                None
            },
    {
        let wanted = name.to_owned();
        let mut i: usize = 0;
        while i < self.vars.len()
            invariant
                i <= self.vars.len(),
                wanted@ == name@,
                forall|j: int| 0 <= j < i ==> (#[trigger] self.vars@[j]).name@ != name@,
            decreases self.vars.len() - i,
        {
            if self.vars[i].name == wanted {
                proof {
                    lemma_lookup_from(self.vars@, name@, i as int);
                }
                return Some(self.vars[i].cell.new_ref());
            }
            i += 1;
        }
        proof {
            lemma_lookup_from(self.vars@, name@, self.vars@.len() as int);
        }
        None
    }
}

} // verus!
