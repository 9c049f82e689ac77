use sul::eval::Callable;
use sul::{
    make_ast, tokenize, IntrinsicOp, LispType, Location, Runtime, Scope, Statement, TypeError, Var,
};

fn here() -> Location {
    Location { filename: "t".to_string(), line: 0, col: 0 }
}

fn integer(v: &Var, rt: &Runtime) -> isize {
    match v.get(rt) {
        LispType::Integer(i) => *i,
        other => panic!("no integer: {:?}", other),
    }
}

#[test]
fn fresh_cells_are_distinct_and_aliases_are_not() {
    let mut rt = Runtime::new();
    let a = Var::new(&mut rt, LispType::Integer(1));
    let b = Var::new(&mut rt, LispType::Integer(1));
    let c = a.new_ref();
    assert!(!a.same_cell(&b));
    assert!(a.same_cell(&c));
    assert_eq!(rt.len(), 2);
}

#[test]
fn a_write_through_one_alias_is_seen_through_the_other() {
    let mut rt = Runtime::new();
    let a = Var::new(&mut rt, LispType::Integer(1));
    let b = a.new_ref();
    a.set(&mut rt, LispType::Str("x".to_string()));
    assert!(matches!(b.get(&rt), LispType::Str(s) if s == "x"));
    assert_eq!(rt.len(), 1);
}

#[test]
fn two_uses_of_a_name_share_its_cell() {
    let mut rt = Runtime::new();
    let scope = Scope::default(&mut rt);
    let tokens = tokenize("(+ 1 (+ 2 3) +)", "t").unwrap();
    let tree = make_ast(&mut rt, &tokens, &scope, &here()).unwrap();
    let plus = scope.get("+").unwrap();
    assert!(tree.op.same_cell(&plus));
    assert!(tree.args[2].same_cell(&plus));
    let inner_op = match tree.args[1].get(&rt) {
        LispType::Statement(inner) => inner.op.new_ref(),
        other => panic!("{:?}", other),
    };
    assert!(inner_op.same_cell(&tree.op));
    tree.op.set(&mut rt, LispType::Func(IntrinsicOp::Multiply));
    assert!(matches!(inner_op.get(&rt), LispType::Func(IntrinsicOp::Multiply)));
    assert!(matches!(plus.get(&rt), LispType::Func(IntrinsicOp::Multiply)));
}

#[test]
fn default_scope_binds_the_four_operations() {
    let mut rt = Runtime::new();
    let scope = Scope::default(&mut rt);
    assert_eq!(rt.len(), 4);
    assert!(matches!(scope.get("print").unwrap().get(&rt), LispType::Func(IntrinsicOp::Print)));
    assert!(matches!(scope.get("+").unwrap().get(&rt), LispType::Func(IntrinsicOp::Add)));
    assert!(matches!(scope.get("-").unwrap().get(&rt), LispType::Func(IntrinsicOp::Subtract)));
    assert!(matches!(scope.get("*").unwrap().get(&rt), LispType::Func(IntrinsicOp::Multiply)));
    assert!(scope.get("/").is_none());
    assert!(scope.get("").is_none());
    assert!(scope.get("prin").is_none());
}

#[test]
fn resolving_twice_prints_twice() {
    let mut rt = Runtime::new();
    let scope = Scope::default(&mut rt);
    let tokens = tokenize("(print 5)", "t").unwrap();
    let mut tree = make_ast(&mut rt, &tokens, &scope, &here()).unwrap();
    assert!(tree.res.is_none());
    let first = tree.resolve(&mut rt).unwrap();
    assert!(tree.res.as_ref().unwrap().same_cell(&first));
    assert_eq!(rt.output(), &vec!["5".to_string()]);
    let second = tree.resolve(&mut rt).unwrap();
    assert!(tree.res.as_ref().unwrap().same_cell(&second));
    assert!(!first.same_cell(&second));
    assert_eq!(rt.output(), &vec!["5".to_string(), "5".to_string()]);
}

#[test]
fn resolving_a_cell_twice_prints_twice() {
    let mut rt = Runtime::new();
    let scope = Scope::default(&mut rt);
    let tokens = tokenize("(print 5)", "t").unwrap();
    let tree = make_ast(&mut rt, &tokens, &scope, &here()).unwrap();
    let cell = Var::new(&mut rt, LispType::Statement(tree));
    let first = cell.resolve(&mut rt).unwrap();
    let second = cell.resolve(&mut rt).unwrap();
    assert_eq!(integer(&first, &rt), 0);
    assert_eq!(integer(&second, &rt), 0);
    assert_eq!(rt.output(), &vec!["5".to_string(), "5".to_string()]);
    match cell.get(&rt) {
        LispType::Statement(s) => assert!(s.res.as_ref().unwrap().same_cell(&second)),
        other => panic!("{:?}", other),
    }
}

#[test]
fn resolving_a_plain_cell_gives_the_cell() {
    let mut rt = Runtime::new();
    let a = Var::new(&mut rt, LispType::Str("x".to_string()));
    let r = a.resolve(&mut rt).unwrap();
    assert!(r.same_cell(&a));
    assert_eq!(rt.len(), 1);
    assert!(rt.output().is_empty());
}

#[test]
fn statement_made_by_hand() {
    let mut rt = Runtime::new();
    let a = Var::new(&mut rt, LispType::Integer(6));
    let b = Var::new(&mut rt, LispType::Integer(7));
    let mut s = Statement::new(&mut rt, IntrinsicOp::Multiply, vec![a, b], here());
    let r = s.resolve(&mut rt).unwrap();
    assert_eq!(integer(&r, &rt), 42);
    assert!(matches!(s.op.get(&rt), LispType::Func(IntrinsicOp::Multiply)));
}

#[test]
fn intrinsics_called_directly() {
    let mut rt = Runtime::new();
    let a = Var::new(&mut rt, LispType::Integer(10));
    let b = Var::new(&mut rt, LispType::Integer(3));
    let c = Var::new(&mut rt, LispType::Integer(2));
    let args = vec![a, b, c];
    let sum = IntrinsicOp::Add.call(&mut rt, &args, &here()).unwrap();
    let difference = IntrinsicOp::Subtract.call(&mut rt, &args, &here()).unwrap();
    let product = IntrinsicOp::Multiply.call(&mut rt, &args, &here()).unwrap();
    assert_eq!(integer(&sum, &rt), 15);
    assert_eq!(integer(&difference, &rt), 5);
    assert_eq!(integer(&product, &rt), 60);
    assert!(IntrinsicOp::Print.call(&mut rt, &args, &here()).is_err());
    assert!(rt.output().is_empty());
}

#[test]
fn a_list_is_shown_with_a_space_before_each_item() {
    let mut rt = Runtime::new();
    let a = Var::new(&mut rt, LispType::Integer(1));
    let b = Var::new(&mut rt, LispType::Str("two".to_string()));
    let empty = Var::new(&mut rt, LispType::List(Vec::new()));
    let list = Var::new(&mut rt, LispType::List(vec![a, b, empty.new_ref()]));
    assert_eq!(empty.to_text(&mut rt), "()");
    assert_eq!(list.to_text(&mut rt), "( 1 two ())");
    let r = IntrinsicOp::Add.call(&mut rt, &vec![list], &here());
    assert_eq!(r.unwrap_err().msg, "Cannot add a non-integer type to an integer: ( 1 two ())!");
}

#[test]
fn showing_a_list_runs_the_calls_in_it() {
    let mut rt = Runtime::new();
    let scope = Scope::default(&mut rt);
    let tokens = tokenize("(print 5)", "t").unwrap();
    let tree = make_ast(&mut rt, &tokens, &scope, &here()).unwrap();
    let call = Var::new(&mut rt, LispType::Statement(tree));
    let list = Var::new(&mut rt, LispType::List(vec![call]));
    assert_eq!(list.to_text(&mut rt), "( 0)");
    assert_eq!(rt.output(), &vec!["5".to_string()]);
}

#[test]
fn duplicates_hold_the_same() {
    let mut rt = Runtime::new();
    let a = Var::new(&mut rt, LispType::Integer(1));
    assert!(matches!(LispType::Integer(5).duplicate(), LispType::Integer(5)));
    assert!(matches!(LispType::Str("s".to_string()).duplicate(), LispType::Str(s) if s == "s"));
    assert!(matches!(LispType::Floating("1.5".to_string()).duplicate(), LispType::Floating(s) if s == "1.5"));
    assert!(matches!(LispType::Nil.duplicate(), LispType::Nil));
    match LispType::List(vec![a.new_ref()]).duplicate() {
        LispType::List(l) => assert!(l.len() == 1 && l[0].same_cell(&a)),
        other => panic!("{:?}", other),
    }
}

#[test]
fn kinds_of_values() {
    assert!(LispType::Func(IntrinsicOp::Add).is_func());
    assert!(!LispType::Nil.is_func());
    assert!(!LispType::Nil.is_stmt());
    let mut rt = Runtime::new();
    let s = Statement::new(&mut rt, IntrinsicOp::Add, Vec::new(), here());
    assert!(LispType::Statement(s).is_stmt());
}

#[test]
fn type_error_keeps_its_message() {
    let e = TypeError::new("wrong".to_string());
    assert_eq!(e.msg, "wrong");
    assert_eq!(e.to_text(), "wrong");
}

#[test]
fn location_as_text() {
    let loc = Location { filename: "a.sul".to_string(), line: 12, col: 0 };
    assert_eq!(loc.to_text(), "a.sul:12:0");
    assert_eq!(loc.clone(), loc);
    let far = Location { filename: String::new(), line: usize::MAX, col: 1234567890 };
    assert_eq!(far.to_text(), format!(":{}:1234567890", usize::MAX));
}

#[test]
fn alike_values() {
    let rt = Runtime::new();
    let same = |a: &LispType, b: &LispType| a.alike(b, &rt);
    assert_eq!(same(&LispType::Integer(1), &LispType::Integer(1)), Some(vec![]));
    assert_eq!(same(&LispType::Integer(1), &LispType::Integer(2)), None);
    assert_eq!(same(&LispType::Str("a".to_string()), &LispType::Str("a".to_string())), Some(vec![]));
    assert_eq!(same(&LispType::Str("a".to_string()), &LispType::Str("b".to_string())), None);
    assert_eq!(same(&LispType::Nil, &LispType::Nil), Some(vec![]));
    assert_eq!(same(&LispType::Nil, &LispType::Integer(0)), None);
    assert_eq!(same(&LispType::Integer(1), &LispType::Floating("1".to_string())), None);
    assert_eq!(
        same(&LispType::Floating("1.0005".to_string()), &LispType::Floating("1.0006".to_string())),
        Some(vec![("1.0005".to_string(), "1.0006".to_string())])
    );
    assert_eq!(
        same(&LispType::Func(IntrinsicOp::Add), &LispType::Func(IntrinsicOp::Add)),
        None
    );
}

#[test]
fn alike_lists_and_calls() {
    let mut rt = Runtime::new();
    let one = Var::new(&mut rt, LispType::Integer(1));
    let uno = Var::new(&mut rt, LispType::Integer(1));
    let two = Var::new(&mut rt, LispType::Integer(2));
    let x = Var::new(&mut rt, LispType::Floating("1.0".to_string()));
    let y = Var::new(&mut rt, LispType::Floating("1.002".to_string()));
    let inner_a = Var::new(&mut rt, LispType::List(vec![x.new_ref(), one.new_ref()]));
    let inner_b = Var::new(&mut rt, LispType::List(vec![y.new_ref(), uno.new_ref()]));
    let a = LispType::List(vec![one.new_ref(), inner_a, x.new_ref()]);
    let b = LispType::List(vec![uno.new_ref(), inner_b, x.new_ref()]);
    assert!(rt.is_well_formed());
    assert_eq!(
        a.alike(&b, &rt),
        Some(vec![
            ("1.0".to_string(), "1.002".to_string()),
            ("1.0".to_string(), "1.0".to_string()),
        ])
    );
    let shorter = LispType::List(vec![one.new_ref()]);
    assert_eq!(a.alike(&shorter, &rt), None);
    let other = LispType::List(vec![two.new_ref(), y.new_ref(), x.new_ref()]);
    assert_eq!(a.alike(&other, &rt), None);
    assert_eq!(LispType::List(vec![]).alike(&LispType::List(vec![]), &rt), Some(vec![]));
    let s = Statement::new(&mut rt, IntrinsicOp::Add, vec![one.new_ref()], here());
    let t = Statement::new(&mut rt, IntrinsicOp::Add, vec![one.new_ref()], here());
    assert_eq!(LispType::Statement(s).alike(&LispType::Statement(t), &rt), None);
}

#[test]
fn well_formed_cells_are_told_from_others() {
    let mut rt = Runtime::new();
    assert!(rt.is_well_formed());
    let scope = Scope::default(&mut rt);
    let tokens = tokenize("(+ 1 (* 2 3))", "t").unwrap();
    let mut tree = make_ast(&mut rt, &tokens, &scope, &here()).unwrap();
    assert!(rt.is_well_formed());
    assert!(tree.fits(&rt));
    tree.resolve(&mut rt).unwrap();
    assert!(rt.is_well_formed());
    assert!(tree.fits(&rt));
    let plus = scope.get("+").unwrap();
    plus.set(&mut rt, LispType::Nil);
    assert!(rt.is_well_formed());
    assert!(!tree.fits(&rt));
    plus.set(&mut rt, LispType::Func(IntrinsicOp::Subtract));
    assert!(tree.fits(&rt));
    assert_eq!(integer(&tree.resolve(&mut rt).unwrap(), &rt), -5);
    let times = scope.get("*").unwrap();
    times.set(&mut rt, LispType::Integer(0));
    assert!(!rt.is_well_formed());
    assert!(tree.fits(&rt));
    times.set(&mut rt, LispType::Func(IntrinsicOp::Add));
    assert!(rt.is_well_formed());
    assert_eq!(integer(&tree.resolve(&mut rt).unwrap(), &rt), -4);
}

#[test]
fn cells_that_refer_to_themselves_are_not_well_formed() {
    let mut rt = Runtime::new();
    let a = Var::new(&mut rt, LispType::Nil);
    a.set(&mut rt, LispType::List(vec![a.new_ref()]));
    assert!(!rt.is_well_formed());
    let mut other = Runtime::new();
    assert!(!a.is_in(&other));
    assert!(!LispType::List(vec![a.new_ref()]).fits(&other));
    let b = Var::new(&mut other, LispType::Nil);
    assert!(b.is_in(&other));
    assert!(LispType::List(vec![a.new_ref()]).fits(&other));
    assert!(LispType::Nil.fits(&rt));
}

#[test]
fn values_from_plain_ones() {
    assert!(matches!(LispType::from(5isize), LispType::Integer(5)));
    assert!(matches!(LispType::from("s"), LispType::Str(s) if s == "s"));
    assert!(matches!(LispType::from("s".to_string()), LispType::Str(s) if s == "s"));
    assert!(matches!(LispType::from(IntrinsicOp::Print), LispType::Func(IntrinsicOp::Print)));
    let mut rt = Runtime::new();
    let s = Statement::new(&mut rt, IntrinsicOp::Add, Vec::new(), here());
    assert!(LispType::from(s).is_stmt());
    assert!(matches!(LispType::Func(IntrinsicOp::Add).unwrap_func(), IntrinsicOp::Add));
}

#[test]
fn a_list_can_come_as_a_literal() {
    let mut rt = Runtime::new();
    let scope = Scope::default(&mut rt);
    let item = Var::new(&mut rt, LispType::Integer(7));
    let tokens = vec![
        sul::Token { loc: here(), dat: sul::TokenType::Ident("print".to_string()) },
        sul::Token {
            loc: here(),
            dat: sul::TokenType::Recognizable(LispType::List(vec![item.new_ref()])),
        },
    ];
    let mut tree = make_ast(&mut rt, &tokens, &scope, &here()).unwrap();
    assert!(rt.is_well_formed());
    tree.resolve(&mut rt).unwrap();
    assert_eq!(rt.output(), &vec!["( 7)".to_string()]);
}

#[test]
fn make_ast_on_tokens_made_by_hand() {
    let mut rt = Runtime::new();
    let scope = Scope::default(&mut rt);
    let none: Vec<sul::Token> = Vec::new();
    let start = Location { filename: "s".to_string(), line: 3, col: 4 };
    match make_ast(&mut rt, &none, &scope, &start) {
        Err(sul::LispError::EmptyStatement { location }) => assert_eq!(location, start),
        other => panic!("{:?}", other),
    }
    assert_eq!(rt.len(), 4);
    let tokens = tokenize("(+ 1 2 zz 3)", "t").unwrap();
    assert!(make_ast(&mut rt, &tokens, &scope, &start).is_err());
    assert_eq!(rt.len(), 6);
    assert!(rt.is_well_formed());
}
