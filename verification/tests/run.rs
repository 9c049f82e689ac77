use sul::{run_lisp, run_lisp_dumped, LispError, LispType, Run, TokenType};

fn integer(run: &Run) -> isize {
    match run.value.as_ref().unwrap().get(&run.runtime) {
        LispType::Integer(i) => *i,
        other => panic!("no integer: {:?}", other),
    }
}

fn error(run: &Run) -> &LispError {
    run.value.as_ref().unwrap_err()
}

#[test]
fn test_addition() {
    let source = "(+ 34 (+ 34 1))";
    let run = run_lisp(source, "<provided>");
    assert!(matches!(
        *run.value.as_ref().unwrap().get(&run.runtime),
        LispType::Integer(69)
    ));
}

#[test]
fn sum_of_two() {
    assert_eq!(integer(&run_lisp("(+ 34 35)", "<provided>")), 69);
}

#[test]
fn product_of_three() {
    assert_eq!(integer(&run_lisp("(* 3 4 5)", "<provided>")), 60);
}

#[test]
fn difference_of_three() {
    assert_eq!(integer(&run_lisp("(- 10 3 2)", "<provided>")), 5);
}

#[test]
fn unknown_identifier() {
    let run = run_lisp("(undefined 1 2)", "<provided>");
    match error(&run) {
        LispError::UnknownIdentifier { name, location } => {
            assert_eq!(name, "undefined");
            assert_eq!((location.line, location.col), (0, 1));
            assert_eq!(location.filename, "<provided>");
        },
        other => panic!("{:?}", other),
    }
    assert_eq!(error(&run).to_text(), "<provided>:0:1 - Unknown identifier `undefined`!");
}

#[test]
fn empty_statement() {
    let run = run_lisp("()", "<provided>");
    match error(&run) {
        LispError::EmptyStatement { location } => {
            assert_eq!((location.line, location.col), (0, 0));
        },
        other => panic!("{:?}", other),
    }
    assert_eq!(error(&run).to_text(), "<provided>:0:0 - Empty statements are not allowed!");
}

#[test]
fn empty_source_is_an_empty_statement() {
    assert!(matches!(error(&run_lisp("", "f")), LispError::EmptyStatement { .. }));
    assert!(matches!(error(&run_lisp("(", "f")), LispError::EmptyStatement { .. }));
    assert!(matches!(error(&run_lisp(")", "f")), LispError::EmptyStatement { .. }));
}

#[test]
fn inner_empty_statement_is_blamed_on_what_follows_the_parenthesis() {
    let run = run_lisp("(+ 1 ())", "f");
    match error(&run) {
        LispError::EmptyStatement { location } => assert_eq!(location.col, 6),
        other => panic!("{:?}", other),
    }
}

#[test]
fn type_mismatch() {
    let run = run_lisp("(+ 1 \"a\")", "<provided>");
    match error(&run) {
        LispError::TypeMismatch { message } => {
            assert_eq!(message, "Cannot add a non-integer type to an integer: a!");
        },
        other => panic!("{:?}", other),
    }
    assert!(run.runtime.output().is_empty());
}

#[test]
fn unmatched_closing_paren() {
    let run = run_lisp("(+ 1 2)) 3", "f");
    match error(&run) {
        LispError::UnmatchedClosingParen { location } => assert_eq!(location.col, 6),
        other => panic!("{:?}", other),
    }
    assert_eq!(error(&run).to_text(), "f:0:6 - Unmatched closing parenthesis!");
}

#[test]
fn unmatched_opening_paren_is_the_earliest() {
    let run = run_lisp("(+ 1 (+ 2 (+ 3 4)", "f");
    match error(&run) {
        LispError::UnmatchedOpeningParen { location } => assert_eq!(location.col, 5),
        other => panic!("{:?}", other),
    }
    assert_eq!(error(&run).to_text(), "f:0:5 - Unmatched opening parenthesis!");
}

#[test]
fn not_callable() {
    let run = run_lisp("(1 2 3)", "f");
    match error(&run) {
        LispError::NotCallable { location } => assert_eq!((location.line, location.col), (0, 0)),
        other => panic!("{:?}", other),
    }
    assert_eq!(error(&run).to_text(), "f:0:0 - Cannot make a raw list (Yet..)!");
    let inner = run_lisp("(+ 1 (2 3))", "g");
    match error(&inner) {
        LispError::NotCallable { location } => assert_eq!(location.col, 6),
        other => panic!("{:?}", other),
    }
}

#[test]
fn identifiers_inside_inner_parentheses_are_left_to_the_inner_call() {
    let run = run_lisp("(+ 1 (foo 2)", "f");
    assert!(matches!(error(&run), LispError::UnmatchedOpeningParen { .. }));
    let run = run_lisp("(+ 1 (foo 2))", "f");
    match error(&run) {
        LispError::UnknownIdentifier { name, location } => {
            assert_eq!(name, "foo");
            assert_eq!(location.col, 6);
        },
        other => panic!("{:?}", other),
    }
}

#[test]
fn works_without_the_outer_parentheses() {
    assert_eq!(integer(&run_lisp("+ 1 2)", "f")), 3);
    assert_eq!(integer(&run_lisp("(+ 1 2 3", "f")), 3);
    assert_eq!(integer(&run_lisp("+ 1 2 3", "f")), 3);
}

#[test]
fn print_writes_a_line_and_gives_zero() {
    let run = run_lisp("(print 5)", "f");
    assert_eq!(integer(&run), 0);
    assert_eq!(run.runtime.output(), &vec!["5".to_string()]);
}

#[test]
fn print_shows_each_kind_of_value() {
    assert_eq!(run_lisp("(print \"a b\")", "f").runtime.output(), &vec!["a b".to_string()]);
    assert_eq!(run_lisp("(print nil)", "f").runtime.output(), &vec!["nil".to_string()]);
    assert_eq!(run_lisp("(print -12)", "f").runtime.output(), &vec!["-12".to_string()]);
    assert_eq!(run_lisp("(print 1.50)", "f").runtime.output(), &vec!["1.50".to_string()]);
    assert_eq!(run_lisp("(print +)", "f").runtime.output(), &vec!["<Function>".to_string()]);
    assert_eq!(run_lisp("(print (+ 1 2))", "f").runtime.output(), &vec!["3".to_string()]);
    assert_eq!(
        run_lisp(&format!("(print {})", isize::MIN), "f").runtime.output(),
        &vec![isize::MIN.to_string()]
    );
}

#[test]
fn print_shows_the_error_of_its_operand_and_goes_on() {
    let run = run_lisp("(print (+ 1 nil))", "f");
    assert_eq!(integer(&run), 0);
    assert_eq!(
        run.runtime.output(),
        &vec!["Cannot add a non-integer type to an integer: nil!".to_string()]
    );
}

#[test]
fn inner_prints_come_first() {
    let run = run_lisp("(print (+ (print 1) (print 2)))", "f");
    assert_eq!(integer(&run), 0);
    assert_eq!(
        run.runtime.output(),
        &vec!["1".to_string(), "2".to_string(), "0".to_string()]
    );
}

#[test]
fn print_takes_one_operand() {
    for source in ["(print)", "(print 1 2)"] {
        let run = run_lisp(source, "f");
        match error(&run) {
            LispError::TypeMismatch { message } => {
                assert_eq!(message, "Print intrinsic requires only one argument!");
            },
            other => panic!("{:?}", other),
        }
        assert!(run.runtime.output().is_empty());
    }
}

#[test]
fn few_operands_are_told_and_tolerated() {
    let run = run_lisp("(+ 5)", "f");
    assert_eq!(integer(&run), 5);
    assert_eq!(
        run.runtime.output(),
        &vec!["f:0:1 - Addition requires at least two arguments!".to_string()]
    );
    let run = run_lisp("(+)", "f");
    assert_eq!(integer(&run), 0);
    assert_eq!(run.runtime.output().len(), 1);
    let run = run_lisp("(* 7)", "g");
    assert_eq!(integer(&run), 7);
    assert_eq!(
        run.runtime.output(),
        &vec!["g:0:1 - Multiplication requires at least two arguments!".to_string()]
    );
    let run = run_lisp("(- 7)", "g");
    assert_eq!(integer(&run), 7);
    assert_eq!(
        run.runtime.output(),
        &vec!["g:0:1 - Subtraction requires at least two arguments!".to_string()]
    );
}

#[test]
fn product_and_difference_need_an_operand() {
    let run = run_lisp("(*)", "f");
    match error(&run) {
        LispError::TypeMismatch { message } => {
            assert_eq!(message, "Multiplication requires at least one argument!");
        },
        other => panic!("{:?}", other),
    }
    assert_eq!(
        run.runtime.output(),
        &vec!["f:0:1 - Multiplication requires at least two arguments!".to_string()]
    );
    let run = run_lisp("(-)", "f");
    match error(&run) {
        LispError::TypeMismatch { message } => {
            assert_eq!(message, "Subtraction requires at least one argument!");
        },
        other => panic!("{:?}", other),
    }
}

#[test]
fn messages_of_wrong_operands() {
    let cases = [
        ("(* \"a\" 2)", "Cannot multiply with a non-integer type!"),
        ("(* 2 \"a\")", "Cannot multiply a non-integer type with an integer!"),
        ("(- nil 2)", "Cannot subtract from a non-integer!"),
        ("(- 2 1.5)", "Cannot subtract a non-integer type from an integer!"),
        ("(+ 2 1.5)", "Cannot add a non-integer type to an integer: 1.5!"),
        ("(+ 2 +)", "Cannot add a non-integer type to an integer: <Function>!"),
        ("(+ 1 (* 2 nil))", "Cannot multiply a non-integer type with an integer!"),
    ];
    for (source, expected) in cases {
        let run = run_lisp(source, "f");
        match error(&run) {
            LispError::TypeMismatch { message } => assert_eq!(message, expected, "{}", source),
            other => panic!("{:?}", other),
        }
    }
}

#[test]
fn lines_written_before_an_error_stay() {
    let run = run_lisp("(+ (print 1) nil (print 2))", "f");
    assert!(matches!(error(&run), LispError::TypeMismatch { .. }));
    assert_eq!(run.runtime.output(), &vec!["1".to_string()]);
}

#[test]
fn arithmetic_wraps_around() {
    let max = isize::MAX;
    let min = isize::MIN;
    assert_eq!(integer(&run_lisp(&format!("(+ {} 1)", max), "f")), min);
    assert_eq!(integer(&run_lisp(&format!("(- {} 1)", min), "f")), max);
    assert_eq!(integer(&run_lisp(&format!("(* {} 2)", max), "f")), -2);
    assert_eq!(integer(&run_lisp(&format!("(+ {} 1 -1)", max), "f")), max);
    assert_eq!(integer(&run_lisp(&format!("(* {} 2 0)", max), "f")), 0);
    assert_eq!(integer(&run_lisp(&format!("(* {} -1)", min), "f")), min);
}

#[test]
fn nested_arithmetic() {
    assert_eq!(integer(&run_lisp("(- (* 6 7) (+ 1 2 3) (- 10 4))", "f")), 30);
    assert_eq!(integer(&run_lisp("(+ -5 (* -2 3))", "f")), -11);
}

#[test]
fn lines_of_source() {
    assert_eq!(integer(&run_lisp("(+ (* 2 3)\n   (- 4 1)\n)", "f")), 9);
    let run = run_lisp("(+ 1\n   (* 2 3))", "f");
    match error(&run) {
        LispError::UnknownIdentifier { name, location } => {
            assert_eq!(name, "1*");
            assert_eq!((location.line, location.col), (1, 1));
        },
        other => panic!("{:?}", other),
    }
}

#[test]
fn dumped_run_hands_out_tokens_and_tree() {
    let trace = run_lisp_dumped("(+ 34 (+ 34 1))", "<provided>");
    assert_eq!(trace.tokens.len(), 9);
    assert!(matches!(trace.tokens[1].dat, TokenType::Ident(_)));
    let tree = trace.tree.as_ref().unwrap();
    assert_eq!(tree.args.len(), 2);
    assert_eq!((tree.loc.line, tree.loc.col), (0, 1));
    let result = trace.value.as_ref().unwrap();
    assert!(tree.res.as_ref().unwrap().same_cell(result));
    assert!(matches!(result.get(&trace.runtime), LispType::Integer(69)));
    match tree.args[1].get(&trace.runtime) {
        LispType::Statement(inner) => {
            assert_eq!(inner.args.len(), 2);
            assert_eq!((inner.loc.line, inner.loc.col), (0, 7));
            assert!(inner.op.same_cell(&tree.op));
            assert!(matches!(
                inner.res.as_ref().unwrap().get(&trace.runtime),
                LispType::Integer(35)
            ));
        },
        other => panic!("{:?}", other),
    }
}

#[test]
fn dumped_run_without_a_tree() {
    let trace = run_lisp_dumped("(nope)", "f");
    assert_eq!(trace.tokens.len(), 3);
    assert!(trace.tree.is_none());
    assert!(trace.value.is_err());
}
