use icfp::ast::{Statement, Symbol};
use icfp::parser::parse_as_lines;
use icfp::stack_interpreter::stack_interpret;
use Symbol::{Lit, F, T};

fn run_lines(lines: Vec<Statement>, expectation: Symbol) {
    let symbol = stack_interpret(lines).unwrap();
    assert_eq!(symbol, expectation);
}

fn run_test(program: &str, expectation: Symbol) {
    let lines = parse_as_lines(program).unwrap();
    run_lines(lines, expectation)
}

fn pair(a: Symbol, b: Symbol) -> Symbol {
    Symbol::Pair(Box::new(a), Box::new(b))
}

#[test]
fn inc() {
    let lines = parse_as_lines(":1 = ap inc 1").unwrap();
    let _symbol = stack_interpret(lines).unwrap();
}

#[test]
fn add() {
    let lines = parse_as_lines(":1 = ap ap add 2 1").unwrap();
    let symbol = stack_interpret(lines).unwrap();
    assert_eq!(symbol, Lit(3))
}

#[test]
fn mul() {
    run_test(":1 = ap ap mul 4 2", Lit(8));
    run_test(":1 = ap ap mul 3 4", Lit(12));
    run_test(":1 = ap ap mul 3 -2", Lit(-6));
    run_test(":1 = ap ap mul -2 3", Lit(-6));
    run_test(":1 = ap ap mul 4 0", Lit(0));
    run_test(":1 = ap ap mul 4 1", Lit(4));
}

#[test]
fn less_than() {
    run_test(":1 = ap ap lt 0 -1", F);
    run_test(":1 = ap ap lt 0 0", F);
    run_test(":1 = ap ap lt 0 1", T);
}

#[test]
fn div() {
    run_test(":1 = ap ap div 4 2", Lit(2));
    run_test(":1 = ap ap div 4 3", Lit(1));
    run_test(":1 = ap ap div 4 5", Lit(0));
    run_test(":1 = ap ap div 5 2", Lit(2));
    run_test(":1 = ap ap div 6 -2", Lit(-3));
    run_test(":1 = ap ap div 5 -3", Lit(-1));
    run_test(":1 = ap ap div -5 3", Lit(-1));
    run_test(":1 = ap ap div -5 -3", Lit(1));
}

#[test]
fn stack_interpreter_equality() {
    run_test(":1 = ap ap eq 1 1", T);
}

#[test]
fn stack_interpreter_inequality() {
    run_test(":1 = ap ap eq 1 2", F);
}

#[test]
fn stack_interpreter_cons() {
    run_test(":1 = ap ap cons 1 2", pair(Lit(1), Lit(2)));
}

#[test]
fn stack_interpreter_car() {
    run_test(":1 = ap car ap ap cons 1 2", Lit(1));
}

#[test]
fn stack_interpreter_cdr() {
    run_test(":1 = ap cdr ap ap cons 1 2", Lit(2));
}

#[test]
fn true_func() {
    run_test(":1 = ap ap t 1 2", Lit(1));
    run_test(":1 = ap ap t t i", T);
    run_test(":1 = ap ap t t ap inc 5", T);
    run_test(":1 = ap ap t ap inc 5 t", Lit(6));
}

#[test]
fn var_literal_lookahead() {
    let lines = parse_as_lines(
        ":1 = ap ap add 2 :2
                                                :2 = 3
                                                :3 = :1",
    )
    .unwrap();
    let _symbol = stack_interpret(lines).unwrap();
}

#[test]
fn var_curry() {
    let lines = parse_as_lines(
        ":1 = ap add 2
         :2 = 3
         :3 = ap :1 :2",
    )
    .unwrap();
    let _symbol = stack_interpret(lines).unwrap();
}

#[test]
fn var_dead_code() {
    let lines = parse_as_lines(
        ":0 = 5
        :1 = ap ap ap if0 1 :1 :0",
    )
    .unwrap();
    let _symbol = stack_interpret(lines).unwrap();
}

#[test]
fn s_combinator() {
    let lines = parse_as_lines(":1 = ap ap ap s add inc 1").unwrap();
    let symbol = stack_interpret(lines).unwrap();
    assert_eq!(symbol, Lit(3));

    let lines = parse_as_lines(":2 = ap ap ap s mul ap add 1 6").unwrap();
    let symbol = stack_interpret(lines).unwrap();
    assert_eq!(symbol, Lit(42));
}

#[test]
fn c_combinator() {
    let lines = parse_as_lines(":1 = ap ap ap c add 1 2").unwrap();
    let symbol = stack_interpret(lines).unwrap();
    assert_eq!(symbol, Lit(3));
}

#[test]
fn b_combinator() {
    let lines = parse_as_lines(
        ":0 = 42
    :1 = ap ap ap b inc dec :0",
    )
    .unwrap();
    let symbol = stack_interpret(lines).unwrap();
    assert_eq!(symbol, Lit(42));
}

#[test]
fn stack_interpreter_test_lookahead() {
    let lines = parse_as_lines(
        ":1 = ap add 1
         :2 = ap :1 2",
    )
    .unwrap();

    let symbol = stack_interpret(lines).unwrap();
    assert_eq!(symbol, Lit(3));
}

#[test]
fn stack_interpreter_run_simple() {
    let lines = parse_as_lines(
        ":1 = ap add 1
:2 = ap ap ap ap if0 1 :2 :1 2
:3 = :2",
    )
    .unwrap();

    let symbol = stack_interpret(lines).unwrap();
    assert_eq!(symbol, Lit(3));
}

#[test]
fn interact() {
    run_test(
        "modem = ap dem mod
           :1 = ap modem 1",
        Lit(1),
    );
}
