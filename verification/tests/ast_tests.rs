use icfp::ast::{Canonicalize, Identifier, Statement, Symbol};
use icfp::stack_interpreter::{eval_instructions, stack_interpret};
use Symbol::{Add, Ap, B, Car, Cdr, Cons, Dec, Dem, Div, F, I, If0, Inc, IsNil, Lit, Lt, Mod,
    Modulated, Mul, Neg, Nil, Pwr2, S, T, Var};

fn pair(a: Symbol, b: Symbol) -> Symbol {
    Symbol::Pair(Box::new(a), Box::new(b))
}

fn eval(instructions: Vec<Symbol>, vars: Vec<(Identifier, Vec<Symbol>)>) -> Symbol {
    let mut statements: Vec<Statement> = vars
        .into_iter()
        .map(|(k, v)| Statement(k, v))
        .collect();
    statements.push(Statement(Identifier::Name(b"foo".to_vec()), instructions));
    stack_interpret(statements).unwrap()
}

fn val(s: &str) -> Symbol {
    Modulated(s.bytes().map(|b| b == b'1').collect())
}

#[test]
fn test_modulate() {
    assert_eq!(eval_instructions(&vec![Ap, Mod, Lit(0)]).unwrap(), val("010"));
    assert_eq!(eval_instructions(&vec![Ap, Mod, Lit(1)]).unwrap(), val("01100001"));
    assert_eq!(eval_instructions(&vec![Ap, Mod, Lit(-1)]).unwrap(), val("10100001"));
    assert_eq!(
        eval_instructions(&vec![Ap, Mod, Lit(256)]).unwrap(),
        val("011110000100000000")
    );
}

#[test]
fn test_demodulate() {
    assert_eq!(eval_instructions(&vec![Ap, Dem, Ap, Mod, Lit(0)]).unwrap(), Lit(0));
    assert_eq!(eval_instructions(&vec![Ap, Dem, Ap, Mod, Lit(1)]).unwrap(), Lit(1));
    assert_eq!(eval_instructions(&vec![Ap, Dem, Ap, Mod, Lit(-1)]).unwrap(), Lit(-1));
    assert_eq!(eval_instructions(&vec![Ap, Dem, Ap, Mod, Lit(256)]).unwrap(), Lit(256));
    assert_eq!(eval_instructions(&vec![Ap, Dem, Ap, Mod, Lit(-256)]).unwrap(), Lit(-256));
}

#[test]
fn test_modulate_list() {
    assert_eq!(
        eval_instructions(&vec![Ap, Mod, Nil]).unwrap(),
        Modulated(vec![false, false])
    );
    assert_eq!(
        eval_instructions(&vec![Ap, Mod, Ap, Ap, Cons, Nil, Nil]).unwrap(),
        Modulated(vec![true, true, false, false, false, false])
    );
    assert_eq!(
        eval_instructions(&vec![Ap, Mod, Ap, Ap, Cons, Lit(0), Nil]).unwrap(),
        Modulated(vec![true, true, false, true, false, false, false])
    );

    assert_eq!(
        eval_instructions(&vec![Ap, Mod, Ap, Ap, Cons, Lit(1), Lit(2)]).unwrap(),
        Modulated(vec![
            true, true, false, true, true, false, false, false, false, true, false, true, true,
            false, false, false, true, false
        ])
    );

    assert_eq!(
        eval_instructions(&vec![
            Ap,
            Mod,
            Ap,
            Ap,
            Cons,
            Lit(1),
            Ap,
            Ap,
            Cons,
            Lit(2),
            Nil
        ])
        .unwrap(),
        Modulated(vec![
            true, true, false, true, true, false, false, false, false, true, true, true, false,
            true, true, false, false, false, true, false, false, false
        ])
    );
}

#[test]
fn tests_equality() {
    let res = eval_instructions(&vec![Ap, Ap, Symbol::Eq, Lit(1), Lit(1)]).unwrap();
    assert_eq!(res, T);
}

#[test]
fn tests_inequality() {
    let res = eval_instructions(&vec![Ap, Ap, Symbol::Eq, Lit(1), Lit(2)]).unwrap();
    assert_eq!(res, F);
}

#[test]
fn tests_cons() {
    let res = eval_instructions(&vec![Ap, Ap, Cons, Lit(1), Lit(2)]).unwrap();
    assert_eq!(res, pair(Lit(1), Lit(2)));
}

#[test]
fn tests_car() {
    let res = eval_instructions(&vec![Ap, Car, Ap, Ap, Cons, Lit(1), Lit(2)]).unwrap();
    assert_eq!(res, Lit(1))
}

#[test]
fn tests_cdr() {
    let res = eval_instructions(&vec![Ap, Cdr, Ap, Ap, Cons, Lit(1), Lit(2)]).unwrap();
    assert_eq!(res, Lit(2))
}

#[test]
fn message5() {
    let res = eval_instructions(&vec![Ap, Inc, Lit(0)]).unwrap();
    assert_eq!(res, Lit(1));

    let res = eval_instructions(&vec![Ap, Inc, Lit(1)]).unwrap();
    assert_eq!(res, Lit(2));

    let res = eval_instructions(&vec![Ap, Inc, Lit(2)]).unwrap();
    assert_eq!(res, Lit(3));

    let res = eval_instructions(&vec![Ap, Inc, Lit(3)]).unwrap();
    assert_eq!(res, Lit(4));

    let res = eval_instructions(&vec![Ap, Inc, Lit(300)]).unwrap();
    assert_eq!(res, Lit(301));

    let res = eval_instructions(&vec![Ap, Inc, Lit(301)]).unwrap();
    assert_eq!(res, Lit(302));

    let res = eval_instructions(&vec![Ap, Inc, Lit(-1)]).unwrap();
    assert_eq!(res, Lit(0));

    let res = eval_instructions(&vec![Ap, Inc, Lit(-2)]).unwrap();
    assert_eq!(res, Lit(-1));

    let res = eval_instructions(&vec![Ap, Inc, Lit(-3)]).unwrap();
    assert_eq!(res, Lit(-2));
}

#[test]
fn message9() {
    let res = eval_instructions(&vec![Ap, Ap, Mul, Lit(4), Lit(2)]).unwrap();
    assert_eq!(res, Lit(8));

    let res = eval_instructions(&vec![Ap, Ap, Mul, Lit(3), Lit(4)]).unwrap();
    assert_eq!(res, Lit(12));

    let res = eval_instructions(&vec![Ap, Ap, Mul, Lit(3), Lit(-2)]).unwrap();
    assert_eq!(res, Lit(-6));

    let res = eval(
        vec![Ap, Ap, Mul, Var(Identifier::id(0)), Var(Identifier::id(1))],
        vec![
            (Identifier::id(0), vec![Lit(42)]),
            (Identifier::id(1), vec![Lit(7)]),
        ],
    );
    assert_eq!(res, Lit(294));

    let res = eval(
        vec![Ap, Ap, Mul, Var(Identifier::id(0)), Lit(0)],
        vec![(Identifier::id(0), vec![Lit(42)])],
    );
    assert_eq!(res, Lit(0));

    let res = eval(
        vec![Ap, Ap, Mul, Var(Identifier::id(0)), Lit(1)],
        vec![(Identifier::id(0), vec![Lit(42)])],
    );
    assert_eq!(res, Lit(42));
}

#[test]
fn message10() {
    let res = eval_instructions(&vec![Ap, Ap, Div, Lit(4), Lit(2)]).unwrap();
    assert_eq!(res, Lit(2));

    let res = eval_instructions(&vec![Ap, Ap, Div, Lit(4), Lit(3)]).unwrap();
    assert_eq!(res, Lit(1));

    let res = eval_instructions(&vec![Ap, Ap, Div, Lit(4), Lit(4)]).unwrap();
    assert_eq!(res, Lit(1));

    let res = eval_instructions(&vec![Ap, Ap, Div, Lit(4), Lit(5)]).unwrap();
    assert_eq!(res, Lit(0));

    let res = eval_instructions(&vec![Ap, Ap, Div, Lit(5), Lit(2)]).unwrap();
    assert_eq!(res, Lit(2));

    let res = eval_instructions(&vec![Ap, Ap, Div, Lit(6), Lit(-2)]).unwrap();
    assert_eq!(res, Lit(-3));

    let res = eval_instructions(&vec![Ap, Ap, Div, Lit(5), Lit(-3)]).unwrap();
    assert_eq!(res, Lit(-1));

    let res = eval_instructions(&vec![Ap, Ap, Div, Lit(-5), Lit(-3)]).unwrap();
    assert_eq!(res, Lit(1));

    let res = eval(
        vec![Ap, Ap, Div, Var(Identifier::id(0)), Lit(1)],
        vec![(Identifier::id(0), vec![Lit(42)])],
    );
    assert_eq!(res, Lit(42));
}

#[test]
fn message12() {
    assert_eq!(eval_instructions(&vec![Ap, Ap, Lt, Lit(0), Lit(-1)]).unwrap(), F);
    assert_eq!(eval_instructions(&vec![Ap, Ap, Lt, Lit(0), Lit(0)]).unwrap(), F);
    assert_eq!(eval_instructions(&vec![Ap, Ap, Lt, Lit(0), Lit(1)]).unwrap(), T);
    assert_eq!(eval_instructions(&vec![Ap, Ap, Lt, Lit(0), Lit(2)]).unwrap(), T);

    assert_eq!(eval_instructions(&vec![Ap, Ap, Lt, Lit(1), Lit(0)]).unwrap(), F);
    assert_eq!(eval_instructions(&vec![Ap, Ap, Lt, Lit(1), Lit(1)]).unwrap(), F);
    assert_eq!(eval_instructions(&vec![Ap, Ap, Lt, Lit(1), Lit(2)]).unwrap(), T);
    assert_eq!(eval_instructions(&vec![Ap, Ap, Lt, Lit(1), Lit(3)]).unwrap(), T);

    assert_eq!(eval_instructions(&vec![Ap, Ap, Lt, Lit(2), Lit(1)]).unwrap(), F);
    assert_eq!(eval_instructions(&vec![Ap, Ap, Lt, Lit(2), Lit(2)]).unwrap(), F);
    assert_eq!(eval_instructions(&vec![Ap, Ap, Lt, Lit(2), Lit(3)]).unwrap(), T);
    assert_eq!(eval_instructions(&vec![Ap, Ap, Lt, Lit(2), Lit(4)]).unwrap(), T);

    assert_eq!(eval_instructions(&vec![Ap, Ap, Lt, Lit(19), Lit(20)]).unwrap(), T);
    assert_eq!(eval_instructions(&vec![Ap, Ap, Lt, Lit(20), Lit(20)]).unwrap(), F);
    assert_eq!(eval_instructions(&vec![Ap, Ap, Lt, Lit(21), Lit(20)]).unwrap(), F);

    assert_eq!(eval_instructions(&vec![Ap, Ap, Lt, Lit(-19), Lit(-20)]).unwrap(), F);
    assert_eq!(eval_instructions(&vec![Ap, Ap, Lt, Lit(-20), Lit(-20)]).unwrap(), F);
    assert_eq!(eval_instructions(&vec![Ap, Ap, Lt, Lit(-21), Lit(-20)]).unwrap(), T);
}

#[test]
fn message16() {
    let res = eval_instructions(&vec![Ap, Neg, Lit(0)]).unwrap();
    assert_eq!(res, Lit(0));

    let res = eval_instructions(&vec![Ap, Neg, Lit(1)]).unwrap();
    assert_eq!(res, Lit(-1));

    let res = eval_instructions(&vec![Ap, Neg, Lit(-1)]).unwrap();
    assert_eq!(res, Lit(1));

    let res = eval_instructions(&vec![Ap, Neg, Lit(2)]).unwrap();
    assert_eq!(res, Lit(-2));

    let res = eval_instructions(&vec![Ap, Neg, Lit(-2)]).unwrap();
    assert_eq!(res, Lit(2));
}

#[test]
fn message18() {
    let res = eval_instructions(&vec![Ap, Ap, Ap, S, Add, Inc, Lit(1)]).unwrap();
    assert_eq!(res, Lit(3));

    let res = eval_instructions(&vec![Ap, Ap, Ap, S, Mul, Ap, Add, Lit(1), Lit(6)]).unwrap();
    assert_eq!(res, Lit(42));
}

#[test]
fn message19() {
    let res = eval_instructions(&vec![Ap, Ap, Ap, Symbol::C, Add, Lit(1), Lit(2)]).unwrap();
    assert_eq!(res, Lit(3));
}

#[test]
fn message20() {
    let res = eval(
        vec![Ap, Ap, Ap, B, Inc, Dec, Var(Identifier::id(1))],
        vec![(Identifier::id(1), vec![Lit(42)])],
    );
    assert_eq!(res, Lit(42));
}

#[test]
fn message21() {
    let res = eval_instructions(&vec![Ap, Ap, T, Lit(1), Lit(5)]).unwrap();
    assert_eq!(res, Lit(1));

    let res = eval_instructions(&vec![Ap, Ap, T, T, Lit(5)]).unwrap();
    assert_eq!(res, T);

    let res = eval_instructions(&vec![Ap, Ap, T, T, Ap, Inc, Lit(5)]).unwrap();
    assert_eq!(res, T);

    let res = eval_instructions(&vec![Ap, Ap, T, Ap, Inc, Lit(5), T]).unwrap();
    assert_eq!(res, Lit(6));
}

#[test]
fn message22() {
    let res = eval(
        vec![Ap, Ap, F, Var(Identifier::id(1)), Var(Identifier::id(2))],
        vec![
            (Identifier::id(1), vec![Lit(3)]),
            (Identifier::id(2), vec![Lit(4)]),
        ],
    );
    assert_eq!(res, Lit(4))
}

#[test]
fn message23() {
    let res = eval_instructions(&vec![Ap, Pwr2, Lit(2)]).unwrap();
    assert_eq!(res, Lit(4));

    let res = eval_instructions(&vec![Ap, Pwr2, Lit(3)]).unwrap();
    assert_eq!(res, Lit(8));

    let res = eval_instructions(&vec![Ap, Pwr2, Lit(4)]).unwrap();
    assert_eq!(res, Lit(16));

    let res = eval_instructions(&vec![Ap, Pwr2, Lit(5)]).unwrap();
    assert_eq!(res, Lit(32));

    let res = eval_instructions(&vec![Ap, Pwr2, Lit(6)]).unwrap();
    assert_eq!(res, Lit(64));

    let res = eval_instructions(&vec![Ap, Pwr2, Lit(7)]).unwrap();
    assert_eq!(res, Lit(128));

    let res = eval_instructions(&vec![Ap, Pwr2, Lit(8)]).unwrap();
    assert_eq!(res, Lit(256));
}

#[test]
fn message24() {
    let res = eval(
        vec![Ap, I, Var(Identifier::id(0))],
        vec![(Identifier::id(0), vec![Lit(42)])],
    );
    assert_eq!(res, Lit(42));

    let res = eval_instructions(&vec![Ap, I, Lit(1)]).unwrap();
    assert_eq!(res, Lit(1));

    let res = eval_instructions(&vec![Ap, I, I]).unwrap();
    assert_eq!(res, I);

    let res = eval_instructions(&vec![Ap, I, Add]).unwrap();
    assert_eq!(res, Add);

    let res = eval_instructions(&vec![Ap, I, Ap, Add, Lit(1)]).unwrap();
    assert_eq!(
        res,
        Symbol::Closure {
            body: Box::new(Add),
            captured_arg: Box::new(Lit(1))
        }
    )
}

#[test]
fn message28() {
    let res = eval_instructions(&vec![Ap, IsNil, Nil]).unwrap();
    assert_eq!(res, T)
}

#[test]
fn message30() {
    let res = eval_instructions(&vec![Ap, Car, Symbol::List(vec![Lit(1)])]).unwrap();
    assert_eq!(res, Lit(1));

    let res =
        eval_instructions(&vec![Ap, Car, Symbol::List(vec![Lit(3), Lit(2), Lit(1)])]).unwrap();
    assert_eq!(res, Lit(3));

    let res =
        eval_instructions(&vec![Ap, Cdr, Symbol::List(vec![Lit(3), Lit(2), Lit(1)])]).unwrap();
    assert_eq!(res, Symbol::List(vec![Lit(2), Lit(1)]).canonicalize());
}

#[test]
fn message37() {
    let res = eval(
        vec![Ap, Ap, Ap, If0, Lit(0), Var(Identifier::id(1)), Lit(2)],
        vec![(Identifier::id(1), vec![Lit(42)])],
    );
    assert_eq!(res, Lit(42));

    let res = eval_instructions(&vec![Ap, Ap, Ap, If0, Lit(1), Lit(0), Lit(1)]).unwrap();
    assert_eq!(res, Lit(1));
}
