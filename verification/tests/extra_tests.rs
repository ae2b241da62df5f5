use icfp::ast::modulations::{demodulate, demodulate_string, modulate, modulate_to_string};
use icfp::ast::{Canonicalize, Identifier, Symbol};
use icfp::errors::{Error, EvalError, ModError, ParseErrorKind};
use icfp::parser::parse_as_lines;
use icfp::run;
use icfp::stack_interpreter::eval_instructions;
use Symbol::{Ap, Checkerboard, Cons, Dem, Draw, Lit, Nil, Pwr2, Send};

fn pair(a: Symbol, b: Symbol) -> Symbol {
    Symbol::Pair(Box::new(a), Box::new(b))
}

#[test]
fn roundtrip_extreme_literals() {
    for n in [i64::MIN, i64::MIN + 1, -54214, -16, -15, 15, 16, 54214, i64::MAX] {
        let bits = modulate(&Lit(n)).unwrap();
        assert_eq!(demodulate(bits).unwrap(), Lit(n));
    }
}

#[test]
fn roundtrip_nested_pairs() {
    let v = pair(pair(Lit(1), Nil), pair(Lit(-2), pair(Nil, Lit(300))));
    let bits = modulate(&v).unwrap();
    assert_eq!(demodulate(bits).unwrap(), v);
}

#[test]
fn roundtrip_bits() {
    // re-modulating a demodulated wire string gives the string back
    let s = "1101100001110111110110100111100011000";
    let value = demodulate_string(s).unwrap();
    assert_eq!(modulate_to_string(&value).unwrap(), s);
}

#[test]
fn demodulate_truncated() {
    assert_eq!(demodulate(vec![false]).unwrap_err(), ModError::Truncated);
    assert_eq!(
        demodulate(vec![false, true, true]).unwrap_err(),
        ModError::Truncated
    );
}

#[test]
fn demodulate_reads_the_leading_value() {
    // trailing bits after a complete value are ignored
    assert_eq!(demodulate(vec![false, true, false, false]).unwrap(), Lit(0));
    let mut bits = modulate(&pair(Lit(1), Nil)).unwrap();
    bits.extend_from_slice(&[true, false, true]);
    assert_eq!(demodulate(bits).unwrap(), pair(Lit(1), Nil));
}

#[test]
fn demodulate_tolerates_unproduced_forms() {
    // a signed zero decodes as zero, as the original decoder read it
    assert_eq!(demodulate(vec![true, false, false]).unwrap(), Lit(0));
    // a wider width prefix than the value needs is accepted
    let wide: Vec<bool> = "0111000000001".bytes().map(|b| b == b'1').collect();
    assert_eq!(demodulate(wide).unwrap(), Lit(1));
    // a payload too wide for the literal type is rejected
    let mut huge: Vec<bool> = vec![false, true];
    huge.extend(std::iter::repeat(true).take(17));
    huge.push(false);
    huge.extend(std::iter::repeat(true).take(68));
    assert_eq!(demodulate(huge).unwrap_err(), ModError::UnexpectedPrefix);
}

#[test]
fn modulate_rejects_operators() {
    assert_eq!(modulate(&Symbol::Add).unwrap_err(), EvalError::TypeMismatch);
}

#[test]
fn parse_error_variants() {
    assert_eq!(
        parse_as_lines(":1 = 99999999999999999999999999")
            .unwrap_err()
            .kind,
        ParseErrorKind::MalformedNumber
    );
    assert_eq!(
        parse_as_lines("foo").unwrap_err().kind,
        ParseErrorKind::MissingDefinition
    );
    assert_eq!(
        parse_as_lines("( = 3").unwrap_err().kind,
        ParseErrorKind::MalformedLeftHandSide
    );
    assert_eq!(
        parse_as_lines(":1 = ( 1, 2").unwrap_err().kind,
        ParseErrorKind::MalformedList
    );
    assert_eq!(
        parse_as_lines(":1 = ap = 2").unwrap_err().kind,
        ParseErrorKind::UnknownToken
    );
}

#[test]
fn parse_error_names_the_line() {
    let err = parse_as_lines(":1 = 1\nbroken\n:2 = 2").unwrap_err();
    assert_eq!(err.line, 1);
    assert_eq!(err.kind, ParseErrorKind::MissingDefinition);
}

#[test]
fn eval_error_variants() {
    assert_eq!(
        run(":1 = ap inc :missing").unwrap_err(),
        Error::Eval(EvalError::UnknownName)
    );
    assert_eq!(
        run(":1 = ap ap div 1 0").unwrap_err(),
        Error::Eval(EvalError::DivisionByZero)
    );
    assert_eq!(
        run(":1 = ap car 1").unwrap_err(),
        Error::Eval(EvalError::TypeMismatch)
    );
    assert_eq!(
        run(":1 = :1").unwrap_err(),
        Error::Eval(EvalError::BudgetExhausted)
    );
    assert_eq!(
        run(":1 = ap ap mul 4611686018427387904 4").unwrap_err(),
        Error::Eval(EvalError::Overflow)
    );
    assert_eq!(
        run(":1 = ap pwr2 63").unwrap_err(),
        Error::Eval(EvalError::Overflow)
    );
    assert_eq!(
        run(":1 = ap pwr2 -1").unwrap_err(),
        Error::Eval(EvalError::TypeMismatch)
    );
    assert_eq!(
        eval_instructions(&vec![Ap, Dem, Symbol::Modulated(vec![true])]).unwrap_err(),
        EvalError::BadModulation
    );
}

#[test]
fn identifier_id_formats_the_name() {
    assert_eq!(Identifier::id(1029), Identifier::Name(b":1029".to_vec()));
    assert_eq!(Identifier::id(0), Identifier::Name(b":0".to_vec()));
}

#[test]
fn num_args_gives_arities() {
    assert_eq!(Symbol::S.num_args(), 3);
    assert_eq!(Symbol::T.num_args(), 2);
    assert_eq!(Symbol::I.num_args(), 1);
    assert_eq!(Lit(7).num_args(), 0);
    assert_eq!(Nil.num_args(), 0);
}

#[test]
fn canonicalize_builds_pairs() {
    let l = Symbol::List(vec![Lit(1), Lit(2)]);
    assert_eq!(l.canonicalize(), pair(Lit(1), pair(Lit(2), Nil)));
    assert_eq!(Lit(5).canonicalize(), Lit(5));
}

#[test]
fn pwr2_computes_powers() {
    assert_eq!(eval_instructions(&vec![Ap, Pwr2, Lit(0)]).unwrap(), Lit(1));
    assert_eq!(
        eval_instructions(&vec![Ap, Pwr2, Lit(62)]).unwrap(),
        Lit(4611686018427387904)
    );
}

#[test]
fn send_echoes_the_modulated_value() {
    // the diagnostic wire echoes: what is sent comes back unchanged
    let res = eval_instructions(&vec![Ap, Send, Ap, Ap, Cons, Lit(1), Nil]).unwrap();
    assert_eq!(res, pair(Lit(1), Nil));
}

#[test]
fn checkerboard_alternates_pixels() {
    let res = eval_instructions(&vec![Ap, Ap, Checkerboard, Lit(2), Lit(2)]).unwrap();
    match res {
        Symbol::Image(img) => {
            assert_eq!(img.width, 2);
            assert_eq!(img.height, 2);
            assert_eq!(img.pixels, vec![false, true, true, false]);
        }
        other => panic!("expected an image, got {:?}", other),
    }
}

#[test]
fn draw_paints_the_listed_points() {
    let program = vec![
        Ap,
        Draw,
        Ap,
        Ap,
        Cons,
        pair(Lit(1), Lit(2)),
        Nil,
    ];
    let res = eval_instructions(&program).unwrap();
    match res {
        Symbol::Image(img) => {
            assert_eq!(img.width, 640);
            assert_eq!(img.height, 480);
            assert!(img.pixels[2 * 640 + 1]);
            assert!(!img.pixels[0]);
        }
        other => panic!("expected an image, got {:?}", other),
    }
}

#[test]
fn modulation_examples_from_the_wire() {
    assert_eq!(modulate_to_string(&Lit(0)).unwrap(), "010");
    assert_eq!(modulate_to_string(&Lit(1)).unwrap(), "01100001");
    assert_eq!(modulate_to_string(&Lit(-1)).unwrap(), "10100001");
    assert_eq!(modulate_to_string(&Lit(256)).unwrap(), "011110000100000000");
    assert_eq!(
        modulate_to_string(&pair(Lit(1), Nil)).unwrap(),
        "110110000100"
    );
}

#[test]
fn scenario_unary_arithmetic() {
    assert_eq!(eval_instructions(&vec![Ap, Symbol::Inc, Lit(1)]).unwrap(), Lit(2));
    assert_eq!(eval_instructions(&vec![Ap, Symbol::Inc, Lit(-1)]).unwrap(), Lit(0));
    assert_eq!(eval_instructions(&vec![Ap, Symbol::Dec, Lit(2)]).unwrap(), Lit(1));
}

#[test]
fn scenario_binary_arithmetic() {
    assert_eq!(
        eval_instructions(&vec![Ap, Ap, Symbol::Add, Lit(2), Lit(3)]).unwrap(),
        Lit(5)
    );
    assert_eq!(
        eval_instructions(&vec![Ap, Ap, Symbol::Mul, Lit(3), Lit(-2)]).unwrap(),
        Lit(-6)
    );
    assert_eq!(
        eval_instructions(&vec![Ap, Ap, Symbol::Div, Lit(5), Lit(-3)]).unwrap(),
        Lit(-1)
    );
    assert_eq!(
        eval_instructions(&vec![Ap, Ap, Symbol::Lt, Lit(0), Lit(1)]).unwrap(),
        Symbol::T
    );
    assert_eq!(
        eval_instructions(&vec![Ap, Ap, Symbol::Eq, Lit(1), Lit(1)]).unwrap(),
        Symbol::T
    );
}

#[test]
fn name_tokens_follow_the_lhs_forms() {
    // a left-hand side begins with a letter or is a colon and digits
    assert_eq!(
        parse_as_lines("@x = 1").unwrap_err().kind,
        ParseErrorKind::MalformedLeftHandSide
    );
    assert_eq!(
        parse_as_lines(":1x = 2").unwrap_err().kind,
        ParseErrorKind::MalformedLeftHandSide
    );
    assert!(parse_as_lines("galaxy = 1").is_ok());
    assert!(parse_as_lines(":42 = 1").is_ok());
}
