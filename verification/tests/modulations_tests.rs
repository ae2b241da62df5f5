use icfp::ast::modulations::{
    demodulate, demodulate_string, modulate, modulate_number, modulate_to_string,
};
use icfp::ast::Symbol;
use icfp::stack_interpreter::eval_instructions;

fn val(s: &str) -> Vec<bool> {
    s.bytes().map(|b| b == b'1').collect()
}

fn pair(a: Symbol, b: Symbol) -> Symbol {
    Symbol::Pair(Box::new(a), Box::new(b))
}

#[test]
fn modulations_test_modulate_logic() {
    assert_eq!(modulate_number(0), val("010"));
    assert_eq!(modulate_number(1), val("01100001"));
    assert_eq!(modulate_number(-1), val("10100001"));
    assert_eq!(modulate_number(256), val("011110000100000000"));

    assert_eq!(modulate(&Symbol::Lit(0)).unwrap(), val("010"));
    assert_eq!(modulate(&Symbol::Lit(1)).unwrap(), val("01100001"));
    assert_eq!(modulate(&Symbol::Lit(-1)).unwrap(), val("10100001"));
    assert_eq!(modulate(&Symbol::Lit(256)).unwrap(), val("011110000100000000"));
}

#[test]
fn modulations_test_demodulate_logic() {
    assert_eq!(demodulate(modulate_number(0)).unwrap(), Symbol::Lit(0));
    assert_eq!(demodulate(modulate_number(1)).unwrap(), Symbol::Lit(1));
    assert_eq!(demodulate(modulate_number(-1)).unwrap(), Symbol::Lit(-1));
    assert_eq!(demodulate(modulate_number(256)).unwrap(), Symbol::Lit(256));

    assert_eq!(demodulate(modulate_number(0)).unwrap(), Symbol::Lit(0));
    assert_eq!(demodulate(modulate_number(1)).unwrap(), Symbol::Lit(1));
    assert_eq!(demodulate(modulate_number(-1)).unwrap(), Symbol::Lit(-1));
    assert_eq!(demodulate(modulate_number(256)).unwrap(), Symbol::Lit(256));
}

#[test]
fn modulate_list_roundtrip() {
    assert_eq!(
        modulate_to_string(&Symbol::List(vec![Symbol::Lit(1)])).unwrap(),
        modulate_to_string(&pair(Symbol::Lit(1), Symbol::Nil)).unwrap()
    );
}

#[test]
fn test_demodulate_list() {
    assert_eq!(
        demodulate(vec![
            true, true, // a pair
            false, true, // a non-negative number
            true, false, // one width nibble
            false, false, false, true, // one
            false, true, // a non-negative number
            true, false, // one width nibble
            false, false, true, false // two
        ])
        .unwrap(),
        pair(Symbol::Lit(1), Symbol::Lit(2))
    )
}

#[test]
fn http_responses() {
    assert_eq!(
        demodulate_string("1101000").unwrap(),
        pair(Symbol::Lit(0), Symbol::Nil)
    );

    let response = demodulate_string("1101100001110111110110100111100011000").unwrap();
    assert_eq!(
        response,
        pair(Symbol::Lit(1), pair(Symbol::Lit(54214), Symbol::Nil))
    );

    let inc = eval_instructions(&vec![
        Symbol::Ap,
        Symbol::Inc,
        Symbol::Ap,
        Symbol::Car,
        response,
    ])
    .unwrap();
    let _ = modulate_to_string(&inc);
}
