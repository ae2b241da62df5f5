use icfp::ast::{Identifier, Statement, Symbol};
use icfp::parser::parse_as_lines;
use Symbol::{Ap, Cons, Inc, Lit, Mod, Nil, StoreArg, Var};

fn stmt(key: Identifier, value: Vec<Symbol>) -> Vec<Statement> {
    vec![Statement(key, value)]
}

#[test]
fn parse_assignment() {
    let parsed = parse_as_lines(":1029 = ap ap cons 7 ap ap cons 123229502148636 nil").unwrap();

    let expected = stmt(
        Identifier::id(1029),
        vec![Ap, Ap, Cons, Lit(7), Ap, Ap, Cons, Lit(123229502148636), Nil],
    );
    assert_eq!(expected, parsed);
}

#[test]
fn parse_inc() {
    let parsed = parse_as_lines(":1029 = ap inc 300 nil").unwrap();

    let expected = stmt(Identifier::id(1029), vec![Ap, Inc, Lit(300), Nil]);
    assert_eq!(expected, parsed);
}

#[test]
fn parse_eq() {
    let parsed = parse_as_lines("t = ap ap eq :0 :0").unwrap();

    let expected = stmt(
        Identifier::Name(b"t".to_vec()),
        vec![
            Ap,
            Ap,
            Symbol::Eq,
            Var(Identifier::Name(b":0".to_vec())),
            Var(Identifier::id(0)),
        ],
    );
    assert_eq!(expected, parsed);
}

#[test]
fn parse_mod() {
    let parsed = parse_as_lines(":0 = ap mod 0").unwrap();

    let expected = stmt(Identifier::id(0), vec![Ap, Mod, Lit(0)]);
    assert_eq!(expected, parsed);
}

#[test]
fn parse_mod_with_negative() {
    let parsed = parse_as_lines(":0 = ap mod -10").unwrap();

    let expected = stmt(Identifier::id(0), vec![Ap, Mod, Lit(-10)]);
    assert_eq!(expected, parsed);
}

#[test]
fn parse_list() {
    let parsed = parse_as_lines(":1029 = ( 300 ) nil").unwrap();

    let expected = stmt(
        Identifier::id(1029),
        vec![Symbol::List(vec![Lit(300)]), Nil],
    );
    assert_eq!(expected, parsed);
}

#[test]
fn parse_list_many_items() {
    let parsed = parse_as_lines(":1029 = ( 300, 200, 100 ) nil").unwrap();

    let expected = stmt(
        Identifier::id(1029),
        vec![Symbol::List(vec![Lit(300), Lit(200), Lit(100)]), Nil],
    );
    assert_eq!(expected, parsed);
}

#[test]
fn parse_prelude_function() {
    // a definition with placeholder arguments: each argument becomes one
    // application of a store marker ahead of the body
    let parsed = parse_as_lines("yay @x1 @x2 = @x1 ").unwrap();

    let expected = stmt(
        Identifier::Name(b"yay".to_vec()),
        vec![
            Ap,
            StoreArg(Identifier::PreludeArg(b"@x1".to_vec())),
            Ap,
            StoreArg(Identifier::PreludeArg(b"@x2".to_vec())),
            Var(Identifier::PreludeArg(b"@x1".to_vec())),
        ],
    );
    assert_eq!(parsed, expected);
}

#[test]
fn parse_list_nested() {
    let parsed = parse_as_lines(":1029 = ( 300, ( 200, 100 ) ) nil").unwrap();

    let expected = stmt(
        Identifier::id(1029),
        vec![
            Symbol::List(vec![Lit(300), Symbol::List(vec![Lit(200), Lit(100)])]),
            Nil,
        ],
    );
    assert_eq!(parsed, expected);
}

#[test]
fn parse_empty_list() {
    let parsed = parse_as_lines(":1029 = ( )").unwrap();

    let expected = stmt(Identifier::id(1029), vec![Nil]);
    assert_eq!(expected, parsed);
}
