use icfp::ast::{Identifier, Statement, Symbol};
use icfp::parser::parse_as_lines;
use icfp::stack_interpreter::{build_symbol_tree, run_protocol_step, Environment, WireStep};
use Symbol::{Lit, Nil};

fn pair(a: Symbol, b: Symbol) -> Symbol {
    Symbol::Pair(Box::new(a), Box::new(b))
}

fn environment_of(program: &str) -> (Environment, Identifier) {
    let statements = parse_as_lines(program).unwrap();
    let mut environment = Environment::new();
    let mut last = statements[0].0.duplicate();
    for statement in &statements {
        let tree = build_symbol_tree(statement).unwrap();
        last = statement.0.duplicate();
        environment.insert(statement.0.duplicate(), tree);
    }
    (environment, last)
}

#[test]
fn a_drawing_protocol_finishes_with_a_picture() {
    // a protocol that finishes at once, drawing the point (1, 2)
    let (environment, name) = environment_of(
        "proto @s @v = ap ap cons 0 ap ap cons nil ap ap cons ap ap cons ap ap cons ap ap cons 1 2 nil nil nil",
    );
    let step = run_protocol_step(
        &environment,
        &Symbol::Var(name),
        &Nil,
        &pair(Lit(0), Lit(0)),
    )
    .unwrap();
    match step {
        WireStep::Finished(result) => match result {
            Symbol::Pair(state, rest) => {
                assert_eq!(*state, Nil);
                match *rest {
                    Symbol::Pair(images, _) => match *images {
                        Symbol::Pair(image, _) => match *image {
                            Symbol::Image(img) => {
                                assert!(img.pixels[2 * 640 + 1]);
                            }
                            other => panic!("expected a picture, got {:?}", other),
                        },
                        other => panic!("expected a picture list, got {:?}", other),
                    },
                    other => panic!("expected a pair, got {:?}", other),
                }
            }
            other => panic!("expected a pair, got {:?}", other),
        },
        other => panic!("expected a finished step, got {:?}", other),
    }
}

#[test]
fn a_nonzero_flag_asks_the_wire() {
    // a protocol that always asks the caller to send nil
    let (environment, name) = environment_of("proto @s @v = ( 1 , 0 , nil )");
    let step = run_protocol_step(
        &environment,
        &Symbol::Var(name),
        &Nil,
        &pair(Lit(0), Lit(0)),
    )
    .unwrap();
    match step {
        WireStep::Pending { request, new_state } => {
            // the data `nil` modulates to two zero bits
            assert_eq!(request, vec![false, false]);
            assert_eq!(new_state, Lit(0));
        }
        other => panic!("expected a pending step, got {:?}", other),
    }
}

#[test]
fn a_zero_flag_finishes() {
    let (environment, name) = environment_of("proto @s @v = ( 0 , 42 , nil )");
    let step = run_protocol_step(
        &environment,
        &Symbol::Var(name),
        &Nil,
        &pair(Lit(0), Lit(0)),
    )
    .unwrap();
    match step {
        WireStep::Finished(result) => {
            assert_eq!(result, pair(Lit(42), pair(Nil, Nil)));
        }
        other => panic!("expected a finished step, got {:?}", other),
    }
}
