//! The lazy evaluator: a machine with a current expression and a stack of
//! pending arguments, reducing symbol trees to weak-head normal form.
//!
//! Every reduction step consumes one unit of a fuel budget, so evaluation
//! is total: a program that would run forever fails with a
//! budget-exhausted error instead.  The ghost functions `machine_eval` and
//! `dispatch` are the mathematical semantics; every executable function
//! here is proved to agree with them exactly.

use crate::ast::{
    arity, canon_view, list_as_pairs, view_statements, view_symbols, Canonicalize, Identifier,
    IdentView, Image, ImageView, Statement, StatementView, Symbol, SymbolView,
};
use crate::ast::{lemma_view_statements_index, lemma_view_symbols_index};
use crate::ast::modulations;
use crate::errors::EvalError;
use vstd::prelude::*;

verus! {

/// The reduction-step budget of a fresh machine.
pub const DEFAULT_BUDGET: u64 = 1000000;

/// The canvas that `draw` paints on.
pub const DRAW_WIDTH: usize = 640;

/// The canvas that `draw` paints on.
pub const DRAW_HEIGHT: usize = 480;

/// The largest side length `checkerboard` accepts.
pub const MAX_BOARD: i64 = 4096;

/// The mapping from names to definition bodies.  A second definition of a
/// name overwrites the first; lookups never mutate it.
pub struct Environment {
    entries: Vec<(Identifier, Symbol)>,
}

/// The model of an `Environment`: each name bound to the body written
/// latest.
pub open spec fn env_map(entries: Seq<(Identifier, Symbol)>) -> Map<IdentView, SymbolView>
    decreases entries.len(),
{
    if entries.len() == 0 {
        Map::empty()
    } else {
        env_map(entries.drop_last()).insert(entries.last().0@, entries.last().1@)
    }
}

impl View for Environment {
    type V = Map<IdentView, SymbolView>;

    closed spec fn view(&self) -> Map<IdentView, SymbolView> {
        env_map(self.entries@)
    }
}

impl Environment {
    /// An environment with no definitions.
    pub fn new() -> (r: Environment)
        ensures
            r@ == Map::<IdentView, SymbolView>::empty(),
    {
        Environment { entries: Vec::new() }
    }

    /// Bind `id` to `body`, overwriting any earlier binding.
    pub fn insert(&mut self, id: Identifier, body: Symbol)
        ensures
            final(self)@ == old(self)@.insert(id@, body@),
    {
        self.entries.push((id, body));
        proof {
            assert(self.entries@.drop_last() =~= old(self).entries@);
        }
    }

    /// The body bound to `id`, if any.
    pub fn lookup(&self, id: &Identifier) -> (r: Option<&Symbol>)
        ensures
            match r {
                Some(body) => self@.contains_key(id@) && body@ == self@[id@],
                None => !self@.contains_key(id@),
            },
    {
        let mut i: usize = self.entries.len();
        proof {
            assert(self.entries@.subrange(0, self.entries@.len() as int) =~= self.entries@);
        }
        while i > 0
            invariant
                i <= self.entries@.len(),
                env_map(self.entries@).contains_key(id@) == env_map(
                    self.entries@.subrange(0, i as int),
                ).contains_key(id@),
                env_map(self.entries@).contains_key(id@) ==> env_map(self.entries@)[id@]
                    == env_map(self.entries@.subrange(0, i as int))[id@],
            decreases i,
        {
            i -= 1;
            proof {
                assert(self.entries@.subrange(0, i + 1).drop_last() =~= self.entries@.subrange(
                    0,
                    i as int,
                ));
                assert(self.entries@.subrange(0, i + 1).last() == self.entries@[i as int]);
            }
            let entry = &self.entries[i];
            if crate::ast::ident_eq(&entry.0, id) {
                return Some(&entry.1);
            }
        }
        proof {
            assert(self.entries@.subrange(0, 0) =~= Seq::<(Identifier, Symbol)>::empty());
        }
        None
    }

    /// A fresh environment equal to this one with one more binding.
    pub fn extended(&self, id: &Identifier, body: &Symbol) -> (r: Environment)
        ensures
            r@ == self@.insert(id@, body@),
    {
        let mut entries: Vec<(Identifier, Symbol)> = Vec::new();
        let mut i: usize = 0;
        while i < self.entries.len()
            invariant
                i <= self.entries@.len(),
                entries@.len() == i,
                forall|j: int|
                    0 <= j < i ==> #[trigger] entries@[j].0@ == self.entries@[j].0@
                        && entries@[j].1@ == self.entries@[j].1@,
            decreases self.entries@.len() - i,
        {
            let entry = &self.entries[i];
            proof {
                assert(decreases_to!(self.entries@ => self.entries@[i as int]));
            }
            entries.push((entry.0.duplicate(), entry.1.duplicate()));
            i += 1;
        }
        proof {
            lemma_env_map_congruent(entries@, self.entries@);
        }
        let mut r = Environment { entries };
        r.insert(id.duplicate(), body.duplicate());
        r
    }
}

proof fn lemma_env_map_congruent(a: Seq<(Identifier, Symbol)>, b: Seq<(Identifier, Symbol)>)
    requires
        a.len() == b.len(),
        forall|j: int| 0 <= j < a.len() ==> #[trigger] a[j].0@ == b[j].0@ && a[j].1@ == b[j].1@,
    ensures
        env_map(a) == env_map(b),
    decreases a.len(),
{
    if a.len() > 0 {
        assert(forall|j: int|
            0 <= j < a.len() - 1 ==> #[trigger] a.drop_last()[j].0@ == b.drop_last()[j].0@
                && a.drop_last()[j].1@ == b.drop_last()[j].1@);
        lemma_env_map_congruent(a.drop_last(), b.drop_last());
        assert(a.last() == a[a.len() - 1] && b.last() == b[b.len() - 1]);
    }
}

/// The pending arguments wrapped back around a head that cannot reduce
/// further: the weak-head normal form of an under-applied operator.
pub open spec fn wrap_all(cur: SymbolView, stack: Seq<SymbolView>) -> SymbolView
    decreases stack.len(),
{
    if stack.len() == 0 {
        cur
    } else {
        wrap_all(
            SymbolView::Closure { captured_arg: Box::new(stack.last()), body: Box::new(cur) },
            stack.drop_last(),
        )
    }
}

/// Truncating integer division, rounding toward zero.
pub open spec fn quot(x: int, d: int) -> int {
    if x == 0 {
        0
    } else if x > 0 && d > 0 {
        x / d
    } else if x < 0 && d < 0 {
        (x * -1) / (d * -1)
    } else if x < 0 {
        ((x * -1) / d) * -1
    } else {
        (x / (d * -1)) * -1
    }
}

/// Whether two forced values are equal atoms; `None` when either is not an
/// atom, which `eq` treats as operator misuse.
pub open spec fn atom_eq(a: SymbolView, b: SymbolView) -> Option<bool> {
    match (a, b) {
        (SymbolView::Lit(x), SymbolView::Lit(y)) => Some(x == y),
        (SymbolView::Lit(_), SymbolView::Nil) => Some(false),
        (SymbolView::Lit(_), SymbolView::T) => Some(false),
        (SymbolView::Lit(_), SymbolView::F) => Some(false),
        (SymbolView::Nil, SymbolView::Lit(_)) => Some(false),
        (SymbolView::Nil, SymbolView::Nil) => Some(true),
        (SymbolView::Nil, SymbolView::T) => Some(false),
        (SymbolView::Nil, SymbolView::F) => Some(false),
        (SymbolView::T, SymbolView::Lit(_)) => Some(false),
        (SymbolView::T, SymbolView::Nil) => Some(false),
        (SymbolView::T, SymbolView::T) => Some(true),
        (SymbolView::T, SymbolView::F) => Some(false),
        (SymbolView::F, SymbolView::Lit(_)) => Some(false),
        (SymbolView::F, SymbolView::Nil) => Some(false),
        (SymbolView::F, SymbolView::T) => Some(false),
        (SymbolView::F, SymbolView::F) => Some(true),
        _ => None,
    }
}

/// A blank canvas.
pub open spec fn blank_pixels(n: nat) -> Seq<bool> {
    Seq::new(n, |i: int| false)
}

/// The canvas after the given points are painted, in order.
pub open spec fn paint(points: Seq<(int, int)>) -> Seq<bool>
    decreases points.len(),
{
    if points.len() == 0 {
        blank_pixels((DRAW_WIDTH * DRAW_HEIGHT) as nat)
    } else {
        let p = points.last();
        paint(points.drop_last()).update(p.1 * (DRAW_WIDTH as int) + p.0, true)
    }
}

/// The picture `draw` renders from a list of points.
pub open spec fn image_of_points(points: Seq<(int, int)>) -> ImageView {
    ImageView {
        width: DRAW_WIDTH as nat,
        height: DRAW_HEIGHT as nat,
        pixels: paint(points),
    }
}

/// The picture `checkerboard` renders: a pixel is set where the parities
/// of its coordinates differ.
pub open spec fn checker_image(w: int, h: int) -> ImageView {
    ImageView {
        width: w as nat,
        height: h as nat,
        pixels: Seq::new((w * h) as nat, |i: int| (i % w + i / w) % 2 == 1),
    }
}

/// One machine result: the weak-head normal form reached and the pending
/// arguments left over.
pub type MachineResult = Result<(SymbolView, Seq<SymbolView>), EvalError>;

/// Reduce `cur` against a stack of pending arguments, spending at most
/// `fuel` steps.  The result pairs the weak-head normal form with the
/// arguments left over (only an atom can leave any).
pub open spec fn machine_eval(
    env: Map<IdentView, SymbolView>,
    cur: SymbolView,
    stack: Seq<SymbolView>,
    fuel: nat,
) -> MachineResult
    decreases fuel, 0int,
{
    if fuel == 0 {
        Err(EvalError::BudgetExhausted)
    } else {
        let f1 = (fuel - 1) as nat;
        match cur {
            SymbolView::Closure { captured_arg, body } => machine_eval(
                env,
                *body,
                stack.push(*captured_arg),
                f1,
            ),
            SymbolView::Var(id) => if env.contains_key(id) {
                machine_eval(env, env[id], stack, f1)
            } else {
                Err(EvalError::UnknownName)
            },
            SymbolView::List(items) => machine_eval(env, list_as_pairs(items), stack, f1),
            _ => {
                let a = arity(cur);
                if a > 0 && stack.len() >= a {
                    let args = Seq::new(a as nat, |t: int| stack[stack.len() - 1 - t]);
                    let rest = stack.subrange(0, stack.len() - a);
                    match dispatch(env, cur, args, rest, f1) {
                        Err(e) => Err(e),
                        Ok((c2, s2)) => machine_eval(env, c2, s2, f1),
                    }
                } else if a > 0 {
                    Ok((wrap_all(cur, stack), Seq::empty()))
                } else {
                    Ok((cur, stack))
                }
            },
        }
    }
}

/// Force a value and then, recursively, the components of every pair in
/// it: the full forcing `mod` and `send` perform.  Anything outside the
/// codec's domain is operator misuse.
pub open spec fn deep_force(
    env: Map<IdentView, SymbolView>,
    w: SymbolView,
    fuel: nat,
) -> Result<SymbolView, EvalError>
    decreases fuel, 1int,
{
    if fuel == 0 {
        Err(EvalError::BudgetExhausted)
    } else {
        let f1 = (fuel - 1) as nat;
        match w {
            SymbolView::Lit(n) => if fits_lit(n) {
                Ok(w)
            } else {
                Err(EvalError::TypeMismatch)
            },
            SymbolView::Nil => Ok(w),
            SymbolView::Pair(h, t) => match machine_eval(env, *h, Seq::empty(), f1) {
                Err(e) => Err(e),
                Ok((hw, _)) => match deep_force(env, hw, f1) {
                    Err(e) => Err(e),
                    Ok(hv) => match machine_eval(env, *t, Seq::empty(), f1) {
                        Err(e) => Err(e),
                        Ok((tw, _)) => match deep_force(env, tw, f1) {
                            Err(e) => Err(e),
                            Ok(tv) => Ok(SymbolView::Pair(Box::new(hv), Box::new(tv))),
                        },
                    },
                },
            },
            _ => Err(EvalError::TypeMismatch),
        }
    }
}

/// Walk a forced list of point pairs, forcing each coordinate; the points
/// `draw` will paint.  A coordinate off the canvas is operator misuse.
pub open spec fn draw_points(
    env: Map<IdentView, SymbolView>,
    w: SymbolView,
    fuel: nat,
) -> Result<Seq<(int, int)>, EvalError>
    decreases fuel, 2int,
{
    if fuel == 0 {
        Err(EvalError::BudgetExhausted)
    } else {
        let f1 = (fuel - 1) as nat;
        match w {
            SymbolView::Nil => Ok(Seq::empty()),
            SymbolView::Pair(h, t) => match machine_eval(env, *h, Seq::empty(), f1) {
                Err(e) => Err(e),
                Ok((hw, _)) => match hw {
                    SymbolView::Pair(xe, ye) => match machine_eval(env, *xe, Seq::empty(), f1) {
                        Err(e) => Err(e),
                        Ok((xw, _)) => match machine_eval(env, *ye, Seq::empty(), f1) {
                            Err(e) => Err(e),
                            Ok((yw, _)) => match (xw, yw) {
                                (SymbolView::Lit(x), SymbolView::Lit(y)) => if 0 <= x
                                    < DRAW_WIDTH as int && 0 <= y < DRAW_HEIGHT as int {
                                    match machine_eval(env, *t, Seq::empty(), f1) {
                                        Err(e) => Err(e),
                                        Ok((tw, _)) => match draw_points(env, tw, f1) {
                                            Err(e) => Err(e),
                                            Ok(rest) => Ok(seq![(x, y)] + rest),
                                        },
                                    }
                                } else {
                                    Err(EvalError::TypeMismatch)
                                },
                                _ => Err(EvalError::TypeMismatch),
                            },
                        },
                    },
                    _ => Err(EvalError::TypeMismatch),
                },
            },
            _ => Err(EvalError::TypeMismatch),
        }
    }
}

/// Walk a forced list of point lists, rendering each with `draw`: the
/// list of images `multipledraw` yields.
pub open spec fn multidraw_walk(
    env: Map<IdentView, SymbolView>,
    w: SymbolView,
    fuel: nat,
) -> Result<SymbolView, EvalError>
    decreases fuel, 3int,
{
    if fuel == 0 {
        Err(EvalError::BudgetExhausted)
    } else {
        let f1 = (fuel - 1) as nat;
        match w {
            SymbolView::Nil => Ok(SymbolView::Nil),
            SymbolView::Pair(h, t) => match machine_eval(env, *h, Seq::empty(), f1) {
                Err(e) => Err(e),
                Ok((hw, _)) => match draw_points(env, hw, f1) {
                    Err(e) => Err(e),
                    Ok(points) => match machine_eval(env, *t, Seq::empty(), f1) {
                        Err(e) => Err(e),
                        Ok((tw, _)) => match multidraw_walk(env, tw, f1) {
                            Err(e) => Err(e),
                            Ok(rest) => Ok(
                                SymbolView::Pair(
                                    Box::new(SymbolView::Image(image_of_points(points))),
                                    Box::new(rest),
                                ),
                            ),
                        },
                    },
                },
            },
            _ => Err(EvalError::TypeMismatch),
        }
    }
}

/// The `interact` protocol step: run the protocol on the state and
/// vector, then either finish with the new state and rendered pictures, or
/// send the data and interact again on the reply.
pub open spec fn interact_dispatch(
    env: Map<IdentView, SymbolView>,
    p: SymbolView,
    st: SymbolView,
    vec: SymbolView,
    rest: Seq<SymbolView>,
    fuel: nat,
) -> MachineResult
    decreases fuel, 4int,
{
                // `interact protocol state vector` first reduces
                // `ap ap protocol state vector` to the list
                // `(flag, newState, data)`.
                let call = SymbolView::Closure {
                    captured_arg: Box::new(vec),
                    body: Box::new(
                        SymbolView::Closure {
                            captured_arg: Box::new(st),
                            body: Box::new(p),
                        },
                    ),
                };
                match machine_eval(env, call, rest, fuel) {
                    Err(e) => Err(e),
                    Ok((w0, r1)) => match w0 {
                        SymbolView::Pair(flag_e, rest1_e) => match machine_eval(
                            env,
                            *flag_e,
                            Seq::empty(),
                            fuel,
                        ) {
                            Err(e) => Err(e),
                            Ok((fv, _)) => match machine_eval(env, *rest1_e, Seq::empty(), fuel) {
                                Err(e) => Err(e),
                                Ok((w1, _)) => match (fv, w1) {
                                    (SymbolView::Lit(flag), SymbolView::Pair(ns_e, rest2_e)) => {
                                        match machine_eval(env, *rest2_e, Seq::empty(), fuel) {
                                            Err(e) => Err(e),
                                            Ok((w2, _)) => match w2 {
                                                SymbolView::Pair(data_e, _) => match machine_eval(
                                                    env,
                                                    *ns_e,
                                                    Seq::empty(),
                                                    fuel,
                                                ) {
                                                    Err(e) => Err(e),
                                                    Ok((nsw, _)) => match deep_force(
                                                        env,
                                                        nsw,
                                                        fuel,
                                                    ) {
                                                        Err(e) => Err(e),
                                                        Ok(nsv) => if flag == 0 {
                                                            // finished: the pair of the new state
                                                            // and the rendered pictures
                                                            match machine_eval(
                                                                env,
                                                                *data_e,
                                                                Seq::empty(),
                                                                fuel,
                                                            ) {
                                                                Err(e) => Err(e),
                                                                Ok((dw, _)) => match multidraw_walk(
                                                                    env,
                                                                    dw,
                                                                    fuel,
                                                                ) {
                                                                    Err(e) => Err(e),
                                                                    Ok(images) => Ok(
                                                                        (
                                                                            SymbolView::Pair(
                                                                                Box::new(nsv),
                                                                                Box::new(
                                                                                    SymbolView::Pair(
                                                                                        Box::new(images),
                                                                                        Box::new(SymbolView::Nil),
                                                                                    ),
                                                                                ),
                                                                            ),
                                                                            r1,
                                                                        ),
                                                                    ),
                                                                },
                                                            }
                                                        } else {
                                                            // keep going: send the data and
                                                            // interact again on the reply
                                                            match machine_eval(
                                                                env,
                                                                *data_e,
                                                                Seq::empty(),
                                                                fuel,
                                                            ) {
                                                                Err(e) => Err(e),
                                                                Ok((dw, _)) => match deep_force(
                                                                    env,
                                                                    dw,
                                                                    fuel,
                                                                ) {
                                                                    Err(e) => Err(e),
                                                                    Ok(dv) => Ok(
                                                                        (
                                                                            SymbolView::Closure {
                                                                                captured_arg: Box::new(dv),
                                                                                body: Box::new(
                                                                                    SymbolView::Closure {
                                                                                        captured_arg: Box::new(nsv),
                                                                                        body: Box::new(
                                                                                            SymbolView::Closure {
                                                                                                captured_arg: Box::new(p),
                                                                                                body: Box::new(SymbolView::Interact),
                                                                                            },
                                                                                        ),
                                                                                    },
                                                                                ),
                                                                            },
                                                                            r1,
                                                                        ),
                                                                    ),
                                                                },
                                                            }
                                                        },
                                                    },
                                                },
                                                _ => Err(EvalError::TypeMismatch),
                                            },
                                        }
                                    },
                                    _ => Err(EvalError::TypeMismatch),
                                },
                            },
                        },
                        _ => Err(EvalError::TypeMismatch),
                    },
                }
}

/// Whether an integer fits the literal type.
pub open spec fn fits_lit(n: int) -> bool {
    i64::MIN <= n <= i64::MAX
}

/// Apply an operator whose arity is met to its arguments.  `args[0]` is
/// the innermost (first applied) argument.  `rest` holds the pending
/// arguments beyond those consumed; forcing an operand may consume from
/// it, so the result pairs the new current expression with what is left.
pub open spec fn dispatch(
    env: Map<IdentView, SymbolView>,
    op: SymbolView,
    args: Seq<SymbolView>,
    rest: Seq<SymbolView>,
    fuel: nat,
) -> MachineResult
    decreases fuel, 5int,
{
    if args.len() != arity(op) {
        Err(EvalError::TypeMismatch)
    } else {
        match op {
            SymbolView::Inc => match machine_eval(env, args[0], rest, fuel) {
                Err(e) => Err(e),
                Ok((xv, r1)) => match xv {
                    SymbolView::Lit(n) => if fits_lit(n + 1) {
                        Ok((SymbolView::Lit(n + 1), r1))
                    } else {
                        Err(EvalError::Overflow)
                    },
                    _ => Err(EvalError::TypeMismatch),
                },
            },
            SymbolView::Dec => match machine_eval(env, args[0], rest, fuel) {
                Err(e) => Err(e),
                Ok((xv, r1)) => match xv {
                    SymbolView::Lit(n) => if fits_lit(n - 1) {
                        Ok((SymbolView::Lit(n - 1), r1))
                    } else {
                        Err(EvalError::Overflow)
                    },
                    _ => Err(EvalError::TypeMismatch),
                },
            },
            SymbolView::Neg => match machine_eval(env, args[0], rest, fuel) {
                Err(e) => Err(e),
                Ok((xv, r1)) => match xv {
                    SymbolView::Lit(n) => if fits_lit(-n) {
                        Ok((SymbolView::Lit(-n), r1))
                    } else {
                        Err(EvalError::Overflow)
                    },
                    _ => Err(EvalError::TypeMismatch),
                },
            },
            SymbolView::Pwr2 => match machine_eval(env, args[0], rest, fuel) {
                Err(e) => Err(e),
                Ok((xv, r1)) => match xv {
                    SymbolView::Lit(n) => if n < 0 {
                        Err(EvalError::TypeMismatch)
                    } else if n > 62 {
                        Err(EvalError::Overflow)
                    } else {
                        Ok((SymbolView::Lit(modulations::two_pow(n as nat) as int), r1))
                    },
                    _ => Err(EvalError::TypeMismatch),
                },
            },
            SymbolView::Add => match machine_eval(env, args[0], rest, fuel) {
                Err(e) => Err(e),
                Ok((xv, r1)) => match machine_eval(env, args[1], r1, fuel) {
                    Err(e) => Err(e),
                    Ok((yv, r2)) => match (xv, yv) {
                        (SymbolView::Lit(x), SymbolView::Lit(y)) => if fits_lit(x + y) {
                            Ok((SymbolView::Lit(x + y), r2))
                        } else {
                            Err(EvalError::Overflow)
                        },
                        _ => Err(EvalError::TypeMismatch),
                    },
                },
            },
            SymbolView::Mul => match machine_eval(env, args[0], rest, fuel) {
                Err(e) => Err(e),
                Ok((xv, r1)) => match machine_eval(env, args[1], r1, fuel) {
                    Err(e) => Err(e),
                    Ok((yv, r2)) => match (xv, yv) {
                        (SymbolView::Lit(x), SymbolView::Lit(y)) => if fits_lit(x * y) {
                            Ok((SymbolView::Lit(x * y), r2))
                        } else {
                            Err(EvalError::Overflow)
                        },
                        _ => Err(EvalError::TypeMismatch),
                    },
                },
            },
            SymbolView::Div => match machine_eval(env, args[0], rest, fuel) {
                Err(e) => Err(e),
                Ok((xv, r1)) => match machine_eval(env, args[1], r1, fuel) {
                    Err(e) => Err(e),
                    Ok((yv, r2)) => match (xv, yv) {
                        (SymbolView::Lit(x), SymbolView::Lit(y)) => if y == 0 {
                            Err(EvalError::DivisionByZero)
                        } else if fits_lit(quot(x, y)) {
                            Ok((SymbolView::Lit(quot(x, y)), r2))
                        } else {
                            Err(EvalError::Overflow)
                        },
                        _ => Err(EvalError::TypeMismatch),
                    },
                },
            },
            SymbolView::Lt => match machine_eval(env, args[0], rest, fuel) {
                Err(e) => Err(e),
                Ok((xv, r1)) => match machine_eval(env, args[1], r1, fuel) {
                    Err(e) => Err(e),
                    Ok((yv, r2)) => match (xv, yv) {
                        (SymbolView::Lit(x), SymbolView::Lit(y)) => Ok(
                            (
                                if x < y {
                                    SymbolView::T
                                } else {
                                    SymbolView::F
                                },
                                r2,
                            ),
                        ),
                        _ => Err(EvalError::TypeMismatch),
                    },
                },
            },
            SymbolView::Eq => match machine_eval(env, args[0], rest, fuel) {
                Err(e) => Err(e),
                Ok((xv, r1)) => match machine_eval(env, args[1], r1, fuel) {
                    Err(e) => Err(e),
                    Ok((yv, r2)) => match atom_eq(xv, yv) {
                        Some(true) => Ok((SymbolView::T, r2)),
                        Some(false) => Ok((SymbolView::F, r2)),
                        None => Err(EvalError::TypeMismatch),
                    },
                },
            },
            SymbolView::If0 => match machine_eval(env, args[0], rest, fuel) {
                Err(e) => Err(e),
                Ok((cv, r1)) => if cv == SymbolView::Lit(0) {
                    Ok((args[1], r1))
                } else {
                    Ok((args[2], r1))
                },
            },
            SymbolView::T => Ok((args[0], rest)),
            SymbolView::F => Ok((args[1], rest)),
            SymbolView::I => Ok((args[0], rest)),
            SymbolView::S => Ok(
                (
                    SymbolView::Closure {
                        captured_arg: Box::new(
                            SymbolView::Closure {
                                captured_arg: Box::new(args[2]),
                                body: Box::new(args[1]),
                            },
                        ),
                        body: Box::new(
                            SymbolView::Closure {
                                captured_arg: Box::new(args[2]),
                                body: Box::new(args[0]),
                            },
                        ),
                    },
                    rest,
                ),
            ),
            SymbolView::C => Ok(
                (
                    SymbolView::Closure {
                        captured_arg: Box::new(args[1]),
                        body: Box::new(
                            SymbolView::Closure {
                                captured_arg: Box::new(args[2]),
                                body: Box::new(args[0]),
                            },
                        ),
                    },
                    rest,
                ),
            ),
            SymbolView::B => Ok(
                (
                    SymbolView::Closure {
                        captured_arg: Box::new(
                            SymbolView::Closure {
                                captured_arg: Box::new(args[2]),
                                body: Box::new(args[1]),
                            },
                        ),
                        body: Box::new(args[0]),
                    },
                    rest,
                ),
            ),
            SymbolView::Cons => Ok(
                (SymbolView::Pair(Box::new(args[0]), Box::new(args[1])), rest),
            ),
            SymbolView::Car => match machine_eval(env, args[0], rest, fuel) {
                Err(e) => Err(e),
                Ok((pv, r1)) => match pv {
                    SymbolView::Pair(h, _) => Ok((*h, r1)),
                    _ => Err(EvalError::TypeMismatch),
                },
            },
            SymbolView::Cdr => match machine_eval(env, args[0], rest, fuel) {
                Err(e) => Err(e),
                Ok((pv, r1)) => match pv {
                    SymbolView::Pair(_, t) => Ok((*t, r1)),
                    _ => Err(EvalError::TypeMismatch),
                },
            },
            SymbolView::IsNil => match machine_eval(env, args[0], rest, fuel) {
                Err(e) => Err(e),
                Ok((xv, r1)) => if xv == SymbolView::Nil {
                    Ok((SymbolView::T, r1))
                } else {
                    Ok((SymbolView::F, r1))
                },
            },
            SymbolView::Mod => match machine_eval(env, args[0], rest, fuel) {
                Err(e) => Err(e),
                Ok((xv, r1)) => match deep_force(env, xv, fuel) {
                    Err(e) => Err(e),
                    Ok(dv) => Ok((SymbolView::Modulated(dv.mod_bits()), r1)),
                },
            },
            SymbolView::Dem => match machine_eval(env, args[0], rest, fuel) {
                Err(e) => Err(e),
                Ok((xv, r1)) => match xv {
                    SymbolView::Modulated(bits) => match modulations::dem_spec(bits) {
                        Ok(v) => Ok((v, r1)),
                        Err(_) => Err(EvalError::BadModulation),
                    },
                    _ => Err(EvalError::TypeMismatch),
                },
            },
            SymbolView::Send => match machine_eval(env, args[0], rest, fuel) {
                Err(e) => Err(e),
                Ok((xv, r1)) => match deep_force(env, xv, fuel) {
                    Err(e) => Err(e),
                    Ok(dv) => Ok((dv, r1)),
                },
            },
            SymbolView::Draw => match machine_eval(env, args[0], rest, fuel) {
                Err(e) => Err(e),
                Ok((xv, r1)) => match draw_points(env, xv, fuel) {
                    Err(e) => Err(e),
                    Ok(points) => Ok((SymbolView::Image(image_of_points(points)), r1)),
                },
            },
            SymbolView::Checkerboard => match machine_eval(env, args[0], rest, fuel) {
                Err(e) => Err(e),
                Ok((xv, r1)) => match machine_eval(env, args[1], r1, fuel) {
                    Err(e) => Err(e),
                    Ok((yv, r2)) => match (xv, yv) {
                        (SymbolView::Lit(w), SymbolView::Lit(h)) => if 0 <= w <= MAX_BOARD as int
                            && 0 <= h <= MAX_BOARD as int {
                            Ok((SymbolView::Image(checker_image(w, h)), r2))
                        } else {
                            Err(EvalError::Overflow)
                        },
                        _ => Err(EvalError::TypeMismatch),
                    },
                },
            },
            SymbolView::MultipleDraw => match machine_eval(env, args[0], rest, fuel) {
                Err(e) => Err(e),
                Ok((xv, r1)) => match multidraw_walk(env, xv, fuel) {
                    Err(e) => Err(e),
                    Ok(images) => Ok((images, r1)),
                },
            },
            SymbolView::StoreArg(id) => match machine_eval(
                env.insert(id, args[1]),
                args[0],
                rest,
                fuel,
            ) {
                Err(e) => Err(e),
                Ok((v, r1)) => Ok((v, r1)),
            },
            SymbolView::Interact => interact_dispatch(env, args[0], args[1], args[2], rest, fuel),
            SymbolView::StatelessDraw => Ok(
                (
                    SymbolView::Pair(
                        Box::new(SymbolView::Lit(0)),
                        Box::new(
                            SymbolView::Pair(
                                Box::new(SymbolView::Nil),
                                Box::new(
                                    SymbolView::Pair(
                                        Box::new(
                                            SymbolView::Pair(
                                                Box::new(
                                                    SymbolView::Pair(
                                                        Box::new(args[2]),
                                                        Box::new(SymbolView::Nil),
                                                    ),
                                                ),
                                                Box::new(SymbolView::Nil),
                                            ),
                                        ),
                                        Box::new(SymbolView::Nil),
                                    ),
                                ),
                            ),
                        ),
                    ),
                    rest,
                ),
            ),
            _ => Err(EvalError::TypeMismatch),
        }
    }
}

/// The coordinates of a point list as mathematical integers.
pub open spec fn view_points(s: Seq<(i64, i64)>) -> Seq<(int, int)> {
    s.map(|i: int, p: (i64, i64)| (p.0 as int, p.1 as int))
}

proof fn lemma_two_pow_62()
    ensures
        modulations::two_pow(62) == 0x4000_0000_0000_0000,
{
    reveal_with_fuel(modulations::two_pow, 63);
}

/// What full forcing yields is always in the codec's domain, already in
/// canonical form.
proof fn lemma_deep_force_supported(env: Map<IdentView, SymbolView>, w: SymbolView, fuel: nat)
    ensures
        deep_force(env, w, fuel) matches Ok(v) ==> v.supported() && canon_view(v) == v,
    decreases fuel,
{
    if fuel > 0 {
        let f1 = (fuel - 1) as nat;
        match w {
            SymbolView::Pair(h, t) => {
                if let Ok((hw, _)) = machine_eval(env, *h, Seq::empty(), f1) {
                    lemma_deep_force_supported(env, hw, f1);
                    if let Ok((tw, _)) = machine_eval(env, *t, Seq::empty(), f1) {
                        lemma_deep_force_supported(env, tw, f1);
                    }
                }
            },
            _ => {
            },
        }
    }
}

/// Every point a draw list yields lies on the canvas.
proof fn lemma_draw_points_range(env: Map<IdentView, SymbolView>, w: SymbolView, fuel: nat)
    ensures
        draw_points(env, w, fuel) matches Ok(ps) ==> forall|j: int|
            0 <= j < ps.len() ==> 0 <= (#[trigger] ps[j]).0 < DRAW_WIDTH as int && 0 <= ps[j].1
                < DRAW_HEIGHT as int,
    decreases fuel,
{
    if fuel > 0 {
        let f1 = (fuel - 1) as nat;
        match w {
            SymbolView::Pair(h, t) => {
                if let Ok((hw, _)) = machine_eval(env, *h, Seq::empty(), f1) {
                    if let SymbolView::Pair(xe, ye) = hw {
                        if let Ok((xw, _)) = machine_eval(env, *xe, Seq::empty(), f1) {
                            if let Ok((yw, _)) = machine_eval(env, *ye, Seq::empty(), f1) {
                                if let Ok((tw, _)) = machine_eval(env, *t, Seq::empty(), f1) {
                                    lemma_draw_points_range(env, tw, f1);
                                }
                            }
                        }
                    }
                }
            },
            _ => {
            },
        }
    }
}

fn atom_eq_exec(a: &Symbol, b: &Symbol) -> (r: Option<bool>)
    ensures
        r == atom_eq(a@, b@),
{
    match (a, b) {
        (Symbol::Lit(x), Symbol::Lit(y)) => Some(*x == *y),
        (Symbol::Lit(_), Symbol::Nil) => Some(false),
        (Symbol::Lit(_), Symbol::T) => Some(false),
        (Symbol::Lit(_), Symbol::F) => Some(false),
        (Symbol::Nil, Symbol::Lit(_)) => Some(false),
        (Symbol::Nil, Symbol::Nil) => Some(true),
        (Symbol::Nil, Symbol::T) => Some(false),
        (Symbol::Nil, Symbol::F) => Some(false),
        (Symbol::T, Symbol::Lit(_)) => Some(false),
        (Symbol::T, Symbol::Nil) => Some(false),
        (Symbol::T, Symbol::T) => Some(true),
        (Symbol::T, Symbol::F) => Some(false),
        (Symbol::F, Symbol::Lit(_)) => Some(false),
        (Symbol::F, Symbol::Nil) => Some(false),
        (Symbol::F, Symbol::T) => Some(false),
        (Symbol::F, Symbol::F) => Some(true),
        _ => None,
    }
}

fn pwr2_exec(n: i64) -> (r: i64)
    requires
        0 <= n <= 62,
    ensures
        1 <= r,
        r as nat == modulations::two_pow(n as nat),
{
    proof {
        lemma_two_pow_62();
    }
    let mut acc: i64 = 1;
    let mut j: i64 = 0;
    while j < n
        invariant
            0 <= j <= n <= 62,
            1 <= acc,
            acc as nat == modulations::two_pow(j as nat),
            modulations::two_pow(62) == 0x4000_0000_0000_0000,
        decreases n - j,
    {
        proof {
            assert(modulations::two_pow((j + 1) as nat) == 2 * modulations::two_pow(j as nat));
            modulations::lemma_two_pow_mono((j + 1) as nat, 62);
        }
        acc = acc * 2;
        j += 1;
    }
    acc
}

/// Paint a list of canvas points onto a blank canvas.
fn render(points: &Vec<(i64, i64)>) -> (img: Image)
    requires
        forall|j: int|
            0 <= j < points@.len() ==> 0 <= (#[trigger] points@[j]).0 < DRAW_WIDTH as int && 0
                <= points@[j].1 < DRAW_HEIGHT as int,
    ensures
        img@ == image_of_points(view_points(points@)),
{
    let mut pixels: Vec<bool> = Vec::new();
    let total: usize = DRAW_WIDTH * DRAW_HEIGHT;
    let mut i: usize = 0;
    while i < total
        invariant
            i <= total,
            total == DRAW_WIDTH * DRAW_HEIGHT,
            pixels@ == Seq::new(i as nat, |c: int| false),
        decreases total - i,
    {
        pixels.push(false);
        assert(pixels@ =~= Seq::new((i + 1) as nat, |c: int| false));
        i += 1;
    }
    assert(pixels@ =~= blank_pixels((DRAW_WIDTH * DRAW_HEIGHT) as nat));
    let mut j: usize = 0;
    while j < points.len()
        invariant
            j <= points@.len(),
            pixels@.len() == DRAW_WIDTH * DRAW_HEIGHT,
            pixels@ == paint(view_points(points@.subrange(0, j as int))),
            forall|c: int|
                0 <= c < points@.len() ==> 0 <= (#[trigger] points@[c]).0 < DRAW_WIDTH as int && 0
                    <= points@[c].1 < DRAW_HEIGHT as int,
        decreases points@.len() - j,
    {
        let p = points[j];
        let idx: usize = (p.1 as usize) * DRAW_WIDTH + (p.0 as usize);
        pixels[idx] = true;
        proof {
            let prefix = view_points(points@.subrange(0, j as int));
            let ext = view_points(points@.subrange(0, j + 1));
            assert(ext.drop_last() =~= prefix);
            assert(ext.last() == (p.0 as int, p.1 as int));
            assert(paint(ext) == paint(prefix).update(
                (p.1 as int) * (DRAW_WIDTH as int) + p.0 as int,
                true,
            ));
        }
        j += 1;
    }
    assert(points@.subrange(0, points@.len() as int) =~= points@);
    Image { width: DRAW_WIDTH, height: DRAW_HEIGHT, pixels }
}

/// The alternating-pixel board of the given dimensions.
fn checker_exec(w: i64, h: i64) -> (img: Image)
    requires
        0 <= w <= MAX_BOARD,
        0 <= h <= MAX_BOARD,
    ensures
        img@ == checker_image(w as int, h as int),
{
    let wu = w as usize;
    let hu = h as usize;
    let mut pixels: Vec<bool> = Vec::new();
    let mut y: usize = 0;
    while y < hu
        invariant
            y <= hu,
            wu <= 4096,
            hu <= 4096,
            pixels@.len() == y * wu,
            forall|c: int|
                0 <= c < pixels@.len() ==> #[trigger] pixels@[c] == ((c % (wu as int) + c / (
                wu as int)) % 2 == 1),
        decreases hu - y,
    {
        let mut x: usize = 0;
        while x < wu
            invariant
                x <= wu,
                y < hu,
                wu <= 4096,
                hu <= 4096,
                pixels@.len() == y * wu + x,
                forall|c: int|
                    0 <= c < pixels@.len() ==> #[trigger] pixels@[c] == ((c % (wu as int) + c / (
                    wu as int)) % 2 == 1),
            decreases wu - x,
        {
            let bit = (x % 2 + y % 2) % 2 == 1;
            proof {
                let idx = (y * wu + x) as int;
                vstd::arithmetic::div_mod::lemma_fundamental_div_mod_converse(
                    idx,
                    wu as int,
                    y as int,
                    x as int,
                );
                vstd::arithmetic::div_mod::lemma_add_mod_noop(x as int, y as int, 2);
                assert((x % 2 + y % 2) % 2 == (x + y) % 2);
            }
            pixels.push(bit);
            x += 1;
        }
        proof {
            assert((y + 1) * wu == y * wu + wu) by (nonlinear_arith);
        }
        y += 1;
    }
    proof {
        assert(hu * wu == wu * hu) by (nonlinear_arith);
        assert(pixels@ =~= Seq::new(
            ((w as int) * (h as int)) as nat,
            |c: int| (c % (w as int) + c / (w as int)) % 2 == 1,
        ));
    }
    Image { width: wu, height: hu, pixels }
}

/// Fully force a weak-head normal form, component by component.
fn deep(env: &Environment, w: Symbol, fuel: u64) -> (r: Result<Symbol, EvalError>)
    ensures
        match (r, deep_force(env@, w@, fuel as nat)) {
            (Ok(v), Ok(sv)) => v@ == sv,
            (Err(e), Err(ev)) => e == ev,
            _ => false,
        },
    decreases fuel, 1int,
{
    if fuel == 0 {
        return Err(EvalError::BudgetExhausted);
    }
    let f1 = fuel - 1;
    match w {
        Symbol::Lit(n) => Ok(Symbol::Lit(n)),
        Symbol::Nil => Ok(Symbol::Nil),
        Symbol::Pair(h, t) => {
            let mut tmp_h: Vec<Symbol> = Vec::new();
            match reduce(env, *h, &mut tmp_h, f1) {
                Err(e) => Err(e),
                Ok(hw) => match deep(env, hw, f1) {
                    Err(e) => Err(e),
                    Ok(hv) => {
                        let mut tmp_t: Vec<Symbol> = Vec::new();
                        match reduce(env, *t, &mut tmp_t, f1) {
                            Err(e) => Err(e),
                            Ok(tw) => match deep(env, tw, f1) {
                                Err(e) => Err(e),
                                Ok(tv) => Ok(Symbol::Pair(Box::new(hv), Box::new(tv))),
                            },
                        }
                    },
                },
            }
        },
        _ => Err(EvalError::TypeMismatch),
    }
}

/// Collect the forced points of a drawn list.
fn draw_points_exec(env: &Environment, w: Symbol, fuel: u64) -> (r: Result<
    Vec<(i64, i64)>,
    EvalError,
>)
    ensures
        match (r, draw_points(env@, w@, fuel as nat)) {
            (Ok(v), Ok(sv)) => view_points(v@) == sv,
            (Err(e), Err(ev)) => e == ev,
            _ => false,
        },
    decreases fuel, 2int,
{
    if fuel == 0 {
        return Err(EvalError::BudgetExhausted);
    }
    let f1 = fuel - 1;
    match w {
        Symbol::Nil => {
            let v: Vec<(i64, i64)> = Vec::new();
            assert(view_points(v@) =~= Seq::<(int, int)>::empty());
            Ok(v)
        },
        Symbol::Pair(h, t) => {
            let mut tmp_h: Vec<Symbol> = Vec::new();
            match reduce(env, *h, &mut tmp_h, f1) {
                Err(e) => Err(e),
                Ok(hw) => match hw {
                    Symbol::Pair(xe, ye) => {
                        let mut tmp_x: Vec<Symbol> = Vec::new();
                        match reduce(env, *xe, &mut tmp_x, f1) {
                            Err(e) => Err(e),
                            Ok(xw) => {
                                let mut tmp_y: Vec<Symbol> = Vec::new();
                                match reduce(env, *ye, &mut tmp_y, f1) {
                                    Err(e) => Err(e),
                                    Ok(yw) => match (xw, yw) {
                                        (Symbol::Lit(x), Symbol::Lit(y)) => {
                                            if 0 <= x && x < DRAW_WIDTH as i64 && 0 <= y && y
                                                < DRAW_HEIGHT as i64 {
                                                let mut tmp_t: Vec<Symbol> = Vec::new();
                                                match reduce(env, *t, &mut tmp_t, f1) {
                                                    Err(e) => Err(e),
                                                    Ok(tw) => match draw_points_exec(env, tw, f1) {
                                                        Err(e) => Err(e),
                                                        Ok(mut rest) => {
                                                            let ghost rest0 = rest@;
                                                            rest.insert(0, (x, y));
                                                            proof {
                                                                assert(view_points(rest@)
                                                                    =~= seq![(x as int, y as int)]
                                                                    + view_points(rest0));
                                                            }
                                                            Ok(rest)
                                                        },
                                                    },
                                                }
                                            } else {
                                                Err(EvalError::TypeMismatch)
                                            }
                                        },
                                        _ => Err(EvalError::TypeMismatch),
                                    },
                                }
                            },
                        }
                    },
                    _ => Err(EvalError::TypeMismatch),
                },
            }
        },
        _ => Err(EvalError::TypeMismatch),
    }
}

/// Render each point list of a forced list of lists.
fn multidraw_exec(env: &Environment, w: Symbol, fuel: u64) -> (r: Result<Symbol, EvalError>)
    ensures
        match (r, multidraw_walk(env@, w@, fuel as nat)) {
            (Ok(v), Ok(sv)) => v@ == sv,
            (Err(e), Err(ev)) => e == ev,
            _ => false,
        },
    decreases fuel, 3int,
{
    proof {
        reveal_with_fuel(Symbol::symbol_view, 4);
    }
    if fuel == 0 {
        return Err(EvalError::BudgetExhausted);
    }
    let f1 = fuel - 1;
    match w {
        Symbol::Nil => Ok(Symbol::Nil),
        Symbol::Pair(h, t) => {
            let mut tmp_h: Vec<Symbol> = Vec::new();
            match reduce(env, *h, &mut tmp_h, f1) {
                Err(e) => Err(e),
                Ok(hw) => {
                    let ghost hw_v = hw@;
                    match draw_points_exec(env, hw, f1) {
                        Err(e) => Err(e),
                        Ok(points) => {
                            proof {
                                lemma_draw_points_range(env@, hw_v, f1 as nat);
                                assert forall|c: int| 0 <= c < points@.len() implies 0 <= (
                                #[trigger] points@[c]).0 < DRAW_WIDTH as int && 0 <= points@[c].1
                                    < DRAW_HEIGHT as int by {
                                    assert(view_points(points@)[c] == (
                                        points@[c].0 as int,
                                        points@[c].1 as int,
                                    ));
                                }
                            }
                            let img = render(&points);
                            let mut tmp_t: Vec<Symbol> = Vec::new();
                            match reduce(env, *t, &mut tmp_t, f1) {
                                Err(e) => Err(e),
                                Ok(tw) => match multidraw_exec(env, tw, f1) {
                                    Err(e) => Err(e),
                                    Ok(rest) => Ok(
                                        Symbol::Pair(
                                            Box::new(Symbol::Image(img)),
                                            Box::new(rest),
                                        ),
                                    ),
                                },
                            }
                        },
                    }
                },
            }
        },
        _ => Err(EvalError::TypeMismatch),
    }
}

/// Force an operand to a literal, sharing the pending-argument stack.
fn force_num(env: &Environment, s: Symbol, stack: &mut Vec<Symbol>, fuel: u64) -> (r: Result<
    i64,
    EvalError,
>)
    ensures
        match (r, machine_eval(env@, s@, view_symbols(old(stack)@), fuel as nat)) {
            (Ok(n), Ok((v, sv))) => v == SymbolView::Lit(n as int) && view_symbols(final(stack)@)
                == sv,
            (Err(EvalError::TypeMismatch), Ok((v, sv))) => !(v is Lit),
            (Err(e), Err(ev)) => e == ev,
            _ => false,
        },
    decreases fuel, 1int,
{
    match reduce(env, s, stack, fuel) {
        Err(e) => Err(e),
        Ok(v) => match v {
            Symbol::Lit(n) => Ok(n),
            _ => Err(EvalError::TypeMismatch),
        },
    }
}

/// One `interact` step, mirroring its semantics exactly.
#[verifier::rlimit(100)]
fn interact_exec(
    env: &Environment,
    p: &Symbol,
    st: &Symbol,
    vec: &Symbol,
    stack: &mut Vec<Symbol>,
    fuel: u64,
) -> (r: Result<Symbol, EvalError>)
    ensures
        match (
            r,
            interact_dispatch(env@, p@, st@, vec@, view_symbols(old(stack)@), fuel as nat),
        ) {
            (Ok(c2), Ok((cv, sv))) => c2@ == cv && view_symbols(final(stack)@) == sv,
            (Err(e), Err(ev)) => e == ev,
            _ => false,
        },
    decreases fuel, 4int,
{
    proof {
        reveal_with_fuel(Symbol::symbol_view, 5);
    }
            let call = Symbol::Closure {
                captured_arg: Box::new(vec.duplicate()),
                body: Box::new(
                    Symbol::Closure {
                        captured_arg: Box::new(st.duplicate()),
                        body: Box::new(p.duplicate()),
                    },
                ),
            };
            match reduce(env, call, stack, fuel) {
                Err(e) => Err(e),
                Ok(w0) => match w0 {
                    Symbol::Pair(flag_e, rest1_e) => {
                        let mut tmp_f: Vec<Symbol> = Vec::new();
                        match reduce(env, *flag_e, &mut tmp_f, fuel) {
                            Err(e) => Err(e),
                            Ok(fv) => {
                                let mut tmp_r1: Vec<Symbol> = Vec::new();
                                match reduce(env, *rest1_e, &mut tmp_r1, fuel) {
                                    Err(e) => Err(e),
                                    Ok(w1) => match (fv, w1) {
                                        (Symbol::Lit(flag), Symbol::Pair(ns_e, rest2_e)) => {
                                            let mut tmp_r2: Vec<Symbol> = Vec::new();
                                            match reduce(env, *rest2_e, &mut tmp_r2, fuel) {
                                                Err(e) => Err(e),
                                                Ok(w2) => match w2 {
                                                    Symbol::Pair(data_e, _) => {
                                                        let mut tmp_ns: Vec<Symbol> = Vec::new();
                                                        match reduce(env, *ns_e, &mut tmp_ns, fuel)
                                                         {
                                                            Err(e) => Err(e),
                                                            Ok(nsw) => match deep(env, nsw, fuel) {
                                                                Err(e) => Err(e),
                                                                Ok(nsv) => if flag == 0 {
                                                                    let mut tmp_d: Vec<Symbol> =
                                                                        Vec::new();
                                                                    match reduce(
                                                                        env,
                                                                        *data_e,
                                                                        &mut tmp_d,
                                                                        fuel,
                                                                    ) {
                                                                        Err(e) => Err(e),
                                                                        Ok(dw) => match
                                                                            multidraw_exec(
                                                                            env,
                                                                            dw,
                                                                            fuel,
                                                                        ) {
                                                                            Err(e) => Err(e),
                                                                            Ok(images) => Ok(
                                                                                Symbol::Pair(
                                                                                    Box::new(nsv),
                                                                                    Box::new(
                                                                                        Symbol::Pair(
                                                                                            Box::new(images),
                                                                                            Box::new(Symbol::Nil),
                                                                                        ),
                                                                                    ),
                                                                                ),
                                                                            ),
                                                                        },
                                                                    }
                                                                } else {
                                                                    let mut tmp_d: Vec<Symbol> =
                                                                        Vec::new();
                                                                    match reduce(
                                                                        env,
                                                                        *data_e,
                                                                        &mut tmp_d,
                                                                        fuel,
                                                                    ) {
                                                                        Err(e) => Err(e),
                                                                        Ok(dw) => match deep(
                                                                            env,
                                                                            dw,
                                                                            fuel,
                                                                        ) {
                                                                            Err(e) => Err(e),
                                                                            Ok(dv) => Ok(
                                                                                Symbol::Closure {
                                                                                    captured_arg: Box::new(dv),
                                                                                    body: Box::new(
                                                                                        Symbol::Closure {
                                                                                            captured_arg: Box::new(nsv),
                                                                                            body: Box::new(
                                                                                                Symbol::Closure {
                                                                                                    captured_arg: Box::new(
                                                                                                        p.duplicate(),
                                                                                                    ),
                                                                                                    body: Box::new(Symbol::Interact),
                                                                                                },
                                                                                            ),
                                                                                        },
                                                                                    ),
                                                                                },
                                                                            ),
                                                                        },
                                                                    }
                                                                },
                                                            },
                                                        }
                                                    },
                                                    _ => Err(EvalError::TypeMismatch),
                                                },
                                            }
                                        },
                                        _ => Err(EvalError::TypeMismatch),
                                    },
                                }
                            },
                        }
                    },
                    _ => Err(EvalError::TypeMismatch),
                },
            }
}

/// The machine loop: strip closures onto the stack, substitute names and
/// lists, and fire operators whose arity is met, until a weak-head normal
/// form remains or the budget runs out.
fn reduce(env: &Environment, start: Symbol, stack: &mut Vec<Symbol>, fuel: u64) -> (r: Result<
    Symbol,
    EvalError,
>)
    ensures
        match (r, machine_eval(env@, start@, view_symbols(old(stack)@), fuel as nat)) {
            (Ok(v), Ok((vv, sv))) => v@ == vv && view_symbols(final(stack)@) == sv,
            (Err(e), Err(ev)) => e == ev,
            _ => false,
        },
    decreases fuel, 0int,
{
    let ghost orig: MachineResult = machine_eval(env@, start@, view_symbols(stack@), fuel as nat);
    let mut cur = start;
    let mut f = fuel;
    loop
        invariant
            orig == machine_eval(env@, start@, view_symbols(old(stack)@), fuel as nat),
            machine_eval(env@, cur@, view_symbols(stack@), f as nat) == orig,
            f <= fuel,
        decreases f,
    {
        if f == 0 {
            return Err(EvalError::BudgetExhausted);
        }
        let f1 = f - 1;
        let next: Symbol = match cur {
            Symbol::Closure { captured_arg, body } => {
                proof {
                    crate::ast::lemma_view_symbols_push(stack@, *captured_arg);
                }
                stack.push(*captured_arg);
                *body
            },
            Symbol::Var(id) => {
                match env.lookup(&id) {
                    Some(body) => body.duplicate(),
                    None => {
                        return Err(EvalError::UnknownName);
                    },
                }
            },
            Symbol::List(items) => {
                let l = Symbol::List(items);
                l.canonicalize()
            },
            op => {
                let a = op.num_args();
                proof {
                    lemma_view_symbols_index(stack@);
                }
                if a > 0 && stack.len() >= a as usize {
                    let a_usize = a as usize;
                    let ghost s0 = stack@;
                    let ghost op_v = op@;
                    proof {
                        assert(machine_eval(env@, op_v, view_symbols(s0), f as nat) == orig);
                    }
                    let mut args: Vec<Symbol> = Vec::new();
                    let mut t: usize = 0;
                    while t < a_usize
                        invariant
                            t <= a_usize,
                            a_usize <= s0.len(),
                            stack@ == s0.subrange(0, s0.len() - t),
                            args@.len() == t,
                            forall|j: int| 0 <= j < t ==> args@[j] == s0[s0.len() - 1 - j],
                        decreases a_usize - t,
                    {
                        proof {
                            assert(s0.subrange(0, s0.len() - t).drop_last() =~= s0.subrange(
                                0,
                                s0.len() - (t + 1),
                            ));
                        }
                        let x = stack.pop().unwrap();
                        args.push(x);
                        t += 1;
                    }
                    proof {
                        lemma_view_symbols_index(args@);
                        lemma_view_symbols_index(s0);
                        lemma_view_symbols_index(stack@);
                        let st_v = view_symbols(s0);
                        assert(view_symbols(args@) =~= Seq::new(
                            a as nat,
                            |j: int| st_v[st_v.len() - 1 - j],
                        ));
                        assert(view_symbols(stack@) =~= st_v.subrange(0, st_v.len() - a));
                    }
                    match run_function(env, op, args, stack, f1) {
                        Err(e) => {
                            return Err(e);
                        },
                        Ok(c2) => c2,
                    }
                } else if a > 0 {
                    let ghost op_v = op@;
                    let ghost s0 = stack@;
                    proof {
                        assert(machine_eval(env@, op_v, view_symbols(s0), f as nat) == orig);
                        assert(orig == Ok::<(SymbolView, Seq<SymbolView>), EvalError>(
                            (wrap_all(op_v, view_symbols(s0)), Seq::empty()),
                        ));
                    }
                    let mut acc = op;
                    while stack.len() > 0
                        invariant
                            wrap_all(acc@, view_symbols(stack@)) == wrap_all(
                                op_v,
                                view_symbols(s0),
                            ),
                        decreases stack@.len(),
                    {
                        proof {
                            crate::ast::lemma_view_symbols_drop_last(stack@);
                            lemma_view_symbols_index(stack@);
                        }
                        let top = stack.pop().unwrap();
                        acc = Symbol::Closure { captured_arg: Box::new(top), body: Box::new(acc) };
                    }
                    proof {
                        assert(view_symbols(stack@) =~= Seq::<SymbolView>::empty());
                    }
                    return Ok(acc);
                } else {
                    return Ok(op);
                }
            },
        };
        cur = next;
        f = f1;
    }
}

/// The Inc/Dec/Neg/Pwr2/Add/Mul/Div/Lt/Eq/If0 reducers.
#[verifier::rlimit(100)]
fn apply_numeric(
    env: &Environment,
    function: &Symbol,
    args: &Vec<Symbol>,
    stack: &mut Vec<Symbol>,
    fuel: u64,
) -> (r: Result<Symbol, EvalError>)
    requires
        function@ is Inc || function@ is Dec || function@ is Neg || function@ is Pwr2 || function@ is Add || function@ is Mul || function@ is Div || function@ is Lt || function@ is Eq || function@ is If0,
        args@.len() == arity(function@),
    ensures
        match (
            r,
            dispatch(
                env@,
                function@,
                view_symbols(args@),
                view_symbols(old(stack)@),
                fuel as nat,
            ),
        ) {
            (Ok(c2), Ok((cv, sv))) => c2@ == cv && view_symbols(final(stack)@) == sv,
            (Err(e), Err(ev)) => e == ev,
            _ => false,
        },
    decreases fuel, 4int,
{
    proof {
        lemma_view_symbols_index(args@);
        crate::ast::lemma_view_variants(function);
    }
    match function {
        Symbol::Inc => match force_num(env, args[0].duplicate(), stack, fuel) {
            Err(e) => Err(e),
            Ok(n) => match n.checked_add(1) {
                Some(z) => Ok(Symbol::Lit(z)),
                None => Err(EvalError::Overflow),
            },
        },
        Symbol::Dec => match force_num(env, args[0].duplicate(), stack, fuel) {
            Err(e) => Err(e),
            Ok(n) => match n.checked_sub(1) {
                Some(z) => Ok(Symbol::Lit(z)),
                None => Err(EvalError::Overflow),
            },
        },
        Symbol::Neg => match force_num(env, args[0].duplicate(), stack, fuel) {
            Err(e) => Err(e),
            Ok(n) => match 0i64.checked_sub(n) {
                Some(z) => Ok(Symbol::Lit(z)),
                None => Err(EvalError::Overflow),
            },
        },
        Symbol::Pwr2 => match force_num(env, args[0].duplicate(), stack, fuel) {
            Err(e) => Err(e),
            Ok(n) => if n < 0 {
                Err(EvalError::TypeMismatch)
            } else if n > 62 {
                Err(EvalError::Overflow)
            } else {
                Ok(Symbol::Lit(pwr2_exec(n)))
            },
        },
        Symbol::Add => match reduce(env, args[0].duplicate(), stack, fuel) {
            Err(e) => Err(e),
            Ok(xv) => match reduce(env, args[1].duplicate(), stack, fuel) {
                Err(e) => Err(e),
                Ok(yv) => match (xv, yv) {
                    (Symbol::Lit(x), Symbol::Lit(y)) => match x.checked_add(y) {
                        Some(z) => Ok(Symbol::Lit(z)),
                        None => Err(EvalError::Overflow),
                    },
                    _ => Err(EvalError::TypeMismatch),
                },
            },
        },
        Symbol::Mul => match reduce(env, args[0].duplicate(), stack, fuel) {
            Err(e) => Err(e),
            Ok(xv) => match reduce(env, args[1].duplicate(), stack, fuel) {
                Err(e) => Err(e),
                Ok(yv) => match (xv, yv) {
                    (Symbol::Lit(x), Symbol::Lit(y)) => match x.checked_mul(y) {
                        Some(z) => Ok(Symbol::Lit(z)),
                        None => Err(EvalError::Overflow),
                    },
                    _ => Err(EvalError::TypeMismatch),
                },
            },
        },
        Symbol::Div => match reduce(env, args[0].duplicate(), stack, fuel) {
            Err(e) => Err(e),
            Ok(xv) => match reduce(env, args[1].duplicate(), stack, fuel) {
                Err(e) => Err(e),
                Ok(yv) => match (xv, yv) {
                    (Symbol::Lit(x), Symbol::Lit(y)) => if y == 0 {
                        Err(EvalError::DivisionByZero)
                    } else {
                        match x.checked_div(y) {
                            Some(z) => Ok(Symbol::Lit(z)),
                            None => Err(EvalError::Overflow),
                        }
                    },
                    _ => Err(EvalError::TypeMismatch),
                },
            },
        },
        Symbol::Lt => match reduce(env, args[0].duplicate(), stack, fuel) {
            Err(e) => Err(e),
            Ok(xv) => match reduce(env, args[1].duplicate(), stack, fuel) {
                Err(e) => Err(e),
                Ok(yv) => match (xv, yv) {
                    (Symbol::Lit(x), Symbol::Lit(y)) => if x < y {
                        Ok(Symbol::T)
                    } else {
                        Ok(Symbol::F)
                    },
                    _ => Err(EvalError::TypeMismatch),
                },
            },
        },
        Symbol::Eq => match reduce(env, args[0].duplicate(), stack, fuel) {
            Err(e) => Err(e),
            Ok(xv) => match reduce(env, args[1].duplicate(), stack, fuel) {
                Err(e) => Err(e),
                Ok(yv) => match atom_eq_exec(&xv, &yv) {
                    Some(true) => Ok(Symbol::T),
                    Some(false) => Ok(Symbol::F),
                    None => Err(EvalError::TypeMismatch),
                },
            },
        },
        Symbol::If0 => match reduce(env, args[0].duplicate(), stack, fuel) {
            Err(e) => Err(e),
            Ok(cv) => {
                let zero = match &cv {
                    Symbol::Lit(n) => *n == 0,
                    _ => false,
                };
                if zero {
                    Ok(args[1].duplicate())
                } else {
                    Ok(args[2].duplicate())
                }
            },
        },
        _ => Err(EvalError::TypeMismatch),
    }
}

/// The T/F/I/S/C/B/Cons reducers.
#[verifier::rlimit(100)]
fn apply_combinator(
    env: &Environment,
    function: &Symbol,
    args: &Vec<Symbol>,
    stack: &mut Vec<Symbol>,
    fuel: u64,
) -> (r: Result<Symbol, EvalError>)
    requires
        function@ is T || function@ is F || function@ is I || function@ is S || function@ is C || function@ is B || function@ is Cons,
        args@.len() == arity(function@),
    ensures
        match (
            r,
            dispatch(
                env@,
                function@,
                view_symbols(args@),
                view_symbols(old(stack)@),
                fuel as nat,
            ),
        ) {
            (Ok(c2), Ok((cv, sv))) => c2@ == cv && view_symbols(final(stack)@) == sv,
            (Err(e), Err(ev)) => e == ev,
            _ => false,
        },
    decreases fuel, 4int,
{
    proof {
        lemma_view_symbols_index(args@);
        crate::ast::lemma_view_variants(function);
        reveal_with_fuel(Symbol::symbol_view, 4);
    }
    match function {
        Symbol::T => Ok(args[0].duplicate()),
        Symbol::F => Ok(args[1].duplicate()),
        Symbol::I => Ok(args[0].duplicate()),
        Symbol::S => Ok(
            Symbol::Closure {
                captured_arg: Box::new(
                    Symbol::Closure {
                        captured_arg: Box::new(args[2].duplicate()),
                        body: Box::new(args[1].duplicate()),
                    },
                ),
                body: Box::new(
                    Symbol::Closure {
                        captured_arg: Box::new(args[2].duplicate()),
                        body: Box::new(args[0].duplicate()),
                    },
                ),
            },
        ),
        Symbol::C => Ok(
            Symbol::Closure {
                captured_arg: Box::new(args[1].duplicate()),
                body: Box::new(
                    Symbol::Closure {
                        captured_arg: Box::new(args[2].duplicate()),
                        body: Box::new(args[0].duplicate()),
                    },
                ),
            },
        ),
        Symbol::B => Ok(
            Symbol::Closure {
                captured_arg: Box::new(
                    Symbol::Closure {
                        captured_arg: Box::new(args[2].duplicate()),
                        body: Box::new(args[1].duplicate()),
                    },
                ),
                body: Box::new(args[0].duplicate()),
            },
        ),
        Symbol::Cons => Ok(
            Symbol::Pair(Box::new(args[0].duplicate()), Box::new(args[1].duplicate())),
        ),
        _ => Err(EvalError::TypeMismatch),
    }
}

/// The Car/Cdr/IsNil reducers.
#[verifier::rlimit(100)]
fn apply_list_op(
    env: &Environment,
    function: &Symbol,
    args: &Vec<Symbol>,
    stack: &mut Vec<Symbol>,
    fuel: u64,
) -> (r: Result<Symbol, EvalError>)
    requires
        function@ is Car || function@ is Cdr || function@ is IsNil,
        args@.len() == arity(function@),
    ensures
        match (
            r,
            dispatch(
                env@,
                function@,
                view_symbols(args@),
                view_symbols(old(stack)@),
                fuel as nat,
            ),
        ) {
            (Ok(c2), Ok((cv, sv))) => c2@ == cv && view_symbols(final(stack)@) == sv,
            (Err(e), Err(ev)) => e == ev,
            _ => false,
        },
    decreases fuel, 4int,
{
    proof {
        lemma_view_symbols_index(args@);
        crate::ast::lemma_view_variants(function);
    }
    match function {
        Symbol::Car => match reduce(env, args[0].duplicate(), stack, fuel) {
            Err(e) => Err(e),
            Ok(pv) => match pv {
                Symbol::Pair(h, _) => Ok(*h),
                _ => Err(EvalError::TypeMismatch),
            },
        },
        Symbol::Cdr => match reduce(env, args[0].duplicate(), stack, fuel) {
            Err(e) => Err(e),
            Ok(pv) => match pv {
                Symbol::Pair(_, t) => Ok(*t),
                _ => Err(EvalError::TypeMismatch),
            },
        },
        Symbol::IsNil => match reduce(env, args[0].duplicate(), stack, fuel) {
            Err(e) => Err(e),
            Ok(xv) => match xv {
                Symbol::Nil => Ok(Symbol::T),
                _ => Ok(Symbol::F),
            },
        },
        _ => Err(EvalError::TypeMismatch),
    }
}

/// The Mod/Dem/Send reducers.
#[verifier::rlimit(100)]
fn apply_wire(
    env: &Environment,
    function: &Symbol,
    args: &Vec<Symbol>,
    stack: &mut Vec<Symbol>,
    fuel: u64,
) -> (r: Result<Symbol, EvalError>)
    requires
        function@ is Mod || function@ is Dem || function@ is Send,
        args@.len() == arity(function@),
    ensures
        match (
            r,
            dispatch(
                env@,
                function@,
                view_symbols(args@),
                view_symbols(old(stack)@),
                fuel as nat,
            ),
        ) {
            (Ok(c2), Ok((cv, sv))) => c2@ == cv && view_symbols(final(stack)@) == sv,
            (Err(e), Err(ev)) => e == ev,
            _ => false,
        },
    decreases fuel, 4int,
{
    proof {
        lemma_view_symbols_index(args@);
        crate::ast::lemma_view_variants(function);
    }
    match function {
        Symbol::Mod => match reduce(env, args[0].duplicate(), stack, fuel) {
            Err(e) => Err(e),
            Ok(xv) => {
                let ghost xv_v = xv@;
                match deep(env, xv, fuel) {
                    Err(e) => Err(e),
                    Ok(dv) => {
                        proof {
                            lemma_deep_force_supported(env@, xv_v, fuel as nat);
                        }
                        match modulations::modulate(&dv) {
                            Ok(bits) => Ok(Symbol::Modulated(bits)),
                            Err(_) => {
                                // cannot happen: the fully forced value is
                                // in the codec's domain
                                proof {
                                    assert(false);
                                }
                                Err(EvalError::TypeMismatch)
                            },
                        }
                    },
                }
            },
        },
        Symbol::Dem => match reduce(env, args[0].duplicate(), stack, fuel) {
            Err(e) => Err(e),
            Ok(xv) => match xv {
                Symbol::Modulated(bits) => match modulations::demodulate(bits) {
                    Ok(v) => Ok(v),
                    Err(_) => Err(EvalError::BadModulation),
                },
                _ => Err(EvalError::TypeMismatch),
            },
        },
        Symbol::Send => match reduce(env, args[0].duplicate(), stack, fuel) {
            Err(e) => Err(e),
            Ok(xv) => {
                let ghost xv_v = xv@;
                match deep(env, xv, fuel) {
                    Err(e) => Err(e),
                    Ok(dv) => {
                        proof {
                            lemma_deep_force_supported(env@, xv_v, fuel as nat);
                            modulations::lemma_demodulate_modulate(dv@);
                        }
                        // the diagnostic wire is an echo: what goes out,
                        // modulated, comes back and is demodulated again
                        match modulations::modulate(&dv) {
                            Ok(bits) => match modulations::demodulate(bits) {
                                Ok(reply) => Ok(reply),
                                Err(_) => {
                                    // cannot happen: decoding inverts
                                    // encoding on the codec's domain
                                    proof {
                                        assert(false);
                                    }
                                    Err(EvalError::BadModulation)
                                },
                            },
                            Err(_) => {
                                // cannot happen: the fully forced value is
                                // in the codec's domain
                                proof {
                                    assert(false);
                                }
                                Err(EvalError::TypeMismatch)
                            },
                        }
                    },
                }
            },
        },
        _ => Err(EvalError::TypeMismatch),
    }
}

/// The Draw/Checkerboard/MultipleDraw reducers.
#[verifier::rlimit(100)]
fn apply_picture(
    env: &Environment,
    function: &Symbol,
    args: &Vec<Symbol>,
    stack: &mut Vec<Symbol>,
    fuel: u64,
) -> (r: Result<Symbol, EvalError>)
    requires
        function@ is Draw || function@ is Checkerboard || function@ is MultipleDraw,
        args@.len() == arity(function@),
    ensures
        match (
            r,
            dispatch(
                env@,
                function@,
                view_symbols(args@),
                view_symbols(old(stack)@),
                fuel as nat,
            ),
        ) {
            (Ok(c2), Ok((cv, sv))) => c2@ == cv && view_symbols(final(stack)@) == sv,
            (Err(e), Err(ev)) => e == ev,
            _ => false,
        },
    decreases fuel, 4int,
{
    proof {
        lemma_view_symbols_index(args@);
        crate::ast::lemma_view_variants(function);
    }
    match function {
        Symbol::Draw => match reduce(env, args[0].duplicate(), stack, fuel) {
            Err(e) => Err(e),
            Ok(xv) => {
                let ghost xv_v = xv@;
                match draw_points_exec(env, xv, fuel) {
                    Err(e) => Err(e),
                    Ok(points) => {
                        proof {
                            lemma_draw_points_range(env@, xv_v, fuel as nat);
                            assert forall|c: int| 0 <= c < points@.len() implies 0 <= (
                            #[trigger] points@[c]).0 < DRAW_WIDTH as int && 0 <= points@[c].1
                                < DRAW_HEIGHT as int by {
                                assert(view_points(points@)[c] == (
                                    points@[c].0 as int,
                                    points@[c].1 as int,
                                ));
                            }
                        }
                        Ok(Symbol::Image(render(&points)))
                    },
                }
            },
        },
        Symbol::Checkerboard => match reduce(env, args[0].duplicate(), stack, fuel) {
            Err(e) => Err(e),
            Ok(xv) => match reduce(env, args[1].duplicate(), stack, fuel) {
                Err(e) => Err(e),
                Ok(yv) => match (xv, yv) {
                    (Symbol::Lit(x), Symbol::Lit(y)) => if 0 <= x && x <= MAX_BOARD && 0 <= y && y <= MAX_BOARD {
                        Ok(Symbol::Image(checker_exec(x, y)))
                    } else {
                        Err(EvalError::Overflow)
                    },
                    _ => Err(EvalError::TypeMismatch),
                },
            },
        },
        Symbol::MultipleDraw => match reduce(env, args[0].duplicate(), stack, fuel) {
            Err(e) => Err(e),
            Ok(xv) => match multidraw_exec(env, xv, fuel) {
                Err(e) => Err(e),
                Ok(images) => Ok(images),
            },
        },
        _ => Err(EvalError::TypeMismatch),
    }
}

/// The `statelessdraw` reducer.
fn apply_stateless(
    env: &Environment,
    function: &Symbol,
    args: &Vec<Symbol>,
    stack: &mut Vec<Symbol>,
    fuel: u64,
) -> (r: Result<Symbol, EvalError>)
    requires
        function@ is StatelessDraw,
        args@.len() == arity(function@),
    ensures
        match (
            r,
            dispatch(
                env@,
                function@,
                view_symbols(args@),
                view_symbols(old(stack)@),
                fuel as nat,
            ),
        ) {
            (Ok(c2), Ok((cv, sv))) => c2@ == cv && view_symbols(final(stack)@) == sv,
            (Err(e), Err(ev)) => e == ev,
            _ => false,
        },
    decreases fuel, 4int,
{
    proof {
        lemma_view_symbols_index(args@);
        crate::ast::lemma_view_variants(function);
        reveal_with_fuel(Symbol::symbol_view, 8);
    }
    match function {
        Symbol::StatelessDraw => Ok(
            Symbol::Pair(
                Box::new(Symbol::Lit(0)),
                Box::new(
                    Symbol::Pair(
                        Box::new(Symbol::Nil),
                        Box::new(
                            Symbol::Pair(
                                Box::new(
                                    Symbol::Pair(
                                        Box::new(
                                            Symbol::Pair(
                                                Box::new(args[2].duplicate()),
                                                Box::new(Symbol::Nil),
                                            ),
                                        ),
                                        Box::new(Symbol::Nil),
                                    ),
                                ),
                                Box::new(Symbol::Nil),
                            ),
                        ),
                    ),
                ),
            ),
        ),
        _ => Err(EvalError::TypeMismatch),
    }
}

/// Apply one operator to the arguments popped for it.  `args[0]` is the
/// innermost argument; forcing an operand may consume pending arguments
/// from the shared stack.
#[verifier::rlimit(60)]
pub fn run_function(
    env: &Environment,
    function: Symbol,
    args: Vec<Symbol>,
    stack: &mut Vec<Symbol>,
    fuel: u64,
) -> (r: Result<Symbol, EvalError>)
    ensures
        match (
            r,
            dispatch(
                env@,
                function@,
                view_symbols(args@),
                view_symbols(old(stack)@),
                fuel as nat,
            ),
        ) {
            (Ok(c2), Ok((cv, sv))) => c2@ == cv && view_symbols(final(stack)@) == sv,
            (Err(e), Err(ev)) => e == ev,
            _ => false,
        },
    decreases fuel, 5int,
{
    proof {
        lemma_view_symbols_index(args@);
    }
    if args.len() != function.num_args() as usize {
        return Err(EvalError::TypeMismatch);
    }
    match function {
        Symbol::Inc | Symbol::Dec | Symbol::Neg | Symbol::Pwr2 | Symbol::Add | Symbol::Mul
            | Symbol::Div | Symbol::Lt | Symbol::Eq | Symbol::If0 => apply_numeric(
            env,
            &function,
            &args,
            stack,
            fuel,
        ),
        Symbol::T | Symbol::F | Symbol::I | Symbol::S | Symbol::C | Symbol::B
            | Symbol::Cons => apply_combinator(env, &function, &args, stack, fuel),
        Symbol::Car | Symbol::Cdr | Symbol::IsNil => apply_list_op(env, &function, &args, stack, fuel),
        Symbol::Mod | Symbol::Dem | Symbol::Send => apply_wire(env, &function, &args, stack, fuel),
        Symbol::Draw | Symbol::Checkerboard | Symbol::MultipleDraw => apply_picture(
            env,
            &function,
            &args,
            stack,
            fuel,
        ),
        Symbol::StoreArg(id) => {
            let env2 = env.extended(&id, &args[1]);
            reduce(&env2, args[0].duplicate(), stack, fuel)
        },
        Symbol::Interact => interact_exec(env, &args[0], &args[1], &args[2], stack, fuel),
        Symbol::StatelessDraw => apply_stateless(env, &function, &args, stack, fuel),
        _ => Err(EvalError::TypeMismatch),
    }
}


/// One step of the lowering pass over a stack of already-lowered values:
/// `ap` captures the two values below it into a closure; anything else is
/// canonicalized and pushed.
pub open spec fn lower_step(sym: SymbolView, st: Seq<SymbolView>) -> Option<Seq<SymbolView>> {
    if sym is Ap {
        if st.len() >= 2 {
            let fun = st.last();
            let arg = st[st.len() - 2];
            Some(
                st.subrange(0, st.len() - 2).push(
                    SymbolView::Closure { captured_arg: Box::new(arg), body: Box::new(fun) },
                ),
            )
        } else {
            None
        }
    } else {
        Some(st.push(canon_view(sym)))
    }
}

/// The lowering pass: walk the prefix-order symbols right to left,
/// folding applications into closures.
pub open spec fn build_stack(syms: Seq<SymbolView>) -> Option<Seq<SymbolView>>
    decreases syms.len(),
{
    if syms.len() == 0 {
        Some(Seq::empty())
    } else {
        match build_stack(syms.subrange(1, syms.len() as int)) {
            None => None,
            Some(st) => lower_step(syms[0], st),
        }
    }
}

/// The single value tree a well-formed definition body lowers to.
pub open spec fn build_tree(syms: Seq<SymbolView>) -> Option<SymbolView> {
    match build_stack(syms) {
        None => None,
        Some(st) => if st.len() == 1 {
            Some(st[0])
        } else {
            None
        },
    }
}

proof fn lemma_build_stack_none(syms: Seq<SymbolView>, k: int)
    requires
        0 <= k <= syms.len(),
        build_stack(syms.subrange(k, syms.len() as int)) is None,
    ensures
        build_stack(syms) is None,
    decreases k,
{
    if k == 0 {
        assert(syms.subrange(0, syms.len() as int) =~= syms);
    } else {
        assert(syms.subrange(k - 1, syms.len() as int).subrange(
            1,
            syms.len() - (k - 1),
        ) =~= syms.subrange(k, syms.len() as int));
        lemma_build_stack_none(syms, k - 1);
    }
}

/// Fold one parsed symbol into the operand stack of the lowering pass.
pub fn lower_applies(op: &Symbol, operands: &mut Vec<Symbol>) -> (r: Result<(), EvalError>)
    ensures
        match (r, lower_step(op@, view_symbols(old(operands)@))) {
            (Ok(()), Some(st)) => view_symbols(final(operands)@) == st,
            (Err(e), None) => e == EvalError::TypeMismatch,
            _ => false,
        },
{
    match op {
        Symbol::Ap => {
            if operands.len() < 2 {
                proof {
                    lemma_view_symbols_index(operands@);
                }
                return Err(EvalError::TypeMismatch);
            }
            proof {
                lemma_view_symbols_index(operands@);
                crate::ast::lemma_view_symbols_drop_last(operands@);
                crate::ast::lemma_view_symbols_drop_last(operands@.drop_last());
            }
            let fun = operands.pop().unwrap();
            let arg = operands.pop().unwrap();
            let closed = Symbol::Closure { captured_arg: Box::new(arg), body: Box::new(fun) };
            proof {
                crate::ast::lemma_view_symbols_push(operands@, closed);
                lemma_view_symbols_index(operands@);
                let st = view_symbols(old(operands)@);
                assert(view_symbols(operands@) =~= st.subrange(0, st.len() - 2));
            }
            operands.push(closed);
            Ok(())
        },
        _ => {
            let c = op.canonicalize();
            proof {
                crate::ast::lemma_view_symbols_push(operands@, c);
            }
            operands.push(c);
            Ok(())
        },
    }
}

/// Lower one definition body into the single value tree it denotes; a
/// malformed construction is an arity-exhaustion error.
pub fn build_symbol_tree(statement: &Statement) -> (r: Result<Symbol, EvalError>)
    ensures
        match (r, build_tree(statement@.body)) {
            (Ok(sym), Some(v)) => sym@ == v,
            (Err(e), None) => e == EvalError::TypeMismatch,
            _ => false,
        },
{
    let n = statement.1.len();
    proof {
        lemma_view_symbols_index(statement.1@);
        assert(statement@.body.subrange(n as int, n as int) =~= Seq::<SymbolView>::empty());
        assert(view_symbols(Seq::<Symbol>::empty()) =~= Seq::<SymbolView>::empty());
    }
    let mut stack: Vec<Symbol> = Vec::new();
    let mut i: usize = n;
    while i > 0
        invariant
            i <= n,
            n == statement.1@.len(),
            statement@.body == view_symbols(statement.1@),
            statement@.body.len() == n,
            forall|j: int| 0 <= j < n ==> statement@.body[j] == statement.1@[j]@,
            build_stack(statement@.body.subrange(i as int, n as int)) == Some(
                view_symbols(stack@),
            ),
        decreases i,
    {
        i -= 1;
        proof {
            assert(statement@.body.subrange(i as int, n as int).subrange(
                1,
                (n - i) as int,
            ) =~= statement@.body.subrange(i + 1, n as int));
            assert(statement@.body.subrange(i as int, n as int)[0] == statement@.body[i as int]);
            assert(decreases_to!(statement.1@ => statement.1@[i as int]));
        }
        let sym = &statement.1[i];
        match lower_applies(sym, &mut stack) {
            Ok(()) => {
            },
            Err(e) => {
                proof {
                    lemma_build_stack_none(statement@.body, i as int);
                }
                return Err(e);
            },
        }
    }
    proof {
        assert(statement@.body.subrange(0, n as int) =~= statement@.body);
        lemma_view_symbols_index(stack@);
    }
    if stack.len() == 1 {
        let tree = stack.pop().unwrap();
        Ok(tree)
    } else {
        Err(EvalError::TypeMismatch)
    }
}

/// One whole program: each definition lowered and bound in order, earlier
/// bindings overwritten by later ones.
pub open spec fn stmts_env(sts: Seq<StatementView>) -> Option<Map<IdentView, SymbolView>>
    decreases sts.len(),
{
    if sts.len() == 0 {
        Some(Map::empty())
    } else {
        match stmts_env(sts.drop_last()) {
            None => None,
            Some(m) => match build_tree(sts.last().body) {
                None => None,
                Some(v) => Some(m.insert(sts.last().name, v)),
            },
        }
    }
}

/// A whole reduction to weak-head normal form, leftover arguments
/// discarded.
pub open spec fn run_result(
    env: Map<IdentView, SymbolView>,
    v: SymbolView,
    fuel: nat,
) -> Result<SymbolView, EvalError> {
    match machine_eval(env, v, Seq::empty(), fuel) {
        Ok((w, _)) => Ok(w),
        Err(e) => Err(e),
    }
}

/// What interpreting a program means: lower every definition, then reduce
/// the last definition's body.
pub open spec fn interpret_spec(sts: Seq<StatementView>, fuel: nat) -> Result<
    SymbolView,
    EvalError,
> {
    if sts.len() == 0 {
        Err(EvalError::UnknownName)
    } else {
        match stmts_env(sts) {
            None => Err(EvalError::TypeMismatch),
            Some(env) => run_result(env, env[sts.last().name], fuel),
        }
    }
}

proof fn lemma_stmts_env_none(sts: Seq<StatementView>, k: int)
    requires
        0 <= k <= sts.len(),
        stmts_env(sts.subrange(0, k)) is None,
    ensures
        stmts_env(sts) is None,
    decreases sts.len() - k,
{
    if k == sts.len() {
        assert(sts.subrange(0, sts.len() as int) =~= sts);
    } else {
        assert(sts.subrange(0, k + 1).drop_last() =~= sts.subrange(0, k));
        lemma_stmts_env_none(sts, k + 1);
    }
}

/// The machine of the original design: an environment of definitions and
/// a stack of pending arguments, with a fixed reduction budget.
pub struct VM {
    pub heap: Environment,
    pub stack: Vec<Symbol>,
    pub budget: u64,
}

impl VM {
    /// A fresh machine with no definitions and the default budget.
    pub fn new() -> (r: VM)
        ensures
            r.heap@ == Map::<IdentView, SymbolView>::empty(),
            r.stack@.len() == 0,
            r.budget == DEFAULT_BUDGET,
    {
        VM { heap: Environment::new(), stack: Vec::new(), budget: DEFAULT_BUDGET }
    }
}

/// Reduce one expression on the machine, consuming and leaving pending
/// arguments on its stack.
pub fn run_expression(symbol: &Symbol, vm: &mut VM) -> (r: Result<Symbol, EvalError>)
    ensures
        final(vm).heap@ == old(vm).heap@,
        final(vm).budget == old(vm).budget,
        match (
            r,
            machine_eval(
                old(vm).heap@,
                symbol@,
                view_symbols(old(vm).stack@),
                old(vm).budget as nat,
            ),
        ) {
            (Ok(v), Ok((vv, sv))) => v@ == vv && view_symbols(final(vm).stack@) == sv,
            (Err(e), Err(ev)) => e == ev,
            _ => false,
        },
{
    let b = symbol.duplicate();
    let budget = vm.budget;
    reduce(&vm.heap, b, &mut vm.stack, budget)
}

/// Reduce one expression against an environment, with the default budget
/// and no pending arguments.
pub fn run(symbol: &Symbol, environment: &Environment) -> (r: Result<Symbol, EvalError>)
    ensures
        match (r, run_result(environment@, symbol@, DEFAULT_BUDGET as nat)) {
            (Ok(v), Ok(sv)) => v@ == sv,
            (Err(e), Err(ev)) => e == ev,
            _ => false,
        },
{
    let b = symbol.duplicate();
    let mut stack: Vec<Symbol> = Vec::new();
    reduce(environment, b, &mut stack, DEFAULT_BUDGET)
}

/// Interpret a whole program: bind every definition, then reduce the last
/// definition's body to weak-head normal form.
pub fn stack_interpret(statements: Vec<Statement>) -> (r: Result<Symbol, EvalError>)
    ensures
        match (r, interpret_spec(view_statements(statements@), DEFAULT_BUDGET as nat)) {
            (Ok(v), Ok(sv)) => v@ == sv,
            (Err(e), Err(ev)) => e == ev,
            _ => false,
        },
{
    proof {
        lemma_view_statements_index(statements@);
    }
    let ghost sts = view_statements(statements@);
    if statements.len() == 0 {
        return Err(EvalError::UnknownName);
    }
    let mut env = Environment::new();
    let mut i: usize = 0;
    proof {
        assert(sts.subrange(0, 0) =~= Seq::<StatementView>::empty());
    }
    while i < statements.len()
        invariant
            i <= statements@.len(),
            sts == view_statements(statements@),
            sts.len() == statements@.len(),
            forall|j: int| 0 <= j < sts.len() ==> sts[j] == statements@[j]@,
            Some(env@) == stmts_env(sts.subrange(0, i as int)),
        decreases statements@.len() - i,
    {
        proof {
            assert(decreases_to!(statements@ => statements@[i as int]));
            assert(sts.subrange(0, i + 1).drop_last() =~= sts.subrange(0, i as int));
            assert(sts.subrange(0, i + 1).last() == sts[i as int]);
        }
        let st = &statements[i];
        match build_symbol_tree(st) {
            Err(e) => {
                proof {
                    lemma_stmts_env_none(sts, i + 1);
                }
                return Err(EvalError::TypeMismatch);
            },
            Ok(tree) => {
                env.insert(st.0.duplicate(), tree);
            },
        }
        i += 1;
    }
    proof {
        assert(sts.subrange(0, sts.len() as int) =~= sts);
    }
    let last = &statements[statements.len() - 1];
    proof {
        assert(sts.last() == statements@[statements@.len() - 1]@);
        assert(env@.contains_key(sts.last().name)) by {
            assert(stmts_env(sts) == Some(env@));
        }
    }
    match env.lookup(&last.0) {
        None => Err(EvalError::UnknownName),
        Some(body) => {
            let b = body.duplicate();
            let mut stack: Vec<Symbol> = Vec::new();
            reduce(&env, b, &mut stack, DEFAULT_BUDGET)
        },
    }
}

/// Interpret one anonymous definition given as a symbol sequence.
pub fn eval_instructions(symbols: &Vec<Symbol>) -> (r: Result<Symbol, EvalError>)
    ensures
        match (
            r,
            interpret_spec(
                seq![
                    StatementView {
                        name: IdentView::Name(seq![102u8, 111u8, 111u8]),
                        body: view_symbols(symbols@),
                    },
                ],
                DEFAULT_BUDGET as nat,
            ),
        ) {
            (Ok(v), Ok(sv)) => v@ == sv,
            (Err(e), Err(ev)) => e == ev,
            _ => false,
        },
{
    let mut name: Vec<u8> = Vec::new();
    name.push(102);
    name.push(111);
    name.push(111);
    let body = crate::ast::duplicate_symbols(symbols);
    let statement = Statement(Identifier::Name(name), body);
    proof {
        assert(statement@.name == IdentView::Name(seq![102u8, 111u8, 111u8])) by {
            assert(seq![102u8, 111u8, 111u8] =~= statement.0@->Name_0);
        }
    }
    let mut program: Vec<Statement> = Vec::new();
    program.push(statement);
    proof {
        lemma_view_statements_index(program@);
        assert(view_statements(program@) =~= seq![program@[0]@]);
    }
    stack_interpret(program)
}

/// One step of the interaction protocol as seen across the effects
/// boundary: either the exchange is over, or the caller owes the wire a
/// modulated request before the protocol can continue.
#[derive(Debug, PartialEq, Eq)]
pub enum WireStep {
    /// The protocol finished: the pair of the new state and the rendered
    /// pictures.
    Finished(Symbol),
    /// The protocol asks the caller to deliver `request` on the wire and
    /// step again with this state and the demodulated reply as the next
    /// vector.
    Pending { request: modulations::Modulated, new_state: Symbol },
}

/// The model of a `WireStep`.
#[verifier::ext_equal]
pub enum WireStepView {
    Finished(SymbolView),
    Pending { request: Seq<bool>, new_state: SymbolView },
}

impl View for WireStep {
    type V = WireStepView;

    open spec fn view(&self) -> WireStepView {
        match self {
            WireStep::Finished(v) => WireStepView::Finished(v@),
            WireStep::Pending { request, new_state } => WireStepView::Pending {
                request: request@,
                new_state: new_state@,
            },
        }
    }
}

/// One interaction step with the wire left to the caller: run the
/// protocol on the state and vector to the list `(flag, newState, data)`.
/// A zero flag finishes with the new state and the pictures rendered from
/// the data; any other flag asks the caller to send the modulated data
/// and step again on the demodulated reply.
pub open spec fn protocol_step_spec(
    env: Map<IdentView, SymbolView>,
    p: SymbolView,
    st: SymbolView,
    vec: SymbolView,
    fuel: nat,
) -> Result<WireStepView, EvalError> {
    let call = SymbolView::Closure {
        captured_arg: Box::new(vec),
        body: Box::new(
            SymbolView::Closure { captured_arg: Box::new(st), body: Box::new(p) },
        ),
    };
    match machine_eval(env, call, Seq::empty(), fuel) {
        Err(e) => Err(e),
        Ok((w0, _)) => match w0 {
            SymbolView::Pair(flag_e, rest1_e) => match machine_eval(
                env,
                *flag_e,
                Seq::empty(),
                fuel,
            ) {
                Err(e) => Err(e),
                Ok((fv, _)) => match machine_eval(env, *rest1_e, Seq::empty(), fuel) {
                    Err(e) => Err(e),
                    Ok((w1, _)) => match (fv, w1) {
                        (SymbolView::Lit(flag), SymbolView::Pair(ns_e, rest2_e)) => {
                            match machine_eval(env, *rest2_e, Seq::empty(), fuel) {
                                Err(e) => Err(e),
                                Ok((w2, _)) => match w2 {
                                    SymbolView::Pair(data_e, _) => match machine_eval(
                                        env,
                                        *ns_e,
                                        Seq::empty(),
                                        fuel,
                                    ) {
                                        Err(e) => Err(e),
                                        Ok((nsw, _)) => match deep_force(env, nsw, fuel) {
                                            Err(e) => Err(e),
                                            Ok(nsv) => if flag == 0 {
                                                match machine_eval(
                                                    env,
                                                    *data_e,
                                                    Seq::empty(),
                                                    fuel,
                                                ) {
                                                    Err(e) => Err(e),
                                                    Ok((dw, _)) => match multidraw_walk(
                                                        env,
                                                        dw,
                                                        fuel,
                                                    ) {
                                                        Err(e) => Err(e),
                                                        Ok(images) => Ok(
                                                            WireStepView::Finished(
                                                                SymbolView::Pair(
                                                                    Box::new(nsv),
                                                                    Box::new(
                                                                        SymbolView::Pair(
                                                                            Box::new(images),
                                                                            Box::new(SymbolView::Nil),
                                                                        ),
                                                                    ),
                                                                ),
                                                            ),
                                                        ),
                                                    },
                                                }
                                            } else {
                                                match machine_eval(
                                                    env,
                                                    *data_e,
                                                    Seq::empty(),
                                                    fuel,
                                                ) {
                                                    Err(e) => Err(e),
                                                    Ok((dw, _)) => match deep_force(
                                                        env,
                                                        dw,
                                                        fuel,
                                                    ) {
                                                        Err(e) => Err(e),
                                                        Ok(dv) => Ok(
                                                            WireStepView::Pending {
                                                                request: dv.mod_bits(),
                                                                new_state: nsv,
                                                            },
                                                        ),
                                                    },
                                                }
                                            },
                                        },
                                    },
                                    _ => Err(EvalError::TypeMismatch),
                                },
                            }
                        },
                        _ => Err(EvalError::TypeMismatch),
                    },
                },
            },
            _ => Err(EvalError::TypeMismatch),
        },
    }
}

/// Run one interaction step, leaving the wire to the caller: the caller
/// delivers a pending request through the effects boundary, demodulates
/// the reply, and steps again with it as the next vector.  The in-machine
/// `send` operator, by contrast, is the diagnostic echo.
#[verifier::rlimit(100)]
pub fn run_protocol_step(
    env: &Environment,
    protocol: &Symbol,
    state: &Symbol,
    vector: &Symbol,
) -> (r: Result<WireStep, EvalError>)
    ensures
        match (
            r,
            protocol_step_spec(env@, protocol@, state@, vector@, DEFAULT_BUDGET as nat),
        ) {
            (Ok(step), Ok(sv)) => step@ == sv,
            (Err(e), Err(ev)) => e == ev,
            _ => false,
        },
{
    proof {
        reveal_with_fuel(Symbol::symbol_view, 5);
    }
    let fuel = DEFAULT_BUDGET;
    let call = Symbol::Closure {
        captured_arg: Box::new(vector.duplicate()),
        body: Box::new(
            Symbol::Closure {
                captured_arg: Box::new(state.duplicate()),
                body: Box::new(protocol.duplicate()),
            },
        ),
    };
    let mut stack: Vec<Symbol> = Vec::new();
    match reduce(env, call, &mut stack, fuel) {
        Err(e) => Err(e),
        Ok(w0) => match w0 {
            Symbol::Pair(flag_e, rest1_e) => {
                let mut tmp_f: Vec<Symbol> = Vec::new();
                match reduce(env, *flag_e, &mut tmp_f, fuel) {
                    Err(e) => Err(e),
                    Ok(fv) => {
                        let mut tmp_r1: Vec<Symbol> = Vec::new();
                        match reduce(env, *rest1_e, &mut tmp_r1, fuel) {
                            Err(e) => Err(e),
                            Ok(w1) => match (fv, w1) {
                                (Symbol::Lit(flag), Symbol::Pair(ns_e, rest2_e)) => {
                                    let mut tmp_r2: Vec<Symbol> = Vec::new();
                                    match reduce(env, *rest2_e, &mut tmp_r2, fuel) {
                                        Err(e) => Err(e),
                                        Ok(w2) => match w2 {
                                            Symbol::Pair(data_e, _) => {
                                                let mut tmp_ns: Vec<Symbol> = Vec::new();
                                                match reduce(env, *ns_e, &mut tmp_ns, fuel) {
                                                    Err(e) => Err(e),
                                                    Ok(nsw) => match deep(env, nsw, fuel) {
                                                        Err(e) => Err(e),
                                                        Ok(nsv) => if flag == 0 {
                                                            let mut tmp_d: Vec<Symbol> =
                                                                Vec::new();
                                                            match reduce(
                                                                env,
                                                                *data_e,
                                                                &mut tmp_d,
                                                                fuel,
                                                            ) {
                                                                Err(e) => Err(e),
                                                                Ok(dw) => match multidraw_exec(
                                                                    env,
                                                                    dw,
                                                                    fuel,
                                                                ) {
                                                                    Err(e) => Err(e),
                                                                    Ok(images) => Ok(
                                                                        WireStep::Finished(
                                                                            Symbol::Pair(
                                                                                Box::new(nsv),
                                                                                Box::new(
                                                                                    Symbol::Pair(
                                                                                        Box::new(images),
                                                                                        Box::new(Symbol::Nil),
                                                                                    ),
                                                                                ),
                                                                            ),
                                                                        ),
                                                                    ),
                                                                },
                                                            }
                                                        } else {
                                                            let mut tmp_d: Vec<Symbol> =
                                                                Vec::new();
                                                            match reduce(
                                                                env,
                                                                *data_e,
                                                                &mut tmp_d,
                                                                fuel,
                                                            ) {
                                                                Err(e) => Err(e),
                                                                Ok(dw) => {
                                                                    let ghost dw_v = dw@;
                                                                    match deep(env, dw, fuel) {
                                                                        Err(e) => Err(e),
                                                                        Ok(dv) => {
                                                                            proof {
                                                                                lemma_deep_force_supported(
                                                                                    env@,
                                                                                    dw_v,
                                                                                    fuel as nat,
                                                                                );
                                                                            }
                                                                            match modulations::modulate(
                                                                                &dv,
                                                                            ) {
                                                                                Ok(bits) => Ok(
                                                                                    WireStep::Pending {
                                                                                        request: bits,
                                                                                        new_state: nsv,
                                                                                    },
                                                                                ),
                                                                                Err(_) => {
                                                                                    // cannot happen: the fully forced
                                                                                    // data is in the codec's domain
                                                                                    proof {
                                                                                        assert(false);
                                                                                    }
                                                                                    Err(EvalError::TypeMismatch)
                                                                                },
                                                                            }
                                                                        },
                                                                    }
                                                                },
                                                            }
                                                        },
                                                    },
                                                }
                                            },
                                            _ => Err(EvalError::TypeMismatch),
                                        },
                                    }
                                },
                                _ => Err(EvalError::TypeMismatch),
                            },
                        }
                    },
                }
            },
            _ => Err(EvalError::TypeMismatch),
        },
    }
}

/// Evaluating a definition body twice yields the same weak-head normal
/// form: the machine's outcome is a function of the environment, the body
/// and the budget alone, so repeated lookups are referentially
/// transparent.
pub proof fn lemma_evaluation_deterministic(
    env1: Map<IdentView, SymbolView>,
    env2: Map<IdentView, SymbolView>,
    body1: SymbolView,
    body2: SymbolView,
    fuel: nat,
)
    requires
        env1 == env2,
        body1 == body2,
    ensures
        run_result(env1, body1, fuel) == run_result(env2, body2, fuel),
{
}

/// Independent sub-expressions may be forced in either order: when no
/// arguments are pending, forcing one operand leaves nothing behind that
/// could change what the other reduces to, so the final normal forms are
/// the same whichever is forced first.  The empty-leftover premise marks
/// the exact boundary of independence on this machine: operands share a
/// stack of pending arguments, and one that consumes a pending argument
/// makes the forcing order observable, so only the leftover-free case is
/// order-free.
pub proof fn lemma_forcing_order_immaterial(
    env: Map<IdentView, SymbolView>,
    x: SymbolView,
    y: SymbolView,
    fuel: nat,
)
    requires
        machine_eval(env, x, Seq::empty(), fuel) matches Ok((xv, lx)) && lx.len() == 0,
        machine_eval(env, y, Seq::empty(), fuel) matches Ok((yv, ly)) && ly.len() == 0,
    ensures
        machine_eval(env, y, machine_eval(env, x, Seq::empty(), fuel)->Ok_0.1, fuel)
            == machine_eval(env, y, Seq::empty(), fuel),
        machine_eval(env, x, machine_eval(env, y, Seq::empty(), fuel)->Ok_0.1, fuel)
            == machine_eval(env, x, Seq::empty(), fuel),
{
    assert(machine_eval(env, x, Seq::empty(), fuel)->Ok_0.1 =~= Seq::<SymbolView>::empty());
    assert(machine_eval(env, y, Seq::empty(), fuel)->Ok_0.1 =~= Seq::<SymbolView>::empty());
}

/// `if0` with a condition that forces to zero reduces to its second
/// argument without ever touching the third, which may therefore diverge
/// freely.
pub proof fn lemma_if0_selects_first(
    env: Map<IdentView, SymbolView>,
    c: SymbolView,
    x: SymbolView,
    y: SymbolView,
    rest: Seq<SymbolView>,
    fuel: nat,
)
    requires
        machine_eval(env, c, rest, fuel) matches Ok((cv, r1)) && cv == SymbolView::Lit(0),
    ensures
        dispatch(env, SymbolView::If0, seq![c, x, y], rest, fuel) == Ok::<
            (SymbolView, Seq<SymbolView>),
            EvalError,
        >((x, machine_eval(env, c, rest, fuel)->Ok_0.1)),
{
    assert(seq![c, x, y][0] == c && seq![c, x, y][1] == x && seq![c, x, y][2] == y);
}

/// `if0` with a condition that forces to anything other than zero
/// reduces to its third argument without ever touching the second.
pub proof fn lemma_if0_selects_second(
    env: Map<IdentView, SymbolView>,
    c: SymbolView,
    x: SymbolView,
    y: SymbolView,
    rest: Seq<SymbolView>,
    fuel: nat,
)
    requires
        machine_eval(env, c, rest, fuel) matches Ok((cv, r1)) && cv != SymbolView::Lit(0),
    ensures
        dispatch(env, SymbolView::If0, seq![c, x, y], rest, fuel) == Ok::<
            (SymbolView, Seq<SymbolView>),
            EvalError,
        >((y, machine_eval(env, c, rest, fuel)->Ok_0.1)),
{
    assert(seq![c, x, y][0] == c && seq![c, x, y][1] == x && seq![c, x, y][2] == y);
}

} // verus!
