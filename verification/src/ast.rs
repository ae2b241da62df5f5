//! The tagged value universe of the language: every operator, literal and
//! run-time construction is a `Symbol`.  The mathematical model of a symbol
//! is a `SymbolView`, a ghost tree over `int`, `Seq` and boxes; every
//! contract in the crate speaks of views.

pub mod modulations;

use vstd::prelude::*;

verus! {

/// Literal integers of the language.
pub type Number = i64;

/// Symbols are shared by handles; reduction produces new handles and never
/// mutates one in place.
pub type SymbolCell = Box<Symbol>;

/// A name in the environment: a global name (`galaxy`, `:1029`) or a
/// placeholder argument of a multi-argument definition, sigil-prefixed in
/// the source (`@x1`).  The raw token bytes are kept as written.
#[derive(Debug, Clone, PartialEq, Eq, Hash)]
pub enum Identifier {
    Name(Vec<u8>),
    PreludeArg(Vec<u8>),
}

/// The model of an `Identifier`: the same two cases over byte sequences.
#[verifier::ext_equal]
pub enum IdentView {
    Name(Seq<u8>),
    PreludeArg(Seq<u8>),
}

impl View for Identifier {
    type V = IdentView;

    open spec fn view(&self) -> IdentView {
        match self {
            Identifier::Name(bytes) => IdentView::Name(bytes@),
            Identifier::PreludeArg(bytes) => IdentView::PreludeArg(bytes@),
        }
    }
}

/// The decimal digits of `n`, most significant first, as ASCII bytes.
pub open spec fn decimal_digits(n: nat) -> Seq<u8>
    decreases n,
{
    if n < 10 {
        seq![(48 + n) as u8]
    } else {
        decimal_digits(n / 10).push((48 + n % 10) as u8)
    }
}

fn decimal_bytes(n: usize) -> (r: Vec<u8>)
    ensures
        r@ == decimal_digits(n as nat),
    decreases n,
{
    if n < 10 {
        let mut v: Vec<u8> = Vec::new();
        v.push(48 + n as u8);
        assert(v@ =~= decimal_digits(n as nat));
        v
    } else {
        let mut v = decimal_bytes(n / 10);
        v.push(48 + (n % 10) as u8);
        v
    }
}

impl Identifier {
    /// The global name `:<id>`, as the parser would read it.
    pub fn id(id: usize) -> (r: Self)
        ensures
            r@ == IdentView::Name(seq![58u8] + decimal_digits(id as nat)),
    {
        let digits = decimal_bytes(id);
        let mut bytes: Vec<u8> = Vec::new();
        bytes.push(58);
        let mut i: usize = 0;
        while i < digits.len()
            invariant
                i <= digits.len(),
                bytes@ == seq![58u8] + digits@.subrange(0, i as int),
            decreases digits.len() - i,
        {
            bytes.push(digits[i]);
            assert(bytes@ =~= seq![58u8] + digits@.subrange(0, i + 1));
            i += 1;
        }
        assert(digits@.subrange(0, digits@.len() as int) =~= digits@);
        Identifier::Name(bytes)
    }

    /// A fresh handle on the same name.
    pub fn duplicate(&self) -> (r: Identifier)
        ensures
            r@ == self@,
    {
        match self {
            Identifier::Name(bytes) => Identifier::Name(copy_bytes(bytes)),
            Identifier::PreludeArg(bytes) => Identifier::PreludeArg(copy_bytes(bytes)),
        }
    }
}

fn copy_bytes(v: &Vec<u8>) -> (r: Vec<u8>)
    ensures
        r@ == v@,
{
    let mut r: Vec<u8> = Vec::new();
    let mut i: usize = 0;
    while i < v.len()
        invariant
            i <= v.len(),
            r@ == v@.subrange(0, i as int),
        decreases v.len() - i,
    {
        r.push(v[i]);
        assert(r@ =~= v@.subrange(0, i + 1));
        i += 1;
    }
    assert(v@.subrange(0, v@.len() as int) =~= v@);
    r
}

/// Whether two identifiers are the same name.
pub fn ident_eq(a: &Identifier, b: &Identifier) -> (r: bool)
    ensures
        r == (a@ == b@),
{
    match (a, b) {
        (Identifier::Name(x), Identifier::PreludeArg(y)) => false,
        (Identifier::PreludeArg(x), Identifier::Name(y)) => false,
        (Identifier::Name(x), Identifier::Name(y)) => bytes_eq(x, y),
        (Identifier::PreludeArg(x), Identifier::PreludeArg(y)) => bytes_eq(x, y),
    }
}

fn bytes_eq(a: &Vec<u8>, b: &Vec<u8>) -> (r: bool)
    ensures
        r == (a@ == b@),
{
    if a.len() != b.len() {
        return false;
    }
    let mut i: usize = 0;
    while i < a.len()
        invariant
            i <= a.len(),
            a@.len() == b@.len(),
            a@.subrange(0, i as int) == b@.subrange(0, i as int),
        decreases a.len() - i,
    {
        if a[i] != b[i] {
            return false;
        }
        assert(a@.subrange(0, i + 1) =~= a@.subrange(0, i as int).push(a@[i as int]));
        assert(b@.subrange(0, i + 1) =~= b@.subrange(0, i as int).push(b@[i as int]));
        i += 1;
    }
    assert(a@.subrange(0, a@.len() as int) =~= a@);
    assert(b@.subrange(0, b@.len() as int) =~= b@);
    true
}

/// A rendered picture: a rectangular grid of on/off pixels, row by row.
#[derive(Debug, PartialEq, Eq)]
pub struct Image {
    pub width: usize,
    pub height: usize,
    pub pixels: Vec<bool>,
}

/// The model of an `Image`.
#[verifier::ext_equal]
pub struct ImageView {
    pub width: nat,
    pub height: nat,
    pub pixels: Seq<bool>,
}

impl View for Image {
    type V = ImageView;

    open spec fn view(&self) -> ImageView {
        ImageView { width: self.width as nat, height: self.height as nat, pixels: self.pixels@ }
    }
}

/// One top-level definition: a name and its body as a symbol sequence in
/// prefix order, before lowering.
#[derive(Debug, PartialEq, Eq)]
pub struct Statement(pub Identifier, pub Vec<Symbol>);

/// The model of a `Statement`.
#[verifier::ext_equal]
pub struct StatementView {
    pub name: IdentView,
    pub body: Seq<SymbolView>,
}

impl View for Statement {
    type V = StatementView;

    open spec fn view(&self) -> StatementView {
        StatementView { name: self.0@, body: view_symbols(self.1@) }
    }
}

/// The sole runtime value: operators, literals, and the constructions that
/// reduction produces (`Pair`, `Closure`, `Modulated`, `Image`).
#[derive(Debug, PartialEq, Eq)]
pub enum Symbol {
    Lit(Number),
    Eq,
    Inc,
    Dec,
    Add,
    Var(Identifier),
    Mul,
    Div,
    T,
    F,
    Lt,
    Mod,
    Dem,
    Send,
    Neg,
    Ap,
    S,
    C,
    B,
    Pwr2,
    I,
    Cons,
    Car,
    Cdr,
    Nil,
    IsNil,
    List(Vec<Symbol>),
    Draw,
    Checkerboard,
    MultipleDraw,
    If0,
    Interact,
    StatelessDraw,
    Pair(SymbolCell, SymbolCell),
    Closure { captured_arg: SymbolCell, body: SymbolCell },
    Modulated(modulations::Modulated),
    Image(Image),
    StoreArg(Identifier),
}

/// The model of a `Symbol`: the same tree over mathematical types.
#[verifier::ext_equal]
pub enum SymbolView {
    Lit(int),
    Eq,
    Inc,
    Dec,
    Add,
    Var(IdentView),
    Mul,
    Div,
    T,
    F,
    Lt,
    Mod,
    Dem,
    Send,
    Neg,
    Ap,
    S,
    C,
    B,
    Pwr2,
    I,
    Cons,
    Car,
    Cdr,
    Nil,
    IsNil,
    List(Seq<SymbolView>),
    Draw,
    Checkerboard,
    MultipleDraw,
    If0,
    Interact,
    StatelessDraw,
    Pair(Box<SymbolView>, Box<SymbolView>),
    Closure { captured_arg: Box<SymbolView>, body: Box<SymbolView> },
    Modulated(Seq<bool>),
    Image(ImageView),
    StoreArg(IdentView),
}

impl Symbol {
    /// The model of this symbol.
    pub open spec fn symbol_view(&self) -> SymbolView
        decreases self,
    {
        match self {
            Symbol::Lit(n) => SymbolView::Lit(*n as int),
            Symbol::Eq => SymbolView::Eq,
            Symbol::Inc => SymbolView::Inc,
            Symbol::Dec => SymbolView::Dec,
            Symbol::Add => SymbolView::Add,
            Symbol::Var(id) => SymbolView::Var(id@),
            Symbol::Mul => SymbolView::Mul,
            Symbol::Div => SymbolView::Div,
            Symbol::T => SymbolView::T,
            Symbol::F => SymbolView::F,
            Symbol::Lt => SymbolView::Lt,
            Symbol::Mod => SymbolView::Mod,
            Symbol::Dem => SymbolView::Dem,
            Symbol::Send => SymbolView::Send,
            Symbol::Neg => SymbolView::Neg,
            Symbol::Ap => SymbolView::Ap,
            Symbol::S => SymbolView::S,
            Symbol::C => SymbolView::C,
            Symbol::B => SymbolView::B,
            Symbol::Pwr2 => SymbolView::Pwr2,
            Symbol::I => SymbolView::I,
            Symbol::Cons => SymbolView::Cons,
            Symbol::Car => SymbolView::Car,
            Symbol::Cdr => SymbolView::Cdr,
            Symbol::Nil => SymbolView::Nil,
            Symbol::IsNil => SymbolView::IsNil,
            Symbol::List(items) => SymbolView::List(view_symbols(items@)),
            Symbol::Draw => SymbolView::Draw,
            Symbol::Checkerboard => SymbolView::Checkerboard,
            Symbol::MultipleDraw => SymbolView::MultipleDraw,
            Symbol::If0 => SymbolView::If0,
            Symbol::Interact => SymbolView::Interact,
            Symbol::StatelessDraw => SymbolView::StatelessDraw,
            Symbol::Pair(a, b) => SymbolView::Pair(
                Box::new(a.symbol_view()),
                Box::new(b.symbol_view()),
            ),
            Symbol::Closure { captured_arg, body } => SymbolView::Closure {
                captured_arg: Box::new(captured_arg.symbol_view()),
                body: Box::new(body.symbol_view()),
            },
            Symbol::Modulated(bits) => SymbolView::Modulated(bits@),
            Symbol::Image(img) => SymbolView::Image(img@),
            Symbol::StoreArg(id) => SymbolView::StoreArg(id@),
        }
    }
}

/// The models of a sequence of symbols, element by element.
pub open spec fn view_symbols(items: Seq<Symbol>) -> Seq<SymbolView>
    decreases items,
{
    if items.len() == 0 {
        Seq::empty()
    } else {
        seq![items[0].symbol_view()] + view_symbols(items.subrange(1, items.len() as int))
    }
}

impl View for Symbol {
    type V = SymbolView;

    open spec fn view(&self) -> SymbolView {
        self.symbol_view()
    }
}

/// How many applied arguments the operator needs before it reduces; zero
/// for anything that is already a value.
pub open spec fn arity(v: SymbolView) -> int {
    match v {
        SymbolView::Lit(_) => 0,
        SymbolView::Eq => 2,
        SymbolView::Inc => 1,
        SymbolView::Dec => 1,
        SymbolView::Add => 2,
        SymbolView::Var(_) => 0,
        SymbolView::Mul => 2,
        SymbolView::Div => 2,
        SymbolView::T => 2,
        SymbolView::F => 2,
        SymbolView::Lt => 2,
        SymbolView::Mod => 1,
        SymbolView::Dem => 1,
        SymbolView::Send => 1,
        SymbolView::Neg => 1,
        SymbolView::Ap => 2,
        SymbolView::S => 3,
        SymbolView::C => 3,
        SymbolView::B => 3,
        SymbolView::Pwr2 => 1,
        SymbolView::I => 1,
        SymbolView::Cons => 2,
        SymbolView::Car => 1,
        SymbolView::Cdr => 1,
        SymbolView::Nil => 0,
        SymbolView::IsNil => 1,
        SymbolView::List(_) => 0,
        SymbolView::Draw => 1,
        SymbolView::Checkerboard => 2,
        SymbolView::MultipleDraw => 1,
        SymbolView::If0 => 3,
        SymbolView::Interact => 3,
        SymbolView::StatelessDraw => 3,
        SymbolView::Pair(_, _) => 0,
        SymbolView::Closure { .. } => 1,
        SymbolView::Modulated(_) => 0,
        SymbolView::Image(_) => 0,
        SymbolView::StoreArg(_) => 2,
    }
}

impl Symbol {
    /// The number of applied arguments this operator consumes when it fires.
    pub fn num_args(self: &Symbol) -> (r: i8)
        ensures
            r as int == arity(self@),
    {
        match self {
            Symbol::Lit(_) => 0,
            Symbol::Eq => 2,
            Symbol::Inc => 1,
            Symbol::Dec => 1,
            Symbol::Add => 2,
            Symbol::Var(_) => 0,
            Symbol::Mul => 2,
            Symbol::Div => 2,
            Symbol::T => 2,
            Symbol::F => 2,
            Symbol::Lt => 2,
            Symbol::Mod => 1,
            Symbol::Dem => 1,
            Symbol::Send => 1,
            Symbol::Neg => 1,
            Symbol::Ap => 2,
            Symbol::S => 3,
            Symbol::C => 3,
            Symbol::B => 3,
            Symbol::Pwr2 => 1,
            Symbol::I => 1,
            Symbol::Cons => 2,
            Symbol::Car => 1,
            Symbol::Cdr => 1,
            Symbol::Nil => 0,
            Symbol::IsNil => 1,
            Symbol::List(_) => 0,
            Symbol::Draw => 1,
            Symbol::Checkerboard => 2,
            Symbol::MultipleDraw => 1,
            Symbol::If0 => 3,
            Symbol::Interact => 3,
            Symbol::StatelessDraw => 3,
            Symbol::Pair(_, _) => 0,
            Symbol::Closure { .. } => 1,
            Symbol::Modulated(_) => 0,
            Symbol::Image(_) => 0,
            Symbol::StoreArg(_) => 2,
        }
    }

    /// A fresh handle on an equal symbol tree.
    pub fn duplicate(&self) -> (r: Symbol)
        ensures
            r@ == self@,
        decreases self,
    {
        match self {
            Symbol::Lit(n) => Symbol::Lit(*n),
            Symbol::Eq => Symbol::Eq,
            Symbol::Inc => Symbol::Inc,
            Symbol::Dec => Symbol::Dec,
            Symbol::Add => Symbol::Add,
            Symbol::Var(id) => Symbol::Var(id.duplicate()),
            Symbol::Mul => Symbol::Mul,
            Symbol::Div => Symbol::Div,
            Symbol::T => Symbol::T,
            Symbol::F => Symbol::F,
            Symbol::Lt => Symbol::Lt,
            Symbol::Mod => Symbol::Mod,
            Symbol::Dem => Symbol::Dem,
            Symbol::Send => Symbol::Send,
            Symbol::Neg => Symbol::Neg,
            Symbol::Ap => Symbol::Ap,
            Symbol::S => Symbol::S,
            Symbol::C => Symbol::C,
            Symbol::B => Symbol::B,
            Symbol::Pwr2 => Symbol::Pwr2,
            Symbol::I => Symbol::I,
            Symbol::Cons => Symbol::Cons,
            Symbol::Car => Symbol::Car,
            Symbol::Cdr => Symbol::Cdr,
            Symbol::Nil => Symbol::Nil,
            Symbol::IsNil => Symbol::IsNil,
            Symbol::List(items) => Symbol::List(duplicate_symbols(items)),
            Symbol::Draw => Symbol::Draw,
            Symbol::Checkerboard => Symbol::Checkerboard,
            Symbol::MultipleDraw => Symbol::MultipleDraw,
            Symbol::If0 => Symbol::If0,
            Symbol::Interact => Symbol::Interact,
            Symbol::StatelessDraw => Symbol::StatelessDraw,
            Symbol::Pair(a, b) => Symbol::Pair(Box::new(a.duplicate()), Box::new(b.duplicate())),
            Symbol::Closure { captured_arg, body } => Symbol::Closure {
                captured_arg: Box::new(captured_arg.duplicate()),
                body: Box::new(body.duplicate()),
            },
            Symbol::Modulated(bits) => Symbol::Modulated(copy_bits(bits)),
            Symbol::Image(img) => Symbol::Image(Image {
                width: img.width,
                height: img.height,
                pixels: copy_bits(&img.pixels),
            }),
            Symbol::StoreArg(id) => Symbol::StoreArg(id.duplicate()),
        }
    }
}

/// Fresh handles on equal symbol trees, element by element.
pub fn duplicate_symbols(items: &Vec<Symbol>) -> (r: Vec<Symbol>)
    ensures
        view_symbols(r@) == view_symbols(items@),
    decreases items,
{
    let mut r: Vec<Symbol> = Vec::new();
    let mut i: usize = 0;
    while i < items.len()
        invariant
            i <= items.len(),
            r@.len() == i,
            forall|j: int| 0 <= j < i ==> r@[j]@ == items@[j]@,
        decreases items.len() - i,
    {
        assert(decreases_to!(items => items@[i as int]));
        r.push(items[i].duplicate());
        i += 1;
    }
    proof {
        lemma_view_symbols_index(r@);
        lemma_view_symbols_index(items@);
        assert(view_symbols(r@) =~= view_symbols(items@));
    }
    r
}

fn copy_bits(v: &Vec<bool>) -> (r: Vec<bool>)
    ensures
        r@ == v@,
{
    let mut r: Vec<bool> = Vec::new();
    let mut i: usize = 0;
    while i < v.len()
        invariant
            i <= v.len(),
            r@ == v@.subrange(0, i as int),
        decreases v.len() - i,
    {
        r.push(v[i]);
        assert(r@ =~= v@.subrange(0, i + 1));
        i += 1;
    }
    assert(v@.subrange(0, v@.len() as int) =~= v@);
    r
}

/// The right-nested pairs, terminated by `Nil`, that a surface list denotes.
pub open spec fn list_as_pairs(items: Seq<SymbolView>) -> SymbolView
    decreases items.len(),
{
    if items.len() == 0 {
        SymbolView::Nil
    } else {
        SymbolView::Pair(
            Box::new(items[0]),
            Box::new(list_as_pairs(items.subrange(1, items.len() as int))),
        )
    }
}

/// What canonicalization does to one symbol: a surface list becomes the
/// pair chain it denotes; anything else is left as it is.
pub open spec fn canon_view(v: SymbolView) -> SymbolView {
    match v {
        SymbolView::List(items) => list_as_pairs(items),
        _ => v,
    }
}

/// Rewriting a parsed value into the form the evaluator works on.
pub trait Canonicalize: View<V = SymbolView> + Sized {
    /// Rewrite a surface list into the right-nested pairs it denotes.
    fn canonicalize(&self) -> (r: Self)
        ensures
            r@ == canon_view(self@);
}

impl Canonicalize for Symbol {
    fn canonicalize(&self) -> (r: Symbol)
        ensures
            r@ == canon_view(self@),
    {
        match self {
            Symbol::List(items) => {
                proof {
                    lemma_view_symbols_index(items@);
                }
                let mut acc = Symbol::Nil;
                let mut i: usize = items.len();
                while i > 0
                    invariant
                        i <= items.len(),
                        acc@ == list_as_pairs(view_symbols(items@).subrange(
                            i as int,
                            items@.len() as int,
                        )),
                        view_symbols(items@).len() == items@.len(),
                        forall|j: int|
                            0 <= j < items@.len() ==> view_symbols(items@)[j] == items@[j]@,
                    decreases i,
                {
                    i -= 1;
                    assert(decreases_to!(items => items@[i as int]));
                    let head = items[i].duplicate();
                    acc = Symbol::Pair(Box::new(head), Box::new(acc));
                    proof {
                        let vs = view_symbols(items@);
                        let tail = vs.subrange(i + 1, items@.len() as int);
                        let whole = vs.subrange(i as int, items@.len() as int);
                        assert(whole[0] == vs[i as int]);
                        assert(whole.subrange(1, whole.len() as int) =~= tail);
                    }
                }
                assert(view_symbols(items@).subrange(0, items@.len() as int) =~= view_symbols(
                    items@,
                ));
                acc
            },
            _ => self.duplicate(),
        }
    }
}

impl Canonicalize for SymbolCell {
    fn canonicalize(&self) -> (r: SymbolCell)
        ensures
            r@ == canon_view(self@),
    {
        let inner: &Symbol = &*self;
        Box::new(inner.canonicalize())
    }
}

/// Each parsed symbol, canonicalized, behind a fresh handle: the form the
/// lowering pass consumes.
pub fn lower_symbols(symbols: &Vec<Symbol>) -> (r: Vec<SymbolCell>)
    ensures
        r@.len() == symbols@.len(),
        forall|i: int| 0 <= i < r@.len() ==> r@[i]@ == canon_view(symbols@[i]@),
{
    let mut r: Vec<SymbolCell> = Vec::new();
    let mut i: usize = 0;
    while i < symbols.len()
        invariant
            i <= symbols.len(),
            r@.len() == i,
            forall|j: int| 0 <= j < i ==> r@[j]@ == canon_view(symbols@[j]@),
        decreases symbols.len() - i,
    {
        r.push(Box::new(symbols[i].canonicalize()));
        i += 1;
    }
    r
}

/// A symbol's model is the same variant as the symbol itself.
pub proof fn lemma_view_variants(s: &Symbol)
    ensures
        (s@ is Lit) == (s is Lit),
        (s@ is Eq) == (s is Eq),
        (s@ is Inc) == (s is Inc),
        (s@ is Dec) == (s is Dec),
        (s@ is Add) == (s is Add),
        (s@ is Var) == (s is Var),
        (s@ is Mul) == (s is Mul),
        (s@ is Div) == (s is Div),
        (s@ is T) == (s is T),
        (s@ is F) == (s is F),
        (s@ is Lt) == (s is Lt),
        (s@ is Mod) == (s is Mod),
        (s@ is Dem) == (s is Dem),
        (s@ is Send) == (s is Send),
        (s@ is Neg) == (s is Neg),
        (s@ is Ap) == (s is Ap),
        (s@ is S) == (s is S),
        (s@ is C) == (s is C),
        (s@ is B) == (s is B),
        (s@ is Pwr2) == (s is Pwr2),
        (s@ is I) == (s is I),
        (s@ is Cons) == (s is Cons),
        (s@ is Car) == (s is Car),
        (s@ is Cdr) == (s is Cdr),
        (s@ is Nil) == (s is Nil),
        (s@ is IsNil) == (s is IsNil),
        (s@ is List) == (s is List),
        (s@ is Draw) == (s is Draw),
        (s@ is Checkerboard) == (s is Checkerboard),
        (s@ is MultipleDraw) == (s is MultipleDraw),
        (s@ is If0) == (s is If0),
        (s@ is Interact) == (s is Interact),
        (s@ is StatelessDraw) == (s is StatelessDraw),
        (s@ is Pair) == (s is Pair),
        (s@ is Closure) == (s is Closure),
        (s@ is Modulated) == (s is Modulated),
        (s@ is Image) == (s is Image),
        (s@ is StoreArg) == (s is StoreArg),
{
    match s {
        Symbol::Lit { .. } => {
        },
        Symbol::Eq { .. } => {
        },
        Symbol::Inc { .. } => {
        },
        Symbol::Dec { .. } => {
        },
        Symbol::Add { .. } => {
        },
        Symbol::Var { .. } => {
        },
        Symbol::Mul { .. } => {
        },
        Symbol::Div { .. } => {
        },
        Symbol::T { .. } => {
        },
        Symbol::F { .. } => {
        },
        Symbol::Lt { .. } => {
        },
        Symbol::Mod { .. } => {
        },
        Symbol::Dem { .. } => {
        },
        Symbol::Send { .. } => {
        },
        Symbol::Neg { .. } => {
        },
        Symbol::Ap { .. } => {
        },
        Symbol::S { .. } => {
        },
        Symbol::C { .. } => {
        },
        Symbol::B { .. } => {
        },
        Symbol::Pwr2 { .. } => {
        },
        Symbol::I { .. } => {
        },
        Symbol::Cons { .. } => {
        },
        Symbol::Car { .. } => {
        },
        Symbol::Cdr { .. } => {
        },
        Symbol::Nil { .. } => {
        },
        Symbol::IsNil { .. } => {
        },
        Symbol::List { .. } => {
        },
        Symbol::Draw { .. } => {
        },
        Symbol::Checkerboard { .. } => {
        },
        Symbol::MultipleDraw { .. } => {
        },
        Symbol::If0 { .. } => {
        },
        Symbol::Interact { .. } => {
        },
        Symbol::StatelessDraw { .. } => {
        },
        Symbol::Pair { .. } => {
        },
        Symbol::Closure { .. } => {
        },
        Symbol::Modulated { .. } => {
        },
        Symbol::Image { .. } => {
        },
        Symbol::StoreArg { .. } => {
        },
    }
}

/// Appending one symbol appends its view.
pub proof fn lemma_view_symbols_push(items: Seq<Symbol>, x: Symbol)
    ensures
        view_symbols(items.push(x)) == view_symbols(items).push(x@),
{
    lemma_view_symbols_index(items.push(x));
    lemma_view_symbols_index(items);
    assert(view_symbols(items.push(x)) =~= view_symbols(items).push(x@));
}

/// Dropping the last symbol drops its view.
pub proof fn lemma_view_symbols_drop_last(items: Seq<Symbol>)
    requires
        items.len() > 0,
    ensures
        view_symbols(items.drop_last()) == view_symbols(items).drop_last(),
{
    lemma_view_symbols_index(items.drop_last());
    lemma_view_symbols_index(items);
    assert(view_symbols(items.drop_last()) =~= view_symbols(items).drop_last());
}

/// The models of a sequence of statements, element by element.
pub open spec fn view_statements(items: Seq<Statement>) -> Seq<StatementView>
    decreases items,
{
    if items.len() == 0 {
        Seq::empty()
    } else {
        seq![items[0]@] + view_statements(items.subrange(1, items.len() as int))
    }
}

/// `view_statements` keeps length and maps each element to its view.
pub proof fn lemma_view_statements_index(items: Seq<Statement>)
    ensures
        view_statements(items).len() == items.len(),
        forall|i: int| 0 <= i < items.len() ==> view_statements(items)[i] == items[i]@,
    decreases items,
{
    if items.len() > 0 {
        lemma_view_statements_index(items.subrange(1, items.len() as int));
        assert forall|i: int|
            0 <= i < items.len() implies view_statements(items)[i] == items[i]@ by {
            if i > 0 {
                assert(items.subrange(1, items.len() as int)[i - 1] == items[i]);
            }
        }
    }
}

/// `view_symbols` keeps length and maps each element to its view.
pub proof fn lemma_view_symbols_index(items: Seq<Symbol>)
    ensures
        view_symbols(items).len() == items.len(),
        forall|i: int| 0 <= i < items.len() ==> view_symbols(items)[i] == items[i]@,
    decreases items,
{
    if items.len() > 0 {
        lemma_view_symbols_index(items.subrange(1, items.len() as int));
        assert forall|i: int| 0 <= i < items.len() implies view_symbols(items)[i] == items[i]@ by {
            if i > 0 {
                assert(items.subrange(1, items.len() as int)[i - 1] == items[i]);
            }
        }
    }
}

} // verus!
