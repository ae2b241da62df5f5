//! The parser: line-oriented program text to definitions.  One definition
//! per non-empty line, `lhs = rhs`, the right-hand side a whitespace-
//! separated stream of tokens; parenthesized, comma-separated forms are
//! surface lists.  Every executable function is proved to agree with the
//! ghost grammar functions beside it.

use crate::ast::{view_symbols, IdentView, Statement, StatementView, Symbol, SymbolView, Identifier};
use crate::errors::{ParseError, ParseErrorKind};
use vstd::prelude::*;
use vstd::string::StringSliceAdditionalSpecFns;

verus! {

/// Token separators: space, tab, carriage return.
pub open spec fn is_space(c: u8) -> bool {
    c == 32 || c == 9 || c == 13
}

/// Punctuation that stands alone as a token: `(`, `)`, `,`.
pub open spec fn is_punct(c: u8) -> bool {
    c == 40 || c == 41 || c == 44
}

/// The end of the word starting at `i`: the first separator, punctuation
/// mark or end of line at or after it.
pub open spec fn word_end(s: Seq<u8>, i: int) -> int
    decreases s.len() - i,
{
    if i < 0 || i >= s.len() || is_space(s[i]) || is_punct(s[i]) {
        i
    } else {
        word_end(s, i + 1)
    }
}

/// The tokens of a line from position `i` on.
pub open spec fn tokenize_at(s: Seq<u8>, i: int) -> Seq<Seq<u8>>
    decreases s.len() - i,
{
    if i < 0 || i >= s.len() {
        Seq::empty()
    } else if is_space(s[i]) {
        tokenize_at(s, i + 1)
    } else if is_punct(s[i]) {
        seq![seq![s[i]]] + tokenize_at(s, i + 1)
    } else {
        let e = word_end(s, i + 1);
        let e2 = if i + 1 <= e <= s.len() {
            e
        } else {
            i + 1
        };
        seq![s.subrange(i, e2)] + tokenize_at(s, e2)
    }
}

proof fn lemma_word_end_bounds(s: Seq<u8>, i: int)
    requires
        0 <= i <= s.len(),
    ensures
        i <= word_end(s, i) <= s.len(),
    decreases s.len() - i,
{
    if i < s.len() && !is_space(s[i]) && !is_punct(s[i]) {
        lemma_word_end_bounds(s, i + 1);
    }
}

/// An ASCII digit.
pub open spec fn is_digit(c: u8) -> bool {
    48 <= c <= 57
}

/// Whether every byte from `i` on is a digit.
pub open spec fn all_digits(t: Seq<u8>, i: int) -> bool {
    forall|j: int| i <= j < t.len() ==> is_digit(#[trigger] t[j])
}

/// The value of the digits `t[i0 .. j]`, most significant first.
pub open spec fn digits_val(t: Seq<u8>, i0: int, j: int) -> int
    decreases j - i0,
{
    if j <= i0 {
        0
    } else {
        digits_val(t, i0, j - 1) * 10 + (t[j - 1] - 48)
    }
}

/// Whether a token is a literal: digits, optionally preceded by a minus.
pub open spec fn is_num_token(t: Seq<u8>) -> bool {
    ||| (t.len() > 0 && is_digit(t[0]) && all_digits(t, 0))
    ||| (t.len() > 1 && t[0] == 45 && is_digit(t[1]) && all_digits(t, 1))
}

/// The value a literal token denotes.
pub open spec fn num_token_val(t: Seq<u8>) -> int {
    if t.len() > 0 && t[0] == 45 {
        -digits_val(t, 1, t.len() as int)
    } else {
        digits_val(t, 0, t.len() as int)
    }
}

/// The symbol one token denotes: an operator name, a literal, or a
/// variable reference; the `@` sigil marks a placeholder argument.
pub open spec fn token_symbol(t: Seq<u8>) -> Result<SymbolView, ParseErrorKind> {
    if t.len() == 0 {
        Err(ParseErrorKind::UnknownToken)
    } else if t.len() == 2 && t[0] == 97 && t[1] == 112 {
        // `ap`
        Ok(SymbolView::Ap)
    } else if t.len() == 3 && t[0] == 105 && t[1] == 110 && t[2] == 99 {
        // `inc`
        Ok(SymbolView::Inc)
    } else if t.len() == 3 && t[0] == 100 && t[1] == 101 && t[2] == 99 {
        // `dec`
        Ok(SymbolView::Dec)
    } else if t.len() == 3 && t[0] == 97 && t[1] == 100 && t[2] == 100 {
        // `add`
        Ok(SymbolView::Add)
    } else if t.len() == 3 && t[0] == 109 && t[1] == 117 && t[2] == 108 {
        // `mul`
        Ok(SymbolView::Mul)
    } else if t.len() == 3 && t[0] == 100 && t[1] == 105 && t[2] == 118 {
        // `div`
        Ok(SymbolView::Div)
    } else if t.len() == 3 && t[0] == 110 && t[1] == 101 && t[2] == 103 {
        // `neg`
        Ok(SymbolView::Neg)
    } else if t.len() == 2 && t[0] == 101 && t[1] == 113 {
        // `eq`
        Ok(SymbolView::Eq)
    } else if t.len() == 2 && t[0] == 108 && t[1] == 116 {
        // `lt`
        Ok(SymbolView::Lt)
    } else if t.len() == 1 && t[0] == 115 {
        // `s`
        Ok(SymbolView::S)
    } else if t.len() == 1 && t[0] == 99 {
        // `c`
        Ok(SymbolView::C)
    } else if t.len() == 1 && t[0] == 98 {
        // `b`
        Ok(SymbolView::B)
    } else if t.len() == 1 && t[0] == 105 {
        // `i`
        Ok(SymbolView::I)
    } else if t.len() == 1 && t[0] == 116 {
        // `t`
        Ok(SymbolView::T)
    } else if t.len() == 1 && t[0] == 102 {
        // `f`
        Ok(SymbolView::F)
    } else if t.len() == 4 && t[0] == 99 && t[1] == 111 && t[2] == 110 && t[3] == 115 {
        // `cons`
        Ok(SymbolView::Cons)
    } else if t.len() == 3 && t[0] == 99 && t[1] == 97 && t[2] == 114 {
        // `car`
        Ok(SymbolView::Car)
    } else if t.len() == 3 && t[0] == 99 && t[1] == 100 && t[2] == 114 {
        // `cdr`
        Ok(SymbolView::Cdr)
    } else if t.len() == 3 && t[0] == 110 && t[1] == 105 && t[2] == 108 {
        // `nil`
        Ok(SymbolView::Nil)
    } else if t.len() == 5 && t[0] == 105 && t[1] == 115 && t[2] == 110 && t[3] == 105 && t[4] == 108 {
        // `isnil`
        Ok(SymbolView::IsNil)
    } else if t.len() == 3 && t[0] == 109 && t[1] == 111 && t[2] == 100 {
        // `mod`
        Ok(SymbolView::Mod)
    } else if t.len() == 3 && t[0] == 100 && t[1] == 101 && t[2] == 109 {
        // `dem`
        Ok(SymbolView::Dem)
    } else if t.len() == 4 && t[0] == 115 && t[1] == 101 && t[2] == 110 && t[3] == 100 {
        // `send`
        Ok(SymbolView::Send)
    } else if t.len() == 4 && t[0] == 112 && t[1] == 119 && t[2] == 114 && t[3] == 50 {
        // `pwr2`
        Ok(SymbolView::Pwr2)
    } else if t.len() == 3 && t[0] == 105 && t[1] == 102 && t[2] == 48 {
        // `if0`
        Ok(SymbolView::If0)
    } else if t.len() == 4 && t[0] == 100 && t[1] == 114 && t[2] == 97 && t[3] == 119 {
        // `draw`
        Ok(SymbolView::Draw)
    } else if t.len() == 12 && t[0] == 109 && t[1] == 117 && t[2] == 108 && t[3] == 116 && t[4] == 105 && t[5] == 112 && t[6] == 108 && t[7] == 101 && t[8] == 100 && t[9] == 114 && t[10] == 97 && t[11] == 119 {
        // `multipledraw`
        Ok(SymbolView::MultipleDraw)
    } else if t.len() == 12 && t[0] == 99 && t[1] == 104 && t[2] == 101 && t[3] == 99 && t[4] == 107 && t[5] == 101 && t[6] == 114 && t[7] == 98 && t[8] == 111 && t[9] == 97 && t[10] == 114 && t[11] == 100 {
        // `checkerboard`
        Ok(SymbolView::Checkerboard)
    } else if t.len() == 8 && t[0] == 105 && t[1] == 110 && t[2] == 116 && t[3] == 101 && t[4] == 114 && t[5] == 97 && t[6] == 99 && t[7] == 116 {
        // `interact`
        Ok(SymbolView::Interact)
    } else if t.len() == 13 && t[0] == 115 && t[1] == 116 && t[2] == 97 && t[3] == 116 && t[4] == 101 && t[5] == 108 && t[6] == 101 && t[7] == 115 && t[8] == 115 && t[9] == 100 && t[10] == 114 && t[11] == 97 && t[12] == 119 {
        // `statelessdraw`
        Ok(SymbolView::StatelessDraw)
    } else if is_num_token(t) {
        if i64::MIN <= num_token_val(t) <= i64::MAX {
            Ok(SymbolView::Lit(num_token_val(t)))
        } else {
            Err(ParseErrorKind::MalformedNumber)
        }
    } else if t[0] == 45 || is_digit(t[0]) {
        // a sign or digit that does not begin a well-formed literal
        Err(ParseErrorKind::MalformedNumber)
    } else if t[0] == 61 || is_punct(t[0]) {
        Err(ParseErrorKind::UnknownToken)
    } else if t[0] == 64 {
        Ok(SymbolView::Var(IdentView::PreludeArg(t)))
    } else {
        Ok(SymbolView::Var(IdentView::Name(t)))
    }
}

/// Whether a token is a single punctuation mark.
pub open spec fn is_tok(t: Seq<u8>, c: u8) -> bool {
    t.len() == 1 && t[0] == c
}

/// One expression item at token `i`: a parenthesized list form or a
/// single-token symbol; the result pairs the symbol with the next index.
pub open spec fn parse_one(toks: Seq<Seq<u8>>, i: int) -> Result<
    (SymbolView, int),
    ParseErrorKind,
>
    decreases toks.len() - i, 0int,
{
    if i < 0 || i >= toks.len() {
        Err(ParseErrorKind::MalformedList)
    } else if is_tok(toks[i], 40) {
        if i + 1 < toks.len() && is_tok(toks[i + 1], 41) {
            Ok((SymbolView::Nil, i + 2))
        } else {
            match parse_items(toks, i + 1) {
                Err(e) => Err(e),
                Ok((items, j)) => Ok((SymbolView::List(items), j)),
            }
        }
    } else {
        match token_symbol(toks[i]) {
            Err(e) => Err(e),
            Ok(v) => Ok((v, i + 1)),
        }
    }
}

/// The comma-separated items of a list form, up to and including the
/// closing parenthesis.
pub open spec fn parse_items(toks: Seq<Seq<u8>>, i: int) -> Result<
    (Seq<SymbolView>, int),
    ParseErrorKind,
>
    decreases toks.len() - i, 1int,
{
    match parse_one(toks, i) {
        Err(e) => Err(e),
        Ok((v, j)) => if j <= i || j >= toks.len() {
            Err(ParseErrorKind::MalformedList)
        } else if is_tok(toks[j], 41) {
            Ok((seq![v], j + 1))
        } else if is_tok(toks[j], 44) {
            match parse_items(toks, j + 1) {
                Err(e) => Err(e),
                Ok((rest, k)) => Ok((seq![v] + rest, k)),
            }
        } else {
            Err(ParseErrorKind::MalformedList)
        },
    }
}

/// The whole right-hand side from token `i` on: a sequence of items.
pub open spec fn parse_rhs(toks: Seq<Seq<u8>>, i: int) -> Result<Seq<SymbolView>, ParseErrorKind>
    decreases toks.len() - i, 2int,
{
    if i >= toks.len() {
        Ok(Seq::empty())
    } else {
        match parse_one(toks, i) {
            Err(e) => Err(e),
            Ok((v, j)) => if j <= i || j > toks.len() {
                Err(ParseErrorKind::MalformedList)
            } else {
                match parse_rhs(toks, j) {
                    Err(e) => Err(e),
                    Ok(rest) => Ok(seq![v] + rest),
                }
            },
        }
    }
}

/// An ASCII letter.
pub open spec fn is_letter(c: u8) -> bool {
    (65 <= c <= 90) || (97 <= c <= 122)
}

/// Whether a token can stand as a left-hand-side name: a name begins with
/// a letter, or is a colon followed by digits.
pub open spec fn is_name_token(t: Seq<u8>) -> bool {
    t.len() > 0 && (is_letter(t[0]) || (t[0] == 58 && t.len() > 1 && all_digits(t, 1)))
}

/// A placeholder argument token, marked by the `@` sigil.
pub open spec fn is_arg_token(t: Seq<u8>) -> bool {
    t.len() > 0 && t[0] == 64
}

/// The first token index at or after `j` that is not a placeholder
/// argument: where the argument list of a prelude-form definition ends.
pub open spec fn args_end(toks: Seq<Seq<u8>>, j: int) -> int
    decreases toks.len() - j,
{
    if j < 0 || j >= toks.len() || !is_arg_token(toks[j]) {
        j
    } else {
        args_end(toks, j + 1)
    }
}

/// The symbols that bind the placeholder arguments `toks[j .. k]` when
/// the definition is applied: each becomes an application of a store
/// marker, so the lowering pass wraps the body once per argument.
pub open spec fn args_prefix(toks: Seq<Seq<u8>>, j: int, k: int) -> Seq<SymbolView>
    decreases k - j,
{
    if j >= k {
        Seq::empty()
    } else {
        seq![SymbolView::Ap, SymbolView::StoreArg(IdentView::PreludeArg(toks[j]))] + args_prefix(
            toks,
            j + 1,
            k,
        )
    }
}

/// One line as tokens: blank, or a definition `name [@args] = rhs`.
pub open spec fn parse_line_toks(toks: Seq<Seq<u8>>) -> Result<
    Option<StatementView>,
    ParseErrorKind,
> {
    if toks.len() == 0 {
        Ok(None)
    } else if !is_name_token(toks[0]) {
        Err(ParseErrorKind::MalformedLeftHandSide)
    } else {
        let k = args_end(toks, 1);
        if !(1 <= k < toks.len() && is_tok(toks[k], 61)) {
            Err(ParseErrorKind::MissingDefinition)
        } else {
            match parse_rhs(toks, k + 1) {
                Err(e) => Err(e),
                Ok(body) => Ok(
                    Some(
                        StatementView {
                            name: IdentView::Name(toks[0]),
                            body: args_prefix(toks, 1, k) + body,
                        },
                    ),
                ),
            }
        }
    }
}

/// One source line: its tokens, parsed.
pub open spec fn parse_line(s: Seq<u8>) -> Result<Option<StatementView>, ParseErrorKind> {
    parse_line_toks(tokenize_at(s, 0))
}

/// The end of the line starting at `i`: the next newline or end of input.
pub open spec fn line_end(s: Seq<u8>, i: int) -> int
    decreases s.len() - i,
{
    if i < 0 || i >= s.len() || s[i] == 10 {
        i
    } else {
        line_end(s, i + 1)
    }
}

proof fn lemma_line_end_bounds(s: Seq<u8>, i: int)
    requires
        0 <= i <= s.len(),
    ensures
        i <= line_end(s, i) <= s.len(),
    decreases s.len() - i,
{
    if i < s.len() && s[i] != 10 {
        lemma_line_end_bounds(s, i + 1);
    }
}

/// The program from position `i` on, one definition per non-blank line;
/// `ln` numbers the lines for diagnostics.
pub open spec fn parse_program_at(s: Seq<u8>, i: int, ln: nat) -> Result<
    Seq<StatementView>,
    ParseError,
>
    decreases s.len() - i,
{
    if i < 0 || i > s.len() {
        Ok(Seq::empty())
    } else {
        let e = line_end(s, i);
        let e2 = if i <= e <= s.len() {
            e
        } else {
            i
        };
        match parse_line(s.subrange(i, e2)) {
            Err(kind) => Err(ParseError { line: ln as usize, kind }),
            Ok(opt) => if e2 >= s.len() {
                match opt {
                    None => Ok(Seq::empty()),
                    Some(st) => Ok(seq![st]),
                }
            } else {
                match parse_program_at(s, e2 + 1, (ln + 1) as nat) {
                    Err(er) => Err(er),
                    Ok(rest) => match opt {
                        None => Ok(rest),
                        Some(st) => Ok(seq![st] + rest),
                    },
                }
            },
        }
    }
}

/// A whole program text.
pub open spec fn parse_program(s: Seq<u8>) -> Result<Seq<StatementView>, ParseError> {
    parse_program_at(s, 0, 0)
}

/// The byte sequences of a token list, element by element.
pub open spec fn view_bytes(items: Seq<Vec<u8>>) -> Seq<Seq<u8>>
    decreases items,
{
    if items.len() == 0 {
        Seq::empty()
    } else {
        seq![items[0]@] + view_bytes(items.subrange(1, items.len() as int))
    }
}

/// `view_bytes` keeps length and maps each element to its bytes.
pub proof fn lemma_view_bytes_index(items: Seq<Vec<u8>>)
    ensures
        view_bytes(items).len() == items.len(),
        forall|i: int| 0 <= i < items.len() ==> view_bytes(items)[i] == items[i]@,
    decreases items,
{
    if items.len() > 0 {
        lemma_view_bytes_index(items.subrange(1, items.len() as int));
        assert forall|i: int| 0 <= i < items.len() implies view_bytes(items)[i] == items[i]@ by {
            if i > 0 {
                assert(items.subrange(1, items.len() as int)[i - 1] == items[i]);
            }
        }
    }
}

fn copy_range(line: &Vec<u8>, i: usize, j: usize) -> (r: Vec<u8>)
    requires
        i <= j <= line@.len(),
    ensures
        r@ == line@.subrange(i as int, j as int),
{
    let mut r: Vec<u8> = Vec::new();
    let mut k: usize = i;
    while k < j
        invariant
            i <= k <= j <= line@.len(),
            r@ == line@.subrange(i as int, k as int),
        decreases j - k,
    {
        r.push(line[k]);
        assert(r@ =~= line@.subrange(i as int, k + 1));
        k += 1;
    }
    r
}

fn is_space_exec(c: u8) -> (r: bool)
    ensures
        r == is_space(c),
{
    c == 32 || c == 9 || c == 13
}

fn is_punct_exec(c: u8) -> (r: bool)
    ensures
        r == is_punct(c),
{
    c == 40 || c == 41 || c == 44
}

fn word_end_exec(line: &Vec<u8>, i: usize) -> (e: usize)
    requires
        i <= line@.len(),
    ensures
        e as int == word_end(line@, i as int),
        i <= e <= line@.len(),
    decreases line@.len() - i,
{
    if i >= line.len() || is_space_exec(line[i]) || is_punct_exec(line[i]) {
        i
    } else {
        word_end_exec(line, i + 1)
    }
}

fn tokenize_exec(line: &Vec<u8>, i: usize) -> (r: Vec<Vec<u8>>)
    requires
        i <= line@.len(),
    ensures
        view_bytes(r@) == tokenize_at(line@, i as int),
    decreases line@.len() - i,
{
    if i >= line.len() {
        let r: Vec<Vec<u8>> = Vec::new();
        assert(view_bytes(r@) =~= tokenize_at(line@, i as int));
        r
    } else if is_space_exec(line[i]) {
        tokenize_exec(line, i + 1)
    } else if is_punct_exec(line[i]) {
        let mut tok: Vec<u8> = Vec::new();
        tok.push(line[i]);
        let mut rest = tokenize_exec(line, i + 1);
        let ghost rest0 = rest@;
        rest.insert(0, tok);
        proof {
            lemma_view_bytes_index(rest@);
            lemma_view_bytes_index(rest0);
            assert(view_bytes(rest@) =~= seq![seq![line@[i as int]]] + view_bytes(rest0));
        }
        rest
    } else {
        proof {
            lemma_word_end_bounds(line@, i + 1);
        }
        let e = word_end_exec(line, i + 1);
        let tok = copy_range(line, i, e);
        let mut rest = tokenize_exec(line, e);
        let ghost rest0 = rest@;
        rest.insert(0, tok);
        proof {
            lemma_view_bytes_index(rest@);
            lemma_view_bytes_index(rest0);
            assert(view_bytes(rest@) =~= seq![line@.subrange(i as int, e as int)] + view_bytes(
                rest0,
            ));
        }
        rest
    }
}

fn is_digit_exec(c: u8) -> (r: bool)
    ensures
        r == is_digit(c),
{
    48 <= c && c <= 57
}

/// Read the digits `t[i0 ..]` as a number, if it fits the literal type.
fn digits_exec(t: &Vec<u8>, i0: usize) -> (r: Option<u64>)
    requires
        i0 <= t@.len(),
        all_digits(t@, i0 as int),
    ensures
        match r {
            Some(v) => v as int == digits_val(t@, i0 as int, t@.len() as int),
            None => digits_val(t@, i0 as int, t@.len() as int) > u64::MAX,
        },
{
    let mut v: u64 = 0;
    let mut j: usize = i0;
    while j < t.len()
        invariant
            i0 <= j <= t@.len(),
            all_digits(t@, i0 as int),
            v as int == digits_val(t@, i0 as int, j as int),
        decreases t@.len() - j,
    {
        let d = t[j];
        let step = v.checked_mul(10);
        match step {
            None => {
                proof {
                    lemma_digits_val_grows(t@, i0 as int, j + 1, t@.len() as int);
                }
                return None;
            },
            Some(v10) => {
                match v10.checked_add((d - 48) as u64) {
                    None => {
                        proof {
                            lemma_digits_val_grows(t@, i0 as int, j + 1, t@.len() as int);
                        }
                        return None;
                    },
                    Some(v2) => {
                        v = v2;
                    },
                }
            },
        }
        j += 1;
    }
    Some(v)
}

/// A longer digit string denotes at least as large a value.
proof fn lemma_digits_val_grows(t: Seq<u8>, i0: int, j: int, k: int)
    requires
        i0 <= j <= k <= t.len(),
        all_digits(t, i0),
        0 <= i0,
    ensures
        digits_val(t, i0, k) >= digits_val(t, i0, j),
        digits_val(t, i0, j) >= 0,
    decreases k - j,
{
    lemma_digits_val_nonneg(t, i0, j);
    if j < k {
        lemma_digits_val_grows(t, i0, j, k - 1);
        lemma_digits_val_nonneg(t, i0, k - 1);
    }
}

proof fn lemma_digits_val_nonneg(t: Seq<u8>, i0: int, j: int)
    requires
        0 <= i0,
        j <= t.len(),
        all_digits(t, i0),
    ensures
        digits_val(t, i0, j) >= 0,
    decreases j - i0,
{
    if j > i0 {
        lemma_digits_val_nonneg(t, i0, j - 1);
    }
}

/// The symbol one token denotes.
fn token_symbol_exec(t: &Vec<u8>) -> (r: Result<Symbol, ParseErrorKind>)
    ensures
        match (r, token_symbol(t@)) {
            (Ok(sym), Ok(sv)) => sym@ == sv,
            (Err(e), Err(ev)) => e == ev,
            _ => false,
        },
{
    if t.len() == 0 {
        Err(ParseErrorKind::UnknownToken)
    } else if t.len() == 2 && t[0] == 97 && t[1] == 112 {
        Ok(Symbol::Ap)
    } else if t.len() == 3 && t[0] == 105 && t[1] == 110 && t[2] == 99 {
        Ok(Symbol::Inc)
    } else if t.len() == 3 && t[0] == 100 && t[1] == 101 && t[2] == 99 {
        Ok(Symbol::Dec)
    } else if t.len() == 3 && t[0] == 97 && t[1] == 100 && t[2] == 100 {
        Ok(Symbol::Add)
    } else if t.len() == 3 && t[0] == 109 && t[1] == 117 && t[2] == 108 {
        Ok(Symbol::Mul)
    } else if t.len() == 3 && t[0] == 100 && t[1] == 105 && t[2] == 118 {
        Ok(Symbol::Div)
    } else if t.len() == 3 && t[0] == 110 && t[1] == 101 && t[2] == 103 {
        Ok(Symbol::Neg)
    } else if t.len() == 2 && t[0] == 101 && t[1] == 113 {
        Ok(Symbol::Eq)
    } else if t.len() == 2 && t[0] == 108 && t[1] == 116 {
        Ok(Symbol::Lt)
    } else if t.len() == 1 && t[0] == 115 {
        Ok(Symbol::S)
    } else if t.len() == 1 && t[0] == 99 {
        Ok(Symbol::C)
    } else if t.len() == 1 && t[0] == 98 {
        Ok(Symbol::B)
    } else if t.len() == 1 && t[0] == 105 {
        Ok(Symbol::I)
    } else if t.len() == 1 && t[0] == 116 {
        Ok(Symbol::T)
    } else if t.len() == 1 && t[0] == 102 {
        Ok(Symbol::F)
    } else if t.len() == 4 && t[0] == 99 && t[1] == 111 && t[2] == 110 && t[3] == 115 {
        Ok(Symbol::Cons)
    } else if t.len() == 3 && t[0] == 99 && t[1] == 97 && t[2] == 114 {
        Ok(Symbol::Car)
    } else if t.len() == 3 && t[0] == 99 && t[1] == 100 && t[2] == 114 {
        Ok(Symbol::Cdr)
    } else if t.len() == 3 && t[0] == 110 && t[1] == 105 && t[2] == 108 {
        Ok(Symbol::Nil)
    } else if t.len() == 5 && t[0] == 105 && t[1] == 115 && t[2] == 110 && t[3] == 105 && t[4] == 108 {
        Ok(Symbol::IsNil)
    } else if t.len() == 3 && t[0] == 109 && t[1] == 111 && t[2] == 100 {
        Ok(Symbol::Mod)
    } else if t.len() == 3 && t[0] == 100 && t[1] == 101 && t[2] == 109 {
        Ok(Symbol::Dem)
    } else if t.len() == 4 && t[0] == 115 && t[1] == 101 && t[2] == 110 && t[3] == 100 {
        Ok(Symbol::Send)
    } else if t.len() == 4 && t[0] == 112 && t[1] == 119 && t[2] == 114 && t[3] == 50 {
        Ok(Symbol::Pwr2)
    } else if t.len() == 3 && t[0] == 105 && t[1] == 102 && t[2] == 48 {
        Ok(Symbol::If0)
    } else if t.len() == 4 && t[0] == 100 && t[1] == 114 && t[2] == 97 && t[3] == 119 {
        Ok(Symbol::Draw)
    } else if t.len() == 12 && t[0] == 109 && t[1] == 117 && t[2] == 108 && t[3] == 116 && t[4] == 105 && t[5] == 112 && t[6] == 108 && t[7] == 101 && t[8] == 100 && t[9] == 114 && t[10] == 97 && t[11] == 119 {
        Ok(Symbol::MultipleDraw)
    } else if t.len() == 12 && t[0] == 99 && t[1] == 104 && t[2] == 101 && t[3] == 99 && t[4] == 107 && t[5] == 101 && t[6] == 114 && t[7] == 98 && t[8] == 111 && t[9] == 97 && t[10] == 114 && t[11] == 100 {
        Ok(Symbol::Checkerboard)
    } else if t.len() == 8 && t[0] == 105 && t[1] == 110 && t[2] == 116 && t[3] == 101 && t[4] == 114 && t[5] == 97 && t[6] == 99 && t[7] == 116 {
        Ok(Symbol::Interact)
    } else if t.len() == 13 && t[0] == 115 && t[1] == 116 && t[2] == 97 && t[3] == 116 && t[4] == 101 && t[5] == 108 && t[6] == 101 && t[7] == 115 && t[8] == 115 && t[9] == 100 && t[10] == 114 && t[11] == 97 && t[12] == 119 {
        Ok(Symbol::StatelessDraw)
    } else if (is_digit_exec(t[0]) && all_digits_exec(t, 0)) || (t.len() > 1 && t[0] == 45
        && is_digit_exec(t[1]) && all_digits_exec(t, 1)) {
        let negative = t[0] == 45;
        let start: usize = if negative {
            1
        } else {
            0
        };
        match digits_exec(t, start) {
            None => Err(ParseErrorKind::MalformedNumber),
            Some(v) => if negative {
                if v > 0x8000_0000_0000_0000u64 {
                    Err(ParseErrorKind::MalformedNumber)
                } else if v == 0x8000_0000_0000_0000u64 {
                    Ok(Symbol::Lit(i64::MIN))
                } else {
                    Ok(Symbol::Lit(-(v as i64)))
                }
            } else {
                if v > 0x7FFF_FFFF_FFFF_FFFFu64 {
                    Err(ParseErrorKind::MalformedNumber)
                } else {
                    Ok(Symbol::Lit(v as i64))
                }
            },
        }
    } else if t[0] == 45 || is_digit_exec(t[0]) {
        Err(ParseErrorKind::MalformedNumber)
    } else if t[0] == 61 || is_punct_exec(t[0]) {
        Err(ParseErrorKind::UnknownToken)
    } else if t[0] == 64 {
        Ok(Symbol::Var(Identifier::PreludeArg(copy_range(t, 0, t.len()))))
    } else {
        Ok(Symbol::Var(Identifier::Name(copy_range(t, 0, t.len()))))
    }
}

fn all_digits_exec(t: &Vec<u8>, i: usize) -> (r: bool)
    ensures
        r == all_digits(t@, i as int),
{
    let mut j: usize = i;
    while j < t.len()
        invariant
            i <= j || j == i,
            j <= t@.len() || t@.len() < i,
            forall|k: int| i <= k < j ==> is_digit(#[trigger] t@[k]),
        decreases t@.len() - j,
    {
        if !is_digit_exec(t[j]) {
            return false;
        }
        j += 1;
    }
    true
}

fn parse_one_exec(toks: &Vec<Vec<u8>>, i: usize) -> (r: Result<(Symbol, usize), ParseErrorKind>)
    ensures
        match (r, parse_one(view_bytes(toks@), i as int)) {
            (Ok((sym, j)), Ok((sv, sj))) => sym@ == sv && j as int == sj && i < j <= toks@.len(),
            (Err(e), Err(ev)) => e == ev,
            _ => false,
        },
    decreases toks@.len() - i, 0int,
{
    proof {
        lemma_view_bytes_index(toks@);
    }
    if i >= toks.len() {
        return Err(ParseErrorKind::MalformedList);
    }
    let t = &toks[i];
    if t.len() == 1 && t[0] == 40 {
        if i + 1 < toks.len() && toks[i + 1].len() == 1 && toks[i + 1][0] == 41 {
            Ok((Symbol::Nil, i + 2))
        } else {
            match parse_items_exec(toks, i + 1) {
                Err(e) => Err(e),
                Ok((items, j)) => Ok((Symbol::List(items), j)),
            }
        }
    } else {
        match token_symbol_exec(t) {
            Err(e) => Err(e),
            Ok(sym) => Ok((sym, i + 1)),
        }
    }
}

fn parse_items_exec(toks: &Vec<Vec<u8>>, i: usize) -> (r: Result<
    (Vec<Symbol>, usize),
    ParseErrorKind,
>)
    ensures
        match (r, parse_items(view_bytes(toks@), i as int)) {
            (Ok((items, j)), Ok((sv, sj))) => view_symbols(items@) == sv && j as int == sj && i < j
                <= toks@.len(),
            (Err(e), Err(ev)) => e == ev,
            _ => false,
        },
    decreases toks@.len() - i, 1int,
{
    proof {
        lemma_view_bytes_index(toks@);
    }
    match parse_one_exec(toks, i) {
        Err(e) => Err(e),
        Ok((v, j)) => {
            if j >= toks.len() {
                return Err(ParseErrorKind::MalformedList);
            }
            if toks[j].len() == 1 && toks[j][0] == 41 {
                let mut items: Vec<Symbol> = Vec::new();
                items.push(v);
                proof {
                    crate::ast::lemma_view_symbols_index(items@);
                    assert(view_symbols(items@) =~= seq![items@[0]@]);
                }
                Ok((items, j + 1))
            } else if toks[j].len() == 1 && toks[j][0] == 44 {
                match parse_items_exec(toks, j + 1) {
                    Err(e) => Err(e),
                    Ok((mut rest, k)) => {
                        let ghost rest0 = rest@;
                        rest.insert(0, v);
                        proof {
                            crate::ast::lemma_view_symbols_index(rest@);
                            crate::ast::lemma_view_symbols_index(rest0);
                            assert(view_symbols(rest@) =~= seq![rest@[0]@] + view_symbols(rest0));
                        }
                        Ok((rest, k))
                    },
                }
            } else {
                Err(ParseErrorKind::MalformedList)
            }
        },
    }
}

fn parse_rhs_exec(toks: &Vec<Vec<u8>>, i: usize) -> (r: Result<Vec<Symbol>, ParseErrorKind>)
    ensures
        match (r, parse_rhs(view_bytes(toks@), i as int)) {
            (Ok(body), Ok(sv)) => view_symbols(body@) == sv,
            (Err(e), Err(ev)) => e == ev,
            _ => false,
        },
    decreases toks@.len() - i, 2int,
{
    proof {
        lemma_view_bytes_index(toks@);
    }
    if i >= toks.len() {
        let out: Vec<Symbol> = Vec::new();
        proof {
            assert(view_symbols(out@) =~= Seq::<SymbolView>::empty());
        }
        return Ok(out);
    }
    match parse_one_exec(toks, i) {
        Err(e) => Err(e),
        Ok((v, j)) => match parse_rhs_exec(toks, j) {
            Err(e) => Err(e),
            Ok(mut rest) => {
                let ghost rest0 = rest@;
                rest.insert(0, v);
                proof {
                    crate::ast::lemma_view_symbols_index(rest@);
                    crate::ast::lemma_view_symbols_index(rest0);
                    assert(view_symbols(rest@) =~= seq![rest@[0]@] + view_symbols(rest0));
                }
                Ok(rest)
            },
        },
    }
}

fn is_name_token_exec(t: &Vec<u8>) -> (r: bool)
    ensures
        r == is_name_token(t@),
{
    t.len() > 0 && ((65 <= t[0] && t[0] <= 90) || (97 <= t[0] && t[0] <= 122) || (t[0] == 58
        && t.len() > 1 && all_digits_exec(t, 1)))
}

fn args_end_exec(toks: &Vec<Vec<u8>>, j: usize) -> (e: usize)
    requires
        j <= toks@.len(),
    ensures
        e as int == args_end(view_bytes(toks@), j as int),
        j <= e <= toks@.len(),
    decreases toks@.len() - j,
{
    proof {
        lemma_view_bytes_index(toks@);
    }
    if j >= toks.len() || !(toks[j].len() > 0 && toks[j][0] == 64) {
        j
    } else {
        args_end_exec(toks, j + 1)
    }
}

proof fn lemma_args_prefix_snoc(toks: Seq<Seq<u8>>, a: int, k: int)
    requires
        a <= k < toks.len(),
    ensures
        args_prefix(toks, a, k + 1) == args_prefix(toks, a, k) + seq![
            SymbolView::Ap,
            SymbolView::StoreArg(IdentView::PreludeArg(toks[k])),
        ],
    decreases k - a,
{
    if a < k {
        lemma_args_prefix_snoc(toks, a + 1, k);
        assert(args_prefix(toks, a, k + 1) =~= args_prefix(toks, a, k) + seq![
            SymbolView::Ap,
            SymbolView::StoreArg(IdentView::PreludeArg(toks[k])),
        ]);
    } else {
        assert(args_prefix(toks, a, k) =~= Seq::<SymbolView>::empty());
        assert(args_prefix(toks, k + 1, k + 1) =~= Seq::<SymbolView>::empty());
        assert(args_prefix(toks, a, k + 1) =~= Seq::<SymbolView>::empty() + seq![
            SymbolView::Ap,
            SymbolView::StoreArg(IdentView::PreludeArg(toks[k])),
        ]);
    }
}

fn parse_line_toks_exec(toks: &Vec<Vec<u8>>) -> (r: Result<Option<Statement>, ParseErrorKind>)
    ensures
        match (r, parse_line_toks(view_bytes(toks@))) {
            (Ok(None), Ok(None)) => true,
            (Ok(Some(st)), Ok(Some(sv))) => st@ == sv,
            (Err(e), Err(ev)) => e == ev,
            _ => false,
        },
{
    proof {
        lemma_view_bytes_index(toks@);
    }
    if toks.len() == 0 {
        return Ok(None);
    }
    if !is_name_token_exec(&toks[0]) {
        return Err(ParseErrorKind::MalformedLeftHandSide);
    }
    let k = args_end_exec(toks, 1);
    if !(k < toks.len() && toks[k].len() == 1 && toks[k][0] == 61) {
        return Err(ParseErrorKind::MissingDefinition);
    }
    match parse_rhs_exec(toks, k + 1) {
        Err(e) => Err(e),
        Ok(mut rhs) => {
            let ghost vb = view_bytes(toks@);
            let mut body: Vec<Symbol> = Vec::new();
            let mut j: usize = 1;
            proof {
                assert(view_symbols(body@) =~= args_prefix(vb, 1, 1));
            }
            while j < k
                invariant
                    1 <= j <= k,
                    k < toks@.len(),
                    vb == view_bytes(toks@),
                    vb.len() == toks@.len(),
                    forall|m: int| 0 <= m < toks@.len() ==> vb[m] == toks@[m]@,
                    view_symbols(body@) == args_prefix(vb, 1, j as int),
                decreases k - j,
            {
                proof {
                    assert(decreases_to!(toks@ => toks@[j as int]));
                }
                let arg = copy_range(&toks[j], 0, toks[j].len());
                let ghost body0 = body@;
                body.push(Symbol::Ap);
                body.push(Symbol::StoreArg(Identifier::PreludeArg(arg)));
                proof {
                    lemma_args_prefix_snoc(vb, 1, j as int);
                    crate::ast::lemma_view_symbols_index(body@);
                    crate::ast::lemma_view_symbols_index(body0);
                    assert(toks@[j as int]@.subrange(0, toks@[j as int]@.len() as int)
                        =~= toks@[j as int]@);
                    assert(view_symbols(body@) =~= args_prefix(vb, 1, j + 1));
                }
                j += 1;
            }
            let ghost prefix = body@;
            let ghost rhs0 = rhs@;
            body.append(&mut rhs);
            proof {
                crate::ast::lemma_view_symbols_index(body@);
                crate::ast::lemma_view_symbols_index(prefix);
                crate::ast::lemma_view_symbols_index(rhs0);
                assert(view_symbols(body@) =~= view_symbols(prefix) + view_symbols(rhs0));
            }
            let name = copy_range(&toks[0], 0, toks[0].len());
            proof {
                assert(toks@[0]@.subrange(0, toks@[0]@.len() as int) =~= toks@[0]@);
            }
            Ok(Some(Statement(Identifier::Name(name), body)))
        },
    }
}

fn line_end_exec(bytes: &Vec<u8>, i: usize) -> (e: usize)
    requires
        i <= bytes@.len(),
    ensures
        e as int == line_end(bytes@, i as int),
        i <= e <= bytes@.len(),
    decreases bytes@.len() - i,
{
    if i >= bytes.len() || bytes[i] == 10 {
        i
    } else {
        line_end_exec(bytes, i + 1)
    }
}

fn parse_program_exec(bytes: &Vec<u8>, i: usize, ln: usize) -> (r: Result<Vec<Statement>, ParseError>)
    requires
        i <= bytes@.len(),
        ln + bytes@.len() - i <= usize::MAX,
    ensures
        match (r, parse_program_at(bytes@, i as int, ln as nat)) {
            (Ok(v), Ok(sv)) => crate::ast::view_statements(v@) == sv,
            (Err(e), Err(ev)) => e == ev,
            _ => false,
        },
    decreases bytes@.len() - i,
{
    let e = line_end_exec(bytes, i);
    let line = copy_range(bytes, i, e);
    let toks = tokenize_exec(&line, 0);
    match parse_line_toks_exec(&toks) {
        Err(kind) => Err(ParseError { line: ln, kind }),
        Ok(opt) => {
            if e >= bytes.len() {
                match opt {
                    None => {
                        let v: Vec<Statement> = Vec::new();
                        proof {
                            assert(crate::ast::view_statements(v@) =~= Seq::<
                                StatementView,
                            >::empty());
                        }
                        Ok(v)
                    },
                    Some(st) => {
                        let mut v: Vec<Statement> = Vec::new();
                        v.push(st);
                        proof {
                            crate::ast::lemma_view_statements_index(v@);
                            assert(crate::ast::view_statements(v@) =~= seq![v@[0]@]);
                        }
                        Ok(v)
                    },
                }
            } else {
                match parse_program_exec(bytes, e + 1, ln + 1) {
                    Err(er) => Err(er),
                    Ok(mut rest) => match opt {
                        None => Ok(rest),
                        Some(st) => {
                            let ghost rest0 = rest@;
                            rest.insert(0, st);
                            proof {
                                crate::ast::lemma_view_statements_index(rest@);
                                crate::ast::lemma_view_statements_index(rest0);
                                assert(crate::ast::view_statements(rest@) =~= seq![rest@[0]@]
                                    + crate::ast::view_statements(rest0));
                            }
                            Ok(rest)
                        },
                    },
                }
            }
        },
    }
}

/// Parse a whole program text, one definition per non-blank line; the
/// error, if any, names the first offending line.
pub fn parse_as_lines(input: &str) -> (r: Result<Vec<Statement>, ParseError>)
    ensures
        match (r, parse_program(input.spec_bytes())) {
            (Ok(v), Ok(sv)) => crate::ast::view_statements(v@) == sv,
            (Err(e), Err(ev)) => e == ev,
            _ => false,
        },
{
    let slice = input.as_bytes();
    let mut bytes: Vec<u8> = Vec::new();
    let mut k: usize = 0;
    while k < slice.len()
        invariant
            k <= slice@.len(),
            slice@ == input.spec_bytes(),
            bytes@ == slice@.subrange(0, k as int),
        decreases slice@.len() - k,
    {
        bytes.push(slice[k]);
        assert(bytes@ =~= slice@.subrange(0, k + 1));
        k += 1;
    }
    proof {
        assert(slice@.subrange(0, slice@.len() as int) =~= slice@);
    }
    parse_program_exec(&bytes, 0, 0)
}

} // verus!
