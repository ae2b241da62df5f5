//! The wire modulation codec: a total, bijective encoding between the
//! values `Lit`, `Nil`, `Pair` and bit strings.
//!
//! A number is two sign bits (`01` non-negative, `10` negative), a unary
//! width prefix (`k` ones then a zero), and `4 * k` payload bits, most
//! significant first; zero is the three bits `010`.  `Nil` is `00`, and a
//! pair is `11` followed by the encodings of its head and tail.

use crate::ast::{canon_view, Canonicalize, Symbol, SymbolView};
use crate::errors::{EvalError, ModError};
use vstd::prelude::*;
use vstd::string::{StringExecFns, StringSliceAdditionalSpecFns};

verus! {

/// A modulated value on the wire: a string of bits.
pub type Modulated = Vec<bool>;

/// How many base-16 digits a magnitude needs; zero needs none.
pub open spec fn nibble_width(n: nat) -> nat
    decreases n,
{
    if n == 0 {
        0
    } else if n < 16 {
        1
    } else {
        1 + nibble_width(n / 16)
    }
}

/// `16 ^ k`.
pub open spec fn pow16(k: nat) -> nat
    decreases k,
{
    if k == 0 {
        1
    } else {
        16 * pow16((k - 1) as nat)
    }
}

/// The low `w` bits of `m`, most significant first.
pub open spec fn fixed_bits(m: nat, w: nat) -> Seq<bool>
    decreases w,
{
    if w == 0 {
        Seq::empty()
    } else {
        fixed_bits(m / 2, (w - 1) as nat).push(m % 2 == 1)
    }
}

/// The bits of the number `n` on the wire.
pub open spec fn mod_num(n: int) -> Seq<bool> {
    if n == 0 {
        seq![false, true, false]
    } else {
        let m = if n < 0 {
            (-n) as nat
        } else {
            n as nat
        };
        let k = nibble_width(m);
        let sign = if n < 0 {
            seq![true, false]
        } else {
            seq![false, true]
        };
        sign + Seq::new(k, |i: int| true) + seq![false] + fixed_bits(m, 4 * k)
    }
}

impl SymbolView {
    /// Whether this value is in the codec's domain: a literal that fits the
    /// literal type, `Nil`, or a pair of supported values.
    pub open spec fn supported(self) -> bool
        decreases self,
    {
        match self {
            SymbolView::Lit(n) => i64::MIN <= n <= i64::MAX,
            SymbolView::Nil => true,
            SymbolView::Pair(a, b) => a.supported() && b.supported(),
            _ => false,
        }
    }

    /// The bits of this value on the wire; meaningful only on the
    /// supported domain.
    pub open spec fn mod_bits(self) -> Seq<bool>
        decreases self,
    {
        match self {
            SymbolView::Lit(n) => mod_num(n),
            SymbolView::Nil => seq![false, false],
            SymbolView::Pair(a, b) => seq![true, true] + a.mod_bits() + b.mod_bits(),
            _ => Seq::empty(),
        }
    }
}

/// The length of the run of ones starting at `i`.
pub open spec fn ones_run(s: Seq<bool>, i: int) -> nat
    decreases s.len() - i,
{
    if i < 0 || i >= s.len() || !s[i] {
        0
    } else {
        1 + ones_run(s, i + 1)
    }
}

/// The value of the `w` bits starting at `i`, most significant first.
pub open spec fn read_bits(s: Seq<bool>, i: int, w: nat) -> nat
    decreases w,
{
    if w == 0 {
        0
    } else {
        read_bits(s, i, (w - 1) as nat) * 2 + (if s[i + w - 1] {
            1nat
        } else {
            0nat
        })
    }
}

/// Decoding a number whose sign bits ended at `i`: the decoded literal and
/// the position after it.  The width prefix fully determines the payload
/// length, so consumption is unambiguous; the decoder is tolerant of forms
/// encoding never produces (a signed zero, a wider width prefix than the
/// value needs).  A number too wide for the literal type is rejected.
pub open spec fn dem_num(s: Seq<bool>, i: int, negative: bool) -> Result<
    (SymbolView, int),
    ModError,
> {
    if i >= s.len() {
        Err(ModError::Truncated)
    } else {
        let k = ones_run(s, i) as int;
        if k == 0 {
            Ok((SymbolView::Lit(0), i + 1))
        } else if i + k + 1 + 4 * k > s.len() {
            Err(ModError::Truncated)
        } else {
            let val = read_bits(s, i + k + 1, (4 * k) as nat) as int;
            let n = if negative {
                -val
            } else {
                val
            };
            if n < i64::MIN || n > i64::MAX {
                Err(ModError::UnexpectedPrefix)
            } else {
                Ok((SymbolView::Lit(n), i + k + 1 + 4 * k))
            }
        }
    }
}

/// Decoding one value starting at `i`: the value and the position after it.
pub open spec fn dem_at(s: Seq<bool>, i: int) -> Result<(SymbolView, int), ModError>
    decreases s.len() - i,
{
    if i < 0 || i + 2 > s.len() {
        Err(ModError::Truncated)
    } else {
        let b0 = s[i];
        let b1 = s[i + 1];
        if !b0 && !b1 {
            Ok((SymbolView::Nil, i + 2))
        } else if b0 && b1 {
            match dem_at(s, i + 2) {
                Err(e) => Err(e),
                Ok((head, j)) => if i + 2 <= j && j <= s.len() {
                    match dem_at(s, j) {
                        Err(e) => Err(e),
                        Ok((tail, k)) => Ok(
                            (SymbolView::Pair(Box::new(head), Box::new(tail)), k),
                        ),
                    }
                } else {
                    Err(ModError::Truncated)
                },
            }
        } else {
            dem_num(s, i + 2, b0)
        }
    }
}

/// Decoding a bit string: the one value its leading bits encode.  After
/// each header the payload length is determined, so the decoder consumes
/// exactly one value and ignores whatever follows.
pub open spec fn dem_spec(s: Seq<bool>) -> Result<SymbolView, ModError> {
    match dem_at(s, 0) {
        Err(e) => Err(e),
        Ok((v, j)) => Ok(v),
    }
}

/// `2 ^ w`.
pub open spec fn two_pow(w: nat) -> nat
    decreases w,
{
    if w == 0 {
        1
    } else {
        2 * two_pow((w - 1) as nat)
    }
}

pub proof fn lemma_two_pow_mono(a: nat, b: nat)
    requires
        a <= b,
    ensures
        two_pow(a) <= two_pow(b),
        two_pow(a) >= 1,
    decreases b,
{
    lemma_two_pow_pos(a);
    if b > 0 && a < b {
        lemma_two_pow_mono(a, (b - 1) as nat);
    }
}

pub proof fn lemma_two_pow_pos(a: nat)
    ensures
        two_pow(a) >= 1,
    decreases a,
{
    if a > 0 {
        lemma_two_pow_pos((a - 1) as nat);
    }
}

proof fn lemma_two_pow_64()
    ensures
        two_pow(64) == 0x1_0000_0000_0000_0000,
{
    reveal_with_fuel(two_pow, 65);
}

proof fn lemma_pow16_two_pow(k: nat)
    ensures
        pow16(k) == two_pow(4 * k),
    decreases k,
{
    if k > 0 {
        lemma_pow16_two_pow((k - 1) as nat);
        let w = 4 * ((k - 1) as nat);
        assert(4 * k == w + 4);
        assert(two_pow((w + 1) as nat) == 2 * two_pow(w));
        assert(two_pow((w + 2) as nat) == 2 * two_pow((w + 1) as nat));
        assert(two_pow((w + 3) as nat) == 2 * two_pow((w + 2) as nat));
        assert(two_pow((w + 4) as nat) == 2 * two_pow((w + 3) as nat));
    }
}

/// Any magnitude with width `k >= 1` lies between `16^(k-1)` and `16^k`.
proof fn lemma_nibble_width_bounds(m: nat)
    requires
        m >= 1,
    ensures
        nibble_width(m) >= 1,
        pow16((nibble_width(m) - 1) as nat) <= m < pow16(nibble_width(m)),
    decreases m,
{
    if m < 16 {
    } else {
        lemma_nibble_width_bounds(m / 16);
        let kp = nibble_width(m / 16);
        assert(m >= 16 * (m / 16) >= 16 * pow16((kp - 1) as nat));
        assert(m / 16 <= pow16(kp) - 1);
        assert(m <= 16 * (m / 16) + 15 <= 16 * (pow16(kp) - 1) + 15 < 16 * pow16(kp));
    }
}

/// A magnitude that fits a machine word has width at most sixteen.
proof fn lemma_nibble_width_le_16(m: nat)
    requires
        m <= u64::MAX,
    ensures
        nibble_width(m) <= 16,
{
    if m >= 1 {
        lemma_nibble_width_bounds(m);
        let k = nibble_width(m);
        if k >= 17 {
            lemma_pow16_two_pow((k - 1) as nat);
            lemma_two_pow_mono(64, 4 * ((k - 1) as nat));
            lemma_two_pow_64();
            assert(pow16((k - 1) as nat) >= two_pow(64));
        }
    }
}

/// The value of `w` bits is below `2 ^ w`.
proof fn lemma_read_bits_bound(s: Seq<bool>, i: int, w: nat)
    ensures
        read_bits(s, i, w) < two_pow(w),
    decreases w,
{
    if w > 0 {
        lemma_read_bits_bound(s, i, (w - 1) as nat);
    }
}

fn nibble_width_exec(m: u64) -> (r: usize)
    ensures
        r as nat == nibble_width(m as nat),
        r <= 16,
    decreases m,
{
    proof {
        lemma_nibble_width_le_16(m as nat);
    }
    if m == 0 {
        0
    } else if m < 16 {
        1
    } else {
        1 + nibble_width_exec(m / 16)
    }
}

fn bits_exec(m: u64, w: usize) -> (r: Vec<bool>)
    ensures
        r@ == fixed_bits(m as nat, w as nat),
    decreases w,
{
    if w == 0 {
        let r: Vec<bool> = Vec::new();
        assert(r@ =~= fixed_bits(m as nat, 0));
        r
    } else {
        let mut r = bits_exec(m / 2, w - 1);
        r.push(m % 2 == 1);
        r
    }
}

/// The bits of one literal on the wire.
pub fn modulate_number(value: i64) -> (r: Vec<bool>)
    ensures
        r@ == mod_num(value as int),
{
    if value == 0 {
        let mut r: Vec<bool> = Vec::new();
        r.push(false);
        r.push(true);
        r.push(false);
        assert(r@ =~= mod_num(0));
        return r;
    }
    let magnitude: u64 = if value == i64::MIN {
        0x8000_0000_0000_0000u64
    } else if value < 0 {
        (-value) as u64
    } else {
        value as u64
    };
    let k = nibble_width_exec(magnitude);
    let ghost sign_seq: Seq<bool> = if value < 0 {
        seq![true, false]
    } else {
        seq![false, true]
    };
    let mut r: Vec<bool> = Vec::new();
    if value < 0 {
        r.push(true);
        r.push(false);
    } else {
        r.push(false);
        r.push(true);
    }
    assert(r@ =~= sign_seq);
    let mut i: usize = 0;
    while i < k
        invariant
            i <= k,
            r@ == sign_seq + Seq::new(i as nat, |j: int| true),
        decreases k - i,
    {
        r.push(true);
        assert(r@ =~= sign_seq + Seq::new((i + 1) as nat, |j: int| true));
        i += 1;
    }
    r.push(false);
    assert(r@ =~= sign_seq + Seq::new(k as nat, |j: int| true) + seq![false]);
    let payload = bits_exec(magnitude, 4 * k);
    let ghost header: Seq<bool> = sign_seq + Seq::new(k as nat, |j: int| true) + seq![false];
    let mut i: usize = 0;
    while i < payload.len()
        invariant
            i <= payload.len(),
            r@ == header + payload@.subrange(0, i as int),
        decreases payload.len() - i,
    {
        r.push(payload[i]);
        assert(r@ =~= header + payload@.subrange(0, i + 1));
        i += 1;
    }
    proof {
        assert(payload@.subrange(0, payload@.len() as int) =~= payload@);
        assert(r@ =~= mod_num(value as int));
    }
    r
}

proof fn lemma_fixed_bits_len(m: nat, w: nat)
    ensures
        fixed_bits(m, w).len() == w,
    decreases w,
{
    if w > 0 {
        lemma_fixed_bits_len(m / 2, (w - 1) as nat);
    }
}

/// A run of `k` ones bounded by a zero is read back as the count `k`.
proof fn lemma_ones_run_exact(s: Seq<bool>, i: int, k: nat)
    requires
        0 <= i,
        i + k < s.len(),
        forall|j: int| i <= j < i + k ==> s[j] == true,
        s[i + k] == false,
    ensures
        ones_run(s, i) == k,
    decreases k,
{
    if k > 0 {
        lemma_ones_run_exact(s, i + 1, (k - 1) as nat);
    }
}

/// What a run of ones means: every bit in it is set, and the bit after it,
/// if any, is clear.
proof fn lemma_ones_run_props(s: Seq<bool>, i: int)
    requires
        0 <= i <= s.len(),
    ensures
        i + ones_run(s, i) <= s.len(),
        forall|j: int| i <= j < i + ones_run(s, i) ==> s[j] == true,
        i + ones_run(s, i) < s.len() ==> s[i + ones_run(s, i)] == false,
    decreases s.len() - i,
{
    if i < s.len() && s[i] {
        lemma_ones_run_props(s, i + 1);
    }
}

/// Reading back the fixed-width bits of `m` yields `m`.
proof fn lemma_read_fixed(s: Seq<bool>, i: int, m: nat, w: nat)
    requires
        0 <= i,
        i + w <= s.len(),
        m < two_pow(w),
        s.subrange(i, i + w) == fixed_bits(m, w),
    ensures
        read_bits(s, i, w) == m,
    decreases w,
{
    lemma_fixed_bits_len(m, w);
    if w == 0 {
    } else {
        lemma_fixed_bits_len(m / 2, (w - 1) as nat);
        assert(s.subrange(i, i + w - 1) =~= fixed_bits(m / 2, (w - 1) as nat)) by {
            assert(forall|c: int|
                0 <= c < w - 1 ==> s.subrange(i, i + w)[c] == fixed_bits(m, w)[c]);
        }
        lemma_read_fixed(s, i, m / 2, (w - 1) as nat);
        assert(s[i + w - 1] == fixed_bits(m, w)[w - 1]);
        assert(fixed_bits(m, w)[w - 1] == (m % 2 == 1));
    }
}

/// The bits read from a region spell that region back.
proof fn lemma_fixed_read(s: Seq<bool>, i: int, w: nat)
    requires
        0 <= i,
        i + w <= s.len(),
    ensures
        fixed_bits(read_bits(s, i, w), w) == s.subrange(i, i + w),
    decreases w,
{
    lemma_read_bits_bound(s, i, w);
    if w == 0 {
        assert(fixed_bits(0, 0) =~= s.subrange(i, i));
    } else {
        lemma_fixed_read(s, i, (w - 1) as nat);
        let x = read_bits(s, i, (w - 1) as nat);
        let b: nat = if s[i + w - 1] {
            1
        } else {
            0
        };
        let m = x * 2 + b;
        assert(m / 2 == x && m % 2 == b);
        lemma_fixed_bits_len(m / 2, (w - 1) as nat);
        assert(fixed_bits(m, w) =~= s.subrange(i, i + w)) by {
            assert(forall|c: int|
                0 <= c < w - 1 ==> #[trigger] fixed_bits(m / 2, (w - 1) as nat)[c] == s.subrange(
                    i,
                    i + w - 1,
                )[c]);
        }
    }
}

/// The bits of a literal, read at position `i` of a longer string, decode
/// to that literal.
#[verifier::rlimit(60)]
proof fn lemma_dem_num_encoding(n: int, s: Seq<bool>, i: int)
    requires
        i64::MIN <= n <= i64::MAX,
        0 <= i,
        i + mod_num(n).len() <= s.len(),
        s.subrange(i, i + mod_num(n).len() as int) == mod_num(n),
    ensures
        dem_at(s, i) == Ok::<(SymbolView, int), ModError>(
            (SymbolView::Lit(n), i + mod_num(n).len() as int),
        ),
{
    let bits = mod_num(n);
    let len = bits.len() as int;
    let sub = s.subrange(i, i + len);
    if n == 0 {
        assert(sub[0] == s[i] && sub[1] == s[i + 1] && sub[2] == s[i + 2]);
        assert(s[i] == false && s[i + 1] == true && s[i + 2] == false);
        assert(ones_run(s, i + 2) == 0);
    } else {
        let m: nat = if n < 0 {
            (-n) as nat
        } else {
            n as nat
        };
        let k = nibble_width(m);
        let sign: Seq<bool> = if n < 0 {
            seq![true, false]
        } else {
            seq![false, true]
        };
        let ones = Seq::new(k, |x: int| true);
        let payload = fixed_bits(m, 4 * k);
        assert(bits == sign + ones + seq![false] + payload);
        lemma_nibble_width_bounds(m);
        lemma_fixed_bits_len(m, 4 * k);
        assert(len == 2 + k + 1 + 4 * k);
        // the sign bits
        assert(sub[0] == s[i] && sub[1] == s[i + 1]);
        assert(bits[0] == sign[0] && bits[1] == sign[1]);
        // the width run and its terminator
        assert forall|j: int| i + 2 <= j < i + 2 + k implies s[j] == true by {
            assert(sub[j - i] == s[j]);
            assert(bits[j - i] == ones[j - i - 2]);
        }
        assert(sub[2 + k as int] == s[i + 2 + k as int]);
        assert(bits[2 + k as int] == false);
        lemma_ones_run_exact(s, i + 2, k);
        // the payload
        let start = i + 2 + k + 1;
        assert(s.subrange(start, start + 4 * k) =~= payload) by {
            assert forall|c: int|
                0 <= c < 4 * k implies #[trigger] s.subrange(start, start + 4 * k)[c]
                == payload[c] by {
                assert(sub[2 + k + 1 + c] == s[start + c]);
                assert(bits[2 + k + 1 + c] == payload[c]);
            }
        }
        lemma_pow16_two_pow(k);
        lemma_read_fixed(s, start, m, 4 * k);
        assert(dem_num(s, i + 2, n < 0) == Ok::<(SymbolView, int), ModError>(
            (SymbolView::Lit(n), i + len),
        ));
    }
}

/// The bits of any supported value, read at position `i` of a longer
/// string, decode to that value, consuming exactly its encoding.
#[verifier::rlimit(60)]
proof fn lemma_dem_at_encoding(v: SymbolView, s: Seq<bool>, i: int)
    requires
        v.supported(),
        0 <= i,
        i + v.mod_bits().len() <= s.len(),
        s.subrange(i, i + v.mod_bits().len() as int) == v.mod_bits(),
    ensures
        dem_at(s, i) == Ok::<(SymbolView, int), ModError>((v, i + v.mod_bits().len() as int)),
    decreases v,
{
    let bits = v.mod_bits();
    let len = bits.len() as int;
    let sub = s.subrange(i, i + len);
    match v {
        SymbolView::Nil => {
            assert(sub[0] == s[i] && sub[1] == s[i + 1]);
        },
        SymbolView::Lit(n) => {
            lemma_dem_num_encoding(n, s, i);
        },
        SymbolView::Pair(a, b) => {
            let ab = a.mod_bits();
            let bb = b.mod_bits();
            assert(bits == seq![true, true] + ab + bb);
            assert(len == 2 + ab.len() + bb.len());
            assert(sub[0] == s[i] && sub[1] == s[i + 1]);
            assert(bits[0] == true && bits[1] == true);
            assert(s.subrange(i + 2, i + 2 + ab.len() as int) =~= ab) by {
                assert forall|c: int|
                    0 <= c < ab.len() implies #[trigger] s.subrange(
                    i + 2,
                    i + 2 + ab.len() as int,
                )[c] == ab[c] by {
                    assert(sub[2 + c] == s[i + 2 + c]);
                    assert(bits[2 + c] == ab[c]);
                }
            }
            lemma_dem_at_encoding(*a, s, i + 2);
            let j = i + 2 + ab.len() as int;
            assert(s.subrange(j, j + bb.len() as int) =~= bb) by {
                assert forall|c: int|
                    0 <= c < bb.len() implies #[trigger] s.subrange(j, j + bb.len() as int)[c]
                    == bb[c] by {
                    assert(sub[j - i + c] == s[j + c]);
                    assert(bits[2 + ab.len() + c] == bb[c]);
                }
            }
            lemma_dem_at_encoding(*b, s, j);
            assert(SymbolView::Pair(Box::new(*a), Box::new(*b)) == v);
        },
        _ => {
        },
    }
}

/// Decoding inverts encoding: the bits of any supported value decode back
/// to that very value.
pub proof fn lemma_demodulate_modulate(v: SymbolView)
    requires
        v.supported(),
    ensures
        dem_spec(v.mod_bits()) == Ok::<SymbolView, ModError>(v),
{
    let s = v.mod_bits();
    assert(s.subrange(0, s.len() as int) =~= s);
    lemma_dem_at_encoding(v, s, 0);
}

/// Decoding is unambiguous on any prefix: after each header the payload
/// length is determined, so the decoder consumes exactly one encoding
/// from the leading bits and ignores whatever trails it.
pub proof fn lemma_demodulate_prefix(v: SymbolView, extra: Seq<bool>)
    requires
        v.supported(),
    ensures
        dem_spec(v.mod_bits() + extra) == Ok::<SymbolView, ModError>(v),
{
    let s = v.mod_bits() + extra;
    assert(s.subrange(0, v.mod_bits().len() as int) =~= v.mod_bits());
    lemma_dem_at_encoding(v, s, 0);
}

/// Encoding inverts decoding on everything encoding produces: when `s` is
/// the bits of some supported value, decoding succeeds and the decoded
/// value's bits are `s` again.
pub proof fn lemma_modulate_demodulate(s: Seq<bool>)
    requires
        exists|v: SymbolView| v.supported() && v.mod_bits() == s,
    ensures
        dem_spec(s) matches Ok(w) && w.supported() && w.mod_bits() == s,
{
    let v = choose|v: SymbolView| v.supported() && v.mod_bits() == s;
    lemma_demodulate_modulate(v);
}

/// Decoding fails only off the image of encoding: when it errs, no
/// supported value's bits begin the string.
pub proof fn lemma_dem_spec_misses(s: Seq<bool>)
    ensures
        dem_spec(s) is Err ==> forall|v: SymbolView|
            v.supported() ==> !(#[trigger] v.mod_bits()).is_prefix_of(s),
{
    if dem_spec(s) is Err {
        assert forall|v: SymbolView|
            v.supported() implies !(#[trigger] v.mod_bits()).is_prefix_of(s) by {
            if v.mod_bits().is_prefix_of(s) {
                let rest = s.skip(v.mod_bits().len() as int);
                assert(v.mod_bits() + rest =~= s);
                lemma_demodulate_prefix(v, rest);
            }
        }
    }
}


fn append_bits(dst: &mut Vec<bool>, src: &Vec<bool>)
    ensures
        final(dst)@ == old(dst)@ + src@,
{
    let mut i: usize = 0;
    while i < src.len()
        invariant
            i <= src.len(),
            dst@ == old(dst)@ + src@.subrange(0, i as int),
        decreases src.len() - i,
    {
        dst.push(src[i]);
        assert(dst@ =~= old(dst)@ + src@.subrange(0, i + 1));
        i += 1;
    }
    assert(dst@ =~= old(dst)@ + src@);
}

fn mod_core(value: &Symbol) -> (r: Result<Modulated, EvalError>)
    ensures
        value@.supported() ==> (r matches Ok(bits) && bits@ == value@.mod_bits()),
        !value@.supported() ==> r == Err::<Modulated, EvalError>(EvalError::TypeMismatch),
    decreases value,
{
    match value {
        Symbol::Lit(n) => Ok(modulate_number(*n)),
        Symbol::Nil => {
            let mut v: Vec<bool> = Vec::new();
            v.push(false);
            v.push(false);
            assert(v@ =~= SymbolView::Nil.mod_bits());
            Ok(v)
        },
        Symbol::Pair(a, b) => {
            match mod_core(a) {
                Err(e) => Err(e),
                Ok(head_bits) => match mod_core(b) {
                    Err(e) => Err(e),
                    Ok(tail_bits) => {
                        let mut v: Vec<bool> = Vec::new();
                        v.push(true);
                        v.push(true);
                        append_bits(&mut v, &head_bits);
                        append_bits(&mut v, &tail_bits);
                        assert(v@ =~= seq![true, true] + head_bits@ + tail_bits@);
                        Ok(v)
                    },
                },
            }
        },
        _ => Err(EvalError::TypeMismatch),
    }
}

/// Encode a value for the wire.  A surface list is first rewritten into the
/// pair chain it denotes; a value outside the codec's domain is rejected as
/// an operator-misuse error.
pub fn modulate(value: &Symbol) -> (r: Result<Modulated, EvalError>)
    ensures
        canon_view(value@).supported() ==> (r matches Ok(bits) && bits@ == canon_view(
            value@,
        ).mod_bits()),
        !canon_view(value@).supported() ==> r == Err::<Modulated, EvalError>(
            EvalError::TypeMismatch,
        ),
{
    let canonical = value.canonicalize();
    mod_core(&canonical)
}

fn ones_run_exec(s: &Vec<bool>, i: usize) -> (k: usize)
    requires
        i <= s@.len(),
    ensures
        k as nat == ones_run(s@, i as int),
        i + k <= s@.len(),
    decreases s@.len() - i,
{
    let n = s.len();
    let mut k: usize = 0;
    while i + k < n && s[i + k]
        invariant
            n == s@.len(),
            i + k <= s@.len(),
            ones_run(s@, i as int) == k as nat + ones_run(s@, (i + k) as int),
        decreases s@.len() - i - k,
    {
        k += 1;
    }
    k
}

/// Read a `w`-bit payload, reporting a value too wide for a machine word.
fn read_bits_checked(s: &Vec<bool>, i: usize, w: usize) -> (r: Option<u64>)
    requires
        i + w <= s@.len(),
    ensures
        match r {
            Some(v) => v as nat == read_bits(s@, i as int, w as nat),
            None => read_bits(s@, i as int, w as nat) > u64::MAX,
        },
{
    let n = s.len();
    assert(s@.len() <= usize::MAX);
    let mut val: u64 = 0;
    let mut t: usize = 0;
    while t < w
        invariant
            t <= w,
            i + w <= s@.len(),
            s@.len() <= usize::MAX,
            val as nat == read_bits(s@, i as int, t as nat),
        decreases w - t,
    {
        let b: u64 = if s[i + t] {
            1
        } else {
            0
        };
        let doubled = match val.checked_mul(2) {
            None => {
                proof {
                    lemma_read_bits_grows(s@, i as int, (t + 1) as nat, w as nat);
                }
                return None;
            },
            Some(d) => d,
        };
        val = match doubled.checked_add(b) {
            None => {
                proof {
                    lemma_read_bits_grows(s@, i as int, (t + 1) as nat, w as nat);
                }
                return None;
            },
            Some(v2) => v2,
        };
        t += 1;
    }
    Some(val)
}

/// A payload only grows as more of its bits are read.
proof fn lemma_read_bits_grows(s: Seq<bool>, i: int, w1: nat, w2: nat)
    requires
        w1 <= w2,
    ensures
        read_bits(s, i, w1) <= read_bits(s, i, w2),
    decreases w2,
{
    if w1 < w2 {
        lemma_read_bits_grows(s, i, w1, (w2 - 1) as nat);
    }
}

fn dem_num_exec(s: &Vec<bool>, i: usize, negative: bool) -> (r: Result<(Symbol, usize), ModError>)
    requires
        i <= s@.len(),
    ensures
        match (r, dem_num(s@, i as int, negative)) {
            (Ok((v, j)), Ok((sv, sj))) => v@ == sv && j as int == sj && j <= s@.len(),
            (Err(e), Err(se)) => e == se,
            _ => false,
        },
{
    if i >= s.len() {
        return Err(ModError::Truncated);
    }
    let k = ones_run_exec(s, i);
    if k == 0 {
        return Ok((Symbol::Lit(0), i + 1));
    }
    let avail = s.len() - (i + k);
    if avail < 1 || (avail - 1) / 4 < k {
        proof {
            let a = avail as int;
            if a >= 1 && (a - 1) / 4 < k {
                assert((a - 1) == 4 * ((a - 1) / 4) + (a - 1) % 4);
                assert(4 * k > a - 1);
            }
        }
        return Err(ModError::Truncated);
    }
    proof {
        let a = avail as int;
        assert((a - 1) == 4 * ((a - 1) / 4) + (a - 1) % 4);
        assert(4 * k <= a - 1);
    }
    let start = i + k + 1;
    let val = match read_bits_checked(s, start, 4 * k) {
        None => {
            // the payload does not fit a machine word, so the number is
            // far outside the literal type either way
            return Err(ModError::UnexpectedPrefix);
        },
        Some(v) => v,
    };
    if negative {
        if val > 0x8000_0000_0000_0000u64 {
            return Err(ModError::UnexpectedPrefix);
        }
        let m: i64 = if val == 0x8000_0000_0000_0000u64 {
            i64::MIN
        } else {
            -(val as i64)
        };
        Ok((Symbol::Lit(m), start + 4 * k))
    } else {
        if val > 0x7FFF_FFFF_FFFF_FFFFu64 {
            return Err(ModError::UnexpectedPrefix);
        }
        Ok((Symbol::Lit(val as i64), start + 4 * k))
    }
}

fn dem_rec(s: &Vec<bool>, i: usize) -> (r: Result<(Symbol, usize), ModError>)
    ensures
        match (r, dem_at(s@, i as int)) {
            (Ok((v, j)), Ok((sv, sj))) => v@ == sv && j as int == sj && i + 2 <= j <= s@.len(),
            (Err(e), Err(se)) => e == se,
            _ => false,
        },
    decreases s@.len() - i,
{
    if i >= s.len() || i + 1 >= s.len() {
        return Err(ModError::Truncated);
    }
    let b0 = s[i];
    let b1 = s[i + 1];
    if !b0 && !b1 {
        Ok((Symbol::Nil, i + 2))
    } else if b0 && b1 {
        match dem_rec(s, i + 2) {
            Err(e) => Err(e),
            Ok((head, j)) => match dem_rec(s, j) {
                Err(e) => Err(e),
                Ok((tail, k)) => Ok((Symbol::Pair(Box::new(head), Box::new(tail)), k)),
            },
        }
    } else {
        dem_num_exec(s, i + 2, b0)
    }
}

/// Decode the value that the leading bits of a string encode.  After each
/// header the payload length is determined, so decoding is unambiguous on
/// any prefix: the encoding of a value followed by arbitrary trailing bits
/// decodes back to that value, and the trailing bits are ignored.
pub fn demodulate(value: Modulated) -> (r: Result<Symbol, ModError>)
    ensures
        match (r, dem_spec(value@)) {
            (Ok(v), Ok(sv)) => v@ == sv,
            (Err(e), Err(se)) => e == se,
            _ => false,
        },
        r is Err ==> forall|w: SymbolView|
            w.supported() ==> !(#[trigger] w.mod_bits()).is_prefix_of(value@),
{
    proof {
        lemma_dem_spec_misses(value@);
    }
    match dem_rec(&value, 0) {
        Err(e) => Err(e),
        Ok((v, j)) => Ok(v),
    }
}

/// The characters `'0'` / `'1'` spelling a bit string.
pub open spec fn bits_to_chars(s: Seq<bool>) -> Seq<char> {
    s.map(|i: int, b: bool| if b {
        '1'
    } else {
        '0'
    })
}

/// The bits a character string spells: `'1'` is a one, anything else a zero.
pub open spec fn bytes_to_bits(b: Seq<u8>) -> Seq<bool> {
    b.map(|i: int, c: u8| c == 49)
}

/// Encode a value and spell the bits as a character string.
pub fn modulate_to_string(symbol: &Symbol) -> (r: Result<String, EvalError>)
    ensures
        canon_view(symbol@).supported() ==> (r matches Ok(t) && t@ == bits_to_chars(
            canon_view(symbol@).mod_bits(),
        )),
        !canon_view(symbol@).supported() ==> r == Err::<String, EvalError>(EvalError::TypeMismatch),
{
    proof {
        reveal_strlit("1");
        reveal_strlit("0");
    }
    match modulate(symbol) {
        Err(e) => Err(e),
        Ok(bits) => {
            let mut t = String::new();
            let mut i: usize = 0;
            while i < bits.len()
                invariant
                    i <= bits.len(),
                    t@ == bits_to_chars(bits@.subrange(0, i as int)),
                decreases bits.len() - i,
            {
                proof {
                    reveal_strlit("1");
                    reveal_strlit("0");
                }
                if bits[i] {
                    t.append("1");
                } else {
                    t.append("0");
                }
                assert(t@ =~= bits_to_chars(bits@.subrange(0, i + 1)));
                i += 1;
            }
            assert(bits@.subrange(0, bits@.len() as int) =~= bits@);
            Ok(t)
        },
    }
}

/// Read a character string as bits and decode it.
pub fn demodulate_string(s: &str) -> (r: Result<Symbol, ModError>)
    ensures
        match (r, dem_spec(bytes_to_bits(s.spec_bytes()))) {
            (Ok(v), Ok(sv)) => v@ == sv,
            (Err(e), Err(se)) => e == se,
            _ => false,
        },
{
    let bytes = s.as_bytes();
    let mut bits: Vec<bool> = Vec::new();
    let mut i: usize = 0;
    while i < bytes.len()
        invariant
            i <= bytes@.len(),
            bytes@ == s.spec_bytes(),
            bits@ == bytes_to_bits(bytes@.subrange(0, i as int)),
        decreases bytes.len() - i,
    {
        bits.push(bytes[i] == 49);
        assert(bits@ =~= bytes_to_bits(bytes@.subrange(0, i + 1)));
        i += 1;
    }
    assert(bytes@.subrange(0, bytes@.len() as int) =~= bytes@);
    demodulate(bits)
}

} // verus!
