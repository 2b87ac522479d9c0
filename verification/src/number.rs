//! Exact decimal numbers for profile values.
//!
//! The profile text writes physical quantities as unsigned decimal literals
//! (`8`, `8.`, `8.0`, `.8`).  The library holds such a quantity exactly as a
//! count of millionths, so that every computation over it is exact and
//! reproducible.  Fraction digits beyond the sixth are ignored by the reader.

use vstd::prelude::*;

verus! {

/// How many millionths make one unit.
pub const SCALE: u64 = 1_000_000;

/// A non-negative decimal number, held exactly as `micros` millionths.
#[derive(Clone, Copy, PartialEq, Eq, Structural, Debug)]
pub struct Number {
    pub micros: u64,
}

impl Number {
    /// The number zero.
    pub fn zero() -> (r: Number)
        ensures
            r.micros == 0,
    {
        Number { micros: 0 }
    }

    /// The number holding exactly `micros` millionths.
    pub fn from_micros(micros: u64) -> (r: Number)
        ensures
            r.micros == micros,
    {
        Number { micros }
    }
}

/// Whether `c` is an ASCII decimal digit.
pub open spec fn is_digit(c: u8) -> bool {
    48 <= c && c <= 57
}

/// The numeric value of one digit byte.
pub open spec fn digit_val(c: u8) -> nat {
    (c - 48) as nat
}

/// The value of a digit string read in base ten.
pub open spec fn digits_val(s: Seq<u8>) -> nat
    decreases s.len(),
{
    if s.len() == 0 {
        0
    } else {
        digits_val(s.drop_last()) * 10 + digit_val(s.last())
    }
}

/// Ten to the `n`.
pub open spec fn pow10(n: nat) -> nat
    decreases n,
{
    if n == 0 {
        1
    } else {
        10 * pow10((n - 1) as nat)
    }
}

/// Whether every byte of `s` is a digit.
pub open spec fn all_digits(s: Seq<u8>) -> bool {
    forall|k: int| 0 <= k < s.len() ==> is_digit(s[k])
}

/// The millionths contributed by the fraction digits `s`: only the first six
/// count, and fewer than six stand for that many leading fraction places.
pub open spec fn frac_micros(s: Seq<u8>) -> nat {
    let k = if s.len() < 6 { s.len() } else { 6nat };
    digits_val(s.take(k as int)) * pow10((6 - k) as nat)
}

/// The first position at or after `i` that is not a digit.
pub open spec fn digit_run_end(s: Seq<u8>, i: int) -> int
    decreases s.len() - i,
{
    if !(0 <= i < s.len()) {
        i
    } else if !is_digit(s[i]) {
        i
    } else {
        digit_run_end(s, i + 1)
    }
}

/// The scale constant written as a power.
pub proof fn lemma_pow10_6()
    ensures
        pow10(6) == 1_000_000,
{
    reveal_with_fuel(pow10, 7);
}

pub proof fn lemma_pow10_pos(n: nat)
    ensures
        pow10(n) >= 1,
    decreases n,
{
    if n > 0 {
        lemma_pow10_pos((n - 1) as nat);
    }
}

/// A digit string of length `n` is worth less than `pow10(n)`.
pub proof fn lemma_digits_val_bound(s: Seq<u8>)
    requires
        all_digits(s),
    ensures
        digits_val(s) < pow10(s.len()),
    decreases s.len(),
{
    if s.len() > 0 {
        assert(all_digits(s.drop_last()));
        lemma_digits_val_bound(s.drop_last());
        assert(digit_val(s.last()) <= 9);
        assert(digits_val(s.drop_last()) <= pow10((s.len() - 1) as nat) - 1);
        assert(pow10(s.len()) == 10 * pow10((s.len() - 1) as nat));
    }
}

/// Reading `a ++ b` is reading `a`, scaled up by the length of `b`, plus `b`.
pub proof fn lemma_digits_val_concat(a: Seq<u8>, b: Seq<u8>)
    ensures
        digits_val(a + b) == digits_val(a) * pow10(b.len()) + digits_val(b),
    decreases b.len(),
{
    if b.len() == 0 {
        assert(a + b =~= a);
        assert(pow10(0) == 1);
    } else {
        lemma_digits_val_concat(a, b.drop_last());
        assert((a + b).drop_last() =~= a + b.drop_last());
        assert((a + b).last() == b.last());
        assert(digits_val(a + b) == (digits_val(a) * pow10((b.len() - 1) as nat) + digits_val(
            b.drop_last(),
        )) * 10 + digit_val(b.last()));
        assert(pow10(b.len()) == 10 * pow10((b.len() - 1) as nat));
        assert(digits_val(a) * pow10((b.len() - 1) as nat) * 10 == digits_val(a) * pow10(b.len()))
            by (nonlinear_arith)
            requires
                pow10(b.len()) == 10 * pow10((b.len() - 1) as nat),
        ;
    }
}

/// Appending digits never lowers the value.
pub proof fn lemma_digits_val_prefix(a: Seq<u8>, b: Seq<u8>)
    ensures
        digits_val(a + b) >= digits_val(a),
{
    lemma_digits_val_concat(a, b);
    lemma_pow10_pos(b.len());
    assert(digits_val(a) * pow10(b.len()) >= digits_val(a)) by (nonlinear_arith)
        requires
            pow10(b.len()) >= 1,
    ;
}

/// Where a digit run ends: at the first non-digit, or at the end of input.
pub proof fn lemma_digit_run_end(s: Seq<u8>, i: int, j: int)
    requires
        0 <= i <= j <= s.len(),
        forall|k: int| i <= k < j ==> is_digit(s[k]),
        j == s.len() || !is_digit(s[j]),
    ensures
        digit_run_end(s, i) == j,
    decreases j - i,
{
    if i < j {
        lemma_digit_run_end(s, i + 1, j);
    }
}

/// Basic bounds of `digit_run_end`, and digits up to it.
pub proof fn lemma_digit_run_end_bounds(s: Seq<u8>, i: int)
    requires
        0 <= i <= s.len(),
    ensures
        i <= digit_run_end(s, i) <= s.len(),
        forall|k: int| i <= k < digit_run_end(s, i) ==> is_digit(s[k]),
        digit_run_end(s, i) < s.len() ==> !is_digit(s[digit_run_end(s, i)]),
    decreases s.len() - i,
{
    if i < s.len() && is_digit(s[i]) {
        lemma_digit_run_end_bounds(s, i + 1);
    }
}

/// Scan forward from `i` to the end of the digit run.
pub fn scan_digits(s: &[u8], i: usize) -> (j: usize)
    requires
        i <= s@.len(),
    ensures
        j == digit_run_end(s@, i as int),
        i <= j <= s@.len(),
    decreases s@.len() - i,
{
    if i < s.len() && 48 <= s[i] && s[i] <= 57 {
        scan_digits(s, i + 1)
    } else {
        i
    }
}

/// Read the digits `s[i..j]` as a base-ten value, if it fits a `u64`.
pub fn digits_to_u64(s: &[u8], i: usize, j: usize) -> (r: Option<u64>)
    requires
        i <= j <= s@.len(),
        forall|k: int| i <= k < j ==> is_digit(s@[k]),
    ensures
        match r {
            Some(v) => v as nat == digits_val(s@.subrange(i as int, j as int)),
            None => digits_val(s@.subrange(i as int, j as int)) > u64::MAX,
        },
{
    let mut acc: u64 = 0;
    let mut k: usize = i;
    while k < j
        invariant
            i <= k <= j <= s@.len(),
            forall|t: int| i <= t < j ==> is_digit(s@[t]),
            acc as nat == digits_val(s@.subrange(i as int, k as int)),
        decreases j - k,
    {
        let d: u64 = (s[k] - 48) as u64;
        let wide: u128 = (acc as u128) * 10 + (d as u128);
        proof {
            let pre = s@.subrange(i as int, k as int);
            let ext = s@.subrange(i as int, k + 1int);
            assert(ext.drop_last() =~= pre);
            assert(ext.last() == s@[k as int]);
        }
        if wide > u64::MAX as u128 {
            proof {
                let ext = s@.subrange(i as int, k + 1int);
                let tail = s@.subrange(k + 1int, j as int);
                assert(ext + tail =~= s@.subrange(i as int, j as int));
                lemma_digits_val_prefix(ext, tail);
            }
            return None;
        }
        acc = wide as u64;
        k = k + 1;
    }
    proof {
        assert(s@.subrange(i as int, k as int) =~= s@.subrange(i as int, j as int));
    }
    Some(acc)
}

/// Read the fraction digits `s[i..j]` as millionths.
pub fn frac_to_micros(s: &[u8], i: usize, j: usize) -> (r: u64)
    requires
        i <= j <= s@.len(),
        forall|k: int| i <= k < j ==> is_digit(s@[k]),
    ensures
        r as nat == frac_micros(s@.subrange(i as int, j as int)),
        r < 1_000_000,
{
    let width: usize = if j - i < 6 { j - i } else { 6 };
    let mut acc: u64 = 0;
    let mut c: usize = 0;
    proof {
        let whole = s@.subrange(i as int, j as int);
        assert(all_digits(whole.take(width as int)));
    }
    while c < width
        invariant
            i <= j <= s@.len(),
            width <= j - i,
            width <= 6,
            width == if j - i < 6 { j - i } else { 6int },
            c <= width,
            forall|t: int| i <= t < j ==> is_digit(s@[t]),
            acc as nat == digits_val(s@.subrange(i as int, i + c as int)),
            acc < pow10(c as nat),
        decreases width - c,
    {
        let d: u64 = (s[i + c] - 48) as u64;
        proof {
            let pre = s@.subrange(i as int, i + c as int);
            let ext = s@.subrange(i as int, i + c + 1int);
            assert(ext.drop_last() =~= pre);
            assert(ext.last() == s@[i + c as int]);
            lemma_pow10_pos(c as nat);
            assert(pow10((c + 1) as nat) == 10 * pow10(c as nat));
            lemma_pow10_6();
            lemma_pow10_increases((c + 1) as nat, 6nat);
        }
        acc = acc * 10 + d;
        c = c + 1;
    }
    // scale by the missing fraction places
    let mut pad: usize = 6 - width;
    let ghost padded_from: u64 = acc;
    proof {
        assert(pow10((6 - width - pad) as nat) == 1);
        lemma_mul_one(padded_from as nat, pow10((6 - width - pad) as nat));
    }
    while pad > 0
        invariant
            width <= 6,
            acc as nat == padded_from as nat * pow10((6 - width - pad) as nat),
            pad <= 6 - width,
            padded_from < pow10(width as nat),
            acc < pow10((6 - pad) as nat),
        decreases pad,
    {
        proof {
            let done = (6 - width - pad) as nat;
            assert(pow10((done + 1) as nat) == 10 * pow10(done));
            lemma_pow10_mul(padded_from as nat, pow10(done), 10);
            assert(pow10(((6 - pad) + 1) as nat) == 10 * pow10((6 - pad) as nat));
            lemma_pow10_6();
            lemma_pow10_increases((7 - pad) as nat, 6nat);
        }
        acc = acc * 10;
        pad = pad - 1;
    }
    proof {
        let whole = s@.subrange(i as int, j as int);
        let k = if whole.len() < 6 { whole.len() } else { 6nat };
        assert(k == width as nat);
        assert(whole.take(k as int) =~= s@.subrange(i as int, i + width as int));
        assert(acc as nat == padded_from as nat * pow10((6 - width) as nat));
        lemma_pow10_6();
        lemma_digits_val_bound(whole.take(k as int));
        lemma_pow10_split(width as nat, (6 - width) as nat);
        lemma_pow10_mul_bound(padded_from as nat, pow10(width as nat), pow10((6 - width) as nat));
    }
    acc
}

/// The number grammar: `digits "." digits?`, `digits? "." digits`, or, with no
/// dot, a plain run of digits.  It consumes the longest such prefix at `i` and
/// yields the value in millionths; it fails when no digit is present, or when
/// the value does not fit.
pub open spec fn sp_number(s: Seq<u8>, i: int) -> Option<(int, Number)> {
    let j = digit_run_end(s, i);
    if j < s.len() && s[j] == 46 {
        let k = digit_run_end(s, j + 1);
        if j == i && k == j + 1 {
            None  // a lone dot: not a number
        } else {
            let v = digits_val(s.subrange(i, j)) * 1_000_000 + frac_micros(s.subrange(j + 1, k));
            if v <= u64::MAX {
                Some((k, Number { micros: v as u64 }))
            } else {
                None
            }
        }
    } else {
        if j == i {
            None
        } else {
            let v = digits_val(s.subrange(i, j)) * 1_000_000;
            if v <= u64::MAX {
                Some((j, Number { micros: v as u64 }))
            } else {
                None
            }
        }
    }
}

/// A successful number read consumes at least one byte and stays in bounds.
pub proof fn lemma_sp_number_consumes(s: Seq<u8>, i: int)
    requires
        0 <= i <= s.len(),
    ensures
        match sp_number(s, i) {
            Some(p) => i < p.0 <= s.len(),
            None => true,
        },
{
    lemma_digit_run_end_bounds(s, i);
    let j = digit_run_end(s, i);
    if j < s.len() && s[j] == 46 {
        lemma_digit_run_end_bounds(s, j + 1);
    }
}

/// Read a number at `i`, exactly as `sp_number` describes.
pub fn number_val(s: &[u8], i: usize) -> (r: Option<(usize, Number)>)
    requires
        i <= s@.len(),
    ensures
        match r {
            Some(p) => sp_number(s@, i as int) == Some((p.0 as int, p.1)) && i < p.0 <= s@.len(),
            None => sp_number(s@, i as int) is None,
        },
{
    proof {
        lemma_sp_number_consumes(s@, i as int);
        lemma_digit_run_end_bounds(s@, i as int);
    }
    let j = scan_digits(s, i);
    if j < s.len() && s[j] == 46 {
        proof {
            lemma_digit_run_end_bounds(s@, j + 1int);
        }
        let k = scan_digits(s, j + 1);
        if j == i && k == j + 1 {
            None
        } else {
            match digits_to_u64(s, i, j) {
                None => {
                    proof {
                        lemma_whole_exceeds(
                            digits_val(s@.subrange(i as int, j as int)),
                            frac_micros(s@.subrange(j + 1int, k as int)),
                        );
                    }
                    None
                },
                Some(ip) => {
                    let f = frac_to_micros(s, j + 1, k);
                    let wide: u128 = (ip as u128) * 1_000_000 + (f as u128);
                    if wide > u64::MAX as u128 {
                        None
                    } else {
                        Some((k, Number { micros: wide as u64 }))
                    }
                },
            }
        }
    } else {
        if j == i {
            None
        } else {
            match digits_to_u64(s, i, j) {
                None => {
                    proof {
                        lemma_whole_exceeds(digits_val(s@.subrange(i as int, j as int)), 0);
                    }
                    None
                },
                Some(ip) => {
                    let wide: u128 = (ip as u128) * 1_000_000;
                    if wide > u64::MAX as u128 {
                        None
                    } else {
                        Some((j, Number { micros: wide as u64 }))
                    }
                },
            }
        }
    }
}

/// An integer part too large for a `u64` makes the whole value too large.
proof fn lemma_whole_exceeds(ip: nat, f: nat)
    requires
        ip > u64::MAX,
    ensures
        ip * 1_000_000 + f > u64::MAX,
{
    assert(ip * 1_000_000 >= ip) by (nonlinear_arith)
        requires
            ip >= 0,
    ;
}

/// The plain unsigned-integer grammar used for counts: a run of digits with no
/// dot and no float coercion, rejected when it does not fit sixteen bits.
pub open spec fn sp_uint16(s: Seq<u8>, i: int) -> Option<(int, u16)> {
    let j = digit_run_end(s, i);
    if j == i {
        None
    } else {
        let v = digits_val(s.subrange(i, j));
        if v <= u16::MAX {
            Some((j, v as u16))
        } else {
            None
        }
    }
}

/// Read a sixteen-bit count at `i`, exactly as `sp_uint16` describes.
pub fn uint16_val(s: &[u8], i: usize) -> (r: Option<(usize, u16)>)
    requires
        i <= s@.len(),
    ensures
        match r {
            Some(p) => sp_uint16(s@, i as int) == Some((p.0 as int, p.1)) && i < p.0 <= s@.len(),
            None => sp_uint16(s@, i as int) is None,
        },
{
    proof {
        lemma_digit_run_end_bounds(s@, i as int);
    }
    let j = scan_digits(s, i);
    if j == i {
        None
    } else {
        match digits_to_u64(s, i, j) {
            None => None,
            Some(v) => {
                if v > u16::MAX as u64 {
                    None
                } else {
                    Some((j, v as u16))
                }
            },
        }
    }
}

/// A number with an optional leading sign, for standalone numeric literals.
#[derive(Clone, Copy, PartialEq, Eq, Structural, Debug)]
pub struct SignedNumber {
    pub negative: bool,
    pub magnitude: Number,
}

/// The signed-number grammar: an optional `+` or `-`, then the number form.
pub open spec fn sp_signed_number(s: Seq<u8>, i: int) -> Option<(int, SignedNumber)> {
    if i < s.len() && (s[i] == 43 || s[i] == 45) {
        match sp_number(s, i + 1) {
            Some((j, n)) => Some((j, SignedNumber { negative: s[i] == 45, magnitude: n })),
            None => None,
        }
    } else {
        match sp_number(s, i) {
            Some((j, n)) => Some((j, SignedNumber { negative: false, magnitude: n })),
            None => None,
        }
    }
}

/// Read a signed number at `i`, exactly as `sp_signed_number` describes.
pub fn signed_number_val(s: &[u8], i: usize) -> (r: Option<(usize, SignedNumber)>)
    requires
        i <= s@.len(),
    ensures
        match r {
            Some(p) => sp_signed_number(s@, i as int) == Some((p.0 as int, p.1)) && i < p.0
                <= s@.len(),
            None => sp_signed_number(s@, i as int) is None,
        },
{
    if i < s.len() && (s[i] == 43 || s[i] == 45) {
        let neg = s[i] == 45;
        match number_val(s, i + 1) {
            Some((j, n)) => Some((j, SignedNumber { negative: neg, magnitude: n })),
            None => None,
        }
    } else {
        match number_val(s, i) {
            Some((j, n)) => Some((j, SignedNumber { negative: false, magnitude: n })),
            None => None,
        }
    }
}

/// The decimal digits of `n`, most significant first.
pub open spec fn sp_digits_of(n: nat) -> Seq<u8>
    decreases n,
{
    if n < 10 {
        seq![(n + 48) as u8]
    } else {
        sp_digits_of(n / 10).push((n % 10 + 48) as u8)
    }
}

/// Exactly `w` decimal digits of `n`, most significant first, zero padded.
pub open spec fn sp_digits_fixed(n: nat, w: nat) -> Seq<u8>
    decreases w,
{
    if w == 0 {
        seq![]
    } else {
        sp_digits_fixed(n / 10, (w - 1) as nat).push((n % 10 + 48) as u8)
    }
}

/// `s` without its trailing zero digits.
pub open spec fn strip_zeros(s: Seq<u8>) -> Seq<u8>
    decreases s.len(),
{
    if s.len() > 0 && s.last() == 48 {
        strip_zeros(s.drop_last())
    } else {
        s
    }
}

/// The canonical text of a number: the integer digits, then, if the fraction
/// is not zero, a dot and the fraction digits with trailing zeros dropped.
pub open spec fn sp_number_text(x: Number) -> Seq<u8> {
    let ip = x.micros as nat / 1_000_000;
    let f = x.micros as nat % 1_000_000;
    if f == 0 {
        sp_digits_of(ip)
    } else {
        sp_digits_of(ip) + seq![46u8] + strip_zeros(sp_digits_fixed(f, 6))
    }
}

pub proof fn lemma_digits_of_props(n: nat)
    ensures
        all_digits(sp_digits_of(n)),
        sp_digits_of(n).len() >= 1,
        digits_val(sp_digits_of(n)) == n,
    decreases n,
{
    if n < 10 {
        assert(digits_val(sp_digits_of(n).drop_last()) == 0);
    } else {
        lemma_digits_of_props(n / 10);
        let t = sp_digits_of(n);
        assert(t.drop_last() =~= sp_digits_of(n / 10));
        assert(digits_val(t) == (n / 10) * 10 + n % 10);
    }
}

pub proof fn lemma_digits_fixed_props(n: nat, w: nat)
    requires
        n < pow10(w),
    ensures
        all_digits(sp_digits_fixed(n, w)),
        sp_digits_fixed(n, w).len() == w,
        digits_val(sp_digits_fixed(n, w)) == n,
    decreases w,
{
    if w == 0 {
    } else {
        assert(n / 10 < pow10((w - 1) as nat)) by (nonlinear_arith)
            requires
                n < pow10(w),
                pow10(w) == 10 * pow10((w - 1) as nat),
        ;
        lemma_digits_fixed_props(n / 10, (w - 1) as nat);
        let t = sp_digits_fixed(n, w);
        assert(t.drop_last() =~= sp_digits_fixed(n / 10, (w - 1) as nat));
        assert(digits_val(t) == (n / 10) * 10 + n % 10);
    }
}

pub proof fn lemma_strip_zeros_props(s: Seq<u8>)
    requires
        all_digits(s),
    ensures
        strip_zeros(s).len() <= s.len(),
        all_digits(strip_zeros(s)),
        digits_val(s) == digits_val(strip_zeros(s)) * pow10((s.len() - strip_zeros(s).len()) as nat),
        digits_val(s) > 0 ==> strip_zeros(s).len() >= 1,
    decreases s.len(),
{
    let t = strip_zeros(s);
    if s.len() > 0 && s.last() == 48 {
        assert(all_digits(s.drop_last()));
        lemma_strip_zeros_props(s.drop_last());
        assert(digits_val(s) == digits_val(s.drop_last()) * 10);
        let d = (s.len() - 1 - t.len()) as nat;
        assert(digits_val(s.drop_last()) == digits_val(t) * pow10(d));
        assert(pow10(d + 1) == pow10(d) * 10) by {
            lemma_pow10_split(d, 1);
            reveal_with_fuel(pow10, 2);
        }
        assert(digits_val(t) * pow10(d) * 10 == digits_val(t) * (pow10(d) * 10)) by (
        nonlinear_arith);
    } else {
        lemma_mul_one(digits_val(t), pow10(0));
    }
}

/// Append the decimal digits of `n` to `out`.
pub fn push_digits(n: u64, out: &mut Vec<u8>)
    ensures
        final(out)@ == old(out)@ + sp_digits_of(n as nat),
    decreases n,
{
    if n < 10 {
        out.push((n as u8) + 48);
        assert(out@ =~= old(out)@ + sp_digits_of(n as nat));
    } else {
        push_digits(n / 10, out);
        out.push((n % 10) as u8 + 48);
        assert(out@ =~= old(out)@ + sp_digits_of(n as nat));
    }
}

/// Append exactly `w` zero-padded decimal digits of `n` to `out`.
pub fn push_digits_fixed(n: u64, w: usize, out: &mut Vec<u8>)
    ensures
        final(out)@ == old(out)@ + sp_digits_fixed(n as nat, w as nat),
    decreases w,
{
    if w > 0 {
        push_digits_fixed(n / 10, w - 1, out);
        out.push((n % 10) as u8 + 48);
        assert(out@ =~= old(out)@ + sp_digits_fixed(n as nat, w as nat));
    } else {
        assert(out@ =~= old(out)@ + sp_digits_fixed(n as nat, 0));
    }
}

/// Write `x` as its canonical decimal text.
pub fn number_text(x: Number) -> (out: Vec<u8>)
    ensures
        out@ == sp_number_text(x),
{
    let ip = x.micros / 1_000_000;
    let f = x.micros % 1_000_000;
    let mut out: Vec<u8> = Vec::new();
    push_digits(ip, &mut out);
    if f != 0 {
        out.push(46);
        let mut fd: Vec<u8> = Vec::new();
        push_digits_fixed(f, 6, &mut fd);
        let ghost whole: Seq<u8> = fd@;
        while fd.len() > 0 && fd[fd.len() - 1] == 48
            invariant
                strip_zeros(fd@) == strip_zeros(whole),
            decreases fd.len(),
        {
            fd.pop();
        }
        proof {
            assert(strip_zeros(fd@) == fd@);
        }
        out.append(&mut fd);
        assert(out@ =~= sp_number_text(x));
    } else {
        assert(out@ =~= sp_number_text(x));
    }
    out
}

/// Parsing the canonical text of a number, wherever it stands, gives the
/// number back, so long as what follows cannot extend the numeral.
pub proof fn lemma_number_text_at(s: Seq<u8>, i: int, x: Number)
    requires
        0 <= i,
        i + sp_number_text(x).len() <= s.len(),
        s.subrange(i, i + sp_number_text(x).len()) == sp_number_text(x),
        i + sp_number_text(x).len() == s.len() || (!is_digit(s[i + sp_number_text(x).len()])
            && s[i + sp_number_text(x).len()] != 46),
    ensures
        sp_number(s, i) == Some((i + sp_number_text(x).len(), x)),
{
    let t = sp_number_text(x);
    assert forall|k: int| i <= k < i + t.len() implies s[k] == t[k - i] by {
        assert(s.subrange(i, i + t.len())[k - i] == s[k]);
    }
    let ip = x.micros as nat / 1_000_000;
    let f = x.micros as nat % 1_000_000;
    let a = sp_digits_of(ip);
    lemma_digits_of_props(ip);
    lemma_pow10_6();
    if f == 0 {
        assert(forall|k: int| i <= k < i + a.len() ==> is_digit(#[trigger] s[k]));
        lemma_digit_run_end(s, i, i + a.len());
        assert(s.subrange(i, i + a.len() as int) =~= a);
        assert(ip * 1_000_000 + f == x.micros);
        assert(sp_number(s, i) == Some((i + t.len(), x)));
    } else {
        let fixed = sp_digits_fixed(f, 6);
        lemma_digits_fixed_props(f, 6);
        lemma_strip_zeros_props(fixed);
        let b = strip_zeros(fixed);
        assert(t[a.len() as int] == 46);
        assert(forall|k: int| i <= k < i + a.len() ==> is_digit(#[trigger] s[k]));
        lemma_digit_run_end(s, i, i + a.len());
        let j = i + a.len();
        assert(forall|m: int| a.len() + 1 <= m < t.len() ==> #[trigger] t[m] == b[m - a.len() - 1]);
        assert(forall|k: int| j + 1 <= k < j + 1 + b.len() ==> is_digit(#[trigger] s[k]));
        lemma_digit_run_end(s, j + 1, j + 1 + b.len());
        assert(s.subrange(i, j) =~= a);
        assert(s.subrange(j + 1, j + 1 + b.len()) =~= b);
        assert(b.len() <= 6);
        assert(frac_micros(b) == digits_val(b) * pow10((6 - b.len()) as nat)) by {
            assert(b.take(b.len() as int) =~= b);
        }
        assert(digits_val(b) * pow10((6 - b.len()) as nat) == f);
        assert(ip * 1_000_000 + f == x.micros);
        assert(sp_number(s, i) == Some((i + t.len(), x)));
    }
}

/// Parsing the digits of a sixteen-bit count, wherever they stand, gives the
/// count back, so long as no digit follows.
pub proof fn lemma_uint16_text_at(s: Seq<u8>, i: int, v: u16)
    requires
        0 <= i,
        i + sp_digits_of(v as nat).len() <= s.len(),
        s.subrange(i, i + sp_digits_of(v as nat).len()) == sp_digits_of(v as nat),
        i + sp_digits_of(v as nat).len() == s.len() || !is_digit(
            s[i + sp_digits_of(v as nat).len()],
        ),
    ensures
        sp_uint16(s, i) == Some((i + sp_digits_of(v as nat).len(), v)),
{
    let t = sp_digits_of(v as nat);
    lemma_digits_of_props(v as nat);
    assert forall|k: int| i <= k < i + t.len() implies s[k] == t[k - i] by {
        assert(s.subrange(i, i + t.len())[k - i] == s[k]);
    }
    assert(forall|k: int| i <= k < i + t.len() ==> is_digit(#[trigger] s[k]));
    lemma_digit_run_end(s, i, i + t.len());
    assert(s.subrange(i, i + t.len()) =~= t);
}

proof fn lemma_mul_one(a: nat, b: nat)
    requires
        b == 1,
    ensures
        a * b == a,
{
}

proof fn lemma_pow10_mul(a: nat, p: nat, f: nat)
    ensures
        a * p * f == a * (p * f),
{
    vstd::arithmetic::mul::lemma_mul_is_associative(a as int, p as int, f as int);
}

/// pow10 is monotone.
pub proof fn lemma_pow10_increases(a: nat, b: nat)
    requires
        a <= b,
    ensures
        pow10(a) <= pow10(b),
    decreases b,
{
    if a < b {
        lemma_pow10_increases(a, (b - 1) as nat);
        lemma_pow10_pos((b - 1) as nat);
    }
}

/// pow10 turns addition of exponents into multiplication.
pub proof fn lemma_pow10_split(a: nat, b: nat)
    ensures
        pow10(a + b) == pow10(a) * pow10(b),
    decreases b,
{
    if b == 0 {
        assert(pow10(a + 0) == pow10(a) * 1);
    } else {
        lemma_pow10_split(a, (b - 1) as nat);
        assert(pow10(a + b) == 10 * pow10((a + b - 1) as nat));
        assert(pow10(b) == 10 * pow10((b - 1) as nat));
        assert(pow10(a) * (10 * pow10((b - 1) as nat)) == 10 * (pow10(a) * pow10(
            (b - 1) as nat,
        ))) by (nonlinear_arith);
    }
}

proof fn lemma_pow10_mul_bound(a: nat, p: nat, f: nat)
    requires
        a < p,
    ensures
        a * f < p * f || f == 0,
{
    if f > 0 {
        assert(a * f < p * f) by (nonlinear_arith)
            requires
                a < p,
                f > 0,
        ;
    }
}

} // verus!
