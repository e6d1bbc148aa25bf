//! Exact decimal numbers: an integer mantissa and the number of its digits
//! that stand after the decimal point.

use crate::text::{digit_value, first_index, is_digit, lemma_first_index_bounds, to_chars};
use vstd::prelude::*;

verus! {

/// The largest mantissa, in absolute value, that a [`Decimal`] holds.
pub const MAX_MANTISSA: i128 = i128::MAX;

/// The number `mantissa / 10^scale`.
pub struct DecimalView {
    pub mantissa: int,
    pub scale: nat,
}

/// An exact decimal number, `mantissa / 10^scale`.
#[derive(Clone, Copy, Debug, PartialEq, Eq)]
pub struct Decimal {
    mantissa: i128,
    scale: u32,
}

/// Ten to the power `n`.
pub open spec fn pow10(n: nat) -> nat
    decreases n,
{
    if n == 0 {
        1
    } else {
        10 * pow10((n - 1) as nat)
    }
}

/// Whether `m` can be the mantissa of a [`Decimal`].
pub open spec fn fits(m: int) -> bool {
    -MAX_MANTISSA <= m <= MAX_MANTISSA
}

/// The mantissa of `d` once it is written with `scale` digits after the
/// point, for a `scale` that is not below its own.
pub open spec fn rescaled(d: DecimalView, scale: nat) -> int {
    d.mantissa * pow10((scale - d.scale) as nat)
}

/// The larger of the two scales.
pub open spec fn common_scale(a: DecimalView, b: DecimalView) -> nat {
    if a.scale >= b.scale {
        a.scale
    } else {
        b.scale
    }
}

/// Whether `d` can be written with `scale` digits after the point.
pub open spec fn can_rescale(d: DecimalView, scale: nat) -> bool {
    fits(pow10((scale - d.scale) as nat) as int) && fits(rescaled(d, scale))
}

/// The sum of `a` and `b` at their common scale, or `None` where a number on
/// the way to it is out of range.
pub open spec fn add_spec(a: DecimalView, b: DecimalView) -> Option<DecimalView> {
    let s = common_scale(a, b);
    if can_rescale(a, s) && can_rescale(b, s) && fits(rescaled(a, s) + rescaled(b, s)) {
        Some(DecimalView { mantissa: rescaled(a, s) + rescaled(b, s), scale: s })
    } else {
        None
    }
}

/// The product of `a` and `b`, or `None` where it is out of range.
pub open spec fn mul_spec(a: DecimalView, b: DecimalView) -> Option<DecimalView> {
    if fits(a.mantissa * b.mantissa) && a.scale + b.scale <= u32::MAX {
        Some(DecimalView { mantissa: a.mantissa * b.mantissa, scale: a.scale + b.scale })
    } else {
        None
    }
}

/// `d` with its sign flipped.
pub open spec fn neg_spec(d: DecimalView) -> DecimalView {
    DecimalView { mantissa: -d.mantissa, scale: d.scale }
}

/// Whether every character of `s` is a digit.
pub open spec fn all_digits(s: Seq<char>) -> bool {
    forall|i: int| 0 <= i < s.len() ==> is_digit(#[trigger] s[i])
}

/// The number that the digits `s` write in base ten.
pub open spec fn digits_value(s: Seq<char>) -> nat
    decreases s.len(),
{
    if s.len() == 0 {
        0
    } else {
        (digits_value(s.drop_last()) * 10 + digit_value(s.last())) as nat
    }
}

/// The text without its leading minus sign, if it has one.
pub open spec fn unsigned_part(s: Seq<char>) -> Seq<char> {
    if s.len() > 0 && s[0] == '-' {
        s.skip(1)
    } else {
        s
    }
}

/// The number that `s` writes: an optional `-`, digits, and optionally a
/// point followed by more digits. `None` for any other text, and where the
/// digits make a number too large to hold.
pub open spec fn parse_spec(s: Seq<char>) -> Option<DecimalView> {
    let negative = s.len() > 0 && s[0] == '-';
    let body = unsigned_part(s);
    let dot = first_index(body, '.');
    let whole = body.take(dot);
    let fraction = if dot < body.len() {
        body.skip(dot + 1)
    } else {
        Seq::empty()
    };
    let magnitude = digits_value(whole + fraction);
    if whole.len() > 0 && all_digits(whole) && all_digits(fraction) && (dot < body.len()
        ==> fraction.len() > 0) && magnitude <= MAX_MANTISSA && fraction.len() <= u32::MAX {
        Some(
            DecimalView {
                mantissa: if negative {
                    -(magnitude as int)
                } else {
                    magnitude as int
                },
                scale: fraction.len(),
            },
        )
    } else {
        None
    }
}

proof fn lemma_pow10_positive(n: nat)
    ensures
        pow10(n) >= 1,
    decreases n,
{
    if n > 0 {
        lemma_pow10_positive((n - 1) as nat);
    }
}

proof fn lemma_pow10_monotonic(a: nat, b: nat)
    requires
        a <= b,
    ensures
        pow10(a) <= pow10(b),
    decreases b,
{
    if a < b {
        lemma_pow10_monotonic(a, (b - 1) as nat);
        lemma_pow10_positive((b - 1) as nat);
    }
}

/// Ten to the power `n`, or `None` where it is out of range.
fn checked_pow10(n: u32) -> (r: Option<i128>)
    ensures
        r == if fits(pow10(n as nat) as int) {
            Some(pow10(n as nat) as i128)
        } else {
            None::<i128>
        },
{
    let mut p: i128 = 1;
    let mut i: u32 = 0;
    while i < n
        invariant
            i <= n,
            p == pow10(i as nat),
            1 <= p <= MAX_MANTISSA,
        decreases n - i,
    {
        match p.checked_mul(10) {
            Some(q) => {
                p = q;
            },
            None => {
                proof {
                    lemma_pow10_monotonic((i + 1) as nat, n as nat);
                }
                return None;
            },
        }
        i += 1;
    }
    Some(p)
}

impl View for Decimal {
    type V = DecimalView;

    closed spec fn view(&self) -> DecimalView {
        DecimalView { mantissa: self.mantissa as int, scale: self.scale as nat }
    }
}

impl Decimal {
    #[verifier::type_invariant]
    spec fn in_range(self) -> bool {
        fits(self.mantissa as int)
    }

    /// `mantissa / 10^scale`, where the mantissa is in range.
    pub fn new(mantissa: i128, scale: u32) -> (r: Option<Decimal>)
        ensures
            r matches Some(d) ==> d@ == (DecimalView {
                mantissa: mantissa as int,
                scale: scale as nat,
            }),
            r is Some <==> fits(mantissa as int),
    {
        if mantissa == i128::MIN {
            None
        } else {
            Some(Decimal { mantissa, scale })
        }
    }

    /// The whole number `n`.
    pub fn from_int(n: i64) -> (d: Decimal)
        ensures
            d@ == (DecimalView { mantissa: n as int, scale: 0 }),
    {
        Decimal { mantissa: n as i128, scale: 0 }
    }

    /// Zero.
    pub fn zero() -> (d: Decimal)
        ensures
            d@ == (DecimalView { mantissa: 0, scale: 0 }),
    {
        Decimal { mantissa: 0, scale: 0 }
    }

    /// The mantissa.
    pub fn mantissa(&self) -> (m: i128)
        ensures
            m == self@.mantissa,
            fits(m as int),
    {
        proof {
            use_type_invariant(self);
        }
        self.mantissa
    }

    /// The number of digits after the decimal point.
    pub fn scale(&self) -> (s: u32)
        ensures
            s == self@.scale,
    {
        self.scale
    }

    /// Whether the number is zero.
    pub fn is_zero(&self) -> (r: bool)
        ensures
            r == (self@.mantissa == 0),
    {
        self.mantissa == 0
    }

    /// Whether the number is above zero.
    pub fn is_positive(&self) -> (r: bool)
        ensures
            r == (self@.mantissa > 0),
    {
        self.mantissa > 0
    }

    /// Whether the two are the same mantissa at the same scale.
    pub fn same(&self, other: &Decimal) -> (r: bool)
        ensures
            r == (self@ == other@),
    {
        self.mantissa == other.mantissa && self.scale == other.scale
    }

    /// The number with its sign flipped.
    pub fn negate(&self) -> (r: Decimal)
        ensures
            r@ == neg_spec(self@),
    {
        proof {
            use_type_invariant(self);
        }
        Decimal { mantissa: -self.mantissa, scale: self.scale }
    }

    /// The mantissa at `scale` digits after the point.
    fn rescale(&self, scale: u32) -> (r: Option<i128>)
        requires
            scale >= self@.scale,
        ensures
            r == if can_rescale(self@, scale as nat) {
                Some(rescaled(self@, scale as nat) as i128)
            } else {
                None::<i128>
            },
    {
        let factor = match checked_pow10(scale - self.scale) {
            Some(f) => f,
            None => {
                return None;
            },
        };
        match self.mantissa.checked_mul(factor) {
            Some(m) => if m == i128::MIN {
                None
            } else {
                Some(m)
            },
            None => None,
        }
    }

    /// The sum, or `None` where it is out of range.
    pub fn checked_add(&self, other: &Decimal) -> (r: Option<Decimal>)
        ensures
            r matches Some(d) ==> add_spec(self@, other@) == Some(d@),
            r is None ==> add_spec(self@, other@) is None,
    {
        let scale = if self.scale >= other.scale {
            self.scale
        } else {
            other.scale
        };
        let a = match self.rescale(scale) {
            Some(a) => a,
            None => {
                return None;
            },
        };
        let b = match other.rescale(scale) {
            Some(b) => b,
            None => {
                return None;
            },
        };
        match a.checked_add(b) {
            Some(m) => if m == i128::MIN {
                None
            } else {
                Some(Decimal { mantissa: m, scale })
            },
            None => None,
        }
    }

    /// The product, or `None` where it is out of range.
    pub fn checked_mul(&self, other: &Decimal) -> (r: Option<Decimal>)
        ensures
            r matches Some(d) ==> mul_spec(self@, other@) == Some(d@),
            r is None ==> mul_spec(self@, other@) is None,
    {
        let scale = match self.scale.checked_add(other.scale) {
            Some(s) => s,
            None => {
                return None;
            },
        };
        match self.mantissa.checked_mul(other.mantissa) {
            Some(m) => if m == i128::MIN {
                None
            } else {
                Some(Decimal { mantissa: m, scale })
            },
            None => None,
        }
    }

    /// Reads a decimal number: an optional `-`, digits, and optionally a
    /// point followed by more digits.
    pub fn parse(text: &str) -> (r: Option<Decimal>)
        ensures
            r matches Some(d) ==> parse_spec(text@) == Some(d@),
            r is None ==> parse_spec(text@) is None,
    {
        let chars = to_chars(text);
        let n = chars.len();
        let negative = n > 0 && chars[0] == '-';
        let start: usize = if negative {
            1
        } else {
            0
        };
        let ghost body = unsigned_part(text@);
        assert(body =~= text@.skip(start as int));
        let mut magnitude: i128 = 0;
        let mut pos: usize = start;
        let mut dot: Option<usize> = None;
        let ghost mut seen: Seq<char> = Seq::empty();
        while pos < n
            invariant
                chars@ == text@,
                n == chars@.len(),
                start <= pos <= n,
                negative == (text@.len() > 0 && text@[0] == '-'),
                start == (if negative { 1int } else { 0int }),
                body == unsigned_part(text@),
                body == text@.skip(start as int),
                0 <= magnitude <= MAX_MANTISSA,
                magnitude == digits_value(seen),
                all_digits(seen),
                match dot {
                    None => seen == body.take(pos - start) && forall|j: int|
                        0 <= j < pos - start ==> body[j] != '.',
                    Some(d) => start <= d < pos && first_index(body, '.') == d - start && seen
                        == body.take(d - start) + body.subrange(d - start + 1, pos - start),
                },
            decreases n - pos,
        {
            let c = chars[pos];
            if c == '.' && dot.is_none() {
                proof {
                    crate::text::lemma_first_index_is(body, '.', pos - start);
                    assert(body.subrange(pos - start + 1, pos + 1 - start) =~= Seq::<char>::empty());
                    assert(seen =~= body.take(pos - start) + body.subrange(
                        pos - start + 1,
                        pos + 1 - start,
                    ));
                }
                dot = Some(pos);
            } else if '0' <= c && c <= '9' {
                let digit = (c as u32 - '0' as u32) as i128;
                let ghost next = seen.push(c);
                proof {
                    assert(next.drop_last() =~= seen);
                    assert(next.last() == c);
                    assert(digits_value(next) == magnitude * 10 + digit);
                    assert(body[pos - start] == c);
                    match dot {
                        None => {
                            assert(next =~= body.take(pos + 1 - start));
                        },
                        Some(d) => {
                            assert(next =~= body.take(d - start) + body.subrange(
                                d - start + 1,
                                pos + 1 - start,
                            ));
                        },
                    }
                }
                let grown = match magnitude.checked_mul(10) {
                    Some(m) => m.checked_add(digit),
                    None => None,
                };
                match grown {
                    Some(m) => {
                        magnitude = m;
                        proof {
                            seen = next;
                        }
                    },
                    None => {
                        proof {
                            lemma_parse_overflow(text@, start as int, pos as int, dot is Some, next);
                        }
                        return None;
                    },
                }
            } else {
                proof {
                    lemma_parse_bad_char(text@, start as int, pos as int);
                }
                return None;
            }
            pos += 1;
        }
        proof {
            lemma_first_index_bounds(body, '.');
        }
        match dot {
            None => {
                proof {
                    crate::text::lemma_first_index_is(body, '.', n - start);
                    assert(body.take(n - start) =~= body);
                    assert(body + Seq::<char>::empty() =~= body);
                }
                if n == start {
                    return None;
                }
                let mantissa = if negative {
                    -magnitude
                } else {
                    magnitude
                };
                proof {
                    let dot_at = first_index(body, '.');
                    assert(dot_at == body.len());
                    assert(body.take(dot_at) =~= seen);
                    assert(body.take(dot_at) + Seq::<char>::empty() =~= seen);
                    assert(all_digits(Seq::<char>::empty()));
                }
                Some(Decimal { mantissa, scale: 0 })
            },
            Some(d) => {
                proof {
                    assert(body.subrange(d - start + 1, n - start) =~= body.skip(d - start + 1));
                }
                if d == start || d + 1 == n || n - d - 1 > u32::MAX as usize {
                    return None;
                }
                let mantissa = if negative {
                    -magnitude
                } else {
                    magnitude
                };
                proof {
                    let dot_at = first_index(body, '.');
                    let whole = body.take(dot_at);
                    let fraction = body.skip(dot_at + 1);
                    assert(whole + fraction =~= seen);
                    assert forall|i: int| 0 <= i < whole.len() implies is_digit(
                        #[trigger] whole[i],
                    ) by {
                        assert(whole[i] == seen[i]);
                    }
                    assert forall|i: int| 0 <= i < fraction.len() implies is_digit(
                        #[trigger] fraction[i],
                    ) by {
                        assert(fraction[i] == seen[whole.len() + i]);
                    }
                }
                Some(Decimal { mantissa, scale: (n - d - 1) as u32 })
            },
        }
    }
}

/// A character that is neither a digit nor the first point makes the text no
/// number.
proof fn lemma_parse_bad_char(s: Seq<char>, start: int, pos: int)
    requires
        start == (if s.len() > 0 && s[0] == '-' { 1int } else { 0int }),
        start <= pos < s.len(),
        !is_digit(s[pos]),
        s[pos] != '.' || first_index(unsigned_part(s), '.') < pos - start,
    ensures
        parse_spec(s) is None,
{
    let body = unsigned_part(s);
    assert(body =~= s.skip(start));
    let dot = first_index(body, '.');
    lemma_first_index_bounds(body, '.');
    let whole = body.take(dot);
    let fraction = if dot < body.len() {
        body.skip(dot + 1)
    } else {
        Seq::empty()
    };
    let k = pos - start;
    assert(body[k] == s[pos]);
    if k < dot {
        assert(whole[k] == body[k]);
        assert(!all_digits(whole));
    } else {
        assert(k > dot);
        assert(fraction[k - dot - 1] == body[k]);
        assert(!all_digits(fraction));
    }
}

proof fn lemma_digits_value_monotonic(s: Seq<char>, t: Seq<char>)
    requires
        all_digits(s),
        all_digits(t),
    ensures
        digits_value(s) <= digits_value(s + t),
    decreases t.len(),
{
    if t.len() == 0 {
        assert(s + t =~= s);
    } else {
        let u = s + t;
        assert(u.drop_last() =~= s + t.drop_last());
        assert(u.last() == t.last());
        assert(is_digit(t[t.len() - 1]));
        assert forall|i: int| 0 <= i < t.drop_last().len() implies is_digit(
            #[trigger] t.drop_last()[i],
        ) by {
            assert(t.drop_last()[i] == t[i]);
        }
        lemma_digits_value_monotonic(s, t.drop_last());
    }
}

/// Digits that already make a number out of range make the text no number.
proof fn lemma_parse_overflow(s: Seq<char>, start: int, pos: int, dotted: bool, prefix: Seq<char>)
    requires
        start == (if s.len() > 0 && s[0] == '-' { 1int } else { 0int }),
        start <= pos < s.len(),
        digits_value(prefix) > MAX_MANTISSA,
        all_digits(prefix),
        ({
            let body = unsigned_part(s);
            let dot = first_index(body, '.');
            if dotted {
                dot < pos - start && prefix == body.take(dot) + body.subrange(
                    dot + 1,
                    pos + 1 - start,
                )
            } else {
                prefix == body.take(pos + 1 - start) && forall|j: int|
                    0 <= j <= pos - start ==> body[j] != '.'
            }
        }),
    ensures
        parse_spec(s) is None,
{
    let body = unsigned_part(s);
    assert(body =~= s.skip(start));
    let dot = first_index(body, '.');
    lemma_first_index_bounds(body, '.');
    let whole = body.take(dot);
    let fraction = if dot < body.len() {
        body.skip(dot + 1)
    } else {
        Seq::empty()
    };
    if all_digits(whole) && all_digits(fraction) {
        let all = whole + fraction;
        let k = pos + 1 - start;
        if dotted {
            let rest = body.skip(k);
            assert(all =~= prefix + rest);
            assert forall|i: int| 0 <= i < rest.len() implies is_digit(#[trigger] rest[i]) by {
                assert(rest[i] == fraction[k - dot - 1 + i]);
            }
            lemma_digits_value_monotonic(prefix, rest);
        } else {
            assert(dot >= k);
            let rest = whole.skip(k) + fraction;
            assert(all =~= prefix + rest);
            assert forall|i: int| 0 <= i < rest.len() implies is_digit(#[trigger] rest[i]) by {
                if i < whole.len() - k {
                    assert(rest[i] == whole[k + i]);
                } else {
                    assert(rest[i] == fraction[i - (whole.len() - k)]);
                }
            }
            lemma_digits_value_monotonic(prefix, rest);
        }
    }
}

/// Powers of ten multiply as their exponents add.
pub proof fn lemma_pow10_add(a: nat, b: nat)
    ensures
        pow10(a + b) == pow10(a) * pow10(b),
    decreases a,
{
    if a == 0 {
        assert(pow10(0) * pow10(b) == pow10(b)) by (nonlinear_arith)
            requires
                pow10(0) == 1,
        ;
    } else {
        lemma_pow10_add((a - 1) as nat, b);
        let x = pow10((a - 1) as nat);
        let y = pow10(b);
        assert(pow10(a + b) == 10 * pow10((a - 1 + b) as nat));
        assert(10 * (x * y) == (10 * x) * y) by (nonlinear_arith);
    }
}

/// Writing a number at a larger scale in two steps is writing it there in
/// one.
pub proof fn lemma_rescaled_twice(d: DecimalView, middle: nat, scale: nat)
    requires
        d.scale <= middle <= scale,
    ensures
        rescaled(d, scale) == rescaled(d, middle) * pow10((scale - middle) as nat),
{
    let a = (middle - d.scale) as nat;
    let b = (scale - middle) as nat;
    lemma_pow10_add(a, b);
    assert((scale - d.scale) as nat == a + b);
    let m = d.mantissa;
    let x = pow10(a);
    let y = pow10(b);
    assert(m * (x * y) == (m * x) * y) by (nonlinear_arith);
}

/// A sum is at the larger of the two scales, and at any scale from there on
/// its mantissa is the sum of the two mantissas at that scale.
pub proof fn lemma_add_value(a: DecimalView, b: DecimalView, scale: nat)
    requires
        add_spec(a, b) is Some,
        scale >= add_spec(a, b)->0.scale,
    ensures
        add_spec(a, b)->0.scale == common_scale(a, b),
        rescaled(add_spec(a, b)->0, scale) == rescaled(a, scale) + rescaled(b, scale),
{
    let c = add_spec(a, b)->0;
    let s = common_scale(a, b);
    lemma_rescaled_twice(a, s, scale);
    lemma_rescaled_twice(b, s, scale);
    let ra = rescaled(a, s);
    let rb = rescaled(b, s);
    let p = pow10((scale - s) as nat);
    assert(c.mantissa == ra + rb);
    assert(pow10((s - c.scale) as nat) == 1);
    assert((ra + rb) * p == ra * p + rb * p) by (nonlinear_arith);
    assert(rescaled(c, scale) == (ra + rb) * p);
}

/// The mantissa of a number with its sign flipped is, at any scale, the
/// mantissa of the number with its sign flipped.
pub proof fn lemma_neg_value(d: DecimalView, scale: nat)
    ensures
        rescaled(neg_spec(d), scale) == -rescaled(d, scale),
{
    let m = d.mantissa;
    let p = pow10((scale - d.scale) as nat);
    assert((-m) * p == -(m * p)) by (nonlinear_arith);
}

} // verus!
