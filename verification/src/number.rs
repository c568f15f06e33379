//! Exact decimal numbers for JSON values.
//!
//! A number is `mantissa / 10^scale` with `scale <= 18` and a mantissa of
//! magnitude at most `u64::MAX`, together with a flag
//! that says whether it was written as a floating-point literal.  Integer
//! numbers always have scale 0.
use vstd::prelude::*;

use crate::text::{
    char_digit, dec, dec_width, digit_char_exec, find_char, find_char_from, push_char, push_str,
    string_from_chars, to_chars, u128_to_string,
};

verus! {

/// `10^n`.
pub open spec fn pow10(n: nat) -> int
    decreases n,
{
    if n == 0 {
        1
    } else {
        10 * pow10((n - 1) as nat)
    }
}

/// Absolute value.
pub open spec fn abs(x: int) -> nat {
    if x < 0 {
        (-x) as nat
    } else {
        x as nat
    }
}

/// Whether every character is a decimal digit.
pub open spec fn all_digits(s: Seq<char>) -> bool {
    forall|i: int| 0 <= i < s.len() ==> #[trigger] char_digit(s[i]) is Some
}

/// The value of a string of decimal digits.
pub open spec fn digits_value(s: Seq<char>) -> nat
    decreases s.len(),
{
    if s.len() == 0 {
        0
    } else {
        digits_value(s.drop_last()) * 10 + match char_digit(s.last()) {
            Some(d) => d,
            None => 0,
        }
    }
}

/// `10^(a + b) == 10^a * 10^b`.
pub proof fn lemma_pow10_add(a: nat, b: nat)
    ensures
        pow10(a + b) == pow10(a) * pow10(b),
        pow10(a) >= 1,
        pow10(b) >= 1,
    decreases a,
{
    lemma_pow10_pos(b);
    if a > 0 {
        lemma_pow10_add((a - 1) as nat, b);
        assert(pow10(a + b) == 10 * pow10((a - 1 + b) as nat));
        assert(10 * (pow10((a - 1) as nat) * pow10(b)) == (10 * pow10((a - 1) as nat)) * pow10(b)) by (nonlinear_arith);
    }
}

/// `10^n` is monotonic.
pub proof fn lemma_pow10_mono(a: nat, b: nat)
    requires
        a <= b,
    ensures
        1 <= pow10(a) <= pow10(b),
    decreases b,
{
    lemma_pow10_pos(a);
    if a < b {
        lemma_pow10_mono(a, (b - 1) as nat);
    }
}

/// `10^n` is monotonic, and `10^18` fits in a `u64`.
pub proof fn lemma_pow10_le(a: nat, b: nat)
    requires
        a <= b,
    ensures
        1 <= pow10(a) <= pow10(b),
        b <= 18 ==> pow10(b) <= 1000000000000000000,
{
    lemma_pow10_mono(a, b);
    if b <= 18 {
        assert(pow10(18) == 1000000000000000000) by {
            reveal_with_fuel(pow10, 19);
        }
        lemma_pow10_mono(b, 18);
    }
}

/// `10^s` for `s <= 18`.
pub fn pow10_u64(s: u32) -> (r: u64)
    requires
        s <= 18,
    ensures
        r == pow10(s as nat),
{
    let mut r: u64 = 1;
    let mut i: u32 = 0;
    while i < s
        invariant
            i <= s <= 18,
            r == pow10(i as nat),
        decreases s - i,
    {
        proof {
            lemma_pow10_le((i + 1) as nat, 18);
        }
        r = r * 10;
        i += 1;
    }
    r
}

/// `dec_width(n, w)` as a vector.
pub fn dec_width_exec(n: u64, w: u32) -> (r: Vec<char>)
    ensures
        r@ == dec_width(n as nat, w as nat),
    decreases w,
{
    if w == 0 {
        Vec::new()
    } else {
        let mut r = dec_width_exec(n / 10, w - 1);
        r.push(digit_char_exec((n % 10) as u32));
        r
    }
}

/// Removes trailing `'0'` characters.
pub fn trim_zeros_exec(v: &mut Vec<char>)
    ensures
        final(v)@ == trim_zeros(old(v)@),
{
    while v.len() > 0 && v[v.len() - 1] == '0'
        invariant
            trim_zeros(v@) == trim_zeros(old(v)@),
        decreases v.len(),
    {
        v.pop();
    }
}

/// `10^n >= 1`.
pub proof fn lemma_pow10_pos(n: nat)
    ensures
        pow10(n) >= 1,
    decreases n,
{
    if n > 0 {
        lemma_pow10_pos((n - 1) as nat);
    }
}

/// The value of an unsigned integer's `from_str`: an optional `+`, then
/// one or more decimal digits whose value is at most `max`.
pub open spec fn parse_uint_spec(s: Seq<char>, max: nat) -> Option<nat> {
    let ds = if s.len() > 0 && s[0] == '+' { s.skip(1) } else { s };
    if ds.len() > 0 && all_digits(ds) && digits_value(ds) <= max {
        Some(digits_value(ds))
    } else {
        None
    }
}

/// A prefix of a digit string has no larger value.
pub proof fn lemma_digits_prefix_le(s: Seq<char>, k: nat)
    requires
        k <= s.len(),
    ensures
        digits_value(s.take(k as int)) <= digits_value(s),
{
    lemma_digits_concat(s.take(k as int), s.skip(k as int));
    assert(s.take(k as int) + s.skip(k as int) == s);
    let a = digits_value(s.take(k as int));
    let p = pow10((s.len() - k) as nat);
    assert(a * p >= a) by (nonlinear_arith)
        requires
            p >= 1,
            a >= 0,
    ;
}

/// `parse_uint_spec(cs[from..to], max)`.
pub fn parse_uint_chars(cs: &Vec<char>, from: usize, to: usize, max: u64) -> (r: Option<u64>)
    requires
        from <= to <= cs.len(),
    ensures
        r matches Some(v) ==> parse_uint_spec(cs@.subrange(from as int, to as int), max as nat) == Some(v as nat),
        r is None ==> parse_uint_spec(cs@.subrange(from as int, to as int), max as nat) is None,
{
    let ghost s = cs@.subrange(from as int, to as int);
    let start = if from < to && cs[from] == '+' { from + 1 } else { from };
    let ghost ds = cs@.subrange(start as int, to as int);
    assert(ds == (if s.len() > 0 && s[0] == '+' { s.skip(1) } else { s }));
    if start == to {
        return None;
    }
    let mut acc: u64 = 0;
    let mut i = start;
    while i < to
        invariant
            start <= i <= to <= cs.len(),
            start < to,
            from <= start,
            s == cs@.subrange(from as int, to as int),
            ds == (if s.len() > 0 && s[0] == '+' { s.skip(1) } else { s }),
            ds == cs@.subrange(start as int, to as int),
            all_digits(cs@.subrange(start as int, i as int)),
            acc as nat == digits_value(cs@.subrange(start as int, i as int)),
            acc <= max,
        decreases to - i,
    {
        let c = cs[i];
        let ghost pre = cs@.subrange(start as int, i as int);
        let ghost next = cs@.subrange(start as int, i + 1);
        assert(next.drop_last() == pre);
        assert(next.last() == c);
        if !('0' <= c && c <= '9') {
            assert(ds[i - start] == c);
            assert(char_digit(ds[i - start]) is None);
            return None;
        }
        let d = (c as u32 - '0' as u32) as u64;
        assert forall|j: int| 0 <= j < next.len() implies #[trigger] char_digit(next[j]) is Some by {
            if j < pre.len() {
                assert(next[j] == pre[j]);
            }
        }
        if d > max || acc > (max - d) / 10 {
            proof {
                lemma_digits_prefix_le(ds, (i + 1 - start) as nat);
                assert(ds.take((i + 1 - start) as int) == next);
            }
            return None;
        }
        acc = acc * 10 + d;
        i += 1;
    }
    assert(cs@.subrange(start as int, to as int) == ds);
    Some(acc)
}

/// Drops trailing `'0'` characters.
pub open spec fn trim_zeros(s: Seq<char>) -> Seq<char>
    decreases s.len(),
{
    if s.len() > 0 && s.last() == '0' {
        trim_zeros(s.drop_last())
    } else {
        s
    }
}

/// What `serde_json` writes for a number given as JSON text: the text read
/// as a `serde_json::Number` and written back; `None` when it does not read.
pub uninterp spec fn serde_number_text(text: Seq<char>) -> Option<Seq<char>>;

/// Reads `text` with `serde_json::from_str::<serde_json::Number>` and writes
/// the number back with its `Display` (a double is written through `zmij`).
/// The contract names the outcome, which depends on the text alone.
#[verifier::external_body]
fn serde_number_text_exec(text: &str) -> (r: Option<String>)
    ensures
        r is Some <==> serde_number_text(text@) is Some,
        r matches Some(t) ==> serde_number_text(text@) == Some(t@),
{
    match serde_json::from_str::<serde_json::Number>(text) {
        Ok(n) => Some(n.to_string()),
        Err(_) => None,
    }
}

/// The text that `serde_json` wrote for a number, or the number's own
/// literal when it wrote none.
pub fn written_or_literal(written: Option<String>, literal: String) -> (r: String)
    ensures
        r@ == match written {
            Some(t) => t@,
            None => literal@,
        },
{
    match written {
        Some(t) => t,
        None => literal,
    }
}

/// A JSON number: `mantissa / 10^scale`.
#[derive(Clone, Copy, Debug)]
pub struct JsonNumber {
    mantissa: i128,
    scale: u32,
    float: bool,
}

/// The text of a decimal literal `[-]digits[.digits]`, split into its parts:
/// whether it is negative, the integer digits and the fraction digits.
pub open spec fn decimal_parts(s: Seq<char>) -> Option<(bool, Seq<char>, Seq<char>)> {
    let neg = s.len() > 0 && s[0] == '-';
    let body = if neg { s.skip(1) } else { s };
    match find_char(body, '.') {
        Some(k) => {
            let ip = body.take(k as int);
            let fp = body.skip(k as int + 1);
            if ip.len() > 0 && fp.len() > 0 && all_digits(ip) && all_digits(fp) {
                Some((neg, ip, fp))
            } else {
                None
            }
        },
        None => if body.len() > 0 && all_digits(body) {
            Some((neg, body, Seq::empty()))
        } else {
            None
        },
    }
}

/// Digit strings read left to right: the value of `s + t`.
pub proof fn lemma_digits_concat(s: Seq<char>, t: Seq<char>)
    ensures
        digits_value(s + t) == digits_value(s) * pow10(t.len()) + digits_value(t),
        pow10(t.len()) >= 1,
    decreases t.len(),
{
    if t.len() == 0 {
        assert(s + t == s);
    } else {
        lemma_digits_concat(s, t.drop_last());
        assert((s + t).drop_last() == s + t.drop_last());
        assert((s + t).last() == t.last());
        let a = digits_value(s);
        let p = pow10((t.len() - 1) as nat);
        let b = digits_value(t.drop_last());
        assert((a * p + b) * 10 == a * (10 * p) + b * 10) by (nonlinear_arith);
    }
}

impl JsonNumber {
    #[verifier::type_invariant]
    spec fn inv(self) -> bool {
        &&& self.scale <= 18
        &&& -0xffff_ffff_ffff_ffff <= self.mantissa <= 0xffff_ffff_ffff_ffff
        &&& !self.float ==> self.scale == 0
    }

    /// The mantissa.
    pub closed spec fn mant(self) -> int {
        self.mantissa as int
    }

    /// The decimal scale: the value is `mant() / 10^exp10()`.
    pub closed spec fn exp10(self) -> nat {
        self.scale as nat
    }

    /// Whether the number was written as a floating-point literal.
    pub closed spec fn is_float(self) -> bool {
        self.float
    }

    /// Numerator of `self` over the common denominator with `other`.
    pub open spec fn scaled_to(self, other: JsonNumber) -> int {
        self.mant() * pow10(other.exp10())
    }

    /// `self < other` as rational numbers.
    pub open spec fn lt_spec(self, other: JsonNumber) -> bool {
        self.scaled_to(other) < other.scaled_to(self)
    }

    /// `self == other` as rational numbers.
    pub open spec fn same_value(self, other: JsonNumber) -> bool {
        self.scaled_to(other) == other.scaled_to(self)
    }

    /// Whether the value has no fractional part.
    pub open spec fn is_whole(self) -> bool {
        abs(self.mant()) as int % pow10(self.exp10()) == 0
    }

    /// The non-negative integer literal, as `as_u64` reads it.
    pub open spec fn as_u64_spec(self) -> Option<nat> {
        if !self.is_float() && self.mant() >= 0 {
            Some(self.mant() as nat)
        } else {
            None
        }
    }

    /// The value as a count: a non-negative integer literal, or a
    /// non-negative floating literal with no fractional part.
    pub open spec fn count_value(self) -> Option<nat> {
        if self.mant() >= 0 && self.is_whole() {
            Some((self.mant() / pow10(self.exp10())) as nat)
        } else {
            None
        }
    }

    /// Whether `self / divisor` is an integer (and `divisor` is not zero).
    pub open spec fn is_multiple_of_spec(self, divisor: JsonNumber) -> bool {
        divisor.mant() != 0 && abs(self.scaled_to(divisor)) % abs(divisor.scaled_to(self)) == 0
    }

    /// Decimal text of the value as a plain number: an optional minus sign,
    /// the integer part, and the fraction part without trailing zeros.
    pub open spec fn plain_text(self) -> Seq<char> {
        let a = abs(self.mant());
        let p = pow10(self.exp10()) as nat;
        let sign = if self.mant() < 0 { seq!['-'] } else { Seq::<char>::empty() };
        let frac = a % p;
        sign + dec(a / p) + if frac == 0 {
            Seq::<char>::empty()
        } else {
            seq!['.'] + trim_zeros(dec_width(frac, self.exp10()))
        }
    }

    /// The number as a literal that reads back as a floating number:
    /// `plain_text`, with `.0` added when it has no fraction part.
    pub open spec fn float_literal_text(self) -> Seq<char> {
        if abs(self.mant()) % (pow10(self.exp10()) as nat) == 0 {
            self.plain_text() + seq!['.', '0']
        } else {
            self.plain_text()
        }
    }

    /// The JSON text of the number: integers as digits; a floating literal
    /// as `serde_json` writes the double that its literal reads as (the
    /// literal itself if it does not read).
    pub open spec fn json_text(self) -> Seq<char> {
        if !self.is_float() {
            self.plain_text()
        } else {
            match serde_number_text(self.float_literal_text()) {
                Some(t) => t,
                None => self.float_literal_text(),
            }
        }
    }

    /// An integer number.
    pub fn from_i64(i: i64) -> (r: JsonNumber)
        ensures
            r.mant() == i,
            r.exp10() == 0,
            !r.is_float(),
    {
        JsonNumber { mantissa: i as i128, scale: 0, float: false }
    }

    /// A non-negative integer number.
    pub fn from_u64(u: u64) -> (r: JsonNumber)
        ensures
            r.mant() == u,
            r.exp10() == 0,
            !r.is_float(),
    {
        JsonNumber { mantissa: u as i128, scale: 0, float: false }
    }

    /// A floating number `mantissa / 10^scale`; `None` when `scale > 18`.
    pub fn from_decimal(mantissa: i64, scale: u32) -> (r: Option<JsonNumber>)
        ensures
            r is Some <==> scale <= 18,
            r matches Some(n) ==> n.mant() == mantissa && n.exp10() == scale && n.is_float(),
    {
        if scale <= 18 {
            Some(JsonNumber { mantissa: mantissa as i128, scale, float: true })
        } else {
            None
        }
    }

    /// Reads a floating number written as `[-]digits[.digits]`.
    /// `None` when the text is not of that form, when it has more than 18
    /// fraction digits, or when its digits do not fit in a `u64`.
    pub fn parse_float(s: &str) -> (r: Option<JsonNumber>)
        ensures
            r is Some <==> (decimal_parts(s@) matches Some((neg, ip, fp))
                && fp.len() <= 18 && digits_value(ip + fp) <= u64::MAX),
            r matches Some(n) ==> (decimal_parts(s@) matches Some((neg, ip, fp))
                && n.is_float() && n.exp10() == fp.len()
                && n.mant() == (if neg { -digits_value(ip + fp) } else { digits_value(ip + fp) as int })),
    {
        let cs = to_chars(s);
        let n = cs.len();
        let neg = n > 0 && cs[0] == '-';
        let start: usize = if neg { 1 } else { 0 };
        let ghost body = if neg { cs@.skip(1) } else { cs@ };
        assert(body == cs@.skip(start as int));
        let dot = find_char_from(&cs, start, '.');
        let (int_end, frac_start) = match dot {
            Some(k) => (k, k + 1),
            None => (n, n),
        };
        proof {
            if let Some(k) = dot {
                assert(body.take(k - start) == cs@.subrange(start as int, k as int));
                assert(body.skip(k - start + 1) == cs@.subrange(k + 1, n as int));
            } else {
                assert(body == cs@.subrange(start as int, n as int));
            }
        }
        let int_ok = int_end > start && Self::digits_ok(&cs, start, int_end);
        let frac_ok = match dot {
            Some(_) => frac_start < n && Self::digits_ok(&cs, frac_start, n),
            None => true,
        };
        if !int_ok || !frac_ok {
            return None;
        }
        if n - frac_start > 18 {
            return None;
        }
        let ghost ip = cs@.subrange(start as int, int_end as int);
        let ghost fp = cs@.subrange(frac_start as int, n as int);
        let v1 = Self::digits_acc(&cs, start, int_end, 0);
        proof {
            assert(ip == Seq::<char>::empty() + ip);
            lemma_digits_concat(Seq::<char>::empty(), ip);
            lemma_digits_concat(ip, fp);
            assert(digits_value(ip) * pow10(fp.len()) >= digits_value(ip)) by (nonlinear_arith)
                requires pow10(fp.len()) >= 1;
        }
        let v1 = match v1 {
            Some(v) => v,
            None => return None,
        };
        let v2 = Self::digits_acc(&cs, frac_start, n, v1);
        let v2 = match v2 {
            Some(v) => v,
            None => return None,
        };
        let m: i128 = if neg { -(v2 as i128) } else { v2 as i128 };
        Some(JsonNumber { mantissa: m, scale: (n - frac_start) as u32, float: true })
    }

    /// Reads the digits `cs[from..to]` after the digits already read into `acc`.
    fn digits_acc(cs: &Vec<char>, from: usize, to: usize, acc: u64) -> (r: Option<u64>)
        requires
            from <= to <= cs.len(),
            acc <= u64::MAX,
            all_digits(cs@.subrange(from as int, to as int)),
        ensures
            ({
                let v = acc * pow10((to - from) as nat) + digits_value(cs@.subrange(from as int, to as int));
                &&& r is Some <==> v <= u64::MAX
                &&& r matches Some(x) ==> x == v
            }),
    {
        let ghost sub = cs@.subrange(from as int, to as int);
        let mut cur = acc;
        let mut i = from;
        while i < to
            invariant
                from <= i <= to <= cs.len(),
                sub == cs@.subrange(from as int, to as int),
                all_digits(sub),
                cur <= u64::MAX,
                cur as int == acc * pow10((i - from) as nat) + digits_value(cs@.subrange(from as int, i as int)),
            decreases to - i,
        {
            let c = cs[i];
            assert(char_digit(sub[i - from]) is Some);
            assert(sub[i - from] == c);
            let d = (c as u32 - '0' as u32) as u64;
            let ghost pre = cs@.subrange(from as int, i as int);
            proof {
                let next = cs@.subrange(from as int, i + 1);
                assert(next.drop_last() == pre);
                assert(next.last() == c);
                let p = pow10((i - from) as nat);
                assert(acc * (10 * p) == (acc * p) * 10) by (nonlinear_arith);
            }
            if cur > (18446744073709551615u64 - d) / 10 {
                proof {
                    let next = cs@.subrange(from as int, i + 1);
                    let rest = cs@.subrange(i + 1, to as int);
                    assert(sub == next + rest);
                    lemma_digits_concat(next, rest);
                    let pa = pow10((to - from) as nat);
                    let q = pow10((to - i - 1) as nat);
                    let hd = (cur * 10 + d) as int;
                    lemma_pow10_add((i + 1 - from) as nat, (to - i - 1) as nat);
                    assert(acc * pa == (acc * pow10((i + 1 - from) as nat)) * q) by (nonlinear_arith)
                        requires pa == pow10((i + 1 - from) as nat) * q;
                    assert(hd * q >= hd) by (nonlinear_arith) requires q >= 1, hd >= 0;
                    assert(acc * pa + digits_value(sub) == hd * q + digits_value(rest)) by (nonlinear_arith)
                        requires
                            acc * pa == (acc * pow10((i + 1 - from) as nat)) * q,
                            hd == acc * pow10((i + 1 - from) as nat) + digits_value(next),
                            digits_value(sub) == digits_value(next) * q + digits_value(rest);
                }
                return None;
            }
            cur = cur * 10 + d;
            i += 1;
        }
        Some(cur)
    }

    /// Whether the number was written as a floating-point literal.
    pub fn is_float_literal(&self) -> (r: bool)
        ensures
            r == self.is_float(),
    {
        self.float
    }

    fn mant_abs(&self) -> (r: u64)
        ensures
            r == abs(self.mant()),
    {
        proof {
            use_type_invariant(self);
        }
        if self.mantissa < 0 {
            (-self.mantissa) as u64
        } else {
            self.mantissa as u64
        }
    }

    /// `self.mant() * 10^other.exp10()` computed exactly.
    fn scaled(&self, other: &JsonNumber) -> (r: i128)
        ensures
            r == self.scaled_to(*other),
            -18446744073709551615 * 1000000000000000000 <= r <= 18446744073709551615 * 1000000000000000000,
    {
        proof {
            use_type_invariant(self);
            use_type_invariant(other);
            lemma_pow10_le(other.exp10(), 18);
        }
        let p = pow10_u64(other.scale) as i128;
        let m = self.mantissa;
        assert(-18446744073709551615 * 1000000000000000000 <= m * p <= 18446744073709551615 * 1000000000000000000)
            by (nonlinear_arith)
            requires
                -18446744073709551615 <= m <= 18446744073709551615,
                1 <= p <= 1000000000000000000;
        m * p
    }

    /// `self < other` as numbers.
    pub fn lt(&self, other: &JsonNumber) -> (r: bool)
        ensures
            r == self.lt_spec(*other),
    {
        self.scaled(other) < other.scaled(self)
    }

    /// Whether both numbers have the same value.
    pub fn value_eq(&self, other: &JsonNumber) -> (r: bool)
        ensures
            r == self.same_value(*other),
    {
        self.scaled(other) == other.scaled(self)
    }

    /// Whether the number is zero.
    pub fn is_zero(&self) -> (r: bool)
        ensures
            r == (self.mant() == 0),
    {
        self.mantissa == 0
    }

    /// Whether the value has no fractional part.
    pub fn is_whole_exec(&self) -> (r: bool)
        ensures
            r == self.is_whole(),
    {
        proof {
            use_type_invariant(self);
            lemma_pow10_le(self.exp10(), 18);
        }
        self.mant_abs() % pow10_u64(self.scale) == 0
    }

    /// The number as a `u64`, when it is a non-negative integer literal.
    pub fn as_u64(&self) -> (r: Option<u64>)
        ensures
            r matches Some(x) ==> self.as_u64_spec() == Some(x as nat),
            r is None ==> self.as_u64_spec() is None,
    {
        proof {
            use_type_invariant(self);
        }
        if !self.float && self.mantissa >= 0 {
            Some(self.mantissa as u64)
        } else {
            None
        }
    }

    /// The value as a count (a non-negative whole number).
    pub fn count_value_exec(&self) -> (r: Option<u64>)
        ensures
            r matches Some(x) ==> self.count_value() == Some(x as nat),
            r is None ==> self.count_value() is None,
    {
        proof {
            use_type_invariant(self);
            lemma_pow10_le(self.exp10(), 18);
        }
        if self.mantissa >= 0 && self.is_whole_exec() {
            let p = pow10_u64(self.scale);
            Some(self.mantissa as u64 / p)
        } else {
            None
        }
    }

    /// Whether `self / divisor` is an integer (and `divisor` is not zero).
    pub fn is_multiple_of(&self, divisor: &JsonNumber) -> (r: bool)
        ensures
            r == self.is_multiple_of_spec(*divisor),
    {
        if divisor.mantissa == 0 {
            return false;
        }
        let x = self.scaled(divisor);
        let y = divisor.scaled(self);
        proof {
            use_type_invariant(self);
            lemma_pow10_le(self.exp10(), 18);
            assert(y != 0) by (nonlinear_arith)
                requires y == divisor.mant() * pow10(self.exp10()), divisor.mant() != 0, pow10(self.exp10()) >= 1;
        }
        let ax: u128 = if x < 0 { (-x) as u128 } else { x as u128 };
        let ay: u128 = if y < 0 { (-y) as u128 } else { y as u128 };
        ax % ay == 0
    }

    /// The number written as a plain decimal (see `plain_text`).
    pub fn plain_text_exec(&self) -> (r: String)
        ensures
            r@ == self.plain_text(),
    {
        proof {
            use_type_invariant(self);
            lemma_pow10_le(self.exp10(), 18);
        }
        let a = self.mant_abs();
        let p = pow10_u64(self.scale);
        let mut r = String::new();
        if self.mantissa < 0 {
            push_char(&mut r, '-');
        }
        let ip = u128_to_string((a / p) as u128);
        push_str(&mut r, ip.as_str());
        let frac = a % p;
        if frac != 0 {
            push_char(&mut r, '.');
            let mut digits = dec_width_exec(frac, self.scale);
            trim_zeros_exec(&mut digits);
            let t = string_from_chars(&digits, 0, digits.len());
            assert(digits@.subrange(0, digits@.len() as int) == digits@);
            push_str(&mut r, t.as_str());
        }
        proof {
            let sign = if self.mant() < 0 { seq!['-'] } else { Seq::<char>::empty() };
            let tail = if frac == 0 {
                Seq::<char>::empty()
            } else {
                seq!['.'] + trim_zeros(dec_width(frac as nat, self.exp10()))
            };
            assert(r@ == sign + dec((a / p) as nat) + tail);
        }
        r
    }

    /// The number as a floating literal (see `float_literal_text`).
    pub fn float_literal_text_exec(&self) -> (r: String)
        ensures
            r@ == self.float_literal_text(),
    {
        proof {
            use_type_invariant(self);
            lemma_pow10_le(self.exp10(), 18);
        }
        let mut r = self.plain_text_exec();
        if self.mant_abs() % pow10_u64(self.scale) == 0 {
            push_char(&mut r, '.');
            push_char(&mut r, '0');
            assert(r@ == self.plain_text() + seq!['.', '0']);
        }
        r
    }

    /// The JSON text of the number (see `json_text`).
    pub fn json_text_exec(&self) -> (r: String)
        ensures
            r@ == self.json_text(),
    {
        if !self.float {
            return self.plain_text_exec();
        }
        let literal = self.float_literal_text_exec();
        let written = serde_number_text_exec(literal.as_str());
        written_or_literal(written, literal)
    }

    fn digits_ok(cs: &Vec<char>, from: usize, to: usize) -> (r: bool)
        requires
            from <= to <= cs.len(),
        ensures
            r == all_digits(cs@.subrange(from as int, to as int)),
    {
        let mut i = from;
        while i < to
            invariant
                from <= i <= to <= cs.len(),
                forall|j: int| from <= j < i ==> char_digit(cs@[j]) is Some,
            decreases to - i,
        {
            if !('0' <= cs[i] && cs[i] <= '9') {
                assert(char_digit(cs@.subrange(from as int, to as int)[i - from]) is None);
                return false;
            }
            i += 1;
        }
        assert forall|j: int| 0 <= j < (to - from) implies #[trigger] char_digit(cs@.subrange(from as int, to as int)[j]) is Some by {
            assert(cs@.subrange(from as int, to as int)[j] == cs@[from + j]);
        }
        true
    }
}

} // verus!
