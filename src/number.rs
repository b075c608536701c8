//! Exact rational numbers, the numeric values of the language.
//!
//! A number is a fraction whose numerator and denominator are naturals of
//! any size (`natural`), with a sign. Arithmetic is exact and never fails,
//! except division by zero, which the interpreter reports. Fractions are
//! not reduced; equality and order compare values.
use vstd::prelude::*;
use crate::natural::{
    all_digit_chars, digits_of, digits_to_text, is_digits, is_zero, nat_add, nat_divmod,
    nat_mul, nat_sub, nat_to_u128, push_nat, text_to_digits, val, lemma_pow10_step,
};
use crate::text::{nat_digits, push_zeros};

verus! {

/// Number of fractional digits shown when a number is written out.
pub const SHOWN_DIGITS: usize = 16;

pub open spec fn abs(n: int) -> nat {
    if n < 0 {
        (-n) as nat
    } else {
        n as nat
    }
}

pub open spec fn pow10(k: nat) -> nat
    decreases k,
{
    if k == 0 {
        1
    } else {
        10 * pow10((k - 1) as nat)
    }
}

/// A rational number `n / d`; a number's denominator is positive.
pub struct Rat {
    pub n: int,
    pub d: int,
}

impl Rat {
    pub open spec fn add(self, o: Rat) -> Rat {
        Rat { n: self.n * o.d + o.n * self.d, d: self.d * o.d }
    }

    pub open spec fn sub(self, o: Rat) -> Rat {
        Rat { n: self.n * o.d - o.n * self.d, d: self.d * o.d }
    }

    pub open spec fn mul(self, o: Rat) -> Rat {
        Rat { n: self.n * o.n, d: self.d * o.d }
    }

    /// Division by a non-zero number; the denominator stays positive.
    pub open spec fn div(self, o: Rat) -> Rat {
        if o.n < 0 {
            Rat { n: -(self.n * o.d), d: -(self.d * o.n) }
        } else {
            Rat { n: self.n * o.d, d: self.d * o.n }
        }
    }

    pub open spec fn neg(self) -> Rat {
        Rat { n: -self.n, d: self.d }
    }

    pub open spec fn is_zero(self) -> bool {
        self.n == 0
    }

    /// `self` and `o` stand for the same rational.
    pub open spec fn same_value(self, o: Rat) -> bool {
        self.n * o.d == o.n * self.d
    }

    /// `self` is below `o`, for positive denominators.
    pub open spec fn below(self, o: Rat) -> bool {
        self.n * o.d < o.n * self.d
    }

    /// The text of a number: its sign, its integer part, and its first
    /// sixteen fractional digits (truncated) without trailing zeros, the
    /// point left out when no fractional digit remains.
    pub open spec fn text(self) -> Seq<char> {
        let a = abs(self.n);
        let d = self.d as nat;
        let ip = a / d;
        let fq = (a % d) * pow10(SHOWN_DIGITS as nat) / d;
        let (f, w) = strip_zeros(fq, SHOWN_DIGITS as nat);
        let sign = if self.n < 0 && (ip > 0 || fq > 0) {
            "-"@
        } else {
            Seq::empty()
        };
        let frac = if f == 0 {
            Seq::empty()
        } else {
            "."@ + fraction_digits(f, w)
        };
        sign + nat_digits(ip) + frac
    }
}

pub open spec fn is_digit(c: char) -> bool {
    '0' <= c && c <= '9'
}

pub open spec fn digit_value(c: char) -> nat {
    (c as int - '0' as int) as nat
}

/// How many `.` the text holds.
pub open spec fn dot_count(s: Seq<char>) -> nat
    decreases s.len(),
{
    if s.len() == 0 {
        0
    } else {
        dot_count(s.drop_last()) + if s.last() == '.' {
            1nat
        } else {
            0nat
        }
    }
}

/// Decimal text: a digit first, then digits with at most one `.` among them.
pub open spec fn decimal_text(s: Seq<char>) -> bool {
    &&& s.len() > 0
    &&& is_digit(s[0])
    &&& forall|i: int| 0 <= i < s.len() ==> is_digit(#[trigger] s[i]) || s[i] == '.'
    &&& dot_count(s) <= 1
}

/// The integer that the digits of a decimal text spell, with the `.` left out.
pub open spec fn mantissa(s: Seq<char>) -> nat
    decreases s.len(),
{
    if s.len() == 0 {
        0
    } else if s.last() == '.' {
        mantissa(s.drop_last())
    } else {
        mantissa(s.drop_last()) * 10 + digit_value(s.last())
    }
}

/// How many digits of a decimal text follow its `.`.
pub open spec fn scale(s: Seq<char>) -> nat
    decreases s.len(),
{
    if s.len() == 0 || s.last() == '.' {
        0
    } else if dot_count(s.drop_last()) > 0 {
        scale(s.drop_last()) + 1
    } else {
        0
    }
}

/// The number that a decimal text denotes: `mantissa / 10^scale`.
pub open spec fn decimal_rat(s: Seq<char>) -> Rat {
    Rat { n: mantissa(s) as int, d: pow10(scale(s)) as int }
}

/// The number that a text denotes, when it is decimal.
pub open spec fn decimal_value(s: Seq<char>) -> Option<Rat> {
    if decimal_text(s) {
        Some(decimal_rat(s))
    } else {
        None
    }
}

/// Strips trailing zero digits from a fraction of `w` digits.
pub open spec fn strip_zeros(f: nat, w: nat) -> (nat, nat)
    decreases w,
{
    if w > 0 && f > 0 && f % 10 == 0 {
        strip_zeros(f / 10, (w - 1) as nat)
    } else {
        (f, w)
    }
}

/// The digits of a fraction `f` of `w` places, padded with leading zeros.
pub open spec fn fraction_digits(f: nat, w: nat) -> Seq<char> {
    let d = nat_digits(f);
    let pad: nat = if d.len() <= w {
        (w - d.len()) as nat
    } else {
        0
    };
    Seq::new(pad, |i: int| '0') + d
}

/// An exact rational number: a sign and two naturals as decimal digits.
#[derive(Debug)]
pub struct Num {
    neg: bool,
    num: String,
    den: String,
}

impl Clone for Num {
    fn clone(&self) -> (r: Self)
        ensures
            r == *self,
    {
        proof {
            use_type_invariant(self);
        }
        Num { neg: self.neg, num: self.num.clone(), den: self.den.clone() }
    }
}

impl View for Num {
    type V = Rat;

    closed spec fn view(&self) -> Rat {
        let m = val(digits_of(self.num@)) as int;
        Rat { n: if self.neg { -m } else { m }, d: val(digits_of(self.den@)) as int }
    }
}

impl Num {
    #[verifier::type_invariant]
    spec fn inv(self) -> bool {
        &&& all_digit_chars(self.num@)
        &&& all_digit_chars(self.den@)
        &&& val(digits_of(self.den@)) >= 1
    }

    /// The magnitude of the numerator and the denominator, as digits.
    fn parts(&self) -> (r: (Vec<u8>, Vec<u8>))
        ensures
            is_digits(r.0@),
            is_digits(r.1@),
            val(r.0@) == abs(self@.n),
            val(r.1@) == self@.d,
            self@.d >= 1,
    {
        proof {
            use_type_invariant(self);
        }
        (text_to_digits(&self.num), text_to_digits(&self.den))
    }

    /// The number with this sign, magnitude and denominator.
    fn make(neg: bool, m: &Vec<u8>, d: &Vec<u8>) -> (r: Num)
        requires
            is_digits(m@),
            is_digits(d@),
            val(d@) >= 1,
        ensures
            r@ == (Rat { n: if neg { -(val(m@) as int) } else { val(m@) as int }, d: val(d@) as int }),
    {
        Num { neg, num: digits_to_text(m), den: digits_to_text(d) }
    }

    pub fn add(&self, o: &Num) -> (r: Num)
        ensures
            r@ == self@.add(o@),
            r@.d >= 1,
    {
        let (a, ad) = self.parts();
        let (b, bd) = o.parts();
        let x = nat_mul(&a, &bd);
        let y = nat_mul(&b, &ad);
        let d = nat_mul(&ad, &bd);
        proof {
            let (an, bn, adv, bdv) = (self@.n, o@.n, self@.d, o@.d);
            assert(adv * bdv >= 1) by (nonlinear_arith)
                requires
                    adv >= 1,
                    bdv >= 1,
            ;
            assert(an * bdv == if self.neg { -(abs(an) * bdv) } else { abs(an) * bdv }) by (nonlinear_arith)
                requires
                    an == if self.neg { -(abs(an) as int) } else { abs(an) as int },
            ;
            assert(bn * adv == if o.neg { -(abs(bn) * adv) } else { abs(bn) * adv }) by (nonlinear_arith)
                requires
                    bn == if o.neg { -(abs(bn) as int) } else { abs(bn) as int },
            ;
        }
        if self.neg == o.neg {
            let s = nat_add(&x, &y);
            Num::make(self.neg, &s, &d)
        } else {
            let (diff, less) = nat_sub(&x, &y);
            if !less {
                Num::make(self.neg, &diff, &d)
            } else {
                let (diff2, _) = nat_sub(&y, &x);
                Num::make(o.neg, &diff2, &d)
            }
        }
    }

    pub fn neg(&self) -> (r: Num)
        ensures
            r@ == self@.neg(),
    {
        proof {
            use_type_invariant(self);
        }
        Num { neg: !self.neg, num: self.num.clone(), den: self.den.clone() }
    }

    pub fn sub(&self, o: &Num) -> (r: Num)
        ensures
            r@ == self@.sub(o@),
            r@.d >= 1,
    {
        let r = self.add(&o.neg());
        assert(self@.n * o@.d + (-o@.n) * self@.d == self@.n * o@.d - o@.n * self@.d) by (nonlinear_arith);
        r
    }

    pub fn mul(&self, o: &Num) -> (r: Num)
        ensures
            r@ == self@.mul(o@),
            r@.d >= 1,
    {
        let (a, ad) = self.parts();
        let (b, bd) = o.parts();
        let m = nat_mul(&a, &b);
        let d = nat_mul(&ad, &bd);
        proof {
            let (an, bn, adv, bdv) = (self@.n, o@.n, self@.d, o@.d);
            assert(adv * bdv >= 1) by (nonlinear_arith)
                requires
                    adv >= 1,
                    bdv >= 1,
            ;
            assert(an * bn == if self.neg != o.neg { -((abs(an) * abs(bn)) as int) } else { (abs(an) * abs(bn)) as int }) by (nonlinear_arith)
                requires
                    an == if self.neg { -(abs(an) as int) } else { abs(an) as int },
                    bn == if o.neg { -(abs(bn) as int) } else { abs(bn) as int },
            ;
        }
        Num::make(self.neg != o.neg, &m, &d)
    }

    /// Division by a non-zero number.
    pub fn div(&self, o: &Num) -> (r: Num)
        requires
            !o@.is_zero(),
        ensures
            r@ == self@.div(o@),
            r@.d >= 1,
    {
        let (a, ad) = self.parts();
        let (b, bd) = o.parts();
        let m = nat_mul(&a, &bd);
        let d = nat_mul(&ad, &b);
        proof {
            let (an, bn, adv, bdv) = (self@.n, o@.n, self@.d, o@.d);
            assert(adv * abs(bn) >= 1) by (nonlinear_arith)
                requires
                    adv >= 1,
                    abs(bn) >= 1,
            ;
            assert(an * bdv == if self.neg { -(abs(an) * bdv) } else { abs(an) * bdv }) by (nonlinear_arith)
                requires
                    an == if self.neg { -(abs(an) as int) } else { abs(an) as int },
            ;
            assert(adv * bn == if o.neg { -(adv * abs(bn)) } else { adv * abs(bn) }) by (nonlinear_arith)
                requires
                    bn == if o.neg { -(abs(bn) as int) } else { abs(bn) as int },
            ;
        }
        Num::make(self.neg != o.neg, &m, &d)
    }

    pub fn check_zero(&self) -> (r: bool)
        ensures
            r == self@.is_zero(),
    {
        let (a, _) = self.parts();
        is_zero(&a)
    }

    /// The two cross products that equality and order compare, with signs.
    fn cross(&self, o: &Num) -> (r: (Vec<u8>, Vec<u8>))
        ensures
            is_digits(r.0@),
            is_digits(r.1@),
            self@.n * o@.d == if self.neg { -(val(r.0@) as int) } else { val(r.0@) as int },
            o@.n * self@.d == if o.neg { -(val(r.1@) as int) } else { val(r.1@) as int },
    {
        let (a, ad) = self.parts();
        let (b, bd) = o.parts();
        let x = nat_mul(&a, &bd);
        let y = nat_mul(&b, &ad);
        proof {
            let (an, bn, adv, bdv) = (self@.n, o@.n, self@.d, o@.d);
            assert(an * bdv == if self.neg { -(abs(an) * bdv) } else { abs(an) * bdv }) by (nonlinear_arith)
                requires
                    an == if self.neg { -(abs(an) as int) } else { abs(an) as int },
            ;
            assert(bn * adv == if o.neg { -(abs(bn) * adv) } else { abs(bn) * adv }) by (nonlinear_arith)
                requires
                    bn == if o.neg { -(abs(bn) as int) } else { abs(bn) as int },
            ;
        }
        (x, y)
    }

    /// Equality of values.
    pub fn equals(&self, o: &Num) -> (r: bool)
        ensures
            r == self@.same_value(o@),
    {
        let (x, y) = self.cross(o);
        let x_below = nat_sub(&x, &y).1;
        let y_below = nat_sub(&y, &x).1;
        let same = !x_below && !y_below;
        if self.neg == o.neg {
            same
        } else {
            same && is_zero(&x)
        }
    }

    /// Strict order of values.
    pub fn less(&self, o: &Num) -> (r: bool)
        ensures
            r == self@.below(o@),
    {
        let (x, y) = self.cross(o);
        if !self.neg && !o.neg {
            nat_sub(&x, &y).1
        } else if self.neg && o.neg {
            nat_sub(&y, &x).1
        } else if self.neg {
            !(is_zero(&x) && is_zero(&y))
        } else {
            false
        }
    }

    /// Writes the number out as `text` says.
    pub fn to_string(&self) -> (r: String)
        ensures
            r@ == self@.text(),
    {
        let (a, d) = self.parts();
        let (ip, rem) = nat_divmod(&a, &d);
        let mut scaled = rem.clone();
        let mut i: usize = 0;
        proof {
            assert(scaled@ =~= rem@);
            assert(pow10(0) == 1);
            assert(val(rem@) * pow10(0) == val(rem@));
        }
        while i < SHOWN_DIGITS
            invariant
                i <= SHOWN_DIGITS,
                is_digits(scaled@),
                is_digits(rem@),
                val(scaled@) == val(rem@) * pow10(i as nat),
            decreases SHOWN_DIGITS - i,
        {
            let ghost before = scaled@;
            scaled.push(0);
            proof {
                assert(scaled@.drop_last() =~= before);
                lemma_pow10_step(i as nat);
                let v = val(rem@);
                let p = pow10(i as nat);
                assert(v * p * 10 == v * (10 * p)) by (nonlinear_arith);
            }
            i = i + 1;
        }
        let (fqd, rem2) = nat_divmod(&scaled, &d);
        let ghost av = abs(self@.n);
        let ghost dv = self@.d as nat;
        proof {
            vstd::arithmetic::div_mod::lemma_fundamental_div_mod_converse_div(av as int, dv as int, val(ip@) as int, val(rem@) as int);
            vstd::arithmetic::div_mod::lemma_fundamental_div_mod_converse_mod(av as int, dv as int, val(ip@) as int, val(rem@) as int);
            reveal_with_fuel(pow10, 17);
            let p = pow10(SHOWN_DIGITS as nat);
            assert(p == 10_000_000_000_000_000);
            let sv = val(scaled@);
            let fv = val(fqd@);
            let r2 = val(rem2@);
            vstd::arithmetic::div_mod::lemma_fundamental_div_mod_converse_div(sv as int, dv as int, fv as int, r2 as int);
            assert(fv < p) by (nonlinear_arith)
                requires
                    fv * dv + r2 == sv,
                    sv == val(rem@) * p,
                    val(rem@) < dv,
                    dv >= 1,
                    p > 0,
            ;
            assert(self@.n < 0 <==> (self.neg && av > 0));
        }
        let fq = nat_to_u128(&fqd);
        let mut f = fq;
        let mut w: usize = SHOWN_DIGITS;
        while w > 0 && f > 0 && f % 10 == 0
            invariant
                w <= SHOWN_DIGITS,
                strip_zeros(f as nat, w as nat) == strip_zeros(fq as nat, SHOWN_DIGITS as nat),
            decreases w,
        {
            f = f / 10;
            w = w - 1;
        }
        let mut s = String::new();
        let ip_zero = is_zero(&ip);
        if self.neg && (!ip_zero || fq > 0) {
            s.append("-");
        }
        push_nat(&mut s, &ip);
        if f != 0 {
            s.append(".");
            let n = digit_count(f);
            let pad: usize = if n <= w {
                w - n
            } else {
                0
            };
            push_zeros(&mut s, pad);
            crate::text::push_digits(&mut s, f);
        }
        proof {
            let p = pow10(SHOWN_DIGITS as nat);
            assert(val(ip@) == av / dv);
            assert(fq as nat == (av % dv) * p / dv);
            assert(ip_zero == (av / dv == 0));
            if av == 0 {
                assert(av / dv == 0);
                assert(av % dv == 0);
                assert((av % dv) * p == 0) by (nonlinear_arith)
                    requires
                        av % dv == 0,
                ;
                assert(0nat / dv == 0);
                assert(fq == 0);
            }
            assert((self@.n < 0 && (av / dv > 0 || fq > 0)) == (self.neg && (!ip_zero || fq > 0)));
        }
        assert(s@ =~= self@.text());
        s
    }

    /// Reads a decimal text, as `decimal_value` says.
    pub fn parse(text: &str) -> (r: Option<Num>)
        ensures
            r is Some == decimal_value(text@) is Some,
            r is Some ==> r->0@ == decimal_value(text@)->0,
    {
        let len = text.unicode_len();
        if len == 0 {
            return None;
        }
        let first = text.get_char(0);
        if !('0' <= first && first <= '9') {
            return None;
        }
        let mut i: usize = 0;
        let mut m: Vec<u8> = Vec::new();
        let mut dots: usize = 0;
        let mut k: usize = 0;
        while i < len
            invariant
                len == text@.len(),
                i <= len,
                dots == dot_count(text@.take(i as int)),
                k == scale(text@.take(i as int)),
                k <= i,
                dots <= 1,
                is_digits(m@),
                val(m@) == mantissa(text@.take(i as int)),
                forall|j: int| 0 <= j < i ==> is_digit(#[trigger] text@[j]) || text@[j] == '.',
            decreases len - i,
        {
            let c = text.get_char(i);
            let ghost before = text@.take(i as int);
            assert(text@.take(i + 1).drop_last() =~= before);
            if c == '.' {
                if dots > 0 {
                    assert(dot_count(text@.take(i + 1)) == 2);
                    assert(dot_count(text@) >= dot_count(text@.take(i + 1))) by {
                        lemma_dot_count_prefix(text@, i + 1);
                    }
                    return None;
                }
                dots = dots + 1;
                k = 0;
            } else if '0' <= c && c <= '9' {
                let ghost mb = m@;
                m.push(((c as u32) - ('0' as u32)) as u8);
                assert(m@.drop_last() =~= mb);
                if dots > 0 {
                    k = k + 1;
                }
            } else {
                assert(!(is_digit(text@[i as int]) || text@[i as int] == '.'));
                return None;
            }
            i = i + 1;
        }
        assert(text@.take(len as int) =~= text@);
        let mut d: Vec<u8> = Vec::new();
        d.push(1);
        proof {
            crate::natural::lemma_val_single(1);
            assert(d@ =~= seq![1u8]);
        }
        let mut j: usize = 0;
        while j < k
            invariant
                j <= k,
                is_digits(d@),
                val(d@) == pow10(j as nat),
            decreases k - j,
        {
            let ghost before = d@;
            d.push(0);
            assert(d@.drop_last() =~= before);
            j = j + 1;
        }
        proof {
            lemma_pow10_step(k as nat);
        }
        Some(Num::make(false, &m, &d))
    }
}

proof fn lemma_dot_count_prefix(s: Seq<char>, n: int)
    requires
        0 <= n <= s.len(),
    ensures
        dot_count(s) >= dot_count(s.take(n)),
    decreases s.len() - n,
{
    if n < s.len() {
        lemma_dot_count_prefix(s, n + 1);
        assert(s.take(n + 1).drop_last() =~= s.take(n));
    } else {
        assert(s.take(n) =~= s);
    }
}

/// How many decimal digits `n` has.
fn digit_count(n: u128) -> (r: usize)
    ensures
        r == nat_digits(n as nat).len(),
    decreases n,
{
    if n < 10 {
        1
    } else {
        let r = digit_count(n / 10);
        proof {
            lemma_digits_short(n as nat / 10);
        }
        r + 1
    }
}

proof fn lemma_digits_short(n: nat)
    requires
        n <= u128::MAX,
    ensures
        nat_digits(n).len() <= 39,
{
    reveal_with_fuel(pow10, 40);
    assert(pow10(39) == 1_000_000_000_000_000_000_000_000_000_000_000_000_000nat);
    lemma_digits_len_pow(n, 39);
}

proof fn lemma_digits_len_pow(n: nat, k: nat)
    requires
        k >= 1,
        n < pow10(k),
    ensures
        nat_digits(n).len() <= k,
    decreases n,
{
    if n >= 10 {
        if k == 1 {
            assert(pow10(1) == 10) by {
                reveal_with_fuel(pow10, 2);
            }
        } else {
            assert(pow10(k) == 10 * pow10((k - 1) as nat));
            lemma_digits_len_pow(n / 10, (k - 1) as nat);
        }
    }
}

} // verus!
