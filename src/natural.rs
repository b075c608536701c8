//! Natural numbers of any size, as decimal digits, most significant first.
use vstd::prelude::*;
use crate::number::{digit_value, is_digit, pow10};
use crate::text::{digit_char, nat_digits};

verus! {

/// Every entry is a decimal digit.
pub open spec fn is_digits(s: Seq<u8>) -> bool {
    forall|i: int| 0 <= i < s.len() ==> #[trigger] s[i] < 10
}

/// The number that a sequence of decimal digits spells.
pub open spec fn val(s: Seq<u8>) -> nat
    decreases s.len(),
{
    if s.len() == 0 {
        0
    } else {
        val(s.drop_last()) * 10 + s.last() as nat
    }
}

/// The last `k` digits of `s`, or all of them when there are fewer.
pub open spec fn low(s: Seq<u8>, k: int) -> Seq<u8> {
    if k >= s.len() {
        s
    } else {
        s.skip(s.len() - k)
    }
}

/// The digit `k` places from the end, or zero beyond the front.
pub open spec fn digit_from_end(s: Seq<u8>, k: int) -> nat {
    if 0 <= k < s.len() {
        s[s.len() - 1 - k] as nat
    } else {
        0
    }
}

pub proof fn lemma_pow10_step(k: nat)
    ensures
        pow10(k + 1) == 10 * pow10(k),
        pow10(k) >= 1,
    decreases k,
{
    if k > 0 {
        lemma_pow10_step((k - 1) as nat);
    }
}

pub proof fn lemma_pow10_mono(i: nat, j: nat)
    requires
        i <= j,
    ensures
        pow10(i) <= pow10(j),
    decreases j,
{
    lemma_pow10_step(j);
    if i < j {
        lemma_pow10_mono(i, (j - 1) as nat);
        lemma_pow10_step((j - 1) as nat);
    }
}

/// Writing `t` after `s` shifts `s` by the length of `t`.
pub proof fn lemma_val_concat(s: Seq<u8>, t: Seq<u8>)
    ensures
        val(s + t) == val(s) * pow10(t.len()) + val(t),
    decreases t.len(),
{
    if t.len() == 0 {
        assert(s + t =~= s);
        assert(pow10(0) == 1);
        assert(val(t) == 0);
        assert(val(s) * 1 == val(s));
    } else {
        let t2 = t.drop_last();
        assert((s + t).drop_last() =~= s + t2);
        assert((s + t).last() == t.last());
        assert(val(s + t) == val(s + t2) * 10 + t.last() as nat);
        lemma_val_concat(s, t2);
        lemma_pow10_step(t2.len());
        let a = val(s);
        let p = pow10(t2.len());
        let v2 = val(t2);
        let l = t.last() as nat;
        assert((a * p + v2) * 10 + l == a * (10 * p) + (v2 * 10 + l)) by (nonlinear_arith);
        assert(val(t) == v2 * 10 + l);
        assert(pow10(t.len()) == 10 * p);
    }
}

pub proof fn lemma_val_bound(s: Seq<u8>)
    requires
        is_digits(s),
    ensures
        val(s) < pow10(s.len()),
    decreases s.len(),
{
    if s.len() > 0 {
        lemma_val_bound(s.drop_last());
        lemma_pow10_step(s.drop_last().len());
    }
}

pub proof fn lemma_val_single(d: u8)
    ensures
        val(seq![d]) == d as nat,
{
    reveal_with_fuel(val, 2);
    assert(seq![d].drop_last() =~= Seq::<u8>::empty());
}

proof fn lemma_low_step(s: Seq<u8>, k: int)
    requires
        0 <= k,
    ensures
        val(low(s, k + 1)) == digit_from_end(s, k) * pow10(k as nat) + val(low(s, k)),
        k < s.len() ==> low(s, k).len() == k,
{
    if k < s.len() {
        assert(low(s, k + 1) =~= seq![s[s.len() - 1 - k]] + low(s, k));
        lemma_val_concat(seq![s[s.len() - 1 - k]], low(s, k));
        lemma_val_single(s[s.len() - 1 - k]);
        assert(low(s, k).len() == k);
    } else {
        assert(low(s, k + 1) == low(s, k));
        assert(digit_from_end(s, k) == 0);
    }
}

proof fn lemma_low_all(s: Seq<u8>, k: int)
    requires
        k >= s.len(),
    ensures
        low(s, k) == s,
{
}

proof fn lemma_low_zero(s: Seq<u8>)
    ensures
        val(low(s, 0)) == 0,
{
    if s.len() > 0 {
        assert(low(s, 0) =~= Seq::<u8>::empty());
    }
}

/// A sequence of `n` zeros.
fn zeros(n: usize) -> (r: Vec<u8>)
    ensures
        r@.len() == n,
        forall|i: int| 0 <= i < n ==> r@[i] == 0,
{
    let mut r: Vec<u8> = Vec::new();
    while r.len() < n
        invariant
            r@.len() <= n,
            forall|i: int| 0 <= i < r@.len() ==> r@[i] == 0,
        decreases n - r@.len(),
    {
        r.push(0);
    }
    r
}

fn digit_at_end(s: &Vec<u8>, k: usize) -> (r: u8)
    requires
        is_digits(s@),
    ensures
        r as nat == digit_from_end(s@, k as int),
        r < 10,
{
    if k < s.len() {
        s[s.len() - 1 - k]
    } else {
        0
    }
}

/// The sum of two naturals.
pub fn nat_add(a: &Vec<u8>, b: &Vec<u8>) -> (r: Vec<u8>)
    requires
        is_digits(a@),
        is_digits(b@),
    ensures
        is_digits(r@),
        val(r@) == val(a@) + val(b@),
{
    let n = if a.len() >= b.len() {
        a.len()
    } else {
        b.len()
    };
    let mut r = zeros(n);
    let mut carry: u8 = 0;
    let mut k: usize = 0;
    proof {
        lemma_low_zero(a@);
        lemma_low_zero(b@);
        assert(r@.skip(n as int) =~= Seq::<u8>::empty());
    }
    while k < n
        invariant
            n == r@.len(),
            a@.len() <= n,
            b@.len() <= n,
            k <= n,
            carry <= 1,
            is_digits(a@),
            is_digits(b@),
            is_digits(r@),
            val(r@.skip(n - k)) + carry * pow10(k as nat) == val(low(a@, k as int)) + val(
                low(b@, k as int),
            ),
        decreases n - k,
    {
        let x = digit_at_end(a, k) + digit_at_end(b, k) + carry;
        let ghost old_r = r@;
        r.set(n - 1 - k, x % 10);
        proof {
            lemma_low_step(a@, k as int);
            lemma_low_step(b@, k as int);
            assert(r@.skip(n - k) =~= old_r.skip(n - k));
            assert(r@.skip(n - k - 1) =~= seq![x % 10] + r@.skip(n - k));
            lemma_val_concat(seq![x % 10], r@.skip(n - k));
            assert(seq![x % 10].drop_last() =~= Seq::<u8>::empty());
            assert(r@.skip(n - k).len() == k);
            lemma_pow10_step(k as nat);
            let p = pow10(k as nat);
            let da = digit_from_end(a@, k as int);
            let db = digit_from_end(b@, k as int);
            assert((x % 10) as nat * p + (x / 10) as nat * (10 * p) == x as nat * p) by (nonlinear_arith)
                requires
                    x as nat == 10 * (x / 10) as nat + (x % 10) as nat,
            ;
            assert(x as nat * p == da * p + db * p + carry as nat * p) by (nonlinear_arith)
                requires
                    x as nat == da + db + carry as nat,
            ;
            lemma_val_single(x % 10);
        }
        carry = x / 10;
        k = k + 1;
    }
    proof {
        assert(r@.skip(0) =~= r@);
        lemma_low_all(a@, n as int);
        lemma_low_all(b@, n as int);
    }
    if carry > 0 {
        let mut front: Vec<u8> = Vec::new();
        front.push(carry);
        let ghost body = r@;
        let mut out = front;
        let mut i: usize = 0;
        while i < n
            invariant
                i <= n,
                n == body.len(),
                out@ == seq![carry] + body.take(i as int),
                carry == 1,
                is_digits(body),
                r@ == body,
            decreases n - i,
        {
            out.push(r[i]);
            i = i + 1;
            assert(out@ =~= seq![carry] + body.take(i as int));
        }
        proof {
            assert(body.take(n as int) =~= body);
            lemma_val_concat(seq![carry], body);
            lemma_val_single(carry);
        }
        out
    } else {
        r
    }
}

/// The difference `a - b` and whether `a < b`; the difference is exact when
/// `a >= b`.
pub fn nat_sub(a: &Vec<u8>, b: &Vec<u8>) -> (r: (Vec<u8>, bool))
    requires
        is_digits(a@),
        is_digits(b@),
    ensures
        is_digits(r.0@),
        r.1 == (val(a@) < val(b@)),
        !r.1 ==> val(r.0@) == val(a@) - val(b@),
{
    let n = if a.len() >= b.len() {
        a.len()
    } else {
        b.len()
    };
    let mut r = zeros(n);
    let mut borrow: u8 = 0;
    let mut k: usize = 0;
    proof {
        lemma_low_zero(a@);
        lemma_low_zero(b@);
        assert(r@.skip(n as int) =~= Seq::<u8>::empty());
    }
    while k < n
        invariant
            n == r@.len(),
            a@.len() <= n,
            b@.len() <= n,
            k <= n,
            borrow <= 1,
            is_digits(a@),
            is_digits(b@),
            is_digits(r@),
            val(r@.skip(n - k)) + val(low(b@, k as int)) == val(low(a@, k as int)) + borrow
                * pow10(k as nat),
        decreases n - k,
    {
        let da = digit_at_end(a, k);
        let db = digit_at_end(b, k) + borrow;
        let (d, nb): (u8, u8) = if da >= db {
            (da - db, 0)
        } else {
            (da + 10 - db, 1)
        };
        let ghost old_r = r@;
        r.set(n - 1 - k, d);
        proof {
            lemma_low_step(a@, k as int);
            lemma_low_step(b@, k as int);
            assert(r@.skip(n - k) =~= old_r.skip(n - k));
            assert(r@.skip(n - k - 1) =~= seq![d] + r@.skip(n - k));
            lemma_val_concat(seq![d], r@.skip(n - k));
            assert(seq![d].drop_last() =~= Seq::<u8>::empty());
            assert(r@.skip(n - k).len() == k);
            lemma_pow10_step(k as nat);
            let p = pow10(k as nat);
            assert(d as nat * p + db as nat * p == da as nat * p + nb as nat * (10 * p)) by (nonlinear_arith)
                requires
                    d as int + db as int == da as int + 10 * nb as int,
            ;
            let dbb = digit_from_end(b@, k as int);
            assert(db as nat * p == dbb * p + borrow as nat * p) by (nonlinear_arith)
                requires
                    db as nat == dbb + borrow as nat,
            ;
            lemma_val_single(d);
        }
        borrow = nb;
        k = k + 1;
    }
    proof {
        assert(r@.skip(0) =~= r@);
        lemma_low_all(a@, n as int);
        lemma_low_all(b@, n as int);
        lemma_val_bound(r@);
        lemma_val_bound(a@);
        lemma_val_bound(b@);
        lemma_pow10_mono(a@.len(), n as nat);
        lemma_pow10_mono(b@.len(), n as nat);
    }
    (r, borrow == 1)
}

/// Whether the natural is zero.
pub fn is_zero(a: &Vec<u8>) -> (r: bool)
    requires
        is_digits(a@),
    ensures
        r == (val(a@) == 0),
{
    let mut one: Vec<u8> = Vec::new();
    one.push(1);
    proof {
        lemma_val_single(1);
        assert(one@ =~= seq![1u8]);
    }
    nat_sub(a, &one).1
}

/// The product of a natural and a digit.
fn mul_digit(a: &Vec<u8>, d: u8) -> (r: Vec<u8>)
    requires
        is_digits(a@),
        d < 10,
    ensures
        is_digits(r@),
        val(r@) == val(a@) * d,
{
    let mut acc: Vec<u8> = Vec::new();
    let mut i: u8 = 0;
    while i < d
        invariant
            i <= d,
            d < 10,
            is_digits(a@),
            is_digits(acc@),
            val(acc@) == val(a@) * i,
        decreases d - i,
    {
        acc = nat_add(&acc, a);
        i = i + 1;
        assert(val(a@) * (i - 1) + val(a@) == val(a@) * i) by (nonlinear_arith);
    }
    acc
}

/// The product of two naturals.
pub fn nat_mul(a: &Vec<u8>, b: &Vec<u8>) -> (r: Vec<u8>)
    requires
        is_digits(a@),
        is_digits(b@),
    ensures
        is_digits(r@),
        val(r@) == val(a@) * val(b@),
{
    let mut acc: Vec<u8> = Vec::new();
    let mut i: usize = 0;
    assert(b@.take(0) =~= Seq::<u8>::empty());
    assert(val(a@) * 0 == 0);
    while i < b.len()
        invariant
            i <= b@.len(),
            is_digits(a@),
            is_digits(b@),
            is_digits(acc@),
            val(acc@) == val(a@) * val(b@.take(i as int)),
        decreases b@.len() - i,
    {
        let ghost before = acc@;
        acc.push(0);
        assert(acc@.drop_last() =~= before);
        let t = mul_digit(a, b[i]);
        acc = nat_add(&acc, &t);
        proof {
            assert(b@.take(i + 1).drop_last() =~= b@.take(i as int));
            let x = val(a@);
            let y = val(b@.take(i as int));
            let d = b@[i as int] as nat;
            assert(x * y * 10 + x * d == x * (y * 10 + d)) by (nonlinear_arith);
        }
        i = i + 1;
    }
    assert(b@.take(b@.len() as int) =~= b@);
    acc
}

/// The quotient and remainder of `a` by a positive `d`, by long division.
pub fn nat_divmod(a: &Vec<u8>, d: &Vec<u8>) -> (r: (Vec<u8>, Vec<u8>))
    requires
        is_digits(a@),
        is_digits(d@),
        val(d@) > 0,
    ensures
        is_digits(r.0@),
        is_digits(r.1@),
        val(r.0@) * val(d@) + val(r.1@) == val(a@),
        val(r.1@) < val(d@),
{
    let mut q: Vec<u8> = Vec::new();
    let mut rem: Vec<u8> = Vec::new();
    let mut i: usize = 0;
    let ghost dv = val(d@);
    assert(a@.take(0) =~= Seq::<u8>::empty());
    assert(0 * dv == 0);
    while i < a.len()
        invariant
            i <= a@.len(),
            is_digits(a@),
            is_digits(d@),
            is_digits(q@),
            is_digits(rem@),
            dv == val(d@),
            dv > 0,
            val(q@) * dv + val(rem@) == val(a@.take(i as int)),
            val(rem@) < dv,
        decreases a@.len() - i,
    {
        let ghost r0 = val(rem@);
        let ghost before = rem@;
        rem.push(a[i]);
        assert(rem@.drop_last() =~= before);
        let ghost r1 = val(rem@);
        assert(r1 < 10 * dv) by (nonlinear_arith)
            requires
                r1 == r0 * 10 + a@[i as int] as nat,
                r0 < dv,
                a@[i as int] < 10,
        ;
        let mut qd: u8 = 0;
        let mut done = false;
        while !done
            invariant
                is_digits(rem@),
                is_digits(d@),
                dv == val(d@),
                dv > 0,
                val(rem@) + qd as nat * dv == r1,
                r1 < 10 * dv,
                qd < 10,
                done ==> val(rem@) < dv,
            decreases val(rem@) + if done {
                0nat
            } else {
                1nat
            },
        {
            let (diff, less) = nat_sub(&rem, d);
            if less {
                done = true;
            } else {
                assert((qd + 1) as nat * dv <= r1 && qd + 1 < 10) by (nonlinear_arith)
                    requires
                        val(rem@) + qd as nat * dv == r1,
                        val(rem@) >= dv,
                        r1 < 10 * dv,
                ;
                assert((val(rem@) - dv) + (qd + 1) as nat * dv == val(rem@) + qd as nat * dv)
                    by (nonlinear_arith);
                rem = diff;
                qd = qd + 1;
            }
        }
        let ghost qb = q@;
        q.push(qd);
        proof {
            assert(q@.drop_last() =~= qb);
            assert(a@.take(i + 1).drop_last() =~= a@.take(i as int));
            let qv = val(qb);
            assert((qv * 10 + qd as nat) * dv + val(rem@) == (qv * dv + r0) * 10 + a@[i as int] as nat)
                by (nonlinear_arith)
                requires
                    val(rem@) + qd as nat * dv == r1,
                    r1 == r0 * 10 + a@[i as int] as nat,
            ;
        }
        i = i + 1;
    }
    assert(a@.take(a@.len() as int) =~= a@);
    (q, rem)
}

proof fn lemma_val_prefix(a: Seq<u8>, i: int)
    requires
        0 <= i <= a.len(),
    ensures
        val(a.take(i)) <= val(a),
{
    assert(a =~= a.take(i) + a.skip(i));
    lemma_val_concat(a.take(i), a.skip(i));
    lemma_pow10_step(a.skip(i).len());
    let x = val(a.take(i));
    let p = pow10(a.skip(i).len());
    assert(x <= x * p) by (nonlinear_arith)
        requires
            p >= 1,
    ;
}

/// A natural that fits in 64 bits, as a machine integer.
pub fn nat_to_u128(a: &Vec<u8>) -> (r: u128)
    requires
        is_digits(a@),
        val(a@) <= u64::MAX,
    ensures
        r == val(a@),
{
    let mut x: u128 = 0;
    let mut i: usize = 0;
    while i < a.len()
        invariant
            i <= a@.len(),
            is_digits(a@),
            val(a@) <= u64::MAX,
            x == val(a@.take(i as int)),
        decreases a@.len() - i,
    {
        proof {
            assert(a@.take(i + 1).drop_last() =~= a@.take(i as int));
            lemma_val_prefix(a@, i + 1);
        }
        x = x * 10 + a[i] as u128;
        i = i + 1;
    }
    assert(a@.take(a@.len() as int) =~= a@);
    x
}

proof fn lemma_val_zeros(a: Seq<u8>)
    requires
        forall|i: int| 0 <= i < a.len() ==> a[i] == 0,
    ensures
        val(a) == 0,
    decreases a.len(),
{
    if a.len() > 0 {
        lemma_val_zeros(a.drop_last());
    }
}

proof fn lemma_val_positive(t: Seq<u8>)
    requires
        t.len() > 0,
        t[0] != 0,
    ensures
        val(t) >= 1,
    decreases t.len(),
{
    if t.len() > 1 {
        lemma_val_positive(t.drop_last());
    } else {
        lemma_val_single(t[0]);
        assert(t =~= seq![t[0]]);
    }
}

/// The characters of a sequence of digits.
pub open spec fn digit_chars(t: Seq<u8>) -> Seq<char> {
    t.map_values(|d: u8| digit_char(d as nat))
}

proof fn lemma_trimmed_digits(t: Seq<u8>)
    requires
        is_digits(t),
        t.len() > 0,
        t[0] != 0,
    ensures
        digit_chars(t) == nat_digits(val(t)),
    decreases t.len(),
{
    if t.len() == 1 {
        lemma_val_single(t[0]);
        assert(t =~= seq![t[0]]);
        assert(digit_chars(t) =~= seq![digit_char(t[0] as nat)]);
    } else {
        let t2 = t.drop_last();
        lemma_trimmed_digits(t2);
        lemma_val_positive(t2);
        assert(digit_chars(t) =~= digit_chars(t2).push(digit_char(t.last() as nat)));
    }
}

/// Appends the decimal text of a natural.
pub fn push_nat(s: &mut String, a: &Vec<u8>)
    requires
        is_digits(a@),
    ensures
        final(s)@ == old(s)@ + nat_digits(val(a@)),
{
    let mut j: usize = 0;
    while j < a.len() && a[j] == 0
        invariant
            j <= a@.len(),
            forall|i: int| 0 <= i < j ==> a@[i] == 0,
        decreases a@.len() - j,
    {
        j = j + 1;
    }
    proof {
        assert(a@ =~= a@.take(j as int) + a@.skip(j as int));
        lemma_val_concat(a@.take(j as int), a@.skip(j as int));
        lemma_val_zeros(a@.take(j as int));
        assert(val(a@) == val(a@.skip(j as int)));
    }
    if j == a.len() {
        proof {
            assert(a@.skip(j as int) =~= Seq::<u8>::empty());
            reveal_strlit("0");
            assert(nat_digits(0) == seq![digit_char(0)]);
        }
        s.append("0");
        return;
    }
    let ghost t = a@.skip(j as int);
    proof {
        lemma_trimmed_digits(t);
    }
    let mut k = j;
    while k < a.len()
        invariant
            j <= k <= a@.len(),
            j < a@.len(),
            t == a@.skip(j as int),
            is_digits(a@),
            s@ == old(s)@ + digit_chars(t.take(k - j)),
        decreases a@.len() - k,
    {
        s.append(digit_text(a[k]));
        proof {
            assert(digit_chars(t.take(k + 1 - j)) =~= digit_chars(t.take(k - j)).push(
                digit_char(a@[k as int] as nat),
            ));
        }
        k = k + 1;
    }
    assert(t.take(k - j) =~= t);
}

/// A one-character string holding a digit.
fn digit_text(d: u8) -> (r: &'static str)
    requires
        d < 10,
    ensures
        r@ == seq![digit_char(d as nat)],
{
    proof {
        reveal_strlit("0");
        reveal_strlit("1");
        reveal_strlit("2");
        reveal_strlit("3");
        reveal_strlit("4");
        reveal_strlit("5");
        reveal_strlit("6");
        reveal_strlit("7");
        reveal_strlit("8");
        reveal_strlit("9");
    }
    if d == 0 {
        "0"
    } else if d == 1 {
        "1"
    } else if d == 2 {
        "2"
    } else if d == 3 {
        "3"
    } else if d == 4 {
        "4"
    } else if d == 5 {
        "5"
    } else if d == 6 {
        "6"
    } else if d == 7 {
        "7"
    } else if d == 8 {
        "8"
    } else {
        "9"
    }
}

/// The digits that a text of decimal digits holds.
pub open spec fn digits_of(s: Seq<char>) -> Seq<u8> {
    s.map_values(|c: char| digit_value(c) as u8)
}

pub open spec fn all_digit_chars(s: Seq<char>) -> bool {
    forall|i: int| 0 <= i < s.len() ==> is_digit(#[trigger] s[i])
}

/// The digits of a decimal text.
pub fn text_to_digits(s: &String) -> (r: Vec<u8>)
    requires
        all_digit_chars(s@),
    ensures
        r@ == digits_of(s@),
        is_digits(r@),
{
    let n = s.as_str().unicode_len();
    let mut r: Vec<u8> = Vec::new();
    let mut i: usize = 0;
    while i < n
        invariant
            n == s@.len(),
            i <= n,
            all_digit_chars(s@),
            r@ == digits_of(s@.take(i as int)),
        decreases n - i,
    {
        let c = s.as_str().get_char(i);
        r.push(((c as u32) - ('0' as u32)) as u8);
        i = i + 1;
        assert(r@ =~= digits_of(s@.take(i as int)));
    }
    assert(s@.take(n as int) =~= s@);
    r
}

/// The text of a sequence of digits.
pub fn digits_to_text(v: &Vec<u8>) -> (r: String)
    requires
        is_digits(v@),
    ensures
        r@ == digit_chars(v@),
        all_digit_chars(r@),
        digits_of(r@) == v@,
{
    let mut s = String::new();
    let mut i: usize = 0;
    while i < v.len()
        invariant
            i <= v@.len(),
            is_digits(v@),
            s@ == digit_chars(v@.take(i as int)),
        decreases v@.len() - i,
    {
        s.append(digit_text(v[i]));
        i = i + 1;
        assert(s@ =~= digit_chars(v@.take(i as int)));
    }
    assert(v@.take(v@.len() as int) =~= v@);
    assert(digits_of(s@) =~= v@);
    s
}

} // verus!
