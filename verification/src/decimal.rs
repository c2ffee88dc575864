//! Numeric comparison of decimal strings, for the greater-than and
//! less-than operators. A string is read as an optional sign, integer
//! digits, an optional dot and fraction digits; a string that does not fit
//! that shape counts as zero, so a malformed side never raises an error.
//! Comparison is exact: the value of `s` is `dec_num(s) / 10^dec_scale(s)`,
//! and `dec_gt` compares those rationals by cross-multiplication.

use vstd::prelude::*;

verus! {

/// `c` is a decimal digit.
pub open spec fn is_digit(c: char) -> bool {
    48 <= c as u32 && c as u32 <= 57
}

/// The numeric value of a digit character.
pub open spec fn digit_val(c: char) -> int {
    c as u32 - 48
}

pub open spec fn all_digits(s: Seq<char>) -> bool {
    forall|i: int| 0 <= i < s.len() ==> is_digit(#[trigger] s[i])
}

/// The integer denoted by a digit string, most significant digit first.
pub open spec fn digits_val(s: Seq<char>) -> int
    decreases s.len(),
{
    if s.len() == 0 {
        0
    } else {
        digits_val(s.drop_last()) * 10 + digit_val(s.last())
    }
}

pub open spec fn pow10(n: nat) -> int
    decreases n,
{
    if n == 0 {
        1
    } else {
        10 * pow10((n - 1) as nat)
    }
}

pub open spec fn max_nat(a: nat, b: nat) -> nat {
    if a >= b {
        a
    } else {
        b
    }
}

proof fn lemma_pow10_pos(n: nat)
    ensures
        pow10(n) >= 1,
    decreases n,
{
    if n > 0 {
        lemma_pow10_pos((n - 1) as nat);
    }
}

proof fn lemma_pow10_mono(m: nat, n: nat)
    requires
        m <= n,
    ensures
        pow10(m) <= pow10(n),
    decreases n,
{
    if m < n {
        lemma_pow10_mono(m, (n - 1) as nat);
        lemma_pow10_pos((n - 1) as nat);
    }
}

proof fn lemma_pow10_adds(a: nat, b: nat)
    ensures
        pow10(a + b) == pow10(a) * pow10(b),
    decreases a,
{
    if a == 0 {
        assert(pow10(0 + b) == 1 * pow10(b));
    } else {
        lemma_pow10_adds((a - 1) as nat, b);
        assert(10 * (pow10((a - 1) as nat) * pow10(b)) == (10 * pow10((a - 1) as nat)) * pow10(
            b,
        )) by (nonlinear_arith);
        assert((a + b - 1) as nat == (a - 1) as nat + b);
    }
}

proof fn lemma_digits_val_nonneg(s: Seq<char>)
    requires
        all_digits(s),
    ensures
        digits_val(s) >= 0,
    decreases s.len(),
{
    if s.len() > 0 {
        assert(forall|i: int| 0 <= i < s.drop_last().len() ==> is_digit(#[trigger] s.drop_last()[i]));
        lemma_digits_val_nonneg(s.drop_last());
    }
}

proof fn lemma_digits_val_bound(s: Seq<char>)
    requires
        all_digits(s),
    ensures
        0 <= digits_val(s) < pow10(s.len()),
    decreases s.len(),
{
    if s.len() > 0 {
        assert(forall|i: int| 0 <= i < s.drop_last().len() ==> is_digit(#[trigger] s.drop_last()[i]));
        lemma_digits_val_bound(s.drop_last());
        assert(is_digit(s.last()));
    }
}

proof fn lemma_digits_val_concat(s: Seq<char>, t: Seq<char>)
    ensures
        digits_val(s + t) == digits_val(s) * pow10(t.len()) + digits_val(t),
    decreases t.len(),
{
    if t.len() == 0 {
        assert(s + t =~= s);
    } else {
        lemma_digits_val_concat(s, t.drop_last());
        assert((s + t).drop_last() =~= s + t.drop_last());
        assert((s + t).last() == t.last());
        assert((digits_val(s) * pow10((t.len() - 1) as nat)) * 10 == digits_val(s) * (10 * pow10(
            (t.len() - 1) as nat,
        ))) by (nonlinear_arith);
    }
}

proof fn lemma_digits_val_zero(s: Seq<char>)
    requires
        forall|i: int| 0 <= i < s.len() ==> digit_val(#[trigger] s[i]) == 0,
    ensures
        digits_val(s) == 0,
    decreases s.len(),
{
    if s.len() > 0 {
        assert(forall|i: int|
            0 <= i < s.drop_last().len() ==> digit_val(#[trigger] s.drop_last()[i]) == 0);
        lemma_digits_val_zero(s.drop_last());
    }
}

proof fn lemma_digits_val_pos(s: Seq<char>, i: int)
    requires
        all_digits(s),
        0 <= i < s.len(),
        digit_val(s[i]) >= 1,
    ensures
        digits_val(s) >= 1,
    decreases s.len(),
{
    assert(forall|j: int| 0 <= j < s.drop_last().len() ==> is_digit(#[trigger] s.drop_last()[j]));
    if i == s.len() - 1 {
        lemma_digits_val_nonneg(s.drop_last());
    } else {
        lemma_digits_val_pos(s.drop_last(), i);
        assert(is_digit(s.last()));
    }
}

/// Leading positions of zero digit value do not change the denoted integer.
proof fn lemma_strip_leading_zeros(s: Seq<char>, k: int)
    requires
        0 <= k <= s.len(),
        forall|j: int| 0 <= j < k ==> digit_val(#[trigger] s[j]) == 0,
    ensures
        digits_val(s) == digits_val(s.skip(k)),
{
    assert(s =~= s.take(k) + s.skip(k));
    lemma_digits_val_concat(s.take(k), s.skip(k));
    assert(forall|j: int| 0 <= j < s.take(k).len() ==> digit_val(#[trigger] s.take(k)[j]) == 0);
    lemma_digits_val_zero(s.take(k));
}

/// A shorter digit string is outweighed by a longer one whose first digit
/// is not zero.
proof fn lemma_shorter_lt(x: Seq<char>, y: Seq<char>)
    requires
        all_digits(x),
        all_digits(y),
        x.len() < y.len(),
        digit_val(y[0]) >= 1,
    ensures
        digits_val(x) < digits_val(y),
{
    assert(y =~= seq![y[0]] + y.skip(1));
    lemma_digits_val_concat(seq![y[0]], y.skip(1));
    assert(digits_val(seq![y[0]]) == digit_val(y[0])) by {
        assert(seq![y[0]].len() == 1);
        assert(seq![y[0]].drop_last() =~= Seq::<char>::empty());
        assert(digits_val(Seq::<char>::empty()) == 0);
        assert(seq![y[0]].last() == y[0]);
    }
    assert(forall|j: int| 0 <= j < y.skip(1).len() ==> is_digit(#[trigger] y.skip(1)[j]));
    lemma_digits_val_nonneg(y.skip(1));
    lemma_pow10_pos((y.len() - 1) as nat);
    assert(digit_val(y[0]) * pow10((y.len() - 1) as nat) >= pow10((y.len() - 1) as nat))
        by (nonlinear_arith)
        requires
            digit_val(y[0]) >= 1,
            pow10((y.len() - 1) as nat) >= 1,
    ;
    lemma_pow10_mono(x.len(), (y.len() - 1) as nat);
    lemma_digits_val_bound(x);
}

/// Two digit strings of one length with the same digit values up to `j`,
/// where `x` has the smaller digit at `j`: `x` denotes less than `y`.
proof fn lemma_lex_lt_val(x: Seq<char>, y: Seq<char>, j: int)
    requires
        all_digits(x),
        all_digits(y),
        x.len() == y.len(),
        0 <= j < x.len(),
        forall|l: int| 0 <= l < j ==> digit_val(#[trigger] x[l]) == digit_val(#[trigger] y[l]),
        digit_val(x[j]) < digit_val(y[j]),
    ensures
        digits_val(x) < digits_val(y),
{
    let n = x.len() as int;
    let p = pow10((n - j - 1) as nat);
    assert(x =~= x.take(j + 1) + x.skip(j + 1));
    assert(y =~= y.take(j + 1) + y.skip(j + 1));
    lemma_digits_val_concat(x.take(j + 1), x.skip(j + 1));
    lemma_digits_val_concat(y.take(j + 1), y.skip(j + 1));
    assert(x.take(j + 1).drop_last() =~= x.take(j));
    assert(y.take(j + 1).drop_last() =~= y.take(j));
    lemma_digits_vals_eq(x.take(j), y.take(j));
    let v = digits_val(x.take(j));
    assert(digits_val(x.take(j + 1)) == v * 10 + digit_val(x[j]));
    assert(digits_val(y.take(j + 1)) == v * 10 + digit_val(y[j]));
    assert(forall|l: int| 0 <= l < x.skip(j + 1).len() ==> is_digit(#[trigger] x.skip(j + 1)[l]));
    assert(forall|l: int| 0 <= l < y.skip(j + 1).len() ==> is_digit(#[trigger] y.skip(j + 1)[l]));
    lemma_digits_val_bound(x.skip(j + 1));
    lemma_digits_val_bound(y.skip(j + 1));
    let rx = digits_val(x.skip(j + 1));
    let ry = digits_val(y.skip(j + 1));
    let a = digit_val(x[j]);
    let b = digit_val(y[j]);
    assert((v * 10 + a) * p + rx < (v * 10 + b) * p + ry) by (nonlinear_arith)
        requires
            a < b,
            p >= 1,
            0 <= rx < p,
            0 <= ry,
    ;
}

/// Digit strings of one length and the same digit values denote one integer.
proof fn lemma_digits_vals_eq(x: Seq<char>, y: Seq<char>)
    requires
        x.len() == y.len(),
        forall|l: int| 0 <= l < x.len() ==> digit_val(#[trigger] x[l]) == digit_val(#[trigger] y[l]),
    ensures
        digits_val(x) == digits_val(y),
    decreases x.len(),
{
    if x.len() > 0 {
        assert(forall|l: int|
            0 <= l < x.drop_last().len() ==> digit_val(#[trigger] x.drop_last()[l]) == digit_val(
                #[trigger] y.drop_last()[l],
            ));
        lemma_digits_vals_eq(x.drop_last(), y.drop_last());
    }
}

/// The parts of a decimal string: sign, integer digits, fraction digits.
#[verifier::ext_equal]
pub ghost struct DecParts {
    pub neg: bool,
    pub int_digits: Seq<char>,
    pub frac_digits: Seq<char>,
}

/// The position of the first dot, or the length where there is none.
pub open spec fn first_dot(s: Seq<char>) -> int
    decreases s.len(),
{
    if s.len() == 0 {
        0
    } else if s[0] == '.' {
        0
    } else {
        1 + first_dot(s.drop_first())
    }
}

proof fn lemma_first_dot_at(s: Seq<char>, k: int)
    requires
        0 <= k <= s.len(),
        forall|j: int| 0 <= j < k ==> s[j] != '.',
        k < s.len() ==> s[k] == '.',
    ensures
        first_dot(s) == k,
    decreases s.len(),
{
    if s.len() > 0 && k > 0 {
        assert(forall|j: int| 0 <= j < s.drop_first().len() ==> s.drop_first()[j] == s[j + 1]);
        lemma_first_dot_at(s.drop_first(), k - 1);
    }
}

/// The sign stripped from the front, if any, and what follows it.
pub open spec fn strip_sign(s: Seq<char>) -> (bool, Seq<char>) {
    if s.len() > 0 && s[0] == '-' {
        (true, s.drop_first())
    } else if s.len() > 0 && s[0] == '+' {
        (false, s.drop_first())
    } else {
        (false, s)
    }
}

/// Reads a decimal string: optional sign, digits, an optional dot with
/// further digits; at least one digit in all. Anything else is `None`.
pub open spec fn parse_dec(s: Seq<char>) -> Option<DecParts> {
    let neg = strip_sign(s).0;
    let body = strip_sign(s).1;
    let d = first_dot(body);
    let ip = body.take(d);
    let fp = if d < body.len() {
        body.skip(d + 1)
    } else {
        Seq::empty()
    };
    if all_digits(ip) && all_digits(fp) && ip.len() + fp.len() > 0 {
        Some(DecParts { neg, int_digits: ip, frac_digits: fp })
    } else {
        None
    }
}

/// The numerator of the value of `s` at scale `dec_scale(s)`; zero where
/// `s` is not a decimal string.
pub open spec fn dec_num(s: Seq<char>) -> int {
    match parse_dec(s) {
        Some(p) => {
            let mag = digits_val(p.int_digits) * pow10(p.frac_digits.len()) + digits_val(
                p.frac_digits,
            );
            if p.neg {
                -mag
            } else {
                mag
            }
        },
        None => 0,
    }
}

/// The number of fraction digits of `s`, zero where `s` is not decimal.
pub open spec fn dec_scale(s: Seq<char>) -> nat {
    match parse_dec(s) {
        Some(p) => p.frac_digits.len(),
        None => 0,
    }
}

/// The value of `a` exceeds the value of `b`, comparing the rationals
/// `dec_num / 10^dec_scale` by cross-multiplication.
pub open spec fn dec_gt(a: Seq<char>, b: Seq<char>) -> bool {
    dec_num(a) * pow10(dec_scale(b)) > dec_num(b) * pow10(dec_scale(a))
}

/// The value of `a` is below the value of `b`.
pub open spec fn dec_lt(a: Seq<char>, b: Seq<char>) -> bool {
    dec_gt(b, a)
}

/// Cross-multiplied comparison agrees with comparison after scaling both
/// numerators to the common scale `max_nat(sa, sb)`.
proof fn lemma_scale_cmp(ma: int, mb: int, sa: nat, sb: nat)
    ensures
        (ma * pow10(sb) > mb * pow10(sa)) == (ma * pow10((max_nat(sa, sb) - sa) as nat) > mb
            * pow10((max_nat(sa, sb) - sb) as nat)),
{
    if sa <= sb {
        let q = pow10((sb - sa) as nat);
        let p = pow10(sa);
        lemma_pow10_adds((sb - sa) as nat, sa);
        lemma_pow10_pos(sa);
        assert(pow10(sb) == q * p);
        let u = ma * q;
        assert((u > mb) == (u * p > mb * p)) by (nonlinear_arith)
            requires
                p >= 1,
        ;
        assert(ma * (q * p) == (ma * q) * p) by (nonlinear_arith);
        assert(max_nat(sa, sb) == sb);
        assert(pow10((max_nat(sa, sb) - sb) as nat) == 1);
    } else {
        let q = pow10((sa - sb) as nat);
        let p = pow10(sb);
        lemma_pow10_adds((sa - sb) as nat, sb);
        lemma_pow10_pos(sb);
        assert(pow10(sa) == q * p);
        let u = mb * q;
        assert((ma > u) == (ma * p > u * p)) by (nonlinear_arith)
            requires
                p >= 1,
        ;
        assert(mb * (q * p) == (mb * q) * p) by (nonlinear_arith);
        assert(max_nat(sa, sb) == sa);
        assert(pow10((max_nat(sa, sb) - sa) as nat) == 1);
    }
}

/// A run of `k` zero digit characters.
pub open spec fn zero_seq(k: nat) -> Seq<char> {
    Seq::new(k, |i: int| '0')
}

/// The characters of a string, in order.
fn chars_of(s: &String) -> (r: Vec<char>)
    ensures
        r@ == s@,
{
    let n = s.as_str().unicode_len();
    let mut r: Vec<char> = Vec::new();
    let mut i: usize = 0;
    while i < n
        invariant
            i <= n,
            n == s@.len(),
            r@ == s@.take(i as int),
        decreases n - i,
    {
        let c = s.as_str().get_char(i);
        r.push(c);
        proof {
            assert(r@ =~= s@.take(i as int + 1));
        }
        i += 1;
    }
    proof {
        assert(r@ =~= s@);
    }
    r
}

/// Whether every character is a decimal digit.
fn all_digits_exec(v: &Vec<char>) -> (r: bool)
    ensures
        r == all_digits(v@),
{
    let n = v.len();
    let mut i: usize = 0;
    while i < n
        invariant
            i <= n,
            n == v@.len(),
            forall|j: int| 0 <= j < i ==> is_digit(#[trigger] v@[j]),
        decreases n - i,
    {
        let u = v[i] as u32;
        if u < 48 || u > 57 {
            return false;
        }
        i += 1;
    }
    true
}

/// Whether every position holds a zero digit value.
fn all_zero_digits(v: &Vec<char>) -> (r: bool)
    ensures
        r == (forall|i: int| 0 <= i < v@.len() ==> digit_val(#[trigger] v@[i]) == 0),
{
    let n = v.len();
    let mut i: usize = 0;
    while i < n
        invariant
            i <= n,
            n == v@.len(),
            forall|j: int| 0 <= j < i ==> digit_val(#[trigger] v@[j]) == 0,
        decreases n - i,
    {
        if !(v[i] as u32 == 48) {
            return false;
        }
        i += 1;
    }
    true
}

/// Splits a string into sign, integer digits and fraction digits, as
/// `parse_dec` reads it.
fn parse_decimal(s: &String) -> (r: Option<(bool, Vec<char>, Vec<char>)>)
    ensures
        match r {
            Some(t) => parse_dec(s@) matches Some(p) && p.neg == t.0 && p.int_digits == t.1@
                && p.frac_digits == t.2@,
            None => parse_dec(s@) is None,
        },
{
    let cs = chars_of(s);
    let n = cs.len();
    let mut start: usize = 0;
    let mut neg = false;
    if n > 0 && cs[0] == '-' {
        neg = true;
        start = 1;
    } else if n > 0 && cs[0] == '+' {
        start = 1;
    }
    let ghost body = strip_sign(s@).1;
    proof {
        assert(s@.drop_first() =~= s@.skip(1));
        assert(s@.skip(0) =~= s@);
        assert(strip_sign(s@).0 == neg);
        assert(body =~= s@.skip(start as int));
    }
    let mut d: usize = start;
    while d < n && !(cs[d] == '.')
        invariant
            start <= d <= n,
            n == s@.len(),
            cs@ == s@,
            forall|j: int| start <= j < d ==> s@[j] != '.',
        decreases n - d,
    {
        d += 1;
    }
    proof {
        assert forall|j: int| 0 <= j < d - start implies body[j] != '.' by {
            assert(body[j] == s@[j + start]);
        }
        if d < n {
            assert(body[d - start] == s@[d as int]);
        }
        lemma_first_dot_at(body, d as int - start as int);
    }
    let mut ip: Vec<char> = Vec::new();
    let mut k: usize = start;
    while k < d
        invariant
            start <= k <= d,
            d <= n,
            n == cs.len(),
            cs@ == s@,
            ip@ == s@.subrange(start as int, k as int),
        decreases d - k,
    {
        let c = cs[k];
        ip.push(c);
        proof {
            assert(ip@ =~= s@.subrange(start as int, k as int + 1));
        }
        k += 1;
    }
    proof {
        assert(ip@ =~= body.take(d as int - start as int));
    }
    let mut fp: Vec<char> = Vec::new();
    if d < n {
        let mut k2: usize = d + 1;
        while k2 < n
            invariant
                d + 1 <= k2 <= n,
                n == cs.len(),
                cs@ == s@,
                fp@ == s@.subrange(d as int + 1, k2 as int),
            decreases n - k2,
        {
            let c = cs[k2];
            fp.push(c);
            proof {
                assert(fp@ =~= s@.subrange(d as int + 1, k2 as int + 1));
            }
            k2 += 1;
        }
        proof {
            assert(fp@ =~= body.skip((d as int - start as int) + 1));
        }
    } else {
        proof {
            assert(fp@ =~= Seq::<char>::empty());
        }
    }
    let ip_ok = all_digits_exec(&ip);
    let fp_ok = all_digits_exec(&fp);
    if ip_ok && fp_ok && (ip.len() > 0 || fp.len() > 0) {
        Some((neg, ip, fp))
    } else {
        None
    }
}

/// Appends a copy of `src` to `dst`.
fn append_chars(dst: &mut Vec<char>, src: &Vec<char>)
    ensures
        final(dst)@ == old(dst)@ + src@,
{
    let n = src.len();
    let mut i: usize = 0;
    while i < n
        invariant
            i <= n,
            n == src@.len(),
            dst@ == old(dst)@ + src@.take(i as int),
        decreases n - i,
    {
        let c = src[i];
        dst.push(c);
        proof {
            assert(old(dst)@ + src@.take(i as int + 1) =~= (old(dst)@ + src@.take(i as int)).push(
                src@[i as int],
            ));
        }
        i += 1;
    }
    proof {
        assert(old(dst)@ + src@.take(n as int) =~= old(dst)@ + src@);
    }
}

/// Appends `k` zero digits to `v`.
fn push_zeros(v: &mut Vec<char>, k: usize)
    ensures
        final(v)@ == old(v)@ + zero_seq(k as nat),
{
    let mut i: usize = 0;
    while i < k
        invariant
            i <= k,
            v@ == old(v)@ + zero_seq(i as nat),
        decreases k - i,
    {
        v.push('0');
        proof {
            assert(old(v)@ + zero_seq((i + 1) as nat) =~= (old(v)@ + zero_seq(i as nat)).push('0'));
        }
        i += 1;
    }
}

/// Compares the integers two digit strings denote: 1, 0 or -1.
fn cmp_digits(a: &Vec<char>, b: &Vec<char>) -> (r: i32)
    requires
        all_digits(a@),
        all_digits(b@),
    ensures
        (r == 1) == (digits_val(a@) > digits_val(b@)),
        (r == 0) == (digits_val(a@) == digits_val(b@)),
        (r == -1) == (digits_val(a@) < digits_val(b@)),
{
    let an = a.len();
    let bn = b.len();
    let mut i: usize = 0;
    while i < an && a[i] as u32 == 48
        invariant
            i <= an,
            an == a@.len(),
            forall|l: int| 0 <= l < i ==> digit_val(#[trigger] a@[l]) == 0,
        decreases an - i,
    {
        i += 1;
    }
    let mut j: usize = 0;
    while j < bn && b[j] as u32 == 48
        invariant
            j <= bn,
            bn == b@.len(),
            forall|l: int| 0 <= l < j ==> digit_val(#[trigger] b@[l]) == 0,
        decreases bn - j,
    {
        j += 1;
    }
    let ghost xa = a@.skip(i as int);
    let ghost xb = b@.skip(j as int);
    proof {
        lemma_strip_leading_zeros(a@, i as int);
        lemma_strip_leading_zeros(b@, j as int);
        assert(forall|l: int| 0 <= l < xa.len() ==> is_digit(#[trigger] xa[l]));
        assert(forall|l: int| 0 <= l < xb.len() ==> is_digit(#[trigger] xb[l]));
    }
    let la = an - i;
    let lb = bn - j;
    if la > lb {
        proof {
            assert(xa[0] == a@[i as int]);
            assert(digit_val(xa[0]) >= 1);
            lemma_shorter_lt(xb, xa);
        }
        return 1;
    }
    if lb > la {
        proof {
            assert(xb[0] == b@[j as int]);
            assert(digit_val(xb[0]) >= 1);
            lemma_shorter_lt(xa, xb);
        }
        return -1;
    }
    let mut k: usize = 0;
    while k < la
        invariant
            k <= la,
            la == lb,
            an == a@.len(),
            bn == b@.len(),
            i + la == a@.len(),
            j + lb == b@.len(),
            xa == a@.skip(i as int),
            xb == b@.skip(j as int),
            digits_val(a@) == digits_val(xa),
            digits_val(b@) == digits_val(xb),
            all_digits(a@),
            all_digits(b@),
            forall|l: int| 0 <= l < xa.len() ==> is_digit(#[trigger] xa[l]),
            forall|l: int| 0 <= l < xb.len() ==> is_digit(#[trigger] xb[l]),
            forall|l: int|
                0 <= l < k ==> digit_val(#[trigger] xa[l]) == digit_val(#[trigger] xb[l]),
        decreases la - k,
    {
        let ca = a[i + k] as u32;
        let cb = b[j + k] as u32;
        proof {
            assert(xa[k as int] == a@[i + k]);
            assert(xb[k as int] == b@[j + k]);
        }
        if ca < cb {
            proof {
                lemma_lex_lt_val(xa, xb, k as int);
            }
            return -1;
        }
        if ca > cb {
            proof {
                lemma_lex_lt_val(xb, xa, k as int);
            }
            return 1;
        }
        k += 1;
    }
    proof {
        lemma_digits_vals_eq(xa, xb);
    }
    0
}

/// Whether the decimal string `a` denotes a value above the decimal string
/// `b`; a side that is not a decimal string counts as zero.
#[verifier::rlimit(60)]
pub fn dec_gt_exec(a: &String, b: &String) -> (r: bool)
    ensures
        r == dec_gt(a@, b@),
{
    let (na_neg, a_ip, a_fp) = match parse_decimal(a) {
        Some(t) => t,
        None => (false, Vec::new(), Vec::new()),
    };
    let (nb_neg, b_ip, b_fp) = match parse_decimal(b) {
        Some(t) => t,
        None => (false, Vec::new(), Vec::new()),
    };
    let ghost ca = a_ip@ + a_fp@;
    let ghost cb = b_ip@ + b_fp@;
    let ghost mag_a = digits_val(ca);
    let ghost mag_b = digits_val(cb);
    let ghost sa = dec_scale(a@);
    let ghost sb = dec_scale(b@);
    proof {
        if parse_dec(a@) is Some {
            lemma_digits_val_concat(a_ip@, a_fp@);
        } else {
            assert(ca =~= Seq::<char>::empty());
        }
        if parse_dec(b@) is Some {
            lemma_digits_val_concat(b_ip@, b_fp@);
        } else {
            assert(cb =~= Seq::<char>::empty());
        }
        assert(dec_num(a@) == (if na_neg { -mag_a } else { mag_a }));
        assert(dec_num(b@) == (if nb_neg { -mag_b } else { mag_b }));
        assert(sa == a_fp@.len());
        assert(sb == b_fp@.len());
        assert(forall|l: int| 0 <= l < ca.len() ==> is_digit(#[trigger] ca[l]));
        assert(forall|l: int| 0 <= l < cb.len() ==> is_digit(#[trigger] cb[l]));
        lemma_pow10_pos(sa);
        lemma_pow10_pos(sb);
    }
    let za = all_zero_digits(&a_ip) && all_zero_digits(&a_fp);
    let zb = all_zero_digits(&b_ip) && all_zero_digits(&b_fp);
    proof {
        if za {
            assert(forall|l: int| 0 <= l < ca.len() ==> digit_val(#[trigger] ca[l]) == 0);
            lemma_digits_val_zero(ca);
        } else {
            if !(forall|l: int| 0 <= l < a_ip@.len() ==> digit_val(#[trigger] a_ip@[l]) == 0) {
                let w = choose|l: int|
                    !(0 <= l < a_ip@.len() ==> digit_val(#[trigger] a_ip@[l]) == 0);
                assert(ca[w] == a_ip@[w]);
                lemma_digits_val_pos(ca, w);
            } else {
                let w = choose|l: int|
                    !(0 <= l < a_fp@.len() ==> digit_val(#[trigger] a_fp@[l]) == 0);
                assert(ca[a_ip@.len() + w] == a_fp@[w]);
                lemma_digits_val_pos(ca, a_ip@.len() + w);
            }
            assert(mag_a >= 1);
        }
        if zb {
            assert(forall|l: int| 0 <= l < cb.len() ==> digit_val(#[trigger] cb[l]) == 0);
            lemma_digits_val_zero(cb);
        } else {
            if !(forall|l: int| 0 <= l < b_ip@.len() ==> digit_val(#[trigger] b_ip@[l]) == 0) {
                let w = choose|l: int|
                    !(0 <= l < b_ip@.len() ==> digit_val(#[trigger] b_ip@[l]) == 0);
                assert(cb[w] == b_ip@[w]);
                lemma_digits_val_pos(cb, w);
            } else {
                let w = choose|l: int|
                    !(0 <= l < b_fp@.len() ==> digit_val(#[trigger] b_fp@[l]) == 0);
                assert(cb[b_ip@.len() + w] == b_fp@[w]);
                lemma_digits_val_pos(cb, b_ip@.len() + w);
            }
            assert(mag_b >= 1);
        }
    }
    if za && zb {
        proof {
            assert(dec_num(a@) == 0);
            assert(dec_num(b@) == 0);
            assert(dec_num(a@) * pow10(sb) == 0) by (nonlinear_arith)
                requires
                    dec_num(a@) == 0,
            ;
            assert(dec_num(b@) * pow10(sa) == 0) by (nonlinear_arith)
                requires
                    dec_num(b@) == 0,
            ;
        }
        return false;
    }
    if za {
        proof {
            assert(mag_a == 0);
            assert(dec_num(a@) == 0);
            assert(dec_num(a@) * pow10(sb) == 0) by (nonlinear_arith)
                requires
                    dec_num(a@) == 0,
            ;
            if nb_neg {
                assert(dec_num(b@) == -mag_b);
                assert((-mag_b) * pow10(sa) < 0) by (nonlinear_arith)
                    requires
                        mag_b >= 1,
                        pow10(sa) >= 1,
                ;
                assert(dec_gt(a@, b@));
            } else {
                assert(dec_num(b@) == mag_b);
                assert(mag_b * pow10(sa) > 0) by (nonlinear_arith)
                    requires
                        mag_b >= 1,
                        pow10(sa) >= 1,
                ;
                assert(!dec_gt(a@, b@));
            }
        }
        return nb_neg;
    }
    if zb {
        proof {
            assert(mag_b == 0);
            assert(dec_num(b@) == 0);
            assert(dec_num(b@) * pow10(sa) == 0) by (nonlinear_arith)
                requires
                    dec_num(b@) == 0,
            ;
            if na_neg {
                assert(dec_num(a@) == -mag_a);
                assert((-mag_a) * pow10(sb) < 0) by (nonlinear_arith)
                    requires
                        mag_a >= 1,
                        pow10(sb) >= 1,
                ;
                assert(!dec_gt(a@, b@));
            } else {
                assert(dec_num(a@) == mag_a);
                assert(mag_a * pow10(sb) > 0) by (nonlinear_arith)
                    requires
                        mag_a >= 1,
                        pow10(sb) >= 1,
                ;
                assert(dec_gt(a@, b@));
            }
        }
        return !na_neg;
    }
    if na_neg != nb_neg {
        proof {
            assert(mag_a * pow10(sb) > 0) by (nonlinear_arith)
                requires
                    mag_a >= 1,
                    pow10(sb) >= 1,
            ;
            assert(mag_b * pow10(sa) > 0) by (nonlinear_arith)
                requires
                    mag_b >= 1,
                    pow10(sa) >= 1,
            ;
            assert((-mag_a) * pow10(sb) == -(mag_a * pow10(sb))) by (nonlinear_arith);
            assert((-mag_b) * pow10(sa) == -(mag_b * pow10(sa))) by (nonlinear_arith);
            if na_neg {
                assert(dec_num(a@) == -mag_a);
                assert(dec_num(b@) == mag_b);
                assert(dec_num(a@) * pow10(sb) < 0);
                assert(dec_num(b@) * pow10(sa) > 0);
                assert(!dec_gt(a@, b@));
            } else {
                assert(dec_num(a@) == mag_a);
                assert(dec_num(b@) == -mag_b);
                assert(dec_num(a@) * pow10(sb) > 0);
                assert(dec_num(b@) * pow10(sa) < 0);
                assert(dec_gt(a@, b@));
            }
        }
        return !na_neg;
    }
    // both sides are nonzero and share a sign: scale to a common number of
    // fraction digits and compare the digit strings
    let fa = a_fp.len();
    let fb = b_fp.len();
    let common = if fa >= fb {
        fa
    } else {
        fb
    };
    let mut da: Vec<char> = Vec::new();
    append_chars(&mut da, &a_ip);
    append_chars(&mut da, &a_fp);
    push_zeros(&mut da, common - fa);
    let mut db: Vec<char> = Vec::new();
    append_chars(&mut db, &b_ip);
    append_chars(&mut db, &b_fp);
    push_zeros(&mut db, common - fb);
    proof {
        assert(da@ =~= ca + zero_seq((common - fa) as nat));
        assert(db@ =~= cb + zero_seq((common - fb) as nat));
        assert(forall|l: int|
            0 <= l < zero_seq((common - fa) as nat).len() ==> #[trigger] zero_seq(
                (common - fa) as nat,
            )[l] == '0');
        assert(forall|l: int|
            0 <= l < zero_seq((common - fb) as nat).len() ==> #[trigger] zero_seq(
                (common - fb) as nat,
            )[l] == '0');
        assert(forall|l: int| 0 <= l < da@.len() ==> is_digit(#[trigger] da@[l]));
        assert(forall|l: int| 0 <= l < db@.len() ==> is_digit(#[trigger] db@[l]));
        lemma_digits_val_concat(ca, zero_seq((common - fa) as nat));
        lemma_digits_val_concat(cb, zero_seq((common - fb) as nat));
        assert(forall|l: int|
            0 <= l < zero_seq((common - fa) as nat).len() ==> digit_val(
                #[trigger] zero_seq((common - fa) as nat)[l],
            ) == 0);
        assert(forall|l: int|
            0 <= l < zero_seq((common - fb) as nat).len() ==> digit_val(
                #[trigger] zero_seq((common - fb) as nat)[l],
            ) == 0);
        lemma_digits_val_zero(zero_seq((common - fa) as nat));
        lemma_digits_val_zero(zero_seq((common - fb) as nat));
        assert(max_nat(sa, sb) == common as nat);
        assert(digits_val(da@) == mag_a * pow10((max_nat(sa, sb) - sa) as nat));
        assert(digits_val(db@) == mag_b * pow10((max_nat(sa, sb) - sb) as nat));
    }
    let c = cmp_digits(&da, &db);
    if na_neg {
        proof {
            lemma_scale_cmp(mag_b, mag_a, sb, sa);
            assert((-mag_a) * pow10(sb) == -(mag_a * pow10(sb))) by (nonlinear_arith);
            assert((-mag_b) * pow10(sa) == -(mag_b * pow10(sa))) by (nonlinear_arith);
            assert(max_nat(sb, sa) == max_nat(sa, sb));
        }
        c == -1
    } else {
        proof {
            lemma_scale_cmp(mag_a, mag_b, sa, sb);
        }
        c == 1
    }
}

/// Whether the decimal string `a` denotes a value below the decimal string
/// `b`.
pub fn dec_lt_exec(a: &String, b: &String) -> (r: bool)
    ensures
        r == dec_lt(a@, b@),
{
    dec_gt_exec(b, a)
}

} // verus!
