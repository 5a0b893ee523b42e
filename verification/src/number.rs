//! Decimal text of integers, as `to_string` writes it and `parse` reads it.
use vstd::prelude::*;
use crate::text::push_char;

verus! {

/// The digit character for `d` in `0..10`.
pub open spec fn digit_char(d: int) -> char {
    if d == 0 {
        '0'
    } else if d == 1 {
        '1'
    } else if d == 2 {
        '2'
    } else if d == 3 {
        '3'
    } else if d == 4 {
        '4'
    } else if d == 5 {
        '5'
    } else if d == 6 {
        '6'
    } else if d == 7 {
        '7'
    } else if d == 8 {
        '8'
    } else {
        '9'
    }
}

/// The value of a digit character.
pub open spec fn digit_value(c: char) -> int {
    c as int - '0' as int
}

/// The decimal digits of `n`, without leading zeros.
pub open spec fn nat_text(n: nat) -> Seq<char>
    decreases n,
{
    if n < 10 {
        seq![digit_char(n as int)]
    } else {
        nat_text(n / 10).push(digit_char((n % 10) as int))
    }
}

/// The decimal text of `n`: its digits, after a `-` when it is negative.
pub open spec fn int_text(n: int) -> Seq<char> {
    if n < 0 {
        seq!['-'] + nat_text((-n) as nat)
    } else {
        nat_text(n as nat)
    }
}

/// The number that a string of digits stands for.
pub open spec fn digits_value(s: Seq<char>) -> int
    decreases s.len(),
{
    if s.len() == 0 {
        0
    } else {
        digits_value(s.drop_last()) * 10 + digit_value(s.last())
    }
}

/// Whether every character of `s` is a digit.
pub open spec fn all_digits(s: Seq<char>) -> bool {
    forall|i: int| 0 <= i < s.len() ==> '0' <= #[trigger] s[i] && s[i] <= '9'
}

pub proof fn lemma_digit(d: int)
    requires
        0 <= d < 10,
    ensures
        digit_value(digit_char(d)) == d,
        '0' <= digit_char(d) <= '9',
{
}

pub proof fn lemma_nat_text(n: nat)
    ensures
        digits_value(nat_text(n)) == n,
        all_digits(nat_text(n)),
        nat_text(n).len() >= 1,
        nat_text(n)[0] != '-',
    decreases n,
{
    if n < 10 {
        lemma_digit(n as int);
        let t = nat_text(n);
        assert(t =~= seq![digit_char(n as int)]);
        assert(t.drop_last() =~= Seq::<char>::empty());
        assert(digits_value(t) == digits_value(t.drop_last()) * 10 + digit_value(t.last()));
    } else {
        lemma_nat_text(n / 10);
        lemma_digit((n % 10) as int);
        let t = nat_text(n);
        assert(t.drop_last() =~= nat_text(n / 10));
        assert(t.last() == digit_char((n % 10) as int));
        assert(digits_value(t) == digits_value(t.drop_last()) * 10 + digit_value(t.last()));
        assert(digits_value(t) == (n / 10) * 10 + n % 10);
        assert forall|i: int| 0 <= i < t.len() implies '0' <= #[trigger] t[i] && t[i] <= '9' by {
            if i < t.len() - 1 {
                assert(t[i] == nat_text(n / 10)[i]);
            }
        }
    }
}

/// The value of a prefix of a digit string is at most that of the whole.
pub proof fn lemma_prefix_value(s: Seq<char>, k: int)
    requires
        0 <= k <= s.len(),
        all_digits(s),
    ensures
        0 <= digits_value(s.take(k)) <= digits_value(s),
    decreases s.len() - k,
{
    if k < s.len() {
        lemma_prefix_value(s.drop_last(), k);
        assert(s.drop_last().take(k) =~= s.take(k));
        assert('0' <= s.last() <= '9');
        assert(all_digits(s.drop_last())) by {
            assert forall|i: int| 0 <= i < s.drop_last().len() implies '0' <= #[trigger] s.drop_last()[i]
                && s.drop_last()[i] <= '9' by {
                assert(s.drop_last()[i] == s[i]);
            }
        }
    } else {
        assert(s.take(k) =~= s);
        lemma_nonneg_value(s);
    }
}

pub proof fn lemma_nonneg_value(s: Seq<char>)
    requires
        all_digits(s),
    ensures
        digits_value(s) >= 0,
    decreases s.len(),
{
    if s.len() > 0 {
        assert(all_digits(s.drop_last())) by {
            assert forall|i: int| 0 <= i < s.drop_last().len() implies '0' <= #[trigger] s.drop_last()[i]
                && s.drop_last()[i] <= '9' by {
                assert(s.drop_last()[i] == s[i]);
            }
        }
        lemma_nonneg_value(s.drop_last());
        assert('0' <= s.last() <= '9');
    }
}

/// The digit character for `d`.
fn digit(d: u64) -> (c: char)
    requires
        d < 10,
    ensures
        c == digit_char(d as int),
{
    if d == 0 {
        '0'
    } else if d == 1 {
        '1'
    } else if d == 2 {
        '2'
    } else if d == 3 {
        '3'
    } else if d == 4 {
        '4'
    } else if d == 5 {
        '5'
    } else if d == 6 {
        '6'
    } else if d == 7 {
        '7'
    } else if d == 8 {
        '8'
    } else {
        '9'
    }
}

/// The decimal digits of `n`, as `nat_text` says.
pub fn u64_text(n: u64) -> (res: String)
    ensures
        res@ == nat_text(n as nat),
{
    let mut ds: Vec<char> = Vec::new();
    let mut m = n;
    while m >= 10
        invariant
            nat_text(n as nat) == nat_text(m as nat) + ds@.reverse(),
        decreases m,
    {
        let d = digit(m % 10);
        proof {
            assert(nat_text(m as nat) == nat_text((m / 10) as nat).push(d));
            assert(ds@.push(d).reverse() =~= seq![d] + ds@.reverse());
            assert(nat_text(m as nat) + ds@.reverse() =~= nat_text((m / 10) as nat) + ds@.push(d).reverse());
        }
        ds.push(d);
        m = m / 10;
    }
    let d = digit(m);
    proof {
        assert(ds@.push(d).reverse() =~= seq![d] + ds@.reverse());
    }
    ds.push(d);
    let mut res = String::new();
    let mut k = ds.len();
    while k > 0
        invariant
            k <= ds.len(),
            res@ == ds@.reverse().subrange(0, ds.len() - k),
        decreases k,
    {
        k = k - 1;
        push_char(&mut res, ds[k]);
        proof {
            assert(res@ =~= ds@.reverse().subrange(0, ds.len() - k));
        }
    }
    proof {
        assert(ds@.reverse().subrange(0, ds.len() as int) =~= ds@.reverse());
    }
    res
}

/// The decimal text of `n`, as `int_text` says.
pub fn i64_text(n: i64) -> (res: String)
    requires
        n > i64::MIN,
    ensures
        res@ == int_text(n as int),
{
    if n < 0 {
        let digits = u64_text((-n) as u64);
        let mut res = String::new();
        push_char(&mut res, '-');
        res.append(digits.as_str());
        proof {
            assert(res@ =~= seq!['-'] + nat_text((-n) as nat));
        }
        res
    } else {
        u64_text(n as u64)
    }
}

/// The integer whose decimal text is `s`.
pub fn parse_int_text(s: &str, Ghost(n): Ghost<i32>) -> (r: i32)
    requires
        s@ == int_text(n as int),
    ensures
        r == n,
{
    let v = crate::text::chars_of(s);
    let neg = v.len() > 0 && v[0] == '-';
    let start: usize = if neg { 1 } else { 0 };
    let ghost digits = v@.subrange(start as int, v@.len() as int);
    let ghost m: nat = if n < 0 { (-n) as nat } else { n as nat };
    proof {
        lemma_nat_text(m);
        if n < 0 {
            assert(digits =~= nat_text(m));
        } else {
            assert(digits =~= nat_text(m));
        }
    }
    let mut acc: i64 = 0;
    let mut k = start;
    while k < v.len()
        invariant
            start <= k <= v.len(),
            digits == v@.subrange(start as int, v@.len() as int),
            all_digits(digits),
            digits_value(digits) == m,
            m <= 2147483648,
            acc == digits_value(digits.take(k - start)),
        decreases v.len() - k,
    {
        proof {
            lemma_prefix_value(digits, k + 1 - start);
            assert(digits.take(k + 1 - start).drop_last() =~= digits.take(k - start));
            assert(digits.take(k + 1 - start).last() == v@[k as int]);
            assert(digits[k - start] == v@[k as int]);
        }
        let d = (v[k] as u32 - '0' as u32) as i64;
        acc = acc * 10 + d;
        k = k + 1;
    }
    proof {
        assert(digits.take(k - start) =~= digits);
    }
    if neg {
        (-acc) as i32
    } else {
        acc as i32
    }
}

} // verus!
