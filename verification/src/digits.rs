//! Decimal digit strings: their values, and the text of a number.

use vstd::prelude::*;

use crate::text::is_digit;

verus! {

/// Every character of `s` is an ASCII digit.
pub open spec fn all_digits(s: Seq<char>) -> bool {
    forall|i: int| 0 <= i < s.len() ==> is_digit(#[trigger] s[i])
}

/// The value of a digit.
pub open spec fn digit_value(c: char) -> int {
    (c as int) - 48
}

/// The value of a string of decimal digits (leading zeros allowed).
pub open spec fn value(s: Seq<char>) -> nat
    decreases s.len(),
{
    if s.len() == 0 {
        0
    } else {
        (value(s.drop_last()) * 10 + digit_value(s.last())) as nat
    }
}

/// The digit character for `d`, below 10.
pub open spec fn digit_char(d: nat) -> char {
    (d + 48) as char
}

/// The decimal text of `n`, without leading zeros.
pub open spec fn decimal(n: nat) -> Seq<char>
    decreases n,
{
    if n < 10 {
        seq![digit_char(n)]
    } else {
        decimal(n / 10).push(digit_char(n % 10))
    }
}

/// The number of ASCII digits at the end of `s`.
pub open spec fn trailing_digits(s: Seq<char>) -> nat
    decreases s.len(),
{
    if s.len() > 0 && is_digit(s.last()) {
        trailing_digits(s.drop_last()) + 1
    } else {
        0
    }
}

proof fn lemma_trailing_digits(s: Seq<char>)
    ensures
        trailing_digits(s) <= s.len(),
        all_digits(s.skip(s.len() - trailing_digits(s))),
        trailing_digits(s) < s.len() ==> !is_digit(s[s.len() - trailing_digits(s) - 1]),
    decreases s.len(),
{
    if s.len() > 0 && is_digit(s.last()) {
        lemma_trailing_digits(s.drop_last());
        let k = trailing_digits(s.drop_last());
        assert forall|i: int| 0 <= i < s.skip(s.len() - k - 1).len() implies is_digit(#[trigger] s.skip(s.len() - k - 1)[i]) by {
            if i < k {
                assert(s.skip(s.len() - k - 1)[i] == s.drop_last().skip(s.drop_last().len() - k)[i]);
            }
        }
    } else {
        assert(s.skip(s.len() as int).len() == 0);
    }
}

/// The decimal text of `n`.
pub fn decimal_text(n: u64) -> (v: Vec<char>)
    ensures
        v@ == decimal(n as nat),
    decreases n,
{
    if n < 10 {
        let c = ((n as u8) + 48) as char;
        vec![c]
    } else {
        let mut v = decimal_text(n / 10);
        let d = ((n % 10) as u8 + 48) as char;
        v.push(d);
        v
    }
}

/// The value of the digits `s[from..to]`, if it fits in a `u64`.
pub fn digits_value(s: &Vec<char>, from: usize, to: usize) -> (r: Option<u64>)
    requires
        from <= to <= s.len(),
        all_digits(s@.subrange(from as int, to as int)),
    ensures
        match r {
            Some(x) => x == value(s@.subrange(from as int, to as int)),
            None => value(s@.subrange(from as int, to as int)) > u64::MAX,
        },
{
    let mut acc: u64 = 0;
    let mut over = false;
    let mut i = from;
    while i < to
        invariant
            from <= i <= to <= s.len(),
            all_digits(s@.subrange(from as int, to as int)),
            !over ==> acc == value(s@.subrange(from as int, i as int)),
            over ==> value(s@.subrange(from as int, i as int)) > u64::MAX,
        decreases to - i,
    {
        let ghost pre = s@.subrange(from as int, i as int);
        let ghost next = s@.subrange(from as int, i + 1);
        assert(next.drop_last() =~= pre);
        assert(next.last() == s@[i as int]);
        assert(is_digit(s@.subrange(from as int, to as int)[i - from]));
        assert(s@.subrange(from as int, to as int)[i - from] == s@[i as int]);
        let d = (s[i] as u32 - 48) as u64;
        if !over {
            match acc.checked_mul(10) {
                Some(m) => match m.checked_add(d) {
                    Some(x) => {
                        acc = x;
                    },
                    None => {
                        over = true;
                    },
                },
                None => {
                    over = true;
                },
            }
        }
        i += 1;
    }
    if over {
        None
    } else {
        Some(acc)
    }
}

/// `k` zero digits.
pub open spec fn zeros(k: nat) -> Seq<char> {
    Seq::new(k, |i: int| '0')
}

/// Zeros have value 0.
pub proof fn lemma_value_zeros(k: nat)
    ensures
        value(zeros(k)) == 0,
    decreases k,
{
    if k > 0 {
        assert(zeros(k).drop_last() =~= zeros((k - 1) as nat));
        lemma_value_zeros((k - 1) as nat);
    }
}

/// Leading zeros do not change a value.
pub proof fn lemma_value_leading_zeros(k: nat, s: Seq<char>)
    ensures
        value(zeros(k) + s) == value(s),
    decreases s.len(),
{
    if s.len() == 0 {
        assert(zeros(k) + s =~= zeros(k));
        lemma_value_zeros(k);
    } else {
        assert((zeros(k) + s).drop_last() =~= zeros(k) + s.drop_last());
        assert((zeros(k) + s).last() == s.last());
        lemma_value_leading_zeros(k, s.drop_last());
    }
}

/// Of two digit strings of one length, the one with the smaller digit at the first place
/// they differ has the smaller value.
pub proof fn lemma_value_first_difference(a: Seq<char>, b: Seq<char>, k: int)
    requires
        a.len() == b.len(),
        all_digits(a),
        all_digits(b),
        0 <= k < a.len(),
        a.take(k) == b.take(k),
        a[k] < b[k],
    ensures
        value(a) < value(b),
    decreases a.len(),
{
    let n = a.len();
    assert(is_digit(a[n - 1]) && is_digit(b[n - 1]));
    if k == n - 1 {
        assert(a.drop_last() =~= a.take(k));
        assert(b.drop_last() =~= b.take(k));
    } else {
        assert(a.drop_last().take(k) =~= a.take(k));
        assert(b.drop_last().take(k) =~= b.take(k));
        assert(all_digits(a.drop_last())) by {
            assert forall|i: int| 0 <= i < a.drop_last().len() implies is_digit(#[trigger] a.drop_last()[i]) by {
                assert(a.drop_last()[i] == a[i]);
            }
        }
        assert(all_digits(b.drop_last())) by {
            assert forall|i: int| 0 <= i < b.drop_last().len() implies is_digit(#[trigger] b.drop_last()[i]) by {
                assert(b.drop_last()[i] == b[i]);
            }
        }
        lemma_value_first_difference(a.drop_last(), b.drop_last(), k);
    }
}

proof fn lemma_digit_char(d: nat)
    requires
        d < 10,
    ensures
        digit_value(digit_char(d)) == d,
{
    assert(((d + 48) as char) as int == d + 48);
}

/// The value of a number's decimal text is the number.
pub proof fn lemma_value_decimal(n: nat)
    ensures
        value(decimal(n)) == n,
        decimal(n).len() > 0,
    decreases n,
{
    if n >= 10 {
        lemma_value_decimal(n / 10);
        lemma_digit_char(n % 10);
        let d = decimal(n);
        assert(d == decimal(n / 10).push(digit_char(n % 10)));
        assert(d.drop_last() =~= decimal(n / 10));
        assert(d.last() == digit_char(n % 10));
        assert(value(d) == value(decimal(n / 10)) * 10 + digit_value(digit_char(n % 10)));
        assert(n == (n / 10) * 10 + n % 10);
    } else {
        lemma_digit_char(n);
        let d = decimal(n);
        assert(d == seq![digit_char(n)]);
        assert(d.drop_last() =~= Seq::<char>::empty());
        assert(value(d) == value(d.drop_last()) * 10 + digit_value(d.last()));
    }
}

/// Different numbers have different decimal texts.
pub proof fn lemma_decimal_injective(i: nat, j: nat)
    requires
        decimal(i) == decimal(j),
    ensures
        i == j,
{
    lemma_value_decimal(i);
    lemma_value_decimal(j);
}

/// A number's decimal text is made of digits only.
pub proof fn lemma_decimal_digits(n: nat)
    ensures
        all_digits(decimal(n)),
        decimal(n).len() > 0,
    decreases n,
{
    if n >= 10 {
        lemma_decimal_digits(n / 10);
        let d = decimal(n);
        assert(d == decimal(n / 10).push(digit_char(n % 10)));
        assert(((n % 10 + 48) as char) as int == n % 10 + 48);
        assert forall|i: int| 0 <= i < d.len() implies is_digit(#[trigger] d[i]) by {
            if i < d.len() - 1 {
                assert(d[i] == decimal(n / 10)[i]);
            }
        }
    } else {
        assert(((n + 48) as char) as int == n + 48);
        assert(decimal(n) == seq![digit_char(n)]);
    }
}

} // verus!
