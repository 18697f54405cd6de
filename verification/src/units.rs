//! Lengths and areas as US architectural text. Lengths are rounded to whole sixteenths of
//! an inch and areas to whole square feet before they are written; what is written from
//! those whole numbers is defined here.

use vstd::prelude::*;

use crate::digits::{all_digits, decimal, decimal_text, lemma_decimal_digits, lemma_value_decimal, value};
use crate::text::{append, extend, string_of, take_chars, skip_chars};

verus! {

/// A fraction of an inch in lowest terms, halving both parts while the numerator is even.
pub open spec fn lowest_terms(num: nat, den: nat) -> (nat, nat)
    decreases num,
{
    if num > 0 && num % 2 == 0 {
        lowest_terms(num / 2, den / 2)
    } else {
        (num, den)
    }
}

/// A length of `sixteenths` sixteenths of an inch as feet-inches, e.g. `12'-6 1/2"`, with a
/// minus sign when `negative` and not zero.
pub open spec fn feet_inches_text(negative: bool, sixteenths: nat) -> Seq<char> {
    let feet = sixteenths / 192;
    let rem = sixteenths % 192;
    let inches = rem / 16;
    let f = lowest_terms(rem % 16, 16);
    let sign = if negative && sixteenths > 0 {
        seq!['-']
    } else {
        Seq::empty()
    };
    let frac = if f.0 > 0 {
        seq![' '] + decimal(f.0) + seq!['/'] + decimal(f.1)
    } else {
        Seq::empty()
    };
    sign + decimal(feet) + seq!['\'', '-'] + decimal(inches) + frac + seq!['"']
}

/// A length of `sixteenths` sixteenths of an inch as feet-inches, e.g. `12'-6 1/2"`.
pub fn format_sixteenths(negative: bool, sixteenths: u64) -> (s: String)
    ensures
        s@ == feet_inches_text(negative, sixteenths as nat),
{
    let feet = sixteenths / 192;
    let rem = sixteenths % 192;
    let inches = rem / 16;
    let mut num = rem % 16;
    let mut den: u64 = 16;
    while num > 0 && num % 2 == 0
        invariant
            num < 16,
            den <= 16,
            lowest_terms(num as nat, den as nat) == lowest_terms((rem % 16) as nat, 16),
        decreases num,
    {
        num = num / 2;
        den = den / 2;
    }
    let mut v: Vec<char> = Vec::new();
    if negative && sixteenths > 0 {
        v.push('-');
    }
    let f = decimal_text(feet);
    extend(&mut v, &f);
    v.push('\'');
    v.push('-');
    let i = decimal_text(inches);
    extend(&mut v, &i);
    if num > 0 {
        v.push(' ');
        let n = decimal_text(num);
        extend(&mut v, &n);
        v.push('/');
        let d = decimal_text(den);
        extend(&mut v, &d);
    }
    v.push('"');
    let ghost want = feet_inches_text(negative, sixteenths as nat);
    assert(v@ =~= want);
    string_of(&v)
}

/// A negative length is written as the same length with a minus sign in front; zero has
/// no sign, and a length that is not negative starts with a digit.
pub proof fn lemma_negative_lengths(sixteenths: nat)
    ensures
        sixteenths > 0 ==> feet_inches_text(true, sixteenths) == seq!['-'] + feet_inches_text(false, sixteenths),
        feet_inches_text(true, 0) == feet_inches_text(false, 0),
        feet_inches_text(false, sixteenths).len() > 0,
        crate::text::is_digit(feet_inches_text(false, sixteenths)[0]),
{
    lemma_decimal_digits(sixteenths / 192);
    let t = feet_inches_text(false, sixteenths);
    assert(t[0] == decimal(sixteenths / 192)[0]);
    if sixteenths > 0 {
        assert(feet_inches_text(true, sixteenths) =~= seq!['-'] + t);
    } else {
        assert(feet_inches_text(true, 0) =~= feet_inches_text(false, 0));
    }
}

/// Halving a fraction of an inch to lowest terms keeps its value and leaves an odd
/// numerator over 2, 4, 8 or 16.
proof fn lemma_lowest_terms(num: nat, den: nat)
    requires
        0 < num < den,
        den == 2 || den == 4 || den == 8 || den == 16,
    ensures
        ({
            let f = lowest_terms(num, den);
            &&& f.0 * den == num * f.1
            &&& f.0 % 2 == 1
            &&& 0 < f.0 < f.1
            &&& (f.1 == 2 || f.1 == 4 || f.1 == 8 || f.1 == 16)
        }),
    decreases num,
{
    if num % 2 == 0 {
        lemma_lowest_terms(num / 2, den / 2);
        let f = lowest_terms(num / 2, den / 2);
        assert(f.0 * (den / 2) == (num / 2) * f.1);
        assert(f.0 * den == num * f.1) by (nonlinear_arith)
            requires
                f.0 * (den / 2) == (num / 2) * f.1,
                num % 2 == 0,
                den % 2 == 0,
        ;
    }
}

/// A fraction of an inch as written after the inches: nothing for a whole number of
/// inches, else a space, the numerator, a slash and the denominator, in lowest terms, equal
/// to `r` sixteenths.
pub open spec fn fraction_text_is(fr: Seq<char>, r: nat) -> bool {
    ||| r == 0 && fr.len() == 0
    ||| exists|a: Seq<char>, b: Seq<char>|
        #![trigger all_digits(a), all_digits(b)]
        fr == seq![' '] + a + seq!['/'] + b && a.len() > 0 && b.len() > 0 && all_digits(a) && all_digits(b)
            && value(a) * 16 == r * value(b) && value(a) % 2 == 1 && value(a) < value(b)
            && (value(b) == 2 || value(b) == 4 || value(b) == 8 || value(b) == 16)
}

/// A length reads back from its text: whole feet, then `'-`, then the inches under a
/// foot, then the fraction of an inch in lowest terms, then `"`; together they make up the
/// length.
pub proof fn lemma_length_reads_back(sixteenths: nat)
    ensures
        exists|f: Seq<char>, i: Seq<char>, fr: Seq<char>|
            #![trigger all_digits(f), all_digits(i), fraction_text_is(fr, sixteenths % 16)]
            feet_inches_text(false, sixteenths) == f + seq!['\'', '-'] + i + fr + seq!['"']
                && f.len() > 0 && all_digits(f) && i.len() > 0 && all_digits(i)
                && value(f) == sixteenths / 192 && value(i) == (sixteenths % 192) / 16 && value(i) < 12
                && fraction_text_is(fr, sixteenths % 16),
{
    let n = sixteenths;
    let f = decimal(n / 192);
    let i = decimal((n % 192) / 16);
    lemma_decimal_digits(n / 192);
    lemma_decimal_digits((n % 192) / 16);
    lemma_value_decimal(n / 192);
    lemma_value_decimal((n % 192) / 16);
    assert((n % 192) % 16 == n % 16) by (nonlinear_arith);
    let r = (n % 192) % 16;
    let lt = lowest_terms(r, 16);
    let fr = if lt.0 > 0 {
        seq![' '] + decimal(lt.0) + seq!['/'] + decimal(lt.1)
    } else {
        Seq::empty()
    };
    if r > 0 {
        lemma_lowest_terms(r, 16);
        lemma_decimal_digits(lt.0);
        lemma_decimal_digits(lt.1);
        lemma_value_decimal(lt.0);
        lemma_value_decimal(lt.1);
        assert(fraction_text_is(fr, n % 16)) by {
            let a = decimal(lt.0);
            let b = decimal(lt.1);
            assert(fr == seq![' '] + a + seq!['/'] + b);
        }
    } else {
        assert(lowest_terms(0, 16) == (0nat, 16nat));
        assert(fraction_text_is(fr, n % 16));
    }
    assert(feet_inches_text(false, n) =~= f + seq!['\'', '-'] + i + fr + seq!['"']);
}

/// Digits with a comma before each group of three, counted from the right.
pub open spec fn grouped(d: Seq<char>) -> Seq<char>
    decreases d.len(),
{
    if d.len() <= 3 {
        d
    } else {
        grouped(d.take(d.len() - 3)) + seq![','] + d.skip(d.len() - 3)
    }
}

fn group_digits(d: &Vec<char>) -> (r: Vec<char>)
    ensures
        r@ == grouped(d@),
    decreases d.len(),
{
    if d.len() <= 3 {
        take_chars(d, d.len())
    } else {
        let head = take_chars(d, d.len() - 3);
        let mut r = group_digits(&head);
        r.push(',');
        let tail = skip_chars(d, d.len() - 3);
        extend(&mut r, &tail);
        r
    }
}

/// An area of `sf` whole square feet, e.g. `1,200 SF`.
pub open spec fn square_feet_text(sf: int) -> Seq<char> {
    let sign = if sf < 0 {
        seq!['-']
    } else {
        Seq::empty()
    };
    let n = if sf < 0 {
        -sf
    } else {
        sf
    };
    sign + grouped(decimal(n as nat)) + seq![' ', 'S', 'F']
}

/// An area of `sf` whole square feet, e.g. `1,200 SF`.
pub fn format_square_feet(sf: i64) -> (s: String)
    requires
        sf > i64::MIN,
    ensures
        s@ == square_feet_text(sf as int),
{
    let n: u64 = if sf < 0 {
        (-sf) as u64
    } else {
        sf as u64
    };
    let digits = decimal_text(n);
    let g = group_digits(&digits);
    let mut v: Vec<char> = Vec::new();
    if sf < 0 {
        v.push('-');
    }
    extend(&mut v, &g);
    append(&mut v, " SF");
    proof {
        reveal_strlit(" SF");
    }
    assert(v@ =~= square_feet_text(sf as int));
    string_of(&v)
}

} // verus!
