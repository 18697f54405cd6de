//! Natural order of names: embedded numbers compare by value, so `8" Stud` sorts before
//! `12" CMU` and `Level 2` before `Level 10`.

use vstd::prelude::*;

use std::cmp::Ordering;

use crate::digits::{all_digits, lemma_value_first_difference, lemma_value_leading_zeros, value, zeros};
use crate::text::{ascii_lower, chars_of, digit, extend, is_digit, lower, skip_chars, take_chars};

verus! {

// ---------------------------------------------------------------------------------------
// Splitting a name into text and numbers
// ---------------------------------------------------------------------------------------

/// The parts of a name read so far: the finished (text, number) parts, then the text and
/// the number being read. A number is a run of digits, with the dots that follow its
/// first digit; text is kept in ASCII lower case.
pub open spec fn scan(s: Seq<char>) -> (Seq<(Seq<char>, Seq<char>)>, Seq<char>, Seq<char>)
    decreases s.len(),
{
    if s.len() == 0 {
        (Seq::empty(), Seq::empty(), Seq::empty())
    } else {
        let prev = scan(s.drop_last());
        let c = s.last();
        if is_digit(c) || (c == '.' && prev.2.len() > 0) {
            (prev.0, prev.1, prev.2.push(c))
        } else if prev.2.len() > 0 {
            (prev.0.push((prev.1, prev.2)), seq![lower(c)], Seq::empty())
        } else {
            (prev.0, prev.1.push(lower(c)), prev.2)
        }
    }
}

/// The number of dots in `n`.
pub open spec fn dots(n: Seq<char>) -> nat
    decreases n.len(),
{
    if n.len() == 0 {
        0
    } else {
        dots(n.drop_last()) + if n.last() == '.' {
            1nat
        } else {
            0nat
        }
    }
}

/// A number part's amount: -1, or a decimal number written with digits and at most one
/// dot.
pub enum Amount {
    MinusOne,
    Decimal(Seq<char>),
}

/// The amount of a number that is followed by more text: its value, or 0 when it does
/// not read as a number (more than one dot).
pub open spec fn inner_amount(n: Seq<char>) -> Amount {
    if dots(n) <= 1 {
        Amount::Decimal(n)
    } else {
        Amount::Decimal(seq!['0'])
    }
}

/// The amount of the number that ends a name: its value, or -1 when there is none or it
/// does not read as a number.
pub open spec fn final_amount(n: Seq<char>) -> Amount {
    if n.len() > 0 && dots(n) <= 1 {
        Amount::Decimal(n)
    } else {
        Amount::MinusOne
    }
}

/// A name's sort key: its (text, amount) parts.
pub open spec fn sort_key(s: Seq<char>) -> Seq<(Seq<char>, Amount)> {
    let sc = scan(s);
    sc.0.map_values(|x: (Seq<char>, Seq<char>)| (x.0, inner_amount(x.1))).push((sc.1, final_amount(sc.2)))
}

// ---------------------------------------------------------------------------------------
// Orders
// ---------------------------------------------------------------------------------------

/// How two natural numbers compare.
pub open spec fn nat_order(a: nat, b: nat) -> Ordering {
    if a < b {
        Ordering::Less
    } else if a == b {
        Ordering::Equal
    } else {
        Ordering::Greater
    }
}

/// Lexicographic order of character sequences, by code point (for UTF-8 text this is the
/// order of the bytes).
pub open spec fn text_order(a: Seq<char>, b: Seq<char>) -> Ordering
    decreases a.len(),
{
    if a.len() == 0 && b.len() == 0 {
        Ordering::Equal
    } else if a.len() == 0 {
        Ordering::Less
    } else if b.len() == 0 {
        Ordering::Greater
    } else if a[0] < b[0] {
        Ordering::Less
    } else if b[0] < a[0] {
        Ordering::Greater
    } else {
        text_order(a.drop_first(), b.drop_first())
    }
}

/// The digits of a decimal number before its dot.
pub open spec fn whole_part(n: Seq<char>) -> Seq<char>
    decreases n.len(),
{
    if n.len() == 0 || n[0] == '.' {
        Seq::empty()
    } else {
        seq![n[0]] + whole_part(n.drop_first())
    }
}

/// The digits of a decimal number after its dot.
pub open spec fn fraction_part(n: Seq<char>) -> Seq<char>
    decreases n.len(),
{
    if n.len() == 0 {
        Seq::empty()
    } else if n[0] == '.' {
        n.drop_first()
    } else {
        fraction_part(n.drop_first())
    }
}

/// A decimal number times 10 to the power `places`, for `places` at least its number of
/// fraction digits: an integer.
pub open spec fn scaled(n: Seq<char>, places: nat) -> nat {
    value(whole_part(n) + fraction_part(n) + zeros((places - fraction_part(n).len()) as nat))
}

/// How two amounts compare: -1 below every decimal, decimals by their exact value.
pub open spec fn amount_order(x: Amount, y: Amount) -> Ordering {
    match (x, y) {
        (Amount::MinusOne, Amount::MinusOne) => Ordering::Equal,
        (Amount::MinusOne, Amount::Decimal(_)) => Ordering::Less,
        (Amount::Decimal(_), Amount::MinusOne) => Ordering::Greater,
        (Amount::Decimal(a), Amount::Decimal(b)) => {
            let places = if fraction_part(a).len() >= fraction_part(b).len() {
                fraction_part(a).len()
            } else {
                fraction_part(b).len()
            };
            nat_order(scaled(a, places), scaled(b, places))
        },
    }
}

/// How two sort keys compare: part by part, text first and then amount; when one key
/// runs out, the shorter is first.
pub open spec fn key_order(a: Seq<(Seq<char>, Amount)>, b: Seq<(Seq<char>, Amount)>) -> Ordering
    decreases a.len(),
{
    if a.len() == 0 || b.len() == 0 {
        nat_order(a.len(), b.len())
    } else {
        let t = text_order(a[0].0, b[0].0);
        let o = if t == Ordering::Equal {
            amount_order(a[0].1, b[0].1)
        } else {
            t
        };
        if o == Ordering::Equal {
            key_order(a.drop_first(), b.drop_first())
        } else {
            o
        }
    }
}

/// The natural order of two names.
pub open spec fn natural_order(a: Seq<char>, b: Seq<char>) -> Ordering {
    key_order(sort_key(a), sort_key(b))
}

// ---------------------------------------------------------------------------------------
// Computing the order
// ---------------------------------------------------------------------------------------

/// Every character of `n` is a digit or a dot.
pub open spec fn numeric(n: Seq<char>) -> bool {
    forall|i: int| 0 <= i < n.len() ==> is_digit(#[trigger] n[i]) || n[i] == '.'
}

spec fn part_views(v: Seq<(Vec<char>, Vec<char>)>) -> Seq<(Seq<char>, Seq<char>)> {
    v.map_values(|x: (Vec<char>, Vec<char>)| (x.0@, x.1@))
}

/// Splits a name into its finished parts, the last text and the last number.
fn scan_name(s: &str) -> (r: (Vec<(Vec<char>, Vec<char>)>, Vec<char>, Vec<char>))
    ensures
        (part_views(r.0@), r.1@, r.2@) == scan(s@),
        forall|j: int| 0 <= j < r.0@.len() ==> numeric((#[trigger] r.0@[j]).1@),
        numeric(r.2@),
{
    let cs = chars_of(s);
    let mut parts: Vec<(Vec<char>, Vec<char>)> = Vec::new();
    let mut text: Vec<char> = Vec::new();
    let mut num: Vec<char> = Vec::new();
    let mut i: usize = 0;
    while i < cs.len()
        invariant
            i <= cs.len(),
            cs@ == s@,
            (part_views(parts@), text@, num@) == scan(cs@.take(i as int)),
            forall|j: int| 0 <= j < parts@.len() ==> numeric((#[trigger] parts@[j]).1@),
            numeric(num@),
        decreases cs.len() - i,
    {
        let c = cs[i];
        assert(cs@.take(i + 1).drop_last() =~= cs@.take(i as int));
        assert(cs@.take(i + 1).last() == c);
        if digit(c) || (c == '.' && num.len() > 0) {
            num.push(c);
        } else if num.len() > 0 {
            let ghost pv = part_views(parts@);
            let ghost t0 = text@;
            let ghost n0 = num@;
            parts.push((text, num));
            assert(part_views(parts@) =~= pv.push((t0, n0)));
            text = Vec::new();
            text.push(ascii_lower(c));
            num = Vec::new();
            assert(text@ =~= seq![lower(c)]);
            assert(num@ =~= Seq::<char>::empty());
        } else {
            text.push(ascii_lower(c));
        }
        i += 1;
    }
    assert(cs@.take(cs.len() as int) =~= cs@);
    (parts, text, num)
}

/// The number of dots in `n`.
fn dot_count(n: &Vec<char>) -> (k: usize)
    ensures
        k == dots(n@),
{
    let mut k: usize = 0;
    let mut i: usize = 0;
    while i < n.len()
        invariant
            i <= n.len(),
            k == dots(n@.take(i as int)),
            k <= i,
        decreases n.len() - i,
    {
        assert(n@.take(i + 1).drop_last() =~= n@.take(i as int));
        if n[i] == '.' {
            k += 1;
        }
        i += 1;
    }
    assert(n@.take(n.len() as int) =~= n@);
    k
}

/// An amount as the specifications see it: -1 when `missing`, else the decimal `d`.
pub open spec fn amount_of(missing: bool, d: Seq<char>) -> Amount {
    if missing {
        Amount::MinusOne
    } else {
        Amount::Decimal(d)
    }
}

spec fn key_views(v: Seq<(Vec<char>, bool, Vec<char>)>) -> Seq<(Seq<char>, Amount)> {
    v.map_values(|x: (Vec<char>, bool, Vec<char>)| (x.0@, amount_of(x.1, x.2@)))
}

/// The decimals of a key read as numbers: digits with at most one dot.
spec fn key_decimals_ok(v: Seq<(Vec<char>, bool, Vec<char>)>) -> bool {
    forall|j: int| 0 <= j < v.len() ==> !(#[trigger] v[j]).1 ==> numeric(v[j].2@) && dots(v[j].2@) <= 1
}

/// A name's sort key.
fn key_of(s: &str) -> (k: Vec<(Vec<char>, bool, Vec<char>)>)
    ensures
        key_views(k@) == sort_key(s@),
        key_decimals_ok(k@),
{
    let (parts, text, num) = scan_name(s);
    let ghost sc = scan(s@);
    let ghost inner = sc.0.map_values(|x: (Seq<char>, Seq<char>)| (x.0, inner_amount(x.1)));
    let mut k: Vec<(Vec<char>, bool, Vec<char>)> = Vec::new();
    let mut i: usize = 0;
    while i < parts.len()
        invariant
            i <= parts.len(),
            part_views(parts@) == sc.0,
            inner == sc.0.map_values(|x: (Seq<char>, Seq<char>)| (x.0, inner_amount(x.1))),
            forall|j: int| 0 <= j < parts@.len() ==> numeric((#[trigger] parts@[j]).1@),
            key_views(k@) == inner.take(i as int),
            key_decimals_ok(k@),
        decreases parts.len() - i,
    {
        let t = take_chars(&parts[i].0, parts[i].0.len());
        let d = take_chars(&parts[i].1, parts[i].1.len());
        assert(parts[i as int].0@.take(parts[i as int].0@.len() as int) =~= parts[i as int].0@);
        assert(parts[i as int].1@.take(parts[i as int].1@.len() as int) =~= parts[i as int].1@);
        assert(sc.0[i as int] == (parts@[i as int].0@, parts@[i as int].1@));
        let ghost k0 = key_views(k@);
        if dot_count(&d) <= 1 {
            k.push((t, false, d));
        } else {
            let zero: Vec<char> = vec!['0'];
            k.push((t, false, zero));
            assert(zero@ =~= seq!['0']);
        }
        assert(key_views(k@) =~= k0.push(inner[i as int]));
        assert(inner.take(i + 1) =~= inner.take(i as int).push(inner[i as int]));
        assert(key_decimals_ok(k@)) by {
            assert forall|j: int| 0 <= j < k@.len() && !(#[trigger] k@[j]).1 implies numeric(k@[j].2@) && dots(k@[j].2@) <= 1 by {
                if j == k@.len() - 1 && k@[j].2@ == seq!['0'] {
                    assert(dots(seq!['0']) == 0) by {
                        assert(seq!['0'].drop_last() =~= Seq::<char>::empty());
                        assert(seq!['0'].last() == '0');
                        assert(dots(Seq::<char>::empty()) == 0);
                    }
                }
            }
        }
        i += 1;
    }
    assert(inner.take(parts.len() as int) =~= inner);
    let ghost k0 = key_views(k@);
    if num.len() > 0 && dot_count(&num) <= 1 {
        k.push((text, false, num));
    } else {
        k.push((text, true, Vec::new()));
    }
    assert(key_views(k@) =~= k0.push((sc.1, final_amount(sc.2))));
    k
}

proof fn lemma_dots_concat(a: Seq<char>, b: Seq<char>)
    ensures
        dots(a + b) == dots(a) + dots(b),
    decreases b.len(),
{
    if b.len() == 0 {
        assert(a + b =~= a);
    } else {
        assert((a + b).drop_last() =~= a + b.drop_last());
        assert((a + b).last() == b.last());
        lemma_dots_concat(a, b.drop_last());
    }
}

proof fn lemma_no_dots(s: Seq<char>)
    requires
        dots(s) == 0,
    ensures
        forall|j: int| 0 <= j < s.len() ==> s[j] != '.',
    decreases s.len(),
{
    if s.len() > 0 {
        lemma_no_dots(s.drop_last());
        assert forall|j: int| 0 <= j < s.len() implies s[j] != '.' by {
            if j < s.len() - 1 {
                assert(s[j] == s.drop_last()[j]);
            }
        }
    }
}

/// The whole and fraction digits of a decimal number.
fn split_decimal(n: &Vec<char>) -> (r: (Vec<char>, Vec<char>))
    requires
        numeric(n@),
        dots(n@) <= 1,
    ensures
        r.0@ == whole_part(n@),
        r.1@ == fraction_part(n@),
        all_digits(r.0@),
        all_digits(r.1@),
{
    let mut i: usize = 0;
    assert(n@.skip(0) =~= n@);
    assert(n@.take(0) + whole_part(n@) =~= whole_part(n@));
    while i < n.len() && n[i] != '.'
        invariant
            i <= n.len(),
            whole_part(n@) == n@.take(i as int) + whole_part(n@.skip(i as int)),
            fraction_part(n@) == fraction_part(n@.skip(i as int)),
            forall|j: int| 0 <= j < i ==> n@[j] != '.',
        decreases n.len() - i,
    {
        let ghost t = n@.skip(i as int);
        assert(t[0] == n@[i as int]);
        assert(t.drop_first() =~= n@.skip(i + 1));
        assert(n@.take(i + 1) =~= n@.take(i as int) + seq![n@[i as int]]);
        assert(n@.take(i as int) + (seq![n@[i as int]] + whole_part(n@.skip(i + 1)))
            =~= n@.take(i + 1) + whole_part(n@.skip(i + 1)));
        i += 1;
    }
    let w = take_chars(n, i);
    assert(all_digits(w@)) by {
        assert forall|j: int| 0 <= j < w@.len() implies is_digit(#[trigger] w@[j]) by {
            assert(w@[j] == n@[j]);
        }
    }
    if i == n.len() {
        assert(n@.skip(i as int).len() == 0);
        assert(w@ =~= whole_part(n@));
        let f: Vec<char> = Vec::new();
        assert(f@ =~= fraction_part(n@));
        (w, f)
    } else {
        let ghost t = n@.skip(i as int);
        assert(t[0] == '.');
        assert(t.drop_first() =~= n@.skip(i + 1));
        assert(w@ =~= whole_part(n@));
        let f = skip_chars(n, i + 1);
        proof {
            assert(n@ =~= n@.take(i + 1) + n@.skip(i + 1));
            lemma_dots_concat(n@.take(i + 1), n@.skip(i + 1));
            assert(n@.take(i + 1).drop_last() =~= n@.take(i as int));
            assert(n@.take(i + 1).last() == '.');
            lemma_no_dots(n@.skip(i + 1));
            assert forall|j: int| 0 <= j < f@.len() implies is_digit(#[trigger] f@[j]) by {
                assert(f@[j] == n@[i + 1 + j]);
            }
        }
        (w, f)
    }
}

/// `zeros(m - w.len())`, then `w`, `f` and `zeros(l - f.len())`: the number `w.f` times
/// ten to the power `l`, written with `m + l` digits.
fn padded(w: &Vec<char>, f: &Vec<char>, m: usize, l: usize) -> (r: Vec<char>)
    requires
        w.len() <= m,
        f.len() <= l,
        all_digits(w@),
        all_digits(f@),
    ensures
        r@.len() == m + l,
        all_digits(r@),
        value(r@) == value(w@ + f@ + zeros((l - f.len()) as nat)),
{
    let mut r: Vec<char> = Vec::new();
    let mut i: usize = 0;
    while i < m - w.len()
        invariant
            w.len() <= m,
            i <= m - w.len(),
            r@ == zeros(i as nat),
        decreases m - w.len() - i,
    {
        r.push('0');
        assert(r@ =~= zeros((i + 1) as nat));
        i += 1;
    }
    extend(&mut r, w);
    extend(&mut r, f);
    let mut j: usize = 0;
    let ghost base = r@;
    while j < l - f.len()
        invariant
            f.len() <= l,
            j <= l - f.len(),
            r@ == base + zeros(j as nat),
        decreases l - f.len() - j,
    {
        r.push('0');
        assert(r@ =~= base + zeros((j + 1) as nat));
        j += 1;
    }
    proof {
        let tail = w@ + f@ + zeros((l - f.len()) as nat);
        assert(r@ =~= zeros((m - w.len()) as nat) + tail);
        lemma_value_leading_zeros((m - w.len()) as nat, tail);
        assert forall|q: int| 0 <= q < r@.len() implies is_digit(#[trigger] r@[q]) by {
            if q < m - w.len() {
            } else if q < m {
                assert(r@[q] == w@[q - (m - w.len())]);
            } else if q < m + f.len() {
                assert(r@[q] == f@[q - m]);
            }
        }
    }
    r
}

/// The elements of `s` from position `i` on.
pub open spec fn rest<T>(s: Seq<T>, i: usize) -> Seq<T> {
    s.skip(i as int)
}

proof fn lemma_rest_step<T>(s: Seq<T>, i: usize)
    requires
        i < s.len(),
    ensures
        rest(s, i).len() > 0,
        rest(s, i)[0] == s[i as int],
        forall|j: usize| j == i + 1 ==> rest(s, i).drop_first() == #[trigger] rest(s, j),
{
    assert forall|j: usize| j == i + 1 implies rest(s, i).drop_first() == #[trigger] rest(s, j) by {
        assert(rest(s, i).drop_first() =~= rest(s, j));
    }
}

proof fn lemma_rest_start<T>(s: Seq<T>)
    ensures
        rest(s, 0) == s,
{
    assert(rest(s, 0) =~= s);
}

proof fn lemma_rest_end<T>(s: Seq<T>, i: usize)
    requires
        i == s.len(),
    ensures
        rest(s, i).len() == 0,
{
}

proof fn lemma_key_view_at(k: Seq<(Vec<char>, bool, Vec<char>)>, i: usize)
    requires
        i < k.len(),
        key_decimals_ok(k),
    ensures
        item(key_views(k), i) == (k[i as int].0@, amount_of(k[i as int].1, k[i as int].2@)),
        !k[i as int].1 ==> numeric(k[i as int].2@) && dots(k[i as int].2@) <= 1,
{
}

/// The element of `s` at position `i`.
pub open spec fn item<T>(s: Seq<T>, i: usize) -> T {
    s[i as int]
}

proof fn lemma_key_order_at(a: Seq<(Seq<char>, Amount)>, b: Seq<(Seq<char>, Amount)>, i: usize)
    requires
        i < a.len(),
        i < b.len(),
    ensures
        ({
            let t = text_order(item(a, i).0, item(b, i).0);
            let o = if t == Ordering::Equal {
                amount_order(item(a, i).1, item(b, i).1)
            } else {
                t
            };
            &&& o != Ordering::Equal ==> key_order(rest(a, i), rest(b, i)) == o
            &&& o == Ordering::Equal ==> key_order(rest(a, i), rest(b, i)) == key_order(
                rest(a, i).drop_first(),
                rest(b, i).drop_first(),
            )
        }),
{
    lemma_rest_step(a, i);
    lemma_rest_step(b, i);
}

proof fn lemma_first_difference_at(a: Seq<char>, b: Seq<char>, i: usize)
    requires
        a.len() == b.len(),
        all_digits(a),
        all_digits(b),
        i < a.len(),
        forall|j: int| 0 <= j < i ==> a[j] == b[j],
        a[i as int] < b[i as int],
    ensures
        value(a) < value(b),
{
    assert(a.take(i as int) =~= b.take(i as int));
    lemma_value_first_difference(a, b, i as int);
}

/// How two digit strings of one length compare by value.
fn digits_order(a: &Vec<char>, b: &Vec<char>) -> (r: Ordering)
    requires
        a.len() == b.len(),
        all_digits(a@),
        all_digits(b@),
    ensures
        r == nat_order(value(a@), value(b@)),
{
    let mut i: usize = 0;
    while i < a.len() && a[i] == b[i]
        invariant
            i <= a.len() == b.len(),
            forall|j: int| 0 <= j < i ==> a@[j] == b@[j],
        decreases a.len() - i,
    {
        i += 1;
    }
    if i == a.len() {
        assert(a@ =~= b@);
        Ordering::Equal
    } else if a[i] < b[i] {
        proof {
            lemma_first_difference_at(a@, b@, i);
        }
        Ordering::Less
    } else {
        proof {
            lemma_first_difference_at(b@, a@, i);
        }
        Ordering::Greater
    }
}

/// How two texts compare, character by character.
fn text_order_of(a: &Vec<char>, b: &Vec<char>) -> (r: Ordering)
    ensures
        r == text_order(a@, b@),
{
    let mut i: usize = 0;
    proof {
        lemma_rest_start(a@);
        lemma_rest_start(b@);
    }
    loop
        invariant
            i <= a.len(),
            i <= b.len(),
            text_order(a@, b@) == text_order(rest(a@, i), rest(b@, i)),
        decreases a.len() + b.len() - 2 * i,
    {
        if i >= a.len() && i >= b.len() {
            proof {
                lemma_rest_end(a@, i);
                lemma_rest_end(b@, i);
            }
            return Ordering::Equal;
        }
        if i >= a.len() {
            proof {
                lemma_rest_end(a@, i);
                lemma_rest_step(b@, i);
            }
            return Ordering::Less;
        }
        if i >= b.len() {
            proof {
                lemma_rest_end(b@, i);
                lemma_rest_step(a@, i);
            }
            return Ordering::Greater;
        }
        proof {
            lemma_rest_step(a@, i);
            lemma_rest_step(b@, i);
        }
        if a[i] < b[i] {
            return Ordering::Less;
        }
        if b[i] < a[i] {
            return Ordering::Greater;
        }
        i += 1;
    }
}

/// How two amounts compare.
fn amount_order_of(xm: bool, x: &Vec<char>, ym: bool, y: &Vec<char>) -> (r: Ordering)
    requires
        !xm ==> numeric(x@) && dots(x@) <= 1,
        !ym ==> numeric(y@) && dots(y@) <= 1,
    ensures
        r == amount_order(amount_of(xm, x@), amount_of(ym, y@)),
{
    if xm && ym {
        return Ordering::Equal;
    }
    if xm {
        return Ordering::Less;
    }
    if ym {
        return Ordering::Greater;
    }
    let (xw, xf) = split_decimal(x);
    let (yw, yf) = split_decimal(y);
    let l = if xf.len() >= yf.len() {
        xf.len()
    } else {
        yf.len()
    };
    let m = if xw.len() >= yw.len() {
        xw.len()
    } else {
        yw.len()
    };
    let a = padded(&xw, &xf, m, l);
    let b = padded(&yw, &yf, m, l);
    digits_order(&a, &b)
}

/// Compares names with embedded numbers by value: `8" Stud` sorts before `12" CMU`.
/// Text compares in ASCII lower case; numbers compare by their exact decimal value.
pub fn natural_cmp(a: &str, b: &str) -> (r: Ordering)
    ensures
        r == natural_order(a@, b@),
{
    let ka = key_of(a);
    let kb = key_of(b);
    let ghost va = key_views(ka@);
    let ghost vb = key_views(kb@);
    let mut i: usize = 0;
    proof {
        lemma_rest_start(va);
        lemma_rest_start(vb);
    }
    while i < ka.len() && i < kb.len()
        invariant
            i <= ka.len(),
            i <= kb.len(),
            va == key_views(ka@),
            vb == key_views(kb@),
            va == sort_key(a@),
            vb == sort_key(b@),
            key_decimals_ok(ka@),
            key_decimals_ok(kb@),
            key_order(va, vb) == key_order(rest(va, i), rest(vb, i)),
        decreases ka.len() - i,
    {
        proof {
            lemma_rest_step(va, i);
            lemma_rest_step(vb, i);
        }
        proof {
            lemma_key_view_at(ka@, i);
            lemma_key_view_at(kb@, i);
            lemma_key_order_at(va, vb, i);
        }
        let t = text_order_of(&ka[i].0, &kb[i].0);
        let o = match t {
            Ordering::Equal => amount_order_of(ka[i].1, &ka[i].2, kb[i].1, &kb[i].2),
            other => other,
        };
        match o {
            Ordering::Equal => {},
            other => {
                return other;
            },
        }
        i += 1;
    }
    if i < ka.len() {
        proof {
            lemma_rest_end(vb, i);
            lemma_rest_step(va, i);
        }
        Ordering::Greater
    } else if i < kb.len() {
        proof {
            lemma_rest_end(va, i);
            lemma_rest_step(vb, i);
        }
        Ordering::Less
    } else {
        proof {
            lemma_rest_end(va, i);
            lemma_rest_end(vb, i);
        }
        Ordering::Equal
    }
}

// ---------------------------------------------------------------------------------------
// Laws
// ---------------------------------------------------------------------------------------

/// The opposite of an order.
pub open spec fn flipped(o: Ordering) -> Ordering {
    match o {
        Ordering::Less => Ordering::Greater,
        Ordering::Equal => Ordering::Equal,
        Ordering::Greater => Ordering::Less,
    }
}

proof fn lemma_text_order_flip(a: Seq<char>, b: Seq<char>)
    ensures
        text_order(b, a) == flipped(text_order(a, b)),
        text_order(a, a) == Ordering::Equal,
    decreases a.len(),
{
    if a.len() > 0 && b.len() > 0 {
        lemma_text_order_flip(a.drop_first(), b.drop_first());
    }
    if a.len() > 0 {
        lemma_text_order_flip(a.drop_first(), a.drop_first());
    }
}

proof fn lemma_amount_order_flip(x: Amount, y: Amount)
    ensures
        amount_order(y, x) == flipped(amount_order(x, y)),
        amount_order(x, x) == Ordering::Equal,
{
}

proof fn lemma_key_order_flip(a: Seq<(Seq<char>, Amount)>, b: Seq<(Seq<char>, Amount)>)
    ensures
        key_order(b, a) == flipped(key_order(a, b)),
        key_order(a, a) == Ordering::Equal,
    decreases a.len(),
{
    if a.len() > 0 {
        lemma_text_order_flip(a[0].0, a[0].0);
        lemma_amount_order_flip(a[0].1, a[0].1);
        lemma_key_order_flip(a.drop_first(), a.drop_first());
    }
    if a.len() > 0 && b.len() > 0 {
        lemma_text_order_flip(a[0].0, b[0].0);
        lemma_amount_order_flip(a[0].1, b[0].1);
        lemma_key_order_flip(a.drop_first(), b.drop_first());
    }
}

/// A name sorts level with itself, and swapping two names flips their order.
pub proof fn lemma_natural_order_flips(a: Seq<char>, b: Seq<char>)
    ensures
        natural_order(a, a) == Ordering::Equal,
        natural_order(b, a) == flipped(natural_order(a, b)),
{
    lemma_key_order_flip(sort_key(a), sort_key(b));
}

/// `o` is `Less` or `Equal`.
pub open spec fn at_most(o: Ordering) -> bool {
    o != Ordering::Greater
}

proof fn lemma_text_order_trans(a: Seq<char>, b: Seq<char>, c: Seq<char>)
    requires
        at_most(text_order(a, b)),
        at_most(text_order(b, c)),
    ensures
        at_most(text_order(a, c)),
        text_order(a, b) == Ordering::Less || text_order(b, c) == Ordering::Less ==> text_order(a, c)
            == Ordering::Less,
    decreases a.len(),
{
    if a.len() > 0 && b.len() > 0 && c.len() > 0 && a[0] == b[0] && b[0] == c[0] {
        lemma_text_order_trans(a.drop_first(), b.drop_first(), c.drop_first());
    }
}

proof fn lemma_scaled_step(n: Seq<char>, p: nat)
    requires
        p >= fraction_part(n).len(),
    ensures
        scaled(n, p + 1) == 10 * scaled(n, p),
{
    let f = fraction_part(n);
    let s = whole_part(n) + f + zeros((p - f.len()) as nat);
    assert(whole_part(n) + f + zeros((p + 1 - f.len()) as nat) =~= s.push('0'));
    assert(s.push('0').drop_last() =~= s);
}

/// Comparing two decimals at any common number of places gives one answer.
proof fn lemma_scaled_places(x: Seq<char>, y: Seq<char>, p: nat, q: nat)
    requires
        p >= fraction_part(x).len(),
        p >= fraction_part(y).len(),
        p <= q,
    ensures
        nat_order(scaled(x, p), scaled(y, p)) == nat_order(scaled(x, q), scaled(y, q)),
    decreases q - p,
{
    if p < q {
        lemma_scaled_step(x, p);
        lemma_scaled_step(y, p);
        lemma_scaled_places(x, y, p + 1, q);
    }
}

/// How two decimals compare, at any number of places at least both their fractions.
proof fn lemma_amount_order_at(a: Seq<char>, b: Seq<char>, q: nat)
    requires
        q >= fraction_part(a).len(),
        q >= fraction_part(b).len(),
    ensures
        amount_order(Amount::Decimal(a), Amount::Decimal(b)) == nat_order(scaled(a, q), scaled(b, q)),
{
    let p = if fraction_part(a).len() >= fraction_part(b).len() {
        fraction_part(a).len()
    } else {
        fraction_part(b).len()
    };
    lemma_scaled_places(a, b, p, q);
}

proof fn lemma_amount_order_trans(x: Amount, y: Amount, z: Amount)
    requires
        at_most(amount_order(x, y)),
        at_most(amount_order(y, z)),
    ensures
        at_most(amount_order(x, z)),
        amount_order(x, y) == Ordering::Less || amount_order(y, z) == Ordering::Less ==> amount_order(x, z)
            == Ordering::Less,
{
    match (x, y, z) {
        (Amount::Decimal(a), Amount::Decimal(b), Amount::Decimal(c)) => {
            let fa = fraction_part(a).len();
            let fb = fraction_part(b).len();
            let fc = fraction_part(c).len();
            let q = if fa >= fb && fa >= fc {
                fa
            } else if fb >= fc {
                fb
            } else {
                fc
            };
            lemma_amount_order_at(a, b, q);
            lemma_amount_order_at(b, c, q);
            lemma_amount_order_at(a, c, q);
        },
        _ => {},
    }
}

/// How two parts of sort keys compare: text first, then amount.
pub open spec fn part_order(x: (Seq<char>, Amount), y: (Seq<char>, Amount)) -> Ordering {
    let t = text_order(x.0, y.0);
    if t == Ordering::Equal {
        amount_order(x.1, y.1)
    } else {
        t
    }
}

proof fn lemma_part_order_trans(x: (Seq<char>, Amount), y: (Seq<char>, Amount), z: (Seq<char>, Amount))
    requires
        at_most(part_order(x, y)),
        at_most(part_order(y, z)),
    ensures
        at_most(part_order(x, z)),
        part_order(x, y) == Ordering::Less || part_order(y, z) == Ordering::Less ==> part_order(x, z)
            == Ordering::Less,
{
    lemma_text_order_trans(x.0, y.0, z.0);
    lemma_text_order_flip(x.0, y.0);
    lemma_text_order_flip(y.0, z.0);
    lemma_text_order_flip(x.0, z.0);
    if text_order(x.0, y.0) == Ordering::Equal && text_order(y.0, z.0) == Ordering::Equal {
        lemma_amount_order_trans(x.1, y.1, z.1);
    }
    if text_order(x.0, y.0) == Ordering::Equal {
        lemma_text_equal(x.0, y.0);
    }
    if text_order(y.0, z.0) == Ordering::Equal {
        lemma_text_equal(y.0, z.0);
    }
}

proof fn lemma_text_equal(a: Seq<char>, b: Seq<char>)
    requires
        text_order(a, b) == Ordering::Equal,
    ensures
        a == b,
    decreases a.len(),
{
    if a.len() > 0 && b.len() > 0 {
        lemma_text_equal(a.drop_first(), b.drop_first());
        assert(a =~= seq![a[0]] + a.drop_first());
        assert(b =~= seq![b[0]] + b.drop_first());
    } else {
        assert(a =~= b);
    }
}

proof fn lemma_key_order_trans(a: Seq<(Seq<char>, Amount)>, b: Seq<(Seq<char>, Amount)>, c: Seq<(Seq<char>, Amount)>)
    requires
        at_most(key_order(a, b)),
        at_most(key_order(b, c)),
    ensures
        at_most(key_order(a, c)),
        key_order(a, b) == Ordering::Less || key_order(b, c) == Ordering::Less ==> key_order(a, c)
            == Ordering::Less,
    decreases a.len(),
{
    if a.len() > 0 && b.len() > 0 && c.len() > 0 {
        assert(key_order(a, b) == (if part_order(a[0], b[0]) == Ordering::Equal {
            key_order(a.drop_first(), b.drop_first())
        } else {
            part_order(a[0], b[0])
        }));
        assert(key_order(b, c) == (if part_order(b[0], c[0]) == Ordering::Equal {
            key_order(b.drop_first(), c.drop_first())
        } else {
            part_order(b[0], c[0])
        }));
        assert(key_order(a, c) == (if part_order(a[0], c[0]) == Ordering::Equal {
            key_order(a.drop_first(), c.drop_first())
        } else {
            part_order(a[0], c[0])
        }));
        lemma_part_order_trans(a[0], b[0], c[0]);
        if part_order(a[0], b[0]) == Ordering::Equal && part_order(b[0], c[0]) == Ordering::Equal {
            lemma_key_order_trans(a.drop_first(), b.drop_first(), c.drop_first());
        }
    }
}

/// The natural order is transitive: with `a` no later than `b` and `b` no later than `c`,
/// `a` is no later than `c`, and strictly earlier when either step is.
pub proof fn lemma_natural_order_transitive(a: Seq<char>, b: Seq<char>, c: Seq<char>)
    requires
        at_most(natural_order(a, b)),
        at_most(natural_order(b, c)),
    ensures
        at_most(natural_order(a, c)),
        natural_order(a, b) == Ordering::Less || natural_order(b, c) == Ordering::Less ==> natural_order(a, c)
            == Ordering::Less,
{
    lemma_key_order_trans(sort_key(a), sort_key(b), sort_key(c));
}

} // verus!
