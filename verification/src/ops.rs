//! Model operations used by the app: names of new grids, levels and sheets, scale labels,
//! and the rows of the properties panel.

use vstd::prelude::*;

use crate::digits::{all_digits, decimal, decimal_text, digits_value, trailing_digits, value};
use crate::document::CoreError;
use crate::element::{id_text, uuid_parse, Category, ElementId};
use crate::text::{
    append, chars_of, digit, extend, is_digit, is_upper, owned, skip_chars, string_of, take_chars, trim_of,
    trimmed, upper, is_white, lemma_blank_trims_to_nothing, lemma_trim_keeps_ink,
};

verus! {

// ---------------------------------------------------------------------------------------
// Grid and sheet names
// ---------------------------------------------------------------------------------------

/// What std's `u64::from_str` accepts of `s`: an optional `+`, then at least one digit,
/// with a value that fits in a `u64`.
pub open spec fn parsed_u64(s: Seq<char>) -> Option<nat> {
    let d = if s.len() > 0 && s[0] == '+' {
        s.drop_first()
    } else {
        s
    };
    if d.len() > 0 && all_digits(d) && value(d) <= u64::MAX {
        Some(value(d))
    } else {
        None
    }
}

/// Every character of `s` is an ASCII capital letter.
pub open spec fn all_upper(s: Seq<char>) -> bool {
    forall|i: int| 0 <= i < s.len() ==> is_upper(#[trigger] s[i])
}

/// The next name in the sequence A, B, …, Z, AA, AB, …: the last letter steps on, and a
/// `Z` turns to `A` and carries into the letter before it.
pub open spec fn next_letters(s: Seq<char>) -> Seq<char>
    decreases s.len(),
{
    if s.len() == 0 {
        seq!['A']
    } else if s.last() == 'Z' {
        next_letters(s.drop_last()).push('A')
    } else {
        s.drop_last().push(((s.last() as int) + 1) as char)
    }
}

/// The number at the end of `s` and what comes before it, split at `k` trailing digits.
pub open spec fn digits_at_end(s: Seq<char>) -> (Seq<char>, nat) {
    let k = trailing_digits(s);
    let n = value(s.skip(s.len() - k));
    (s.take(s.len() - k), if n <= u64::MAX {
        n
    } else {
        0
    })
}

/// The grid name after `last`: a number steps on (1 → 2), so does a number at the end
/// (A1 → A2), capital letters go on A, B, …, Z, AA; anything else gets a 1 appended.
pub open spec fn next_grid(last: Seq<char>) -> Seq<char> {
    match parsed_u64(last) {
        Some(n) => decimal(n + 1),
        None => if trailing_digits(last) > 0 {
            digits_at_end(last).0 + decimal(digits_at_end(last).1 + 1)
        } else if last.len() > 0 && all_upper(last) {
            next_letters(last)
        } else {
            last + seq!['1']
        },
    }
}

/// The names whose number is the largest `u64`, which has no successor there.
pub open spec fn grid_overflows(last: Seq<char>) -> bool {
    ||| parsed_u64(last) == Some(u64::MAX as nat)
    ||| parsed_u64(last) is None && trailing_digits(last) > 0 && digits_at_end(last).1 == u64::MAX
}

/// The number of ASCII digits at the end of `cs`, and that they are digits.
fn count_trailing_digits(cs: &Vec<char>) -> (k: usize)
    ensures
        k == trailing_digits(cs@),
        k <= cs.len(),
        all_digits(cs@.skip(cs.len() - k)),
{
    let n = cs.len();
    let mut j = n;
    assert(cs@.take(n as int) =~= cs@);
    while j > 0 && digit(cs[j - 1])
        invariant
            j <= n == cs.len(),
            trailing_digits(cs@) == trailing_digits(cs@.take(j as int)) + (n - j),
            all_digits(cs@.subrange(j as int, n as int)),
        decreases j,
    {
        assert(cs@.take(j as int).drop_last() =~= cs@.take(j - 1));
        assert(cs@.take(j as int).last() == cs@[j - 1]);
        assert forall|i: int| 0 <= i < cs@.subrange(j - 1, n as int).len() implies is_digit(#[trigger] cs@.subrange(j - 1, n as int)[i]) by {
            if i > 0 {
                assert(cs@.subrange(j - 1, n as int)[i] == cs@.subrange(j as int, n as int)[i - 1]);
            }
        }
        j -= 1;
    }
    if j > 0 {
        assert(cs@.take(j as int).last() == cs@[j - 1]);
    }
    assert(cs@.subrange(j as int, n as int) =~= cs@.skip(j as int));
    n - j
}

/// The value of `cs` as std's `u64::from_str` reads it, if it accepts it.
fn parse_u64(cs: &Vec<char>) -> (r: Option<u64>)
    ensures
        match r {
            Some(x) => parsed_u64(cs@) == Some(x as nat),
            None => parsed_u64(cs@) is None,
        },
{
    let n = cs.len();
    let start: usize = if n > 0 && cs[0] == '+' {
        1
    } else {
        0
    };
    let ghost d = if cs@.len() > 0 && cs@[0] == '+' {
        cs@.drop_first()
    } else {
        cs@
    };
    assert(d =~= cs@.subrange(start as int, n as int));
    if start >= n {
        return None;
    }
    let mut i = start;
    while i < n
        invariant
            start <= i <= n == cs.len(),
            d == cs@.subrange(start as int, n as int),
            d == (if cs@.len() > 0 && cs@[0] == '+' {
                cs@.drop_first()
            } else {
                cs@
            }),
            forall|q: int| start <= q < i ==> is_digit(#[trigger] cs@[q]),
        decreases n - i,
    {
        if !digit(cs[i]) {
            assert(!all_digits(d)) by {
                assert(d[i - start] == cs@[i as int]);
                assert(!is_digit(d[i - start]));
            }
            return None;
        }
        i += 1;
    }
    assert(all_digits(d)) by {
        assert forall|q: int| 0 <= q < d.len() implies is_digit(#[trigger] d[q]) by {
            assert(d[q] == cs@[start + q]);
        }
    }
    digits_value(cs, start, n)
}

/// The letters after `s`, all capitals: the last letter steps on, `Z` carries.
fn step_letters(s: &Vec<char>) -> (r: Vec<char>)
    requires
        all_upper(s@),
    ensures
        r@ == next_letters(s@),
{
    let ghost orig = s@;
    let n = s.len();
    let mut cs: Vec<char> = take_chars(s, n);
    assert(orig.take(n as int) =~= orig);
    let mut i = n;
    loop
        invariant_except_break
            i <= n == orig.len(),
            all_upper(orig),
            cs@ == orig.take(i as int) + Seq::new((n - i) as nat, |q: int| 'A'),
            next_letters(orig) == next_letters(orig.take(i as int)) + Seq::new((n - i) as nat, |q: int| 'A'),
        ensures
            cs@ == next_letters(orig),
        decreases i,
    {
        if i == 0 {
            assert(orig.take(0) =~= Seq::<char>::empty());
            cs.insert(0, 'A');
            assert(cs@ =~= next_letters(orig));
            break;
        }
        i -= 1;
        let ghost t = orig.take(i + 1);
        assert(t.drop_last() =~= orig.take(i as int));
        assert(t.last() == orig[i as int]);
        assert(cs@[i as int] == orig[i as int]);
        if cs[i] == 'Z' {
            cs.set(i, 'A');
            assert(cs@ =~= orig.take(i as int) + Seq::new((n - i) as nat, |q: int| 'A'));
            assert(next_letters(orig) =~= next_letters(orig.take(i as int)) + Seq::new((n - i) as nat, |q: int| 'A'));
        } else {
            assert(is_upper(orig[i as int]));
            let c: char = cs[i];
            let b: u8 = (c as u32 + 1) as u8;
            cs.set(i, b as char);
            assert(cs@ =~= next_letters(orig));
            break;
        }
    }
    cs
}

/// Whether every character of `cs` is an ASCII capital letter.
fn capitals(cs: &Vec<char>) -> (r: bool)
    ensures
        r == all_upper(cs@),
{
    let mut i: usize = 0;
    while i < cs.len()
        invariant
            i <= cs.len(),
            forall|q: int| 0 <= q < i ==> is_upper(#[trigger] cs@[q]),
        decreases cs.len() - i,
    {
        if !upper(cs[i]) {
            return false;
        }
        i += 1;
    }
    true
}

/// The grid name after `cs`, as characters.
fn grid_after(cs: &Vec<char>) -> (r: Vec<char>)
    requires
        !grid_overflows(cs@),
    ensures
        r@ == next_grid(cs@),
{
    match parse_u64(cs) {
        Some(n) => {
            return decimal_text(n + 1);
        },
        None => {},
    }
    let k = count_trailing_digits(cs);
    if k > 0 {
        let n = cs.len();
        let m: u64 = match digits_value(cs, n - k, n) {
            Some(x) => x,
            None => 0,
        };
        assert(cs@.subrange(n - k, n as int) =~= cs@.skip(n - k));
        let mut r = take_chars(cs, n - k);
        let d = decimal_text(m + 1);
        extend(&mut r, &d);
        return r;
    }
    if cs.len() > 0 && capitals(cs) {
        return step_letters(cs);
    }
    let mut r = take_chars(cs, cs.len());
    assert(cs@.take(cs.len() as int) =~= cs@);
    r.push('1');
    r
}

/// The next grid name after `last`: 1 → 2, A → B, Z → AA, A1 → A2; "1" when there is
/// none.
pub fn next_grid_name(last: Option<&str>) -> (r: String)
    requires
        last matches Some(l) ==> !grid_overflows(l@),
    ensures
        match last {
            None => r@ == seq!['1'],
            Some(l) => r@ == next_grid(l@),
        },
{
    match last {
        None => {
            let v: Vec<char> = vec!['1'];
            string_of(&v)
        },
        Some(l) => {
            let cs = chars_of(l);
            let r = grid_after(&cs);
            string_of(&r)
        },
    }
}

/// `i` is the position of the first `.` in `s`.
pub open spec fn is_first_dot(s: Seq<char>, i: int) -> bool {
    0 <= i < s.len() && s[i] == '.' && forall|j: int| 0 <= j < i ==> s[j] != '.'
}

/// The sheet number after `last`: with a `.`, the number ending the part before the
/// first `.` steps on (A1.0 → A2.0); otherwise as grid names go (A101 → A102).
pub open spec fn next_sheet(last: Seq<char>) -> Seq<char> {
    if exists|i: int| is_first_dot(last, i) {
        let i = choose|i: int| is_first_dot(last, i);
        let prefix = last.take(i);
        let k = trailing_digits(prefix);
        if k > 0 {
            let v = value(prefix.skip(prefix.len() - k));
            let n = if v <= u32::MAX {
                v
            } else {
                0
            };
            prefix.take(prefix.len() - k) + decimal(n + 1) + seq!['.'] + last.skip(i + 1)
        } else {
            next_grid(last)
        }
    } else {
        next_grid(last)
    }
}

/// The sheet numbers whose number is the largest `u32`, which has no successor there.
pub open spec fn sheet_overflows(last: Seq<char>) -> bool {
    if exists|i: int| is_first_dot(last, i) {
        let i = choose|i: int| is_first_dot(last, i);
        let prefix = last.take(i);
        let k = trailing_digits(prefix);
        if k > 0 {
            value(prefix.skip(prefix.len() - k)) == u32::MAX
        } else {
            grid_overflows(last)
        }
    } else {
        grid_overflows(last)
    }
}

/// Next sheet number after the last one: A1.0 → A2.0, A101 → A102; "A1.0" when there is
/// none.
pub fn next_sheet_number(last: Option<&str>) -> (r: String)
    requires
        last matches Some(l) ==> !sheet_overflows(l@),
    ensures
        match last {
            None => r@ == seq!['A', '1', '.', '0'],
            Some(l) => r@ == next_sheet(l@),
        },
{
    let l = match last {
        None => {
            let v: Vec<char> = vec!['A', '1', '.', '0'];
            return string_of(&v);
        },
        Some(l) => l,
    };
    let cs = chars_of(l);
    let mut i: usize = 0;
    while i < cs.len() && cs[i] != '.'
        invariant
            i <= cs.len(),
            cs@ == l@,
            forall|j: int| 0 <= j < i ==> cs@[j] != '.',
        decreases cs.len() - i,
    {
        i += 1;
    }
    if i < cs.len() {
        assert(is_first_dot(cs@, i as int));
        assert forall|j: int| is_first_dot(cs@, j) implies j == i by {
            if j < i {
                assert(cs@[j] != '.');
            } else if j > i {
                assert(cs@[i as int] == '.');
            }
        }
        let prefix = take_chars(&cs, i);
        let k = count_trailing_digits(&prefix);
        if k > 0 {
            let p = prefix.len();
            assert(prefix@.subrange(p - k, p as int) =~= prefix@.skip(p - k));
            let n: u64 = match digits_value(&prefix, p - k, p) {
                Some(x) => if x <= 4294967295 {
                    x
                } else {
                    0
                },
                None => 0,
            };
            let mut r = take_chars(&prefix, p - k);
            let d = decimal_text(n + 1);
            extend(&mut r, &d);
            r.push('.');
            let rest = skip_chars(&cs, i + 1);
            extend(&mut r, &rest);
            return string_of(&r);
        }
    } else {
        assert(!exists|j: int| is_first_dot(cs@, j));
    }
    let r = grid_after(&cs);
    string_of(&r)
}

// ---------------------------------------------------------------------------------------
// Scales
// ---------------------------------------------------------------------------------------

/// Standard architectural scales as (denominator, label), then engineering scales for
/// site plans.
pub open spec fn scale_table() -> Seq<(u32, Seq<char>)> {
    seq![
        (192u32, "1/16\" = 1'-0\""@),
        (96u32, "1/8\" = 1'-0\""@),
        (64u32, "3/16\" = 1'-0\""@),
        (48u32, "1/4\" = 1'-0\""@),
        (32u32, "3/8\" = 1'-0\""@),
        (24u32, "1/2\" = 1'-0\""@),
        (16u32, "3/4\" = 1'-0\""@),
        (12u32, "1\" = 1'-0\""@),
        (8u32, "1 1/2\" = 1'-0\""@),
        (4u32, "3\" = 1'-0\""@),
        (120u32, "1\" = 10'-0\""@),
        (240u32, "1\" = 20'-0\""@),
        (360u32, "1\" = 30'-0\""@),
        (480u32, "1\" = 40'-0\""@),
        (600u32, "1\" = 50'-0\""@)
    ]
}

/// Standard architectural scales as (denominator, label), then engineering scales for
/// site plans.
pub fn scales() -> (v: Vec<(u32, &'static str)>)
    ensures
        v@.map_values(|x: (u32, &'static str)| (x.0, x.1@)) == scale_table(),
{
    let v: Vec<(u32, &'static str)> = vec![
        (192, "1/16\" = 1'-0\""),
        (96, "1/8\" = 1'-0\""),
        (64, "3/16\" = 1'-0\""),
        (48, "1/4\" = 1'-0\""),
        (32, "3/8\" = 1'-0\""),
        (24, "1/2\" = 1'-0\""),
        (16, "3/4\" = 1'-0\""),
        (12, "1\" = 1'-0\""),
        (8, "1 1/2\" = 1'-0\""),
        (4, "3\" = 1'-0\""),
        (120, "1\" = 10'-0\""),
        (240, "1\" = 20'-0\""),
        (360, "1\" = 30'-0\""),
        (480, "1\" = 40'-0\""),
        (600, "1\" = 50'-0\"")
    ];
    assert(v@.map_values(|x: (u32, &'static str)| (x.0, x.1@)) =~= scale_table());
    v
}

/// The label of the first listed scale with denominator `d`.
pub open spec fn listed_scale(t: Seq<(u32, Seq<char>)>, d: u32) -> Option<Seq<char>>
    decreases t.len(),
{
    if t.len() == 0 {
        None
    } else if t[0].0 == d {
        Some(t[0].1)
    } else {
        listed_scale(t.drop_first(), d)
    }
}

/// The label of a view scale: the standard one, else "1 : N".
pub open spec fn scale_text(scale: u32) -> Seq<char> {
    match listed_scale(scale_table(), scale) {
        Some(l) => l,
        None => "1 : "@ + decimal(scale as nat),
    }
}

/// The label of a view scale: the standard one, else "1 : N".
pub fn scale_label(scale: u32) -> (s: String)
    ensures
        s@ == scale_text(scale),
{
    let t = scales();
    let ghost tv = scale_table();
    let mut i: usize = 0;
    assert(tv.skip(0) =~= tv);
    while i < t.len()
        invariant
            i <= t.len(),
            t@.map_values(|x: (u32, &'static str)| (x.0, x.1@)) == tv,
            tv == scale_table(),
            listed_scale(tv, scale) == listed_scale(tv.skip(i as int), scale),
        decreases t.len() - i,
    {
        assert(tv.skip(i as int)[0] == (t@[i as int].0, t@[i as int].1@));
        assert(tv.skip(i as int).drop_first() =~= tv.skip(i + 1));
        if t[i].0 == scale {
            return owned(t[i].1);
        }
        i += 1;
    }
    assert(tv.skip(i as int).len() == 0);
    let mut v: Vec<char> = Vec::new();
    append(&mut v, "1 : ");
    let d = decimal_text(scale as u64);
    extend(&mut v, &d);
    string_of(&v)
}

// ---------------------------------------------------------------------------------------
// Categories
// ---------------------------------------------------------------------------------------

/// Plural display name of an instance category.
pub open spec fn category_plural(c: Category) -> Seq<char> {
    match c {
        Category::Wall => "Walls"@,
        Category::Door => "Doors"@,
        Category::Window => "Windows"@,
        Category::Room => "Rooms"@,
        Category::Floor => "Floors"@,
        Category::Ceiling => "Ceilings"@,
        Category::Roof => "Roofs"@,
        Category::Stair => "Stairs"@,
        Category::Sheet => "Sheets"@,
        Category::Grid => "Grids"@,
        Category::Level => "Levels"@,
        other => other.name(),
    }
}

/// Plural display name of an instance category, for parameter and filter lists.
pub fn category_label(c: Category) -> (s: &'static str)
    ensures
        s@ == category_plural(c),
{
    match c {
        Category::Wall => "Walls",
        Category::Door => "Doors",
        Category::Window => "Windows",
        Category::Room => "Rooms",
        Category::Floor => "Floors",
        Category::Ceiling => "Ceilings",
        Category::Roof => "Roofs",
        Category::Stair => "Stairs",
        Category::Sheet => "Sheets",
        Category::Grid => "Grids",
        Category::Level => "Levels",
        other => other.as_str(),
    }
}

/// Instance categories that project parameters can apply to.
pub fn param_categories() -> (v: Vec<Category>)
    ensures
        v@ == seq![Category::Wall, Category::Door, Category::Window, Category::Room, Category::Floor,
            Category::Ceiling, Category::Roof, Category::Stair, Category::Sheet],
{
    vec![Category::Wall, Category::Door, Category::Window, Category::Room, Category::Floor,
        Category::Ceiling, Category::Roof, Category::Stair, Category::Sheet]
}

// ---------------------------------------------------------------------------------------
// Properties panel
// ---------------------------------------------------------------------------------------

/// How a property is edited.
#[derive(Debug, Clone, Copy, PartialEq, Eq, Structural)]
pub enum PropKind {
    Length,
    Text,
    Choice,
    ReadOnly,
    /// A button: setting the property (to any value) performs the action.
    Action,
}

/// One option of a choice property.
#[derive(Debug)]
pub struct PropOption {
    pub id: String,
    pub label: String,
}

/// An option as the specifications see it.
pub struct PropOptionView {
    pub id: Seq<char>,
    pub label: Seq<char>,
}

impl View for PropOption {
    type V = PropOptionView;

    open spec fn view(&self) -> PropOptionView {
        PropOptionView { id: self.id@, label: self.label@ }
    }
}

/// A row of the properties panel.
#[derive(Debug)]
pub struct Property {
    pub key: String,
    pub label: String,
    pub group: String,
    /// Display text; for choices, the selected option id.
    pub value: String,
    pub kind: PropKind,
    pub options: Vec<PropOption>,
}

/// A property row as the specifications see it.
pub struct PropertyView {
    pub key: Seq<char>,
    pub label: Seq<char>,
    pub group: Seq<char>,
    pub value: Seq<char>,
    pub kind: PropKind,
    pub options: Seq<PropOptionView>,
}

impl View for Property {
    type V = PropertyView;

    open spec fn view(&self) -> PropertyView {
        PropertyView {
            key: self.key@,
            label: self.label@,
            group: self.group@,
            value: self.value@,
            kind: self.kind,
            options: self.options@.map_values(|o: PropOption| o@),
        }
    }
}

/// A row of kind `kind` with no options.
pub fn p(key: &str, label: &str, group: &str, value: String, kind: PropKind) -> (r: Property)
    ensures
        r@ == (PropertyView {
            key: key@,
            label: label@,
            group: group@,
            value: value@,
            kind,
            options: Seq::empty(),
        }),
{
    let r = Property {
        key: owned(key),
        label: owned(label),
        group: owned(group),
        value,
        kind,
        options: Vec::new(),
    };
    assert(r@.options =~= Seq::<PropOptionView>::empty());
    r
}

/// An editable text row.
pub fn text(key: &str, label: &str, group: &str, v: &str) -> (r: Property)
    ensures
        r@ == (PropertyView {
            key: key@,
            label: label@,
            group: group@,
            value: v@,
            kind: PropKind::Text,
            options: Seq::empty(),
        }),
{
    p(key, label, group, owned(v), PropKind::Text)
}

/// A read-only row.
pub fn ro(key: &str, label: &str, group: &str, v: String) -> (r: Property)
    ensures
        r@ == (PropertyView {
            key: key@,
            label: label@,
            group: group@,
            value: v@,
            kind: PropKind::ReadOnly,
            options: Seq::empty(),
        }),
{
    p(key, label, group, v, PropKind::ReadOnly)
}

/// A choice row: `selected` is the chosen option's id.
pub fn choice(key: &str, label: &str, group: &str, selected: String, options: Vec<PropOption>) -> (r: Property)
    ensures
        r@ == (PropertyView {
            key: key@,
            label: label@,
            group: group@,
            value: selected@,
            kind: PropKind::Choice,
            options: options@.map_values(|o: PropOption| o@),
        }),
{
    let mut r = p(key, label, group, selected, PropKind::Choice);
    r.options = options;
    r
}

/// The option id for a yes/no value.
pub open spec fn yes_no_id(b: bool) -> Seq<char> {
    if b {
        seq!['y', 'e', 's']
    } else {
        seq!['n', 'o']
    }
}

/// The option id for a yes/no value.
pub fn yes_no(b: bool) -> (s: String)
    ensures
        s@ == yes_no_id(b),
{
    let v: Vec<char> = if b {
        vec!['y', 'e', 's']
    } else {
        vec!['n', 'o']
    };
    string_of(&v)
}

/// The two options of a yes/no row: "no" (No) and "yes" (Yes).
pub open spec fn yes_no_views() -> Seq<PropOptionView> {
    seq![
        PropOptionView { id: seq!['n', 'o'], label: seq!['N', 'o'] },
        PropOptionView { id: seq!['y', 'e', 's'], label: seq!['Y', 'e', 's'] },
    ]
}

fn option_of(id: Vec<char>, label: Vec<char>) -> (o: PropOption)
    ensures
        o@ == (PropOptionView { id: id@, label: label@ }),
{
    PropOption { id: string_of(&id), label: string_of(&label) }
}

/// The two options of a yes/no row.
pub fn yes_no_options() -> (v: Vec<PropOption>)
    ensures
        v@.map_values(|o: PropOption| o@) == yes_no_views(),
{
    let no = option_of(vec!['n', 'o'], vec!['N', 'o']);
    let yes = option_of(vec!['y', 'e', 's'], vec!['Y', 'e', 's']);
    let v = vec![no, yes];
    assert(v@.map_values(|o: PropOption| o@) =~= yes_no_views());
    v
}

/// A Yes/No property.
pub fn flag(key: &str, label: &str, group: &str, b: bool) -> (r: Property)
    ensures
        r@ == (PropertyView {
            key: key@,
            label: label@,
            group: group@,
            value: yes_no_id(b),
            kind: PropKind::Choice,
            options: yes_no_views(),
        }),
{
    choice(key, label, group, yes_no(b), yes_no_options())
}

/// The message given when `s` names no element id.
pub open spec fn not_an_id_message(s: Seq<char>) -> Seq<char> {
    seq!['"'] + s + "\" is not an element id"@
}

/// The element id a property value names (a UUID, as the uuid crate reads it); refused,
/// with a message that quotes the value, when it names none.
pub fn parse_id(v: &str) -> (r: Result<ElementId, CoreError>)
    ensures
        match uuid_parse(v@) {
            Some(x) => r == Ok::<ElementId, CoreError>(ElementId(x)),
            None => r matches Err(CoreError::Invalid(m)) && m@ == not_an_id_message(v@),
        },
        forall|x: u128| v@ == id_text(x) ==> r == Ok::<ElementId, CoreError>(ElementId(x)),
{
    match ElementId::from_str(v) {
        Ok(id) => Ok(id),
        Err(_) => {
            let mut m: Vec<char> = vec!['"'];
            append(&mut m, v);
            append(&mut m, "\" is not an element id");
            Err(CoreError::Invalid(string_of(&m)))
        },
    }
}

/// A name as typed, without surrounding white space; refused when nothing is left.
pub fn non_empty(v: &str) -> (r: Result<String, CoreError>)
    ensures
        trim_of(v@).len() == 0 ==> (r matches Err(CoreError::Invalid(m)) && m@ == "name can't be empty"@),
        trim_of(v@).len() > 0 ==> (r matches Ok(s) && s@ == trim_of(v@)),
        (forall|i: int| 0 <= i < v@.len() ==> is_white(#[trigger] v@[i])) ==> r is Err,
        (exists|k: int| 0 <= k < v@.len() && !is_white(#[trigger] v@[k])) ==> r is Ok,
{
    proof {
        if forall|i: int| 0 <= i < v@.len() ==> is_white(#[trigger] v@[i]) {
            lemma_blank_trims_to_nothing(v@);
        } else {
            let k = choose|k: int| 0 <= k < v@.len() && !is_white(#[trigger] v@[k]);
            lemma_trim_keeps_ink(v@, k);
        }
    }
    let t = trimmed(v);
    let tc = chars_of(t.as_str());
    if tc.len() == 0 {
        Err(CoreError::Invalid(owned("name can't be empty")))
    } else {
        Ok(t)
    }
}

// ---------------------------------------------------------------------------------------
// Marks and dates
// ---------------------------------------------------------------------------------------

/// What std's `u32::from_str` accepts of `s`: as for `u64`, with a value that fits in a
/// `u32`.
pub open spec fn parsed_u32(s: Seq<char>) -> Option<nat> {
    match parsed_u64(s) {
        Some(n) => if n <= u32::MAX {
            Some(n)
        } else {
            None
        },
        None => None,
    }
}

/// The largest mark among `ms` that reads as a number, or 0.
pub open spec fn max_mark(ms: Seq<Seq<char>>) -> nat
    decreases ms.len(),
{
    if ms.len() == 0 {
        0
    } else {
        let rest = max_mark(ms.drop_last());
        match parsed_u32(ms.last()) {
            Some(n) => if n > rest {
                n
            } else {
                rest
            },
            None => rest,
        }
    }
}

/// The next mark is free: every mark that reads as a number is below it.
pub proof fn lemma_next_mark_is_free(ms: Seq<Seq<char>>)
    ensures
        forall|i: int| 0 <= i < ms.len() ==> (parsed_u32(#[trigger] ms[i]) matches Some(n) ==> n < max_mark(ms) + 1),
    decreases ms.len(),
{
    if ms.len() > 0 {
        lemma_next_mark_is_free(ms.drop_last());
        assert forall|i: int| 0 <= i < ms.len() implies (parsed_u32(#[trigger] ms[i]) matches Some(n) ==> n < max_mark(ms) + 1) by {
            if i < ms.len() - 1 {
                assert(ms[i] == ms.drop_last()[i]);
            }
        }
    }
}

/// The next free numeric mark after the marks (or room numbers) `marks` of a category:
/// one past the largest that reads as a number ("1", "2", …).
pub fn next_mark(marks: &Vec<String>) -> (r: String)
    requires
        max_mark(marks@.map_values(|s: String| s@)) < u32::MAX,
    ensures
        r@ == decimal(max_mark(marks@.map_values(|s: String| s@)) + 1),
{
    let ghost ms = marks@.map_values(|s: String| s@);
    let mut max: u64 = 0;
    let mut i: usize = 0;
    while i < marks.len()
        invariant
            i <= marks.len(),
            ms == marks@.map_values(|s: String| s@),
            max == max_mark(ms.take(i as int)),
        decreases marks.len() - i,
    {
        assert(ms.take(i + 1).drop_last() =~= ms.take(i as int));
        assert(ms.take(i + 1).last() == marks@[i as int]@);
        let cs = chars_of(marks[i].as_str());
        match parse_u64(&cs) {
            Some(n) => if n <= 4294967295 && n > max {
                max = n;
            },
            None => {},
        }
        i += 1;
    }
    assert(ms.take(marks.len() as int) =~= ms);
    let d = decimal_text(max + 1);
    string_of(&d)
}

/// The number of ASCII digits in `s`.
pub open spec fn digit_count(s: Seq<char>) -> nat
    decreases s.len(),
{
    if s.len() == 0 {
        0
    } else {
        digit_count(s.drop_last()) + if is_digit(s.last()) {
            1nat
        } else {
            0nat
        }
    }
}

/// A date as typed: nothing, or ten characters with dashes at positions 4 and 7 and eight
/// digits (YYYY-MM-DD). Eight digits and two dashes are ten ASCII characters, so this is
/// also a count of bytes.
pub open spec fn date_text_ok(t: Seq<char>) -> bool {
    t.len() == 0 || (t.len() == 10 && t[4] == '-' && t[7] == '-' && digit_count(t) == 8)
}

/// A date typed for a stage or issuance, without surrounding white space; refused unless
/// it is empty or written YYYY-MM-DD.
pub fn date(v: &str) -> (r: Result<String, CoreError>)
    ensures
        date_text_ok(trim_of(v@)) ==> (r matches Ok(s) && s@ == trim_of(v@)),
        !date_text_ok(trim_of(v@)) ==> (r matches Err(CoreError::Invalid(m)) && m@ == "dates are YYYY-MM-DD"@),
{
    let t = trimmed(v);
    let cs = chars_of(t.as_str());
    let mut n: usize = 0;
    let mut i: usize = 0;
    while i < cs.len()
        invariant
            i <= cs.len(),
            n == digit_count(cs@.take(i as int)),
            n <= i,
        decreases cs.len() - i,
    {
        assert(cs@.take(i + 1).drop_last() =~= cs@.take(i as int));
        if digit(cs[i]) {
            n += 1;
        }
        i += 1;
    }
    assert(cs@.take(cs.len() as int) =~= cs@);
    let ok = cs.len() == 0 || (cs.len() == 10 && cs[4] == '-' && cs[7] == '-' && n == 8);
    if ok {
        Ok(t)
    } else {
        Err(CoreError::Invalid(owned("dates are YYYY-MM-DD")))
    }
}

/// Whether `last` is a grid name with no successor here (its number is the largest
/// `u64`); [`next_grid_name`] takes every other name.
pub fn grid_name_overflows(last: &str) -> (r: bool)
    ensures
        r == grid_overflows(last@),
{
    let cs = chars_of(last);
    overflows_at_end(&cs)
}

fn overflows_at_end(cs: &Vec<char>) -> (r: bool)
    ensures
        r == grid_overflows(cs@),
{
    match parse_u64(cs) {
        Some(n) => n == 18446744073709551615,
        None => {
            let k = count_trailing_digits(cs);
            if k == 0 {
                false
            } else {
                let n = cs.len();
                assert(cs@.subrange(n - k, n as int) =~= cs@.skip(n - k));
                match digits_value(cs, n - k, n) {
                    Some(x) => x == 18446744073709551615,
                    None => false,
                }
            }
        },
    }
}

/// Whether `last` is a sheet number with no successor here; [`next_sheet_number`] takes
/// every other number.
pub fn sheet_number_overflows(last: &str) -> (r: bool)
    ensures
        r == sheet_overflows(last@),
{
    let cs = chars_of(last);
    let mut i: usize = 0;
    while i < cs.len() && cs[i] != '.'
        invariant
            i <= cs.len(),
            cs@ == last@,
            forall|j: int| 0 <= j < i ==> cs@[j] != '.',
        decreases cs.len() - i,
    {
        i += 1;
    }
    if i < cs.len() {
        assert(is_first_dot(cs@, i as int));
        assert forall|j: int| is_first_dot(cs@, j) implies j == i by {
            if j < i {
                assert(cs@[j] != '.');
            } else if j > i {
                assert(cs@[i as int] == '.');
            }
        }
        let prefix = take_chars(&cs, i);
        let k = count_trailing_digits(&prefix);
        if k > 0 {
            let p = prefix.len();
            assert(prefix@.subrange(p - k, p as int) =~= prefix@.skip(p - k));
            return match digits_value(&prefix, p - k, p) {
                Some(x) => x == 4294967295,
                None => false,
            };
        }
    } else {
        assert(!exists|j: int| is_first_dot(cs@, j));
    }
    overflows_at_end(&cs)
}

/// Whether the largest numeric mark among `marks` is the largest `u32`, which
/// [`next_mark`] cannot step past.
pub fn mark_overflows(marks: &Vec<String>) -> (r: bool)
    ensures
        r == (max_mark(marks@.map_values(|s: String| s@)) == u32::MAX),
{
    let ghost ms = marks@.map_values(|s: String| s@);
    let mut max: u64 = 0;
    let mut i: usize = 0;
    while i < marks.len()
        invariant
            i <= marks.len(),
            ms == marks@.map_values(|s: String| s@),
            max == max_mark(ms.take(i as int)),
            max <= u32::MAX,
        decreases marks.len() - i,
    {
        assert(ms.take(i + 1).drop_last() =~= ms.take(i as int));
        assert(ms.take(i + 1).last() == marks@[i as int]@);
        let cs = chars_of(marks[i].as_str());
        match parse_u64(&cs) {
            Some(n) => if n <= 4294967295 && n > max {
                max = n;
            },
            None => {},
        }
        i += 1;
    }
    assert(ms.take(marks.len() as int) =~= ms);
    max == 4294967295
}

} // verus!
