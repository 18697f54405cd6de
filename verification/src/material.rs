//! Materials: cut patterns for plans and sections, surface patterns for elevations and
//! shaded colors for 3D, and the link from type layers to them.

use vstd::prelude::*;

use crate::element::CutPattern;
use crate::text::{chars_of, same, string_of};

verus! {

/// Whether `n` occurs in `h` as a run of consecutive characters.
pub open spec fn has_text(h: Seq<char>, n: Seq<char>) -> bool {
    exists|i: int| 0 <= i && i + n.len() <= h.len() && #[trigger] h.subrange(i, i + n.len()) == n
}

/// Whether `n` occurs in `h` (std's `str::contains` with a string pattern).
pub fn contains_text(h: &Vec<char>, n: &str) -> (r: bool)
    ensures
        r == has_text(h@, n@),
{
    let nc = chars_of(n);
    let m = nc.len();
    if m > h.len() {
        assert forall|i: int| 0 <= i && i + n@.len() <= h@.len() implies #[trigger] h@.subrange(i, i + n@.len()) != n@ by {}
        return false;
    }
    let mut i: usize = 0;
    while i <= h.len() - m
        invariant
            nc@ == n@,
            m == nc.len(),
            m <= h.len(),
            i <= h.len() - m + 1,
            forall|k: int| 0 <= k < i ==> #[trigger] h@.subrange(k, k + n@.len()) != n@,
        decreases h.len() - i,
    {
        let mut j: usize = 0;
        let mut ok = true;
        while j < m
            invariant
                nc@ == n@,
                m == nc.len(),
                i + m <= h.len(),
                j <= m,
                ok == (forall|q: int| 0 <= q < j ==> h@[i + q] == nc@[q]),
            decreases m - j,
        {
            if h[i + j] != nc[j] {
                ok = false;
            }
            j += 1;
        }
        if ok {
            assert(h@.subrange(i as int, i + n@.len()) =~= n@);
            return true;
        }
        assert(h@.subrange(i as int, i + n@.len()) != n@) by {
            let q = choose|q: int| 0 <= q < m && h@[i + q] != nc@[q];
            assert(h@.subrange(i as int, i + n@.len())[q] == h@[i + q]);
        }
        i += 1;
    }
    assert forall|k: int| 0 <= k && k + n@.len() <= h@.len() implies #[trigger] h@.subrange(k, k + n@.len()) != n@ by {
        assert(k < i);
    }
    false
}

/// The built-in material a lower-case layer or type name most likely means: the first
/// rule, in order, one of whose words occurs in the name.
pub open spec fn implied_material(n: Seq<char>) -> Option<Seq<char>> {

    if has_text(n, "rigid"@) {
        Some("Rigid Insulation"@)
    } else if has_text(n, "batt"@) || has_text(n, "insulation"@) {
        Some("Batt Insulation"@)
    } else if has_text(n, "cmu"@) || has_text(n, "block"@) {
        Some("Concrete Masonry Unit"@)
    } else if has_text(n, "brick"@) || has_text(n, "masonry"@) || has_text(n, "stone"@) {
        Some("Brick"@)
    } else if has_text(n, "stucco"@) || has_text(n, "plaster"@) {
        Some("Stucco"@)
    } else if has_text(n, "siding"@) {
        Some("Wood Siding"@)
    } else if has_text(n, "plywood"@) || has_text(n, "osb"@) || has_text(n, "sheathing"@) || has_text(n, "subfloor"@) {
        Some("Plywood"@)
    } else if has_text(n, "gypsum"@) || has_text(n, "drywall"@) {
        Some("Gypsum Board"@)
    } else if has_text(n, "metal stud"@) {
        Some("Metal Stud"@)
    } else if has_text(n, "air"@) {
        Some("Air"@)
    } else if has_text(n, "hardwood"@) {
        Some("Hardwood Flooring"@)
    } else if has_text(n, "shingle"@) {
        Some("Asphalt Shingles"@)
    } else if has_text(n, "membrane"@) {
        Some("Roofing Membrane"@)
    } else if has_text(n, "cover board"@) {
        Some("Cover Board"@)
    } else if has_text(n, "steel"@) {
        Some("Structural Steel"@)
    } else if has_text(n, "glulam"@) {
        Some("Glulam"@)
    } else if has_text(n, "concrete"@) {
        Some("Concrete"@)
    } else if has_text(n, "joist"@) || has_text(n, "stud"@) || has_text(n, "rafter"@) || has_text(n, "wood"@) || has_text(n, "lumber"@) || has_text(n, "post"@) {
        Some("Wood Framing"@)
    } else {
        None
    }
}

/// What std's `str::to_lowercase` gives for a string (Unicode lower-case mapping).
pub uninterp spec fn lowercase_of(s: Seq<char>) -> Seq<char>;

/// `s` in lower case (std's `str::to_lowercase`). The result is named by
/// [`lowercase_of`]; the Unicode case mapping is not written out here.
#[verifier::external_body]
fn lowercase(s: &str) -> (r: String)
    ensures
        r@ == lowercase_of(s@),
{
    s.to_lowercase()
}

/// The built-in material an already lower-cased name most likely means.
pub fn material_for_lowercase(n: &str) -> (r: Option<&'static str>)
    ensures
        match r {
            Some(m) => implied_material(n@) == Some(m@),
            None => implied_material(n@) is None,
        },
{
    let h = chars_of(n);

    if contains_text(&h, "rigid") {
        return Some("Rigid Insulation");
    }
    if contains_text(&h, "batt") || contains_text(&h, "insulation") {
        return Some("Batt Insulation");
    }
    if contains_text(&h, "cmu") || contains_text(&h, "block") {
        return Some("Concrete Masonry Unit");
    }
    if contains_text(&h, "brick") || contains_text(&h, "masonry") || contains_text(&h, "stone") {
        return Some("Brick");
    }
    if contains_text(&h, "stucco") || contains_text(&h, "plaster") {
        return Some("Stucco");
    }
    if contains_text(&h, "siding") {
        return Some("Wood Siding");
    }
    if contains_text(&h, "plywood") || contains_text(&h, "osb") || contains_text(&h, "sheathing") || contains_text(&h, "subfloor") {
        return Some("Plywood");
    }
    if contains_text(&h, "gypsum") || contains_text(&h, "drywall") {
        return Some("Gypsum Board");
    }
    if contains_text(&h, "metal stud") {
        return Some("Metal Stud");
    }
    if contains_text(&h, "air") {
        return Some("Air");
    }
    if contains_text(&h, "hardwood") {
        return Some("Hardwood Flooring");
    }
    if contains_text(&h, "shingle") {
        return Some("Asphalt Shingles");
    }
    if contains_text(&h, "membrane") {
        return Some("Roofing Membrane");
    }
    if contains_text(&h, "cover board") {
        return Some("Cover Board");
    }
    if contains_text(&h, "steel") {
        return Some("Structural Steel");
    }
    if contains_text(&h, "glulam") {
        return Some("Glulam");
    }
    if contains_text(&h, "concrete") {
        return Some("Concrete");
    }
    if contains_text(&h, "joist") || contains_text(&h, "stud") || contains_text(&h, "rafter") || contains_text(&h, "wood") || contains_text(&h, "lumber") || contains_text(&h, "post") {
        return Some("Wood Framing");
    }
    None
}

/// The built-in material a layer or type name most likely means ("Wood Stud 2x6 with Batt
/// Insulation" → "Batt Insulation"), used to link built-in and older types.
pub fn material_for_name(name: &str) -> (r: Option<&'static str>)
    ensures
        match r {
            Some(m) => implied_material(lowercase_of(name@)) == Some(m@),
            None => implied_material(lowercase_of(name@)) is None,
        },
{
    let n = lowercase(name);
    material_for_lowercase(n.as_str())
}

/// A built-in material: its name, cut pattern, surface preset id and color.
#[derive(Debug, Clone, Copy)]
pub struct BuiltIn {
    pub name: &'static str,
    pub cut: CutPattern,
    pub surface: &'static str,
    pub color: [u8; 3],
}

/// A built-in material as the specifications see it.
pub struct BuiltInView {
    pub name: Seq<char>,
    pub cut: CutPattern,
    pub surface: Seq<char>,
    pub color: Seq<u8>,
}

impl View for BuiltIn {
    type V = BuiltInView;

    open spec fn view(&self) -> BuiltInView {
        BuiltInView { name: self.name@, cut: self.cut, surface: self.surface@, color: self.color@ }
    }
}

/// The built-in materials, in the order they are added to a project.
pub open spec fn built_in_table() -> Seq<BuiltInView> {
    seq![

        BuiltInView { name: "Concrete"@, cut: CutPattern::Concrete, surface: "none"@, color: seq![190u8, 188u8, 182u8] },
        BuiltInView { name: "Concrete Masonry Unit"@, cut: CutPattern::Masonry, surface: "block"@, color: seq![176u8, 172u8, 164u8] },
        BuiltInView { name: "Brick"@, cut: CutPattern::Masonry, surface: "brick"@, color: seq![168u8, 82u8, 60u8] },
        BuiltInView { name: "Stucco"@, cut: CutPattern::Unhatched, surface: "none"@, color: seq![226u8, 220u8, 206u8] },
        BuiltInView { name: "Wood Siding"@, cut: CutPattern::Unhatched, surface: "lap8"@, color: seq![205u8, 190u8, 160u8] },
        BuiltInView { name: "Plywood"@, cut: CutPattern::Unhatched, surface: "none"@, color: seq![214u8, 190u8, 140u8] },
        BuiltInView { name: "Wood Framing"@, cut: CutPattern::Wood, surface: "none"@, color: seq![200u8, 170u8, 120u8] },
        BuiltInView { name: "Batt Insulation"@, cut: CutPattern::Insulation, surface: "none"@, color: seq![240u8, 210u8, 160u8] },
        BuiltInView { name: "Rigid Insulation"@, cut: CutPattern::Rigid, surface: "none"@, color: seq![200u8, 220u8, 235u8] },
        BuiltInView { name: "Gypsum Board"@, cut: CutPattern::Unhatched, surface: "none"@, color: seq![245u8, 245u8, 242u8] },
        BuiltInView { name: "Metal Stud"@, cut: CutPattern::Unhatched, surface: "none"@, color: seq![170u8, 175u8, 180u8] },
        BuiltInView { name: "Air"@, cut: CutPattern::Unhatched, surface: "none"@, color: seq![255u8, 255u8, 255u8] },
        BuiltInView { name: "Hardwood Flooring"@, cut: CutPattern::Unhatched, surface: "none"@, color: seq![170u8, 120u8, 80u8] },
        BuiltInView { name: "Asphalt Shingles"@, cut: CutPattern::Unhatched, surface: "shingle5"@, color: seq![80u8, 84u8, 90u8] },
        BuiltInView { name: "Roofing Membrane"@, cut: CutPattern::Unhatched, surface: "none"@, color: seq![110u8, 110u8, 110u8] },
        BuiltInView { name: "Cover Board"@, cut: CutPattern::Unhatched, surface: "none"@, color: seq![200u8, 200u8, 195u8] },
        BuiltInView { name: "Structural Steel"@, cut: CutPattern::Solid, surface: "none"@, color: seq![110u8, 122u8, 134u8] },
        BuiltInView { name: "Glulam"@, cut: CutPattern::Wood, surface: "none"@, color: seq![205u8, 165u8, 110u8] },
        BuiltInView { name: "Default"@, cut: CutPattern::Unhatched, surface: "none"@, color: seq![200u8, 200u8, 200u8] },
    ]
}

/// The built-in materials, in the order they are added to a project.
pub fn built_in_materials() -> (v: Vec<BuiltIn>)
    ensures
        v@.map_values(|b: BuiltIn| b@) == built_in_table(),
{
    let v = vec![

        BuiltIn { name: "Concrete", cut: CutPattern::Concrete, surface: "none", color: [190, 188, 182] },
        BuiltIn { name: "Concrete Masonry Unit", cut: CutPattern::Masonry, surface: "block", color: [176, 172, 164] },
        BuiltIn { name: "Brick", cut: CutPattern::Masonry, surface: "brick", color: [168, 82, 60] },
        BuiltIn { name: "Stucco", cut: CutPattern::Unhatched, surface: "none", color: [226, 220, 206] },
        BuiltIn { name: "Wood Siding", cut: CutPattern::Unhatched, surface: "lap8", color: [205, 190, 160] },
        BuiltIn { name: "Plywood", cut: CutPattern::Unhatched, surface: "none", color: [214, 190, 140] },
        BuiltIn { name: "Wood Framing", cut: CutPattern::Wood, surface: "none", color: [200, 170, 120] },
        BuiltIn { name: "Batt Insulation", cut: CutPattern::Insulation, surface: "none", color: [240, 210, 160] },
        BuiltIn { name: "Rigid Insulation", cut: CutPattern::Rigid, surface: "none", color: [200, 220, 235] },
        BuiltIn { name: "Gypsum Board", cut: CutPattern::Unhatched, surface: "none", color: [245, 245, 242] },
        BuiltIn { name: "Metal Stud", cut: CutPattern::Unhatched, surface: "none", color: [170, 175, 180] },
        BuiltIn { name: "Air", cut: CutPattern::Unhatched, surface: "none", color: [255, 255, 255] },
        BuiltIn { name: "Hardwood Flooring", cut: CutPattern::Unhatched, surface: "none", color: [170, 120, 80] },
        BuiltIn { name: "Asphalt Shingles", cut: CutPattern::Unhatched, surface: "shingle5", color: [80, 84, 90] },
        BuiltIn { name: "Roofing Membrane", cut: CutPattern::Unhatched, surface: "none", color: [110, 110, 110] },
        BuiltIn { name: "Cover Board", cut: CutPattern::Unhatched, surface: "none", color: [200, 200, 195] },
        BuiltIn { name: "Structural Steel", cut: CutPattern::Solid, surface: "none", color: [110, 122, 134] },
        BuiltIn { name: "Glulam", cut: CutPattern::Wood, surface: "none", color: [205, 165, 110] },
        BuiltIn { name: "Default", cut: CutPattern::Unhatched, surface: "none", color: [200, 200, 200] },
    ];
    assert(v@.map_values(|b: BuiltIn| b@) =~= built_in_table());
    v
}

/// The first entry of `t` named `name`.
pub open spec fn first_named(t: Seq<BuiltInView>, name: Seq<char>) -> Option<BuiltInView>
    decreases t.len(),
{
    if t.len() == 0 {
        None
    } else if t[0].name == name {
        Some(t[0])
    } else {
        first_named(t.drop_first(), name)
    }
}

/// The built-in material named `name`.
pub fn find_built_in(name: &str) -> (r: Option<BuiltIn>)
    ensures
        match r {
            Some(b) => first_named(built_in_table(), name@) == Some(b@),
            None => first_named(built_in_table(), name@) is None,
        },
{
    let t = built_in_materials();
    let ghost tv = built_in_table();
    let mut i: usize = 0;
    assert(tv.skip(0) =~= tv);
    while i < t.len()
        invariant
            i <= t.len(),
            t@.map_values(|b: BuiltIn| b@) == tv,
            tv == built_in_table(),
            first_named(tv, name@) == first_named(tv.skip(i as int), name@),
        decreases t.len() - i,
    {
        assert(tv.skip(i as int)[0] == t@[i as int]@);
        assert(tv.skip(i as int).drop_first() =~= tv.skip(i + 1));
        if same(t[i].name, name) {
            return Some(t[i]);
        }
        i += 1;
    }
    assert(tv.skip(i as int).len() == 0);
    None
}

/// The cut pattern a lower-cased name implies.
pub open spec fn implied_cut(n: Seq<char>) -> CutPattern {
    match implied_material(n) {
        Some(m) => match first_named(built_in_table(), m) {
            Some(b) => b.cut,
            None => CutPattern::Unhatched,
        },
        None => CutPattern::Unhatched,
    }
}

/// The cut pattern a name implies when there is no material (files from before
/// materials).
pub fn cut_for_name(name: &str) -> (c: CutPattern)
    ensures
        c == implied_cut(lowercase_of(name@)),
{
    match material_for_name(name) {
        Some(m) => match find_built_in(m) {
            Some(b) => b.cut,
            None => CutPattern::Unhatched,
        },
        None => CutPattern::Unhatched,
    }
}

/// The first entry of `t` named `name` is the one at `k` when no earlier entry has that name.
proof fn lemma_first_named_at(t: Seq<BuiltInView>, name: Seq<char>, k: int)
    requires
        0 <= k < t.len(),
        t[k].name == name,
        forall|j: int| 0 <= j < k ==> (#[trigger] t[j]).name != name,
    ensures
        first_named(t, name) == Some(t[k]),
    decreases k,
{
    if k > 0 {
        assert(t[0].name != name);
        assert forall|j: int| 0 <= j < k - 1 implies (#[trigger] t.drop_first()[j]).name != name by {
            assert(t.drop_first()[j] == t[j + 1]);
        }
        lemma_first_named_at(t.drop_first(), name, k - 1);
    }
}

/// Each built-in material is found by its name at its place in the table.
proof fn lemma_built_in_names()
    ensures
        first_named(built_in_table(), "Concrete"@) == Some(built_in_table()[0]),
        first_named(built_in_table(), "Concrete Masonry Unit"@) == Some(built_in_table()[1]),
        first_named(built_in_table(), "Brick"@) == Some(built_in_table()[2]),
        first_named(built_in_table(), "Stucco"@) == Some(built_in_table()[3]),
        first_named(built_in_table(), "Wood Siding"@) == Some(built_in_table()[4]),
        first_named(built_in_table(), "Plywood"@) == Some(built_in_table()[5]),
        first_named(built_in_table(), "Wood Framing"@) == Some(built_in_table()[6]),
        first_named(built_in_table(), "Batt Insulation"@) == Some(built_in_table()[7]),
        first_named(built_in_table(), "Rigid Insulation"@) == Some(built_in_table()[8]),
        first_named(built_in_table(), "Gypsum Board"@) == Some(built_in_table()[9]),
        first_named(built_in_table(), "Metal Stud"@) == Some(built_in_table()[10]),
        first_named(built_in_table(), "Air"@) == Some(built_in_table()[11]),
        first_named(built_in_table(), "Hardwood Flooring"@) == Some(built_in_table()[12]),
        first_named(built_in_table(), "Asphalt Shingles"@) == Some(built_in_table()[13]),
        first_named(built_in_table(), "Roofing Membrane"@) == Some(built_in_table()[14]),
        first_named(built_in_table(), "Cover Board"@) == Some(built_in_table()[15]),
        first_named(built_in_table(), "Structural Steel"@) == Some(built_in_table()[16]),
        first_named(built_in_table(), "Glulam"@) == Some(built_in_table()[17]),
{
    let t = built_in_table();
    reveal_strlit("Concrete");
    reveal_strlit("Concrete Masonry Unit");
    reveal_strlit("Brick");
    reveal_strlit("Stucco");
    reveal_strlit("Wood Siding");
    reveal_strlit("Plywood");
    reveal_strlit("Wood Framing");
    reveal_strlit("Batt Insulation");
    reveal_strlit("Rigid Insulation");
    reveal_strlit("Gypsum Board");
    reveal_strlit("Metal Stud");
    reveal_strlit("Air");
    reveal_strlit("Hardwood Flooring");
    reveal_strlit("Asphalt Shingles");
    reveal_strlit("Roofing Membrane");
    reveal_strlit("Cover Board");
    reveal_strlit("Structural Steel");
    reveal_strlit("Glulam");
    assert forall|j: int| 0 <= j < 0 implies (#[trigger] t[j]).name != "Concrete"@ by {
    }
    lemma_first_named_at(t, "Concrete"@, 0);
    assert forall|j: int| 0 <= j < 1 implies (#[trigger] t[j]).name != "Concrete Masonry Unit"@ by {
        if j == 0 { assert(t[j].name.len() != "Concrete Masonry Unit"@.len()); }
    }
    lemma_first_named_at(t, "Concrete Masonry Unit"@, 1);
    assert forall|j: int| 0 <= j < 2 implies (#[trigger] t[j]).name != "Brick"@ by {
        if j == 0 { assert(t[j].name.len() != "Brick"@.len()); }
        if j == 1 { assert(t[j].name.len() != "Brick"@.len()); }
    }
    lemma_first_named_at(t, "Brick"@, 2);
    assert forall|j: int| 0 <= j < 3 implies (#[trigger] t[j]).name != "Stucco"@ by {
        if j == 0 { assert(t[j].name.len() != "Stucco"@.len()); }
        if j == 1 { assert(t[j].name.len() != "Stucco"@.len()); }
        if j == 2 { assert(t[j].name.len() != "Stucco"@.len()); }
    }
    lemma_first_named_at(t, "Stucco"@, 3);
    assert forall|j: int| 0 <= j < 4 implies (#[trigger] t[j]).name != "Wood Siding"@ by {
        if j == 0 { assert(t[j].name.len() != "Wood Siding"@.len()); }
        if j == 1 { assert(t[j].name.len() != "Wood Siding"@.len()); }
        if j == 2 { assert(t[j].name.len() != "Wood Siding"@.len()); }
        if j == 3 { assert(t[j].name.len() != "Wood Siding"@.len()); }
    }
    lemma_first_named_at(t, "Wood Siding"@, 4);
    assert forall|j: int| 0 <= j < 5 implies (#[trigger] t[j]).name != "Plywood"@ by {
        if j == 0 { assert(t[j].name.len() != "Plywood"@.len()); }
        if j == 1 { assert(t[j].name.len() != "Plywood"@.len()); }
        if j == 2 { assert(t[j].name.len() != "Plywood"@.len()); }
        if j == 3 { assert(t[j].name.len() != "Plywood"@.len()); }
        if j == 4 { assert(t[j].name.len() != "Plywood"@.len()); }
    }
    lemma_first_named_at(t, "Plywood"@, 5);
    assert forall|j: int| 0 <= j < 6 implies (#[trigger] t[j]).name != "Wood Framing"@ by {
        if j == 0 { assert(t[j].name.len() != "Wood Framing"@.len()); }
        if j == 1 { assert(t[j].name.len() != "Wood Framing"@.len()); }
        if j == 2 { assert(t[j].name.len() != "Wood Framing"@.len()); }
        if j == 3 { assert(t[j].name.len() != "Wood Framing"@.len()); }
        if j == 4 { assert(t[j].name.len() != "Wood Framing"@.len()); }
        if j == 5 { assert(t[j].name.len() != "Wood Framing"@.len()); }
    }
    lemma_first_named_at(t, "Wood Framing"@, 6);
    assert forall|j: int| 0 <= j < 7 implies (#[trigger] t[j]).name != "Batt Insulation"@ by {
        if j == 0 { assert(t[j].name.len() != "Batt Insulation"@.len()); }
        if j == 1 { assert(t[j].name.len() != "Batt Insulation"@.len()); }
        if j == 2 { assert(t[j].name.len() != "Batt Insulation"@.len()); }
        if j == 3 { assert(t[j].name.len() != "Batt Insulation"@.len()); }
        if j == 4 { assert(t[j].name.len() != "Batt Insulation"@.len()); }
        if j == 5 { assert(t[j].name.len() != "Batt Insulation"@.len()); }
        if j == 6 { assert(t[j].name.len() != "Batt Insulation"@.len()); }
    }
    lemma_first_named_at(t, "Batt Insulation"@, 7);
    assert forall|j: int| 0 <= j < 8 implies (#[trigger] t[j]).name != "Rigid Insulation"@ by {
        if j == 0 { assert(t[j].name.len() != "Rigid Insulation"@.len()); }
        if j == 1 { assert(t[j].name.len() != "Rigid Insulation"@.len()); }
        if j == 2 { assert(t[j].name.len() != "Rigid Insulation"@.len()); }
        if j == 3 { assert(t[j].name.len() != "Rigid Insulation"@.len()); }
        if j == 4 { assert(t[j].name.len() != "Rigid Insulation"@.len()); }
        if j == 5 { assert(t[j].name.len() != "Rigid Insulation"@.len()); }
        if j == 6 { assert(t[j].name.len() != "Rigid Insulation"@.len()); }
        if j == 7 { assert(t[j].name.len() != "Rigid Insulation"@.len()); }
    }
    lemma_first_named_at(t, "Rigid Insulation"@, 8);
    assert forall|j: int| 0 <= j < 9 implies (#[trigger] t[j]).name != "Gypsum Board"@ by {
        if j == 0 { assert(t[j].name.len() != "Gypsum Board"@.len()); }
        if j == 1 { assert(t[j].name.len() != "Gypsum Board"@.len()); }
        if j == 2 { assert(t[j].name.len() != "Gypsum Board"@.len()); }
        if j == 3 { assert(t[j].name.len() != "Gypsum Board"@.len()); }
        if j == 4 { assert(t[j].name.len() != "Gypsum Board"@.len()); }
        if j == 5 { assert(t[j].name.len() != "Gypsum Board"@.len()); }
        if j == 6 { assert(t[j].name[0] != "Gypsum Board"@[0]); }
        if j == 7 { assert(t[j].name.len() != "Gypsum Board"@.len()); }
        if j == 8 { assert(t[j].name.len() != "Gypsum Board"@.len()); }
    }
    lemma_first_named_at(t, "Gypsum Board"@, 9);
    assert forall|j: int| 0 <= j < 10 implies (#[trigger] t[j]).name != "Metal Stud"@ by {
        if j == 0 { assert(t[j].name.len() != "Metal Stud"@.len()); }
        if j == 1 { assert(t[j].name.len() != "Metal Stud"@.len()); }
        if j == 2 { assert(t[j].name.len() != "Metal Stud"@.len()); }
        if j == 3 { assert(t[j].name.len() != "Metal Stud"@.len()); }
        if j == 4 { assert(t[j].name.len() != "Metal Stud"@.len()); }
        if j == 5 { assert(t[j].name.len() != "Metal Stud"@.len()); }
        if j == 6 { assert(t[j].name.len() != "Metal Stud"@.len()); }
        if j == 7 { assert(t[j].name.len() != "Metal Stud"@.len()); }
        if j == 8 { assert(t[j].name.len() != "Metal Stud"@.len()); }
        if j == 9 { assert(t[j].name.len() != "Metal Stud"@.len()); }
    }
    lemma_first_named_at(t, "Metal Stud"@, 10);
    assert forall|j: int| 0 <= j < 11 implies (#[trigger] t[j]).name != "Air"@ by {
        if j == 0 { assert(t[j].name.len() != "Air"@.len()); }
        if j == 1 { assert(t[j].name.len() != "Air"@.len()); }
        if j == 2 { assert(t[j].name.len() != "Air"@.len()); }
        if j == 3 { assert(t[j].name.len() != "Air"@.len()); }
        if j == 4 { assert(t[j].name.len() != "Air"@.len()); }
        if j == 5 { assert(t[j].name.len() != "Air"@.len()); }
        if j == 6 { assert(t[j].name.len() != "Air"@.len()); }
        if j == 7 { assert(t[j].name.len() != "Air"@.len()); }
        if j == 8 { assert(t[j].name.len() != "Air"@.len()); }
        if j == 9 { assert(t[j].name.len() != "Air"@.len()); }
        if j == 10 { assert(t[j].name.len() != "Air"@.len()); }
    }
    lemma_first_named_at(t, "Air"@, 11);
    assert forall|j: int| 0 <= j < 12 implies (#[trigger] t[j]).name != "Hardwood Flooring"@ by {
        if j == 0 { assert(t[j].name.len() != "Hardwood Flooring"@.len()); }
        if j == 1 { assert(t[j].name.len() != "Hardwood Flooring"@.len()); }
        if j == 2 { assert(t[j].name.len() != "Hardwood Flooring"@.len()); }
        if j == 3 { assert(t[j].name.len() != "Hardwood Flooring"@.len()); }
        if j == 4 { assert(t[j].name.len() != "Hardwood Flooring"@.len()); }
        if j == 5 { assert(t[j].name.len() != "Hardwood Flooring"@.len()); }
        if j == 6 { assert(t[j].name.len() != "Hardwood Flooring"@.len()); }
        if j == 7 { assert(t[j].name.len() != "Hardwood Flooring"@.len()); }
        if j == 8 { assert(t[j].name.len() != "Hardwood Flooring"@.len()); }
        if j == 9 { assert(t[j].name.len() != "Hardwood Flooring"@.len()); }
        if j == 10 { assert(t[j].name.len() != "Hardwood Flooring"@.len()); }
        if j == 11 { assert(t[j].name.len() != "Hardwood Flooring"@.len()); }
    }
    lemma_first_named_at(t, "Hardwood Flooring"@, 12);
    assert forall|j: int| 0 <= j < 13 implies (#[trigger] t[j]).name != "Asphalt Shingles"@ by {
        if j == 0 { assert(t[j].name.len() != "Asphalt Shingles"@.len()); }
        if j == 1 { assert(t[j].name.len() != "Asphalt Shingles"@.len()); }
        if j == 2 { assert(t[j].name.len() != "Asphalt Shingles"@.len()); }
        if j == 3 { assert(t[j].name.len() != "Asphalt Shingles"@.len()); }
        if j == 4 { assert(t[j].name.len() != "Asphalt Shingles"@.len()); }
        if j == 5 { assert(t[j].name.len() != "Asphalt Shingles"@.len()); }
        if j == 6 { assert(t[j].name.len() != "Asphalt Shingles"@.len()); }
        if j == 7 { assert(t[j].name.len() != "Asphalt Shingles"@.len()); }
        if j == 8 { assert(t[j].name[0] != "Asphalt Shingles"@[0]); }
        if j == 9 { assert(t[j].name.len() != "Asphalt Shingles"@.len()); }
        if j == 10 { assert(t[j].name.len() != "Asphalt Shingles"@.len()); }
        if j == 11 { assert(t[j].name.len() != "Asphalt Shingles"@.len()); }
        if j == 12 { assert(t[j].name.len() != "Asphalt Shingles"@.len()); }
    }
    lemma_first_named_at(t, "Asphalt Shingles"@, 13);
    assert forall|j: int| 0 <= j < 14 implies (#[trigger] t[j]).name != "Roofing Membrane"@ by {
        if j == 0 { assert(t[j].name.len() != "Roofing Membrane"@.len()); }
        if j == 1 { assert(t[j].name.len() != "Roofing Membrane"@.len()); }
        if j == 2 { assert(t[j].name.len() != "Roofing Membrane"@.len()); }
        if j == 3 { assert(t[j].name.len() != "Roofing Membrane"@.len()); }
        if j == 4 { assert(t[j].name.len() != "Roofing Membrane"@.len()); }
        if j == 5 { assert(t[j].name.len() != "Roofing Membrane"@.len()); }
        if j == 6 { assert(t[j].name.len() != "Roofing Membrane"@.len()); }
        if j == 7 { assert(t[j].name.len() != "Roofing Membrane"@.len()); }
        if j == 8 { assert(t[j].name[1] != "Roofing Membrane"@[1]); }
        if j == 9 { assert(t[j].name.len() != "Roofing Membrane"@.len()); }
        if j == 10 { assert(t[j].name.len() != "Roofing Membrane"@.len()); }
        if j == 11 { assert(t[j].name.len() != "Roofing Membrane"@.len()); }
        if j == 12 { assert(t[j].name.len() != "Roofing Membrane"@.len()); }
        if j == 13 { assert(t[j].name[0] != "Roofing Membrane"@[0]); }
    }
    lemma_first_named_at(t, "Roofing Membrane"@, 14);
    assert forall|j: int| 0 <= j < 15 implies (#[trigger] t[j]).name != "Cover Board"@ by {
        if j == 0 { assert(t[j].name.len() != "Cover Board"@.len()); }
        if j == 1 { assert(t[j].name.len() != "Cover Board"@.len()); }
        if j == 2 { assert(t[j].name.len() != "Cover Board"@.len()); }
        if j == 3 { assert(t[j].name.len() != "Cover Board"@.len()); }
        if j == 4 { assert(t[j].name[0] != "Cover Board"@[0]); }
        if j == 5 { assert(t[j].name.len() != "Cover Board"@.len()); }
        if j == 6 { assert(t[j].name.len() != "Cover Board"@.len()); }
        if j == 7 { assert(t[j].name.len() != "Cover Board"@.len()); }
        if j == 8 { assert(t[j].name.len() != "Cover Board"@.len()); }
        if j == 9 { assert(t[j].name.len() != "Cover Board"@.len()); }
        if j == 10 { assert(t[j].name.len() != "Cover Board"@.len()); }
        if j == 11 { assert(t[j].name.len() != "Cover Board"@.len()); }
        if j == 12 { assert(t[j].name.len() != "Cover Board"@.len()); }
        if j == 13 { assert(t[j].name.len() != "Cover Board"@.len()); }
        if j == 14 { assert(t[j].name.len() != "Cover Board"@.len()); }
    }
    lemma_first_named_at(t, "Cover Board"@, 15);
    assert forall|j: int| 0 <= j < 16 implies (#[trigger] t[j]).name != "Structural Steel"@ by {
        if j == 0 { assert(t[j].name.len() != "Structural Steel"@.len()); }
        if j == 1 { assert(t[j].name.len() != "Structural Steel"@.len()); }
        if j == 2 { assert(t[j].name.len() != "Structural Steel"@.len()); }
        if j == 3 { assert(t[j].name.len() != "Structural Steel"@.len()); }
        if j == 4 { assert(t[j].name.len() != "Structural Steel"@.len()); }
        if j == 5 { assert(t[j].name.len() != "Structural Steel"@.len()); }
        if j == 6 { assert(t[j].name.len() != "Structural Steel"@.len()); }
        if j == 7 { assert(t[j].name.len() != "Structural Steel"@.len()); }
        if j == 8 { assert(t[j].name[0] != "Structural Steel"@[0]); }
        if j == 9 { assert(t[j].name.len() != "Structural Steel"@.len()); }
        if j == 10 { assert(t[j].name.len() != "Structural Steel"@.len()); }
        if j == 11 { assert(t[j].name.len() != "Structural Steel"@.len()); }
        if j == 12 { assert(t[j].name.len() != "Structural Steel"@.len()); }
        if j == 13 { assert(t[j].name[0] != "Structural Steel"@[0]); }
        if j == 14 { assert(t[j].name[0] != "Structural Steel"@[0]); }
        if j == 15 { assert(t[j].name.len() != "Structural Steel"@.len()); }
    }
    lemma_first_named_at(t, "Structural Steel"@, 16);
    assert forall|j: int| 0 <= j < 17 implies (#[trigger] t[j]).name != "Glulam"@ by {
        if j == 0 { assert(t[j].name.len() != "Glulam"@.len()); }
        if j == 1 { assert(t[j].name.len() != "Glulam"@.len()); }
        if j == 2 { assert(t[j].name.len() != "Glulam"@.len()); }
        if j == 3 { assert(t[j].name[0] != "Glulam"@[0]); }
        if j == 4 { assert(t[j].name.len() != "Glulam"@.len()); }
        if j == 5 { assert(t[j].name.len() != "Glulam"@.len()); }
        if j == 6 { assert(t[j].name.len() != "Glulam"@.len()); }
        if j == 7 { assert(t[j].name.len() != "Glulam"@.len()); }
        if j == 8 { assert(t[j].name.len() != "Glulam"@.len()); }
        if j == 9 { assert(t[j].name.len() != "Glulam"@.len()); }
        if j == 10 { assert(t[j].name.len() != "Glulam"@.len()); }
        if j == 11 { assert(t[j].name.len() != "Glulam"@.len()); }
        if j == 12 { assert(t[j].name.len() != "Glulam"@.len()); }
        if j == 13 { assert(t[j].name.len() != "Glulam"@.len()); }
        if j == 14 { assert(t[j].name.len() != "Glulam"@.len()); }
        if j == 15 { assert(t[j].name.len() != "Glulam"@.len()); }
        if j == 16 { assert(t[j].name.len() != "Glulam"@.len()); }
    }
    lemma_first_named_at(t, "Glulam"@, 17);
}

/// Which material a lower-case name means, rule by rule: the words of each rule, in order
/// (rigid; batt or insulation; cmu or block; brick, masonry or stone; stucco or plaster;
/// siding; plywood, osb, sheathing or subfloor; gypsum or drywall; metal stud; air;
/// hardwood; shingle; membrane; cover board; steel; glulam; concrete; joist, stud, rafter,
/// wood, lumber or post), give their material, with its cut pattern, whenever the name
/// holds one of them and none of an earlier rule's words, whatever else it holds. So
/// "concrete block" is masonry units (cut as masonry), and "concrete" alone is concrete.
pub proof fn lemma_material_rules(n: Seq<char>)
    ensures
        (has_text(n, "rigid"@))
            ==> implied_material(n) == Some("Rigid Insulation"@) && implied_cut(n) == CutPattern::Rigid,
        !has_text(n, "rigid"@) && (has_text(n, "batt"@) || has_text(n, "insulation"@))
            ==> implied_material(n) == Some("Batt Insulation"@) && implied_cut(n) == CutPattern::Insulation,
        !has_text(n, "rigid"@) && !has_text(n, "batt"@) && !has_text(n, "insulation"@) && (has_text(n, "cmu"@) || has_text(n, "block"@))
            ==> implied_material(n) == Some("Concrete Masonry Unit"@) && implied_cut(n) == CutPattern::Masonry,
        !has_text(n, "rigid"@) && !has_text(n, "batt"@) && !has_text(n, "insulation"@) && !has_text(n, "cmu"@) && !has_text(n, "block"@) && (has_text(n, "brick"@) || has_text(n, "masonry"@) || has_text(n, "stone"@))
            ==> implied_material(n) == Some("Brick"@) && implied_cut(n) == CutPattern::Masonry,
        !has_text(n, "rigid"@) && !has_text(n, "batt"@) && !has_text(n, "insulation"@) && !has_text(n, "cmu"@) && !has_text(n, "block"@) && !has_text(n, "brick"@) && !has_text(n, "masonry"@) && !has_text(n, "stone"@) && (has_text(n, "stucco"@) || has_text(n, "plaster"@))
            ==> implied_material(n) == Some("Stucco"@) && implied_cut(n) == CutPattern::Unhatched,
        !has_text(n, "rigid"@) && !has_text(n, "batt"@) && !has_text(n, "insulation"@) && !has_text(n, "cmu"@) && !has_text(n, "block"@) && !has_text(n, "brick"@) && !has_text(n, "masonry"@) && !has_text(n, "stone"@) && !has_text(n, "stucco"@) && !has_text(n, "plaster"@) && (has_text(n, "siding"@))
            ==> implied_material(n) == Some("Wood Siding"@) && implied_cut(n) == CutPattern::Unhatched,
        !has_text(n, "rigid"@) && !has_text(n, "batt"@) && !has_text(n, "insulation"@) && !has_text(n, "cmu"@) && !has_text(n, "block"@) && !has_text(n, "brick"@) && !has_text(n, "masonry"@) && !has_text(n, "stone"@) && !has_text(n, "stucco"@) && !has_text(n, "plaster"@) && !has_text(n, "siding"@) && (has_text(n, "plywood"@) || has_text(n, "osb"@) || has_text(n, "sheathing"@) || has_text(n, "subfloor"@))
            ==> implied_material(n) == Some("Plywood"@) && implied_cut(n) == CutPattern::Unhatched,
        !has_text(n, "rigid"@) && !has_text(n, "batt"@) && !has_text(n, "insulation"@) && !has_text(n, "cmu"@) && !has_text(n, "block"@) && !has_text(n, "brick"@) && !has_text(n, "masonry"@) && !has_text(n, "stone"@) && !has_text(n, "stucco"@) && !has_text(n, "plaster"@) && !has_text(n, "siding"@) && !has_text(n, "plywood"@) && !has_text(n, "osb"@) && !has_text(n, "sheathing"@) && !has_text(n, "subfloor"@) && (has_text(n, "gypsum"@) || has_text(n, "drywall"@))
            ==> implied_material(n) == Some("Gypsum Board"@) && implied_cut(n) == CutPattern::Unhatched,
        !has_text(n, "rigid"@) && !has_text(n, "batt"@) && !has_text(n, "insulation"@) && !has_text(n, "cmu"@) && !has_text(n, "block"@) && !has_text(n, "brick"@) && !has_text(n, "masonry"@) && !has_text(n, "stone"@) && !has_text(n, "stucco"@) && !has_text(n, "plaster"@) && !has_text(n, "siding"@) && !has_text(n, "plywood"@) && !has_text(n, "osb"@) && !has_text(n, "sheathing"@) && !has_text(n, "subfloor"@) && !has_text(n, "gypsum"@) && !has_text(n, "drywall"@) && (has_text(n, "metal stud"@))
            ==> implied_material(n) == Some("Metal Stud"@) && implied_cut(n) == CutPattern::Unhatched,
        !has_text(n, "rigid"@) && !has_text(n, "batt"@) && !has_text(n, "insulation"@) && !has_text(n, "cmu"@) && !has_text(n, "block"@) && !has_text(n, "brick"@) && !has_text(n, "masonry"@) && !has_text(n, "stone"@) && !has_text(n, "stucco"@) && !has_text(n, "plaster"@) && !has_text(n, "siding"@) && !has_text(n, "plywood"@) && !has_text(n, "osb"@) && !has_text(n, "sheathing"@) && !has_text(n, "subfloor"@) && !has_text(n, "gypsum"@) && !has_text(n, "drywall"@) && !has_text(n, "metal stud"@) && (has_text(n, "air"@))
            ==> implied_material(n) == Some("Air"@) && implied_cut(n) == CutPattern::Unhatched,
        !has_text(n, "rigid"@) && !has_text(n, "batt"@) && !has_text(n, "insulation"@) && !has_text(n, "cmu"@) && !has_text(n, "block"@) && !has_text(n, "brick"@) && !has_text(n, "masonry"@) && !has_text(n, "stone"@) && !has_text(n, "stucco"@) && !has_text(n, "plaster"@) && !has_text(n, "siding"@) && !has_text(n, "plywood"@) && !has_text(n, "osb"@) && !has_text(n, "sheathing"@) && !has_text(n, "subfloor"@) && !has_text(n, "gypsum"@) && !has_text(n, "drywall"@) && !has_text(n, "metal stud"@) && !has_text(n, "air"@) && (has_text(n, "hardwood"@))
            ==> implied_material(n) == Some("Hardwood Flooring"@) && implied_cut(n) == CutPattern::Unhatched,
        !has_text(n, "rigid"@) && !has_text(n, "batt"@) && !has_text(n, "insulation"@) && !has_text(n, "cmu"@) && !has_text(n, "block"@) && !has_text(n, "brick"@) && !has_text(n, "masonry"@) && !has_text(n, "stone"@) && !has_text(n, "stucco"@) && !has_text(n, "plaster"@) && !has_text(n, "siding"@) && !has_text(n, "plywood"@) && !has_text(n, "osb"@) && !has_text(n, "sheathing"@) && !has_text(n, "subfloor"@) && !has_text(n, "gypsum"@) && !has_text(n, "drywall"@) && !has_text(n, "metal stud"@) && !has_text(n, "air"@) && !has_text(n, "hardwood"@) && (has_text(n, "shingle"@))
            ==> implied_material(n) == Some("Asphalt Shingles"@) && implied_cut(n) == CutPattern::Unhatched,
        !has_text(n, "rigid"@) && !has_text(n, "batt"@) && !has_text(n, "insulation"@) && !has_text(n, "cmu"@) && !has_text(n, "block"@) && !has_text(n, "brick"@) && !has_text(n, "masonry"@) && !has_text(n, "stone"@) && !has_text(n, "stucco"@) && !has_text(n, "plaster"@) && !has_text(n, "siding"@) && !has_text(n, "plywood"@) && !has_text(n, "osb"@) && !has_text(n, "sheathing"@) && !has_text(n, "subfloor"@) && !has_text(n, "gypsum"@) && !has_text(n, "drywall"@) && !has_text(n, "metal stud"@) && !has_text(n, "air"@) && !has_text(n, "hardwood"@) && !has_text(n, "shingle"@) && (has_text(n, "membrane"@))
            ==> implied_material(n) == Some("Roofing Membrane"@) && implied_cut(n) == CutPattern::Unhatched,
        !has_text(n, "rigid"@) && !has_text(n, "batt"@) && !has_text(n, "insulation"@) && !has_text(n, "cmu"@) && !has_text(n, "block"@) && !has_text(n, "brick"@) && !has_text(n, "masonry"@) && !has_text(n, "stone"@) && !has_text(n, "stucco"@) && !has_text(n, "plaster"@) && !has_text(n, "siding"@) && !has_text(n, "plywood"@) && !has_text(n, "osb"@) && !has_text(n, "sheathing"@) && !has_text(n, "subfloor"@) && !has_text(n, "gypsum"@) && !has_text(n, "drywall"@) && !has_text(n, "metal stud"@) && !has_text(n, "air"@) && !has_text(n, "hardwood"@) && !has_text(n, "shingle"@) && !has_text(n, "membrane"@) && (has_text(n, "cover board"@))
            ==> implied_material(n) == Some("Cover Board"@) && implied_cut(n) == CutPattern::Unhatched,
        !has_text(n, "rigid"@) && !has_text(n, "batt"@) && !has_text(n, "insulation"@) && !has_text(n, "cmu"@) && !has_text(n, "block"@) && !has_text(n, "brick"@) && !has_text(n, "masonry"@) && !has_text(n, "stone"@) && !has_text(n, "stucco"@) && !has_text(n, "plaster"@) && !has_text(n, "siding"@) && !has_text(n, "plywood"@) && !has_text(n, "osb"@) && !has_text(n, "sheathing"@) && !has_text(n, "subfloor"@) && !has_text(n, "gypsum"@) && !has_text(n, "drywall"@) && !has_text(n, "metal stud"@) && !has_text(n, "air"@) && !has_text(n, "hardwood"@) && !has_text(n, "shingle"@) && !has_text(n, "membrane"@) && !has_text(n, "cover board"@) && (has_text(n, "steel"@))
            ==> implied_material(n) == Some("Structural Steel"@) && implied_cut(n) == CutPattern::Solid,
        !has_text(n, "rigid"@) && !has_text(n, "batt"@) && !has_text(n, "insulation"@) && !has_text(n, "cmu"@) && !has_text(n, "block"@) && !has_text(n, "brick"@) && !has_text(n, "masonry"@) && !has_text(n, "stone"@) && !has_text(n, "stucco"@) && !has_text(n, "plaster"@) && !has_text(n, "siding"@) && !has_text(n, "plywood"@) && !has_text(n, "osb"@) && !has_text(n, "sheathing"@) && !has_text(n, "subfloor"@) && !has_text(n, "gypsum"@) && !has_text(n, "drywall"@) && !has_text(n, "metal stud"@) && !has_text(n, "air"@) && !has_text(n, "hardwood"@) && !has_text(n, "shingle"@) && !has_text(n, "membrane"@) && !has_text(n, "cover board"@) && !has_text(n, "steel"@) && (has_text(n, "glulam"@))
            ==> implied_material(n) == Some("Glulam"@) && implied_cut(n) == CutPattern::Wood,
        !has_text(n, "rigid"@) && !has_text(n, "batt"@) && !has_text(n, "insulation"@) && !has_text(n, "cmu"@) && !has_text(n, "block"@) && !has_text(n, "brick"@) && !has_text(n, "masonry"@) && !has_text(n, "stone"@) && !has_text(n, "stucco"@) && !has_text(n, "plaster"@) && !has_text(n, "siding"@) && !has_text(n, "plywood"@) && !has_text(n, "osb"@) && !has_text(n, "sheathing"@) && !has_text(n, "subfloor"@) && !has_text(n, "gypsum"@) && !has_text(n, "drywall"@) && !has_text(n, "metal stud"@) && !has_text(n, "air"@) && !has_text(n, "hardwood"@) && !has_text(n, "shingle"@) && !has_text(n, "membrane"@) && !has_text(n, "cover board"@) && !has_text(n, "steel"@) && !has_text(n, "glulam"@) && (has_text(n, "concrete"@))
            ==> implied_material(n) == Some("Concrete"@) && implied_cut(n) == CutPattern::Concrete,
        !has_text(n, "rigid"@) && !has_text(n, "batt"@) && !has_text(n, "insulation"@) && !has_text(n, "cmu"@) && !has_text(n, "block"@) && !has_text(n, "brick"@) && !has_text(n, "masonry"@) && !has_text(n, "stone"@) && !has_text(n, "stucco"@) && !has_text(n, "plaster"@) && !has_text(n, "siding"@) && !has_text(n, "plywood"@) && !has_text(n, "osb"@) && !has_text(n, "sheathing"@) && !has_text(n, "subfloor"@) && !has_text(n, "gypsum"@) && !has_text(n, "drywall"@) && !has_text(n, "metal stud"@) && !has_text(n, "air"@) && !has_text(n, "hardwood"@) && !has_text(n, "shingle"@) && !has_text(n, "membrane"@) && !has_text(n, "cover board"@) && !has_text(n, "steel"@) && !has_text(n, "glulam"@) && !has_text(n, "concrete"@) && (has_text(n, "joist"@) || has_text(n, "stud"@) || has_text(n, "rafter"@) || has_text(n, "wood"@) || has_text(n, "lumber"@) || has_text(n, "post"@))
            ==> implied_material(n) == Some("Wood Framing"@) && implied_cut(n) == CutPattern::Wood,
        !has_text(n, "rigid"@) && !has_text(n, "batt"@) && !has_text(n, "insulation"@) && !has_text(n, "cmu"@) && !has_text(n, "block"@) && !has_text(n, "brick"@) && !has_text(n, "masonry"@) && !has_text(n, "stone"@) && !has_text(n, "stucco"@) && !has_text(n, "plaster"@) && !has_text(n, "siding"@) && !has_text(n, "plywood"@) && !has_text(n, "osb"@) && !has_text(n, "sheathing"@) && !has_text(n, "subfloor"@) && !has_text(n, "gypsum"@) && !has_text(n, "drywall"@) && !has_text(n, "metal stud"@) && !has_text(n, "air"@) && !has_text(n, "hardwood"@) && !has_text(n, "shingle"@) && !has_text(n, "membrane"@) && !has_text(n, "cover board"@) && !has_text(n, "steel"@) && !has_text(n, "glulam"@) && !has_text(n, "concrete"@) && !has_text(n, "joist"@) && !has_text(n, "stud"@) && !has_text(n, "rafter"@) && !has_text(n, "wood"@) && !has_text(n, "lumber"@) && !has_text(n, "post"@)
            ==> implied_material(n) is None && implied_cut(n) == CutPattern::Unhatched,
{
    lemma_built_in_names();
}

/// The hexadecimal digit (upper case) for `d`, below 16.
pub open spec fn hex_digit(d: int) -> char {
    if d < 10 {
        (48 + d) as char
    } else {
        (55 + d) as char
    }
}

/// A color as `#RRGGBB`, upper-case hexadecimal.
pub open spec fn hex_text(c: Seq<u8>) -> Seq<char> {
    seq!['#', hex_digit(c[0] as int / 16), hex_digit(c[0] as int % 16), hex_digit(c[1] as int / 16),
        hex_digit(c[1] as int % 16), hex_digit(c[2] as int / 16), hex_digit(c[2] as int % 16)]
}

fn hex_char(d: u8) -> (r: char)
    requires
        d < 16,
    ensures
        r == hex_digit(d as int),
{
    if d < 10 {
        (48 + d) as char
    } else {
        (55 + d) as char
    }
}

/// A color as `#RRGGBB`.
pub fn hex(c: [u8; 3]) -> (s: String)
    ensures
        s@ == hex_text(c@),
{
    let v: Vec<char> = vec!['#', hex_char(c[0] / 16), hex_char(c[0] % 16), hex_char(c[1] / 16),
        hex_char(c[1] % 16), hex_char(c[2] / 16), hex_char(c[2] % 16)];
    assert(v@ =~= hex_text(c@));
    string_of(&v)
}

} // verus!
