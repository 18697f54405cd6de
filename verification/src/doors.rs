//! Door families: the door types common in US construction, glass doors included, and the
//! options each takes. How each divides into frame, leaves, panels and lites is computed
//! in millimetres by the drawing code.

use vstd::prelude::*;

use crate::digits::{decimal, decimal_text, digit_char};
use crate::document::CoreError;
use crate::element::{DoorFamily, ElementId};
use crate::text::{append, extend, owned, same, string_of};

verus! {

/// What a door leaf looks like.
#[derive(Debug, Clone, Copy, PartialEq, Eq, Structural)]
pub enum LeafStyle {
    Flush,
    /// Colonial six-panel.
    SixPanel,
    /// One recessed panel in a square frame.
    Shaker,
    FivePanel,
    /// Three lites over two tall panels.
    Craftsman,
    FullLite,
    HalfLite,
    /// French door: 3 x 5 divided lites.
    FifteenLite,
    /// Commercial narrow vision lite.
    VisionLite,
    Louvered,
    /// Barn door with an X brace.
    BarnX,
}

impl LeafStyle {
    /// The label shown to users.
    pub open spec fn label_text(self) -> Seq<char> {
        match self {
            LeafStyle::Flush => "Flush"@,
            LeafStyle::SixPanel => "Six-Panel"@,
            LeafStyle::Shaker => "Shaker"@,
            LeafStyle::FivePanel => "Five-Panel Shaker"@,
            LeafStyle::Craftsman => "Craftsman"@,
            LeafStyle::FullLite => "Full Lite"@,
            LeafStyle::HalfLite => "Half Lite"@,
            LeafStyle::FifteenLite => "15-Lite French"@,
            LeafStyle::VisionLite => "Vision Lite"@,
            LeafStyle::Louvered => "Louvered"@,
            LeafStyle::BarnX => "X-Brace"@,
        }
    }

    /// Every variant, in the order offered to users.
    pub fn all() -> (v: Vec<LeafStyle>)
        ensures
            v@ == seq![LeafStyle::Flush, LeafStyle::SixPanel, LeafStyle::Shaker, LeafStyle::FivePanel, LeafStyle::Craftsman, LeafStyle::FullLite, LeafStyle::HalfLite, LeafStyle::FifteenLite, LeafStyle::VisionLite, LeafStyle::Louvered, LeafStyle::BarnX],
    {
        vec![LeafStyle::Flush, LeafStyle::SixPanel, LeafStyle::Shaker, LeafStyle::FivePanel, LeafStyle::Craftsman, LeafStyle::FullLite, LeafStyle::HalfLite, LeafStyle::FifteenLite, LeafStyle::VisionLite, LeafStyle::Louvered, LeafStyle::BarnX]
    }

    /// Whether the leaf has glass.
    pub open spec fn has_glass(self) -> bool {
        self is Craftsman || self is FullLite || self is HalfLite || self is FifteenLite || self is VisionLite
    }

    /// Whether the leaf has glass.
    pub fn glazed(self) -> (g: bool)
        ensures
            g == self.has_glass(),
    {
        match self {
            LeafStyle::Craftsman | LeafStyle::FullLite | LeafStyle::HalfLite | LeafStyle::FifteenLite
            | LeafStyle::VisionLite => true,
            _ => false,
        }
    }

    pub fn label(self) -> (s: &'static str)
        ensures
            s@ == self.label_text(),
    {
        match self {
            LeafStyle::Flush => "Flush",
            LeafStyle::SixPanel => "Six-Panel",
            LeafStyle::Shaker => "Shaker",
            LeafStyle::FivePanel => "Five-Panel Shaker",
            LeafStyle::Craftsman => "Craftsman",
            LeafStyle::FullLite => "Full Lite",
            LeafStyle::HalfLite => "Half Lite",
            LeafStyle::FifteenLite => "15-Lite French",
            LeafStyle::VisionLite => "Vision Lite",
            LeafStyle::Louvered => "Louvered",
            LeafStyle::BarnX => "X-Brace",
        }
    }
}

impl Default for LeafStyle {
    fn default() -> (d: LeafStyle)
        ensures
            d == LeafStyle::Flush,
    {
        LeafStyle::Flush
    }
}

/// Leaf and frame finish (its colour in 3D and renderings).
#[derive(Debug, Clone, Copy, PartialEq, Eq, Structural)]
pub enum DoorFinish {
    PaintedWhite,
    PaintedBlack,
    PaintedGray,
    StainedOak,
    Walnut,
    Aluminum,
    Bronze,
}

impl DoorFinish {
    /// The label shown to users.
    pub open spec fn label_text(self) -> Seq<char> {
        match self {
            DoorFinish::PaintedWhite => "Painted White"@,
            DoorFinish::PaintedBlack => "Painted Black"@,
            DoorFinish::PaintedGray => "Painted Gray"@,
            DoorFinish::StainedOak => "Stained Oak"@,
            DoorFinish::Walnut => "Walnut"@,
            DoorFinish::Aluminum => "Clear Aluminum"@,
            DoorFinish::Bronze => "Dark Bronze"@,
        }
    }

    /// The finish's colour (red, green, blue).
    pub open spec fn rgb(self) -> Seq<u8> {
        match self {
            DoorFinish::PaintedWhite => seq![238u8, 238u8, 234u8],
            DoorFinish::PaintedBlack => seq![36u8, 36u8, 38u8],
            DoorFinish::PaintedGray => seq![150u8, 154u8, 158u8],
            DoorFinish::StainedOak => seq![168u8, 118u8, 70u8],
            DoorFinish::Walnut => seq![104u8, 70u8, 46u8],
            DoorFinish::Aluminum => seq![190u8, 194u8, 198u8],
            DoorFinish::Bronze => seq![74u8, 60u8, 48u8],
        }
    }

    /// Every variant, in the order offered to users.
    pub fn all() -> (v: Vec<DoorFinish>)
        ensures
            v@ == seq![DoorFinish::PaintedWhite, DoorFinish::PaintedBlack, DoorFinish::PaintedGray, DoorFinish::StainedOak, DoorFinish::Walnut, DoorFinish::Aluminum, DoorFinish::Bronze],
    {
        vec![DoorFinish::PaintedWhite, DoorFinish::PaintedBlack, DoorFinish::PaintedGray, DoorFinish::StainedOak, DoorFinish::Walnut, DoorFinish::Aluminum, DoorFinish::Bronze]
    }

    pub fn label(self) -> (s: &'static str)
        ensures
            s@ == self.label_text(),
    {
        match self {
            DoorFinish::PaintedWhite => "Painted White",
            DoorFinish::PaintedBlack => "Painted Black",
            DoorFinish::PaintedGray => "Painted Gray",
            DoorFinish::StainedOak => "Stained Oak",
            DoorFinish::Walnut => "Walnut",
            DoorFinish::Aluminum => "Clear Aluminum",
            DoorFinish::Bronze => "Dark Bronze",
        }
    }

    /// The finish's colour (red, green, blue).
    pub fn color(self) -> (c: [u8; 3])
        ensures
            c@ == self.rgb(),
    {
        let c: [u8; 3] = match self {
            DoorFinish::PaintedWhite => [238, 238, 234],
            DoorFinish::PaintedBlack => [36, 36, 38],
            DoorFinish::PaintedGray => [150, 154, 158],
            DoorFinish::StainedOak => [168, 118, 70],
            DoorFinish::Walnut => [104, 70, 46],
            DoorFinish::Aluminum => [190, 194, 198],
            DoorFinish::Bronze => [74, 60, 48],
        };
        assert(c@ =~= self.rgb());
        c
    }
}

/// A family's name, what it's for and which options it takes.
#[derive(Debug)]
pub struct FamilyInfo {
    pub family: DoorFamily,
    pub label: &'static str,
    pub description: &'static str,
    /// Leaf styles it comes in (empty: all-glass or sectional, no choice).
    pub leaves: Vec<LeafStyle>,
    /// (min, max, default) panel count: leaves, sidelites or sections; None when fixed.
    pub panels: Option<(u32, u32, u32)>,
    pub default_finish: DoorFinish,
    /// The panel count's name in the UI.
    pub panels_label: &'static str,
}

/// The family's name.
pub open spec fn family_label(f: DoorFamily) -> Seq<char> {
    match f {
        DoorFamily::SingleFlush => "Single Swing"@,
        DoorFamily::DoubleFlush => "Double Swing (Pair)"@,
        DoorFamily::Sidelites => "Entry with Sidelites"@,
        DoorFamily::SlidingGlass => "Sliding Glass Patio"@,
        DoorFamily::Pocket => "Pocket"@,
        DoorFamily::Barn => "Barn (Surface Sliding)"@,
        DoorFamily::Bifold => "Bifold (Closet)"@,
        DoorFamily::FoldingWall => "Folding Glass Wall"@,
        DoorFamily::Storefront => "Storefront (Aluminum)"@,
        DoorFamily::Garage => "Garage (Sectional Overhead)"@,
    }
}

/// What the family is for.
pub open spec fn family_description(f: DoorFamily) -> Seq<char> {
    match f {
        DoorFamily::SingleFlush => "One hinged leaf: interior passage doors, entries, and commercial hollow-metal doors."@,
        DoorFamily::DoubleFlush => "A pair of hinged leaves: French doors to patios, double entries, and wide corridors."@,
        DoorFamily::Sidelites => "A front door flanked by glass sidelites, the classic American entry."@,
        DoorFamily::SlidingGlass => "Glass panels that slide past each other (OX, OXO, OXXO) to decks and patios."@,
        DoorFamily::Pocket => "A leaf that slides into the wall: baths, pantries and tight halls."@,
        DoorFamily::Barn => "A leaf hung from an exposed track on the wall face: farmhouse and loft interiors."@,
        DoorFamily::Bifold => "Hinged panels that fold back on a track: closets and laundry alcoves."@,
        DoorFamily::FoldingWall => "Glass panels that fold and stack to open a whole wall to the outside."@,
        DoorFamily::Storefront => "Narrow-stile aluminum and glass doors: lobbies, retail and amenity entries."@,
        DoorFamily::Garage => "A raised-panel sectional door that rolls up overhead."@,
    }
}

/// The leaf styles the family comes in.
pub open spec fn family_leaves(f: DoorFamily) -> Seq<LeafStyle> {
    match f {
        DoorFamily::SingleFlush => seq![LeafStyle::Flush, LeafStyle::SixPanel, LeafStyle::Shaker, LeafStyle::FivePanel, LeafStyle::Craftsman, LeafStyle::FullLite, LeafStyle::HalfLite, LeafStyle::FifteenLite, LeafStyle::VisionLite, LeafStyle::Louvered],
        DoorFamily::DoubleFlush => seq![LeafStyle::Flush, LeafStyle::SixPanel, LeafStyle::Shaker, LeafStyle::FivePanel, LeafStyle::Craftsman, LeafStyle::FullLite, LeafStyle::HalfLite, LeafStyle::FifteenLite, LeafStyle::VisionLite, LeafStyle::Louvered],
        DoorFamily::Sidelites => seq![LeafStyle::SixPanel, LeafStyle::Craftsman, LeafStyle::Shaker, LeafStyle::FullLite, LeafStyle::HalfLite, LeafStyle::Flush],
        DoorFamily::SlidingGlass => seq![],
        DoorFamily::Pocket => seq![LeafStyle::Flush, LeafStyle::Shaker, LeafStyle::SixPanel, LeafStyle::FivePanel, LeafStyle::FullLite, LeafStyle::FifteenLite],
        DoorFamily::Barn => seq![LeafStyle::BarnX, LeafStyle::Shaker, LeafStyle::FivePanel, LeafStyle::Flush, LeafStyle::FullLite],
        DoorFamily::Bifold => seq![LeafStyle::Flush, LeafStyle::Louvered, LeafStyle::Shaker, LeafStyle::SixPanel, LeafStyle::FullLite],
        DoorFamily::FoldingWall => seq![],
        DoorFamily::Storefront => seq![],
        DoorFamily::Garage => seq![],
    }
}

/// The family's (min, max, default) panel count, if it takes one.
pub open spec fn family_panels(f: DoorFamily) -> Option<(u32, u32, u32)> {
    match f {
        DoorFamily::SingleFlush => None,
        DoorFamily::DoubleFlush => None,
        DoorFamily::Sidelites => Some((1, 2, 2)),
        DoorFamily::SlidingGlass => Some((2, 4, 2)),
        DoorFamily::Pocket => Some((1, 2, 1)),
        DoorFamily::Barn => Some((1, 2, 1)),
        DoorFamily::Bifold => Some((2, 4, 2)),
        DoorFamily::FoldingWall => Some((3, 8, 4)),
        DoorFamily::Storefront => Some((1, 2, 1)),
        DoorFamily::Garage => None,
    }
}

/// The family's default finish.
pub open spec fn family_finish(f: DoorFamily) -> DoorFinish {
    match f {
        DoorFamily::SingleFlush => DoorFinish::PaintedWhite,
        DoorFamily::DoubleFlush => DoorFinish::PaintedWhite,
        DoorFamily::Sidelites => DoorFinish::PaintedWhite,
        DoorFamily::SlidingGlass => DoorFinish::PaintedWhite,
        DoorFamily::Pocket => DoorFinish::PaintedWhite,
        DoorFamily::Barn => DoorFinish::StainedOak,
        DoorFamily::Bifold => DoorFinish::PaintedWhite,
        DoorFamily::FoldingWall => DoorFinish::PaintedBlack,
        DoorFamily::Storefront => DoorFinish::Aluminum,
        DoorFamily::Garage => DoorFinish::PaintedWhite,
    }
}

/// The name of the family's panel count.
pub open spec fn family_panels_label(f: DoorFamily) -> Seq<char> {
    match f {
        DoorFamily::SingleFlush => ""@,
        DoorFamily::DoubleFlush => ""@,
        DoorFamily::Sidelites => "Sidelites"@,
        DoorFamily::SlidingGlass => "Panels"@,
        DoorFamily::Pocket => "Leaves"@,
        DoorFamily::Barn => "Leaves"@,
        DoorFamily::Bifold => "Panels"@,
        DoorFamily::FoldingWall => "Panels"@,
        DoorFamily::Storefront => "Leaves"@,
        DoorFamily::Garage => ""@,
    }
}

/// What a family's description says of it.
pub open spec fn describes(i: FamilyInfo, f: DoorFamily) -> bool {
    &&& i.family == f
    &&& i.label@ == family_label(f)
    &&& i.description@ == family_description(f)
    &&& i.leaves@ == family_leaves(f)
    &&& i.panels == family_panels(f)
    &&& i.default_finish == family_finish(f)
    &&& i.panels_label@ == family_panels_label(f)
}

/// The description of a door family.
pub fn info(family: DoorFamily) -> (i: FamilyInfo)
    ensures
        describes(i, family),
{
    let i = match family {
        DoorFamily::SingleFlush => FamilyInfo {
            family,
            label: "Single Swing",
            description: "One hinged leaf: interior passage doors, entries, and commercial hollow-metal doors.",
            leaves: vec![LeafStyle::Flush, LeafStyle::SixPanel, LeafStyle::Shaker, LeafStyle::FivePanel, LeafStyle::Craftsman, LeafStyle::FullLite, LeafStyle::HalfLite, LeafStyle::FifteenLite, LeafStyle::VisionLite, LeafStyle::Louvered],
            panels: None,
            default_finish: DoorFinish::PaintedWhite,
            panels_label: "",
        },
        DoorFamily::DoubleFlush => FamilyInfo {
            family,
            label: "Double Swing (Pair)",
            description: "A pair of hinged leaves: French doors to patios, double entries, and wide corridors.",
            leaves: vec![LeafStyle::Flush, LeafStyle::SixPanel, LeafStyle::Shaker, LeafStyle::FivePanel, LeafStyle::Craftsman, LeafStyle::FullLite, LeafStyle::HalfLite, LeafStyle::FifteenLite, LeafStyle::VisionLite, LeafStyle::Louvered],
            panels: None,
            default_finish: DoorFinish::PaintedWhite,
            panels_label: "",
        },
        DoorFamily::Sidelites => FamilyInfo {
            family,
            label: "Entry with Sidelites",
            description: "A front door flanked by glass sidelites, the classic American entry.",
            leaves: vec![LeafStyle::SixPanel, LeafStyle::Craftsman, LeafStyle::Shaker, LeafStyle::FullLite, LeafStyle::HalfLite, LeafStyle::Flush],
            panels: Some((1, 2, 2)),
            default_finish: DoorFinish::PaintedWhite,
            panels_label: "Sidelites",
        },
        DoorFamily::SlidingGlass => FamilyInfo {
            family,
            label: "Sliding Glass Patio",
            description: "Glass panels that slide past each other (OX, OXO, OXXO) to decks and patios.",
            leaves: vec![],
            panels: Some((2, 4, 2)),
            default_finish: DoorFinish::PaintedWhite,
            panels_label: "Panels",
        },
        DoorFamily::Pocket => FamilyInfo {
            family,
            label: "Pocket",
            description: "A leaf that slides into the wall: baths, pantries and tight halls.",
            leaves: vec![LeafStyle::Flush, LeafStyle::Shaker, LeafStyle::SixPanel, LeafStyle::FivePanel, LeafStyle::FullLite, LeafStyle::FifteenLite],
            panels: Some((1, 2, 1)),
            default_finish: DoorFinish::PaintedWhite,
            panels_label: "Leaves",
        },
        DoorFamily::Barn => FamilyInfo {
            family,
            label: "Barn (Surface Sliding)",
            description: "A leaf hung from an exposed track on the wall face: farmhouse and loft interiors.",
            leaves: vec![LeafStyle::BarnX, LeafStyle::Shaker, LeafStyle::FivePanel, LeafStyle::Flush, LeafStyle::FullLite],
            panels: Some((1, 2, 1)),
            default_finish: DoorFinish::StainedOak,
            panels_label: "Leaves",
        },
        DoorFamily::Bifold => FamilyInfo {
            family,
            label: "Bifold (Closet)",
            description: "Hinged panels that fold back on a track: closets and laundry alcoves.",
            leaves: vec![LeafStyle::Flush, LeafStyle::Louvered, LeafStyle::Shaker, LeafStyle::SixPanel, LeafStyle::FullLite],
            panels: Some((2, 4, 2)),
            default_finish: DoorFinish::PaintedWhite,
            panels_label: "Panels",
        },
        DoorFamily::FoldingWall => FamilyInfo {
            family,
            label: "Folding Glass Wall",
            description: "Glass panels that fold and stack to open a whole wall to the outside.",
            leaves: vec![],
            panels: Some((3, 8, 4)),
            default_finish: DoorFinish::PaintedBlack,
            panels_label: "Panels",
        },
        DoorFamily::Storefront => FamilyInfo {
            family,
            label: "Storefront (Aluminum)",
            description: "Narrow-stile aluminum and glass doors: lobbies, retail and amenity entries.",
            leaves: vec![],
            panels: Some((1, 2, 1)),
            default_finish: DoorFinish::Aluminum,
            panels_label: "Leaves",
        },
        DoorFamily::Garage => FamilyInfo {
            family,
            label: "Garage (Sectional Overhead)",
            description: "A raised-panel sectional door that rolls up overhead.",
            leaves: vec![],
            panels: None,
            default_finish: DoorFinish::PaintedWhite,
            panels_label: "",
        },
    };
    assert(i.leaves@ =~= family_leaves(family));
    i
}

/// The door families, in the order offered to users.
pub open spec fn family_order() -> Seq<DoorFamily> {
    seq![DoorFamily::SingleFlush, DoorFamily::DoubleFlush, DoorFamily::Sidelites, DoorFamily::SlidingGlass, DoorFamily::Pocket, DoorFamily::Barn, DoorFamily::Bifold, DoorFamily::FoldingWall, DoorFamily::Storefront, DoorFamily::Garage]
}

/// The descriptions of all door families, in the order offered to users.
pub fn families() -> (v: Vec<FamilyInfo>)
    ensures
        v@.len() == family_order().len(),
        forall|i: int| 0 <= i < v@.len() ==> describes(#[trigger] v@[i], family_order()[i]),
{
    let order: Vec<DoorFamily> = vec![DoorFamily::SingleFlush, DoorFamily::DoubleFlush, DoorFamily::Sidelites, DoorFamily::SlidingGlass, DoorFamily::Pocket, DoorFamily::Barn, DoorFamily::Bifold, DoorFamily::FoldingWall, DoorFamily::Storefront, DoorFamily::Garage];
    assert(order@ =~= family_order());
    let mut v: Vec<FamilyInfo> = Vec::new();
    let mut i: usize = 0;
    while i < order.len()
        invariant
            i <= order.len(),
            order@ == family_order(),
            v@.len() == i,
            forall|j: int| 0 <= j < i ==> describes(#[trigger] v@[j], family_order()[j]),
        decreases order.len() - i,
    {
        v.push(info(order[i]));
        i += 1;
    }
    v
}

/// Everything about a door type that shapes its drawing, apart from its size.
#[derive(Debug, Clone, Copy, PartialEq, Eq, Structural)]
pub struct DoorStyle {
    pub family: DoorFamily,
    pub leaf: LeafStyle,
    /// Leaves, panels or sidelites, resolved to the family's range.
    pub panels: u32,
    pub finish: DoorFinish,
}

/// The leaf style a family takes for the requested one: the requested style when the
/// family comes in it, else the family's first style; full glass when it has no choice.
pub open spec fn resolved_leaf(f: DoorFamily, leaf: LeafStyle) -> LeafStyle {
    let ls = family_leaves(f);
    if ls.len() == 0 {
        LeafStyle::FullLite
    } else if ls.contains(leaf) {
        leaf
    } else {
        ls[0]
    }
}

/// The panel count a family takes for the requested one: its default for 0, else the
/// request kept within the family's range; 1 for families without a choice.
pub open spec fn resolved_panels(f: DoorFamily, panels: u32) -> u32 {
    match family_panels(f) {
        Some((lo, hi, d)) => if panels == 0 {
            d
        } else if panels < lo {
            lo
        } else if panels > hi {
            hi
        } else {
            panels
        },
        None => 1,
    }
}

/// A style with the family's defaults filled in and options kept to what it takes.
pub open spec fn resolved(f: DoorFamily, leaf: LeafStyle, panels: u32, finish: Option<DoorFinish>) -> DoorStyle {
    DoorStyle {
        family: f,
        leaf: resolved_leaf(f, leaf),
        panels: resolved_panels(f, panels),
        finish: match finish {
            Some(x) => x,
            None => family_finish(f),
        },
    }
}

impl DoorStyle {
    /// The family's default style.
    pub fn new(family: DoorFamily) -> (s: DoorStyle)
        ensures
            s == resolved(family, LeafStyle::Flush, 0, None),
    {
        DoorStyle::resolve(family, LeafStyle::Flush, 0, None)
    }

    /// A style with the family's defaults filled in and options clamped to what it takes.
    pub fn resolve(family: DoorFamily, leaf: LeafStyle, panels: u32, finish: Option<DoorFinish>) -> (s: DoorStyle)
        ensures
            s == resolved(family, leaf, panels, finish),
    {
        let f = info(family);
        let leaf = if f.leaves.len() == 0 {
            LeafStyle::FullLite
        } else {
            let mut found = false;
            let mut i: usize = 0;
            while i < f.leaves.len()
                invariant
                    i <= f.leaves.len(),
                    found == (exists|j: int| 0 <= j < i && f.leaves@[j] == leaf),
                decreases f.leaves.len() - i,
            {
                if f.leaves[i] == leaf {
                    found = true;
                }
                i += 1;
            }
            if found {
                leaf
            } else {
                f.leaves[0]
            }
        };
        let panels = match f.panels {
            Some((lo, hi, d)) => if panels == 0 {
                d
            } else if panels < lo {
                lo
            } else if panels > hi {
                hi
            } else {
                panels
            },
            None => 1,
        };
        let finish = match finish {
            Some(x) => x,
            None => f.default_finish,
        };
        DoorStyle { family, leaf, panels, finish }
    }
}

/// Resolving a resolved style changes nothing: a resolved style takes only options its
/// family offers.
pub proof fn lemma_resolve_stable(f: DoorFamily, leaf: LeafStyle, panels: u32, finish: Option<DoorFinish>)
    ensures
        ({
            let s = resolved(f, leaf, panels, finish);
            resolved(s.family, s.leaf, s.panels, Some(s.finish)) == s
        }),
{
    let s = resolved(f, leaf, panels, finish);
    let ls = family_leaves(f);
    if ls.len() > 0 && !ls.contains(leaf) {
        assert(ls.contains(ls[0]));
    }
    match f {
        DoorFamily::SingleFlush => {},
        DoorFamily::DoubleFlush => {},
        DoorFamily::Sidelites => {},
        DoorFamily::SlidingGlass => {},
        DoorFamily::Pocket => {},
        DoorFamily::Barn => {},
        DoorFamily::Bifold => {},
        DoorFamily::FoldingWall => {},
        DoorFamily::Storefront => {},
        DoorFamily::Garage => {},
    }
}

/// The name of a door type's style, before its size: family, leaf style and panels.
pub open spec fn base_name(s: DoorStyle) -> Seq<char> {
    let leaf = s.leaf.label_text();
    let p = decimal(s.panels as nat);
    match s.family {
        DoorFamily::SingleFlush => "Single "@ + leaf,
        DoorFamily::DoubleFlush => "Double "@ + leaf,
        DoorFamily::Sidelites => "Entry "@ + leaf + " w/ "@ + p + " Sidelite"@ + if s.panels == 1 {
            Seq::empty()
        } else {
            "s"@
        },
        DoorFamily::SlidingGlass => if s.panels == 2 {
            "Sliding Glass"@
        } else {
            "Sliding Glass "@ + p + "-Panel"@
        },
        DoorFamily::Pocket => if s.panels == 2 {
            "Double Pocket "@ + leaf
        } else {
            "Pocket "@ + leaf
        },
        DoorFamily::Barn => if s.panels == 2 {
            "Double Barn "@ + leaf
        } else {
            "Barn "@ + leaf
        },
        DoorFamily::Bifold => "Bifold "@ + p + "-Panel "@ + leaf,
        DoorFamily::FoldingWall => "Folding Glass Wall "@ + p + "-Panel"@,
        DoorFamily::Storefront => if s.panels == 2 {
            "Storefront Pair"@
        } else {
            "Storefront Single"@
        },
        DoorFamily::Garage => "Garage Sectional"@,
    }
}

/// A door type's name: its style, its size as written by the caller (inches, or
/// feet-inches for garage doors), and its finish when that is not the family's default.
pub open spec fn door_type_name(s: DoorStyle, size: Seq<char>) -> Seq<char> {
    base_name(s) + " "@ + size + if s.finish != family_finish(s.family) {
        " - "@ + s.finish.label_text()
    } else {
        Seq::empty()
    }
}

/// Two texts that differ stay different when the same text follows both.
proof fn lemma_differ_before(a: Seq<char>, b: Seq<char>, rest: Seq<char>)
    requires
        a != b,
    ensures
        a + rest != b + rest,
{
    if a + rest == b + rest {
        assert((a + rest).len() == a.len() + rest.len());
        assert((b + rest).len() == b.len() + rest.len());
        assert(a.len() == b.len());
        assert forall|i: int| 0 <= i < a.len() implies a[i] == b[i] by {
            assert((a + rest)[i] == a[i]);
            assert((b + rest)[i] == b[i]);
        }
        assert(a =~= b);
    }
}

/// Door types of one family, leaf style and finish that differ in their number of leaves,
/// panels or sidelites have different names, whatever the size: each resolved count is
/// named. (A pocket door of two leaves is a "Double Pocket", of one a "Pocket".)
pub proof fn lemma_counts_named_apart(s1: DoorStyle, s2: DoorStyle, size: Seq<char>)
    requires
        s1.family == s2.family,
        s1.leaf == s2.leaf,
        s1.finish == s2.finish,
        s1.panels != s2.panels,
        resolved_panels(s1.family, s1.panels) == s1.panels,
        resolved_panels(s2.family, s2.panels) == s2.panels,
    ensures
        door_type_name(s1, size) != door_type_name(s2, size),
{
    let b1 = base_name(s1);
    let b2 = base_name(s2);
    let leaf = s1.leaf.label_text();
    let d1 = decimal(s1.panels as nat);
    let d2 = decimal(s2.panels as nat);
    reveal_strlit("Double Pocket ");
    reveal_strlit("Pocket ");
    reveal_strlit("Double Barn ");
    reveal_strlit("Barn ");
    reveal_strlit("Storefront Pair");
    reveal_strlit("Storefront Single");
    reveal_strlit("Sliding Glass");
    reveal_strlit("Sliding Glass ");
    reveal_strlit("-Panel");
    reveal_strlit("Entry ");
    reveal_strlit(" w/ ");
    reveal_strlit(" Sidelite");
    reveal_strlit("s");
    reveal_strlit("Bifold ");
    reveal_strlit("-Panel ");
    reveal_strlit("Folding Glass Wall ");
    if s1.panels < 10 {
        assert(d1 == seq![digit_char(s1.panels as nat)]);
    }
    if s2.panels < 10 {
        assert(d2 == seq![digit_char(s2.panels as nat)]);
    }
    match s1.family {
        DoorFamily::Pocket => {
            assert(b1[0] != b2[0]);
        },
        DoorFamily::Barn => {
            assert(b1[0] != b2[0]);
        },
        DoorFamily::Storefront => {
            assert(b1.len() != b2.len());
        },
        DoorFamily::Sidelites => {
            assert(b1.len() != b2.len());
        },
        DoorFamily::SlidingGlass => {
            if s1.panels == 2 || s2.panels == 2 {
                assert(b1.len() != b2.len());
            } else {
                assert(b1[14] == d1[0] && b2[14] == d2[0]);
                assert(b1[14] != b2[14]);
            }
        },
        DoorFamily::Bifold => {
            assert(b1[7] == d1[0] && b2[7] == d2[0]);
            assert(b1[7] != b2[7]);
        },
        DoorFamily::FoldingWall => {
            assert(b1[19] == d1[0] && b2[19] == d2[0]);
            assert(b1[19] != b2[19]);
        },
        _ => {},
    }
    let suffix = if s1.finish != family_finish(s1.family) {
        " - "@ + s1.finish.label_text()
    } else {
        Seq::empty()
    };
    lemma_differ_before(b1, b2, " "@ + size + suffix);
    assert(door_type_name(s1, size) =~= b1 + (" "@ + size + suffix));
    assert(door_type_name(s2, size) =~= b2 + (" "@ + size + suffix));
}

/// A two-leaf pocket or barn door is named "Double Pocket " or "Double Barn " and then its
/// leaf style; a one-leaf one "Pocket " or "Barn " and its leaf style.
pub proof fn lemma_pocket_and_barn_names(s: DoorStyle, size: Seq<char>)
    ensures
        s.family == DoorFamily::Pocket && s.panels == 2
            ==> door_type_name(s, size).take(14 + s.leaf.label_text().len() as int) == "Double Pocket "@ + s.leaf.label_text(),
        s.family == DoorFamily::Pocket && s.panels != 2
            ==> door_type_name(s, size).take(7 + s.leaf.label_text().len() as int) == "Pocket "@ + s.leaf.label_text(),
        s.family == DoorFamily::Barn && s.panels == 2
            ==> door_type_name(s, size).take(12 + s.leaf.label_text().len() as int) == "Double Barn "@ + s.leaf.label_text(),
        s.family == DoorFamily::Barn && s.panels != 2
            ==> door_type_name(s, size).take(5 + s.leaf.label_text().len() as int) == "Barn "@ + s.leaf.label_text(),
{
    reveal_strlit("Double Pocket ");
    reveal_strlit("Pocket ");
    reveal_strlit("Double Barn ");
    reveal_strlit("Barn ");
    let b = base_name(s);
    let n = door_type_name(s, size);
    assert(n.take(b.len() as int) =~= b);
}

/// A door type's name opens with its family's word ("Single", "Double", "Entry",
/// "Sliding Glass", "Pocket" or "Double Pocket", "Barn" or "Double Barn", "Bifold",
/// "Folding Glass Wall", "Storefront", "Garage Sectional"), and closes with a space and its
/// size, then " - " and the finish when the finish is not the family's own.
pub proof fn lemma_name_parts(s: DoorStyle, size: Seq<char>)
    ensures
        s.family == DoorFamily::SingleFlush ==> door_type_name(s, size).take(7) == "Single "@,
        s.family == DoorFamily::DoubleFlush ==> door_type_name(s, size).take(7) == "Double "@,
        s.family == DoorFamily::Sidelites ==> door_type_name(s, size).take(6) == "Entry "@,
        s.family == DoorFamily::SlidingGlass ==> door_type_name(s, size).take(13) == "Sliding Glass"@,
        s.family == DoorFamily::Pocket ==> door_type_name(s, size).take(7) == "Pocket "@
            || door_type_name(s, size).take(14) == "Double Pocket "@,
        s.family == DoorFamily::Barn ==> door_type_name(s, size).take(5) == "Barn "@
            || door_type_name(s, size).take(12) == "Double Barn "@,
        s.family == DoorFamily::Bifold ==> door_type_name(s, size).take(7) == "Bifold "@,
        s.family == DoorFamily::FoldingWall ==> door_type_name(s, size).take(19) == "Folding Glass Wall "@,
        s.family == DoorFamily::Storefront ==> door_type_name(s, size).take(11) == "Storefront "@,
        s.family == DoorFamily::Garage ==> door_type_name(s, size).take(16) == "Garage Sectional"@,
        s.finish == family_finish(s.family) ==> door_type_name(s, size).skip(
            door_type_name(s, size).len() - size.len() - 1,
        ) == " "@ + size,
        s.finish != family_finish(s.family) ==> door_type_name(s, size).skip(
            door_type_name(s, size).len() - size.len() - 4 - s.finish.label_text().len(),
        ) == " "@ + size + " - "@ + s.finish.label_text(),
{
    reveal_strlit("Single ");
    reveal_strlit("Double ");
    reveal_strlit("Entry ");
    reveal_strlit("Sliding Glass");
    reveal_strlit("Pocket ");
    reveal_strlit("Barn ");
    reveal_strlit("Bifold ");
    reveal_strlit("Folding Glass Wall ");
    reveal_strlit("Storefront ");
    reveal_strlit("Garage Sectional");
    reveal_strlit("Double Pocket ");
    reveal_strlit("Double Barn ");
    reveal_strlit(" ");
    reveal_strlit(" - ");
    let b = base_name(s);
    let n = door_type_name(s, size);
    assert(n.take(b.len() as int) =~= b);
    let rest = if s.finish != family_finish(s.family) {
        " "@ + size + " - "@ + s.finish.label_text()
    } else {
        " "@ + size
    };
    assert(n =~= b + rest);
    assert forall|k: int| 0 <= k <= b.len() implies #[trigger] n.take(k) =~= b.take(k) by {
        assert forall|j: int| 0 <= j < k implies n.take(k)[j] == b.take(k)[j] by {
            assert((b + rest)[j] == b[j]);
        }
    }
    reveal_strlit("Sliding Glass ");
    reveal_strlit("-Panel");
    reveal_strlit("Storefront Pair");
    reveal_strlit("Storefront Single");
    reveal_strlit("Garage Sectional");
    reveal_strlit("Folding Glass Wall ");
    reveal_strlit("Bifold ");
    reveal_strlit("Entry ");
    match s.family {
        DoorFamily::SlidingGlass => {
            assert(b.take(13) =~= "Sliding Glass"@);
            assert(n.take(13) =~= b.take(13));
        },
        DoorFamily::Storefront => {
            assert(b.take(11) =~= "Storefront "@);
            assert(n.take(11) =~= b.take(11));
        },
        DoorFamily::Garage => {
            assert(b.take(16) =~= "Garage Sectional"@);
            assert(n.take(16) =~= b.take(16));
        },
        DoorFamily::FoldingWall => {
            assert(b.take(19) =~= "Folding Glass Wall "@);
            assert(n.take(19) =~= b.take(19));
        },
        DoorFamily::Bifold => {
            assert(b.take(7) =~= "Bifold "@);
            assert(n.take(7) =~= b.take(7));
        },
        DoorFamily::Sidelites => {
            assert(b.take(6) =~= "Entry "@);
            assert(n.take(6) =~= b.take(6));
        },
        DoorFamily::SingleFlush => {
            assert(b.take(7) =~= "Single "@);
            assert(n.take(7) =~= b.take(7));
        },
        DoorFamily::DoubleFlush => {
            assert(b.take(7) =~= "Double "@);
            assert(n.take(7) =~= b.take(7));
        },
        DoorFamily::Pocket => {
            if s.panels == 2 {
                assert(b.take(14) =~= "Double Pocket "@);
                assert(n.take(14) =~= b.take(14));
            } else {
                assert(b.take(7) =~= "Pocket "@);
                assert(n.take(7) =~= b.take(7));
            }
        },
        DoorFamily::Barn => {
            if s.panels == 2 {
                assert(b.take(12) =~= "Double Barn "@);
                assert(n.take(12) =~= b.take(12));
            } else {
                assert(b.take(5) =~= "Barn "@);
                assert(n.take(5) =~= b.take(5));
            }
        },
    }
    if s.finish == family_finish(s.family) {
        assert(n =~= b + (" "@ + size));
        assert(n.skip(n.len() - size.len() - 1) =~= " "@ + size);
    } else {
        assert(n =~= b + (" "@ + size + " - "@ + s.finish.label_text()));
        assert(n.skip(n.len() - size.len() - 4 - s.finish.label_text().len()) =~= " "@ + size + " - "@ + s.finish.label_text());
    }
}

/// A door type's name from its style and its size text, e.g. `Single Six-Panel 32" x 80"`.
pub fn type_name_of(s: DoorStyle, size: &str) -> (r: String)
    ensures
        r@ == door_type_name(s, size@),
{
    let mut v: Vec<char> = Vec::new();
    let leaf = s.leaf.label();
    let p = decimal_text(s.panels as u64);
    match s.family {
        DoorFamily::SingleFlush => {
            append(&mut v, "Single ");
            append(&mut v, leaf);
        },
        DoorFamily::DoubleFlush => {
            append(&mut v, "Double ");
            append(&mut v, leaf);
        },
        DoorFamily::Sidelites => {
            append(&mut v, "Entry ");
            append(&mut v, leaf);
            append(&mut v, " w/ ");
            extend(&mut v, &p);
            append(&mut v, " Sidelite");
            if s.panels != 1 {
                append(&mut v, "s");
            }
        },
        DoorFamily::SlidingGlass => {
            if s.panels == 2 {
                append(&mut v, "Sliding Glass");
            } else {
                append(&mut v, "Sliding Glass ");
                extend(&mut v, &p);
                append(&mut v, "-Panel");
            }
        },
        DoorFamily::Pocket => {
            if s.panels == 2 {
                append(&mut v, "Double Pocket ");
            } else {
                append(&mut v, "Pocket ");
            }
            append(&mut v, leaf);
        },
        DoorFamily::Barn => {
            if s.panels == 2 {
                append(&mut v, "Double Barn ");
            } else {
                append(&mut v, "Barn ");
            }
            append(&mut v, leaf);
        },
        DoorFamily::Bifold => {
            append(&mut v, "Bifold ");
            extend(&mut v, &p);
            append(&mut v, "-Panel ");
            append(&mut v, leaf);
        },
        DoorFamily::FoldingWall => {
            append(&mut v, "Folding Glass Wall ");
            extend(&mut v, &p);
            append(&mut v, "-Panel");
        },
        DoorFamily::Storefront => {
            if s.panels == 2 {
                append(&mut v, "Storefront Pair");
            } else {
                append(&mut v, "Storefront Single");
            }
        },
        DoorFamily::Garage => {
            append(&mut v, "Garage Sectional");
        },
    }
    assert(v@ =~= base_name(s));
    append(&mut v, " ");
    append(&mut v, size);
    let f = info(s.family);
    if s.finish != f.default_finish {
        append(&mut v, " - ");
        append(&mut v, s.finish.label());
    }
    assert(v@ =~= door_type_name(s, size@));
    string_of(&v)
}

/// How a leaf moves.
#[derive(Debug, Clone, Copy, PartialEq, Eq, Structural)]
pub enum DoorOp {
    /// Hinged at its u0 edge (`hinge_left`) or u1 edge.
    Swing { hinge_left: bool },
    /// Slides past another panel.
    Slide { to_right: bool },
    Fixed,
    /// Slides into the wall on its u0 side (`into_left`) or u1 side.
    Pocket { into_left: bool },
    /// Hangs on the wall face and slides along it.
    Barn { to_right: bool },
    /// Folds; `hinge_left` is the jamb its pair hinges from.
    Fold { hinge_left: bool },
    Overhead,
}

// ---------------------------------------------------------------------------------------
// Loading door types
// ---------------------------------------------------------------------------------------

/// The name of the undo step that loads door types with these names.
pub open spec fn load_label_text(names: Seq<Seq<char>>) -> Seq<char> {
    if names.len() == 1 {
        "Load "@ + names[0]
    } else {
        "Load "@ + decimal(names.len()) + " door types"@
    }
}

/// The name of the undo step that loads door types named `names`: `Load` and the one
/// name, or `Load` and how many. Refused when there is nothing to load.
pub fn load_label(names: &Vec<String>) -> (r: Result<String, CoreError>)
    ensures
        names.len() == 0 ==> (r matches Err(CoreError::Invalid(m)) && m@ == "choose a door size to load"@),
        names.len() > 0 ==> (r matches Ok(l) && l@ == load_label_text(names@.map_values(|n: String| n@))),
{
    if names.len() == 0 {
        return Err(CoreError::Invalid(owned("choose a door size to load")));
    }
    let ghost ns = names@.map_values(|n: String| n@);
    let mut v: Vec<char> = Vec::new();
    append(&mut v, "Load ");
    if names.len() == 1 {
        append(&mut v, names[0].as_str());
        assert(ns[0] == names@[0]@);
    } else {
        let d = decimal_text(names.len() as u64);
        extend(&mut v, &d);
        append(&mut v, " door types");
    }
    Ok(string_of(&v))
}

/// What loading does for one door type asked for.
#[derive(Debug, Clone, Copy, PartialEq, Eq, Structural)]
pub enum LoadPick {
    /// A door type of that name is already in the project: it is used.
    Reuse(ElementId),
    /// A new door type is inserted.
    Insert,
    /// An earlier entry (at this index) asked for the same name: the type inserted for it
    /// is used.
    SameAs(usize),
}

/// `pick` is what loading does for the entry at `i` of `names`, given the project's door
/// types `existing` (id and name, in id order): the first existing type of that name, else
/// the type inserted for the first earlier entry of that name, else a new type.
pub open spec fn picks_right(
    pick: LoadPick,
    existing: Seq<(ElementId, Seq<char>)>,
    names: Seq<Seq<char>>,
    i: int,
) -> bool {
    match pick {
        LoadPick::Reuse(id) => exists|k: int|
            0 <= k < existing.len() && existing[k].0 == id && existing[k].1 == names[i]
                && forall|k2: int| 0 <= k2 < k ==> (#[trigger] existing[k2]).1 != names[i],
        LoadPick::Insert => (forall|k: int| 0 <= k < existing.len() ==> (#[trigger] existing[k]).1 != names[i])
            && forall|j: int| 0 <= j < i ==> #[trigger] names[j] != names[i],
        LoadPick::SameAs(j) => j < i && names[j as int] == names[i]
            && (forall|k: int| 0 <= k < existing.len() ==> (#[trigger] existing[k]).1 != names[i])
            && forall|j2: int| 0 <= j2 < j ==> #[trigger] names[j2] != names[i],
    }
}

/// The first position in `existing` whose name is `name`.
fn find_named(existing: &Vec<(ElementId, String)>, name: &str) -> (r: Option<usize>)
    ensures
        r matches Some(k) ==> k < existing.len() && existing@[k as int].1@ == name@
            && forall|k2: int| 0 <= k2 < k ==> (#[trigger] existing@[k2]).1@ != name@,
        r is None ==> forall|k: int| 0 <= k < existing.len() ==> (#[trigger] existing@[k]).1@ != name@,
{
    let mut k: usize = 0;
    while k < existing.len()
        invariant
            k <= existing.len(),
            forall|k2: int| 0 <= k2 < k ==> (#[trigger] existing@[k2]).1@ != name@,
        decreases existing.len() - k,
    {
        if same(existing[k].1.as_str(), name) {
            return Some(k);
        }
        k += 1;
    }
    None
}

/// The first position before `i` in `names` holding `names[i]`.
fn find_earlier(names: &Vec<String>, i: usize) -> (r: Option<usize>)
    requires
        i < names.len(),
    ensures
        r matches Some(j) ==> j < i && names@[j as int]@ == names@[i as int]@
            && forall|j2: int| 0 <= j2 < j ==> (#[trigger] names@[j2])@ != names@[i as int]@,
        r is None ==> forall|j: int| 0 <= j < i ==> (#[trigger] names@[j])@ != names@[i as int]@,
{
    let mut j: usize = 0;
    while j < i
        invariant
            j <= i < names.len(),
            forall|j2: int| 0 <= j2 < j ==> (#[trigger] names@[j2])@ != names@[i as int]@,
        decreases i - j,
    {
        if same(names[j].as_str(), names[i].as_str()) {
            return Some(j);
        }
        j += 1;
    }
    None
}

/// What loading door types named `names` does for each, given the project's door types
/// `existing` (id and name, in id order): a type already there under that name is reused,
/// and a name asked for twice gets one new type. (New types get ids after every existing
/// one, so an existing type is always found first.)
pub fn load_picks(names: &Vec<String>, existing: &Vec<(ElementId, String)>) -> (r: Vec<LoadPick>)
    ensures
        r.len() == names.len(),
        forall|i: int| 0 <= i < names.len() ==> picks_right(
            #[trigger] r@[i],
            existing@.map_values(|e: (ElementId, String)| (e.0, e.1@)),
            names@.map_values(|n: String| n@),
            i,
        ),
{
    let ghost ex = existing@.map_values(|e: (ElementId, String)| (e.0, e.1@));
    let ghost ns = names@.map_values(|n: String| n@);
    let mut out: Vec<LoadPick> = Vec::new();
    let mut i: usize = 0;
    while i < names.len()
        invariant
            i <= names.len(),
            out.len() == i,
            ex == existing@.map_values(|e: (ElementId, String)| (e.0, e.1@)),
            ns == names@.map_values(|n: String| n@),
            forall|i2: int| 0 <= i2 < i ==> picks_right(#[trigger] out@[i2], ex, ns, i2),
        decreases names.len() - i,
    {
        let pick = match find_named(existing, names[i].as_str()) {
            Some(k) => {
                proof {
                    assert(ex[k as int].0 == existing@[k as int].0 && ex[k as int].1 == ns[i as int]);
                    assert forall|k2: int| 0 <= k2 < k implies (#[trigger] ex[k2]).1 != ns[i as int] by {
                        assert(ex[k2].1 == existing@[k2].1@);
                    }
                }
                LoadPick::Reuse(existing[k].0)
            },
            None => {
                proof {
                    assert forall|k: int| 0 <= k < ex.len() implies (#[trigger] ex[k]).1 != ns[i as int] by {
                        assert(ex[k].1 == existing@[k].1@);
                    }
                }
                match find_earlier(names, i) {
                    Some(j) => {
                        proof {
                            assert forall|j2: int| 0 <= j2 < j implies #[trigger] ns[j2] != ns[i as int] by {
                                assert(ns[j2] == names@[j2]@);
                            }
                        }
                        LoadPick::SameAs(j)
                    },
                    None => {
                        proof {
                            assert forall|j: int| 0 <= j < i implies #[trigger] ns[j] != ns[i as int] by {
                                assert(ns[j] == names@[j]@);
                            }
                        }
                        LoadPick::Insert
                    },
                }
            },
        };
        assert(picks_right(pick, ex, ns, i as int));
        let ghost o0 = out@;
        out.push(pick);
        assert forall|i2: int| 0 <= i2 < i + 1 implies picks_right(#[trigger] out@[i2], ex, ns, i2) by {
            if i2 < i {
                assert(out@[i2] == o0[i2]);
            }
        }
        i += 1;
    }
    out
}

} // verus!
