//! Element identities, categories and the small enumerations elements are built from.

use vstd::prelude::*;

use crate::text::{same, string_of};

verus! {

/// Stable element identity: the 128-bit value of a time-ordered UUID (version 7).
/// Ids compare by that value, which for version 7 ids is their creation order.
#[derive(Debug, Clone, Copy, PartialEq, Eq, Structural, Hash, PartialOrd, Ord)]
pub struct ElementId(pub u128);

/// Whether `v` is the value of a version 7 UUID of the RFC 4122 variant: its version
/// nibble (bits 76 to 79, the high half of byte 6) holds 7 and its variant bits
/// (bits 62 and 63, the top of byte 8) hold `0b10`.
pub open spec fn is_version7(v: u128) -> bool {
    &&& (v >> 76u128) & 0xfu128 == 7u128
    &&& (v >> 62u128) & 0x3u128 == 2u128
}

/// A fresh version 7 UUID, as its 128-bit value (`uuid::Uuid::now_v7`, then `as_u128`).
/// The crate builds every such UUID with the version nibble 7 and the RFC 4122 variant
/// bits, and that is all that is stated: the other bits come from the clock, a counter
/// and random bits.
#[verifier::external_body]
fn fresh_uuid() -> (v: u128)
    ensures
        is_version7(v),
{
    uuid::Uuid::now_v7().as_u128()
}

/// The 16 bytes of the UUID with value `v`, most significant first.
pub open spec fn be_bytes(v: u128) -> Seq<u8> {
    seq![(v >> 120u128) as u8, (v >> 112u128) as u8, (v >> 104u128) as u8, (v >> 96u128) as u8, (v >> 88u128) as u8, (v >> 80u128) as u8, (v >> 72u128) as u8, (v >> 64u128) as u8, (v >> 56u128) as u8, (v >> 48u128) as u8, (v >> 40u128) as u8, (v >> 32u128) as u8, (v >> 24u128) as u8, (v >> 16u128) as u8, (v >> 8u128) as u8, (v >> 0u128) as u8]
}

/// The bytes of the UUID with value `v` (`uuid::Uuid::from_u128`, then `into_bytes`): the
/// crate keeps the value's big-endian bytes.
#[verifier::external_body]
fn uuid_bytes(v: u128) -> (b: [u8; 16])
    ensures
        b@ == be_bytes(v),
{
    uuid::Uuid::from_u128(v).into_bytes()
}

/// The value of the UUID with bytes `b` (`uuid::Uuid::from_bytes`, then `as_u128`): the
/// crate reads the bytes as a big-endian number.
#[verifier::external_body]
fn uuid_value(b: [u8; 16]) -> (v: u128)
    ensures
        be_bytes(v) == b@,
{
    uuid::Uuid::from_bytes(b).as_u128()
}

/// The lower-case hexadecimal digit for `n` (below 16).
pub open spec fn hex_digit(n: u128) -> char {
    if n < 10 {
        ((n + 48) as u8) as char
    } else {
        ((n + 87) as u8) as char
    }
}

/// Whether position `i` of an id's text holds a hyphen: the text is 32 hexadecimal digits
/// in groups of 8, 4, 4, 4 and 12.
pub open spec fn dash_at(i: int) -> bool {
    i == 8 || i == 13 || i == 18 || i == 23
}

/// Which of the 32 digits (0 the most significant) position `i` of an id's text holds.
pub open spec fn digit_index(i: int) -> int {
    if i < 8 {
        i
    } else if i < 13 {
        i - 1
    } else if i < 18 {
        i - 2
    } else if i < 23 {
        i - 3
    } else {
        i - 4
    }
}

/// The text of the id with value `v`, as the uuid crate writes it: 36 characters, the 32
/// lower-case hexadecimal digits of `v` (most significant first) with hyphens at
/// positions 8, 13, 18 and 23.
pub open spec fn id_text(v: u128) -> Seq<char> {
    Seq::new(
        36,
        |i: int|
            if dash_at(i) {
                '-'
            } else {
                hex_digit((v >> ((124 - 4 * digit_index(i)) as u128)) & 0xfu128)
            },
    )
}

/// What the uuid crate's parser makes of a text: the value of the UUID it names, or
/// nothing when it names none.
pub uninterp spec fn uuid_parse(s: Seq<char>) -> Option<u128>;

/// The uuid crate's parse error (`uuid::Error`), carried through as it is.
#[verifier::external_type_specification]
#[verifier::external_body]
pub struct ExUuidError(uuid::Error);

/// The UUID that `s` names, as its 128-bit value (`uuid::Uuid::parse_str`, then
/// `as_u128`), or the crate's error. The result is named by [`uuid_parse`]; the parser
/// also accepts other spellings (upper-case digits, no hyphens, braces, a `urn:uuid:`
/// prefix), and which texts it refuses is not written out, nor what the error holds.
/// Stated besides: the text the crate writes for a value (see [`id_text`]) parses back to
/// that value, as `parse_hyphenated` reads the 32 digits between the hyphens at 8, 13, 18
/// and 23, most significant first.
#[verifier::external_body]
fn parse_uuid(s: &str) -> (r: Result<u128, uuid::Error>)
    ensures
        r matches Ok(v) ==> uuid_parse(s@) == Some(v),
        r matches Err(_) ==> uuid_parse(s@) is None,
        forall|v: u128| s@ == id_text(v) ==> r.is_ok() && r.unwrap() == v,

{
    match uuid::Uuid::parse_str(s) {
        Ok(u) => Ok(u.as_u128()),
        Err(e) => Err(e),
    }
}

impl ElementId {
    /// A new, time-ordered id: a version 7 UUID.
    pub fn new() -> (id: ElementId)
        ensures
            is_version7(id.0),
    {
        ElementId(fresh_uuid())
    }

    /// The id named by the text `s` (a UUID, as the uuid crate reads it), or the uuid
    /// crate's error when `s` names none.
    pub fn from_str(s: &str) -> (r: Result<ElementId, uuid::Error>)
        ensures
            match uuid_parse(s@) {
                Some(v) => r.is_ok() && r.unwrap() == ElementId(v),
                None => r.is_err(),
            },
            forall|v: u128| s@ == id_text(v) ==> r.is_ok() && r.unwrap() == ElementId(v),
    {
        match parse_uuid(s) {
            Ok(v) => Ok(ElementId(v)),
            Err(e) => Err(e),
        }
    }

    /// The id's text: its 32 lower-case hexadecimal digits in groups of 8, 4, 4, 4 and 12,
    /// joined by hyphens (how the uuid crate writes a UUID).
    pub fn to_string(&self) -> (t: String)
        ensures
            t@ == id_text(self.0),
    {
        let v = self.0;
        let mut out: Vec<char> = Vec::new();
        let mut i: usize = 0;
        while i < 36
            invariant
                i <= 36,
                v == self.0,
                out@.len() == i,
                forall|j: int| 0 <= j < i ==> out@[j] == #[trigger] id_text(v)[j],
            decreases 36 - i,
        {
            if i == 8 || i == 13 || i == 18 || i == 23 {
                out.push('-');
            } else {
                let k: u128 = if i < 8 {
                    i as u128
                } else if i < 13 {
                    (i - 1) as u128
                } else if i < 18 {
                    (i - 2) as u128
                } else if i < 23 {
                    (i - 3) as u128
                } else {
                    (i - 4) as u128
                };
                let sh: u128 = 124 - 4 * k;
                let n: u128 = (v >> sh) & 0xf;
                assert(n < 16) by (bit_vector)
                    requires
                        n == (v >> sh) & 0xf;
                let c: char = if n < 10 {
                    ((n + 48) as u8) as char
                } else {
                    ((n + 87) as u8) as char
                };
                out.push(c);
            }
            i += 1;
        }
        assert(out@ =~= id_text(v));
        string_of(&out)
    }

    /// The id's 16 bytes, most significant first.
    pub fn as_bytes(&self) -> (b: [u8; 16])
        ensures
            b@ == be_bytes(self.0),
    {
        uuid_bytes(self.0)
    }

    /// The id with these 16 bytes, most significant first.
    pub fn from_bytes(b: [u8; 16]) -> (id: ElementId)
        ensures
            be_bytes(id.0) == b@,
    {
        ElementId(uuid_value(b))
    }
}

/// Different values have different bytes, so an id written as bytes reads back as itself.
pub proof fn lemma_bytes_identify(v: u128, w: u128)
    requires
        be_bytes(v) == be_bytes(w),
    ensures
        v == w,
{
    assert(be_bytes(v)[0] == be_bytes(w)[0]);
    assert(be_bytes(v)[1] == be_bytes(w)[1]);
    assert(be_bytes(v)[2] == be_bytes(w)[2]);
    assert(be_bytes(v)[3] == be_bytes(w)[3]);
    assert(be_bytes(v)[4] == be_bytes(w)[4]);
    assert(be_bytes(v)[5] == be_bytes(w)[5]);
    assert(be_bytes(v)[6] == be_bytes(w)[6]);
    assert(be_bytes(v)[7] == be_bytes(w)[7]);
    assert(be_bytes(v)[8] == be_bytes(w)[8]);
    assert(be_bytes(v)[9] == be_bytes(w)[9]);
    assert(be_bytes(v)[10] == be_bytes(w)[10]);
    assert(be_bytes(v)[11] == be_bytes(w)[11]);
    assert(be_bytes(v)[12] == be_bytes(w)[12]);
    assert(be_bytes(v)[13] == be_bytes(w)[13]);
    assert(be_bytes(v)[14] == be_bytes(w)[14]);
    assert(be_bytes(v)[15] == be_bytes(w)[15]);
    assert(v == w) by (bit_vector)
        requires
            (v >> 120u128) as u8 == (w >> 120u128) as u8,
            (v >> 112u128) as u8 == (w >> 112u128) as u8,
            (v >> 104u128) as u8 == (w >> 104u128) as u8,
            (v >> 96u128) as u8 == (w >> 96u128) as u8,
            (v >> 88u128) as u8 == (w >> 88u128) as u8,
            (v >> 80u128) as u8 == (w >> 80u128) as u8,
            (v >> 72u128) as u8 == (w >> 72u128) as u8,
            (v >> 64u128) as u8 == (w >> 64u128) as u8,
            (v >> 56u128) as u8 == (w >> 56u128) as u8,
            (v >> 48u128) as u8 == (w >> 48u128) as u8,
            (v >> 40u128) as u8 == (w >> 40u128) as u8,
            (v >> 32u128) as u8 == (w >> 32u128) as u8,
            (v >> 24u128) as u8 == (w >> 24u128) as u8,
            (v >> 16u128) as u8 == (w >> 16u128) as u8,
            (v >> 8u128) as u8 == (w >> 8u128) as u8,
            (v >> 0u128) as u8 == (w >> 0u128) as u8;
}

/// Element category, used for indexing, browser grouping and visibility.
#[derive(Debug, Clone, Copy, PartialEq, Eq, Structural, Hash, PartialOrd, Ord)]
pub enum Category {
    Level,
    Grid,
    WallType,
    Wall,
    FloorType,
    Floor,
    CeilingType,
    Ceiling,
    View,
    ProjectInfo,
    Stage,
    DoorType,
    Door,
    WindowType,
    Window,
    Room,
    Dimension,
    TextNote,
    Sheet,
    Viewport,
    Tag,
    Issuance,
    RoofType,
    Roof,
    Stair,
    ColumnType,
    Column,
    BeamType,
    Beam,
    RailingType,
    Railing,
    Material,
    RoomSeparator,
    ElevationMarker,
    ElevationMarkerType,
    Site,
}

impl Category {
    /// The category's name as written in files and messages.
    pub open spec fn name(self) -> Seq<char> {
        match self {
            Category::Level => "Level"@,
            Category::Grid => "Grid"@,
            Category::WallType => "WallType"@,
            Category::Wall => "Wall"@,
            Category::FloorType => "FloorType"@,
            Category::Floor => "Floor"@,
            Category::CeilingType => "CeilingType"@,
            Category::Ceiling => "Ceiling"@,
            Category::View => "View"@,
            Category::ProjectInfo => "ProjectInfo"@,
            Category::Stage => "Stage"@,
            Category::DoorType => "DoorType"@,
            Category::Door => "Door"@,
            Category::WindowType => "WindowType"@,
            Category::Window => "Window"@,
            Category::Room => "Room"@,
            Category::Dimension => "Dimension"@,
            Category::TextNote => "TextNote"@,
            Category::Sheet => "Sheet"@,
            Category::Viewport => "Viewport"@,
            Category::Tag => "Tag"@,
            Category::Issuance => "Issuance"@,
            Category::RoofType => "RoofType"@,
            Category::Roof => "Roof"@,
            Category::Stair => "Stair"@,
            Category::ColumnType => "ColumnType"@,
            Category::Column => "Column"@,
            Category::BeamType => "BeamType"@,
            Category::Beam => "Beam"@,
            Category::RailingType => "RailingType"@,
            Category::Railing => "Railing"@,
            Category::Material => "Material"@,
            Category::RoomSeparator => "RoomSeparator"@,
            Category::ElevationMarker => "ElevationMarker"@,
            Category::ElevationMarkerType => "ElevationMarkerType"@,
            Category::Site => "Site"@,
        }
    }

    pub fn as_str(self) -> (s: &'static str)
        ensures
            s@ == self.name(),
    {
        match self {
            Category::Level => "Level",
            Category::Grid => "Grid",
            Category::WallType => "WallType",
            Category::Wall => "Wall",
            Category::FloorType => "FloorType",
            Category::Floor => "Floor",
            Category::CeilingType => "CeilingType",
            Category::Ceiling => "Ceiling",
            Category::View => "View",
            Category::ProjectInfo => "ProjectInfo",
            Category::Stage => "Stage",
            Category::DoorType => "DoorType",
            Category::Door => "Door",
            Category::WindowType => "WindowType",
            Category::Window => "Window",
            Category::Room => "Room",
            Category::Dimension => "Dimension",
            Category::TextNote => "TextNote",
            Category::Sheet => "Sheet",
            Category::Viewport => "Viewport",
            Category::Tag => "Tag",
            Category::Issuance => "Issuance",
            Category::RoofType => "RoofType",
            Category::Roof => "Roof",
            Category::Stair => "Stair",
            Category::ColumnType => "ColumnType",
            Category::Column => "Column",
            Category::BeamType => "BeamType",
            Category::Beam => "Beam",
            Category::RailingType => "RailingType",
            Category::Railing => "Railing",
            Category::Material => "Material",
            Category::RoomSeparator => "RoomSeparator",
            Category::ElevationMarker => "ElevationMarker",
            Category::ElevationMarkerType => "ElevationMarkerType",
            Category::Site => "Site",
        }
    }
}

/// Whether a wall type faces the outside or divides rooms.
#[derive(Debug, Clone, Copy, PartialEq, Eq, Structural)]
pub enum WallFunction {
    Exterior,
    Interior,
}

/// What a wall layer does (Revit's layer functions).
#[derive(Debug, Clone, Copy, PartialEq, Eq, Structural)]
pub enum LayerFunction {
    Structure,
    Substrate,
    Insulation,
    Finish,
    Membrane,
    AirGap,
}

impl LayerFunction {
    /// The label shown to users.
    pub open spec fn label_text(self) -> Seq<char> {
        match self {
            LayerFunction::Structure => "Structure"@,
            LayerFunction::Substrate => "Substrate"@,
            LayerFunction::Insulation => "Insulation"@,
            LayerFunction::Finish => "Finish"@,
            LayerFunction::Membrane => "Membrane"@,
            LayerFunction::AirGap => "Air Gap"@,
        }
    }

    /// The variant's name as written in code and files.
    pub open spec fn debug_text(self) -> Seq<char> {
        match self {
            LayerFunction::Structure => "Structure"@,
            LayerFunction::Substrate => "Substrate"@,
            LayerFunction::Insulation => "Insulation"@,
            LayerFunction::Finish => "Finish"@,
            LayerFunction::Membrane => "Membrane"@,
            LayerFunction::AirGap => "AirGap"@,
        }
    }

    /// Whether `s` is this variant's label or its name.
    pub open spec fn is_named(self, s: Seq<char>) -> bool {
        self.label_text() == s || self.debug_text() == s
    }

    /// Every variant, in the order offered to users.
    pub fn all() -> (v: Vec<LayerFunction>)
        ensures
            v@ == seq![LayerFunction::Structure, LayerFunction::Substrate, LayerFunction::Insulation, LayerFunction::Finish, LayerFunction::Membrane, LayerFunction::AirGap],
    {
        vec![LayerFunction::Structure, LayerFunction::Substrate, LayerFunction::Insulation, LayerFunction::Finish, LayerFunction::Membrane, LayerFunction::AirGap]
    }

    pub fn label(self) -> (s: &'static str)
        ensures
            s@ == self.label_text(),
    {
        match self {
            LayerFunction::Structure => "Structure",
            LayerFunction::Substrate => "Substrate",
            LayerFunction::Insulation => "Insulation",
            LayerFunction::Finish => "Finish",
            LayerFunction::Membrane => "Membrane",
            LayerFunction::AirGap => "Air Gap",
        }
    }

    /// The variant whose label or name is `s`.
    pub fn parse(s: &str) -> (r: Option<LayerFunction>)
        ensures
            r matches Some(x) ==> x.is_named(s@),
            r is None ==> forall|x: LayerFunction| !x.is_named(s@),
    {
        if same(s, "Structure") {
            return Some(LayerFunction::Structure);
        }
        if same(s, "Substrate") {
            return Some(LayerFunction::Substrate);
        }
        if same(s, "Insulation") {
            return Some(LayerFunction::Insulation);
        }
        if same(s, "Finish") {
            return Some(LayerFunction::Finish);
        }
        if same(s, "Membrane") {
            return Some(LayerFunction::Membrane);
        }
        if same(s, "Air Gap") || same(s, "AirGap") {
            return Some(LayerFunction::AirGap);
        }
        assert forall|x: LayerFunction| !x.is_named(s@) by {
            match x {
                LayerFunction::Structure => {},
                LayerFunction::Substrate => {},
                LayerFunction::Insulation => {},
                LayerFunction::Finish => {},
                LayerFunction::Membrane => {},
                LayerFunction::AirGap => {},
            }
        }
        None
    }
}

/// How a material's cut face is hatched in plans and sections.
#[derive(Debug, Clone, Copy, PartialEq, Eq, Structural)]
pub enum CutPattern {
    /// No hatch (written "None" in files and menus).
    Unhatched,
    /// Batt insulation zigzag.
    Insulation,
    /// Rigid insulation: a diagonal crosshatch.
    Rigid,
    /// Brick, block and stone: diagonal lines.
    Masonry,
    /// Diagonal dashes with aggregate triangles.
    Concrete,
    /// Framing lumber: a sparse diagonal cross.
    Wood,
    /// Solid fill (steel at small scales).
    Solid,
}

impl CutPattern {
    /// The label shown to users.
    pub open spec fn label_text(self) -> Seq<char> {
        match self {
            CutPattern::Unhatched => "None"@,
            CutPattern::Insulation => "Batt Insulation"@,
            CutPattern::Rigid => "Rigid Insulation"@,
            CutPattern::Masonry => "Masonry"@,
            CutPattern::Concrete => "Concrete"@,
            CutPattern::Wood => "Wood Framing"@,
            CutPattern::Solid => "Solid Fill"@,
        }
    }

    /// The variant's name as written in code and files.
    pub open spec fn debug_text(self) -> Seq<char> {
        match self {
            CutPattern::Unhatched => "None"@,
            CutPattern::Insulation => "Insulation"@,
            CutPattern::Rigid => "Rigid"@,
            CutPattern::Masonry => "Masonry"@,
            CutPattern::Concrete => "Concrete"@,
            CutPattern::Wood => "Wood"@,
            CutPattern::Solid => "Solid"@,
        }
    }

    /// Whether `s` is this variant's label or its name.
    pub open spec fn is_named(self, s: Seq<char>) -> bool {
        self.label_text() == s || self.debug_text() == s
    }

    /// Every variant, in the order offered to users.
    pub fn all() -> (v: Vec<CutPattern>)
        ensures
            v@ == seq![CutPattern::Unhatched, CutPattern::Insulation, CutPattern::Rigid, CutPattern::Masonry, CutPattern::Concrete, CutPattern::Wood, CutPattern::Solid],
    {
        vec![CutPattern::Unhatched, CutPattern::Insulation, CutPattern::Rigid, CutPattern::Masonry, CutPattern::Concrete, CutPattern::Wood, CutPattern::Solid]
    }

    pub fn label(self) -> (s: &'static str)
        ensures
            s@ == self.label_text(),
    {
        match self {
            CutPattern::Unhatched => "None",
            CutPattern::Insulation => "Batt Insulation",
            CutPattern::Rigid => "Rigid Insulation",
            CutPattern::Masonry => "Masonry",
            CutPattern::Concrete => "Concrete",
            CutPattern::Wood => "Wood Framing",
            CutPattern::Solid => "Solid Fill",
        }
    }

    /// The variant whose label or name is `s`.
    pub fn parse(s: &str) -> (r: Option<CutPattern>)
        ensures
            r matches Some(x) ==> x.is_named(s@),
            r is None ==> forall|x: CutPattern| !x.is_named(s@),
    {
        if same(s, "None") {
            return Some(CutPattern::Unhatched);
        }
        if same(s, "Batt Insulation") || same(s, "Insulation") {
            return Some(CutPattern::Insulation);
        }
        if same(s, "Rigid Insulation") || same(s, "Rigid") {
            return Some(CutPattern::Rigid);
        }
        if same(s, "Masonry") {
            return Some(CutPattern::Masonry);
        }
        if same(s, "Concrete") {
            return Some(CutPattern::Concrete);
        }
        if same(s, "Wood Framing") || same(s, "Wood") {
            return Some(CutPattern::Wood);
        }
        if same(s, "Solid Fill") || same(s, "Solid") {
            return Some(CutPattern::Solid);
        }
        assert forall|x: CutPattern| !x.is_named(s@) by {
            match x {
                CutPattern::Unhatched => {},
                CutPattern::Insulation => {},
                CutPattern::Rigid => {},
                CutPattern::Masonry => {},
                CutPattern::Concrete => {},
                CutPattern::Wood => {},
                CutPattern::Solid => {},
            }
        }
        None
    }
}

impl Default for CutPattern {
    fn default() -> (d: CutPattern)
        ensures
            d == CutPattern::Unhatched,
    {
        CutPattern::Unhatched
    }
}

/// How an elevation mark is drawn (the symbol of its family type).
#[derive(Debug, Clone, Copy, PartialEq, Eq, Structural)]
pub enum MarkStyle {
    /// A round body with a filled arrowhead per view.
    CircleArrow,
    /// A round body whose half toward each view is filled, with a point.
    CircleHalf,
    /// A circle in a square turned 45°, the corner toward each view filled.
    Diamond,
}

impl MarkStyle {
    /// The label shown to users.
    pub open spec fn label_text(self) -> Seq<char> {
        match self {
            MarkStyle::CircleArrow => "Circle - Filled Arrow"@,
            MarkStyle::CircleHalf => "Circle - Filled Half"@,
            MarkStyle::Diamond => "Diamond - Filled Corners"@,
        }
    }

    /// Every variant, in the order offered to users.
    pub fn all() -> (v: Vec<MarkStyle>)
        ensures
            v@ == seq![MarkStyle::CircleArrow, MarkStyle::CircleHalf, MarkStyle::Diamond],
    {
        vec![MarkStyle::CircleArrow, MarkStyle::CircleHalf, MarkStyle::Diamond]
    }

    pub fn label(self) -> (s: &'static str)
        ensures
            s@ == self.label_text(),
    {
        match self {
            MarkStyle::CircleArrow => "Circle - Filled Arrow",
            MarkStyle::CircleHalf => "Circle - Filled Half",
            MarkStyle::Diamond => "Diamond - Filled Corners",
        }
    }
}

impl Default for MarkStyle {
    fn default() -> (d: MarkStyle)
        ensures
            d == MarkStyle::CircleArrow,
    {
        MarkStyle::CircleArrow
    }
}

/// Which line of a wall its drawn points follow (Revit's Location Line). The wall is
/// stored by its centerline; the location line decides how drawn points map to it.
#[derive(Debug, Clone, Copy, PartialEq, Eq, Structural)]
pub enum LocationLine {
    Centerline,
    CoreCenterline,
    FinishExterior,
    FinishInterior,
    CoreExterior,
    CoreInterior,
}

impl LocationLine {
    /// The label shown to users.
    pub open spec fn label_text(self) -> Seq<char> {
        match self {
            LocationLine::Centerline => "Wall Centerline"@,
            LocationLine::CoreCenterline => "Core Centerline"@,
            LocationLine::FinishExterior => "Finish Face: Exterior"@,
            LocationLine::FinishInterior => "Finish Face: Interior"@,
            LocationLine::CoreExterior => "Core Face: Exterior"@,
            LocationLine::CoreInterior => "Core Face: Interior"@,
        }
    }

    /// The variant's name as written in code and files.
    pub open spec fn debug_text(self) -> Seq<char> {
        match self {
            LocationLine::Centerline => "Centerline"@,
            LocationLine::CoreCenterline => "CoreCenterline"@,
            LocationLine::FinishExterior => "FinishExterior"@,
            LocationLine::FinishInterior => "FinishInterior"@,
            LocationLine::CoreExterior => "CoreExterior"@,
            LocationLine::CoreInterior => "CoreInterior"@,
        }
    }

    /// Whether `s` is this variant's label or its name.
    pub open spec fn is_named(self, s: Seq<char>) -> bool {
        self.label_text() == s || self.debug_text() == s
    }

    /// Every variant, in the order offered to users.
    pub fn all() -> (v: Vec<LocationLine>)
        ensures
            v@ == seq![LocationLine::Centerline, LocationLine::CoreCenterline, LocationLine::FinishExterior, LocationLine::FinishInterior, LocationLine::CoreExterior, LocationLine::CoreInterior],
    {
        vec![LocationLine::Centerline, LocationLine::CoreCenterline, LocationLine::FinishExterior, LocationLine::FinishInterior, LocationLine::CoreExterior, LocationLine::CoreInterior]
    }

    pub fn label(self) -> (s: &'static str)
        ensures
            s@ == self.label_text(),
    {
        match self {
            LocationLine::Centerline => "Wall Centerline",
            LocationLine::CoreCenterline => "Core Centerline",
            LocationLine::FinishExterior => "Finish Face: Exterior",
            LocationLine::FinishInterior => "Finish Face: Interior",
            LocationLine::CoreExterior => "Core Face: Exterior",
            LocationLine::CoreInterior => "Core Face: Interior",
        }
    }

    /// The variant whose label or name is `s`.
    pub fn parse(s: &str) -> (r: Option<LocationLine>)
        ensures
            r matches Some(x) ==> x.is_named(s@),
            r is None ==> forall|x: LocationLine| !x.is_named(s@),
    {
        if same(s, "Wall Centerline") || same(s, "Centerline") {
            return Some(LocationLine::Centerline);
        }
        if same(s, "Core Centerline") || same(s, "CoreCenterline") {
            return Some(LocationLine::CoreCenterline);
        }
        if same(s, "Finish Face: Exterior") || same(s, "FinishExterior") {
            return Some(LocationLine::FinishExterior);
        }
        if same(s, "Finish Face: Interior") || same(s, "FinishInterior") {
            return Some(LocationLine::FinishInterior);
        }
        if same(s, "Core Face: Exterior") || same(s, "CoreExterior") {
            return Some(LocationLine::CoreExterior);
        }
        if same(s, "Core Face: Interior") || same(s, "CoreInterior") {
            return Some(LocationLine::CoreInterior);
        }
        assert forall|x: LocationLine| !x.is_named(s@) by {
            match x {
                LocationLine::Centerline => {},
                LocationLine::CoreCenterline => {},
                LocationLine::FinishExterior => {},
                LocationLine::FinishInterior => {},
                LocationLine::CoreExterior => {},
                LocationLine::CoreInterior => {},
            }
        }
        None
    }
}

impl Default for LocationLine {
    fn default() -> (d: LocationLine)
        ensures
            d == LocationLine::Centerline,
    {
        LocationLine::Centerline
    }
}

/// Plan shape of a stair.
#[derive(Debug, Clone, Copy, PartialEq, Eq, Structural)]
pub enum StairShape {
    Straight,
    /// Two runs at right angles with a square landing, turning left or right.
    LShaped { left: bool },
    /// Two runs side by side, doubling back at a landing.
    UShaped { left: bool },
}

impl Default for StairShape {
    fn default() -> (d: StairShape)
        ensures
            d == StairShape::Straight,
    {
        StairShape::Straight
    }
}

/// Built-in door families. `SingleFlush` and `DoubleFlush` are the single and double
/// swing families (their leaf style is a type option); the names stay for files saved
/// before door families.
#[derive(Debug, Clone, Copy, PartialEq, Eq, Structural, Hash)]
pub enum DoorFamily {
    SingleFlush,
    DoubleFlush,
    Sidelites,
    SlidingGlass,
    Pocket,
    Barn,
    Bifold,
    FoldingWall,
    Storefront,
    Garage,
}

/// Built-in window families: the common US window types.
#[derive(Debug, Clone, Copy, PartialEq, Eq, Structural, Hash)]
pub enum WindowFamily {
    Fixed,
    Casement,
    DoubleHung,
    SingleHung,
    Awning,
    Hopper,
    Slider,
    Slider3,
    PictureCasement,
    PictureAwning,
    Bay,
    Storefront,
}

/// Compass direction an elevation view looks toward.
#[derive(Debug, Clone, Copy, PartialEq, Eq, Structural)]
pub enum Compass {
    North,
    South,
    East,
    West,
}

/// What a schedule view lists.
#[derive(Debug, Clone, Copy, PartialEq, Eq, Structural)]
pub enum ScheduleKind {
    Doors,
    Windows,
    Rooms,
    Sheets,
    Columns,
    Beams,
    MaterialTakeoff,
}

/// Printed sheet sizes (landscape).
#[derive(Debug, Clone, Copy, PartialEq, Eq, Structural)]
pub enum SheetSize {
    /// ARCH D, 36" × 24".
    ArchD,
    /// Tabloid, 17" × 11".
    Tabloid,
}

impl SheetSize {
    /// The label shown to users.
    pub open spec fn label_text(self) -> Seq<char> {
        match self {
            SheetSize::ArchD => "ARCH D 36\" x 24\""@,
            SheetSize::Tabloid => "Tabloid 17\" x 11\""@,
        }
    }

    pub fn label(self) -> (s: &'static str)
        ensures
            s@ == self.label_text(),
    {
        match self {
            SheetSize::ArchD => "ARCH D 36\" x 24\"",
            SheetSize::Tabloid => "Tabloid 17\" x 11\"",
        }
    }
}

/// The Rufplan.io project a model publishes to.
#[derive(Debug)]
pub struct RufplanLink {
    /// `open_projects.id`.
    pub id: String,
    pub name: String,
    /// For the project page URL, rufplan.io/projects/<slug>.
    pub slug: String,
}

/// No two layer functions share a label or a name, so parsing a label or a name gives back
/// the function it belongs to.
pub proof fn lemma_layer_function_names(x: LayerFunction, y: LayerFunction)
    ensures
        y.is_named(x.label_text()) ==> y == x,
        y.is_named(x.debug_text()) ==> y == x,
{
    reveal_strlit("Air Gap");
    reveal_strlit("AirGap");
    reveal_strlit("Finish");
    reveal_strlit("Insulation");
    reveal_strlit("Membrane");
    reveal_strlit("Structure");
    reveal_strlit("Substrate");
    assert("Air Gap"@.len() != "Finish"@.len());
    assert("Air Gap"@.len() != "Insulation"@.len());
    assert("Air Gap"@.len() != "Membrane"@.len());
    assert("Air Gap"@.len() != "Structure"@.len());
    assert("Air Gap"@.len() != "Substrate"@.len());
    assert("AirGap"@[0] != "Finish"@[0]);
    assert("AirGap"@.len() != "Insulation"@.len());
    assert("AirGap"@.len() != "Membrane"@.len());
    assert("AirGap"@.len() != "Structure"@.len());
    assert("AirGap"@.len() != "Substrate"@.len());
    assert("Finish"@.len() != "Insulation"@.len());
    assert("Finish"@.len() != "Membrane"@.len());
    assert("Finish"@.len() != "Structure"@.len());
    assert("Finish"@.len() != "Substrate"@.len());
    assert("Insulation"@.len() != "Membrane"@.len());
    assert("Insulation"@.len() != "Structure"@.len());
    assert("Insulation"@.len() != "Substrate"@.len());
    assert("Membrane"@.len() != "Structure"@.len());
    assert("Membrane"@.len() != "Substrate"@.len());
    assert("Structure"@[1] != "Substrate"@[1]);
    match x {
        LayerFunction::Structure => {},
        LayerFunction::Substrate => {},
        LayerFunction::Insulation => {},
        LayerFunction::Finish => {},
        LayerFunction::Membrane => {},
        LayerFunction::AirGap => {},
    }
}

/// No two cut patterns share a label or a name, so parsing a label or a name gives back
/// the pattern it belongs to.
pub proof fn lemma_cut_pattern_names(x: CutPattern, y: CutPattern)
    ensures
        y.is_named(x.label_text()) ==> y == x,
        y.is_named(x.debug_text()) ==> y == x,
{
    reveal_strlit("Batt Insulation");
    reveal_strlit("Concrete");
    reveal_strlit("Insulation");
    reveal_strlit("Masonry");
    reveal_strlit("None");
    reveal_strlit("Rigid");
    reveal_strlit("Rigid Insulation");
    reveal_strlit("Solid");
    reveal_strlit("Solid Fill");
    reveal_strlit("Wood");
    reveal_strlit("Wood Framing");
    assert("Batt Insulation"@.len() != "Concrete"@.len());
    assert("Batt Insulation"@.len() != "Masonry"@.len());
    assert("Batt Insulation"@.len() != "None"@.len());
    assert("Batt Insulation"@.len() != "Rigid"@.len());
    assert("Batt Insulation"@.len() != "Rigid Insulation"@.len());
    assert("Batt Insulation"@.len() != "Solid"@.len());
    assert("Batt Insulation"@.len() != "Solid Fill"@.len());
    assert("Batt Insulation"@.len() != "Wood"@.len());
    assert("Batt Insulation"@.len() != "Wood Framing"@.len());
    assert("Concrete"@.len() != "Insulation"@.len());
    assert("Concrete"@.len() != "Masonry"@.len());
    assert("Concrete"@.len() != "None"@.len());
    assert("Concrete"@.len() != "Rigid"@.len());
    assert("Concrete"@.len() != "Rigid Insulation"@.len());
    assert("Concrete"@.len() != "Solid"@.len());
    assert("Concrete"@.len() != "Solid Fill"@.len());
    assert("Concrete"@.len() != "Wood"@.len());
    assert("Concrete"@.len() != "Wood Framing"@.len());
    assert("Insulation"@.len() != "Masonry"@.len());
    assert("Insulation"@.len() != "None"@.len());
    assert("Insulation"@.len() != "Rigid"@.len());
    assert("Insulation"@.len() != "Rigid Insulation"@.len());
    assert("Insulation"@.len() != "Solid"@.len());
    assert("Insulation"@[0] != "Solid Fill"@[0]);
    assert("Insulation"@.len() != "Wood"@.len());
    assert("Insulation"@.len() != "Wood Framing"@.len());
    assert("Masonry"@.len() != "None"@.len());
    assert("Masonry"@.len() != "Rigid"@.len());
    assert("Masonry"@.len() != "Rigid Insulation"@.len());
    assert("Masonry"@.len() != "Solid"@.len());
    assert("Masonry"@.len() != "Solid Fill"@.len());
    assert("Masonry"@.len() != "Wood"@.len());
    assert("Masonry"@.len() != "Wood Framing"@.len());
    assert("None"@.len() != "Rigid"@.len());
    assert("None"@.len() != "Rigid Insulation"@.len());
    assert("None"@.len() != "Solid"@.len());
    assert("None"@.len() != "Solid Fill"@.len());
    assert("None"@[0] != "Wood"@[0]);
    assert("None"@.len() != "Wood Framing"@.len());
    assert("Rigid"@[0] != "Solid"@[0]);
    assert("Rigid"@.len() != "Solid Fill"@.len());
    assert("Rigid"@.len() != "Wood"@.len());
    assert("Rigid"@.len() != "Wood Framing"@.len());
    assert("Rigid Insulation"@.len() != "Solid"@.len());
    assert("Rigid Insulation"@.len() != "Solid Fill"@.len());
    assert("Rigid Insulation"@.len() != "Wood"@.len());
    assert("Rigid Insulation"@.len() != "Wood Framing"@.len());
    assert("Solid"@.len() != "Wood"@.len());
    assert("Solid"@.len() != "Wood Framing"@.len());
    assert("Solid Fill"@.len() != "Wood"@.len());
    assert("Solid Fill"@.len() != "Wood Framing"@.len());
    match x {
        CutPattern::Unhatched => {},
        CutPattern::Insulation => {},
        CutPattern::Rigid => {},
        CutPattern::Masonry => {},
        CutPattern::Concrete => {},
        CutPattern::Wood => {},
        CutPattern::Solid => {},
    }
}

/// No two location lines share a label or a name, so parsing a label or a name gives back
/// the line it belongs to.
pub proof fn lemma_location_line_names(x: LocationLine, y: LocationLine)
    ensures
        y.is_named(x.label_text()) ==> y == x,
        y.is_named(x.debug_text()) ==> y == x,
{
    reveal_strlit("Centerline");
    reveal_strlit("Core Centerline");
    reveal_strlit("Core Face: Exterior");
    reveal_strlit("Core Face: Interior");
    reveal_strlit("CoreCenterline");
    reveal_strlit("CoreExterior");
    reveal_strlit("CoreInterior");
    reveal_strlit("Finish Face: Exterior");
    reveal_strlit("Finish Face: Interior");
    reveal_strlit("FinishExterior");
    reveal_strlit("FinishInterior");
    reveal_strlit("Wall Centerline");
    assert("Centerline"@.len() != "Core Centerline"@.len());
    assert("Centerline"@.len() != "Core Face: Exterior"@.len());
    assert("Centerline"@.len() != "Core Face: Interior"@.len());
    assert("Centerline"@.len() != "CoreCenterline"@.len());
    assert("Centerline"@.len() != "CoreExterior"@.len());
    assert("Centerline"@.len() != "CoreInterior"@.len());
    assert("Centerline"@.len() != "Finish Face: Exterior"@.len());
    assert("Centerline"@.len() != "Finish Face: Interior"@.len());
    assert("Centerline"@.len() != "FinishExterior"@.len());
    assert("Centerline"@.len() != "FinishInterior"@.len());
    assert("Core Centerline"@.len() != "Core Face: Exterior"@.len());
    assert("Core Centerline"@.len() != "Core Face: Interior"@.len());
    assert("Core Centerline"@.len() != "CoreExterior"@.len());
    assert("Core Centerline"@.len() != "CoreInterior"@.len());
    assert("Core Centerline"@.len() != "Finish Face: Exterior"@.len());
    assert("Core Centerline"@.len() != "Finish Face: Interior"@.len());
    assert("Core Centerline"@.len() != "FinishExterior"@.len());
    assert("Core Centerline"@.len() != "FinishInterior"@.len());
    assert("Core Centerline"@[0] != "Wall Centerline"@[0]);
    assert("Core Face: Exterior"@[11] != "Core Face: Interior"@[11]);
    assert("Core Face: Exterior"@.len() != "CoreCenterline"@.len());
    assert("Core Face: Exterior"@.len() != "CoreInterior"@.len());
    assert("Core Face: Exterior"@.len() != "Finish Face: Exterior"@.len());
    assert("Core Face: Exterior"@.len() != "Finish Face: Interior"@.len());
    assert("Core Face: Exterior"@.len() != "FinishExterior"@.len());
    assert("Core Face: Exterior"@.len() != "FinishInterior"@.len());
    assert("Core Face: Exterior"@.len() != "Wall Centerline"@.len());
    assert("Core Face: Interior"@.len() != "CoreCenterline"@.len());
    assert("Core Face: Interior"@.len() != "CoreExterior"@.len());
    assert("Core Face: Interior"@.len() != "Finish Face: Exterior"@.len());
    assert("Core Face: Interior"@.len() != "Finish Face: Interior"@.len());
    assert("Core Face: Interior"@.len() != "FinishExterior"@.len());
    assert("Core Face: Interior"@.len() != "FinishInterior"@.len());
    assert("Core Face: Interior"@.len() != "Wall Centerline"@.len());
    assert("CoreCenterline"@.len() != "CoreExterior"@.len());
    assert("CoreCenterline"@.len() != "CoreInterior"@.len());
    assert("CoreCenterline"@.len() != "Finish Face: Exterior"@.len());
    assert("CoreCenterline"@.len() != "Finish Face: Interior"@.len());
    assert("CoreCenterline"@[0] != "FinishExterior"@[0]);
    assert("CoreCenterline"@[0] != "FinishInterior"@[0]);
    assert("CoreCenterline"@.len() != "Wall Centerline"@.len());
    assert("CoreExterior"@[4] != "CoreInterior"@[4]);
    assert("CoreExterior"@.len() != "Finish Face: Exterior"@.len());
    assert("CoreExterior"@.len() != "Finish Face: Interior"@.len());
    assert("CoreExterior"@.len() != "FinishExterior"@.len());
    assert("CoreExterior"@.len() != "FinishInterior"@.len());
    assert("CoreExterior"@.len() != "Wall Centerline"@.len());
    assert("CoreInterior"@.len() != "Finish Face: Exterior"@.len());
    assert("CoreInterior"@.len() != "Finish Face: Interior"@.len());
    assert("CoreInterior"@.len() != "FinishExterior"@.len());
    assert("CoreInterior"@.len() != "FinishInterior"@.len());
    assert("CoreInterior"@.len() != "Wall Centerline"@.len());
    assert("Finish Face: Exterior"@[13] != "Finish Face: Interior"@[13]);
    assert("Finish Face: Exterior"@.len() != "FinishInterior"@.len());
    assert("Finish Face: Exterior"@.len() != "Wall Centerline"@.len());
    assert("Finish Face: Interior"@.len() != "FinishExterior"@.len());
    assert("Finish Face: Interior"@.len() != "Wall Centerline"@.len());
    assert("FinishExterior"@[6] != "FinishInterior"@[6]);
    assert("FinishExterior"@.len() != "Wall Centerline"@.len());
    assert("FinishInterior"@.len() != "Wall Centerline"@.len());
    match x {
        LocationLine::Centerline => {},
        LocationLine::CoreCenterline => {},
        LocationLine::FinishExterior => {},
        LocationLine::FinishInterior => {},
        LocationLine::CoreExterior => {},
        LocationLine::CoreInterior => {},
    }
}

} // verus!
