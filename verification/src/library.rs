//! The material library: appearances and presets typical of US residential, hospitality
//! and multifamily buildings, from typical to high-end. Photo-real presets use Poly
//! Haven's CC0 texture sets, downloaded on first use; procedural textures need no
//! download.

use vstd::prelude::*;

use crate::text::{alnum, append, chars_of, is_alnum, same, same_chars, string_of};

verus! {

/// Price and finish level.
#[derive(Debug, Clone, Copy, PartialEq, Eq, Structural)]
pub enum Tier {
    Typical,
    MidRange,
    HighEnd,
}

/// Maps of a photo texture set.
#[derive(Debug, Clone, Copy, PartialEq, Eq, Structural)]
pub enum TextureMap {
    Color,
    Normal,
    Roughness,
}

/// The textures the library's presets use: Poly Haven set ids, and `proc:` names of
/// procedural patterns.
pub open spec fn library_textures() -> Seq<Seq<char>> {
    seq![
        "wood_floor"@,
        "herringbone_parquet"@,
        "laminate_floor_02"@,
        "laminate_floor_03"@,
        "walnut_veneer_02"@,
        "white_oak_veneer"@,
        "lacquered_cherry_wood"@,
        "teak_veneer"@,
        "wood_floor_deck"@,
        "wood_planks_grey"@,
        "plywood"@,
        "proc:carrara"@,
        "proc:calacatta"@,
        "marble_01"@,
        "proc:granite"@,
        "proc:quartz"@,
        "terrazzo_tiles"@,
        "white_sandstone_blocks_02"@,
        "rustic_stone_wall_02"@,
        "stone_wall"@,
        "pavement_02"@,
        "large_floor_tiles_02"@,
        "granite_tile"@,
        "proc:subway"@,
        "proc:hex"@,
        "marble_tiles"@,
        "red_brick_03"@,
        "red_brick"@,
        "proc:cmu"@,
        "concrete_floor_02"@,
        "concrete_layers_02"@,
        "gravel_concrete_03"@,
        "painted_plaster_wall"@,
        "proc:brushed"@,
        "corrugated_iron"@,
        "rust_coarse_01"@,
        "proc:seam"@,
        "proc:carpet"@,
        "proc:carpet-pattern"@,
        "leather_white"@,
        "velour_velvet"@,
        "brown_leather"@,
        "grey_roof_01"@,
        "roof_09"@,
        "clay_roof_tiles_02"@,
        "roof_slates_02"@,
        "proc:act"@,
        "asphalt_02"@,
        "proc:grass"@
    ]
}

/// The textures the library's presets use.
pub fn textures() -> (v: Vec<&'static str>)
    ensures
        v@.map_values(|t: &'static str| t@) == library_textures(),
{
    let v = vec![
        "wood_floor",
        "herringbone_parquet",
        "laminate_floor_02",
        "laminate_floor_03",
        "walnut_veneer_02",
        "white_oak_veneer",
        "lacquered_cherry_wood",
        "teak_veneer",
        "wood_floor_deck",
        "wood_planks_grey",
        "plywood",
        "proc:carrara",
        "proc:calacatta",
        "marble_01",
        "proc:granite",
        "proc:quartz",
        "terrazzo_tiles",
        "white_sandstone_blocks_02",
        "rustic_stone_wall_02",
        "stone_wall",
        "pavement_02",
        "large_floor_tiles_02",
        "granite_tile",
        "proc:subway",
        "proc:hex",
        "marble_tiles",
        "red_brick_03",
        "red_brick",
        "proc:cmu",
        "concrete_floor_02",
        "concrete_layers_02",
        "gravel_concrete_03",
        "painted_plaster_wall",
        "proc:brushed",
        "corrugated_iron",
        "rust_coarse_01",
        "proc:seam",
        "proc:carpet",
        "proc:carpet-pattern",
        "leather_white",
        "velour_velvet",
        "brown_leather",
        "grey_roof_01",
        "roof_09",
        "clay_roof_tiles_02",
        "roof_slates_02",
        "proc:act",
        "asphalt_02",
        "proc:grass"
    ];
    assert(v@.map_values(|t: &'static str| t@) =~= library_textures());
    v
}

/// Whether the library uses texture `t`.
fn used(t: &str) -> (r: bool)
    ensures
        r == library_textures().contains(t@),
{
    let v = textures();
    let ghost tv = library_textures();
    let mut i: usize = 0;
    while i < v.len()
        invariant
            i <= v.len(),
            v@.map_values(|t: &'static str| t@) == tv,
            tv == library_textures(),
            forall|j: int| 0 <= j < i ==> tv[j] != t@,
        decreases v.len() - i,
    {
        if same(v[i], t) {
            assert(tv[i as int] == t@);
            return true;
        }
        i += 1;
    }
    assert(!tv.contains(t@)) by {
        if tv.contains(t@) {
            let j = choose|j: int| 0 <= j < tv.len() && tv[j] == t@;
            assert(tv[j] != t@);
        }
    }
    false
}

/// Whether `s` starts with `p`.
pub open spec fn starts_with(s: Seq<char>, p: Seq<char>) -> bool {
    p.len() <= s.len() && s.subrange(0, p.len() as int) == p
}

/// A texture that is published as a photo set: one the library uses, not procedural,
/// and named only with ASCII letters, digits and underscores.
pub open spec fn photo_texture(t: Seq<char>) -> bool {
    &&& library_textures().contains(t)
    &&& !starts_with(t, "proc:"@)
    &&& forall|i: int| 0 <= i < t.len() ==> is_alnum(#[trigger] t[i]) || t[i] == '_'
}

/// The file suffix of a map of texture set `t`.
pub open spec fn map_suffix(t: Seq<char>, map: TextureMap) -> Seq<char> {
    match map {
        TextureMap::Color => if t == "brown_leather"@ {
            "albedo"@
        } else {
            "diff"@
        },
        TextureMap::Normal => "nor_gl"@,
        TextureMap::Roughness => "rough"@,
    }
}

/// Where the 2K map of a photo texture set is published.
pub open spec fn texture_address(t: Seq<char>, map: TextureMap) -> Seq<char> {
    "https://dl.polyhaven.org/file/ph-assets/Textures/jpg/2k/"@ + t + "/"@ + t + "_"@ + map_suffix(t, map)
        + "_2k.jpg"@
}

/// Where a library photo texture's 2K map is published (Poly Haven, CC0). None for
/// procedural textures and for ids the library doesn't use.
pub fn texture_url(texture: &str, map: TextureMap) -> (r: Option<String>)
    ensures
        match r {
            Some(u) => photo_texture(texture@) && u@ == texture_address(texture@, map),
            None => !photo_texture(texture@),
        },
{
    let tc = chars_of(texture);
    let pc = chars_of("proc:");
    let mut procedural = false;
    if pc.len() <= tc.len() {
        let mut head: Vec<char> = Vec::new();
        let mut i: usize = 0;
        while i < pc.len()
            invariant
                i <= pc.len(),
                pc.len() <= tc.len(),
                head@ == tc@.subrange(0, i as int),
            decreases pc.len() - i,
        {
            head.push(tc[i]);
            assert(tc@.subrange(0, i + 1) =~= tc@.subrange(0, i as int).push(tc@[i as int]));
            i += 1;
        }
        procedural = same_chars(&head, &pc);
    }
    assert(procedural == starts_with(texture@, "proc:"@));
    let mut plain = true;
    let mut i: usize = 0;
    while i < tc.len()
        invariant
            i <= tc.len(),
            tc@ == texture@,
            plain == (forall|j: int| 0 <= j < i ==> is_alnum(#[trigger] tc@[j]) || tc@[j] == '_'),
        decreases tc.len() - i,
    {
        if !(alnum(tc[i]) || tc[i] == '_') {
            plain = false;
        }
        i += 1;
    }
    if !used(texture) || procedural || !plain {
        return None;
    }
    let suffix = match map {
        TextureMap::Color => if same(texture, "brown_leather") {
            "albedo"
        } else {
            "diff"
        },
        TextureMap::Normal => "nor_gl",
        TextureMap::Roughness => "rough",
    };
    let mut u: Vec<char> = Vec::new();
    append(&mut u, "https://dl.polyhaven.org/file/ph-assets/Textures/jpg/2k/");
    append(&mut u, texture);
    append(&mut u, "/");
    append(&mut u, texture);
    append(&mut u, "_");
    append(&mut u, suffix);
    append(&mut u, "_2k.jpg");
    Some(string_of(&u))
}

} // verus!
