use studio_core::crate_version;
use studio_core::element::{
    Category, CutPattern, DoorFamily, ElementId, LayerFunction, LocationLine, MarkStyle, SheetSize, StairShape,
    WallFunction,
};

#[test]
fn crate_version_is_set() {
    assert!(!crate_version().is_empty());
}

#[test]
fn category_names() {
    assert_eq!(Category::Level.as_str(), "Level");
    assert_eq!(Category::ElevationMarkerType.as_str(), "ElevationMarkerType");
    assert_eq!(Category::Site.as_str(), "Site");
    assert_eq!(Category::WallType.as_str(), format!("{:?}", Category::WallType));
}

#[test]
fn ids_are_fresh_and_time_ordered() {
    let a = ElementId::new();
    let b = ElementId::new();
    assert_ne!(a, b);
    assert!(a < b);
}

#[test]
fn layer_functions_parse_by_label_or_name() {
    assert_eq!(LayerFunction::AirGap.label(), "Air Gap");
    assert_eq!(LayerFunction::parse("Air Gap"), Some(LayerFunction::AirGap));
    assert_eq!(LayerFunction::parse("AirGap"), Some(LayerFunction::AirGap));
    assert_eq!(LayerFunction::parse("air gap"), None);
    for f in LayerFunction::all() {
        assert_eq!(LayerFunction::parse(f.label()), Some(f));
        assert_eq!(LayerFunction::parse(&format!("{f:?}")), Some(f));
    }
    assert_eq!(LayerFunction::all().len(), 6);
}

#[test]
fn cut_patterns_parse_by_label_or_name() {
    assert_eq!(CutPattern::default(), CutPattern::Unhatched);
    assert_eq!(CutPattern::Unhatched.label(), "None");
    assert_eq!(CutPattern::parse("None"), Some(CutPattern::Unhatched));
    assert_eq!(CutPattern::parse("Batt Insulation"), Some(CutPattern::Insulation));
    assert_eq!(CutPattern::parse("Insulation"), Some(CutPattern::Insulation));
    assert_eq!(CutPattern::parse("Wood Framing"), Some(CutPattern::Wood));
    assert_eq!(CutPattern::parse("Solid Fill"), Some(CutPattern::Solid));
    assert_eq!(CutPattern::parse("Hatch"), None);
    for c in CutPattern::all() {
        assert_eq!(CutPattern::parse(c.label()), Some(c));
    }
}

#[test]
fn location_lines_parse_by_label_or_name() {
    assert_eq!(LocationLine::default(), LocationLine::Centerline);
    assert_eq!(LocationLine::parse("Finish Face: Exterior"), Some(LocationLine::FinishExterior));
    assert_eq!(LocationLine::parse("CoreInterior"), Some(LocationLine::CoreInterior));
    assert_eq!(LocationLine::parse("Centre"), None);
    for l in LocationLine::all() {
        assert_eq!(LocationLine::parse(l.label()), Some(l));
        assert_eq!(LocationLine::parse(&format!("{l:?}")), Some(l));
    }
}

#[test]
fn small_enumerations() {
    assert_eq!(MarkStyle::default(), MarkStyle::CircleArrow);
    assert_eq!(MarkStyle::Diamond.label(), "Diamond - Filled Corners");
    assert_eq!(MarkStyle::all().len(), 3);
    assert_eq!(SheetSize::ArchD.label(), "ARCH D 36\" x 24\"");
    assert_eq!(SheetSize::Tabloid.label(), "Tabloid 17\" x 11\"");
    assert_eq!(StairShape::default(), StairShape::Straight);
    assert_ne!(StairShape::LShaped { left: true }, StairShape::LShaped { left: false });
    assert_ne!(WallFunction::Exterior, WallFunction::Interior);
    assert_ne!(DoorFamily::Barn, DoorFamily::Pocket);
}

#[test]
fn ids_are_written_as_big_endian_bytes() {
    let id = ElementId(0x0102_0304_0506_0708_090a_0b0c_0d0e_0f10);
    assert_eq!(id.as_bytes(), [1, 2, 3, 4, 5, 6, 7, 8, 9, 10, 11, 12, 13, 14, 15, 16]);
    assert_eq!(ElementId::from_bytes(id.as_bytes()), id);
    let fresh = ElementId::new();
    assert_eq!(ElementId::from_bytes(fresh.as_bytes()), fresh);
    let b = [0xff, 0, 0, 0, 0, 0, 0, 0, 0, 0, 0, 0, 0, 0, 0, 0x01];
    assert_eq!(ElementId::from_bytes(b).0, (0xff << 120) | 1);
    assert_eq!(ElementId::from_bytes(b).as_bytes(), b);
}

#[test]
fn new_ids_carry_the_version_and_variant_bits() {
    for _ in 0..64 {
        let id = ElementId::new();
        assert_eq!((id.0 >> 76) & 0xf, 7);
        assert_eq!((id.0 >> 62) & 0x3, 2);
        let bytes = id.as_bytes();
        assert_eq!(bytes[6] >> 4, 7);
        assert_eq!(bytes[8] >> 6, 2);
    }
}

#[test]
fn ids_are_written_and_read_as_hyphenated_text() {
    let id = ElementId(0x0192_3c4d_5e6f_7a8b_9cad_bec0_d1e2_f304);
    assert_eq!(id.to_string(), "01923c4d-5e6f-7a8b-9cad-bec0d1e2f304");
    assert_eq!(ElementId(0).to_string(), "00000000-0000-0000-0000-000000000000");
    assert_eq!(ElementId(u128::MAX).to_string(), "ffffffff-ffff-ffff-ffff-ffffffffffff");
    assert_eq!(ElementId::from_str("01923c4d-5e6f-7a8b-9cad-bec0d1e2f304").unwrap(), id);
    let fresh = ElementId::new();
    assert_eq!(ElementId::from_str(&fresh.to_string()).unwrap(), fresh);
    // The uuid crate also reads upper-case digits and the form without hyphens.
    assert_eq!(ElementId::from_str("01923C4D-5E6F-7A8B-9CAD-BEC0D1E2F304").unwrap(), id);
    assert_eq!(ElementId::from_str("01923c4d5e6f7a8b9cadbec0d1e2f304").unwrap(), id);
}

#[test]
fn text_that_names_no_id_is_refused() {
    assert!(ElementId::from_str("level 1").is_err());
    assert!(ElementId::from_str("").is_err());
    assert!(ElementId::from_str("01923c4d-5e6f-7a8b-9cad-bec0d1e2f30g").is_err());
}
