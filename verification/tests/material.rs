use studio_core::element::CutPattern;
use studio_core::material::{built_in_materials, cut_for_name, find_built_in, hex, material_for_lowercase, material_for_name};

#[test]
fn names_imply_materials() {
    assert_eq!(
        material_for_name("Wood Stud 2x6 with Batt Insulation"),
        Some("Batt Insulation")
    );
    assert_eq!(material_for_name("Metal Stud 3 5/8\""), Some("Metal Stud"));
    assert_eq!(material_for_name("Concrete Deck"), Some("Concrete"));
    assert_eq!(material_for_name("Steel W10x33"), Some("Structural Steel"));
    assert_eq!(material_for_name("Wood Post - 6x6"), Some("Wood Framing"));
    assert_eq!(material_for_name("Mystery"), None);
    assert_eq!(cut_for_name("CMU 8\""), CutPattern::Masonry);
}

#[test]
fn the_first_matching_rule_wins() {
    // "rigid" comes before "insulation".
    assert_eq!(material_for_lowercase("rigid insulation 2\""), Some("Rigid Insulation"));
    // Rules look at lower-case text only.
    assert_eq!(material_for_lowercase("Brick"), None);
    assert_eq!(material_for_lowercase("brick veneer"), Some("Brick"));
    assert_eq!(material_for_name("GYPSUM WALLBOARD"), Some("Gypsum Board"));
    assert_eq!(material_for_name("Air Gap"), Some("Air"));
    assert_eq!(material_for_name("Stair"), Some("Air"));
    assert_eq!(cut_for_name("Mystery"), CutPattern::Unhatched);
    assert_eq!(cut_for_name("Batt"), CutPattern::Insulation);
    assert_eq!(cut_for_name("Glulam Beam"), CutPattern::Wood);
    assert_eq!(cut_for_name("Stucco"), CutPattern::Unhatched);
}

#[test]
fn built_in_materials_are_listed_once_each() {
    let all = built_in_materials();
    assert_eq!(all.len(), 19);
    assert_eq!(all[0].name, "Concrete");
    assert_eq!(all[18].name, "Default");
    let cmu = find_built_in("Concrete Masonry Unit").unwrap();
    assert_eq!((cmu.cut, cmu.surface, cmu.color), (CutPattern::Masonry, "block", [176, 172, 164]));
    assert!(find_built_in("concrete").is_none());
    for b in &all {
        assert_eq!(find_built_in(b.name).unwrap().name, b.name);
    }
}

#[test]
fn colors_are_written_in_hex() {
    assert_eq!(hex([0xA0, 0x40, 0x30]), "#A04030");
    assert_eq!(hex([0, 9, 255]), "#0009FF");
}
