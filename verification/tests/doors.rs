use studio_core::document::CoreError;
use studio_core::doors::{
    families, info, load_label, load_picks, type_name_of, DoorFinish, DoorOp, DoorStyle, LeafStyle, LoadPick,
};
use studio_core::element::ElementId;
use studio_core::element::DoorFamily as F;

const FAMILIES: [F; 10] = [
    F::SingleFlush,
    F::DoubleFlush,
    F::Sidelites,
    F::SlidingGlass,
    F::Pocket,
    F::Barn,
    F::Bifold,
    F::FoldingWall,
    F::Storefront,
    F::Garage,
];

#[test]
fn old_types_keep_their_look_and_names() {
    let s = DoorStyle::new(F::SingleFlush);
    assert_eq!((s.leaf, s.panels, s.finish), (LeafStyle::Flush, 1, DoorFinish::PaintedWhite));
    assert_eq!(type_name_of(s, "36\" x 84\""), "Single Flush 36\" x 84\"");
    assert_eq!(type_name_of(DoorStyle::new(F::DoubleFlush), "72\" x 84\""), "Double Flush 72\" x 84\"");
}

#[test]
fn styles_keep_to_what_the_family_takes() {
    // A leaf the family doesn't come in falls back to its first.
    let s = DoorStyle::resolve(F::Barn, LeafStyle::SixPanel, 0, None);
    assert_eq!((s.leaf, s.panels, s.finish), (LeafStyle::BarnX, 1, DoorFinish::StainedOak));
    // Glass families have no leaf choice.
    assert_eq!(DoorStyle::resolve(F::SlidingGlass, LeafStyle::Shaker, 3, None).leaf, LeafStyle::FullLite);
    // Panel counts are clamped; 0 takes the default.
    assert_eq!(DoorStyle::resolve(F::FoldingWall, LeafStyle::Flush, 0, None).panels, 4);
    assert_eq!(DoorStyle::resolve(F::FoldingWall, LeafStyle::Flush, 1, None).panels, 3);
    assert_eq!(DoorStyle::resolve(F::FoldingWall, LeafStyle::Flush, 20, None).panels, 8);
    assert_eq!(DoorStyle::resolve(F::Garage, LeafStyle::Flush, 5, None).panels, 1);
    let black = DoorStyle::resolve(F::SingleFlush, LeafStyle::FullLite, 0, Some(DoorFinish::PaintedBlack));
    assert_eq!((black.leaf, black.finish), (LeafStyle::FullLite, DoorFinish::PaintedBlack));
}

#[test]
fn resolving_twice_changes_nothing() {
    for f in FAMILIES {
        for l in LeafStyle::all() {
            for p in [0, 1, 2, 3, 5, 9] {
                let s = DoorStyle::resolve(f, l, p, None);
                assert_eq!(DoorStyle::resolve(s.family, s.leaf, s.panels, Some(s.finish)), s);
            }
        }
    }
}

#[test]
fn families_describe_themselves() {
    for f in FAMILIES {
        let i = info(f);
        assert_eq!(i.family, f);
        assert!(!i.label.is_empty() && !i.description.is_empty());
        if let Some((lo, hi, d)) = i.panels {
            assert!(lo <= d && d <= hi);
            assert!(!i.panels_label.is_empty());
        }
    }
    assert_eq!(info(F::Sidelites).label, "Entry with Sidelites");
    assert_eq!(info(F::Sidelites).panels, Some((1, 2, 2)));
    assert_eq!(info(F::Storefront).default_finish, DoorFinish::Aluminum);
    assert!(info(F::Garage).leaves.is_empty());
    assert_eq!(info(F::SingleFlush).leaves.len(), 10);
}

#[test]
fn leaves_and_finishes() {
    assert_eq!(LeafStyle::FifteenLite.label(), "15-Lite French");
    assert!(LeafStyle::Craftsman.glazed());
    assert!(!LeafStyle::SixPanel.glazed());
    assert_eq!(LeafStyle::all().iter().filter(|l| l.glazed()).count(), 5);
    assert_eq!(LeafStyle::default(), LeafStyle::Flush);
    assert_eq!(DoorFinish::Aluminum.label(), "Clear Aluminum");
    assert_eq!(DoorFinish::PaintedWhite.color(), [238, 238, 234]);
    assert_eq!(DoorFinish::Bronze.color(), [74, 60, 48]);
    assert_eq!(DoorFinish::all().len(), 7);
    assert_ne!(DoorOp::Swing { hinge_left: true }, DoorOp::Swing { hinge_left: false });
}

#[test]
fn the_family_list_follows_the_menu_order() {
    let all = families();
    assert_eq!(all.len(), FAMILIES.len());
    for (i, f) in all.iter().zip(FAMILIES) {
        assert_eq!(i.family, f);
        assert_eq!(i.label, info(f).label);
    }
    assert_eq!(all[0].label, "Single Swing");
    assert_eq!(all[9].label, "Garage (Sectional Overhead)");
}

#[test]
fn names_and_catalog() {
    let n = |f, l, p, size: &str| type_name_of(DoorStyle::resolve(f, l, p, None), size);
    assert_eq!(n(F::SingleFlush, LeafStyle::SixPanel, 0, "32\" x 80\""), "Single Six-Panel 32\" x 80\"");
    assert_eq!(
        n(F::DoubleFlush, LeafStyle::FifteenLite, 0, "60\" x 80\""),
        "Double 15-Lite French 60\" x 80\""
    );
    assert_eq!(
        n(F::Sidelites, LeafStyle::Craftsman, 2, "64\" x 80\""),
        "Entry Craftsman w/ 2 Sidelites 64\" x 80\""
    );
    assert_eq!(
        n(F::Sidelites, LeafStyle::Craftsman, 1, "52\" x 80\""),
        "Entry Craftsman w/ 1 Sidelite 52\" x 80\""
    );
    assert_eq!(
        n(F::SlidingGlass, LeafStyle::Flush, 4, "144\" x 80\""),
        "Sliding Glass 4-Panel 144\" x 80\""
    );
    assert_eq!(n(F::SlidingGlass, LeafStyle::Flush, 0, "72\" x 80\""), "Sliding Glass 72\" x 80\"");
    assert_eq!(
        n(F::Garage, LeafStyle::Flush, 0, "16'-0\" x 7'-0\""),
        "Garage Sectional 16'-0\" x 7'-0\""
    );
    assert_eq!(n(F::Storefront, LeafStyle::Flush, 2, "72\" x 84\""), "Storefront Pair 72\" x 84\"");
    assert_eq!(n(F::Barn, LeafStyle::BarnX, 2, "72\" x 84\""), "Double Barn X-Brace 72\" x 84\"");
    assert_eq!(n(F::Bifold, LeafStyle::Louvered, 4, "48\" x 80\""), "Bifold 4-Panel Louvered 48\" x 80\"");
    assert_eq!(n(F::FoldingWall, LeafStyle::Flush, 0, "144\" x 96\""), "Folding Glass Wall 4-Panel 144\" x 96\"");
    let black = DoorStyle::resolve(F::SingleFlush, LeafStyle::FullLite, 0, Some(DoorFinish::PaintedBlack));
    assert_eq!(
        type_name_of(black, "36\" x 80\""),
        "Single Full Lite 36\" x 80\" - Painted Black"
    );
    assert_eq!(type_name_of(DoorStyle::new(F::SingleFlush), "36\" x 84\""), "Single Flush 36\" x 84\"");
    assert_eq!(type_name_of(DoorStyle::new(F::DoubleFlush), "72\" x 84\""), "Double Flush 72\" x 84\"");
}

#[test]
fn loading_names_its_undo_step() {
    assert!(matches!(load_label(&vec![]), Err(CoreError::Invalid(m)) if m == "choose a door size to load"));
    assert_eq!(load_label(&vec!["Single Flush 36\" x 80\"".to_string()]).unwrap(), "Load Single Flush 36\" x 80\"");
    let many: Vec<String> = (0..12).map(|i| format!("T{i}")).collect();
    assert_eq!(load_label(&many).unwrap(), "Load 12 door types");
    assert_eq!(load_label(&many[..2].to_vec()).unwrap(), "Load 2 door types");
}

#[test]
fn loading_reuses_types_by_name() {
    let a = ElementId(10);
    let b = ElementId(20);
    let c = ElementId(30);
    let existing = vec![(a, "A".to_string()), (b, "B".to_string()), (c, "B".to_string())];
    let names: Vec<String> = ["B", "C", "A", "C", "D", "C"].iter().map(|s| s.to_string()).collect();
    assert_eq!(
        load_picks(&names, &existing),
        vec![
            LoadPick::Reuse(b),
            LoadPick::Insert,
            LoadPick::Reuse(a),
            LoadPick::SameAs(1),
            LoadPick::Insert,
            LoadPick::SameAs(1),
        ]
    );
    assert_eq!(load_picks(&vec![], &existing), vec![]);
    assert_eq!(load_picks(&names[..1].to_vec(), &vec![]), vec![LoadPick::Insert]);
}
