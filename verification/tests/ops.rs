use std::cmp::Ordering;

use studio_core::document::CoreError;
use studio_core::element::Category;
use studio_core::natural::natural_cmp;
use studio_core::ops::{
    category_label, choice, flag, grid_name_overflows, mark_overflows, next_grid_name, next_sheet_number, non_empty, p, parse_id,
    param_categories, ro, scale_label, scales, sheet_number_overflows, text, yes_no, yes_no_options, PropKind, PropOption,
};

#[test]
fn numbers_sort_by_value() {
    let mut v = vec![
        "Exterior - 12\" CMU",
        "Exterior - 8\" Stud",
        "Interior - 6\" Stud",
        "Interior - 4 7/8\" Partition",
    ];
    v.sort_by(|a, b| natural_cmp(a, b));
    assert_eq!(
        v,
        [
            "Exterior - 8\" Stud",
            "Exterior - 12\" CMU",
            "Interior - 4 7/8\" Partition",
            "Interior - 6\" Stud"
        ]
    );
    let mut l = vec!["Level 10", "Level 2", "Level 1"];
    l.sort_by(|a, b| natural_cmp(a, b));
    assert_eq!(l, ["Level 1", "Level 2", "Level 10"]);
}

#[test]
fn natural_order_details() {
    assert_eq!(natural_cmp("Level 2", "level 2"), Ordering::Equal);
    assert_eq!(natural_cmp("Level 02", "Level 2"), Ordering::Equal);
    assert_eq!(natural_cmp("A1.5", "A1.25"), Ordering::Greater);
    assert_eq!(natural_cmp("A1.50", "A1.5"), Ordering::Equal);
    assert_eq!(natural_cmp("12.", "12"), Ordering::Equal);
    // A name without a final number sorts before the same name with one.
    assert_eq!(natural_cmp("Level", "Level 0"), Ordering::Less);
    // An unreadable number inside a name counts as 0, at its end as -1.
    assert_eq!(natural_cmp("v1.2.3 x", "v0 x"), Ordering::Equal);
    assert_eq!(natural_cmp("v1.2.3", "v"), Ordering::Equal);
    assert_eq!(natural_cmp("a", "b"), Ordering::Less);
    assert_eq!(natural_cmp("b", "a"), Ordering::Greater);
    assert_eq!(natural_cmp("", ""), Ordering::Equal);
    assert_eq!(natural_cmp("x9", "x10"), Ordering::Less);
}

#[test]
fn natural_order_is_a_total_order_on_examples() {
    let names = ["Level 1", "Level 10", "level 2", "A1.5", "A1.25", "", "Wall", "Wall 3 x", "Wall 3"];
    for a in names {
        assert_eq!(natural_cmp(a, a), Ordering::Equal);
        for b in names {
            assert_eq!(natural_cmp(b, a), natural_cmp(a, b).reverse());
            for c in names {
                if natural_cmp(a, b) != Ordering::Greater && natural_cmp(b, c) != Ordering::Greater {
                    assert_ne!(natural_cmp(a, c), Ordering::Greater);
                }
            }
        }
    }
}

#[test]
fn grid_names_increment() {
    assert_eq!(next_grid_name(None), "1");
    assert_eq!(next_grid_name(Some("9")), "10");
    assert_eq!(next_grid_name(Some("A")), "B");
    assert_eq!(next_grid_name(Some("Z")), "AA");
    assert_eq!(next_grid_name(Some("AZ")), "BA");
    assert_eq!(next_grid_name(Some("A1")), "A2");
}

#[test]
fn grid_name_edge_cases() {
    assert_eq!(next_grid_name(Some("+5")), "6");
    assert_eq!(next_grid_name(Some("007")), "8");
    assert_eq!(next_grid_name(Some("A09")), "A10");
    assert_eq!(next_grid_name(Some("ZZ")), "AAA");
    assert_eq!(next_grid_name(Some("a")), "a1");
    assert_eq!(next_grid_name(Some("")), "1");
    assert_eq!(next_grid_name(Some("A-")), "A-1");
    // Too long to read as a number: the trailing number counts as 0.
    assert_eq!(next_grid_name(Some("99999999999999999999")), "1");
    assert_eq!(next_grid_name(Some("18446744073709551614")), "18446744073709551615");
}

#[test]
fn sheet_numbers_increment_and_views_place_once() {
    assert_eq!(next_sheet_number(None), "A1.0");
    assert_eq!(next_sheet_number(Some("A1.0")), "A2.0");
    assert_eq!(next_sheet_number(Some("A9.0")), "A10.0");
    assert_eq!(next_sheet_number(Some("A101")), "A102");
}

#[test]
fn sheet_number_edge_cases() {
    assert_eq!(next_sheet_number(Some("A1.2.3")), "A2.2.3");
    assert_eq!(next_sheet_number(Some("A.1")), "A.2");
    assert_eq!(next_sheet_number(Some("S-201.5")), "S-202.5");
    assert_eq!(next_sheet_number(Some("A99999999999.0")), "A1.0");
}

#[test]
fn scales_have_labels() {
    assert_eq!(scale_label(48), "1/4\" = 1'-0\"");
    assert_eq!(scale_label(96), "1/8\" = 1'-0\"");
    assert_eq!(scale_label(120), "1\" = 10'-0\"");
    assert_eq!(scale_label(100), "1 : 100");
    assert_eq!(scale_label(0), "1 : 0");
    assert_eq!(scales().len(), 15);
    for (d, l) in scales() {
        assert_eq!(scale_label(d), l);
    }
}

#[test]
fn categories_have_plural_labels() {
    assert_eq!(category_label(Category::Wall), "Walls");
    assert_eq!(category_label(Category::Level), "Levels");
    assert_eq!(category_label(Category::RoomSeparator), "RoomSeparator");
    assert_eq!(param_categories().len(), 9);
    assert_eq!(param_categories()[8], Category::Sheet);
}

fn ids(o: &[PropOption]) -> Vec<(&str, &str)> {
    o.iter().map(|o| (o.id.as_str(), o.label.as_str())).collect()
}

#[test]
fn property_rows() {
    let r = p("k", "Key", "Group", "v".into(), PropKind::Length);
    assert_eq!((r.key.as_str(), r.label.as_str(), r.group.as_str(), r.value.as_str()), ("k", "Key", "Group", "v"));
    assert_eq!(r.kind, PropKind::Length);
    assert!(r.options.is_empty());
    assert_eq!(text("n", "Name", "Identity", "Wall").kind, PropKind::Text);
    assert_eq!(ro("a", "Area", "Dims", "12 SF".into()).kind, PropKind::ReadOnly);
    let c = choice("c", "C", "G", "b".into(), yes_no_options());
    assert_eq!((c.kind, c.value.as_str()), (PropKind::Choice, "b"));
    assert_eq!(yes_no(true), "yes");
    assert_eq!(yes_no(false), "no");
    assert_eq!(ids(&yes_no_options()), [("no", "No"), ("yes", "Yes")]);
    let f = flag("pinned", "Pinned", "Other", true);
    assert_eq!((f.kind, f.value.as_str()), (PropKind::Choice, "yes"));
    assert_eq!(ids(&f.options), [("no", "No"), ("yes", "Yes")]);
}

#[test]
fn names_are_trimmed_and_must_not_be_empty() {
    assert_eq!(non_empty("  Lobby ").unwrap(), "Lobby");
    assert!(matches!(non_empty(" \t "), Err(CoreError::Invalid(m)) if m == "name can't be empty"));
}

#[test]
fn names_without_a_successor_are_recognised() {
    assert!(grid_name_overflows("18446744073709551615"));
    assert!(grid_name_overflows("+18446744073709551615"));
    assert!(grid_name_overflows("A18446744073709551615"));
    assert!(!grid_name_overflows("A1"));
    assert!(!grid_name_overflows("99999999999999999999"));
    assert!(!grid_name_overflows("ZZ"));
    assert!(sheet_number_overflows("A4294967295.0"));
    assert!(!sheet_number_overflows("A4294967294.0"));
    assert!(!sheet_number_overflows("A1.0"));
    assert!(sheet_number_overflows("18446744073709551615"));
    assert_eq!(next_sheet_number(Some("A4294967294.0")), "A4294967295.0");
    let marks = |v: &[&str]| v.iter().map(|s| s.to_string()).collect::<Vec<String>>();
    assert!(mark_overflows(&marks(&["4294967295"])));
    assert!(!mark_overflows(&marks(&["1", "4294967296"])));
}

#[test]
fn names_made_only_of_white_space_are_refused() {
    assert!(matches!(non_empty("\u{3000}\u{a0}\n"), Err(CoreError::Invalid(m)) if m == "name can't be empty"));
    assert!(matches!(non_empty(""), Err(CoreError::Invalid(m)) if m == "name can't be empty"));
    assert_eq!(non_empty("\u{2003}Hall\u{85}B\u{2029}").unwrap(), "Hall\u{85}B");
    // Characters outside Unicode's White_Space set are kept.
    assert_eq!(non_empty("\u{200b}x").unwrap(), "\u{200b}x");
}

#[test]
fn property_values_that_name_no_id_are_refused_with_their_quote() {
    assert!(matches!(parse_id("level 1"), Err(CoreError::Invalid(m)) if m == "\"level 1\" is not an element id"));
    assert!(matches!(parse_id(""), Err(CoreError::Invalid(m)) if m == "\"\" is not an element id"));
    let id = parse_id("01923c4d-5e6f-7a8b-9cad-bec0d1e2f304").unwrap();
    assert_eq!(id.0, 0x0192_3c4d_5e6f_7a8b_9cad_bec0_d1e2_f304);
}
