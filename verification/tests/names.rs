use studio_core::document::CoreError;
use studio_core::names::{next_name, unique_name};
use studio_core::ops::{date, next_mark};

fn strings(v: &[&str]) -> Vec<String> {
    v.iter().map(|s| s.to_string()).collect()
}

#[test]
fn unique_names_count_from_two() {
    assert_eq!(unique_name(&strings(&[]), "Brick"), "Brick");
    assert_eq!(unique_name(&strings(&["Concrete"]), "Brick"), "Brick");
    assert_eq!(unique_name(&strings(&["Brick"]), "Brick"), "Brick 2");
    assert_eq!(unique_name(&strings(&["Brick", "Brick 2", "Brick 4"]), "Brick"), "Brick 3");
    assert_eq!(unique_name(&strings(&["Brick 2", "Brick", "Brick 3"]), "Brick"), "Brick 4");
}

#[test]
fn camera_views_are_numbered_from_one() {
    assert_eq!(next_name(&strings(&[])), "3D View 1");
    assert_eq!(next_name(&strings(&["3D View 1", "Level 1"])), "3D View 2");
    assert_eq!(next_name(&strings(&["3D View 2"])), "3D View 1");
    assert_eq!(next_name(&strings(&["3D View 1", "3D View 3", "3D View 2"])), "3D View 4");
}

#[test]
fn marks_follow_the_largest_number() {
    assert_eq!(next_mark(&strings(&[])), "1");
    assert_eq!(next_mark(&strings(&["1", "7", "3"])), "8");
    assert_eq!(next_mark(&strings(&["A", "", "2b", "+4"])), "5");
    assert_eq!(next_mark(&strings(&["9999999999", "12"])), "13");
}

#[test]
fn dates_are_empty_or_iso() {
    assert_eq!(date(" 2024-03-01 ").unwrap(), "2024-03-01");
    assert_eq!(date("").unwrap(), "");
    assert_eq!(date("   ").unwrap(), "");
    for bad in ["2024-3-01", "2024/03/01", "20240301", "2024-03-1x", "abcd-ef-gh"] {
        assert!(matches!(date(bad), Err(CoreError::Invalid(m)) if m == "dates are YYYY-MM-DD"), "{bad}");
    }
}
