use studio_core::document::CoreError;
use studio_core::element::Category;
use studio_core::params::{add_def, defs_for, instance_category_of_type, key_for, remove_def, ParamDef, ParamKind, ParamScope};

#[test]
fn keys_from_labels() {
    assert_eq!(key_for("Fire Rating"), "fire_rating");
    assert_eq!(key_for("  STC (rated) "), "stc_rated");
    assert_eq!(ParamKind::parse("Yes/No"), Some(ParamKind::Bool));
}

#[test]
fn keys_join_words_once_and_drop_the_rest() {
    assert_eq!(key_for(""), "");
    assert_eq!(key_for("---"), "");
    assert_eq!(key_for("A  --  B"), "a_b");
    assert_eq!(key_for("Élan 2"), "lan_2");
    assert_eq!(key_for("R-Value (ft²)"), "r_value_ft");
    // A key is its own key.
    for label in ["Fire Rating", "  STC (rated) ", "A  --  B", "x_y__z_"] {
        let k = key_for(label);
        assert_eq!(key_for(&k), k);
    }
}

#[test]
fn kinds_parse_by_label_or_name() {
    for k in ParamKind::all() {
        assert_eq!(ParamKind::parse(k.label()), Some(k));
        assert_eq!(ParamKind::parse(&format!("{k:?}")), Some(k));
    }
    assert_eq!(ParamKind::parse("Bool"), Some(ParamKind::Bool));
    assert_eq!(ParamKind::parse("yes/no"), None);
    assert_eq!(
        ParamKind::all(),
        vec![
            ParamKind::Text,
            ParamKind::Length,
            ParamKind::Area,
            ParamKind::Angle,
            ParamKind::Number,
            ParamKind::Integer,
            ParamKind::Bool
        ]
    );
}

#[test]
fn type_categories_map_to_their_instances() {
    assert_eq!(instance_category_of_type(Category::WallType), Some(Category::Wall));
    assert_eq!(instance_category_of_type(Category::DoorType), Some(Category::Door));
    assert_eq!(instance_category_of_type(Category::WindowType), Some(Category::Window));
    assert_eq!(instance_category_of_type(Category::FloorType), Some(Category::Floor));
    assert_eq!(instance_category_of_type(Category::CeilingType), Some(Category::Ceiling));
    assert_eq!(instance_category_of_type(Category::RoofType), Some(Category::Roof));
    assert_eq!(instance_category_of_type(Category::Wall), None);
    assert_eq!(instance_category_of_type(Category::ColumnType), None);
}

fn keys(defs: &[ParamDef]) -> Vec<String> {
    defs.iter().map(|d| d.key.clone()).collect()
}

#[test]
fn project_parameters_are_added_once_and_apply_by_category() {
    let mut defs: Vec<ParamDef> = vec![];
    let key = add_def(&mut defs, "Fire Rating", ParamKind::Text, ParamScope::Instance, vec![Category::Door]).unwrap();
    assert_eq!(key, "fire_rating");
    assert_eq!(defs[0].label, "Fire Rating");
    let dup = add_def(&mut defs, "fire rating", ParamKind::Text, ParamScope::Instance, vec![Category::Door]);
    assert!(matches!(dup, Err(CoreError::Invalid(m)) if m == "a parameter named \"fire rating\" already exists"));
    assert_eq!(defs.len(), 1);
    assert!(matches!(
        add_def(&mut defs, "  ", ParamKind::Text, ParamScope::Instance, vec![Category::Door]),
        Err(CoreError::Invalid(m)) if m == "name the parameter"
    ));
    assert!(matches!(
        add_def(&mut defs, "Cost", ParamKind::Number, ParamScope::Instance, vec![]),
        Err(CoreError::Invalid(m)) if m == "pick at least one category"
    ));
    let stc = add_def(&mut defs, " STC ", ParamKind::Integer, ParamScope::Type, vec![Category::Wall]).unwrap();
    assert_eq!(stc, "stc");
    assert_eq!(defs[1].label, "STC");
    // Walls don't get door parameters; wall types get the type parameter.
    assert_eq!(keys(&defs_for(&defs, Category::Door)), ["fire_rating"]);
    assert!(defs_for(&defs, Category::Wall).is_empty());
    assert_eq!(keys(&defs_for(&defs, Category::WallType)), ["stc"]);
    assert!(defs_for(&defs, Category::DoorType).is_empty());
    remove_def(&mut defs, "fire_rating");
    assert_eq!(keys(&defs), ["stc"]);
    remove_def(&mut defs, "missing");
    assert_eq!(keys(&defs), ["stc"]);
}

#[test]
fn keys_are_their_own_keys() {
    for label in ["Fire Rating", "  STC (rated) ", "__a__b__", "R-Value (hr·ft²·°F/BTU)", "ÉCOLE 12", "", "---"] {
        let k = key_for(label);
        assert_eq!(key_for(&k), k);
        assert!(k.chars().all(|c| c.is_ascii_lowercase() || c.is_ascii_digit() || c == '_'));
        assert!(!k.starts_with('_') && !k.ends_with('_') && !k.contains("__"));
    }
    assert_eq!(key_for("R-Value (hr·ft²·°F/BTU)"), "r_value_hr_ft_f_btu");
}
