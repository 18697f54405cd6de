use studio_core::element::{Category, ElementId};
use studio_core::visibility::{hidden_in, hide_elements, set_category_visible};

#[test]
fn hiding_elements_lists_each_once() {
    let a = ElementId(1);
    let b = ElementId(2);
    let c = ElementId(3);
    let mut hidden = vec![b];
    hide_elements(&mut hidden, &vec![a, b, a, c]);
    assert_eq!(hidden, [b, a, c]);
    assert!(hidden_in(&hidden, &vec![], a, Some(Category::Wall)));
    assert!(!hidden_in(&hidden, &vec![], ElementId(4), Some(Category::Wall)));
    hidden.clear();
    assert!(!hidden_in(&hidden, &vec![], a, None));
}

#[test]
fn hiding_and_showing_categories() {
    let mut cats = vec![Category::Door, Category::Wall];
    set_category_visible(&mut cats, &vec![Category::Wall, Category::Room], false);
    assert_eq!(cats, [Category::Door, Category::Wall, Category::Room]);
    assert!(hidden_in(&vec![], &cats, ElementId(9), Some(Category::Room)));
    assert!(!hidden_in(&vec![], &cats, ElementId(9), Some(Category::Floor)));
    assert!(!hidden_in(&vec![], &cats, ElementId(9), None));
    set_category_visible(&mut cats, &vec![Category::Door, Category::Stair], true);
    assert_eq!(cats, [Category::Wall, Category::Room]);
}

#[test]
fn hide_elements_and_categories_in_a_view() {
    let a = ElementId(10);
    let b = ElementId(11);
    let cat = |id: ElementId| if id == a || id == b { Some(Category::Wall) } else { None };
    let mut hidden: Vec<ElementId> = vec![];
    let mut hidden_categories: Vec<Category> = vec![];
    hide_elements(&mut hidden, &vec![a]);
    assert!(hidden_in(&hidden, &hidden_categories, a, cat(a)) && !hidden_in(&hidden, &hidden_categories, b, cat(b)));
    set_category_visible(&mut hidden_categories, &vec![Category::Wall], false);
    assert!(hidden_in(&hidden, &hidden_categories, b, cat(b)));
    hidden.clear();
    hidden_categories.clear();
    assert!(!hidden_in(&hidden, &hidden_categories, a, cat(a)) && !hidden_in(&hidden, &hidden_categories, b, cat(b)));
}
