//! What a view hides: elements hidden one by one and categories hidden as a whole.

use vstd::prelude::*;

use crate::element::{Category, ElementId};

verus! {

/// The hidden list after hiding each of `ids` in turn: an id not yet hidden is added at the
/// end.
pub open spec fn hidden_after(h: Seq<ElementId>, ids: Seq<ElementId>) -> Seq<ElementId>
    decreases ids.len(),
{
    if ids.len() == 0 {
        h
    } else {
        let prev = hidden_after(h, ids.drop_last());
        if prev.contains(ids.last()) {
            prev
        } else {
            prev.push(ids.last())
        }
    }
}

fn has_id(v: &Vec<ElementId>, x: ElementId) -> (r: bool)
    ensures
        r == v@.contains(x),
{
    let mut i: usize = 0;
    while i < v.len()
        invariant
            i <= v.len(),
            forall|j: int| 0 <= j < i ==> v@[j] != x,
        decreases v.len() - i,
    {
        if v[i] == x {
            assert(v@[i as int] == x);
            return true;
        }
        i += 1;
    }
    false
}

/// Hides elements `ids` in a view whose hidden list is `hidden` (Hide in View > Elements).
pub fn hide_elements(hidden: &mut Vec<ElementId>, ids: &Vec<ElementId>)
    ensures
        final(hidden)@ == hidden_after(old(hidden)@, ids@),
{
    let ghost h0 = hidden@;
    let mut i: usize = 0;
    while i < ids.len()
        invariant
            i <= ids.len(),
            hidden@ == hidden_after(h0, ids@.take(i as int)),
        decreases ids.len() - i,
    {
        assert(ids@.take(i + 1).drop_last() =~= ids@.take(i as int));
        assert(ids@.take(i + 1).last() == ids@[i as int]);
        if !has_id(hidden, ids[i]) {
            hidden.push(ids[i]);
        }
        i += 1;
    }
    assert(ids@.take(ids.len() as int) =~= ids@);
}

/// `h` without `c`.
pub open spec fn without(h: Seq<Category>, c: Category) -> Seq<Category>
    decreases h.len(),
{
    if h.len() == 0 {
        h
    } else if h.last() == c {
        without(h.drop_last(), c)
    } else {
        without(h.drop_last(), c).push(h.last())
    }
}

/// The hidden categories after showing (`visible`) or hiding each of `cats` in turn: each
/// is taken out, and put back at the end when hidden.
pub open spec fn categories_after(h: Seq<Category>, cats: Seq<Category>, visible: bool) -> Seq<Category>
    decreases cats.len(),
{
    if cats.len() == 0 {
        h
    } else {
        let prev = without(categories_after(h, cats.drop_last(), visible), cats.last());
        if visible {
            prev
        } else {
            prev.push(cats.last())
        }
    }
}

fn remove_category(h: &Vec<Category>, c: Category) -> (r: Vec<Category>)
    ensures
        r@ == without(h@, c),
{
    let mut r: Vec<Category> = Vec::new();
    let mut i: usize = 0;
    while i < h.len()
        invariant
            i <= h.len(),
            r@ == without(h@.take(i as int), c),
        decreases h.len() - i,
    {
        assert(h@.take(i + 1).drop_last() =~= h@.take(i as int));
        assert(h@.take(i + 1).last() == h@[i as int]);
        if h[i] != c {
            r.push(h[i]);
        }
        i += 1;
    }
    assert(h@.take(h.len() as int) =~= h@);
    r
}

/// Hides categories `cats` in a view whose hidden categories are `hidden` (Hide in View >
/// Category), or shows them again.
pub fn set_category_visible(hidden: &mut Vec<Category>, cats: &Vec<Category>, visible: bool)
    ensures
        final(hidden)@ == categories_after(old(hidden)@, cats@, visible),
{
    let ghost h0 = hidden@;
    let mut i: usize = 0;
    while i < cats.len()
        invariant
            i <= cats.len(),
            hidden@ == categories_after(h0, cats@.take(i as int), visible),
        decreases cats.len() - i,
    {
        assert(cats@.take(i + 1).drop_last() =~= cats@.take(i as int));
        assert(cats@.take(i + 1).last() == cats@[i as int]);
        let mut kept = remove_category(hidden, cats[i]);
        if !visible {
            kept.push(cats[i]);
        }
        *hidden = kept;
        i += 1;
    }
    assert(cats@.take(cats.len() as int) =~= cats@);
}

/// Whether a view hides element `el` of category `cat` (`None` when there is no such
/// element): the element itself, or its category, is hidden.
pub fn hidden_in(hidden: &Vec<ElementId>, hidden_categories: &Vec<Category>, el: ElementId, cat: Option<Category>) -> (r: bool)
    ensures
        r == (hidden@.contains(el) || (cat matches Some(c) && hidden_categories@.contains(c))),
{
    if has_id(hidden, el) {
        return true;
    }
    if hidden_categories.len() == 0 {
        return false;
    }
    match cat {
        Some(c) => {
            let mut i: usize = 0;
            while i < hidden_categories.len()
                invariant
                    i <= hidden_categories.len(),
                    cat == Some(c),
                    forall|j: int| 0 <= j < i ==> hidden_categories@[j] != c,
                decreases hidden_categories.len() - i,
            {
                if hidden_categories[i] == c {
                    assert(hidden_categories@[i as int] == c);
                    assert(hidden_categories@.contains(c));
                    return true;
                }
                i += 1;
            }
            false
        },
        None => false,
    }
}

/// Hiding elements never lists an element twice.
pub proof fn lemma_hidden_once(h: Seq<ElementId>, ids: Seq<ElementId>)
    requires
        h.no_duplicates(),
    ensures
        hidden_after(h, ids).no_duplicates(),
        forall|i: int| 0 <= i < ids.len() ==> hidden_after(h, ids).contains(#[trigger] ids[i]),
    decreases ids.len(),
{
    if ids.len() > 0 {
        lemma_hidden_once(h, ids.drop_last());
        let prev = hidden_after(h, ids.drop_last());
        assert forall|i: int| 0 <= i < ids.len() implies hidden_after(h, ids).contains(#[trigger] ids[i]) by {
            if i < ids.len() - 1 {
                assert(ids[i] == ids.drop_last()[i]);
                assert(prev.contains(ids.drop_last()[i]));
                if !prev.contains(ids.last()) {
                    let k = choose|k: int| 0 <= k < prev.len() && prev[k] == ids[i];
                    assert(prev.push(ids.last())[k] == ids[i]);
                }
            } else {
                if !prev.contains(ids.last()) {
                    assert(prev.push(ids.last())[prev.len() as int] == ids.last());
                }
            }
        }
    }
}

} // verus!
