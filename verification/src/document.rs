//! The element store with transactions and undo/redo.
//!
//! A [`Document`] maps element ids to elements. Every change goes through a transaction
//! ([`Tx`]): it records the before-image of each element it touches, and on commit the
//! touched elements become one [`ChangeSet`] on the undo stack. A transaction that fails
//! validation, or that its caller abandons, leaves the document exactly as it was.
//!
//! The store is generic over what an element holds: `D` is the element's data and `P` a
//! project parameter value. What the store itself reads of an element — its category and
//! the elements it references — is kept beside the data in [`Body`].

use std::collections::{BTreeMap, BTreeSet};
use std::rc::Rc;

use vstd::prelude::*;

use crate::element::{Category, ElementId};
use vstd::std_specs::btree::increasing_seq;
use vstd::std_specs::iter::IteratorSpec;
use vstd::std_specs::cmp::OrdSpec;

verus! {

broadcast use {vstd::std_specs::btree::group_btree_axioms, vstd::laws_cmp::group_laws_cmp};

/// Errors of the element store and of the operations built on it.
#[derive(Debug, PartialEq)]
pub enum CoreError {
    /// The element does not exist.
    NotFound(ElementId),
    /// An element of category `kind` references the missing element `missing`.
    DanglingRef { kind: &'static str, missing: ElementId },
    /// The request was refused; the text says why.
    Invalid(String),
    /// There is nothing to undo (or redo).
    NothingTo(&'static str),
}

/// A result of the element store.
pub type CoreResult<T> = Result<T, CoreError>;

/// What an element is: its category, the elements it depends on (deleting any of them
/// deletes it too) and its data.
pub struct Body<D> {
    pub category: Category,
    pub refs: Vec<ElementId>,
    pub data: D,
}

/// One element: identity, revision (incremented by every committed modification), body
/// and project parameter values by key.
pub struct Element<D, P> {
    id: ElementId,
    rev: u64,
    body: Rc<Body<D>>,
    params: Vec<(String, Rc<P>)>,
}

/// An element as the specifications see it.
pub struct ElementView<D, P> {
    pub id: ElementId,
    pub rev: u64,
    pub body: Body<D>,
    pub params: Map<Seq<char>, P>,
}

/// Another pointer to the same value (`Rc::clone`).
#[verifier::external_body]
fn share<T>(r: &Rc<T>) -> (s: Rc<T>)
    ensures
        s == *r,
{
    r.clone()
}

/// Parameter entries as (key, value) pairs of specification values.
pub open spec fn param_pairs<P>(s: Seq<(String, Rc<P>)>) -> Seq<(Seq<char>, P)> {
    s.map_values(|x: (String, Rc<P>)| (x.0@, *x.1))
}

/// The parameter map of a list of entries; a later entry for a key wins.
pub open spec fn param_map<P>(s: Seq<(Seq<char>, P)>) -> Map<Seq<char>, P>
    decreases s.len(),
{
    if s.len() == 0 {
        Map::empty()
    } else {
        param_map(s.drop_last()).insert(s.last().0, s.last().1)
    }
}

impl<D, P> View for Element<D, P> {
    type V = ElementView<D, P>;

    closed spec fn view(&self) -> ElementView<D, P> {
        ElementView {
            id: self.id,
            rev: self.rev,
            body: *self.body,
            params: param_map(param_pairs(self.params@)),
        }
    }
}

/// The view of an optional element.
pub open spec fn opt_view<D, P>(e: Option<Element<D, P>>) -> Option<ElementView<D, P>> {
    match e {
        Some(x) => Some(x@),
        None => None,
    }
}

/// Copying entries one by one keeps the map.
proof fn lemma_param_map_push<P>(s: Seq<(Seq<char>, P)>, x: (Seq<char>, P))
    ensures
        param_map(s.push(x)) == param_map(s).insert(x.0, x.1),
{
    assert(s.push(x).drop_last() =~= s);
}

impl<D, P> Element<D, P> {
    /// A new element with a fresh id, revision 1 and no parameter values.
    pub fn new(body: Body<D>) -> (e: Element<D, P>)
        ensures
            e@.rev == 1,
            e@.body == body,
            e@.params == Map::<Seq<char>, P>::empty(),
    {
        Element { id: ElementId::new(), rev: 1, body: Rc::new(body), params: Vec::new() }
    }

    /// An element as stored: its id, revision, body and parameter values.
    pub fn restore(id: ElementId, rev: u64, body: Body<D>, params: Vec<(String, P)>) -> (e:
        Element<D, P>)
        ensures
            e@.id == id,
            e@.rev == rev,
            e@.body == body,
            e@.params == param_map(params@.map_values(|x: (String, P)| (x.0@, x.1))),
    {
        let ghost given = params@.map_values(|x: (String, P)| (x.0@, x.1));
        let mut ps: Vec<(String, Rc<P>)> = Vec::new();
        let mut rest = params;
        let mut tail: Vec<(String, Rc<P>)> = Vec::new();
        // Entries are taken from the back and put back in their order.
        while rest.len() > 0
            invariant
                given == rest@.map_values(|x: (String, P)| (x.0@, x.1)) + param_pairs(
                    tail@,
                ).reverse(),
            decreases rest.len(),
        {
            let ghost before = rest@;
            let (k, v) = rest.pop().unwrap();
            tail.push((k, Rc::new(v)));
            assert(before =~= rest@.push((k, v)));
            assert(param_pairs(tail@).reverse() =~= seq![(k@, v)] + param_pairs(
                tail@.drop_last(),
            ).reverse());
            assert(given =~= rest@.map_values(|x: (String, P)| (x.0@, x.1)) + param_pairs(
                tail@,
            ).reverse());
        }
        assert(given =~= param_pairs(tail@).reverse());
        while tail.len() > 0
            invariant
                given == param_pairs(ps@) + param_pairs(tail@).reverse(),
            decreases tail.len(),
        {
            let ghost t0 = tail@;
            let x = tail.pop().unwrap();
            ps.push(x);
            assert(param_pairs(t0).reverse() =~= seq![(x.0@, *x.1)] + param_pairs(
                tail@,
            ).reverse());
            assert(param_pairs(ps@) =~= param_pairs(ps@.drop_last()).push((x.0@, *x.1)));
            assert(given =~= param_pairs(ps@) + param_pairs(tail@).reverse());
        }
        assert(given =~= param_pairs(ps@));
        Element { id, rev, body: Rc::new(body), params: ps }
    }

    /// The element's id.
    pub fn id(&self) -> (r: ElementId)
        ensures
            r == self@.id,
    {
        self.id
    }

    /// The element's revision.
    pub fn rev(&self) -> (r: u64)
        ensures
            r == self@.rev,
    {
        self.rev
    }

    /// The element's body.
    pub fn body(&self) -> (r: &Body<D>)
        ensures
            *r == self@.body,
    {
        &*self.body
    }

    /// The category of the element.
    pub fn category(&self) -> (c: Category)
        ensures
            c == self@.body.category,
    {
        self.body.category
    }

    /// The element's value for project parameter `key`, if set.
    pub fn param(&self, key: &str) -> (r: Option<&P>)
        ensures
            r matches Some(v) ==> self@.params.contains_key(key@) && *v == self@.params[key@],
            r is None ==> !self@.params.contains_key(key@),
    {
        let ghost s = param_pairs(self.params@);
        let mut i = self.params.len();
        while i > 0
            invariant
                i <= self.params.len(),
                s == param_pairs(self.params@),
                forall|l: int| i <= l < s.len() ==> #[trigger] s[l].0 != key@,
            decreases i,
        {
            if crate::text::same(self.params[i - 1].0.as_str(), key) {
                proof {
                    lemma_param_map_last(s, key@, i - 1);
                }
                return Some(&*self.params[i - 1].1);
            }
            i -= 1;
        }
        proof {
            lemma_param_map_absent(s, key@);
        }
        None
    }

    /// A copy of the element (the body and the parameter values are shared).
    pub fn duplicate(&self) -> (r: Element<D, P>)
        ensures
            r@ == self@,
    {
        let mut ps: Vec<(String, Rc<P>)> = Vec::new();
        let mut i: usize = 0;
        while i < self.params.len()
            invariant
                i <= self.params.len(),
                param_pairs(ps@) == param_pairs(self.params@.take(i as int)),
            decreases self.params.len() - i,
        {
            let ghost before = ps@;
            let k = self.params[i].0.clone();
            let v = share(&self.params[i].1);
            ps.push((k, v));
            assert(ps@ == before.push((k, v)));
            assert(self.params@.take(i + 1) =~= self.params@.take(i as int).push(self.params@[i as int]));
            assert(k@ == self.params@[i as int].0@);
            assert(*v == *self.params@[i as int].1);
            assert(param_pairs(ps@) =~= param_pairs(before).push((k@, *v)));
            assert(param_pairs(self.params@.take(i + 1)) =~= param_pairs(self.params@.take(i as int)).push((k@, *v)));
            assert(param_pairs(ps@) =~= param_pairs(self.params@.take(i + 1)));
            i += 1;
        }
        assert(self.params@.take(self.params.len() as int) =~= self.params@);
        Element { id: self.id, rev: self.rev, body: share(&self.body), params: ps }
    }

    /// A copy with another body (the parameter values are shared).
    fn with_body(&self, body: Body<D>) -> (r: Element<D, P>)
        ensures
            r@ == (ElementView { body, ..self@ }),
    {
        let d = self.duplicate();
        Element { id: d.id, rev: d.rev, body: Rc::new(body), params: d.params }
    }

    /// A copy with `key` set to `value` (`Some`) or cleared (`None`).
    fn with_param(&self, key: &str, value: Option<P>) -> (r: Element<D, P>)
        ensures
            r@.id == self@.id,
            r@.rev == self@.rev,
            r@.body == self@.body,
            r@.params == match value {
                Some(v) => self@.params.insert(key@, v),
                None => self@.params.remove(key@),
            },
    {
        let ghost s = param_pairs(self.params@);
        let mut ps: Vec<(String, Rc<P>)> = Vec::new();
        let mut i: usize = 0;
        while i < self.params.len()
            invariant
                i <= self.params.len(),
                s == param_pairs(self.params@),
                param_map(param_pairs(ps@)) == param_map(s.take(i as int)).remove(key@),
            decreases self.params.len() - i,
        {
            let ghost before = ps@;
            assert(s.take(i + 1) =~= s.take(i as int).push(s[i as int]));
            proof {
                lemma_param_map_push(s.take(i as int), s[i as int]);
            }
            if !crate::text::same(self.params[i].0.as_str(), key) {
                let k = self.params[i].0.clone();
                let v = share(&self.params[i].1);
                ps.push((k, v));
                assert(param_pairs(ps@) =~= param_pairs(before).push(s[i as int]));
                proof {
                    lemma_param_map_push(param_pairs(before), s[i as int]);
                }
                assert(param_map(param_pairs(ps@)) =~= param_map(s.take(i + 1)).remove(key@));
            } else {
                assert(param_map(param_pairs(ps@)) =~= param_map(s.take(i + 1)).remove(key@));
            }
            i += 1;
        }
        assert(s.take(self.params.len() as int) =~= s);
        match value {
            Some(v) => {
                let ghost before = ps@;
                ps.push((crate::text::owned(key), Rc::new(v)));
                assert(param_pairs(ps@) =~= param_pairs(before).push((key@, v)));
                proof {
                    lemma_param_map_push(param_pairs(before), (key@, v));
                }
                assert(param_map(param_pairs(ps@)) =~= self@.params.insert(key@, v));
            },
            None => {},
        }
        Element { id: self.id, rev: self.rev, body: share(&self.body), params: ps }
    }
}

/// The last entry for a key gives its value.
proof fn lemma_param_map_last<P>(s: Seq<(Seq<char>, P)>, k: Seq<char>, j: int)
    requires
        0 <= j < s.len(),
        s[j].0 == k,
        forall|l: int| j < l < s.len() ==> #[trigger] s[l].0 != k,
    ensures
        param_map(s).contains_key(k),
        param_map(s)[k] == s[j].1,
    decreases s.len(),
{
    if j < s.len() - 1 {
        lemma_param_map_last(s.drop_last(), k, j);
    }
}

/// A key with no entry has no value.
proof fn lemma_param_map_absent<P>(s: Seq<(Seq<char>, P)>, k: Seq<char>)
    requires
        forall|l: int| 0 <= l < s.len() ==> #[trigger] s[l].0 != k,
    ensures
        !param_map(s).contains_key(k),
    decreases s.len(),
{
    if s.len() > 0 {
        lemma_param_map_absent(s.drop_last(), k);
    }
}


// ---------------------------------------------------------------------------------------
// States and change records as the specifications see them
// ---------------------------------------------------------------------------------------

/// Sets (`Some`) or removes (`None`) one element of a state.
pub open spec fn put<D, P>(
    m: Map<u128, ElementView<D, P>>,
    id: ElementId,
    img: Option<ElementView<D, P>>,
) -> Map<u128, ElementView<D, P>> {
    match img {
        Some(v) => m.insert(id.0, v),
        None => m.remove(id.0),
    }
}

/// A state with each recorded image put in, in order.
pub open spec fn overlay<D, P>(
    m: Map<u128, ElementView<D, P>>,
    es: Seq<(ElementId, Option<ElementView<D, P>>)>,
) -> Map<u128, ElementView<D, P>>
    decreases es.len(),
{
    if es.len() == 0 {
        m
    } else {
        put(overlay(m, es.drop_last()), es.last().0, es.last().1)
    }
}

/// No id is recorded twice.
pub open spec fn distinct_ids<T>(es: Seq<(ElementId, T)>) -> bool {
    forall|i: int, j: int| 0 <= i < j < es.len() ==> es[i].0 != es[j].0
}

/// Every recorded image carries the id it is recorded under.
pub open spec fn images_match<D, P>(es: Seq<(ElementId, Option<ElementView<D, P>>)>) -> bool {
    forall|i: int| 0 <= i < es.len() ==> ((#[trigger] es[i]).1 matches Some(v) ==> v.id == es[i].0)
}

/// Every element of a state is stored under its own id.
pub open spec fn ids_match<D, P>(m: Map<u128, ElementView<D, P>>) -> bool {
    forall|k: u128| #[trigger] m.contains_key(k) ==> m[k].id.0 == k
}

/// The state holds exactly the recorded images at the recorded ids.
pub open spec fn agrees<D, P>(
    es: Seq<(ElementId, Option<ElementView<D, P>>)>,
    m: Map<u128, ElementView<D, P>>,
) -> bool {
    forall|i: int|
        0 <= i < es.len() ==> match (#[trigger] es[i]).1 {
            Some(v) => m.contains_key(es[i].0.0) && m[es[i].0.0] == v,
            None => !m.contains_key(es[i].0.0),
        }
}

/// Whether `k` is one of the recorded ids.
pub open spec fn has_id<T>(es: Seq<(ElementId, T)>, k: u128) -> bool {
    exists|i: int| 0 <= i < es.len() && (#[trigger] es[i]).0.0 == k
}

proof fn lemma_overlay_hit<D, P>(
    m: Map<u128, ElementView<D, P>>,
    es: Seq<(ElementId, Option<ElementView<D, P>>)>,
    j: int,
)
    requires
        distinct_ids(es),
        0 <= j < es.len(),
    ensures
        match es[j].1 {
            Some(v) => overlay(m, es).contains_key(es[j].0.0) && overlay(m, es)[es[j].0.0] == v,
            None => !overlay(m, es).contains_key(es[j].0.0),
        },
    decreases es.len(),
{
    if j < es.len() - 1 {
        assert(es[j].0 != es.last().0);
        assert(es[j].0.0 != es.last().0.0);
        lemma_overlay_hit(m, es.drop_last(), j);
    }
}

proof fn lemma_overlay_miss<D, P>(
    m: Map<u128, ElementView<D, P>>,
    es: Seq<(ElementId, Option<ElementView<D, P>>)>,
    k: u128,
)
    requires
        !has_id(es, k),
    ensures
        overlay(m, es).contains_key(k) == m.contains_key(k),
        m.contains_key(k) ==> overlay(m, es)[k] == m[k],
    decreases es.len(),
{
    if es.len() > 0 {
        assert(es.last() == es[es.len() - 1]);
        if has_id(es.drop_last(), k) {
            let i = choose|i: int| 0 <= i < es.drop_last().len() && (#[trigger] es.drop_last()[i]).0.0 == k;
            assert(es[i].0.0 == k);
        }
        lemma_overlay_miss(m, es.drop_last(), k);
    }
}

/// Recorded images are what an overlay shows.
proof fn lemma_overlay_agrees<D, P>(
    m: Map<u128, ElementView<D, P>>,
    es: Seq<(ElementId, Option<ElementView<D, P>>)>,
)
    requires
        distinct_ids(es),
    ensures
        agrees(es, overlay(m, es)),
{
    assert forall|i: int| 0 <= i < es.len() implies match (#[trigger] es[i]).1 {
        Some(v) => overlay(m, es).contains_key(es[i].0.0) && overlay(m, es)[es[i].0.0] == v,
        None => !overlay(m, es).contains_key(es[i].0.0),
    } by {
        lemma_overlay_hit(m, es, i);
    }
}

/// Two states that differ only at recorded ids have the same overlay.
proof fn lemma_overlay_frame<D, P>(
    m1: Map<u128, ElementView<D, P>>,
    m2: Map<u128, ElementView<D, P>>,
    es: Seq<(ElementId, Option<ElementView<D, P>>)>,
)
    requires
        distinct_ids(es),
        forall|k: u128|
            !has_id(es, k) ==> (m1.contains_key(k) == m2.contains_key(k) && (m1.contains_key(k)
                ==> m1[k] == m2[k])),
    ensures
        overlay(m1, es) == overlay(m2, es),
{
    assert forall|k: u128| #[trigger] overlay(m1, es).contains_key(k) == overlay(m2, es).contains_key(k)
        && (overlay(m1, es).contains_key(k) ==> overlay(m1, es)[k] == overlay(m2, es)[k]) by {
        if has_id(es, k) {
            let j = choose|j: int| 0 <= j < es.len() && (#[trigger] es[j]).0.0 == k;
            lemma_overlay_hit(m1, es, j);
            lemma_overlay_hit(m2, es, j);
        } else {
            lemma_overlay_miss(m1, es, k);
            lemma_overlay_miss(m2, es, k);
        }
    }
    assert(overlay(m1, es) =~= overlay(m2, es));
}

/// Putting back images that agree with the state, at the same ids, undoes an overlay.
proof fn lemma_overlay_back<D, P>(
    m: Map<u128, ElementView<D, P>>,
    es1: Seq<(ElementId, Option<ElementView<D, P>>)>,
    es2: Seq<(ElementId, Option<ElementView<D, P>>)>,
)
    requires
        distinct_ids(es1),
        es1.len() == es2.len(),
        forall|i: int| 0 <= i < es1.len() ==> (#[trigger] es1[i]).0 == es2[i].0,
        agrees(es2, m),
    ensures
        overlay(overlay(m, es1), es2) == m,
{
    let m1 = overlay(m, es1);
    assert(distinct_ids(es2)) by {
        assert forall|i: int, j: int| 0 <= i < j < es2.len() implies es2[i].0 != es2[j].0 by {
            assert(es1[i].0 == es2[i].0);
            assert(es1[j].0 == es2[j].0);
        }
    }
    assert forall|k: u128| #[trigger] overlay(m1, es2).contains_key(k) == m.contains_key(k) && (
    m.contains_key(k) ==> overlay(m1, es2)[k] == m[k]) by {
        if has_id(es2, k) {
            let j = choose|j: int| 0 <= j < es2.len() && (#[trigger] es2[j]).0.0 == k;
            lemma_overlay_hit(m1, es2, j);
        } else {
            assert(!has_id(es1, k)) by {
                if has_id(es1, k) {
                    let j = choose|j: int| 0 <= j < es1.len() && (#[trigger] es1[j]).0.0 == k;
                    assert(es2[j].0.0 == k);
                }
            }
            lemma_overlay_miss(m, es1, k);
            lemma_overlay_miss(m1, es2, k);
        }
    }
    assert(overlay(m1, es2) =~= m);
}

/// An overlay of images that carry their own ids keeps ids matching.
proof fn lemma_overlay_ids<D, P>(
    m: Map<u128, ElementView<D, P>>,
    es: Seq<(ElementId, Option<ElementView<D, P>>)>,
)
    requires
        ids_match(m),
        images_match(es),
    ensures
        ids_match(overlay(m, es)),
    decreases es.len(),
{
    if es.len() > 0 {
        assert(images_match(es.drop_last())) by {
            assert forall|i: int| 0 <= i < es.drop_last().len() implies ((#[trigger] es.drop_last()[i]).1 matches Some(v) ==> v.id == es.drop_last()[i].0) by {
                assert(es.drop_last()[i] == es[i]);
            }
        }
        lemma_overlay_ids(m, es.drop_last());
        assert(es.last() == es[es.len() - 1]);
    }
}

/// A committed transaction: every touched element with its before and after image.
pub struct ChangeSet<D, P> {
    pub name: String,
    pub entries: Vec<(ElementId, Option<Element<D, P>>, Option<Element<D, P>>)>,
}

/// A change set as the specifications see it.
pub struct ChangeSetView<D, P> {
    pub name: Seq<char>,
    pub entries: Seq<(ElementId, Option<ElementView<D, P>>, Option<ElementView<D, P>>)>,
}

impl<D, P> View for ChangeSet<D, P> {
    type V = ChangeSetView<D, P>;

    open spec fn view(&self) -> ChangeSetView<D, P> {
        ChangeSetView {
            name: self.name@,
            entries: self.entries@.map_values(
                |t: (ElementId, Option<Element<D, P>>, Option<Element<D, P>>)|
                    (t.0, opt_view(t.1), opt_view(t.2)),
            ),
        }
    }
}

/// The before-images of a change set.
pub open spec fn befores<D, P>(cs: ChangeSetView<D, P>) -> Seq<(ElementId, Option<ElementView<D, P>>)> {
    cs.entries.map_values(|t: (ElementId, Option<ElementView<D, P>>, Option<ElementView<D, P>>)| (t.0, t.1))
}

/// The after-images of a change set.
pub open spec fn afters<D, P>(cs: ChangeSetView<D, P>) -> Seq<(ElementId, Option<ElementView<D, P>>)> {
    cs.entries.map_values(|t: (ElementId, Option<ElementView<D, P>>, Option<ElementView<D, P>>)| (t.0, t.2))
}

/// A change set touches each id once and its images carry their ids.
pub open spec fn change_ok<D, P>(cs: ChangeSetView<D, P>) -> bool {
    &&& distinct_ids(befores(cs))
    &&& images_match(befores(cs))
    &&& images_match(afters(cs))
}

/// The undo stack leads back from `state`: the top change set's after-images are in the
/// state, and undoing it gives a state the rest of the stack leads back from.
pub open spec fn undo_chain<D, P>(
    state: Map<u128, ElementView<D, P>>,
    stack: Seq<ChangeSetView<D, P>>,
) -> bool
    decreases stack.len(),
{
    stack.len() == 0 || (agrees(afters(stack.last()), state) && undo_chain(
        overlay(state, befores(stack.last())),
        stack.drop_last(),
    ))
}

/// The redo stack leads forward from `state` in the same way.
pub open spec fn redo_chain<D, P>(
    state: Map<u128, ElementView<D, P>>,
    stack: Seq<ChangeSetView<D, P>>,
) -> bool
    decreases stack.len(),
{
    stack.len() == 0 || (agrees(befores(stack.last()), state) && redo_chain(
        overlay(state, afters(stack.last())),
        stack.drop_last(),
    ))
}

/// A document as the specifications see it.
pub struct DocView<D, P> {
    /// Element id value ↦ element.
    pub elements: Map<u128, ElementView<D, P>>,
    pub undo: Seq<ChangeSetView<D, P>>,
    pub redo: Seq<ChangeSetView<D, P>>,
    /// Set whenever a transaction commits or is undone/redone; cleared on save.
    pub dirty: bool,
    /// Changes whenever the content changes (to a value the caller supplies).
    pub stamp: u64,
}

/// The element store.
pub struct Document<D, P> {
    elements: BTreeMap<u128, Element<D, P>>,
    undo: Vec<ChangeSet<D, P>>,
    redo: Vec<ChangeSet<D, P>>,
    dirty: bool,
    stamp: u64,
}

/// The state of a stored map.
pub open spec fn state_of<D, P>(m: Map<u128, Element<D, P>>) -> Map<u128, ElementView<D, P>> {
    m.map_values(|e: Element<D, P>| e@)
}

impl<D, P> View for Document<D, P> {
    type V = DocView<D, P>;

    closed spec fn view(&self) -> DocView<D, P> {
        DocView {
            elements: state_of(self.elements@),
            undo: self.undo@.map_values(|c: ChangeSet<D, P>| c@),
            redo: self.redo@.map_values(|c: ChangeSet<D, P>| c@),
            dirty: self.dirty,
            stamp: self.stamp,
        }
    }
}

/// The history of a document is well formed with respect to `state`.
pub open spec fn history_ok<D, P>(
    state: Map<u128, ElementView<D, P>>,
    undo: Seq<ChangeSetView<D, P>>,
    redo: Seq<ChangeSetView<D, P>>,
) -> bool {
    &&& forall|i: int| 0 <= i < undo.len() ==> change_ok(#[trigger] undo[i])
    &&& forall|i: int| 0 <= i < redo.len() ==> change_ok(#[trigger] redo[i])
    &&& undo_chain(state, undo)
    &&& redo_chain(state, redo)
}

/// `v` lists, in increasing id order, exactly the elements of `m` that satisfy `pred`.
pub open spec fn listed<D, P>(
    v: Seq<ElementView<D, P>>,
    m: Map<u128, ElementView<D, P>>,
    pred: spec_fn(ElementView<D, P>) -> bool,
) -> bool {
    &&& forall|a: int, b: int| 0 <= a < b < v.len() ==> (#[trigger] v[a]).id.0 < (#[trigger] v[b]).id.0
    &&& forall|a: int| 0 <= a < v.len() ==> m.contains_key((#[trigger] v[a]).id.0) && m[v[a].id.0] == v[a] && pred(v[a])
    &&& forall|k: u128| #[trigger] m.contains_key(k) && pred(m[k]) ==> exists|a: int| 0 <= a < v.len() && v[a].id.0 == k
}

proof fn lemma_listed_len<D, P>(
    v: Seq<ElementView<D, P>>,
    m: Map<u128, ElementView<D, P>>,
    pred: spec_fn(ElementView<D, P>) -> bool,
)
    requires
        listed(v, m, pred),
        m.dom().finite(),
    ensures
        v.len() == m.dom().filter(|k: u128| pred(m[k])).len(),
{
    let ids = v.map_values(|e: ElementView<D, P>| e.id.0);
    assert(ids.no_duplicates()) by {
        assert forall|a: int, b: int| 0 <= a < ids.len() && 0 <= b < ids.len() && a != b implies ids[a] != ids[b] by {
            if a < b {
                assert(v[a].id.0 < v[b].id.0);
            } else {
                assert(v[b].id.0 < v[a].id.0);
            }
        }
    }
    ids.unique_seq_to_set();
    assert(ids.to_set() =~= m.dom().filter(|k: u128| pred(m[k]))) by {
        assert forall|k: u128| ids.to_set().contains(k) implies m.dom().filter(|k: u128| pred(m[k])).contains(k) by {
            let a = choose|a: int| 0 <= a < ids.len() && ids[a] == k;
            assert(m.contains_key(v[a].id.0));
        }
        assert forall|k: u128| m.dom().filter(|k: u128| pred(m[k])).contains(k) implies ids.to_set().contains(k) by {
            assert(m.contains_key(k) && pred(m[k]));
            let a = choose|a: int| 0 <= a < v.len() && v[a].id.0 == k;
            assert(ids[a] == k);
        }
    }
}

/// The number of elements of category `cat` among `m` (what `count` gives) is the length
/// of any in-order list of exactly those elements (what `of` gives).
pub proof fn lemma_count_is_listed_len<D, P>(m: Map<u128, ElementView<D, P>>, cat: Category, v: Seq<ElementView<D, P>>)
    requires
        m.dom().finite(),
        listed(v, m, |e: ElementView<D, P>| e.body.category == cat),
    ensures
        v.len() == m.dom().filter(|k: u128| m[k].body.category == cat).len(),
{
    let pred = |e: ElementView<D, P>| e.body.category == cat;
    lemma_listed_len(v, m, pred);
    assert(m.dom().filter(|k: u128| pred(m[k])) =~= m.dom().filter(|k: u128| m[k].body.category == cat));
}

/// Keeping the entries of an id-ordered list that pass `pred` keeps them in id order, and
/// keeps only entries of the list.
proof fn lemma_filter_in_order<D, P>(s: Seq<ElementView<D, P>>, pred: spec_fn(ElementView<D, P>) -> bool)
    requires
        forall|a: int, b: int| 0 <= a < b < s.len() ==> (#[trigger] s[a]).id.0 < (#[trigger] s[b]).id.0,
    ensures
        forall|a: int, b: int| 0 <= a < b < s.filter(pred).len()
            ==> (#[trigger] s.filter(pred)[a]).id.0 < (#[trigger] s.filter(pred)[b]).id.0,
        forall|a: int| 0 <= a < s.filter(pred).len() ==> s.contains(#[trigger] s.filter(pred)[a]),
    decreases s.len(),
{
    reveal(Seq::filter);
    if s.len() > 0 {
        let s0 = s.drop_last();
        lemma_filter_in_order(s0, pred);
        let f0 = s0.filter(pred);
        assert forall|a: int| 0 <= a < f0.len() implies (#[trigger] f0[a]).id.0 < s.last().id.0 && s.contains(f0[a]) by {
            assert(s0.contains(f0[a]));
            let i = choose|i: int| 0 <= i < s0.len() && s0[i] == f0[a];
            assert(s[i] == f0[a]);
            assert(s[i].id.0 < s[s.len() - 1].id.0);
        }
        if pred(s.last()) {
            assert(s.filter(pred) == f0.push(s.last()));
            assert forall|a: int| 0 <= a < s.filter(pred).len() implies s.contains(#[trigger] s.filter(pred)[a]) by {
                if a == f0.len() {
                    assert(s[s.len() - 1] == s.last());
                }
            }
        }
    }
}

/// The number of elements of category `cat` among `m` (what `count` gives) is the number
/// of entries of that category in the id-ordered list of all elements (what `iter` gives).
pub proof fn lemma_count_is_filtered_len<D, P>(m: Map<u128, ElementView<D, P>>, cat: Category, all: Seq<ElementView<D, P>>)
    requires
        m.dom().finite(),
        listed(all, m, |e: ElementView<D, P>| true),
    ensures
        all.filter(|e: ElementView<D, P>| e.body.category == cat).len()
            == m.dom().filter(|k: u128| m[k].body.category == cat).len(),
{
    let pred = |e: ElementView<D, P>| e.body.category == cat;
    let f = all.filter(pred);
    lemma_filter_in_order(all, pred);
    broadcast use vstd::seq_lib::group_filter_ensures;
    assert forall|a: int| 0 <= a < f.len() implies m.contains_key((#[trigger] f[a]).id.0) && m[f[a].id.0] == f[a]
        && pred(f[a]) by {
        assert(all.contains(f[a]));
        let i = choose|i: int| 0 <= i < all.len() && all[i] == f[a];
        assert(m.contains_key(all[i].id.0));
    }
    assert forall|k: u128| #[trigger] m.contains_key(k) && pred(m[k]) implies exists|a: int| 0 <= a < f.len() && f[a].id.0 == k by {
        let tru = |e: ElementView<D, P>| true;
        assert(tru(m[k]));
        let i = choose|i: int| 0 <= i < all.len() && all[i].id.0 == k;
        assert(m[all[i].id.0] == all[i]);
        assert(f.contains(all[i]));
        let a = choose|a: int| 0 <= a < f.len() && f[a] == all[i];
        assert(f[a].id.0 == k);
    }
    lemma_count_is_listed_len(m, cat, f);
}

impl<D, P> Document<D, P> {
    /// The document is well formed: it holds finitely many elements, each stored under its
    /// id, and the undo and redo stacks lead back and forward from the current elements.
    pub open spec fn wf(&self) -> bool {
        &&& self@.elements.dom().finite()
        &&& ids_match(self@.elements)
        &&& history_ok(self@.elements, self@.undo, self@.redo)
    }

    /// A document holds finitely many elements.
    proof fn lemma_finite(&self)
        ensures
            self@.elements.dom().finite(),
    {
        broadcast use vstd::std_specs::btree::axiom_btree_map_view_finite_dom;
        assert(self.elements@.dom().finite());
        assert(state_of(self.elements@).dom() =~= self.elements@.dom());
    }

    /// An empty document with no history.
    pub fn new(stamp: u64) -> (d: Document<D, P>)
        ensures
            d.wf(),
            d@.elements == Map::<u128, ElementView<D, P>>::empty(),
            d@.undo.len() == 0,
            d@.redo.len() == 0,
            !d@.dirty,
            d@.stamp == stamp,
    {
        let d = Document {
            elements: BTreeMap::new(),
            undo: Vec::new(),
            redo: Vec::new(),
            dirty: false,
            stamp,
        };
        assert(d@.elements =~= Map::<u128, ElementView<D, P>>::empty());
        d
    }

    /// Identifies the current content.
    pub fn stamp(&self) -> (s: u64)
        ensures
            s == self@.stamp,
    {
        self.stamp
    }

    pub fn get(&self, id: ElementId) -> (r: Option<&Element<D, P>>)
        ensures
            r matches Some(e) ==> self@.elements.contains_key(id.0) && e@ == self@.elements[id.0],
            r is None ==> !self@.elements.contains_key(id.0),
    {
        self.elements.get(&id.0)
    }

    pub fn data(&self, id: ElementId) -> (r: Result<&D, CoreError>)
        ensures
            r matches Ok(d) ==> self@.elements.contains_key(id.0) && *d
                == self@.elements[id.0].body.data,
            r matches Err(e) ==> !self@.elements.contains_key(id.0) && e == CoreError::NotFound(
                id,
            ),
    {
        match self.elements.get(&id.0) {
            Some(e) => Ok(&e.body().data),
            None => Err(CoreError::NotFound(id)),
        }
    }

    /// A project parameter value of an element, if set.
    pub fn param(&self, id: ElementId, key: &str) -> (r: Option<&P>)
        ensures
            r matches Some(v) ==> self@.elements.contains_key(id.0) && self@.elements[id.0].params.contains_key(key@)
                && *v == self@.elements[id.0].params[key@],
            r is None ==> !(self@.elements.contains_key(id.0) && self@.elements[id.0].params.contains_key(key@)),
    {
        match self.elements.get(&id.0) {
            Some(e) => e.param(key),
            None => None,
        }
    }

    pub fn len(&self) -> (n: usize)
        ensures
            n == self@.elements.len(),
    {
        assert(self@.elements.dom() =~= self.elements@.dom());
        self.elements.len()
    }

    pub fn is_empty(&self) -> (b: bool)
        ensures
            b == (self@.elements.len() == 0),
    {
        assert(self@.elements.dom() =~= self.elements@.dom());
        self.elements.len() == 0
    }

    pub fn is_dirty(&self) -> (b: bool)
        ensures
            b == self@.dirty,
    {
        self.dirty
    }

    pub fn mark_saved(&mut self)
        ensures
            final(self)@ == (DocView { dirty: false, ..old(self)@ }),
    {
        self.dirty = false;
    }

    /// Forgets undo/redo history (e.g. after seeding a new project).
    pub fn clear_history(&mut self)
        requires
            old(self).wf(),
        ensures
            final(self).wf(),
            final(self)@ == (DocView {
                undo: Seq::<ChangeSetView<D, P>>::empty(),
                redo: Seq::<ChangeSetView<D, P>>::empty(),
                ..old(self)@
            }),
    {
        self.undo.clear();
        self.redo.clear();
        assert(self@.undo =~= Seq::<ChangeSetView<D, P>>::empty());
        assert(self@.redo =~= Seq::<ChangeSetView<D, P>>::empty());
    }

    /// Elements of the document, in id order.
    pub fn iter(&self) -> (v: Vec<&Element<D, P>>)
        requires
            self.wf(),
        ensures
            listed(v@.map_values(|e: &Element<D, P>| e@), self@.elements, |e: ElementView<D, P>| true),
    {
        self.collect(None)
    }

    /// Elements of one category, in id order.
    pub fn of(&self, cat: Category) -> (v: Vec<&Element<D, P>>)
        requires
            self.wf(),
        ensures
            listed(
                v@.map_values(|e: &Element<D, P>| e@),
                self@.elements,
                |e: ElementView<D, P>| e.body.category == cat,
            ),
            v.len() == self@.elements.dom().filter(|k: u128| self@.elements[k].body.category == cat).len(),
    {
        let v = self.collect(Some(cat));
        proof {
            lemma_count_is_listed_len(self@.elements, cat, v@.map_values(|e: &Element<D, P>| e@));
        }
        v
    }

    /// Number of elements in a category.
    pub fn count(&self, cat: Category) -> (n: usize)
        requires
            self.wf(),
        ensures
            n == self@.elements.dom().filter(|k: u128| self@.elements[k].body.category == cat).len(),
    {
        let v = self.collect(Some(cat));
        let ghost vs = v@.map_values(|e: &Element<D, P>| e@);
        proof {
            assert(self@.elements.dom() =~= self.elements@.dom());
            lemma_listed_len(vs, self@.elements, |e: ElementView<D, P>| e.body.category == cat);
            let pred = |e: ElementView<D, P>| e.body.category == cat;
            assert(self@.elements.dom().filter(|k: u128| pred(self@.elements[k])) =~= self@.elements.dom().filter(|k: u128| self@.elements[k].body.category == cat));
        }
        v.len()
    }

    fn collect(&self, cat: Option<Category>) -> (v: Vec<&Element<D, P>>)
        requires
            ids_match(self@.elements),
        ensures
            listed(
                v@.map_values(|e: &Element<D, P>| e@),
                self@.elements,
                |e: ElementView<D, P>| cat matches Some(c) ==> e.body.category == c,
            ),
    {
        let ghost pred = |e: ElementView<D, P>| cat matches Some(c) ==> e.body.category == c;
        let ghost m = self@.elements;
        let mut v: Vec<&Element<D, P>> = Vec::new();
        let ghost mut pos: Seq<int> = Seq::empty();
        let iter = self.elements.iter();
        proof {
            let s = iter.remaining().map_values(|kv: (&u128, &Element<D, P>)| *kv.0);
            assert(increasing_seq(s));
            assert forall|i: int, j: int| 0 <= i < j < iter.remaining().len() implies *(#[trigger] iter.remaining()[i]).0 < *(#[trigger] iter.remaining()[j]).0 by {
                assert(s[i] == *iter.remaining()[i].0);
                assert(s[j] == *iter.remaining()[j].0);
                assert(s[i].cmp_spec(&s[j]) is Less);
            }
        }
        for kv in it: iter
            invariant
                ids_match(m),
                m == state_of(self.elements@),
                pred == (|e: ElementView<D, P>| cat matches Some(c) ==> e.body.category == c),
                it.seq().len() == self.elements@.dom().len(),
                forall|i: int| 0 <= i < it.seq().len() ==> self.elements@.contains_key(*(#[trigger] it.seq()[i]).0)
                    && self.elements@[*it.seq()[i].0] == *it.seq()[i].1,
                forall|k: u128| #[trigger] self.elements@.contains_key(k) ==> it.seq().contains((&k, &self.elements@[k])),
                forall|i: int, j: int| 0 <= i < j < it.seq().len() ==> *(#[trigger] it.seq()[i]).0 < *(#[trigger] it.seq()[j]).0,
                pos.len() == v.len(),
                forall|a: int| 0 <= a < pos.len() ==> 0 <= #[trigger] pos[a] < it.index(),
                forall|a: int| 0 <= a < pos.len() ==> *(#[trigger] v@[a]) == *it.seq()[pos[a]].1
                    && (*v@[a])@.id.0 == *it.seq()[pos[a]].0,
                forall|j: int| 0 <= j < it.index() && pred((*(#[trigger] it.seq()[j]).1)@) ==> exists|a: int| 0 <= a < pos.len() && pos[a] == j,
                forall|a: int| 0 <= a < v.len() ==> m.contains_key((*(#[trigger] v@[a]))@.id.0)
                    && m[(*v@[a])@.id.0] == (*v@[a])@ && pred((*v@[a])@),
                forall|a: int, b: int| 0 <= a < b < v.len() ==> (*(#[trigger] v@[a]))@.id.0 < (*(#[trigger] v@[b]))@.id.0,
                it.index() == it.seq().len() ==> forall|k: u128| #[trigger] m.contains_key(k) && pred(m[k]) ==> exists|a: int| 0 <= a < v.len() && (*v@[a])@.id.0 == k,
        {
            let (k, e) = kv;
            let ghost j = it.index();
            assert(it.seq()[j] == kv);
            assert(self.elements@.contains_key(*k));
            let keep = match cat {
                Some(c) => e.category() == c,
                None => true,
            };
            let ghost v0 = v@;
            let ghost pos0 = pos;
            assert(m.contains_key(*k) && m[*k] == e@);
            assert(e@.id.0 == *k);
            if keep {
                v.push(e);
                proof {
                    pos = pos.push(j);
                    assert forall|a: int, b: int| 0 <= a < b < v.len() implies (*(#[trigger] v@[a]))@.id.0 < (*(#[trigger] v@[b]))@.id.0 by {
                        if b == v.len() - 1 {
                            assert(pos[a] < j);
                            assert(*it.seq()[pos[a]].0 < *it.seq()[j].0);
                            assert(v@[b] == e);
                            assert(v@[a] == v0[a]);
                        } else {
                            assert(v@[a] == v0[a] && v@[b] == v0[b]);
                        }
                    }
                    assert forall|jj: int| 0 <= jj <= j && pred((*(#[trigger] it.seq()[jj]).1)@) implies exists|a: int| 0 <= a < pos.len() && pos[a] == jj by {
                        if jj == j {
                            assert(pos[pos.len() - 1] == jj);
                        } else {
                            let a = choose|a: int| 0 <= a < pos0.len() && pos0[a] == jj;
                            assert(pos[a] == jj);
                        }
                    }
                }
            }
            assert forall|kk: u128| it.index() + 1 == it.seq().len() && #[trigger] m.contains_key(kk) && pred(m[kk]) implies exists|a: int| 0 <= a < v.len() && (*v@[a])@.id.0 == kk by {
                assert(self.elements@.contains_key(kk));
                assert(it.seq().contains((&kk, &self.elements@[kk])));
                let jj = choose|jj: int| 0 <= jj < it.seq().len() && it.seq()[jj] == (&kk, &self.elements@[kk]);
                assert(pred((*it.seq()[jj].1)@));
                let a = choose|a: int| 0 <= a < pos.len() && pos[a] == jj;
                assert((*v@[a])@.id.0 == kk);
            }
        }
        proof {
            let vs = v@.map_values(|e: &Element<D, P>| e@);
            assert forall|a: int, b: int| 0 <= a < b < vs.len() implies (#[trigger] vs[a]).id.0 < (#[trigger] vs[b]).id.0 by {
                assert(vs[a] == (*v@[a])@ && vs[b] == (*v@[b])@);
            }
            assert forall|a: int| 0 <= a < vs.len() implies m.contains_key((#[trigger] vs[a]).id.0) && m[vs[a].id.0] == vs[a] && pred(vs[a]) by {
                assert(vs[a] == (*v@[a])@);
            }
            assert forall|k: u128| #[trigger] m.contains_key(k) && pred(m[k]) implies exists|a: int| 0 <= a < vs.len() && vs[a].id.0 == k by {
                let a = choose|a: int| 0 <= a < v.len() && (*v@[a])@.id.0 == k;
                assert(vs[a] == (*v@[a])@);
            }
        }
        v
    }

    /// The name of the transaction that undo would revert.
    pub fn can_undo(&self) -> (r: Option<&str>)
        ensures
            r matches Some(n) ==> self@.undo.len() > 0 && n@ == self@.undo.last().name,
            r is None ==> self@.undo.len() == 0,
    {
        if self.undo.len() == 0 {
            None
        } else {
            Some(self.undo[self.undo.len() - 1].name.as_str())
        }
    }

    /// The name of the transaction that redo would re-apply.
    pub fn can_redo(&self) -> (r: Option<&str>)
        ensures
            r matches Some(n) ==> self@.redo.len() > 0 && n@ == self@.redo.last().name,
            r is None ==> self@.redo.len() == 0,
    {
        if self.redo.len() == 0 {
            None
        } else {
            Some(self.redo[self.redo.len() - 1].name.as_str())
        }
    }
}


/// Stores (`Some`) or removes (`None`) one element of a stored map.
fn put_exec<D, P>(m: &mut BTreeMap<u128, Element<D, P>>, id: ElementId, img: Option<Element<D, P>>)
    ensures
        state_of(final(m)@) == put(state_of(old(m)@), id, opt_view(img)),
{
    match img {
        Some(e) => {
            let ghost ev = e@;
            m.insert(id.0, e);
            assert(state_of(m@) =~= state_of(old(m)@).insert(id.0, ev));
        },
        None => {
            m.remove(&id.0);
            assert(state_of(m@) =~= state_of(old(m)@).remove(id.0));
        },
    }
}

/// The element currently stored at `id`, as the specifications see it.
pub open spec fn at<D, P>(m: Map<u128, ElementView<D, P>>, id: ElementId) -> Option<ElementView<D, P>> {
    if m.contains_key(id.0) {
        Some(m[id.0])
    } else {
        None
    }
}

/// The record of touched ids after touching `id`: its current image is recorded the
/// first time only.
pub open spec fn touch_spec<D, P>(
    t: Seq<(ElementId, Option<ElementView<D, P>>)>,
    m: Map<u128, ElementView<D, P>>,
    id: ElementId,
) -> Seq<(ElementId, Option<ElementView<D, P>>)> {
    if has_id(t, id.0) {
        t
    } else {
        t.push((id, at(m, id)))
    }
}

/// A transaction in progress, as the specifications see it.
pub struct TxView<D, P> {
    /// The document with the transaction's changes so far.
    pub doc: DocView<D, P>,
    /// Each touched id with its image before the transaction, in the order first touched.
    pub touched: Seq<(ElementId, Option<ElementView<D, P>>)>,
}

impl<D, P> TxView<D, P> {
    /// The elements as they were when the transaction began.
    pub open spec fn origin(self) -> Map<u128, ElementView<D, P>> {
        overlay(self.doc.elements, self.touched)
    }
}

/// A transaction in progress. Records the before-image of every element it touches.
pub struct Tx<D, P> {
    doc: Document<D, P>,
    before: Vec<(ElementId, Option<Element<D, P>>)>,
    seen: BTreeSet<u128>,
}

/// The views of recorded before-images.
pub open spec fn before_views<D, P>(b: Seq<(ElementId, Option<Element<D, P>>)>) -> Seq<(ElementId, Option<ElementView<D, P>>)> {
    b.map_values(|x: (ElementId, Option<Element<D, P>>)| (x.0, opt_view(x.1)))
}

impl<D, P> View for Tx<D, P> {
    type V = TxView<D, P>;

    closed spec fn view(&self) -> TxView<D, P> {
        TxView { doc: self.doc@, touched: before_views(self.before@) }
    }
}

impl<D, P> Tx<D, P> {
    /// The transaction is well formed: elements are stored under their ids, each touched
    /// id is recorded once with an image of that id, and the document's history leads
    /// back and forward from the elements as they were when it began.
    pub open spec fn wf(&self) -> bool {
        &&& ids_match(self@.doc.elements)
        &&& distinct_ids(self@.touched)
        &&& images_match(self@.touched)
        &&& history_ok(self@.origin(), self@.doc.undo, self@.doc.redo)
        &&& self.seen_ok()
    }

    pub closed spec fn seen_ok(&self) -> bool {
        forall|k: u128| self.seen@.contains(k) <==> has_id(self@.touched, k)
    }

    pub fn get(&self, id: ElementId) -> (r: Option<&Element<D, P>>)
        ensures
            r matches Some(e) ==> self@.doc.elements.contains_key(id.0) && e@ == self@.doc.elements[id.0],
            r is None ==> !self@.doc.elements.contains_key(id.0),
    {
        self.doc.get(id)
    }

    pub fn data(&self, id: ElementId) -> (r: Result<&D, CoreError>)
        ensures
            r matches Ok(d) ==> self@.doc.elements.contains_key(id.0) && *d
                == self@.doc.elements[id.0].body.data,
            r matches Err(e) ==> !self@.doc.elements.contains_key(id.0) && e == CoreError::NotFound(
                id,
            ),
    {
        self.doc.data(id)
    }

    /// Elements, in id order.
    pub fn iter(&self) -> (v: Vec<&Element<D, P>>)
        requires
            self.wf(),
        ensures
            listed(v@.map_values(|e: &Element<D, P>| e@), self@.doc.elements, |e: ElementView<D, P>| true),
    {
        self.doc.collect(None)
    }

    /// Elements of one category, in id order.
    pub fn of(&self, cat: Category) -> (v: Vec<&Element<D, P>>)
        requires
            self.wf(),
        ensures
            listed(
                v@.map_values(|e: &Element<D, P>| e@),
                self@.doc.elements,
                |e: ElementView<D, P>| e.body.category == cat,
            ),
    {
        self.doc.collect(Some(cat))
    }

    /// Records the before-image of `id` the first time it is touched.
    fn touch(&mut self, id: ElementId)
        requires
            old(self).wf(),
        ensures
            final(self).wf(),
            final(self)@.doc == old(self)@.doc,
            final(self)@.touched == touch_spec(old(self)@.touched, old(self)@.doc.elements, id),
            final(self)@.origin() == old(self)@.origin(),
    {
        if self.seen.contains(&id.0) {
            return;
        }
        let img = match self.doc.elements.get(&id.0) {
            Some(e) => Some(e.duplicate()),
            None => None,
        };
        let ghost t0 = self@.touched;
        let ghost m = self@.doc.elements;
        let ghost iv = opt_view(img);
        assert(iv == at(m, id));
        self.before.push((id, img));
        self.seen.insert(id.0);
        assert(before_views(self.before@) =~= t0.push((id, iv)));
        proof {
            assert(!has_id(t0, id.0));
            assert(distinct_ids(self@.touched)) by {
                assert forall|i: int, j: int| 0 <= i < j < self@.touched.len() implies self@.touched[i].0 != self@.touched[j].0 by {
                    if j == t0.len() {
                        if self@.touched[i].0 == id {
                            assert(t0[i].0.0 == id.0);
                        }
                    } else {
                        assert(self@.touched[i] == t0[i] && self@.touched[j] == t0[j]);
                    }
                }
            }
            assert(images_match(self@.touched)) by {
                assert forall|i: int| 0 <= i < self@.touched.len() implies ((#[trigger] self@.touched[i]).1 matches Some(v) ==> v.id == self@.touched[i].0) by {
                    if i < t0.len() {
                        assert(self@.touched[i] == t0[i]);
                    } else {
                        assert(ids_match(m));
                    }
                }
            }
            assert forall|k: u128| self.seen@.contains(k) <==> has_id(self@.touched, k) by {
                if has_id(self@.touched, k) && k != id.0 {
                    let i = choose|i: int| 0 <= i < self@.touched.len() && (#[trigger] self@.touched[i]).0.0 == k;
                    assert(i < t0.len());
                    assert(t0[i].0.0 == k);
                }
                if k == id.0 {
                    assert(self@.touched[t0.len() as int].0.0 == k);
                }
                if has_id(t0, k) {
                    let i = choose|i: int| 0 <= i < t0.len() && (#[trigger] t0[i]).0.0 == k;
                    assert(self@.touched[i].0.0 == k);
                }
            }
            // The new record holds what the state has at `id`, so the origin is the same.
            assert(self@.touched.drop_last() =~= t0);
            assert(self@.touched.last() == (id, at(m, id)));
            assert(overlay(m, self@.touched) == put(overlay(m, t0), id, at(m, id)));
            lemma_overlay_miss(m, t0, id.0);
            assert(overlay(m, self@.touched) =~= overlay(m, t0));
        }
    }

    /// Puts `img` at `id`, touching it first.
    fn replace(&mut self, id: ElementId, img: Option<Element<D, P>>)
        requires
            old(self).wf(),
            img matches Some(e) ==> e@.id == id,
        ensures
            final(self).wf(),
            final(self)@.doc == (DocView { elements: put(old(self)@.doc.elements, id, opt_view(img)), ..old(self)@.doc }),
            final(self)@.touched == touch_spec(old(self)@.touched, old(self)@.doc.elements, id),
            final(self)@.origin() == old(self)@.origin(),
    {
        self.touch(id);
        let ghost m0 = self@.doc.elements;
        let ghost t = self@.touched;
        put_exec(&mut self.doc.elements, id, img);
        proof {
            assert(has_id(t, id.0)) by {
                assert(t.len() > 0);
                if !has_id(old(self)@.touched, id.0) {
                    assert(t[t.len() - 1].0.0 == id.0);
                } else {
                    let i = choose|i: int| 0 <= i < old(self)@.touched.len() && (#[trigger] old(self)@.touched[i]).0.0 == id.0;
                    assert(t[i].0.0 == id.0);
                }
            }
            lemma_overlay_frame(self@.doc.elements, m0, t);
            assert(ids_match(self@.doc.elements)) by {
                assert forall|k: u128| #[trigger] self@.doc.elements.contains_key(k) implies self@.doc.elements[k].id.0 == k by {
                    if k != id.0 {
                        assert(m0.contains_key(k));
                    }
                }
            }
        }
    }

    /// Adds an element (with any project parameter values) and returns its id.
    pub fn insert_element(&mut self, el: Element<D, P>) -> (id: ElementId)
        requires
            old(self).wf(),
        ensures
            id == el@.id,
            final(self).wf(),
            final(self)@.doc == (DocView { elements: old(self)@.doc.elements.insert(id.0, el@), ..old(self)@.doc }),
            final(self)@.touched == touch_spec(old(self)@.touched, old(self)@.doc.elements, id),
            final(self)@.origin() == old(self)@.origin(),
    {
        let id = el.id();
        self.replace(id, Some(el));
        id
    }

    /// Adds a new element with a fresh id and returns the id.
    pub fn insert(&mut self, body: Body<D>) -> (id: ElementId)
        requires
            old(self).wf(),
        ensures
            final(self).wf(),
            final(self)@.doc == (DocView {
                elements: old(self)@.doc.elements.insert(id.0, ElementView { id, rev: 1, body, params: Map::empty() }),
                ..old(self)@.doc
            }),
            final(self)@.touched == touch_spec(old(self)@.touched, old(self)@.doc.elements, id),
            final(self)@.origin() == old(self)@.origin(),
    {
        let el: Element<D, P> = Element::new(body);
        let ghost ev = el@;
        let id = self.insert_element(el);
        assert(ev == ElementView { id, rev: 1, body, params: Map::<Seq<char>, P>::empty() });
        id
    }

    /// Replaces an element's body.
    pub fn set(&mut self, id: ElementId, body: Body<D>) -> (r: Result<(), CoreError>)
        requires
            old(self).wf(),
        ensures
            final(self).wf(),
            final(self)@.origin() == old(self)@.origin(),
            old(self)@.doc.elements.contains_key(id.0) ==> r is Ok && final(self)@.doc == (DocView {
                elements: old(self)@.doc.elements.insert(id.0, ElementView { body, ..old(self)@.doc.elements[id.0] }),
                ..old(self)@.doc
            }) && final(self)@.touched == touch_spec(old(self)@.touched, old(self)@.doc.elements, id),
            !old(self)@.doc.elements.contains_key(id.0) ==> r == Err::<(), CoreError>(CoreError::NotFound(id))
                && final(self)@ == old(self)@,
    {
        let el = match self.doc.elements.get(&id.0) {
            Some(old_el) => old_el.with_body(body),
            None => return Err(CoreError::NotFound(id)),
        };
        assert(self@.doc.elements.contains_key(id.0));
        self.replace(id, Some(el));
        Ok(())
    }

    /// Sets (`Some`) or clears (`None`) a project parameter value.
    pub fn set_param(&mut self, id: ElementId, key: &str, value: Option<P>) -> (r: Result<(), CoreError>)
        requires
            old(self).wf(),
        ensures
            final(self).wf(),
            final(self)@.origin() == old(self)@.origin(),
            old(self)@.doc.elements.contains_key(id.0) ==> r is Ok && final(self)@.doc == (DocView {
                elements: old(self)@.doc.elements.insert(id.0, ElementView {
                    params: match value {
                        Some(v) => old(self)@.doc.elements[id.0].params.insert(key@, v),
                        None => old(self)@.doc.elements[id.0].params.remove(key@),
                    },
                    ..old(self)@.doc.elements[id.0]
                }),
                ..old(self)@.doc
            }) && final(self)@.touched == touch_spec(old(self)@.touched, old(self)@.doc.elements, id),
            !old(self)@.doc.elements.contains_key(id.0) ==> r == Err::<(), CoreError>(CoreError::NotFound(id))
                && final(self)@ == old(self)@,
    {
        let el = match self.doc.elements.get(&id.0) {
            Some(old_el) => old_el.with_param(key, value),
            None => return Err(CoreError::NotFound(id)),
        };
        assert(self@.doc.elements.contains_key(id.0));
        self.replace(id, Some(el));
        Ok(())
    }
}


/// The records after touching each of `ids` in turn, all of them present in `m`.
pub open spec fn touch_all<D, P>(
    t: Seq<(ElementId, Option<ElementView<D, P>>)>,
    m: Map<u128, ElementView<D, P>>,
    ids: Seq<ElementId>,
) -> Seq<(ElementId, Option<ElementView<D, P>>)>
    decreases ids.len(),
{
    if ids.len() == 0 {
        t
    } else {
        touch_spec(touch_all(t, m, ids.drop_last()), m, ids.last())
    }
}

/// `deleted` is what deleting `id` from `before` removes, and `after` is what is left:
/// `id` first, then elements that each depend on an element deleted before them, until no
/// element left depends on a deleted one.
pub open spec fn deletion<D, P>(
    before: Map<u128, ElementView<D, P>>,
    after: Map<u128, ElementView<D, P>>,
    id: ElementId,
    deleted: Seq<ElementId>,
) -> bool {
    &&& deleted.len() > 0
    &&& deleted[0] == id
    &&& deleted.no_duplicates()
    &&& forall|i: int| 0 <= i < deleted.len() ==> before.contains_key((#[trigger] deleted[i]).0)
    &&& forall|i: int| 0 < i < deleted.len() ==> exists|j: int| 0 <= j < i && before[(#[trigger] deleted[i]).0].body.refs@.contains(deleted[j])
    &&& forall|k: u128| #[trigger] after.contains_key(k) <==> before.contains_key(k) && !deleted.contains(ElementId(k))
    &&& forall|k: u128| #[trigger] after.contains_key(k) ==> after[k] == before[k]
    &&& forall|k: u128, r: ElementId| #![trigger after.contains_key(k), deleted.contains(r)] after.contains_key(k) && deleted.contains(r) ==> !after[k].body.refs@.contains(r)
}

/// Whether `refs` holds `x`.
fn refs_contain(refs: &Vec<ElementId>, x: ElementId) -> (r: bool)
    ensures
        r == refs@.contains(x),
{
    let mut i: usize = 0;
    while i < refs.len()
        invariant
            i <= refs.len(),
            forall|j: int| 0 <= j < i ==> refs@[j] != x,
        decreases refs.len() - i,
    {
        if refs[i] == x {
            return true;
        }
        i += 1;
    }
    false
}

impl<D, P> Tx<D, P> {
    /// Deletes an element and, recursively, every element that depends on it.
    /// Returns all deleted ids, in the order deleted.
    pub fn delete(&mut self, id: ElementId) -> (r: Result<Vec<ElementId>, CoreError>)
        requires
            old(self).wf(),
        ensures
            final(self).wf(),
            final(self)@.origin() == old(self)@.origin(),
            !old(self)@.doc.elements.contains_key(id.0) ==> r == Err::<Vec<ElementId>, CoreError>(CoreError::NotFound(id))
                && final(self)@ == old(self)@,
            old(self)@.doc.elements.contains_key(id.0) ==> (r matches Ok(d) && deletion(
                old(self)@.doc.elements,
                final(self)@.doc.elements,
                id,
                d@,
            ) && final(self)@.doc == (DocView { elements: final(self)@.doc.elements, ..old(self)@.doc })
                && final(self)@.touched == touch_all(old(self)@.touched, old(self)@.doc.elements, d@)),
    {
        if !self.doc.elements.contains_key(&id.0) {
            return Err(CoreError::NotFound(id));
        }
        let ghost m0 = self@.doc.elements;
        let ghost t0 = self@.touched;
        let ghost d0 = self@.doc;
        let mut deleted: Vec<ElementId> = Vec::new();
        let mut stack: Vec<ElementId> = Vec::new();
        stack.push(id);
        while stack.len() > 0
            invariant
                self.wf(),
                self@.origin() == old(self)@.origin(),
                self@.doc == (DocView { elements: self@.doc.elements, ..d0 }),
                m0 == old(self)@.doc.elements,
                m0.contains_key(id.0),
                self@.touched == touch_all(t0, m0, deleted@),
                forall|k: u128| #[trigger] self@.doc.elements.contains_key(k) <==> m0.contains_key(k) && !deleted@.contains(ElementId(k)),
                forall|k: u128| #[trigger] self@.doc.elements.contains_key(k) ==> self@.doc.elements[k] == m0[k],
                deleted@.no_duplicates(),
                deleted.len() > 0 ==> deleted@[0] == id,
                deleted.len() == 0 ==> stack@ == seq![id],
                forall|i: int| 0 <= i < deleted.len() ==> m0.contains_key((#[trigger] deleted@[i]).0),
                forall|i: int| 0 < i < deleted.len() ==> exists|j: int| 0 <= j < i && m0[(#[trigger] deleted@[i]).0].body.refs@.contains(deleted@[j]),
                forall|s: int| 0 <= s < stack.len() ==> (#[trigger] stack@[s]) == id || (m0.contains_key(stack@[s].0)
                    && exists|j: int| 0 <= j < deleted.len() && m0[stack@[s].0].body.refs@.contains(deleted@[j])),
                forall|k: u128, r: ElementId| #![trigger self@.doc.elements.contains_key(k), deleted@.contains(r)] self@.doc.elements.contains_key(k) && deleted@.contains(r)
                    && self@.doc.elements[k].body.refs@.contains(r) ==> stack@.contains(ElementId(k)),
            decreases self@.doc.elements.len(), stack.len(),
        {
            let ghost s0 = stack@;
            let cur = stack.pop().unwrap();
            assert(s0 == stack@.push(cur));
            if !self.doc.elements.contains_key(&cur.0) {
                proof {
                    assert forall|k: u128, r: ElementId| #![trigger self@.doc.elements.contains_key(k), deleted@.contains(r)] self@.doc.elements.contains_key(k) && deleted@.contains(r)
                        && self@.doc.elements[k].body.refs@.contains(r) implies stack@.contains(ElementId(k)) by {
                        assert(s0.contains(ElementId(k)));
                        let j = choose|j: int| 0 <= j < s0.len() && s0[j] == ElementId(k);
                        assert(j != s0.len() - 1);
                        assert(stack@[j] == ElementId(k));
                    }
                    assert forall|ss: int| 0 <= ss < stack.len() implies (#[trigger] stack@[ss]) == id || (m0.contains_key(stack@[ss].0)
                        && exists|j: int| 0 <= j < deleted.len() && m0[stack@[ss].0].body.refs@.contains(deleted@[j])) by {
                        assert(stack@[ss] == s0[ss]);
                    }
                    if deleted.len() == 0 {
                        assert(s0 == seq![id]);
                        assert(cur == id);
                        assert(!deleted@.contains(ElementId(id.0)));
                        assert(self@.doc.elements.contains_key(id.0));
                    }
                }
                continue;
            }
            let ghost dl0 = deleted@;
            let ghost n0 = self@.doc.elements.len();
            let ghost old_elems = self@.doc.elements;
            assert(old_elems.dom() =~= self.doc.elements@.dom());
            assert(self.doc.elements@.dom().finite());
            assert(self@.doc.elements.contains_key(cur.0));
            assert(!dl0.contains(cur));
            self.replace(cur, None);
            deleted.push(cur);
            proof {
                let m1 = self@.doc.elements;
                assert(deleted@ == dl0.push(cur));
                assert(deleted@.drop_last() =~= dl0);
                assert(at(old_elems, cur) == at(m0, cur));
                assert(self@.touched == touch_all(t0, m0, deleted@));
                assert(m1 == old_elems.remove(cur.0));
                assert(old_elems.dom().finite());
                assert(m1.len() < n0);
                assert forall|k: u128| #[trigger] m1.contains_key(k) <==> m0.contains_key(k) && !deleted@.contains(ElementId(k)) by {
                    if deleted@.contains(ElementId(k)) && !dl0.contains(ElementId(k)) {
                        let j = choose|j: int| 0 <= j < deleted.len() && deleted@[j] == ElementId(k);
                        assert(j == deleted.len() - 1);
                    }
                    if dl0.contains(ElementId(k)) {
                        let j = choose|j: int| 0 <= j < dl0.len() && dl0[j] == ElementId(k);
                        assert(deleted@[j] == ElementId(k));
                    }
                }
                assert(deleted@.no_duplicates()) by {
                    assert forall|a: int, b: int| 0 <= a < deleted.len() && 0 <= b < deleted.len() && a != b implies deleted@[a] != deleted@[b] by {
                        if a == deleted.len() - 1 {
                            assert(dl0[b] == deleted@[b]);
                        } else if b == deleted.len() - 1 {
                            assert(dl0[a] == deleted@[a]);
                        }
                    }
                }
                if dl0.len() == 0 {
                    assert(s0 == seq![id]);
                    assert(cur == id);
                } else {
                    assert(deleted@[0] == dl0[0]);
                    assert(s0[s0.len() - 1] == cur);
                    if cur == id {
                        assert(dl0[0] == id);
                        assert(dl0.contains(cur));
                    }
                    let j = choose|j: int| 0 <= j < dl0.len() && m0[cur.0].body.refs@.contains(dl0[j]);
                    assert(deleted@[j] == dl0[j]);
                }
                assert forall|i: int| 0 < i < deleted.len() implies exists|j: int| 0 <= j < i && m0[(#[trigger] deleted@[i]).0].body.refs@.contains(deleted@[j]) by {
                    if i < deleted.len() - 1 {
                        assert(deleted@[i] == dl0[i]);
                        let j = choose|j: int| 0 <= j < i && m0[dl0[i].0].body.refs@.contains(dl0[j]);
                        assert(deleted@[j] == dl0[j]);
                    } else {
                        let j = choose|j: int| 0 <= j < dl0.len() && m0[cur.0].body.refs@.contains(dl0[j]);
                        assert(deleted@[j] == dl0[j]);
                    }
                }
                assert forall|i: int| 0 <= i < deleted.len() implies m0.contains_key((#[trigger] deleted@[i]).0) by {
                    if i < deleted.len() - 1 {
                        assert(deleted@[i] == dl0[i]);
                    }
                }
                assert forall|ss: int| 0 <= ss < stack.len() implies (#[trigger] stack@[ss]) == id || (m0.contains_key(stack@[ss].0)
                    && exists|j: int| 0 <= j < deleted.len() && m0[stack@[ss].0].body.refs@.contains(deleted@[j])) by {
                    assert(stack@[ss] == s0[ss]);
                    if stack@[ss] != id {
                        let j = choose|j: int| 0 <= j < dl0.len() && m0[stack@[ss].0].body.refs@.contains(dl0[j]);
                        assert(deleted@[j] == dl0[j]);
                    }
                }
            }
            let all = self.doc.collect(None);
            let ghost av = all@.map_values(|e: &Element<D, P>| e@);
            let mut i: usize = 0;
            while i < all.len()
                invariant
                    i <= all.len(),
                    av == all@.map_values(|e: &Element<D, P>| e@),
                    listed(av, self@.doc.elements, |e: ElementView<D, P>| true),
                    forall|s: int| 0 <= s < stack.len() ==> (#[trigger] stack@[s]) == id || (m0.contains_key(stack@[s].0)
                        && exists|j: int| 0 <= j < deleted.len() && m0[stack@[s].0].body.refs@.contains(deleted@[j])),
                    forall|a: int| 0 <= a < i && av[a].body.refs@.contains(cur) ==> stack@.contains(#[trigger] av[a].id),
                    forall|x: ElementId| s0.drop_last().contains(x) ==> #[trigger] stack@.contains(x),
                    deleted@.last() == cur,
                    deleted.len() > 0,
                    forall|k: u128| #[trigger] self@.doc.elements.contains_key(k) ==> self@.doc.elements[k] == m0[k]
                        && m0.contains_key(k),
                decreases all.len() - i,
            {
                let e = all[i];
                if refs_contain(&e.body().refs, cur) {
                    let ghost st = stack@;
                    stack.push(e.id());
                    proof {
                        assert(av[i as int] == e@);
                        assert(self@.doc.elements.contains_key(e@.id.0));
                        assert(m0[e@.id.0] == e@);
                        assert forall|s: int| 0 <= s < stack.len() implies (#[trigger] stack@[s]) == id || (m0.contains_key(stack@[s].0)
                            && exists|j: int| 0 <= j < deleted.len() && m0[stack@[s].0].body.refs@.contains(deleted@[j])) by {
                            if s == stack.len() - 1 {
                                assert(m0[stack@[s].0].body.refs@.contains(deleted@[deleted.len() - 1]));
                            } else {
                                assert(stack@[s] == st[s]);
                            }
                        }
                        assert forall|x: ElementId| s0.drop_last().contains(x) implies #[trigger] stack@.contains(x) by {
                            assert(st.contains(x));
                            let j = choose|j: int| 0 <= j < st.len() && st[j] == x;
                            assert(stack@[j] == x);
                        }
                        assert forall|a: int| 0 <= a <= i && av[a].body.refs@.contains(cur) implies stack@.contains(#[trigger] av[a].id) by {
                            if a == i {
                                assert(stack@[stack.len() - 1] == av[a].id);
                            } else {
                                assert(st.contains(av[a].id));
                                let j = choose|j: int| 0 <= j < st.len() && st[j] == av[a].id;
                                assert(stack@[j] == av[a].id);
                            }
                        }
                    }
                }
                i += 1;
            }
            proof {
                assert(deleted@.no_duplicates());
                assert forall|k: u128, r: ElementId| #![trigger self@.doc.elements.contains_key(k), deleted@.contains(r)] self@.doc.elements.contains_key(k) && deleted@.contains(r)
                    && self@.doc.elements[k].body.refs@.contains(r) implies stack@.contains(ElementId(k)) by {
                    let a = choose|a: int| 0 <= a < av.len() && av[a].id.0 == k;
                    assert(av[a] == self@.doc.elements[k]);
                    assert(av[a].id == ElementId(k));
                    if r == cur {
                    } else {
                        assert(dl0.contains(r));
                        assert(s0.contains(ElementId(k)));
                        let j = choose|j: int| 0 <= j < s0.len() && s0[j] == ElementId(k);
                        assert(j != s0.len() - 1);
                        assert(s0.drop_last().contains(ElementId(k)));
                    }
                }
            }
        }
        Ok(deleted)
    }
}


/// Every element of `m` that refers to an element of `s` is in `s`.
pub open spec fn closed_under_refs<D, P>(m: Map<u128, ElementView<D, P>>, s: Set<u128>) -> bool {
    forall|k: u128, r: ElementId|
        #![trigger s.contains(k), s.contains(r.0)]
        m.contains_key(k) && s.contains(r.0) && m[k].body.refs@.contains(r) ==> s.contains(k)
}

/// Every id of `ids` that `m` has is in `s`.
pub open spec fn holds_ids<D, P>(m: Map<u128, ElementView<D, P>>, s: Set<u128>, ids: Seq<ElementId>) -> bool {
    forall|i: int| 0 <= i < ids.len() && m.contains_key((#[trigger] ids[i]).0) ==> s.contains(ids[i].0)
}

/// `after` is `before` without the elements of `ids` and, recursively, everything that
/// depends on them: the least set of ids that holds them and everything referring to it.
pub open spec fn removal<D, P>(
    before: Map<u128, ElementView<D, P>>,
    after: Map<u128, ElementView<D, P>>,
    ids: Seq<ElementId>,
) -> bool {
    let removed = before.dom().difference(after.dom());
    &&& forall|k: u128| #[trigger] after.contains_key(k) ==> before.contains_key(k) && after[k] == before[k]
    &&& holds_ids(before, removed, ids)
    &&& closed_under_refs(before, removed)
    &&& forall|s: Set<u128>| holds_ids(before, s, ids) && closed_under_refs(before, s) ==> removed.subset_of(s)
}

/// What one deletion removes lies in every set that holds its id and everything referring
/// to the set.
proof fn lemma_deleted_in_closed<D, P>(
    before: Map<u128, ElementView<D, P>>,
    cur: Map<u128, ElementView<D, P>>,
    after: Map<u128, ElementView<D, P>>,
    id: ElementId,
    d: Seq<ElementId>,
    s: Set<u128>,
    j: int,
)
    requires
        deletion(cur, after, id, d),
        forall|k: u128| #[trigger] cur.contains_key(k) ==> before.contains_key(k) && cur[k] == before[k],
        s.contains(id.0),
        closed_under_refs(before, s),
        0 <= j < d.len(),
    ensures
        s.contains(d[j].0),
    decreases j,
{
    if j > 0 {
        let i = choose|i: int| 0 <= i < j && cur[(#[trigger] d[j]).0].body.refs@.contains(d[i]);
        assert(0 <= i < j && cur[d[j].0].body.refs@.contains(d[i]));
        lemma_deleted_in_closed(before, cur, after, id, d, s, i);
        assert(cur.contains_key(d[j].0));
        assert(before[d[j].0].body.refs@.contains(d[i]));
        assert(s.contains(d[i].0));
    }
}

impl<D, P> Tx<D, P> {
    /// Deletes each of `ids` that exists and, recursively, everything that depends on it.
    /// Returns how many elements were deleted.
    pub fn delete_all(&mut self, ids: &Vec<ElementId>) -> (n: usize)
        requires
            old(self).wf(),
        ensures
            final(self).wf(),
            final(self)@.origin() == old(self)@.origin(),
            final(self)@.doc == (DocView { elements: final(self)@.doc.elements, ..old(self)@.doc }),
            removal(old(self)@.doc.elements, final(self)@.doc.elements, ids@),
            n == old(self)@.doc.elements.len() - final(self)@.doc.elements.len(),
    {
        let ghost before = self@.doc.elements;
        let ghost t0 = self@;
        let total = self.doc.len();
        let mut n: usize = 0;
        let mut i: usize = 0;
        assert(before.dom() =~= self.doc.elements@.dom());
        assert(before.dom().difference(before.dom()) =~= Set::<u128>::empty());
        while i < ids.len()
            invariant
                i <= ids.len(),
                self.wf(),
                self@.origin() == t0.origin(),
                self@.doc == (DocView { elements: self@.doc.elements, ..t0.doc }),
                before == t0.doc.elements,
                total == before.len(),
                before.dom().finite(),
                forall|k: u128| #[trigger] self@.doc.elements.contains_key(k) ==> before.contains_key(k)
                    && self@.doc.elements[k] == before[k],
                holds_ids(before, before.dom().difference(self@.doc.elements.dom()), ids@.take(i as int)),
                closed_under_refs(before, before.dom().difference(self@.doc.elements.dom())),
                forall|s: Set<u128>| holds_ids(before, s, ids@) && closed_under_refs(before, s)
                    ==> before.dom().difference(self@.doc.elements.dom()).subset_of(s),
                n == before.len() - self@.doc.elements.len(),
                self@.doc.elements.len() <= before.len(),
            decreases ids.len() - i,
        {
            let id = ids[i];
            let ghost cur = self@.doc.elements;
            let ghost removed0 = before.dom().difference(cur.dom());
            assert(ids@.take(i + 1) =~= ids@.take(i as int).push(id));
            if self.get(id).is_some() {
                match self.delete(id) {
                    Ok(d) => {
                        let ghost after = self@.doc.elements;
                        let ghost ds = d@;
                        proof {
                            let removed1 = before.dom().difference(after.dom());
                            // The count: the deleted ids are distinct and were all there.
                            ds.unique_seq_to_set();
                            let dk = ds.map_values(|x: ElementId| x.0);
                            let dset = dk.to_set();
                            vstd::seq_lib::seq_to_set_is_finite(dk);
                            assert(after.dom() =~= self.doc.elements@.dom());
                            assert(dk.no_duplicates()) by {
                                assert forall|a: int, b: int| 0 <= a < dk.len() && 0 <= b < dk.len() && a != b
                                    implies #[trigger] dk[a] != #[trigger] dk[b] by {
                                    assert(ds[a] != ds[b]);
                                }
                            }
                            dk.unique_seq_to_set();
                            assert(cur.dom() =~= after.dom() + dset) by {
                                assert forall|k: u128| cur.dom().contains(k) implies (after.dom() + dset).contains(k) by {
                                    if !after.contains_key(k) {
                                        assert(ds.contains(ElementId(k)));
                                        let a = choose|a: int| 0 <= a < ds.len() && ds[a] == ElementId(k);
                                        assert(dk[a] == k);
                                    }
                                }
                                assert forall|k: u128| (after.dom() + dset).contains(k) implies cur.dom().contains(k) by {
                                    if dset.contains(k) {
                                        let a = choose|a: int| 0 <= a < dk.len() && #[trigger] dk[a] == k;
                                        assert(cur.contains_key(ds[a].0));
                                    }
                                }
                            }
                            assert(after.dom().disjoint(dset)) by {
                                assert forall|k: u128| dset.contains(k) implies !after.dom().contains(k) by {
                                    let a = choose|a: int| 0 <= a < dk.len() && #[trigger] dk[a] == k;
                                    assert(ds.contains(ds[a]));
                                    assert(ds[a] == ElementId(k));
                                }
                            }
                            vstd::set_lib::lemma_set_disjoint_lens(after.dom(), dset);
                            // What stays is unchanged.
                            assert forall|k: u128| #[trigger] after.contains_key(k) implies before.contains_key(k)
                                && after[k] == before[k] by {
                                assert(cur.contains_key(k));
                            }
                            // The ids so far are removed.
                            assert(holds_ids(before, removed1, ids@.take(i + 1))) by {
                                assert forall|q: int| 0 <= q < ids@.take(i + 1).len() && before.contains_key((#[trigger] ids@.take(i + 1)[q]).0)
                                    implies removed1.contains(ids@.take(i + 1)[q].0) by {
                                    if q < i {
                                        assert(ids@.take(i + 1)[q] == ids@.take(i as int)[q]);
                                        assert(removed0.contains(ids@.take(i as int)[q].0));
                                    } else {
                                        assert(ds[0] == id);
                                        assert(ds.contains(id));
                                    }
                                }
                            }
                            // Nothing left refers to a removed element.
                            assert(closed_under_refs(before, removed1)) by {
                                assert forall|k: u128, r: ElementId|
                                    before.contains_key(k) && removed1.contains(r.0) && before[k].body.refs@.contains(r)
                                    implies removed1.contains(k) by {
                                    if removed0.contains(r.0) {
                                        assert(removed0.contains(k));
                                    } else if after.contains_key(k) {
                                        assert(cur.contains_key(r.0));
                                        assert(!after.contains_key(r.0));
                                        assert(ds.contains(ElementId(r.0)));
                                        assert(r == ElementId(r.0));
                                        assert(after[k] == before[k]);
                                        assert(!after[k].body.refs@.contains(r));
                                    }
                                }
                            }
                            // Every removed element had to go.
                            assert forall|s: Set<u128>| holds_ids(before, s, ids@) && closed_under_refs(before, s)
                                implies removed1.subset_of(s) by {
                                assert(removed0.subset_of(s));
                                assert(ids@[i as int] == id);
                                assert(s.contains(id.0));
                                assert forall|k: u128| removed1.contains(k) implies s.contains(k) by {
                                    if !removed0.contains(k) {
                                        assert(cur.contains_key(k) && !after.contains_key(k));
                                        assert(ds.contains(ElementId(k)));
                                        let a = choose|a: int| 0 <= a < ds.len() && ds[a] == ElementId(k);
                                        lemma_deleted_in_closed(before, cur, after, id, ds, s, a);
                                    }
                                }
                            }
                        }
                        n = n + d.len();
                    },
                    Err(_) => {},
                }
            } else {
                assert(holds_ids(before, removed0, ids@.take(i + 1))) by {
                    assert forall|q: int| 0 <= q < ids@.take(i + 1).len() && before.contains_key((#[trigger] ids@.take(i + 1)[q]).0)
                        implies removed0.contains(ids@.take(i + 1)[q].0) by {
                        if q < i {
                            assert(ids@.take(i + 1)[q] == ids@.take(i as int)[q]);
                        }
                    }
                }
            }
            i += 1;
        }
        assert(ids@.take(ids.len() as int) =~= ids@);
        n
    }
}

// ---------------------------------------------------------------------------------------
// Commit
// ---------------------------------------------------------------------------------------

/// Why a commit is refused.
pub enum Refusal {
    /// An element of this category references this missing element.
    Dangling(Category, ElementId),
    /// The check given for the touched element at this position failed.
    Check(int),
    /// The check of all openings failed.
    Openings,
}

/// The first reference that `m` lacks.
pub open spec fn first_missing<D, P>(refs: Seq<ElementId>, m: Map<u128, ElementView<D, P>>) -> Option<ElementId>
    decreases refs.len(),
{
    if refs.len() == 0 {
        None
    } else if !m.contains_key(refs[0].0) {
        Some(refs[0])
    } else {
        first_missing(refs.drop_first(), m)
    }
}

/// The first refusal among the touched elements from position `i` on: each touched
/// element that still exists must reference only existing elements, then pass its check.
pub open spec fn refusal_from<D, P>(
    m: Map<u128, ElementView<D, P>>,
    t: Seq<(ElementId, Option<ElementView<D, P>>)>,
    checks: Seq<Result<(), CoreError>>,
    i: int,
) -> Option<Refusal>
    decreases t.len() - i,
{
    if i < 0 || i >= t.len() {
        None
    } else if m.contains_key(t[i].0.0) {
        match first_missing(m[t[i].0.0].body.refs@, m) {
            Some(r) => Some(Refusal::Dangling(m[t[i].0.0].body.category, r)),
            None => if checks[i] is Err {
                Some(Refusal::Check(i))
            } else {
                refusal_from(m, t, checks, i + 1)
            },
        }
    } else {
        refusal_from(m, t, checks, i + 1)
    }
}

/// Why committing the transaction `tx` with these checks is refused, if it is.
pub open spec fn refusal<D, P>(
    tx: TxView<D, P>,
    checks: Seq<Result<(), CoreError>>,
    openings: Result<(), CoreError>,
) -> Option<Refusal> {
    match refusal_from(tx.doc.elements, tx.touched, checks, 0) {
        Some(f) => Some(f),
        None => if openings is Err {
            Some(Refusal::Openings)
        } else {
            None
        },
    }
}

/// The error a refusal is reported with.
pub open spec fn reported(
    r: Result<(), CoreError>,
    f: Refusal,
    checks: Seq<Result<(), CoreError>>,
    openings: Result<(), CoreError>,
) -> bool {
    match f {
        Refusal::Dangling(c, missing) => r matches Err(CoreError::DanglingRef { kind, missing: x })
            && kind@ == c.name() && x == missing,
        Refusal::Check(i) => r == checks[i],
        Refusal::Openings => r == openings,
    }
}

/// The revision after a committed modification.
pub open spec fn next_rev(rev: u64) -> u64 {
    if rev == u64::MAX {
        0
    } else {
        (rev + 1) as u64
    }
}

/// The after-image a commit records for a touched id: what the transaction left, with its
/// revision one past the before-image's when there was one.
pub open spec fn after_image<D, P>(
    m: Map<u128, ElementView<D, P>>,
    id: ElementId,
    prev: Option<ElementView<D, P>>,
) -> Option<ElementView<D, P>> {
    if m.contains_key(id.0) {
        Some(
            match prev {
                Some(p) => ElementView { rev: next_rev(p.rev), ..m[id.0] },
                None => m[id.0],
            },
        )
    } else {
        None
    }
}

/// The after-images of all touched ids.
pub open spec fn after_records<D, P>(
    m: Map<u128, ElementView<D, P>>,
    t: Seq<(ElementId, Option<ElementView<D, P>>)>,
) -> Seq<(ElementId, Option<ElementView<D, P>>)> {
    t.map_values(|x: (ElementId, Option<ElementView<D, P>>)| (x.0, after_image(m, x.0, x.1)))
}

/// The elements after a commit.
pub open spec fn committed<D, P>(
    m: Map<u128, ElementView<D, P>>,
    t: Seq<(ElementId, Option<ElementView<D, P>>)>,
) -> Map<u128, ElementView<D, P>> {
    overlay(m, after_records(m, t))
}

/// The entries a commit records: each touched id, in order, with its before and after
/// image, except ids that neither existed before nor exist after.
pub open spec fn change_entries<D, P>(
    m: Map<u128, ElementView<D, P>>,
    t: Seq<(ElementId, Option<ElementView<D, P>>)>,
) -> Seq<(ElementId, Option<ElementView<D, P>>, Option<ElementView<D, P>>)>
    decreases t.len(),
{
    if t.len() == 0 {
        Seq::empty()
    } else {
        let rest = change_entries(m, t.drop_last());
        let id = t.last().0;
        let prev = t.last().1;
        let after = after_image(m, id, prev);
        if prev is None && after is None {
            rest
        } else {
            rest.push((id, prev, after))
        }
    }
}

/// The document after undoing its last transaction, stamped `stamp`.
pub open spec fn undone<D, P>(d: DocView<D, P>, stamp: u64) -> DocView<D, P> {
    DocView {
        elements: overlay(d.elements, befores(d.undo.last())),
        undo: d.undo.drop_last(),
        redo: d.redo.push(d.undo.last()),
        dirty: true,
        stamp,
    }
}

/// The document after redoing its last undone transaction, stamped `stamp`.
pub open spec fn redone<D, P>(d: DocView<D, P>, stamp: u64) -> DocView<D, P> {
    DocView {
        elements: overlay(d.elements, afters(d.redo.last())),
        undo: d.undo.push(d.redo.last()),
        redo: d.redo.drop_last(),
        dirty: true,
        stamp,
    }
}

/// The document after a successful commit of `tx` named `name`.
pub open spec fn committed_doc<D, P>(tx: TxView<D, P>, name: Seq<char>, stamp: u64) -> DocView<D, P> {
    let es = change_entries(tx.doc.elements, tx.touched);
    if es.len() == 0 {
        DocView { elements: committed(tx.doc.elements, tx.touched), ..tx.doc }
    } else {
        DocView {
            elements: committed(tx.doc.elements, tx.touched),
            undo: tx.doc.undo.push(ChangeSetView { name, entries: es }),
            redo: Seq::empty(),
            dirty: true,
            stamp,
        }
    }
}

/// Entry `e` is the record of the touched id at position `j`.
pub open spec fn entry_from<D, P>(
    e: (ElementId, Option<ElementView<D, P>>, Option<ElementView<D, P>>),
    m: Map<u128, ElementView<D, P>>,
    t: Seq<(ElementId, Option<ElementView<D, P>>)>,
    j: int,
) -> bool {
    &&& 0 <= j < t.len()
    &&& e == (t[j].0, t[j].1, after_image(m, t[j].0, t[j].1))
    &&& !(t[j].1 is None && after_image(m, t[j].0, t[j].1) is None)
}

/// Each recorded entry comes from a touched id.
proof fn lemma_entry_source<D, P>(
    m: Map<u128, ElementView<D, P>>,
    t: Seq<(ElementId, Option<ElementView<D, P>>)>,
    i: int,
) -> (j: int)
    requires
        0 <= i < change_entries(m, t).len(),
    ensures
        entry_from(change_entries(m, t)[i], m, t, j),
    decreases t.len(),
{
    let t0 = t.drop_last();
    let rest = change_entries(m, t0);
    if i < rest.len() {
        let j = lemma_entry_source(m, t0, i);
        assert(t[j] == t0[j]);
        j
    } else {
        let j = t.len() - 1;
        assert(t.last() == t[j]);
        j
    }
}

proof fn lemma_entries_shape<D, P>(
    m: Map<u128, ElementView<D, P>>,
    t: Seq<(ElementId, Option<ElementView<D, P>>)>,
)
    requires
        distinct_ids(t),
    ensures
        forall|j: int| 0 <= j < t.len() && !((#[trigger] t[j]).1 is None && after_image(m, t[j].0, t[j].1) is None)
            ==> exists|i: int| 0 <= i < change_entries(m, t).len() && change_entries(m, t)[i].0 == t[j].0,
        forall|i: int, k: int| 0 <= i < k < change_entries(m, t).len() ==> change_entries(m, t)[i].0 != change_entries(m, t)[k].0,
    decreases t.len(),
{
    if t.len() > 0 {
        let t0 = t.drop_last();
        assert(distinct_ids(t0));
        lemma_entries_shape(m, t0);
        let rest = change_entries(m, t0);
        let es = change_entries(m, t);
        assert forall|j: int| 0 <= j < t.len() && !((#[trigger] t[j]).1 is None && after_image(m, t[j].0, t[j].1) is None)
            implies exists|i: int| 0 <= i < es.len() && es[i].0 == t[j].0 by {
            if j < t.len() - 1 {
                assert(t0[j] == t[j]);
                let i = choose|i: int| 0 <= i < rest.len() && rest[i].0 == t0[j].0;
                assert(es[i] == rest[i]);
            } else {
                assert(es[es.len() - 1].0 == t[j].0);
            }
        }
        assert forall|i: int, k: int| 0 <= i < k < es.len() implies es[i].0 != es[k].0 by {
            if k < rest.len() {
                assert(es[i] == rest[i] && es[k] == rest[k]);
            } else {
                assert(es[i] == rest[i]);
                let j = lemma_entry_source(m, t0, i);
                assert(t[j].0 != t[t.len() - 1].0);
            }
        }
    }
}

/// Undoing a commit restores the elements as they were when the transaction began, and
/// the commit's record agrees with what it left. If nothing is recorded, the commit left
/// the elements as they were.
pub proof fn lemma_commit_record<D, P>(
    m: Map<u128, ElementView<D, P>>,
    t: Seq<(ElementId, Option<ElementView<D, P>>)>,
    name: Seq<char>,
)
    requires
        distinct_ids(t),
        images_match(t),
        ids_match(m),
    ensures
        ({
            let cs = ChangeSetView { name, entries: change_entries(m, t) };
            &&& change_ok(cs)
            &&& agrees(afters(cs), committed(m, t))
            &&& overlay(committed(m, t), befores(cs)) == overlay(m, t)
            &&& ids_match(committed(m, t))
        }),
        change_entries(m, t).len() == 0 ==> committed(m, t) == overlay(m, t),
{
    let es = change_entries(m, t);
    let cs = ChangeSetView { name, entries: es };
    let a = after_records(m, t);
    let c = committed(m, t);
    lemma_entries_shape(m, t);
    assert(distinct_ids(a)) by {
        assert forall|i: int, j: int| 0 <= i < j < a.len() implies a[i].0 != a[j].0 by {
            assert(a[i].0 == t[i].0 && a[j].0 == t[j].0);
        }
    }
    assert(images_match(a)) by {
        assert forall|i: int| 0 <= i < a.len() implies ((#[trigger] a[i]).1 matches Some(v) ==> v.id == a[i].0) by {
            if m.contains_key(t[i].0.0) {
                assert(m[t[i].0.0].id.0 == t[i].0.0);
            }
        }
    }
    lemma_overlay_ids(m, a);
    let bs = befores(cs);
    let afs = afters(cs);
    assert(distinct_ids(bs)) by {
        assert forall|i: int, j: int| 0 <= i < j < bs.len() implies bs[i].0 != bs[j].0 by {
            assert(bs[i].0 == es[i].0 && bs[j].0 == es[j].0);
        }
    }
    assert(images_match(bs)) by {
        assert forall|i: int| 0 <= i < bs.len() implies ((#[trigger] bs[i]).1 matches Some(v) ==> v.id == bs[i].0) by {
            let j = lemma_entry_source(m, t, i);
            assert(bs[i] == (t[j].0, t[j].1));
            assert(t[j] == (t[j].0, t[j].1));
        }
    }
    assert(images_match(afs)) by {
        assert forall|i: int| 0 <= i < afs.len() implies ((#[trigger] afs[i]).1 matches Some(v) ==> v.id == afs[i].0) by {
            let j = lemma_entry_source(m, t, i);
            if m.contains_key(t[j].0.0) {
                assert(m[t[j].0.0].id.0 == t[j].0.0);
            }
        }
    }
    assert(agrees(afs, c)) by {
        assert forall|i: int| 0 <= i < afs.len() implies match (#[trigger] afs[i]).1 {
            Some(v) => c.contains_key(afs[i].0.0) && c[afs[i].0.0] == v,
            None => !c.contains_key(afs[i].0.0),
        } by {
            let j = lemma_entry_source(m, t, i);
            lemma_overlay_hit(m, a, j);
        }
    }
    let o = overlay(m, t);
    assert forall|k: u128| #[trigger] overlay(c, bs).contains_key(k) == o.contains_key(k) && (o.contains_key(k)
        ==> overlay(c, bs)[k] == o[k]) by {
        if has_id(bs, k) {
            let i = choose|i: int| 0 <= i < bs.len() && (#[trigger] bs[i]).0.0 == k;
            let j = lemma_entry_source(m, t, i);
            lemma_overlay_hit(c, bs, i);
            lemma_overlay_hit(m, t, j);
        } else if has_id(t, k) {
            let j = choose|j: int| 0 <= j < t.len() && (#[trigger] t[j]).0.0 == k;
            if !(t[j].1 is None && after_image(m, t[j].0, t[j].1) is None) {
                let i = choose|i: int| 0 <= i < es.len() && es[i].0 == t[j].0;
                assert(bs[i].0.0 == k);
            }
            lemma_overlay_miss(c, bs, k);
            lemma_overlay_hit(m, a, j);
            lemma_overlay_hit(m, t, j);
        } else {
            lemma_overlay_miss(c, bs, k);
            assert(!has_id(a, k)) by {
                if has_id(a, k) {
                    let j = choose|j: int| 0 <= j < a.len() && (#[trigger] a[j]).0.0 == k;
                    assert(t[j].0.0 == k);
                }
            }
            lemma_overlay_miss(m, a, k);
            lemma_overlay_miss(m, t, k);
        }
    }
    assert(overlay(c, bs) =~= o);
    if es.len() == 0 {
        assert(bs =~= Seq::<(ElementId, Option<ElementView<D, P>>)>::empty());
        assert(overlay(c, bs) == c);
    }
}


/// The error at position `i` of `checks`.
fn take_err(checks: Vec<Result<(), CoreError>>, i: usize) -> (e: CoreError)
    requires
        i < checks.len(),
        checks@[i as int] is Err,
    ensures
        checks@[i as int] == Err::<(), CoreError>(e),
{
    let mut c = checks;
    let r = c.swap_remove(i);
    match r {
        Err(e) => e,
        Ok(()) => CoreError::NothingTo("check"),
    }
}

impl<D, P> ChangeSet<D, P> {
    /// Every element the change set touches, in order.
    pub fn touched(&self) -> (v: Vec<ElementId>)
        ensures
            v@ == self@.entries.map_values(|e: (ElementId, Option<ElementView<D, P>>, Option<ElementView<D, P>>)| e.0),
    {
        let mut v: Vec<ElementId> = Vec::new();
        let mut i: usize = 0;
        while i < self.entries.len()
            invariant
                i <= self.entries.len(),
                v@ == self@.entries.take(i as int).map_values(|e: (ElementId, Option<ElementView<D, P>>, Option<ElementView<D, P>>)| e.0),
            decreases self.entries.len() - i,
        {
            v.push(self.entries[i].0);
            assert(self@.entries.take(i + 1) =~= self@.entries.take(i as int).push(self@.entries[i as int]));
            assert(v@ =~= self@.entries.take(i + 1).map_values(|e: (ElementId, Option<ElementView<D, P>>, Option<ElementView<D, P>>)| e.0));
            i += 1;
        }
        assert(self@.entries.take(self.entries.len() as int) =~= self@.entries);
        v
    }

    /// A copy of the change set (element bodies and values are shared).
    pub fn duplicate(&self) -> (r: ChangeSet<D, P>)
        ensures
            r@ == self@,
    {
        let mut es: Vec<(ElementId, Option<Element<D, P>>, Option<Element<D, P>>)> = Vec::new();
        let mut i: usize = 0;
        while i < self.entries.len()
            invariant
                i <= self.entries.len(),
                es@.map_values(|t: (ElementId, Option<Element<D, P>>, Option<Element<D, P>>)| (t.0, opt_view(t.1), opt_view(t.2)))
                    == self@.entries.take(i as int),
            decreases self.entries.len() - i,
        {
            let e = &self.entries[i];
            let b = match &e.1 {
                Some(x) => Some(x.duplicate()),
                None => None,
            };
            let a = match &e.2 {
                Some(x) => Some(x.duplicate()),
                None => None,
            };
            es.push((e.0, b, a));
            assert(self@.entries.take(i + 1) =~= self@.entries.take(i as int).push(self@.entries[i as int]));
            assert(es@.map_values(|t: (ElementId, Option<Element<D, P>>, Option<Element<D, P>>)| (t.0, opt_view(t.1), opt_view(t.2)))
                =~= self@.entries.take(i + 1));
            i += 1;
        }
        assert(self@.entries.take(self.entries.len() as int) =~= self@.entries);
        ChangeSet { name: self.name.clone(), entries: es }
    }
}

/// Whether a stored map has an element at `id`.
fn holds<D, P>(m: &BTreeMap<u128, Element<D, P>>, id: ElementId) -> (r: bool)
    ensures
        r == state_of(m@).contains_key(id.0),
{
    m.contains_key(&id.0)
}

impl<D, P> Document<D, P> {
    /// Starts a transaction. The document is handed to the transaction, which gives it
    /// back when it commits or rolls back.
    pub fn begin(self) -> (tx: Tx<D, P>)
        requires
            self.wf(),
        ensures
            tx.wf(),
            tx@.doc == self@,
            tx@.touched.len() == 0,
            tx@.origin() == self@.elements,
    {
        let tx = Tx { doc: self, before: Vec::new(), seen: BTreeSet::new() };
        assert(tx@.touched =~= Seq::<(ElementId, Option<ElementView<D, P>>)>::empty());
        tx
    }

    /// Puts each recorded image in, in order.
    fn apply(&mut self, es: &Vec<(ElementId, Option<Element<D, P>>)>)
        ensures
            final(self)@ == (DocView { elements: overlay(old(self)@.elements, before_views(es@)), ..old(self)@ }),
    {
        let ghost m0 = self@.elements;
        let mut i: usize = 0;
        while i < es.len()
            invariant
                i <= es.len(),
                self@ == (DocView { elements: overlay(m0, before_views(es@).take(i as int)), ..old(self)@ }),
            decreases es.len() - i,
        {
            let img = match &es[i].1 {
                Some(e) => Some(e.duplicate()),
                None => None,
            };
            put_exec(&mut self.elements, es[i].0, img);
            assert(before_views(es@).take(i + 1).drop_last() =~= before_views(es@).take(i as int));
            i += 1;
        }
        assert(before_views(es@).take(es.len() as int) =~= before_views(es@));
    }

    /// Reverts the last transaction and returns it. `stamp` is a fresh stamp, newer than
    /// every stamp handed out before (so newer than this document's).
    pub fn undo(&mut self, stamp: u64) -> (r: Result<ChangeSet<D, P>, CoreError>)
        requires
            old(self).wf(),
            old(self)@.stamp < stamp,
        ensures
            final(self).wf(),
            old(self)@.undo.len() == 0 ==> r == Err::<ChangeSet<D, P>, CoreError>(CoreError::NothingTo("undo"))
                && final(self)@ == old(self)@,
            old(self)@.undo.len() > 0 ==> (r matches Ok(cs) && cs@ == old(self)@.undo.last()
                && final(self)@ == undone(old(self)@, stamp)
                && final(self)@.stamp > old(self)@.stamp),
    {
        if self.undo.len() == 0 {
            return Err(CoreError::NothingTo("undo"));
        }
        let ghost d0 = self@;
        let cs = self.undo.pop().unwrap();
        let ghost c = cs@;
        assert(c == d0.undo.last());
        assert(self@.undo =~= d0.undo.drop_last());
        let ghost m0 = self@.elements;
        let ghost bs = befores(c);
        let mut i: usize = 0;
        while i < cs.entries.len()
            invariant
                i <= cs.entries.len(),
                c == cs@,
                bs == befores(c),
                self@ == (DocView { elements: overlay(m0, bs.take(i as int)), ..self@ }),
                self@.undo == d0.undo.drop_last(),
                self@.redo == d0.redo,
                self@.dirty == d0.dirty,
                self@.stamp == d0.stamp,
            decreases cs.entries.len() - i,
        {
            let img = match &cs.entries[i].1 {
                Some(e) => Some(e.duplicate()),
                None => None,
            };
            put_exec(&mut self.elements, cs.entries[i].0, img);
            assert(bs.take(i + 1).drop_last() =~= bs.take(i as int));
            assert(bs[i as int] == (cs.entries@[i as int].0, opt_view(cs.entries@[i as int].1)));
            i += 1;
        }
        assert(bs.take(cs.entries.len() as int) =~= bs);
        let copy = cs.duplicate();
        self.redo.push(cs);
        self.dirty = true;
        self.stamp = stamp;
        proof {
            self.lemma_finite();
            assert(self@.redo =~= d0.redo.push(c));
            lemma_undo_step(d0.elements, d0.undo, d0.redo);
            lemma_overlay_ids(d0.elements, bs);
        }
        Ok(copy)
    }

    /// Re-applies the last undone transaction and returns it. `stamp` is a fresh stamp,
    /// newer than every stamp handed out before (so newer than this document's).
    pub fn redo(&mut self, stamp: u64) -> (r: Result<ChangeSet<D, P>, CoreError>)
        requires
            old(self).wf(),
            old(self)@.stamp < stamp,
        ensures
            final(self).wf(),
            old(self)@.redo.len() == 0 ==> r == Err::<ChangeSet<D, P>, CoreError>(CoreError::NothingTo("redo"))
                && final(self)@ == old(self)@,
            old(self)@.redo.len() > 0 ==> (r matches Ok(cs) && cs@ == old(self)@.redo.last()
                && final(self)@ == redone(old(self)@, stamp)
                && final(self)@.stamp > old(self)@.stamp),
    {
        if self.redo.len() == 0 {
            return Err(CoreError::NothingTo("redo"));
        }
        let ghost d0 = self@;
        let cs = self.redo.pop().unwrap();
        let ghost c = cs@;
        assert(c == d0.redo.last());
        assert(self@.redo =~= d0.redo.drop_last());
        let ghost m0 = self@.elements;
        let ghost afs = afters(c);
        let mut i: usize = 0;
        while i < cs.entries.len()
            invariant
                i <= cs.entries.len(),
                c == cs@,
                afs == afters(c),
                self@ == (DocView { elements: overlay(m0, afs.take(i as int)), ..self@ }),
                self@.redo == d0.redo.drop_last(),
                self@.undo == d0.undo,
                self@.dirty == d0.dirty,
                self@.stamp == d0.stamp,
            decreases cs.entries.len() - i,
        {
            let img = match &cs.entries[i].2 {
                Some(e) => Some(e.duplicate()),
                None => None,
            };
            put_exec(&mut self.elements, cs.entries[i].0, img);
            assert(afs.take(i + 1).drop_last() =~= afs.take(i as int));
            assert(afs[i as int] == (cs.entries@[i as int].0, opt_view(cs.entries@[i as int].2)));
            i += 1;
        }
        assert(afs.take(cs.entries.len() as int) =~= afs);
        let copy = cs.duplicate();
        self.undo.push(cs);
        self.dirty = true;
        self.stamp = stamp;
        proof {
            self.lemma_finite();
            assert(self@.undo =~= d0.undo.push(c));
            lemma_redo_step(d0.elements, d0.undo, d0.redo);
            lemma_overlay_ids(d0.elements, afs);
        }
        Ok(copy)
    }
}

/// Undoing a transaction right after it was committed gives back the document as it was
/// when the transaction began: the same elements and the same undo history, with the
/// transaction, under its name, as the one step to redo; the document is dirty and its
/// stamp is one that neither earlier state had.
pub proof fn lemma_commit_then_undo<D, P>(tx: TxView<D, P>, name: Seq<char>, s1: u64, s2: u64)
    requires
        ids_match(tx.doc.elements),
        distinct_ids(tx.touched),
        images_match(tx.touched),
        change_entries(tx.doc.elements, tx.touched).len() > 0,
        tx.doc.stamp < s1 < s2,
    ensures
        ({
            let d1 = committed_doc(tx, name, s1);
            let d2 = undone(d1, s2);
            &&& d2.elements == tx.origin()
            &&& d2.undo == tx.doc.undo
            &&& d2.redo.len() == 1 && d2.redo[0].name == name
            &&& d2.dirty
            &&& d2.stamp != tx.doc.stamp && d2.stamp != d1.stamp
        }),
{
    lemma_commit_record(tx.doc.elements, tx.touched, name);
    let d1 = committed_doc(tx, name, s1);
    assert(d1.undo.drop_last() =~= tx.doc.undo);
}

/// Stamps never come back. Along any run of document states in which each step keeps
/// the stamp (a refused or empty transaction, a save) or raises it (a recorded
/// transaction, an undo or a redo, each stamped with a fresh stamp), a state whose stamp
/// was raised has a stamp that no earlier state had.
pub proof fn lemma_raised_stamp_is_new(stamps: Seq<u64>, k: int)
    requires
        forall|i: int| 0 <= i < stamps.len() - 1 ==> stamps[i] <= #[trigger] stamps[i + 1],
        0 < k < stamps.len(),
        stamps[k - 1] < stamps[k],
    ensures
        forall|j: int| 0 <= j < k ==> stamps[j] != stamps[k],
{
    assert forall|j: int| 0 <= j < k implies #[trigger] stamps[j] <= stamps[k - 1] by {
        lemma_stamps_rise(stamps, j, k - 1);
    }
}

proof fn lemma_stamps_rise(stamps: Seq<u64>, j: int, k: int)
    requires
        forall|i: int| 0 <= i < stamps.len() - 1 ==> stamps[i] <= #[trigger] stamps[i + 1],
        0 <= j <= k < stamps.len(),
    ensures
        stamps[j] <= stamps[k],
    decreases k - j,
{
    if j < k {
        lemma_stamps_rise(stamps, j, k - 1);
        assert(stamps[k - 1] <= stamps[(k - 1) + 1]);
    }
}

/// Undoing the last transaction and then redoing it gives back exactly the elements the
/// document had.
pub proof fn lemma_undo_then_redo<D, P>(d: DocView<D, P>)
    requires
        history_ok(d.elements, d.undo, d.redo),
        d.undo.len() > 0,
    ensures
        overlay(overlay(d.elements, befores(d.undo.last())), afters(d.undo.last())) == d.elements,
{
    let c = d.undo.last();
    assert(change_ok(d.undo[d.undo.len() - 1]));
    assert forall|i: int| 0 <= i < befores(c).len() implies (#[trigger] befores(c)[i]).0 == afters(c)[i].0 by {}
    lemma_overlay_back(d.elements, befores(c), afters(c));
}

/// Redoing the last undone transaction and then undoing it gives back exactly the
/// elements the document had.
pub proof fn lemma_redo_then_undo<D, P>(d: DocView<D, P>)
    requires
        history_ok(d.elements, d.undo, d.redo),
        d.redo.len() > 0,
    ensures
        overlay(overlay(d.elements, afters(d.redo.last())), befores(d.redo.last())) == d.elements,
{
    let c = d.redo.last();
    assert(change_ok(d.redo[d.redo.len() - 1]));
    assert(distinct_ids(afters(c))) by {
        assert forall|i: int, j: int| 0 <= i < j < afters(c).len() implies afters(c)[i].0 != afters(c)[j].0 by {
            assert(afters(c)[i].0 == befores(c)[i].0 && afters(c)[j].0 == befores(c)[j].0);
        }
    }
    assert forall|i: int| 0 <= i < afters(c).len() implies (#[trigger] afters(c)[i]).0 == befores(c)[i].0 by {}
    lemma_overlay_back(d.elements, afters(c), befores(c));
}

/// Undoing keeps the history well formed.
proof fn lemma_undo_step<D, P>(
    m: Map<u128, ElementView<D, P>>,
    undo: Seq<ChangeSetView<D, P>>,
    redo: Seq<ChangeSetView<D, P>>,
)
    requires
        history_ok(m, undo, redo),
        undo.len() > 0,
    ensures
        history_ok(overlay(m, befores(undo.last())), undo.drop_last(), redo.push(undo.last())),
        images_match(befores(undo.last())),
{
    let c = undo.last();
    let m1 = overlay(m, befores(c));
    assert(change_ok(undo[undo.len() - 1]));
    lemma_overlay_agrees(m, befores(c));
    assert forall|i: int| 0 <= i < befores(c).len() implies (#[trigger] befores(c)[i]).0 == afters(c)[i].0 by {}
    lemma_overlay_back(m, befores(c), afters(c));
    assert(redo.push(c).drop_last() =~= redo);
    assert forall|i: int| 0 <= i < undo.drop_last().len() implies change_ok(#[trigger] undo.drop_last()[i]) by {
        assert(undo.drop_last()[i] == undo[i]);
    }
    assert forall|i: int| 0 <= i < redo.push(c).len() implies change_ok(#[trigger] redo.push(c)[i]) by {
        if i < redo.len() {
            assert(redo.push(c)[i] == redo[i]);
        }
    }
}

/// Redoing keeps the history well formed.
proof fn lemma_redo_step<D, P>(
    m: Map<u128, ElementView<D, P>>,
    undo: Seq<ChangeSetView<D, P>>,
    redo: Seq<ChangeSetView<D, P>>,
)
    requires
        history_ok(m, undo, redo),
        redo.len() > 0,
    ensures
        history_ok(overlay(m, afters(redo.last())), undo.push(redo.last()), redo.drop_last()),
        images_match(afters(redo.last())),
{
    let c = redo.last();
    assert(change_ok(redo[redo.len() - 1]));
    assert(distinct_ids(afters(c))) by {
        assert forall|i: int, j: int| 0 <= i < j < afters(c).len() implies afters(c)[i].0 != afters(c)[j].0 by {
            assert(afters(c)[i].0 == befores(c)[i].0 && afters(c)[j].0 == befores(c)[j].0);
        }
    }
    lemma_overlay_agrees(m, afters(c));
    assert forall|i: int| 0 <= i < afters(c).len() implies (#[trigger] afters(c)[i]).0 == befores(c)[i].0 by {}
    lemma_overlay_back(m, afters(c), befores(c));
    assert(undo.push(c).drop_last() =~= undo);
    assert forall|i: int| 0 <= i < redo.drop_last().len() implies change_ok(#[trigger] redo.drop_last()[i]) by {
        assert(redo.drop_last()[i] == redo[i]);
    }
    assert forall|i: int| 0 <= i < undo.push(c).len() implies change_ok(#[trigger] undo.push(c)[i]) by {
        if i < undo.len() {
            assert(undo.push(c)[i] == undo[i]);
        }
    }
}


/// The elements of a stored list, each under its id; a later element with the same id
/// replaces an earlier one.
pub open spec fn stored<D, P>(es: Seq<ElementView<D, P>>) -> Map<u128, ElementView<D, P>>
    decreases es.len(),
{
    if es.len() == 0 {
        Map::empty()
    } else {
        stored(es.drop_last()).insert(es.last().id.0, es.last())
    }
}

proof fn lemma_stored_prefix<D, P>(v: Seq<ElementView<D, P>>, m: Map<u128, ElementView<D, P>>, i: int)
    requires
        0 <= i <= v.len(),
        forall|a: int| 0 <= a < v.len() ==> m.contains_key((#[trigger] v[a]).id.0) && m[v[a].id.0] == v[a],
    ensures
        forall|k: u128| #[trigger] stored(v.take(i)).contains_key(k) <==> exists|a: int| 0 <= a < i && (#[trigger] v[a]).id.0 == k,
        forall|k: u128| #[trigger] stored(v.take(i)).contains_key(k) ==> stored(v.take(i))[k] == m[k],
    decreases i,
{
    if i == 0 {
        assert(v.take(0) =~= Seq::<ElementView<D, P>>::empty());
    } else {
        lemma_stored_prefix(v, m, i - 1);
        let last = v[i - 1];
        assert(v.take(i).drop_last() =~= v.take(i - 1));
        assert(v.take(i).last() == last);
        assert(stored(v.take(i)) == stored(v.take(i - 1)).insert(last.id.0, last));
        assert forall|k: u128| #[trigger] stored(v.take(i)).contains_key(k) <==> exists|a: int| 0 <= a < i && (#[trigger] v[a]).id.0 == k by {
            if stored(v.take(i)).contains_key(k) {
                if k == last.id.0 {
                    assert(v[i - 1].id.0 == k);
                } else {
                    assert(stored(v.take(i - 1)).contains_key(k));
                    let a = choose|a: int| 0 <= a < i - 1 && (#[trigger] v[a]).id.0 == k;
                    assert(v[a].id.0 == k);
                }
            }
            if exists|a: int| 0 <= a < i && (#[trigger] v[a]).id.0 == k {
                let a = choose|a: int| 0 <= a < i && (#[trigger] v[a]).id.0 == k;
                if a < i - 1 {
                    assert(stored(v.take(i - 1)).contains_key(k));
                }
            }
        }
        assert forall|k: u128| #[trigger] stored(v.take(i)).contains_key(k) implies stored(v.take(i))[k] == m[k] by {
            if k == last.id.0 {
                assert(m.contains_key(v[i - 1].id.0));
            } else {
                assert(stored(v.take(i - 1)).contains_key(k));
            }
        }
    }
}

/// Rebuilding a document from its listed elements gives back exactly its elements.
pub proof fn lemma_rebuild_from_listed<D, P>(v: Seq<ElementView<D, P>>, m: Map<u128, ElementView<D, P>>)
    requires
        listed(v, m, |e: ElementView<D, P>| true),
    ensures
        stored(v) == m,
{
    let pred = |e: ElementView<D, P>| true;
    lemma_stored_prefix(v, m, v.len() as int);
    assert(v.take(v.len() as int) =~= v);
    assert forall|k: u128| #[trigger] stored(v).contains_key(k) == m.contains_key(k) by {
        if m.contains_key(k) {
            assert(pred(m[k]));
            let a = choose|a: int| 0 <= a < v.len() && v[a].id.0 == k;
            assert(v[a].id.0 == k);
        }
        if stored(v).contains_key(k) {
            let a = choose|a: int| 0 <= a < v.len() && (#[trigger] v[a]).id.0 == k;
            assert(m.contains_key(v[a].id.0));
        }
    }
    assert(stored(v) =~= m);
}

impl<D, P> Document<D, P> {
    /// Builds a document from stored elements, with no undo history.
    pub fn from_elements(elements: Vec<Element<D, P>>, stamp: u64) -> (d: Document<D, P>)
        ensures
            d.wf(),
            d@.elements == stored(elements@.map_values(|e: Element<D, P>| e@)),
            d@.undo.len() == 0,
            d@.redo.len() == 0,
            !d@.dirty,
            d@.stamp == stamp,
    {
        let ghost vs = elements@.map_values(|e: Element<D, P>| e@);
        let mut doc: Document<D, P> = Document::new(stamp);
        for e in it: elements.into_iter()
            invariant
                it.seq() == elements@,
                vs == elements@.map_values(|e: Element<D, P>| e@),
                doc.wf(),
                doc@.elements == stored(vs.take(it.index() as int)),
                doc@.undo.len() == 0,
                doc@.redo.len() == 0,
                !doc@.dirty,
                doc@.stamp == stamp,
        {
            let ghost i = it.index();
            assert(e == elements@[i as int]);
            let ghost before = doc@;
            doc.elements.insert(e.id().0, e);
            assert(vs.take(i + 1).drop_last() =~= vs.take(i as int));
            assert(doc@.undo =~= before.undo);
            assert(doc@.redo =~= before.redo);
            assert(doc@.elements =~= stored(vs.take(i + 1)));
        }
        assert(vs.take(vs.len() as int) =~= vs);
        doc
    }
}

fn copy_stack<D, P>(v: &Vec<ChangeSet<D, P>>) -> (r: Vec<ChangeSet<D, P>>)
    ensures
        r@.map_values(|c: ChangeSet<D, P>| c@) == v@.map_values(|c: ChangeSet<D, P>| c@),
{
    let mut r: Vec<ChangeSet<D, P>> = Vec::new();
    let mut i: usize = 0;
    while i < v.len()
        invariant
            i <= v.len(),
            r@.map_values(|c: ChangeSet<D, P>| c@) == v@.take(i as int).map_values(|c: ChangeSet<D, P>| c@),
        decreases v.len() - i,
    {
        let ghost r0 = r@.map_values(|c: ChangeSet<D, P>| c@);
        let c = v[i].duplicate();
        let ghost cv = c@;
        r.push(c);
        assert(r@.map_values(|c: ChangeSet<D, P>| c@) =~= r0.push(cv));
        assert(v@.take(i + 1) =~= v@.take(i as int).push(v@[i as int]));
        assert(r@.map_values(|c: ChangeSet<D, P>| c@) =~= v@.take(i + 1).map_values(|c: ChangeSet<D, P>| c@));
        i += 1;
    }
    assert(v@.take(v.len() as int) =~= v@);
    r
}

impl<D, P> Document<D, P> {
    /// A copy of the document: the same elements, history, dirty flag and stamp (element
    /// bodies and values are shared).
    pub fn duplicate(&self) -> (d: Document<D, P>)
        requires
            self.wf(),
        ensures
            d.wf(),
            d@ == self@,
    {
        let v = self.iter();
        let ghost vs = v@.map_values(|e: &Element<D, P>| e@);
        let mut m: BTreeMap<u128, Element<D, P>> = BTreeMap::new();
        let mut i: usize = 0;
        while i < v.len()
            invariant
                i <= v.len(),
                vs == v@.map_values(|e: &Element<D, P>| e@),
                state_of(m@) == stored(vs.take(i as int)),
            decreases v.len() - i,
        {
            let e = v[i].duplicate();
            assert(e@ == vs[i as int]);
            m.insert(e.id().0, e);
            assert(vs.take(i + 1).drop_last() =~= vs.take(i as int));
            assert(state_of(m@) =~= stored(vs.take(i + 1)));
            i += 1;
        }
        proof {
            assert(vs.take(vs.len() as int) =~= vs);
            lemma_rebuild_from_listed(vs, self@.elements);
        }
        let d = Document {
            elements: m,
            undo: copy_stack(&self.undo),
            redo: copy_stack(&self.redo),
            dirty: self.dirty,
            stamp: self.stamp,
        };
        assert(d@.elements =~= self@.elements);
        d
    }
}

impl<D, P> Tx<D, P> {
    /// The stamp of the document the transaction works on (a commit must bring a newer one).
    pub fn stamp(&self) -> (s: u64)
        ensures
            s == self@.doc.stamp,
    {
        self.doc.stamp()
    }

    /// The touched ids, in the order first touched.
    pub fn touched(&self) -> (v: Vec<ElementId>)
        ensures
            v@ == self@.touched.map_values(|x: (ElementId, Option<ElementView<D, P>>)| x.0),
    {
        let mut v: Vec<ElementId> = Vec::new();
        let mut i: usize = 0;
        while i < self.before.len()
            invariant
                i <= self.before.len(),
                v@ == self@.touched.take(i as int).map_values(|x: (ElementId, Option<ElementView<D, P>>)| x.0),
            decreases self.before.len() - i,
        {
            v.push(self.before[i].0);
            assert(self@.touched.take(i + 1).map_values(|x: (ElementId, Option<ElementView<D, P>>)| x.0)
                =~= self@.touched.take(i as int).map_values(|x: (ElementId, Option<ElementView<D, P>>)| x.0).push(self.before[i as int].0));
            i += 1;
        }
        assert(self@.touched.take(i as int) =~= self@.touched);
        v
    }
}

impl<D, P> Tx<D, P> {
    /// Abandons the transaction: the document comes back exactly as it was when the
    /// transaction began.
    pub fn rollback(self) -> (d: Document<D, P>)
        requires
            self.wf(),
        ensures
            d.wf(),
            d@ == (DocView { elements: self@.origin(), ..self@.doc }),
    {
        let ghost tv = self@;
        let mut doc = self.doc;
        doc.apply(&self.before);
        proof {
            doc.lemma_finite();
            lemma_overlay_ids(tv.doc.elements, tv.touched);
        }
        doc
    }

    /// Commits the transaction as one undoable step named `name`.
    ///
    /// Every touched element that still exists must reference only existing elements and
    /// pass its check (`checks` holds one per touched element, in the order first
    /// touched); then `openings`, the check of all openings, must pass. If any fails, the
    /// document comes back as it was and the first failure is returned. Otherwise the
    /// touched elements are recorded, with their revisions incremented, as one change set
    /// on the undo stack (none if nothing changed), the redo stack is cleared, and the
    /// document is marked dirty and stamped with `stamp`, a fresh stamp newer than every
    /// stamp handed out before.
    pub fn commit(
        self,
        name: &str,
        checks: Vec<Result<(), CoreError>>,
        openings: Result<(), CoreError>,
        stamp: u64,
    ) -> (out: (Document<D, P>, Result<(), CoreError>))
        requires
            self.wf(),
            checks.len() == self@.touched.len(),
            self@.doc.stamp < stamp,
        ensures
            out.0.wf(),
            out.0@.stamp == self@.doc.stamp || out.0@.stamp > self@.doc.stamp,
            match refusal(self@, checks@, openings) {
                Some(f) => out.0@ == (DocView { elements: self@.origin(), ..self@.doc })
                    && reported(out.1, f, checks@, openings),
                None => out.1 is Ok && out.0@ == committed_doc(self@, name@, stamp),
            },
    {
        let ghost tv = self@;
        let ghost cur = self@.doc.elements;
        let ghost t = self@.touched;
        let n = self.before.len();
        let mut i: usize = 0;
        while i < n
            invariant
                n == self.before.len(),
                i <= n,
                tv == self@,
                cur == self@.doc.elements,
                t == self@.touched,
                t.len() == n,
                checks.len() == n,
                self.wf(),
                refusal_from(cur, t, checks@, 0) == refusal_from(cur, t, checks@, i as int),
            decreases n - i,
        {
            let id = self.before[i].0;
            assert(t[i as int].0 == id);
            let mut dangling: Option<(Category, ElementId)> = None;
            match self.doc.elements.get(&id.0) {
                Some(el) => {
                    let refs = &el.body().refs;
                    let ghost rs = refs@;
                    assert(rs == cur[id.0].body.refs@);
                    let mut j: usize = 0;
                    assert(rs.skip(0) =~= rs);
                    while j < refs.len() && dangling.is_none()
                        invariant
                            j <= refs.len(),
                            rs == refs@,
                            cur == state_of(self.doc.elements@),
                            dangling is None ==> first_missing(rs, cur) == first_missing(rs.skip(j as int), cur),
                            dangling matches Some(x) ==> x.0 == el@.body.category && first_missing(rs, cur) == Some(x.1),
                        decreases refs.len() - j,
                    {
                        assert(rs.skip(j as int).drop_first() =~= rs.skip(j + 1));
                        if !holds(&self.doc.elements, refs[j]) {
                            dangling = Some((el.category(), refs[j]));
                        }
                        j += 1;
                    }
                    if dangling.is_none() {
                        assert(rs.skip(refs.len() as int) =~= Seq::<ElementId>::empty());
                    }
                },
                None => {},
            }
            match dangling {
                Some((c, r)) => {
                    assert(refusal_from(cur, t, checks@, i as int) == Some(Refusal::Dangling(c, r)));
                    let d = self.rollback();
                    return (d, Err(CoreError::DanglingRef { kind: c.as_str(), missing: r }));
                },
                None => {},
            }
            if self.doc.elements.contains_key(&id.0) && checks[i].is_err() {
                assert(refusal_from(cur, t, checks@, i as int) == Some(Refusal::Check(i as int)));
                let e = take_err(checks, i);
                let d = self.rollback();
                return (d, Err(e));
            }
            i += 1;
        }
        if openings.is_err() {
            let d = self.rollback();
            return (d, openings);
        }
        let ghost origin = self@.origin();
        let mut doc = self.doc;
        let before = self.before;
        let ghost a = after_records(cur, t);
        let mut entries: Vec<(ElementId, Option<Element<D, P>>, Option<Element<D, P>>)> = Vec::new();
        let mut i: usize = 0;
        while i < n
            invariant
                n == before.len(),
                i <= n,
                t == before_views(before@),
                t.len() == n,
                distinct_ids(t),
                a == after_records(cur, t),
                doc@ == (DocView { elements: overlay(cur, a.take(i as int)), ..tv.doc }),
                entries@.map_values(|x: (ElementId, Option<Element<D, P>>, Option<Element<D, P>>)| (x.0, opt_view(x.1), opt_view(x.2)))
                    == change_entries(cur, t.take(i as int)),
            decreases n - i,
        {
            let id = before[i].0;
            let prev = match &before[i].1 {
                Some(p) => Some(p.duplicate()),
                None => None,
            };
            let ghost pv = opt_view(prev);
            assert(t[i as int] == (id, pv));
            proof {
                assert(!has_id(a.take(i as int), id.0)) by {
                    if has_id(a.take(i as int), id.0) {
                        let k = choose|k: int| 0 <= k < a.take(i as int).len() && (#[trigger] a.take(i as int)[k]).0.0 == id.0;
                        assert(t[k].0 == t[i as int].0);
                    }
                }
                lemma_overlay_miss(cur, a.take(i as int), id.0);
            }
            let after = match doc.elements.remove(&id.0) {
                Some(e0) => {
                    let mut e = e0;
                    match &prev {
                        Some(p) => {
                            e.rev = p.rev.wrapping_add(1);
                        },
                        None => {},
                    }
                    let copy = e.duplicate();
                    doc.elements.insert(id.0, e);
                    Some(copy)
                },
                None => None,
            };
            assert(opt_view(after) == after_image(cur, id, pv));
            assert(state_of(doc.elements@) =~= put(overlay(cur, a.take(i as int)), id, opt_view(after)));
            assert(a.take(i + 1).drop_last() =~= a.take(i as int));
            assert(t.take(i + 1).drop_last() =~= t.take(i as int));
            let ghost e0 = entries@;
            if prev.is_some() || after.is_some() {
                entries.push((id, prev, after));
                assert(entries@.map_values(|x: (ElementId, Option<Element<D, P>>, Option<Element<D, P>>)| (x.0, opt_view(x.1), opt_view(x.2)))
                    =~= change_entries(cur, t.take(i as int)).push((id, pv, opt_view(after))));
            }
            i += 1;
        }
        assert(a.take(n as int) =~= a);
        assert(t.take(n as int) =~= t);
        proof {
            lemma_commit_record(cur, t, name@);
        }
        if entries.len() > 0 {
            let ghost es = entries@.map_values(|x: (ElementId, Option<Element<D, P>>, Option<Element<D, P>>)| (x.0, opt_view(x.1), opt_view(x.2)));
            let cs = ChangeSet { name: crate::text::owned(name), entries };
            assert(cs@ == ChangeSetView { name: name@, entries: es });
            doc.undo.push(cs);
            doc.redo.clear();
            doc.dirty = true;
            doc.stamp = stamp;
            proof {
                let c = ChangeSetView { name: name@, entries: es };
                assert(doc@.undo =~= tv.doc.undo.push(c));
                assert(doc@.redo =~= Seq::<ChangeSetView<D, P>>::empty());
                assert(doc@.undo.drop_last() =~= tv.doc.undo);
                assert forall|k: int| 0 <= k < doc@.undo.len() implies change_ok(#[trigger] doc@.undo[k]) by {
                    if k < tv.doc.undo.len() {
                        assert(doc@.undo[k] == tv.doc.undo[k]);
                    }
                }
            }
        }
        proof {
            doc.lemma_finite();
        }
        (doc, Ok(()))
    }
}

} // verus!
