//! Sketches of floor and ceiling boundaries: the draw tools and how a failed sketch is
//! reported.

use vstd::prelude::*;

use crate::text::owned;

verus! {

/// Which line of a wall a locked sketch line follows.
#[derive(Debug, Clone, Copy, PartialEq, Eq, Structural)]
pub enum WallFace {
    Exterior,
    Interior,
    CoreExterior,
    CoreInterior,
    Centerline,
}

/// Revit's boundary line draw tools.
#[derive(Debug, Clone, Copy, PartialEq, Eq, Structural)]
pub enum DrawTool {
    Line,
    Rectangle,
    InscribedPolygon,
    CircumscribedPolygon,
    Circle,
    StartEndRadiusArc,
    CenterEndsArc,
}

impl DrawTool {
    /// Clicks the tool needs: three for the arcs, two for the rest.
    pub open spec fn clicks(self) -> usize {
        match self {
            DrawTool::StartEndRadiusArc | DrawTool::CenterEndsArc => 3,
            _ => 2,
        }
    }

    /// Clicks the tool needs.
    pub fn points(self) -> (n: usize)
        ensures
            n == self.clicks(),
    {
        match self {
            DrawTool::Line | DrawTool::Rectangle | DrawTool::InscribedPolygon | DrawTool::CircumscribedPolygon
            | DrawTool::Circle => 2,
            DrawTool::StartEndRadiusArc | DrawTool::CenterEndsArc => 3,
        }
    }
}

/// Why a sketch can't finish, with the curves to highlight (Revit's wording).
#[derive(Debug)]
pub struct SketchError {
    pub message: String,
    pub bad: Vec<usize>,
}

impl SketchError {
    /// An error with this message, highlighting curves `bad`.
    pub fn new(message: &str, bad: Vec<usize>) -> (e: SketchError)
        ensures
            e.message@ == message@,
            e.bad@ == bad@,
    {
        SketchError { message: owned(message), bad }
    }
}

/// Which slab a sketch makes.
#[derive(Debug, Clone, Copy, PartialEq, Eq, Structural)]
pub enum SketchKind {
    Floor,
    Ceiling,
}

/// Whether the ends listed in `ends` (each with the curve it belongs to) come curve by
/// curve, in the order of the curves.
pub open spec fn ends_in_curve_order(ends: Seq<(usize, usize)>) -> bool {
    forall|a: int, b: int| 0 <= a < b < ends.len() ==> ends[a].0 <= ends[b].0
}

/// An end is open when it meets no other end, and a branch when it meets more than one.
pub open spec fn end_is(open: bool, meets: usize) -> bool {
    if open {
        meets == 0
    } else {
        meets > 1
    }
}

/// Curve `i` has an end of the kind asked for (open, or a branch).
pub open spec fn has_end(ends: Seq<(usize, usize)>, open: bool, i: usize) -> bool {
    exists|e: int| 0 <= e < ends.len() && (#[trigger] ends[e]).0 == i && end_is(open, ends[e].1)
}

/// `bad` lists, in increasing order and once each, the curves with an end of that kind.
pub open spec fn lists_curves(bad: Seq<usize>, ends: Seq<(usize, usize)>, open: bool) -> bool {
    &&& forall|a: int, b: int| 0 <= a < b < bad.len() ==> bad[a] < bad[b]
    &&& forall|i: usize| bad.contains(i) <==> has_end(ends, open, i)
}

/// The curves with an end of the kind asked for, in increasing order, each once.
fn curves_with(ends: &Vec<(usize, usize)>, open: bool) -> (bad: Vec<usize>)
    requires
        ends_in_curve_order(ends@),
    ensures
        lists_curves(bad@, ends@, open),
{
    let mut bad: Vec<usize> = Vec::new();
    let mut e: usize = 0;
    while e < ends.len()
        invariant
            e <= ends.len(),
            ends_in_curve_order(ends@),
            forall|a: int, b: int| 0 <= a < b < bad@.len() ==> bad@[a] < bad@[b],
            forall|a: int| 0 <= a < bad@.len() ==> e > 0 && bad@[a] <= ends@[e - 1].0,
            forall|i: usize| bad@.contains(i) <==> has_end(ends@.take(e as int), open, i),
        decreases ends.len() - e,
    {
        let (i, meets) = ends[e];
        assert(ends@[e as int] == (i, meets));
        let hit = if open { meets == 0 } else { meets > 1 };
        assert(hit == end_is(open, meets));
        let ghost b0 = bad@;
        assert forall|j: usize| has_end(ends@.take(e + 1), open, j) <==> (has_end(ends@.take(e as int), open, j)
            || (j == i && end_is(open, meets))) by {
            if has_end(ends@.take(e + 1), open, j) {
                let x = choose|x: int| 0 <= x < e + 1 && (#[trigger] ends@.take(e + 1)[x]).0 == j
                    && end_is(open, ends@.take(e + 1)[x].1);
                if x < e {
                    assert(ends@.take(e as int)[x] == ends@.take(e + 1)[x]);
                }
            }
            if has_end(ends@.take(e as int), open, j) {
                let x = choose|x: int| 0 <= x < e && (#[trigger] ends@.take(e as int)[x]).0 == j
                    && end_is(open, ends@.take(e as int)[x].1);
                assert(ends@.take(e + 1)[x] == ends@.take(e as int)[x]);
            }
            if j == i && end_is(open, meets) {
                assert(ends@.take(e + 1)[e as int] == ends@[e as int]);
            }
        }
        if hit && (bad.len() == 0 || bad[bad.len() - 1] != i) {
            proof {
                if bad@.len() > 0 {
                    assert(ends@[e - 1].0 <= ends@[e as int].0);
                }
            }
            bad.push(i);
            assert forall|j: usize| bad@.contains(j) <==> (b0.contains(j) || j == i) by {
                if bad@.contains(j) {
                    let a = choose|a: int| 0 <= a < bad@.len() && bad@[a] == j;
                    if a < b0.len() {
                        assert(b0[a] == j);
                    }
                }
                if b0.contains(j) {
                    let a = choose|a: int| 0 <= a < b0.len() && b0[a] == j;
                    assert(bad@[a] == j);
                }
                if j == i {
                    assert(bad@[b0.len() as int] == i);
                }
            }
        } else if hit {
            assert(bad@[bad@.len() - 1] == i);
            assert(bad@.contains(i));
        }
        proof {
            assert forall|a: int| 0 <= a < bad@.len() implies bad@[a] <= ends@[e as int].0 by {
                if a < b0.len() {
                    assert(bad@[a] == b0[a]);
                    assert(e > 0 && b0[a] <= ends@[e - 1].0);
                    assert(ends@[e - 1].0 <= ends@[e as int].0);
                }
            }
            assert forall|j: usize| bad@.contains(j) <==> has_end(ends@.take(e + 1), open, j) by {
                assert(has_end(ends@.take(e + 1), open, j) <==> (has_end(ends@.take(e as int), open, j)
                    || (j == i && end_is(open, meets))));
                assert(b0.contains(j) <==> has_end(ends@.take(e as int), open, j));
            }
        }
        e += 1;
    }
    assert(ends@.take(ends.len() as int) =~= ends@);
    bad
}

/// The part of ordering a sketch into loops that judges the curves' ends: each end must
/// meet exactly one other end. `ends` lists every end of the curves that are not circles,
/// curve by curve, each with its curve and how many other ends it meets (its number of
/// ends within the join tolerance, itself not counted). Open ends are reported first, then
/// ends where more than two curves meet, each with the curves to highlight.
pub fn end_faults(ends: &Vec<(usize, usize)>) -> (r: Result<(), SketchError>)
    requires
        ends_in_curve_order(ends@),
    ensures
        (exists|e: int| 0 <= e < ends@.len() && (#[trigger] ends@[e]).1 == 0) ==> (r matches Err(f)
            && f.message@ == "Lines must be in closed loops. The highlighted lines are open on one end."@
            && lists_curves(f.bad@, ends@, true)),
        (forall|e: int| 0 <= e < ends@.len() ==> (#[trigger] ends@[e]).1 != 0)
            && (exists|e: int| 0 <= e < ends@.len() && (#[trigger] ends@[e]).1 > 1) ==> (r matches Err(f)
            && f.message@ == "Lines must not intersect. More than two lines meet at the highlighted ends."@
            && lists_curves(f.bad@, ends@, false)),
        r is Ok <==> forall|e: int| 0 <= e < ends@.len() ==> (#[trigger] ends@[e]).1 == 1,
{
    let open = curves_with(ends, true);
    if open.len() > 0 {
        proof {
            assert(open@.contains(open@[0]));
        }
        return Err(SketchError::new(
            "Lines must be in closed loops. The highlighted lines are open on one end.",
            open,
        ));
    }
    proof {
        assert forall|e: int| 0 <= e < ends@.len() implies (#[trigger] ends@[e]).1 != 0 by {
            if ends@[e].1 == 0 {
                assert(has_end(ends@, true, ends@[e].0));
                assert(open@.contains(ends@[e].0));
            }
        }
    }
    let branch = curves_with(ends, false);
    if branch.len() > 0 {
        proof {
            assert(branch@.contains(branch@[0]));
        }
        return Err(SketchError::new(
            "Lines must not intersect. More than two lines meet at the highlighted ends.",
            branch,
        ));
    }
    proof {
        assert forall|e: int| 0 <= e < ends@.len() implies (#[trigger] ends@[e]).1 == 1 by {
            if ends@[e].1 > 1 {
                assert(has_end(ends@, false, ends@[e].0));
                assert(branch@.contains(ends@[e].0));
            }
        }
    }
    Ok(())
}

/// End `last` (the start when false, the finish when true) of curve `k`, as an index into
/// the table of which ends meet: curve `k`'s ends are `2k` and `2k + 1`.
pub open spec fn end_of(k: int, last: bool) -> int {
    if last {
        2 * k + 1
    } else {
        2 * k
    }
}

/// The end a chain leaves from after entry `c` (a curve and whether it is taken reversed):
/// the finish of a curve taken forward, the start of one taken reversed.
pub open spec fn tail_of(c: (usize, bool)) -> int {
    end_of(c.0 as int, !c.1)
}

/// The first curve from `k` on that is not used yet and has an end that meets end `t`.
pub open spec fn next_curve(near: Seq<Seq<bool>>, used: Seq<bool>, t: int, k: int) -> Option<int>
    decreases used.len() - k,
{
    if k < 0 || k >= used.len() {
        None
    } else if !used[k] && (near[end_of(k, false)][t] || near[end_of(k, true)][t]) {
        Some(k)
    } else {
        next_curve(near, used, t, k + 1)
    }
}

/// Extends `chain` head to tail, taking at each step the first unused curve with an end
/// where the chain's tail is (reversed when it is its finish that meets the tail), until
/// the tail meets the head again, no curve meets the tail, or `fuel` steps are taken.
/// Gives the curves used then and the chain.
pub open spec fn chain_walk(
    near: Seq<Seq<bool>>,
    used: Seq<bool>,
    chain: Seq<(usize, bool)>,
    fuel: nat,
) -> (Seq<bool>, Seq<(usize, bool)>)
    decreases fuel,
{
    if fuel == 0 {
        (used, chain)
    } else {
        let t = tail_of(chain.last());
        if chain.len() > 1 && near[t][end_of(chain[0].0 as int, false)] {
            (used, chain)
        } else {
            match next_curve(near, used, t, 0) {
                None => (used, chain),
                Some(k) => chain_walk(
                    near,
                    used.update(k, true),
                    chain.push((k as usize, !near[end_of(k, false)][t])),
                    (fuel - 1) as nat,
                ),
            }
        }
    }
}

/// The loops found from curve `start` on, after `out`: each curve not used yet starts a
/// loop, alone when it is a circle, else walked head to tail (at most one step per curve).
pub open spec fn walk_from(
    near: Seq<Seq<bool>>,
    circle: Seq<bool>,
    used: Seq<bool>,
    out: Seq<Seq<(usize, bool)>>,
    start: int,
) -> Seq<Seq<(usize, bool)>>
    decreases circle.len() - start,
{
    if start < 0 || start >= circle.len() {
        out
    } else if used[start] {
        walk_from(near, circle, used, out, start + 1)
    } else {
        let u = used.update(start, true);
        if circle[start] {
            walk_from(near, circle, u, out.push(seq![(start as usize, false)]), start + 1)
        } else {
            let w = chain_walk(near, u, seq![(start as usize, false)], circle.len());
            walk_from(near, circle, w.0, out.push(w.1), start + 1)
        }
    }
}

/// The loops of a sketch whose ends meet as `near` says (`near[x][y]`: end `x` lies
/// within the join tolerance of end `y`) and whose circles are marked in `circle`.
pub open spec fn loops_of(near: Seq<Seq<bool>>, circle: Seq<bool>) -> Seq<Seq<(usize, bool)>> {
    walk_from(near, circle, Seq::new(circle.len(), |i: int| false), Seq::empty(), 0)
}

/// All the entries of `loops`, loop after loop.
pub open spec fn flat(loops: Seq<Seq<(usize, bool)>>) -> Seq<(usize, bool)>
    decreases loops.len(),
{
    if loops.len() == 0 {
        Seq::empty()
    } else {
        flat(loops.drop_last()) + loops.last()
    }
}

/// The curves of entries `s`, in order.
pub open spec fn curves_of(s: Seq<(usize, bool)>) -> Seq<usize> {
    s.map_values(|c: (usize, bool)| c.0)
}

/// No curve comes twice in `s`.
pub open spec fn once_each(s: Seq<usize>) -> bool {
    forall|a: int, b: int| 0 <= a < b < s.len() ==> s[a] != s[b]
}

/// What walking keeps: the curves taken so far (`taken`) are distinct curves of the
/// sketch, and they are exactly the ones marked used.
pub open spec fn walk_state(used: Seq<bool>, taken: Seq<usize>) -> bool {
    &&& once_each(taken)
    &&& forall|a: int| 0 <= a < taken.len() ==> taken[a] < used.len()
    &&& forall|k: usize| k < used.len() ==> (used[k as int] <==> #[trigger] taken.contains(k))
}

proof fn lemma_next_curve(near: Seq<Seq<bool>>, used: Seq<bool>, t: int, k: int)
    requires
        0 <= k,
    ensures
        next_curve(near, used, t, k) matches Some(m) ==> k <= m < used.len() && !used[m],
    decreases used.len() - k,
{
    if k < used.len() && !(!used[k] && (near[end_of(k, false)][t] || near[end_of(k, true)][t])) {
        lemma_next_curve(near, used, t, k + 1);
    }
}

proof fn lemma_chain_walk(
    near: Seq<Seq<bool>>,
    used: Seq<bool>,
    chain: Seq<(usize, bool)>,
    fuel: nat,
    prior: Seq<usize>,
)
    requires
        chain.len() > 0,
        used.len() <= usize::MAX,
        walk_state(used, prior + curves_of(chain)),
    ensures
        ({
            let w = chain_walk(near, used, chain, fuel);
            &&& w.0.len() == used.len()
            &&& w.1.len() > 0
            &&& w.1[0] == chain[0]
            &&& walk_state(w.0, prior + curves_of(w.1))
        }),
    decreases fuel,
{
    if fuel > 0 {
        let t = tail_of(chain.last());
        if !(chain.len() > 1 && near[t][end_of(chain[0].0 as int, false)]) {
            lemma_next_curve(near, used, t, 0);
            if let Some(k) = next_curve(near, used, t, 0) {
                let c = (k as usize, !near[end_of(k, false)][t]);
                let taken = prior + curves_of(chain);
                let u = used.update(k, true);
                assert(prior + curves_of(chain.push(c)) =~= taken.push(k as usize));
                let ku = k as usize;
                assert(ku as int == k && !used[ku as int]);
                assert(!taken.contains(ku));
                assert(chain.push(c)[0] == chain[0]);
                assert forall|j: usize| j < u.len() implies (u[j as int] <==> #[trigger] taken.push(k as usize).contains(j)) by {
                    assert(taken.push(k as usize)[taken.len() as int] == k as usize);
                    if j as int != k {
                        if taken.push(k as usize).contains(j) {
                            let a = choose|a: int| 0 <= a < taken.push(k as usize).len() && #[trigger] taken.push(k as usize)[a] == j;
                            assert(a < taken.len());
                            assert(taken[a] == j);
                        }
                        if taken.contains(j) {
                            let a = choose|a: int| 0 <= a < taken.len() && #[trigger] taken[a] == j;
                            assert(taken.push(k as usize)[a] == j);
                        }
                    } else {
                        assert(taken.push(k as usize)[taken.len() as int] == k as usize);
                    }
                }
                assert forall|a: int, b: int| 0 <= a < b < taken.push(k as usize).len() implies
                    #[trigger] taken.push(k as usize)[a] != #[trigger] taken.push(k as usize)[b] by {
                    if b == taken.len() {
                        assert(taken.push(k as usize)[a] == taken[a]);
                        if taken[a] == k as usize {
                            assert(taken.contains(k as usize));
                        }
                    }
                }
                lemma_chain_walk(near, u, chain.push(c), (fuel - 1) as nat, prior);
            }
        }
    }
}

proof fn lemma_walk_from(
    near: Seq<Seq<bool>>,
    circle: Seq<bool>,
    used: Seq<bool>,
    out: Seq<Seq<(usize, bool)>>,
    start: int,
)
    requires
        0 <= start <= circle.len() <= usize::MAX,
        used.len() == circle.len(),
        walk_state(used, curves_of(flat(out))),
        forall|k: int| 0 <= k < start ==> used[k],
    ensures
        ({
            let r = curves_of(flat(walk_from(near, circle, used, out, start)));
            &&& once_each(r)
            &&& forall|a: int| 0 <= a < r.len() ==> r[a] < circle.len()
            &&& forall|k: usize| k < circle.len() ==> #[trigger] r.contains(k)
        }),
    decreases circle.len() - start,
{
    let taken = curves_of(flat(out));
    if start >= circle.len() {
        assert forall|k: usize| k < circle.len() implies #[trigger] taken.contains(k) by {
            assert(used[k as int]);
        }
    } else if used[start] {
        lemma_walk_from(near, circle, used, out, start + 1);
    } else {
        let u = used.update(start, true);
        let one: Seq<(usize, bool)> = seq![(start as usize, false)];
        let su = start as usize;
        assert(su as int == start && !used[su as int]);
        assert(!taken.contains(su));
        assert(taken + curves_of(one) =~= taken.push(start as usize));
        assert forall|j: usize| j < u.len() implies (u[j as int] <==> #[trigger] taken.push(start as usize).contains(j)) by {
            if j as int != start {
                if taken.push(start as usize).contains(j) {
                    let a = choose|a: int| 0 <= a < taken.push(start as usize).len() && #[trigger] taken.push(start as usize)[a] == j;
                    assert(a < taken.len());
                    assert(taken[a] == j);
                }
                if taken.contains(j) {
                    let a = choose|a: int| 0 <= a < taken.len() && #[trigger] taken[a] == j;
                    assert(taken.push(start as usize)[a] == j);
                }
            } else {
                assert(taken.push(start as usize)[taken.len() as int] == start as usize);
            }
        }
        assert forall|a: int, b: int| 0 <= a < b < taken.push(start as usize).len() implies
            #[trigger] taken.push(start as usize)[a] != #[trigger] taken.push(start as usize)[b] by {
            if b == taken.len() {
                assert(taken.push(start as usize)[a] == taken[a]);
                if taken[a] == start as usize {
                    assert(taken.contains(start as usize));
                }
            }
        }
        assert(walk_state(u, taken + curves_of(one)));
        if circle[start] {
            let o2 = out.push(one);
            assert(o2.drop_last() =~= out);
            assert(curves_of(flat(o2)) =~= taken + curves_of(one));
            lemma_walk_from(near, circle, u, o2, start + 1);
        } else {
            let w = chain_walk(near, u, one, circle.len());
            lemma_chain_walk(near, u, one, circle.len(), taken);
            let o2 = out.push(w.1);
            assert(o2.drop_last() =~= out);
            assert(curves_of(flat(o2)) =~= taken + curves_of(w.1));
            assert forall|k: int| 0 <= k < start + 1 implies w.0[k] by {
                let kk = k as usize;
                assert(kk as int == k);
                if k < start {
                    assert(used[kk as int]);
                    assert(taken.contains(kk));
                    let a = choose|a: int| 0 <= a < taken.len() && #[trigger] taken[a] == kk;
                    assert((taken + curves_of(w.1))[a] == kk);
                    assert((taken + curves_of(w.1)).contains(kk));
                } else {
                    assert(curves_of(w.1)[0] == kk);
                    assert((taken + curves_of(w.1))[taken.len() as int] == kk);
                    assert((taken + curves_of(w.1)).contains(kk));
                }
            }
            lemma_walk_from(near, circle, w.0, o2, start + 1);
        }
    }
}

/// Walking a sketch into loops puts every curve in exactly one loop, once (for a sketch
/// whose curves can be counted in a `usize`).
pub proof fn lemma_each_curve_in_one_loop(near: Seq<Seq<bool>>, circle: Seq<bool>)
    requires
        circle.len() <= usize::MAX,
    ensures
        ({
            let r = curves_of(flat(loops_of(near, circle)));
            &&& once_each(r)
            &&& forall|a: int| 0 <= a < r.len() ==> r[a] < circle.len()
            &&& forall|k: usize| k < circle.len() ==> #[trigger] r.contains(k)
        }),
{
    let u: Seq<bool> = Seq::new(circle.len(), |i: int| false);
    let e: Seq<Seq<(usize, bool)>> = Seq::empty();
    assert(curves_of(flat(e)) =~= Seq::<usize>::empty());
    lemma_walk_from(near, circle, u, e, 0);
}

/// The views of a table of rows.
pub open spec fn rows<T>(v: Seq<Vec<T>>) -> Seq<Seq<T>> {
    v.map_values(|r: Vec<T>| r@)
}

/// The first curve not used yet with an end that meets end `t`.
fn find_next(near: &Vec<Vec<bool>>, used: &Vec<bool>, t: usize) -> (r: Option<usize>)
    requires
        near.len() == 2 * used.len(),
        forall|x: int| 0 <= x < near.len() ==> (#[trigger] near@[x]).len() == near.len(),
        t < near.len(),
    ensures
        r matches Some(k) ==> k < used.len() && next_curve(rows(near@), used@, t as int, 0) == Some(k as int),
        r is None ==> next_curve(rows(near@), used@, t as int, 0) is None,
{
    let ghost nv = rows(near@);
    let mut k: usize = 0;
    while k < used.len()
        invariant
            k <= used.len(),
            near.len() == 2 * used.len(),
            forall|x: int| 0 <= x < near.len() ==> (#[trigger] near@[x]).len() == near.len(),
            t < near.len(),
            nv == rows(near@),
            next_curve(nv, used@, t as int, 0) == next_curve(nv, used@, t as int, k as int),
        decreases used.len() - k,
    {
        assert(nv[2 * k as int] == near@[2 * k as int]@);
        assert(nv[2 * k + 1] == near@[2 * k + 1]@);
        if !used[k] && (near[2 * k][t] || near[2 * k + 1][t]) {
            return Some(k);
        }
        k += 1;
    }
    None
}

/// Walks one chain from curve `start` (taken forward), marking the curves it takes.
fn walk_chain(near: &Vec<Vec<bool>>, used: &mut Vec<bool>, start: usize) -> (chain: Vec<(usize, bool)>)
    requires
        start < old(used).len(),
        near.len() == 2 * old(used).len(),
        forall|x: int| 0 <= x < near.len() ==> (#[trigger] near@[x]).len() == near.len(),
    ensures
        (final(used)@, chain@) == chain_walk(rows(near@), old(used)@, seq![(start, false)], old(used)@.len() as nat),
        final(used)@.len() == old(used)@.len(),
{
    let ghost nv = rows(near@);
    let ghost u0 = used@;
    let n = used.len();
    let mut chain: Vec<(usize, bool)> = vec![(start, false)];
    assert(chain@ =~= seq![(start, false)]);
    let mut fuel: usize = n;
    let mut go = true;
    while go && fuel > 0
        invariant
            used.len() == n,
            near.len() == 2 * n,
            forall|x: int| 0 <= x < near.len() ==> (#[trigger] near@[x]).len() == near.len(),
            nv == rows(near@),
            chain.len() > 0,
            chain@[0] == (start, false),
            start < n,
            forall|j: int| 0 <= j < chain.len() ==> (#[trigger] chain@[j]).0 < n,
            chain_walk(nv, u0, seq![(start, false)], n as nat) == chain_walk(nv, used@, chain@, fuel as nat),
            !go ==> chain_walk(nv, used@, chain@, fuel as nat) == (used@, chain@),
        decreases fuel + if go { 1int } else { 0int },
    {
        let c = chain[chain.len() - 1];
        assert(c.0 < n);
        let t: usize = if c.1 { 2 * c.0 } else { 2 * c.0 + 1 };
        assert(t as int == tail_of(chain@.last()));
        let h: usize = 2 * start;
        assert(nv[t as int] == near@[t as int]@);
        if chain.len() > 1 && near[t][h] {
            go = false;
        } else {
            match find_next(near, used, t) {
                None => {
                    go = false;
                },
                Some(k) => {
                    assert(nv[2 * k as int] == near@[2 * k as int]@);
                    let rev = !near[2 * k][t];
                    used.set(k, true);
                    chain.push((k, rev));
                    fuel -= 1;
                },
            }
        }
    }
    chain
}

/// The part of ordering a sketch into loops that walks the curves head to tail, once the
/// ends are known to meet in pairs. `near[x][y]` says whether end `x` lies within the join
/// tolerance of end `y` (curve `k`'s ends are `2k`, its start, and `2k + 1`, its finish),
/// and `circle[k]` whether curve `k` is a circle. Each loop lists its curves with whether
/// each is taken reversed; a loop starts at the first curve not yet in a loop.
pub fn walk_loops(near: &Vec<Vec<bool>>, circle: &Vec<bool>) -> (r: Vec<Vec<(usize, bool)>>)
    requires
        near.len() == 2 * circle.len(),
        forall|x: int| 0 <= x < near.len() ==> (#[trigger] near@[x]).len() == near.len(),
    ensures
        rows(r@) == loops_of(rows(near@), circle@),
        ({
            let c = curves_of(flat(rows(r@)));
            &&& once_each(c)
            &&& forall|a: int| 0 <= a < c.len() ==> c[a] < circle.len()
            &&& forall|k: usize| k < circle.len() ==> #[trigger] c.contains(k)
        }),
{
    proof {
        lemma_each_curve_in_one_loop(rows(near@), circle@);
    }
    let ghost nv = rows(near@);
    let n = circle.len();
    let mut used: Vec<bool> = Vec::new();
    while used.len() < n
        invariant
            used.len() <= n,
            forall|j: int| 0 <= j < used.len() ==> !(#[trigger] used@[j]),
        decreases n - used.len(),
    {
        used.push(false);
    }
    assert(used@ =~= Seq::new(n as nat, |i: int| false));
    let mut out: Vec<Vec<(usize, bool)>> = Vec::new();
    assert(rows(out@) =~= Seq::<Seq<(usize, bool)>>::empty());
    let mut start: usize = 0;
    while start < n
        invariant
            start <= n == circle.len() == used.len(),
            near.len() == 2 * n,
            forall|x: int| 0 <= x < near.len() ==> (#[trigger] near@[x]).len() == near.len(),
            nv == rows(near@),
            loops_of(nv, circle@) == walk_from(nv, circle@, used@, rows(out@), start as int),
        decreases n - start,
    {
        if !used[start] {
            used.set(start, true);
            if circle[start] {
                let ghost o0 = rows(out@);
                let one: Vec<(usize, bool)> = vec![(start, false)];
                assert(one@ =~= seq![(start, false)]);
                out.push(one);
                assert(rows(out@) =~= o0.push(seq![(start, false)]));
            } else {
                let ghost o0 = rows(out@);
                let chain = walk_chain(near, &mut used, start);
                out.push(chain);
                assert(rows(out@) =~= o0.push(out@.last()@));
            }
        }
        start += 1;
    }
    out
}

} // verus!
