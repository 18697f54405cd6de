//! Elevation markers: the directions of a marker and their names.

use vstd::prelude::*;

use crate::element::{Compass, ElementId};

verus! {

/// The four directions of an elevation marker, in Revit's order around the body.
pub fn directions() -> (v: Vec<Compass>)
    ensures
        v@ == seq![Compass::North, Compass::East, Compass::South, Compass::West],
{
    vec![Compass::North, Compass::East, Compass::South, Compass::West]
}

/// The entries of `s` that face `d`, in order.
pub open spec fn facing(s: Seq<(Compass, ElementId)>, d: Compass) -> Seq<(Compass, ElementId)>
    decreases s.len(),
{
    if s.len() == 0 {
        Seq::empty()
    } else if s.last().0 == d {
        facing(s.drop_last(), d).push(s.last())
    } else {
        facing(s.drop_last(), d)
    }
}

/// `s` ordered by direction, North, East, South, West; entries facing the same way keep
/// their order.
pub open spec fn by_direction(s: Seq<(Compass, ElementId)>) -> Seq<(Compass, ElementId)> {
    facing(s, Compass::North) + facing(s, Compass::East) + facing(s, Compass::South) + facing(s, Compass::West)
}

/// Appends the entries of `views` that face `d`, in order.
fn push_facing(out: &mut Vec<(Compass, ElementId)>, views: &Vec<(Compass, ElementId)>, d: Compass)
    ensures
        final(out)@ == old(out)@ + facing(views@, d),
{
    let ghost o0 = out@;
    let mut i: usize = 0;
    while i < views.len()
        invariant
            i <= views.len(),
            out@ == o0 + facing(views@.take(i as int), d),
        decreases views.len() - i,
    {
        assert(views@.take(i + 1).drop_last() =~= views@.take(i as int));
        assert(views@.take(i + 1).last() == views@[i as int]);
        if views[i].0 == d {
            out.push(views[i]);
            assert(o0 + facing(views@.take(i + 1), d) =~= (o0 + facing(views@.take(i as int), d)).push(views@[i as int]));
        }
        i += 1;
    }
    assert(views@.take(views.len() as int) =~= views@);
}

/// The views of an elevation marker, by direction. `views` holds the direction and id of
/// each of the marker's views, in id order; the result lists them North, East, South,
/// West, views facing the same way in the order given.
pub fn marker_views(views: &Vec<(Compass, ElementId)>) -> (r: Vec<(Compass, ElementId)>)
    ensures
        r@ == by_direction(views@),
{
    let mut out: Vec<(Compass, ElementId)> = Vec::new();
    push_facing(&mut out, views, Compass::North);
    push_facing(&mut out, views, Compass::East);
    push_facing(&mut out, views, Compass::South);
    push_facing(&mut out, views, Compass::West);
    assert(out@ =~= by_direction(views@));
    out
}

/// The name of a direction.
pub open spec fn compass_text(c: Compass) -> Seq<char> {
    match c {
        Compass::North => "North"@,
        Compass::East => "East"@,
        Compass::South => "South"@,
        Compass::West => "West"@,
    }
}

/// The name of a direction.
pub fn compass_name(c: Compass) -> (s: &'static str)
    ensures
        s@ == compass_text(c),
{
    match c {
        Compass::North => "North",
        Compass::East => "East",
        Compass::South => "South",
        Compass::West => "West",
    }
}

} // verus!
