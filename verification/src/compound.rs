//! Compound types: the layers of wall, floor, ceiling and roof types.

use vstd::prelude::*;

use crate::element::LayerFunction;
use crate::ops::{PropOption, PropOptionView};
use crate::text::owned;

verus! {

/// The options of a layer's function: each function, labelled and identified by its label.
pub open spec fn function_option_views() -> Seq<PropOptionView> {
    seq![
        LayerFunction::Structure,
        LayerFunction::Substrate,
        LayerFunction::Insulation,
        LayerFunction::Finish,
        LayerFunction::Membrane,
        LayerFunction::AirGap
    ].map_values(|f: LayerFunction| PropOptionView { id: f.label_text(), label: f.label_text() })
}

/// The options of a layer's function, in the order offered to users.
pub fn function_options() -> (v: Vec<PropOption>)
    ensures
        v@.map_values(|o: PropOption| o@) == function_option_views(),
{
    let all = LayerFunction::all();
    let mut v: Vec<PropOption> = Vec::new();
    let mut i: usize = 0;
    while i < all.len()
        invariant
            i <= all.len(),
            all@ == seq![
                LayerFunction::Structure,
                LayerFunction::Substrate,
                LayerFunction::Insulation,
                LayerFunction::Finish,
                LayerFunction::Membrane,
                LayerFunction::AirGap
            ],
            v@.map_values(|o: PropOption| o@) == all@.take(i as int).map_values(
                |f: LayerFunction| PropOptionView { id: f.label_text(), label: f.label_text() },
            ),
        decreases all.len() - i,
    {
        let l = all[i].label();
        let o = PropOption { id: owned(l), label: owned(l) };
        assert(o@ == PropOptionView { id: all@[i as int].label_text(), label: all@[i as int].label_text() });
        let ghost v0 = v@.map_values(|o: PropOption| o@);
        v.push(o);
        assert(v@.map_values(|o: PropOption| o@) =~= v0.push(o@));
        assert(all@.take(i + 1) =~= all@.take(i as int).push(all@[i as int]));
        assert(v@.map_values(|o: PropOption| o@) =~= all@.take(i + 1).map_values(
            |f: LayerFunction| PropOptionView { id: f.label_text(), label: f.label_text() },
        ));
        i += 1;
    }
    assert(all@.take(all.len() as int) =~= all@);
    v
}

} // verus!
