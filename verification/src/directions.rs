//! What the four geometry directions share: the passes over cell
//! parameters, data cards, universes and lattices run first in each, so a
//! deck they refuse is refused alike in every direction.

use vstd::prelude::*;
use crate::gdml::{gdml_outcome, GdmlView};
use crate::openmc::{OpenmcDeck, OutcomeView, front_outcome, openmc_outcome};
use crate::phits::{phits_outcome, PhitsView};
use crate::serpent::{serpent_outcome, SerpentView};
use crate::xlate::ErrorView;

verus! {

/// A refusal of the shared passes is the refusal of the OpenMC, Serpent,
/// PHITS and GDML directions alike.
pub proof fn lemma_shared_refusals_agree(d: OpenmcDeck, rs: Seq<(u32, ErrorView)>, bound_reason: Seq<char>)
    requires
        front_outcome(d, rs) is Err,
    ensures
        openmc_outcome(d, rs) == Err::<OutcomeView, ErrorView>(front_outcome(d, rs)->Err_0),
        serpent_outcome(d, rs) == Err::<SerpentView, ErrorView>(front_outcome(d, rs)->Err_0),
        phits_outcome(d, rs) == Err::<PhitsView, ErrorView>(front_outcome(d, rs)->Err_0),
        gdml_outcome(d, rs, bound_reason) == Err::<GdmlView, ErrorView>(front_outcome(d, rs)->Err_0),
{
}

} // verus!
