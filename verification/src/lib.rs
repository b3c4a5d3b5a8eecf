//! Verified core of the `nucleide` nuclear-analysis toolkit.
//!
//! - `mcpl`: the MCPL particle-list header codec (encode, decode, merge,
//!   extract, repair, `stat:sum:` comments, gzip transport) and the PDG
//!   histogram of a particle list.
//! - `nuclide`, `fgr15`: nuclide identities and names, and the layout of
//!   EPA FGR 15 dose-coefficient tables.
//! - `fispact`: the structure of FISPACT-II clearance listings.
//! - `openmc`, with `drift`, `xlate`, `params`, `universe`, `surface`,
//!   `expand`, `region`, `boundary`: the plan of an OpenMC geometry for an
//!   MCNP CSG deck and the passes it runs (cell parameters and data cards,
//!   universes and lattices, surface mapping and macrobody expansion, cell
//!   regions, boundary conditions) with their drift report, and the
//!   Serpent and PHITS surface maps and boundary checks.
//! - `sweep`: the case grid of a parameter sweep.
//! - `rng`: the integer random-number streams of the samplers.
//! - `linalg`, `plasma`, `screening`: input checks, enumerations and error
//!   types of the numerical crates.
//! - `text`, `ascii`: character-level helpers shared by the parsers.

use vstd::prelude::*;

pub mod ascii;
pub mod boundary;
pub mod directions;
pub mod drift;
pub mod expand;
pub mod fgr15;
pub mod fispact;
pub mod gdml;
pub mod linalg;
pub mod mcpl;
pub mod nuclide;
pub mod openmc;
pub mod order;
pub mod params;
pub mod phits;
pub mod plasma;
pub mod region;
pub mod rng;
pub mod screening;
pub mod serpent;
pub mod surface;
pub mod sweep;
pub mod text;
pub mod universe;
pub mod xlate;

verus! {
} // verus!
