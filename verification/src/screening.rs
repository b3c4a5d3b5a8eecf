//! Small keys of the physics crates: the clearance screening outcome, the
//! damage fold selector, and the diffusion stepper's theta method.

use vstd::prelude::*;

verus! {

/// Sum-of-fractions screening outcome.
#[derive(Debug, Clone, Copy, PartialEq, Eq, Structural)]
pub enum ClearanceClass {
    /// `sum_i A_i / CL_i <= 1`: the inventory satisfies the criterion (the
    /// boundary `== 1` lands here).
    Satisfied,
    /// `sum_i A_i / CL_i > 1`: the inventory does not satisfy it.
    Exceeded,
}

impl ClearanceClass {
    /// The outcome's name (`satisfied`, `exceeded`).
    pub fn as_str(self) -> (r: &'static str)
        ensures
            r@ == match self {
                ClearanceClass::Satisfied => "satisfied"@,
                ClearanceClass::Exceeded => "exceeded"@,
            },
    {
        match self {
            ClearanceClass::Satisfied => "satisfied",
            ClearanceClass::Exceeded => "exceeded",
        }
    }
}

/// Which spectral fold an uncertainty sweep refolds.
#[derive(Debug, Clone, Copy, PartialEq, Eq, Structural)]
pub enum FoldMetric {
    /// NRT displacements per atom.
    NrtDpa,
    /// arc-dpa displacements per atom.
    ArcDpa,
    /// Gas production in atomic parts per million.
    GasAppm,
    /// Helium-to-dpa ratio (not a linear fold).
    HeDpaRatio,
}

impl FoldMetric {
    /// Stable short name for reports.
    pub fn name(&self) -> (r: &'static str)
        ensures
            r@ == match *self {
                FoldMetric::NrtDpa => "nrt_dpa"@,
                FoldMetric::ArcDpa => "arc_dpa"@,
                FoldMetric::GasAppm => "gas_appm"@,
                FoldMetric::HeDpaRatio => "he_dpa_ratio"@,
            },
    {
        match self {
            FoldMetric::NrtDpa => "nrt_dpa",
            FoldMetric::ArcDpa => "arc_dpa",
            FoldMetric::GasAppm => "gas_appm",
            FoldMetric::HeDpaRatio => "he_dpa_ratio",
        }
    }
}

/// Theta-method selector: Crank-Nicolson (theta 1/2, the default) or
/// backward Euler (theta 1).
#[derive(Debug, Clone, Copy, PartialEq, Eq, Structural)]
pub enum Theta {
    /// Second-order A-stable Crank-Nicolson (default).
    CrankNicolson,
    /// First-order L-stable backward Euler.
    BackwardEuler,
}

impl Default for Theta {
    fn default() -> (r: Theta)
        ensures
            r == Theta::CrankNicolson,
    {
        Theta::CrankNicolson
    }
}

impl Theta {
    /// Theta as the fraction `(numerator, denominator)`: `1/2` or `1/1`.
    pub fn fraction(self) -> (r: (u32, u32))
        ensures
            r == match self {
                Theta::CrankNicolson => (1u32, 2u32),
                Theta::BackwardEuler => (1u32, 1u32),
            },
    {
        match self {
            Theta::CrankNicolson => (1, 2),
            Theta::BackwardEuler => (1, 1),
        }
    }
}

} // verus!
