//! Shape and error rules of the numerical kernels: the tridiagonal
//! solver's input checks and the decay perturbation checks, with their
//! error messages.

use vstd::prelude::*;
use vstd::string::*;
use crate::text::{dec, append_str, append_dec, string_from_chars};

verus! {

/// Errors surfaced by the tridiagonal solver. Every rejection names its
/// cause.
#[derive(Debug, Clone, PartialEq)]
pub enum TridiagError {
    /// No unknowns supplied (`b` empty).
    Empty,
    /// `a` length is not `n - 1` (`n` unknowns).
    SubLength { expected: usize, got: usize },
    /// `c` length is not `n - 1` (`n` unknowns).
    SuperLength { expected: usize, got: usize },
    /// `d` length does not match the `b` (unknown) count.
    RhsLength { expected: usize, got: usize },
    /// A non-finite value in the named input (`"a"`, `"b"`, `"c"`, `"d"`).
    NonFinite(&'static str),
    /// A vanishing pivot at the given elimination stage: the system is
    /// singular.
    ZeroPivot { stage: usize },
}

/// The message of a tridiagonal-solver error.
pub open spec fn tridiag_message(e: TridiagError) -> Seq<char> {
    match e {
        TridiagError::Empty => "tridiag: no unknowns supplied"@,
        TridiagError::SubLength { expected, got } => "tridiag: sub-diagonal length "@ + dec(got as nat)
            + " does not match "@ + dec(expected as nat) + " unknowns"@,
        TridiagError::SuperLength { expected, got } => "tridiag: super-diagonal length "@ + dec(got as nat)
            + " does not match "@ + dec(expected as nat) + " unknowns"@,
        TridiagError::RhsLength { expected, got } => "tridiag: right-hand side length "@ + dec(got as nat)
            + " does not match "@ + dec(expected as nat) + " unknowns"@,
        TridiagError::NonFinite(name) => "tridiag: non-finite value in `"@ + name@ + "`"@,
        TridiagError::ZeroPivot { stage } => "tridiag: zero pivot at elimination stage "@ + dec(stage as nat),
    }
}

impl TridiagError {
    /// The error's message.
    pub fn to_string(&self) -> (r: String)
        ensures
            r@ == tridiag_message(*self),
    {
        let mut v: Vec<char> = Vec::new();
        match self {
            TridiagError::Empty => {
                append_str(&mut v, "tridiag: no unknowns supplied");
            },
            TridiagError::SubLength { expected, got } => {
                append_str(&mut v, "tridiag: sub-diagonal length ");
                append_dec(&mut v, *got as u64);
                append_str(&mut v, " does not match ");
                append_dec(&mut v, *expected as u64);
                append_str(&mut v, " unknowns");
            },
            TridiagError::SuperLength { expected, got } => {
                append_str(&mut v, "tridiag: super-diagonal length ");
                append_dec(&mut v, *got as u64);
                append_str(&mut v, " does not match ");
                append_dec(&mut v, *expected as u64);
                append_str(&mut v, " unknowns");
            },
            TridiagError::RhsLength { expected, got } => {
                append_str(&mut v, "tridiag: right-hand side length ");
                append_dec(&mut v, *got as u64);
                append_str(&mut v, " does not match ");
                append_dec(&mut v, *expected as u64);
                append_str(&mut v, " unknowns");
            },
            TridiagError::NonFinite(name) => {
                append_str(&mut v, "tridiag: non-finite value in `");
                append_str(&mut v, name);
                append_str(&mut v, "`");
            },
            TridiagError::ZeroPivot { stage } => {
                append_str(&mut v, "tridiag: zero pivot at elimination stage ");
                append_dec(&mut v, *stage as u64);
            },
        }
        assert(v@ =~= tridiag_message(*self));
        string_from_chars(v.as_slice())
    }
}

/// The checks the solver makes before elimination, on the lengths of the
/// sub-diagonal `a`, diagonal `b`, super-diagonal `c` and right-hand side
/// `d`, and on whether each of them holds only finite values.
pub open spec fn system_check(na: usize, nb: usize, nc: usize, nd: usize, finite: [bool; 4]) -> Result<(), TridiagError> {
    if nb == 0 {
        Err(TridiagError::Empty)
    } else if na + 1 != nb {
        Err(TridiagError::SubLength { expected: nb, got: na })
    } else if nc + 1 != nb {
        Err(TridiagError::SuperLength { expected: nb, got: nc })
    } else if nd != nb {
        Err(TridiagError::RhsLength { expected: nb, got: nd })
    } else if !finite[0] {
        Err(TridiagError::NonFinite("a"))
    } else if !finite[1] {
        Err(TridiagError::NonFinite("b"))
    } else if !finite[2] {
        Err(TridiagError::NonFinite("c"))
    } else if !finite[3] {
        Err(TridiagError::NonFinite("d"))
    } else {
        Ok(())
    }
}

/// Validate a tridiagonal system before elimination: `na`, `nb`, `nc`,
/// `nd` are the lengths of `a`, `b`, `c`, `d`; `finite[k]` says whether
/// input `k` (in that order) holds only finite values.
pub fn validate_system(na: usize, nb: usize, nc: usize, nd: usize, finite: [bool; 4]) -> (r: Result<(), TridiagError>)
    ensures
        r == system_check(na, nb, nc, nd, finite),
{
    if nb == 0 {
        return Err(TridiagError::Empty);
    }
    if na != nb - 1 {
        return Err(TridiagError::SubLength { expected: nb, got: na });
    }
    if nc != nb - 1 {
        return Err(TridiagError::SuperLength { expected: nb, got: nc });
    }
    if nd != nb {
        return Err(TridiagError::RhsLength { expected: nb, got: nd });
    }
    if !finite[0] {
        return Err(TridiagError::NonFinite("a"));
    }
    if !finite[1] {
        return Err(TridiagError::NonFinite("b"));
    }
    if !finite[2] {
        return Err(TridiagError::NonFinite("c"));
    }
    if !finite[3] {
        return Err(TridiagError::NonFinite("d"));
    }
    Ok(())
}

/// Errors surfaced by the decay perturbation consumer.
#[derive(Debug, Clone, PartialEq)]
pub enum DecayError {
    /// An input slice is empty.
    Empty,
    /// A perturbation vector does not match the nominal length.
    LengthMismatch { expected: usize, got: usize },
    /// A non-finite value in the named input.
    NonFinite(&'static str),
    /// A nominal branch fraction or energy is negative at the given index.
    NegativeBase { index: usize },
    /// Renormalisation is impossible: the kept-branch sum is zero, or every
    /// perturbed branch clamped to zero.
    Degenerate,
}

/// The message of a decay-perturbation error.
pub open spec fn decay_message(e: DecayError) -> Seq<char> {
    match e {
        DecayError::Empty => "decay perturbation input is empty"@,
        DecayError::LengthMismatch { expected, got } => "decay perturbation length mismatch: expected "@
            + dec(expected as nat) + ", got "@ + dec(got as nat),
        DecayError::NonFinite(what) => "decay perturbation input `"@ + what@ + "` holds a non-finite value"@,
        DecayError::NegativeBase { index } => "decay nominal value at index "@ + dec(index as nat) + " is negative"@,
        DecayError::Degenerate => "decay branch renormalisation is degenerate (zero kept sum)"@,
    }
}

impl DecayError {
    /// The error's message.
    pub fn to_string(&self) -> (r: String)
        ensures
            r@ == decay_message(*self),
    {
        let mut v: Vec<char> = Vec::new();
        match self {
            DecayError::Empty => {
                append_str(&mut v, "decay perturbation input is empty");
            },
            DecayError::LengthMismatch { expected, got } => {
                append_str(&mut v, "decay perturbation length mismatch: expected ");
                append_dec(&mut v, *expected as u64);
                append_str(&mut v, ", got ");
                append_dec(&mut v, *got as u64);
            },
            DecayError::NonFinite(what) => {
                append_str(&mut v, "decay perturbation input `");
                append_str(&mut v, what);
                append_str(&mut v, "` holds a non-finite value");
            },
            DecayError::NegativeBase { index } => {
                append_str(&mut v, "decay nominal value at index ");
                append_dec(&mut v, *index as u64);
                append_str(&mut v, " is negative");
            },
            DecayError::Degenerate => {
                append_str(&mut v, "decay branch renormalisation is degenerate (zero kept sum)");
            },
        }
        assert(v@ =~= decay_message(*self));
        string_from_chars(v.as_slice())
    }
}

/// What a caller has read off a nominal vector and its perturbation
/// before the checks: whether each holds only finite values, and the
/// first index of a negative nominal value.
#[derive(Debug, Clone, Copy, PartialEq, Eq, Structural)]
pub struct PairFacts {
    pub base_finite: bool,
    pub delta_finite: bool,
    pub first_negative: Option<usize>,
}

/// The checks made on a nominal vector of length `nbase` and its
/// perturbation of length `ndelta` (named `what`).
pub open spec fn pair_check(nbase: usize, ndelta: usize, facts: PairFacts, what: &'static str) -> Result<(), DecayError> {
    if nbase == 0 {
        Err(DecayError::Empty)
    } else if nbase != ndelta {
        Err(DecayError::LengthMismatch { expected: nbase, got: ndelta })
    } else if !facts.base_finite {
        Err(DecayError::NonFinite("base"))
    } else if !facts.delta_finite {
        Err(DecayError::NonFinite(what))
    } else {
        match facts.first_negative {
            Some(index) => Err(DecayError::NegativeBase { index }),
            None => Ok(()),
        }
    }
}

/// Check a nominal vector and its perturbation before perturbing.
pub fn check_pair(nbase: usize, ndelta: usize, facts: PairFacts, what: &'static str) -> (r: Result<(), DecayError>)
    ensures
        r == pair_check(nbase, ndelta, facts, what),
{
    if nbase == 0 {
        return Err(DecayError::Empty);
    }
    if nbase != ndelta {
        return Err(DecayError::LengthMismatch { expected: nbase, got: ndelta });
    }
    if !facts.base_finite {
        return Err(DecayError::NonFinite("base"));
    }
    if !facts.delta_finite {
        return Err(DecayError::NonFinite(what));
    }
    match facts.first_negative {
        Some(index) => Err(DecayError::NegativeBase { index }),
        None => Ok(()),
    }
}

} // verus!
