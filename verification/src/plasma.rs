//! Plasma-source keys: confinement modes, fusion reactions, and the
//! source errors that carry no measured value.

use vstd::prelude::*;
use vstd::string::*;
use crate::ascii::{upper_seq, to_upper_vec};
use crate::text::{chars_of, chars_are, dec, append_str, append_dec, string_from_chars};

verus! {

/// Errors raised while validating source configurations, tabulating
/// spectra, or rendering source cards (those that carry no measured
/// value).
#[derive(Debug, Clone, PartialEq)]
pub enum Error {
    /// A source-model field is `NaN` or infinite.
    NonFinite(&'static str),
    /// A spectrum-tabulation request is invalid.
    BadTabulation(&'static str),
    /// The MCNP designator version must be 5 or 6.
    UnsupportedMcnpVersion(u32),
    /// A Miller-geometry field fails its documented range check.
    InvalidGeometry(&'static str),
    /// A profile parameter fails its documented range check.
    InvalidProfile(&'static str),
    /// The emitted card failed to re-parse through the typed `SDEF` reader.
    CardRoundTrip(String),
    /// The requested capability is outside the supported scope.
    NotYetSupported(&'static str),
}

/// The message of a source error.
pub open spec fn error_message(e: Error) -> Seq<char> {
    match e {
        Error::NonFinite(w) => "plasma-source: non-finite value in "@ + w@,
        Error::BadTabulation(w) => "plasma-source: invalid spectrum tabulation: "@ + w@,
        Error::UnsupportedMcnpVersion(v) => "plasma-source: unsupported MCNP version "@ + dec(v as nat)
            + " (supported: 5, 6)"@,
        Error::InvalidGeometry(w) => "plasma-source: invalid Miller geometry: "@ + w@,
        Error::InvalidProfile(w) => "plasma-source: invalid plasma profile: "@ + w@,
        Error::CardRoundTrip(s) => "plasma-source: emitted card failed the SDEF reader round trip: "@ + s@,
        Error::NotYetSupported(w) => "plasma-source: not yet supported: "@ + w@,
    }
}

impl Error {
    /// The error's message.
    pub fn to_string(&self) -> (r: String)
        ensures
            r@ == error_message(*self),
    {
        let mut v: Vec<char> = Vec::new();
        match self {
            Error::NonFinite(w) => {
                append_str(&mut v, "plasma-source: non-finite value in ");
                append_str(&mut v, w);
            },
            Error::BadTabulation(w) => {
                append_str(&mut v, "plasma-source: invalid spectrum tabulation: ");
                append_str(&mut v, w);
            },
            Error::UnsupportedMcnpVersion(n) => {
                append_str(&mut v, "plasma-source: unsupported MCNP version ");
                append_dec(&mut v, *n as u64);
                append_str(&mut v, " (supported: 5, 6)");
            },
            Error::InvalidGeometry(w) => {
                append_str(&mut v, "plasma-source: invalid Miller geometry: ");
                append_str(&mut v, w);
            },
            Error::InvalidProfile(w) => {
                append_str(&mut v, "plasma-source: invalid plasma profile: ");
                append_str(&mut v, w);
            },
            Error::CardRoundTrip(s) => {
                append_str(&mut v, "plasma-source: emitted card failed the SDEF reader round trip: ");
                append_str(&mut v, s.as_str());
            },
            Error::NotYetSupported(w) => {
                append_str(&mut v, "plasma-source: not yet supported: ");
                append_str(&mut v, w);
            },
        }
        assert(v@ =~= error_message(*self));
        string_from_chars(v.as_slice())
    }
}

/// Confinement-mode profile family.
#[derive(Debug, Clone, Copy, PartialEq, Eq, Hash, Structural)]
pub enum ProfileMode {
    /// L-mode: single power-law falloff, no pedestal.
    L,
    /// H-mode: cored power law plus a pedestal and linear edge.
    H,
    /// A-mode: same formulas as H in this parametrization.
    A,
}

/// The mode named by a label: `L`, `H` or `A` in either case.
pub open spec fn profile_mode_of(label: Seq<char>) -> Option<ProfileMode> {
    let key = upper_seq(label);
    if key == "L"@ {
        Some(ProfileMode::L)
    } else if key == "H"@ {
        Some(ProfileMode::H)
    } else if key == "A"@ {
        Some(ProfileMode::A)
    } else {
        None
    }
}

impl ProfileMode {
    /// Parse a mode label (`"L"`, `"H"`, `"A"`; case-insensitive).
    pub fn parse(label: &str) -> (r: Result<ProfileMode, Error>)
        ensures
            match profile_mode_of(label@) {
                Some(m) => r == Ok::<ProfileMode, Error>(m),
                None => r == Err::<ProfileMode, Error>(Error::InvalidProfile("mode must be one of L, H, A")),
            },
    {
        let raw = chars_of(label);
        let key = to_upper_vec(&raw);
        if chars_are(&key, "L") {
            Ok(ProfileMode::L)
        } else if chars_are(&key, "H") {
            Ok(ProfileMode::H)
        } else if chars_are(&key, "A") {
            Ok(ProfileMode::A)
        } else {
            Err(Error::InvalidProfile("mode must be one of L, H, A"))
        }
    }
}

/// Fusion reaction driving a neutron source.
#[derive(Debug, Clone, Copy, PartialEq, Eq, Hash, Structural)]
pub enum FusionReaction {
    /// T(d,n)4He: the 14.1 MeV deuterium-tritium neutron.
    Dt,
    /// D(d,n)3He: the 2.45 MeV deuterium-deuterium neutron.
    Dd,
}

impl FusionReaction {
    /// Human-readable reaction label (`"D-T"`, `"D-D"`).
    pub fn label(self) -> (r: &'static str)
        ensures
            r@ == match self {
                FusionReaction::Dt => "D-T"@,
                FusionReaction::Dd => "D-D"@,
            },
    {
        match self {
            FusionReaction::Dt => "D-T",
            FusionReaction::Dd => "D-D",
        }
    }
}

/// Each mode's own letter, in either case, parses back to that mode.
pub proof fn lemma_profile_mode_letters(m: ProfileMode)
    ensures
        profile_mode_of(match m {
            ProfileMode::L => "L"@,
            ProfileMode::H => "H"@,
            ProfileMode::A => "A"@,
        }) == Some(m),
        profile_mode_of(match m {
            ProfileMode::L => "l"@,
            ProfileMode::H => "h"@,
            ProfileMode::A => "a"@,
        }) == Some(m),
{
    reveal_strlit("L");
    reveal_strlit("H");
    reveal_strlit("A");
    reveal_strlit("l");
    reveal_strlit("h");
    reveal_strlit("a");
    assert(upper_seq("L"@) =~= "L"@);
    assert(upper_seq("H"@) =~= "H"@);
    assert(upper_seq("A"@) =~= "A"@);
    assert(upper_seq("l"@) =~= "L"@);
    assert(upper_seq("h"@) =~= "H"@);
    assert(upper_seq("a"@) =~= "A"@);
    assert("L"@[0] != "H"@[0] && "L"@[0] != "A"@[0] && "H"@[0] != "A"@[0]);
}


/// A mode label is accepted exactly when it is the single letter `L`, `H`
/// or `A` in either case; every other label is refused.
pub proof fn lemma_profile_mode_labels(label: Seq<char>)
    ensures
        profile_mode_of(label) == (if label.len() == 1 && (label[0] == 'L' || label[0] == 'l') {
            Some(ProfileMode::L)
        } else if label.len() == 1 && (label[0] == 'H' || label[0] == 'h') {
            Some(ProfileMode::H)
        } else if label.len() == 1 && (label[0] == 'A' || label[0] == 'a') {
            Some(ProfileMode::A)
        } else {
            None
        }),
{
    reveal_strlit("L");
    reveal_strlit("H");
    reveal_strlit("A");
    let key = upper_seq(label);
    if label.len() == 1 {
        let c = label[0];
        if crate::ascii::is_lower_char(c) {
            assert(((c as u32) - 32) as char as u32 == (c as u32) - 32);
        }
        assert(key[0] == crate::ascii::upper_char(c));
        if key[0] == 'L' {
            assert(key =~= "L"@);
        } else if key[0] == 'H' {
            assert(key =~= "H"@);
        } else if key[0] == 'A' {
            assert(key =~= "A"@);
        } else {
            assert(key != "L"@ && key != "H"@ && key != "A"@) by {
                assert(key[0] != "L"@[0] && key[0] != "H"@[0] && key[0] != "A"@[0]);
            }
        }
    } else {
        assert(key.len() != 1);
    }
}

} // verus!
