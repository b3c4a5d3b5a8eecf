//! Why an MCNP CSG geometry deck cannot be written in another code's geometry.

use vstd::prelude::*;
use crate::text::{dec, append_str, append_chars, append_dec, chars_of, string_from_chars};

verus! {

/// Why a deck cannot be translated.
#[derive(Debug, Clone, PartialEq, Eq)]
pub enum Error {
    /// A surface kind has no verified mapping (cones, quadrics, tori,
    /// general three-point planes).
    UnsupportedSurface { surf: u32, kind: String, detail: String },
    /// A macrobody cannot be expanded to half-spaces.
    MacrobodyOutOfScope { surf: u32, kind: String, detail: String },
    /// A `#n` complement names a cell whose region is not a single
    /// half-space or an intersection of half-spaces.
    ComplementTooComplex { cell: u32, target: i32 },
    /// A cell references a surface number that is neither a deck surface
    /// nor a generated expansion facet.
    UnknownSurface { cell: u32, surf: u32 },
    /// A `#n` complement names a cell number absent from the deck.
    UnknownCell { cell: u32, target: i32 },
    /// A surface is both reflective and periodic.
    ReflectiveConflict { surf: u32, detail: String },
    /// A periodic pointer cannot be paired unambiguously.
    PeriodicAmbiguous { surf: u32, partner: u32, detail: String },
    /// A transform (`TRn` card, surface pointer, `TRCL`) needs translation.
    TransformOutOfScope { detail: String },
    /// Universes, lattices, `FILL`, or `read` includes need translation.
    UniverseOutOfScope { detail: String },
    /// A tally or source card needs translation.
    TallySourceOutOfScope { detail: String },
    /// A reflecting or periodic boundary has no verified Serpent mapping.
    SerpentBoundaryOutOfScope { surf: u32, detail: String },
    /// A periodic pointer has no PHITS spelling.
    PhitsBoundaryOutOfScope { surf: u32, detail: String },
    /// A reflecting or periodic boundary has no GDML spelling.
    GdmlBoundaryOutOfScope { surf: u32, detail: String },
}

/// An [`Error`] with its texts as characters.
pub enum ErrorView {
    UnsupportedSurface(u32, Seq<char>, Seq<char>),
    MacrobodyOutOfScope(u32, Seq<char>, Seq<char>),
    ComplementTooComplex(u32, i32),
    UnknownSurface(u32, u32),
    UnknownCell(u32, i32),
    ReflectiveConflict(u32, Seq<char>),
    PeriodicAmbiguous(u32, u32, Seq<char>),
    TransformOutOfScope(Seq<char>),
    UniverseOutOfScope(Seq<char>),
    TallySourceOutOfScope(Seq<char>),
    SerpentBoundaryOutOfScope(u32, Seq<char>),
    PhitsBoundaryOutOfScope(u32, Seq<char>),
    GdmlBoundaryOutOfScope(u32, Seq<char>),
}

impl View for Error {
    type V = ErrorView;

    open spec fn view(&self) -> ErrorView {
        match self {
            Error::UnsupportedSurface { surf, kind, detail } => ErrorView::UnsupportedSurface(*surf, kind@, detail@),
            Error::MacrobodyOutOfScope { surf, kind, detail } => ErrorView::MacrobodyOutOfScope(*surf, kind@, detail@),
            Error::ComplementTooComplex { cell, target } => ErrorView::ComplementTooComplex(*cell, *target),
            Error::UnknownSurface { cell, surf } => ErrorView::UnknownSurface(*cell, *surf),
            Error::UnknownCell { cell, target } => ErrorView::UnknownCell(*cell, *target),
            Error::ReflectiveConflict { surf, detail } => ErrorView::ReflectiveConflict(*surf, detail@),
            Error::PeriodicAmbiguous { surf, partner, detail } => ErrorView::PeriodicAmbiguous(*surf, *partner, detail@),
            Error::TransformOutOfScope { detail } => ErrorView::TransformOutOfScope(detail@),
            Error::UniverseOutOfScope { detail } => ErrorView::UniverseOutOfScope(detail@),
            Error::TallySourceOutOfScope { detail } => ErrorView::TallySourceOutOfScope(detail@),
            Error::SerpentBoundaryOutOfScope { surf, detail } => ErrorView::SerpentBoundaryOutOfScope(*surf, detail@),
            Error::PhitsBoundaryOutOfScope { surf, detail } => ErrorView::PhitsBoundaryOutOfScope(*surf, detail@),
            Error::GdmlBoundaryOutOfScope { surf, detail } => ErrorView::GdmlBoundaryOutOfScope(*surf, detail@),
        }
    }
}

/// A signed number's text.
pub open spec fn signed_text(x: i32) -> Seq<char> {
    if x < 0 {
        seq!['-'] + dec((-x) as nat)
    } else {
        dec(x as nat)
    }
}

/// The message of an error.
pub open spec fn error_message(e: ErrorView) -> Seq<char> {
    match e {
        ErrorView::UnsupportedSurface(surf, kind, detail) => "surface "@ + dec(surf as nat) + " ("@ + kind + ") has no v1 mapping: "@ + detail,
        ErrorView::MacrobodyOutOfScope(surf, kind, detail) => "surface "@ + dec(surf as nat) + " ("@ + kind + ") is out of v1 scope: "@
            + detail,
        ErrorView::ComplementTooComplex(cell, target) => "cell "@ + dec(cell as nat) + " complement #"@ + signed_text(target)
            + " is too complex for v1 (unions and nested complements cannot inline)"@,
        ErrorView::UnknownSurface(cell, surf) => "cell "@ + dec(cell as nat) + " references unknown surface "@ + dec(surf as nat),
        ErrorView::UnknownCell(cell, target) => "cell "@ + dec(cell as nat) + " complements unknown cell "@ + signed_text(target),
        ErrorView::ReflectiveConflict(surf, detail) => "surface "@ + dec(surf as nat) + " is both reflective and periodic: "@ + detail,
        ErrorView::PeriodicAmbiguous(surf, partner, detail) => "surface "@ + dec(surf as nat) + " periodic partner "@ + dec(
            partner as nat,
        ) + " is ambiguous: "@ + detail,
        ErrorView::TransformOutOfScope(detail) => "transforms are out of v1 scope: "@ + detail,
        ErrorView::UniverseOutOfScope(detail) => "universes/lattices/fills are out of v1 scope: "@ + detail,
        ErrorView::TallySourceOutOfScope(detail) => "tallies/sources are out of v1 scope: "@ + detail,
        ErrorView::SerpentBoundaryOutOfScope(surf, detail) => "surface "@ + dec(surf as nat) + " boundary has no verified serpent mapping: "@
            + detail,
        ErrorView::PhitsBoundaryOutOfScope(surf, detail) => "surface "@ + dec(surf as nat) + " periodic pointer has no phits spelling: "@
            + detail,
        ErrorView::GdmlBoundaryOutOfScope(surf, detail) => "surface "@ + dec(surf as nat) + " boundary has no gdml spelling: "@ + detail,
    }
}

fn append_signed(v: &mut Vec<char>, x: i32)
    ensures
        final(v)@ == old(v)@ + signed_text(x),
{
    if x < 0 {
        v.push('-');
        let m: u64 = if x == i32::MIN { 2147483648u64 } else { (-x) as u64 };
        append_dec(v, m);
        assert(v@ =~= old(v)@ + signed_text(x));
    } else {
        append_dec(v, x as u64);
    }
}

fn append_string(v: &mut Vec<char>, s: &String)
    ensures
        final(v)@ == old(v)@ + s@,
{
    let c = chars_of(s.as_str());
    append_chars(v, &c);
}

impl Error {
    /// The error's message.
    pub fn to_string(&self) -> (r: String)
        ensures
            r@ == error_message(self@),
    {
        let mut v: Vec<char> = Vec::new();
        match self {
            Error::UnsupportedSurface { surf, kind, detail } => {
                append_str(&mut v, "surface ");
                append_dec(&mut v, *surf as u64);
                append_str(&mut v, " (");
                append_string(&mut v, kind);
                append_str(&mut v, ") has no v1 mapping: ");
                append_string(&mut v, detail);
            },
            Error::MacrobodyOutOfScope { surf, kind, detail } => {
                append_str(&mut v, "surface ");
                append_dec(&mut v, *surf as u64);
                append_str(&mut v, " (");
                append_string(&mut v, kind);
                append_str(&mut v, ") is out of v1 scope: ");
                append_string(&mut v, detail);
            },
            Error::ComplementTooComplex { cell, target } => {
                append_str(&mut v, "cell ");
                append_dec(&mut v, *cell as u64);
                append_str(&mut v, " complement #");
                append_signed(&mut v, *target);
                append_str(&mut v, " is too complex for v1 (unions and nested complements cannot inline)");
            },
            Error::UnknownSurface { cell, surf } => {
                append_str(&mut v, "cell ");
                append_dec(&mut v, *cell as u64);
                append_str(&mut v, " references unknown surface ");
                append_dec(&mut v, *surf as u64);
            },
            Error::UnknownCell { cell, target } => {
                append_str(&mut v, "cell ");
                append_dec(&mut v, *cell as u64);
                append_str(&mut v, " complements unknown cell ");
                append_signed(&mut v, *target);
            },
            Error::ReflectiveConflict { surf, detail } => {
                append_str(&mut v, "surface ");
                append_dec(&mut v, *surf as u64);
                append_str(&mut v, " is both reflective and periodic: ");
                append_string(&mut v, detail);
            },
            Error::PeriodicAmbiguous { surf, partner, detail } => {
                append_str(&mut v, "surface ");
                append_dec(&mut v, *surf as u64);
                append_str(&mut v, " periodic partner ");
                append_dec(&mut v, *partner as u64);
                append_str(&mut v, " is ambiguous: ");
                append_string(&mut v, detail);
            },
            Error::TransformOutOfScope { detail } => {
                append_str(&mut v, "transforms are out of v1 scope: ");
                append_string(&mut v, detail);
            },
            Error::UniverseOutOfScope { detail } => {
                append_str(&mut v, "universes/lattices/fills are out of v1 scope: ");
                append_string(&mut v, detail);
            },
            Error::TallySourceOutOfScope { detail } => {
                append_str(&mut v, "tallies/sources are out of v1 scope: ");
                append_string(&mut v, detail);
            },
            Error::SerpentBoundaryOutOfScope { surf, detail } => {
                append_str(&mut v, "surface ");
                append_dec(&mut v, *surf as u64);
                append_str(&mut v, " boundary has no verified serpent mapping: ");
                append_string(&mut v, detail);
            },
            Error::PhitsBoundaryOutOfScope { surf, detail } => {
                append_str(&mut v, "surface ");
                append_dec(&mut v, *surf as u64);
                append_str(&mut v, " periodic pointer has no phits spelling: ");
                append_string(&mut v, detail);
            },
            Error::GdmlBoundaryOutOfScope { surf, detail } => {
                append_str(&mut v, "surface ");
                append_dec(&mut v, *surf as u64);
                append_str(&mut v, " boundary has no gdml spelling: ");
                append_string(&mut v, detail);
            },
        }
        assert(v@ =~= error_message(self@));
        string_from_chars(v.as_slice())
    }
}

} // verus!
