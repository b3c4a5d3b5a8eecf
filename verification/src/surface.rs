//! How each MCNP surface card maps to an OpenMC surface: the OpenMC type
//! and where each OpenMC coefficient comes from, a macrobody to expand, or
//! the reason the kind has no mapping.

use vstd::prelude::*;
use crate::expand::{axis_letter, single_axis};
use crate::xlate::{Error, ErrorView};

verus! {

/// MCNP surface kinds.
#[derive(Debug, Clone, Copy, PartialEq, Eq, Structural)]
pub enum SurfKind {
    Px, X, Py, Y, Pz, Z,
    So, Sx, Sy, Sz, S,
    Cx, Cy, Cz,
    Rpp, Sph, Rcc,
    P,
    Kx, Ky, Kz,
    Sq, Gq,
    Tx, Ty, Tz,
    McBox, Rec, Wed, Rhp, Hex, Trc, Ell, Arb,
}

/// One surface card: its number, kind, and the kind's canonical keyword.
#[derive(Debug, Clone, PartialEq, Eq)]
pub struct SurfaceCard {
    pub num: u32,
    pub kind: SurfKind,
    pub keyword: String,
}

/// Where one OpenMC coefficient comes from.
#[derive(Debug, Clone, Copy, PartialEq, Eq, Structural)]
pub enum Coef {
    /// The constant 0.
    Zero,
    /// The card's coefficient at this position.
    Card(usize),
    /// The lower of an `RCC` base coordinate along this axis and that
    /// coordinate plus the axis component.
    CapLow(usize),
    /// The higher of the same two.
    CapHigh(usize),
    /// The sum of the card's coefficients at these two positions.
    CardSum(usize, usize),
}

/// How one deck surface maps to OpenMC.
#[derive(Debug, Clone, PartialEq, Eq)]
pub enum SurfaceMap {
    /// A native OpenMC surface with its coefficients in OpenMC order.
    Direct { stype: &'static str, coeffs: Vec<Coef> },
    /// `RPP xmin xmax ymin ymax zmin zmax`, expanded to six planes.
    Rpp,
    /// `RCC base(3) axis(3) radius`, expanded to a cylinder and two caps.
    Rcc,
}

pub enum SurfaceMapView {
    Direct(Seq<char>, Seq<Coef>),
    Rpp,
    Rcc,
}

impl View for SurfaceMap {
    type V = SurfaceMapView;

    open spec fn view(&self) -> SurfaceMapView {
        match self {
            SurfaceMap::Direct { stype, coeffs } => SurfaceMapView::Direct(stype@, coeffs@),
            SurfaceMap::Rpp => SurfaceMapView::Rpp,
            SurfaceMap::Rcc => SurfaceMapView::Rcc,
        }
    }
}

/// The OpenMC type and coefficient sources of the kinds that map directly.
pub open spec fn direct_map(kind: SurfKind) -> Option<(Seq<char>, Seq<Coef>)> {
    match kind {
        SurfKind::Px | SurfKind::X => Some(("x-plane"@, seq![Coef::Card(0)])),
        SurfKind::Py | SurfKind::Y => Some(("y-plane"@, seq![Coef::Card(0)])),
        SurfKind::Pz | SurfKind::Z => Some(("z-plane"@, seq![Coef::Card(0)])),
        SurfKind::So => Some(("sphere"@, seq![Coef::Zero, Coef::Zero, Coef::Zero, Coef::Card(0)])),
        SurfKind::Sx => Some(("sphere"@, seq![Coef::Card(0), Coef::Zero, Coef::Zero, Coef::Card(1)])),
        SurfKind::Sy => Some(("sphere"@, seq![Coef::Zero, Coef::Card(0), Coef::Zero, Coef::Card(1)])),
        SurfKind::Sz => Some(("sphere"@, seq![Coef::Zero, Coef::Zero, Coef::Card(0), Coef::Card(1)])),
        SurfKind::S => Some(("sphere"@, seq![Coef::Card(0), Coef::Card(1), Coef::Card(2), Coef::Card(3)])),
        SurfKind::Cx => Some(("x-cylinder"@, seq![Coef::Zero, Coef::Zero, Coef::Card(0)])),
        SurfKind::Cy => Some(("y-cylinder"@, seq![Coef::Zero, Coef::Zero, Coef::Card(0)])),
        SurfKind::Cz => Some(("z-cylinder"@, seq![Coef::Zero, Coef::Zero, Coef::Card(0)])),
        SurfKind::Sph => Some(("sphere"@, seq![Coef::Card(0), Coef::Card(1), Coef::Card(2), Coef::Card(3)])),
        _ => None,
    }
}

/// Why a kind without a mapping is refused.
pub open spec fn unsupported_detail(kind: SurfKind) -> Option<Seq<char>> {
    match kind {
        SurfKind::P => Some("the 9-coefficient three-point plane has no verified v1 derivation to OpenMC (A B C D)"@),
        SurfKind::Kx | SurfKind::Ky | SurfKind::Kz => Some(
            "the 5-coefficient cone (apex, slope, sheet selector) has no lossless map to OpenMC's 4-parameter cone"@,
        ),
        SurfKind::Sq => Some("the 10-coefficient special-quadric ordering against OpenMC quadric is unverified"@),
        SurfKind::Gq => Some("the 16-coefficient general-quadric reduction to OpenMC's 10-parameter quadric is unverified"@),
        SurfKind::Tx | SurfKind::Ty | SurfKind::Tz => Some(
            "the 6-coefficient torus ordering against OpenMC torus (x0 y0 z0 A B C) is unverified"@,
        ),
        _ => None,
    }
}

/// The mapping of one surface card.
pub open spec fn surface_map(num: u32, kind: SurfKind, keyword: Seq<char>) -> Result<SurfaceMapView, ErrorView> {
    match direct_map(kind) {
        Some((t, c)) => Ok(SurfaceMapView::Direct(t, c)),
        None => if kind == SurfKind::Rpp {
            Ok(SurfaceMapView::Rpp)
        } else if kind == SurfKind::Rcc {
            Ok(SurfaceMapView::Rcc)
        } else {
            match unsupported_detail(kind) {
                Some(d) => Err(ErrorView::UnsupportedSurface(num, keyword, d)),
                None => Err(ErrorView::MacrobodyOutOfScope(num, keyword, "v1 expands RPP/SPH/axis-aligned RCC only"@)),
            }
        },
    }
}

fn direct(stype: &'static str, coeffs: Vec<Coef>) -> (r: Result<SurfaceMap, Error>)
    ensures
        r matches Ok(m) && m@ == SurfaceMapView::Direct(stype@, coeffs@),
{
    Ok(SurfaceMap::Direct { stype, coeffs })
}

fn unsupported(card: &SurfaceCard, detail: &str) -> (r: Result<SurfaceMap, Error>)
    ensures
        r matches Err(e) && e@ == ErrorView::UnsupportedSurface(card.num, card.keyword@, detail@),
{
    Err(Error::UnsupportedSurface { surf: card.num, kind: card.keyword.clone(), detail: detail.to_string() })
}

/// Map one deck surface to OpenMC, or refuse it: planes, spheres and axis
/// cylinders map directly, `RPP` and `RCC` are expanded to facets, and the
/// other kinds have no mapping.
pub fn map_surface(card: &SurfaceCard) -> (r: Result<SurfaceMap, Error>)
    ensures
        match (r, surface_map(card.num, card.kind, card.keyword@)) {
            (Ok(m), Ok(v)) => m@ == v,
            (Err(e), Err(v)) => e@ == v,
            _ => false,
        },
{
    match card.kind {
        SurfKind::Px | SurfKind::X => {
            let v = vec![Coef::Card(0)];
            assert(v@ =~= seq![Coef::Card(0)]);
            direct("x-plane", v)
        },
        SurfKind::Py | SurfKind::Y => {
            let v = vec![Coef::Card(0)];
            assert(v@ =~= seq![Coef::Card(0)]);
            direct("y-plane", v)
        },
        SurfKind::Pz | SurfKind::Z => {
            let v = vec![Coef::Card(0)];
            assert(v@ =~= seq![Coef::Card(0)]);
            direct("z-plane", v)
        },
        SurfKind::So => {
            let v = vec![Coef::Zero, Coef::Zero, Coef::Zero, Coef::Card(0)];
            assert(v@ =~= seq![Coef::Zero, Coef::Zero, Coef::Zero, Coef::Card(0)]);
            direct("sphere", v)
        },
        SurfKind::Sx => {
            let v = vec![Coef::Card(0), Coef::Zero, Coef::Zero, Coef::Card(1)];
            assert(v@ =~= seq![Coef::Card(0), Coef::Zero, Coef::Zero, Coef::Card(1)]);
            direct("sphere", v)
        },
        SurfKind::Sy => {
            let v = vec![Coef::Zero, Coef::Card(0), Coef::Zero, Coef::Card(1)];
            assert(v@ =~= seq![Coef::Zero, Coef::Card(0), Coef::Zero, Coef::Card(1)]);
            direct("sphere", v)
        },
        SurfKind::Sz => {
            let v = vec![Coef::Zero, Coef::Zero, Coef::Card(0), Coef::Card(1)];
            assert(v@ =~= seq![Coef::Zero, Coef::Zero, Coef::Card(0), Coef::Card(1)]);
            direct("sphere", v)
        },
        SurfKind::S => {
            let v = vec![Coef::Card(0), Coef::Card(1), Coef::Card(2), Coef::Card(3)];
            assert(v@ =~= seq![Coef::Card(0), Coef::Card(1), Coef::Card(2), Coef::Card(3)]);
            direct("sphere", v)
        },
        SurfKind::Cx => {
            let v = vec![Coef::Zero, Coef::Zero, Coef::Card(0)];
            assert(v@ =~= seq![Coef::Zero, Coef::Zero, Coef::Card(0)]);
            direct("x-cylinder", v)
        },
        SurfKind::Cy => {
            let v = vec![Coef::Zero, Coef::Zero, Coef::Card(0)];
            assert(v@ =~= seq![Coef::Zero, Coef::Zero, Coef::Card(0)]);
            direct("y-cylinder", v)
        },
        SurfKind::Cz => {
            let v = vec![Coef::Zero, Coef::Zero, Coef::Card(0)];
            assert(v@ =~= seq![Coef::Zero, Coef::Zero, Coef::Card(0)]);
            direct("z-cylinder", v)
        },
        SurfKind::Rpp => Ok(SurfaceMap::Rpp),
        SurfKind::Sph => {
            let v = vec![Coef::Card(0), Coef::Card(1), Coef::Card(2), Coef::Card(3)];
            assert(v@ =~= seq![Coef::Card(0), Coef::Card(1), Coef::Card(2), Coef::Card(3)]);
            direct("sphere", v)
        },
        SurfKind::Rcc => Ok(SurfaceMap::Rcc),
        SurfKind::P => unsupported(
            card,
            "the 9-coefficient three-point plane has no verified v1 derivation to OpenMC (A B C D)",
        ),
        SurfKind::Kx | SurfKind::Ky | SurfKind::Kz => unsupported(
            card,
            "the 5-coefficient cone (apex, slope, sheet selector) has no lossless map to OpenMC's 4-parameter cone",
        ),
        SurfKind::Sq => unsupported(
            card,
            "the 10-coefficient special-quadric ordering against OpenMC quadric is unverified",
        ),
        SurfKind::Gq => unsupported(
            card,
            "the 16-coefficient general-quadric reduction to OpenMC's 10-parameter quadric is unverified",
        ),
        SurfKind::Tx | SurfKind::Ty | SurfKind::Tz => unsupported(
            card,
            "the 6-coefficient torus ordering against OpenMC torus (x0 y0 z0 A B C) is unverified",
        ),
        SurfKind::McBox | SurfKind::Rec | SurfKind::Wed | SurfKind::Rhp | SurfKind::Hex | SurfKind::Trc
        | SurfKind::Ell | SurfKind::Arb => Err(Error::MacrobodyOutOfScope {
            surf: card.num,
            kind: card.keyword.clone(),
            detail: "v1 expands RPP/SPH/axis-aligned RCC only".to_string(),
        }),
    }
}

/// The card's first `n` coefficients, in order.
pub open spec fn card_seq(n: nat) -> Seq<Coef> {
    Seq::new(n, |i: int| Coef::Card(i as usize))
}

fn card_coeffs(n: usize) -> (r: Vec<Coef>)
    ensures
        r@ == card_seq(n as nat),
{
    let mut r: Vec<Coef> = Vec::new();
    let mut i: usize = 0;
    while i < n
        invariant
            i <= n,
            r@ == card_seq(i as nat),
        decreases n - i,
    {
        r.push(Coef::Card(i));
        assert(r@ =~= card_seq((i + 1) as nat));
        i = i + 1;
    }
    r
}

/// The PHITS symbol and parameters of the kinds PHITS spells like MCNP
/// (parameters pass through in card order).
pub open spec fn phits_map(kind: SurfKind) -> Option<(Seq<char>, Seq<Coef>)> {
    match kind {
        SurfKind::Px | SurfKind::X => Some(("PX"@, card_seq(1))),
        SurfKind::Py | SurfKind::Y => Some(("PY"@, card_seq(1))),
        SurfKind::Pz | SurfKind::Z => Some(("PZ"@, card_seq(1))),
        SurfKind::So => Some(("SO"@, card_seq(1))),
        SurfKind::Sx => Some(("SX"@, card_seq(2))),
        SurfKind::Sy => Some(("SY"@, card_seq(2))),
        SurfKind::Sz => Some(("SZ"@, card_seq(2))),
        SurfKind::S => Some(("S"@, card_seq(4))),
        SurfKind::Cx => Some(("CX"@, card_seq(1))),
        SurfKind::Cy => Some(("CY"@, card_seq(1))),
        SurfKind::Cz => Some(("CZ"@, card_seq(1))),
        SurfKind::Sph => Some(("SPH"@, card_seq(4))),
        SurfKind::Rpp => Some(("RPP"@, card_seq(6))),
        SurfKind::Rcc => Some(("RCC"@, card_seq(7))),
        SurfKind::McBox => Some(("BOX"@, card_seq(12))),
        _ => None,
    }
}

/// PHITS takes a card's coefficients through unchanged, in card order, and
/// spells each axis-named plane, sphere and cylinder with the upper-case
/// letter of the axis it names last (`PY`, `SY`, `CY` for y); an axis sphere
/// keeps both its values (position along the axis, radius), the others one.
pub proof fn lemma_phits_pass_through(kind: SurfKind)
    ensures
        phits_map(kind) matches Some((t, cs)) ==> forall|k: int| 0 <= k < cs.len() ==> #[trigger] cs[k] == Coef::Card(k as usize),
        kind == SurfKind::Px || kind == SurfKind::X || kind == SurfKind::Py || kind == SurfKind::Y
            || kind == SurfKind::Pz || kind == SurfKind::Z || kind == SurfKind::Sx || kind == SurfKind::Sy
            || kind == SurfKind::Sz || kind == SurfKind::Cx || kind == SurfKind::Cy || kind == SurfKind::Cz ==> {
            &&& phits_map(kind) matches Some((t, cs))
            &&& t.len() == 2
            &&& t[1] == seq!['X', 'Y', 'Z'][named_axis(kind)]
            &&& cs.len() == (if kind == SurfKind::Sx || kind == SurfKind::Sy || kind == SurfKind::Sz { 2int } else { 1int })
        },
{
    reveal_strlit("PX");
    reveal_strlit("PY");
    reveal_strlit("PZ");
    reveal_strlit("SX");
    reveal_strlit("SY");
    reveal_strlit("SZ");
    reveal_strlit("CX");
    reveal_strlit("CY");
    reveal_strlit("CZ");
}

/// Why PHITS refuses a kind it does not spell.
pub open spec fn phits_refusal(num: u32, kind: SurfKind, keyword: Seq<char>) -> ErrorView {
    match kind {
        SurfKind::P => ErrorView::UnsupportedSurface(num, keyword,
            "the 9-coefficient three-point plane against PHITS P (origin-side rule) is unverified"@),
        SurfKind::Kx | SurfKind::Ky | SurfKind::Kz => ErrorView::UnsupportedSurface(num, keyword,
            "the 5-coefficient cone against PHITS KX/KY/KZ (sqrt-form equation) is unverified"@),
        SurfKind::Sq => ErrorView::UnsupportedSurface(num, keyword,
            "the MCNP 10-coefficient SQ ordering against PHITS SQ (A..G plus centre) is unverified"@),
        SurfKind::Gq => ErrorView::UnsupportedSurface(num, keyword,
            "the 16-coefficient GQ reduction against PHITS 10-parameter GQ is unverified"@),
        SurfKind::Tx | SurfKind::Ty | SurfKind::Tz => ErrorView::UnsupportedSurface(num, keyword,
            "the 6-coefficient torus ordering against PHITS TX/TY/TZ (A/B/C radii) is unverified"@),
        _ => ErrorView::MacrobodyOutOfScope(num, keyword, "phits maps planes, spheres, cylinders, SPH/RPP/RCC/BOX only"@),
    }
}

fn refuse(card: &SurfaceCard, detail: &str, macrobody: bool) -> (r: Result<(&'static str, Vec<Coef>), Error>)
    ensures
        r matches Err(e) && e@ == (if macrobody {
            ErrorView::MacrobodyOutOfScope(card.num, card.keyword@, detail@)
        } else {
            ErrorView::UnsupportedSurface(card.num, card.keyword@, detail@)
        }),
{
    if macrobody {
        Err(Error::MacrobodyOutOfScope { surf: card.num, kind: card.keyword.clone(), detail: detail.to_string() })
    } else {
        Err(Error::UnsupportedSurface { surf: card.num, kind: card.keyword.clone(), detail: detail.to_string() })
    }
}

/// Map one deck surface to its PHITS symbol and parameters, or refuse it.
pub fn map_phits_surface(card: &SurfaceCard) -> (r: Result<(&'static str, Vec<Coef>), Error>)
    ensures
        match (r, phits_map(card.kind)) {
            (Ok((t, cs)), Some((u, ds))) => t@ == u && cs@ == ds,
            (Err(e), None) => e@ == phits_refusal(card.num, card.kind, card.keyword@),
            _ => false,
        },
{
    match card.kind {
        SurfKind::Px | SurfKind::X => Ok(("PX", card_coeffs(1))),
        SurfKind::Py | SurfKind::Y => Ok(("PY", card_coeffs(1))),
        SurfKind::Pz | SurfKind::Z => Ok(("PZ", card_coeffs(1))),
        SurfKind::So => Ok(("SO", card_coeffs(1))),
        SurfKind::Sx => Ok(("SX", card_coeffs(2))),
        SurfKind::Sy => Ok(("SY", card_coeffs(2))),
        SurfKind::Sz => Ok(("SZ", card_coeffs(2))),
        SurfKind::S => Ok(("S", card_coeffs(4))),
        SurfKind::Cx => Ok(("CX", card_coeffs(1))),
        SurfKind::Cy => Ok(("CY", card_coeffs(1))),
        SurfKind::Cz => Ok(("CZ", card_coeffs(1))),
        SurfKind::Sph => Ok(("SPH", card_coeffs(4))),
        SurfKind::Rpp => Ok(("RPP", card_coeffs(6))),
        SurfKind::Rcc => Ok(("RCC", card_coeffs(7))),
        SurfKind::McBox => Ok(("BOX", card_coeffs(12))),
        SurfKind::P => refuse(card, "the 9-coefficient three-point plane against PHITS P (origin-side rule) is unverified", false),
        SurfKind::Kx | SurfKind::Ky | SurfKind::Kz => refuse(
            card,
            "the 5-coefficient cone against PHITS KX/KY/KZ (sqrt-form equation) is unverified",
            false,
        ),
        SurfKind::Sq => refuse(card, "the MCNP 10-coefficient SQ ordering against PHITS SQ (A..G plus centre) is unverified", false),
        SurfKind::Gq => refuse(card, "the 16-coefficient GQ reduction against PHITS 10-parameter GQ is unverified", false),
        SurfKind::Tx | SurfKind::Ty | SurfKind::Tz => refuse(
            card,
            "the 6-coefficient torus ordering against PHITS TX/TY/TZ (A/B/C radii) is unverified",
            false,
        ),
        SurfKind::Rec | SurfKind::Wed | SurfKind::Rhp | SurfKind::Hex | SurfKind::Trc | SurfKind::Ell | SurfKind::Arb => refuse(
            card,
            "phits maps planes, spheres, cylinders, SPH/RPP/RCC/BOX only",
            true,
        ),
    }
}

/// The Serpent surface type and parameters of a kind Serpent spells; an
/// `RCC` maps only along a single axis (`nonzero` marks the nonzero axis
/// components), to a truncated cylinder from the base coordinate to the
/// base coordinate plus the axis component.
pub open spec fn serpent_map(kind: SurfKind, nonzero: Seq<bool>) -> Option<(Seq<char>, Seq<Coef>)> {
    match kind {
        SurfKind::Px | SurfKind::X => Some(("px"@, seq![Coef::Card(0)])),
        SurfKind::Py | SurfKind::Y => Some(("py"@, seq![Coef::Card(0)])),
        SurfKind::Pz | SurfKind::Z => Some(("pz"@, seq![Coef::Card(0)])),
        SurfKind::So => Some(("sph"@, seq![Coef::Zero, Coef::Zero, Coef::Zero, Coef::Card(0)])),
        SurfKind::Sx => Some(("sph"@, seq![Coef::Card(0), Coef::Zero, Coef::Zero, Coef::Card(1)])),
        SurfKind::Sy => Some(("sph"@, seq![Coef::Zero, Coef::Card(0), Coef::Zero, Coef::Card(1)])),
        SurfKind::Sz => Some(("sph"@, seq![Coef::Zero, Coef::Zero, Coef::Card(0), Coef::Card(1)])),
        SurfKind::S | SurfKind::Sph => Some(("sph"@, card_seq(4))),
        SurfKind::Cx => Some(("cylx"@, seq![Coef::Zero, Coef::Zero, Coef::Card(0)])),
        SurfKind::Cy => Some(("cyly"@, seq![Coef::Zero, Coef::Zero, Coef::Card(0)])),
        SurfKind::Cz => Some(("cylz"@, seq![Coef::Zero, Coef::Zero, Coef::Card(0)])),
        SurfKind::Rpp => Some(("cuboid"@, card_seq(6))),
        SurfKind::Rcc => if nonzero[0] && !nonzero[1] && !nonzero[2] {
            Some(("cylx"@, seq![Coef::Card(1), Coef::Card(2), Coef::Card(6), Coef::Card(0), Coef::CardSum(0, 3)]))
        } else if !nonzero[0] && nonzero[1] && !nonzero[2] {
            Some(("cyly"@, seq![Coef::Card(0), Coef::Card(2), Coef::Card(6), Coef::Card(1), Coef::CardSum(1, 4)]))
        } else if !nonzero[0] && !nonzero[1] && nonzero[2] {
            Some(("cylz"@, seq![Coef::Card(0), Coef::Card(1), Coef::Card(6), Coef::Card(2), Coef::CardSum(2, 5)]))
        } else {
            None
        },
        _ => None,
    }
}

/// The axis (0, 1, 2 for x, y, z) that an axis-named plane, sphere or
/// cylinder kind names.
pub open spec fn named_axis(kind: SurfKind) -> int {
    match kind {
        SurfKind::Px | SurfKind::X | SurfKind::Sx | SurfKind::Cx => 0,
        SurfKind::Py | SurfKind::Y | SurfKind::Sy | SurfKind::Cy => 1,
        _ => 2,
    }
}

/// Centre and radius sources `cs` of a sphere centred on axis `a`: the card's
/// first value at coordinate `a`, zero at the other two coordinates, and the
/// radius (card position 1) last.
pub open spec fn on_axis_sphere(cs: Seq<Coef>, a: int) -> bool {
    &&& cs.len() == 4
    &&& forall|k: int| 0 <= k < 3 ==> #[trigger] cs[k] == (if k == a { Coef::Card(0) } else { Coef::Zero })
    &&& cs[3] == Coef::Card(1)
}

/// An `SX`, `SY` or `SZ` card is a sphere centred on the axis it names, at
/// the card's first value along that axis, with the card's second value as
/// radius, both in OpenMC and in Serpent.
pub proof fn lemma_axis_sphere_centre(kind: SurfKind, nonzero: Seq<bool>)
    requires
        kind == SurfKind::Sx || kind == SurfKind::Sy || kind == SurfKind::Sz,
    ensures
        direct_map(kind) matches Some((t, cs)) && t == "sphere"@ && on_axis_sphere(cs, named_axis(kind)),
        serpent_map(kind, nonzero) matches Some((t, cs)) && t == "sph"@ && on_axis_sphere(cs, named_axis(kind)),
{
}

/// A `CX`, `CY` or `CZ` card is an infinite cylinder about the axis it names,
/// through the origin, with the card's first value as radius; a plane card
/// `PX`/`X`, `PY`/`Y`, `PZ`/`Z` is normal to the axis it names at the card's
/// first value. Both hold in OpenMC and in Serpent spelling.
pub proof fn lemma_axis_cylinders_and_planes(kind: SurfKind, nonzero: Seq<bool>)
    ensures
        kind == SurfKind::Cx || kind == SurfKind::Cy || kind == SurfKind::Cz ==> {
            &&& direct_map(kind) matches Some((t, cs)) && t == seq![axis_letter(named_axis(kind))] + "-cylinder"@
                && cs == seq![Coef::Zero, Coef::Zero, Coef::Card(0)]
            &&& serpent_map(kind, nonzero) matches Some((t, cs)) && t == "cyl"@ + seq![axis_letter(named_axis(kind))]
                && cs == seq![Coef::Zero, Coef::Zero, Coef::Card(0)]
        },
        kind == SurfKind::Px || kind == SurfKind::X || kind == SurfKind::Py || kind == SurfKind::Y
            || kind == SurfKind::Pz || kind == SurfKind::Z ==> {
            &&& direct_map(kind) matches Some((t, cs)) && t == seq![axis_letter(named_axis(kind))] + "-plane"@
                && cs == seq![Coef::Card(0)]
            &&& serpent_map(kind, nonzero) matches Some((t, cs)) && t == "p"@ + seq![axis_letter(named_axis(kind))]
                && cs == seq![Coef::Card(0)]
        },
{
    reveal_strlit("x-cylinder");
    reveal_strlit("y-cylinder");
    reveal_strlit("z-cylinder");
    reveal_strlit("-cylinder");
    reveal_strlit("cylx");
    reveal_strlit("cyly");
    reveal_strlit("cylz");
    reveal_strlit("cyl");
    reveal_strlit("x-plane");
    reveal_strlit("y-plane");
    reveal_strlit("z-plane");
    reveal_strlit("-plane");
    reveal_strlit("px");
    reveal_strlit("py");
    reveal_strlit("pz");
    reveal_strlit("p");
    let a = named_axis(kind);
    assert("x-cylinder"@ =~= seq!['x'] + "-cylinder"@);
    assert("y-cylinder"@ =~= seq!['y'] + "-cylinder"@);
    assert("z-cylinder"@ =~= seq!['z'] + "-cylinder"@);
    assert("cylx"@ =~= "cyl"@ + seq!['x']);
    assert("cyly"@ =~= "cyl"@ + seq!['y']);
    assert("cylz"@ =~= "cyl"@ + seq!['z']);
    assert("x-plane"@ =~= seq!['x'] + "-plane"@);
    assert("y-plane"@ =~= seq!['y'] + "-plane"@);
    assert("z-plane"@ =~= seq!['z'] + "-plane"@);
    assert("px"@ =~= "p"@ + seq!['x']);
    assert("py"@ =~= "p"@ + seq!['y']);
    assert("pz"@ =~= "p"@ + seq!['z']);
}

/// Serpent spells an `RCC` whose axis vector lies along a single axis `ax`
/// as the truncated cylinder named after that axis: the two base
/// coordinates other than `ax` in x, y, z order, the radius (card 6), then
/// the segment from the base coordinate along `ax` to that coordinate plus
/// the axis component. A canted `RCC` has no Serpent spelling.
pub proof fn lemma_serpent_rcc(nonzero: Seq<bool>)
    requires
        nonzero.len() == 3,
    ensures
        match single_axis(nonzero) {
            Some(ax) => {
                &&& serpent_map(SurfKind::Rcc, nonzero) matches Some((t, cs))
                &&& t == "cyl"@ + seq![axis_letter(ax)]
                &&& cs.len() == 5
                &&& cs[0] matches Coef::Card(i)
                &&& cs[1] matches Coef::Card(j)
                &&& i < j < 3 && i != ax && j != ax
                &&& cs[2] == Coef::Card(6)
                &&& cs[3] == Coef::Card(ax as usize)
                &&& cs[4] == Coef::CardSum(ax as usize, (ax + 3) as usize)
            },
            None => serpent_map(SurfKind::Rcc, nonzero) is None,
        },
{
    reveal_strlit("cylx");
    reveal_strlit("cyly");
    reveal_strlit("cylz");
    reveal_strlit("cyl");
    assert("cylx"@ =~= "cyl"@ + seq!['x']);
    assert("cyly"@ =~= "cyl"@ + seq!['y']);
    assert("cylz"@ =~= "cyl"@ + seq!['z']);
}

/// Why Serpent refuses a surface.
pub open spec fn serpent_refusal(num: u32, kind: SurfKind, keyword: Seq<char>) -> ErrorView {
    match kind {
        SurfKind::Rcc => ErrorView::MacrobodyOutOfScope(num, keyword,
            "only axis-aligned RCC maps to Serpent truncated cylinders"@),
        SurfKind::P => ErrorView::UnsupportedSurface(num, keyword,
            "the 9-coefficient three-point plane against Serpent plane/mplane (right-hand-rule sidedness) is unverified"@),
        SurfKind::Kx | SurfKind::Ky | SurfKind::Kz => ErrorView::UnsupportedSurface(num, keyword,
            "the 5-coefficient cone (apex, slope, sheet selector) against Serpent cone/ckx/cky/ckz is unverified"@),
        SurfKind::Sq | SurfKind::Gq => ErrorView::UnsupportedSurface(num, keyword,
            "the MCNP quadric coefficient ordering against Serpent quadratic is unverified"@),
        SurfKind::Tx | SurfKind::Ty | SurfKind::Tz => ErrorView::UnsupportedSurface(num, keyword,
            "the 6-coefficient torus ordering against Serpent torx/tory/torz (elliptical) is unverified"@),
        _ => ErrorView::MacrobodyOutOfScope(num, keyword,
            "serpent maps planes, spheres, cylinders, cuboid, and axis-aligned RCC only"@),
    }
}

fn layout(t: &'static str, a: Coef, b: Coef, c: Coef) -> (r: Result<(&'static str, Vec<Coef>), Error>)
    ensures
        r matches Ok((u, cs)) && u@ == t@ && cs@ == seq![a, b, c],
{
    let v = vec![a, b, c];
    assert(v@ =~= seq![a, b, c]);
    Ok((t, v))
}

fn layout4(t: &'static str, a: Coef, b: Coef, c: Coef, d: Coef) -> (r: Result<(&'static str, Vec<Coef>), Error>)
    ensures
        r matches Ok((u, cs)) && u@ == t@ && cs@ == seq![a, b, c, d],
{
    let v = vec![a, b, c, d];
    assert(v@ =~= seq![a, b, c, d]);
    Ok((t, v))
}

fn layout5(t: &'static str, a: Coef, b: Coef, c: Coef, d: Coef, e: Coef) -> (r: Result<(&'static str, Vec<Coef>), Error>)
    ensures
        r matches Ok((u, cs)) && u@ == t@ && cs@ == seq![a, b, c, d, e],
{
    let v = vec![a, b, c, d, e];
    assert(v@ =~= seq![a, b, c, d, e]);
    Ok((t, v))
}

/// Map one deck surface to its Serpent type and parameters, or refuse it
/// (`nonzero` marks the nonzero components of an `RCC` axis vector).
pub fn map_serpent_surface(card: &SurfaceCard, nonzero: [bool; 3]) -> (r: Result<(&'static str, Vec<Coef>), Error>)
    ensures
        match (r, serpent_map(card.kind, nonzero@)) {
            (Ok((t, cs)), Some((u, ds))) => t@ == u && cs@ == ds,
            (Err(e), None) => e@ == serpent_refusal(card.num, card.kind, card.keyword@),
            _ => false,
        },
{
    match card.kind {
        SurfKind::Px | SurfKind::X => Ok(("px", card_coeffs(1))),
        SurfKind::Py | SurfKind::Y => Ok(("py", card_coeffs(1))),
        SurfKind::Pz | SurfKind::Z => Ok(("pz", card_coeffs(1))),
        SurfKind::So => layout4("sph", Coef::Zero, Coef::Zero, Coef::Zero, Coef::Card(0)),
        SurfKind::Sx => layout4("sph", Coef::Card(0), Coef::Zero, Coef::Zero, Coef::Card(1)),
        SurfKind::Sy => layout4("sph", Coef::Zero, Coef::Card(0), Coef::Zero, Coef::Card(1)),
        SurfKind::Sz => layout4("sph", Coef::Zero, Coef::Zero, Coef::Card(0), Coef::Card(1)),
        SurfKind::S | SurfKind::Sph => Ok(("sph", card_coeffs(4))),
        SurfKind::Cx => layout("cylx", Coef::Zero, Coef::Zero, Coef::Card(0)),
        SurfKind::Cy => layout("cyly", Coef::Zero, Coef::Zero, Coef::Card(0)),
        SurfKind::Cz => layout("cylz", Coef::Zero, Coef::Zero, Coef::Card(0)),
        SurfKind::Rpp => Ok(("cuboid", card_coeffs(6))),
        SurfKind::Rcc => {
            if nonzero[0] && !nonzero[1] && !nonzero[2] {
                layout5("cylx", Coef::Card(1), Coef::Card(2), Coef::Card(6), Coef::Card(0), Coef::CardSum(0, 3))
            } else if !nonzero[0] && nonzero[1] && !nonzero[2] {
                layout5("cyly", Coef::Card(0), Coef::Card(2), Coef::Card(6), Coef::Card(1), Coef::CardSum(1, 4))
            } else if !nonzero[0] && !nonzero[1] && nonzero[2] {
                layout5("cylz", Coef::Card(0), Coef::Card(1), Coef::Card(6), Coef::Card(2), Coef::CardSum(2, 5))
            } else {
                refuse(card, "only axis-aligned RCC maps to Serpent truncated cylinders", true)
            }
        },
        SurfKind::P => refuse(
            card,
            "the 9-coefficient three-point plane against Serpent plane/mplane (right-hand-rule sidedness) is unverified",
            false,
        ),
        SurfKind::Kx | SurfKind::Ky | SurfKind::Kz => refuse(
            card,
            "the 5-coefficient cone (apex, slope, sheet selector) against Serpent cone/ckx/cky/ckz is unverified",
            false,
        ),
        SurfKind::Sq | SurfKind::Gq => refuse(card, "the MCNP quadric coefficient ordering against Serpent quadratic is unverified", false),
        SurfKind::Tx | SurfKind::Ty | SurfKind::Tz => refuse(
            card,
            "the 6-coefficient torus ordering against Serpent torx/tory/torz (elliptical) is unverified",
            false,
        ),
        SurfKind::McBox | SurfKind::Rec | SurfKind::Wed | SurfKind::Rhp | SurfKind::Hex | SurfKind::Trc | SurfKind::Ell
        | SurfKind::Arb => refuse(card, "serpent maps planes, spheres, cylinders, cuboid, and axis-aligned RCC only", true),
    }
}

} // verus!
