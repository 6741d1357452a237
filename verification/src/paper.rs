//! Paper sizes, fit modes and colour filters.

use vstd::prelude::*;

verus! {

/// The supported sheet formats.
#[derive(Debug, Clone, Copy, PartialEq, Eq, Structural)]
pub enum PaperSize {
    A4,
    A3,
    A5,
    Letter,
    Legal,
    Photo4x6,
    Photo5x7,
}

/// Sheet width and height in portrait orientation, in tenths of a millimetre.
pub open spec fn portrait_tenth_mm(p: PaperSize) -> (nat, nat) {
    match p {
        PaperSize::A4 => (2100, 2970),
        PaperSize::A3 => (2970, 4200),
        PaperSize::A5 => (1480, 2100),
        PaperSize::Letter => (2159, 2794),
        PaperSize::Legal => (2159, 3556),
        PaperSize::Photo4x6 => (1016, 1524),
        PaperSize::Photo5x7 => (1270, 1778),
    }
}

/// Sheet width and height in the requested orientation: landscape swaps the sides.
pub open spec fn oriented_tenth_mm(p: PaperSize, is_portrait: bool) -> (nat, nat) {
    let (w, h) = portrait_tenth_mm(p);
    if is_portrait { (w, h) } else { (h, w) }
}

impl PaperSize {
    /// Width and height of the sheet, counted in tenths of a millimetre so that every
    /// format is exact (portrait keeps the short side horizontal, landscape swaps the sides).
    pub fn dimensions_mm(&self, is_portrait: bool) -> (r: (u32, u32))
        ensures
            (r.0 as nat, r.1 as nat) == oriented_tenth_mm(*self, is_portrait),
    {
        let (w, h): (u32, u32) = match self {
            PaperSize::A4 => (2100, 2970),
            PaperSize::A3 => (2970, 4200),
            PaperSize::A5 => (1480, 2100),
            PaperSize::Letter => (2159, 2794),
            PaperSize::Legal => (2159, 3556),
            PaperSize::Photo4x6 => (1016, 1524),
            PaperSize::Photo5x7 => (1270, 1778),
        };
        if is_portrait {
            (w, h)
        } else {
            (h, w)
        }
    }

    /// Human-readable label of the sheet format.
    pub fn name(&self) -> (r: &'static str)
        ensures
            r@ == paper_name(*self),
    {
        match self {
            PaperSize::A4 => "A4 (210 x 297 mm)",
            PaperSize::Letter => "US Letter (8.5 x 11 in)",
            PaperSize::Legal => "US Legal (8.5 x 14 in)",
            PaperSize::Photo4x6 => "4 x 6 in Photo Paper",
            PaperSize::Photo5x7 => "5 x 7 in Photo Paper",
            PaperSize::A3 => "A3 (297 x 420 mm)",
            PaperSize::A5 => "A5 (148 x 210 mm)",
        }
    }
}

/// The label shown for each sheet format.
pub open spec fn paper_name(p: PaperSize) -> Seq<char> {
    match p {
        PaperSize::A4 => "A4 (210 x 297 mm)"@,
        PaperSize::Letter => "US Letter (8.5 x 11 in)"@,
        PaperSize::Legal => "US Legal (8.5 x 14 in)"@,
        PaperSize::Photo4x6 => "4 x 6 in Photo Paper"@,
        PaperSize::Photo5x7 => "5 x 7 in Photo Paper"@,
        PaperSize::A3 => "A3 (297 x 420 mm)"@,
        PaperSize::A5 => "A5 (148 x 210 mm)"@,
    }
}

/// Every format is taller than wide in portrait, and landscape turns it: the same two sides,
/// swapped, so a landscape sheet is wider than high.
pub proof fn lemma_orientation(p: PaperSize)
    ensures
        oriented_tenth_mm(p, true).0 < oriented_tenth_mm(p, true).1,
        oriented_tenth_mm(p, false).0 == oriented_tenth_mm(p, true).1,
        oriented_tenth_mm(p, false).1 == oriented_tenth_mm(p, true).0,
{
}

} // verus!
