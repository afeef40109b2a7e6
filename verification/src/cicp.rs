//! Colour code points as an AVIF file signals them.

use crate::meta::opt_view;
use crate::props::{Colr, ColrView};
use vstd::prelude::*;

verus! {

/// Colour primaries, transfer characteristics, matrix coefficients and
/// range.
#[derive(Clone, Copy, Debug, PartialEq, Eq, Structural)]
pub struct CicpTriple {
    /// Colour primaries.
    pub colour_primaries: u16,
    /// Transfer characteristics.
    pub transfer_characteristics: u16,
    /// Matrix coefficients.
    pub matrix_coefficients: u16,
    /// Whether the samples use the full range.
    pub full_range: bool,
}

/// The code points that say nothing.
pub open spec fn unspecified() -> CicpTriple {
    CicpTriple {
        colour_primaries: 2,
        transfer_characteristics: 2,
        matrix_coefficients: 2,
        full_range: false,
    }
}

/// The code points that colour information stands for: those of `nclx`,
/// otherwise unspecified.
pub open spec fn cicp_of(colr: Option<ColrView>) -> CicpTriple {
    match colr {
        Some(
            ColrView::Nclx {
                colour_primaries,
                transfer_characteristics,
                matrix_coefficients,
                full_range,
            },
        ) => CicpTriple {
            colour_primaries,
            transfer_characteristics,
            matrix_coefficients,
            full_range,
        },
        _ => unspecified(),
    }
}

/// The code points that colour information stands for.
pub fn effective_cicp(colr: Option<&Colr>) -> (r: CicpTriple)
    ensures
        r == cicp_of(opt_view(colr)),
{
    match colr {
        Some(
            Colr::Nclx {
                colour_primaries,
                transfer_characteristics,
                matrix_coefficients,
                full_range,
            },
        ) => CicpTriple {
            colour_primaries: *colour_primaries,
            transfer_characteristics: *transfer_characteristics,
            matrix_coefficients: *matrix_coefficients,
            full_range: *full_range,
        },
        _ => CicpTriple {
            colour_primaries: 2,
            transfer_characteristics: 2,
            matrix_coefficients: 2,
            full_range: false,
        },
    }
}

} // verus!
