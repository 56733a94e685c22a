//! Serialization of a row of pixels for the physical shift-register
//! chain.
//!
//! The hardware wants a row's 8 pixels in reverse column order, each
//! pixel as three gamma-corrected channel bytes in blue-green-red
//! order, and each byte shifted out most-significant bit first.  The
//! pin toggling itself is the output collaborator's business; the byte
//! and bit streams computed here are what it shifts out.

use vstd::prelude::*;

use crate::image::Color;
use crate::image::gamma_spec;

verus! {

/// The 24 wire bytes of one row: pixels in reverse column order, each
/// as gamma-corrected blue, green, red.
pub open spec fn row_wire_spec(row: Seq<Color>) -> Seq<u8>
    recommends
        row.len() == 8,
{
    Seq::new(24, |i: int| wire_byte(row[7 - i / 3], i % 3))
}

/// One wire byte of a pixel: channel 0 is blue, 1 is green, 2 is red,
/// gamma-corrected.
pub open spec fn wire_byte(pixel: Color, channel: int) -> u8 {
    if channel == 0 {
        gamma_spec(pixel.b as int) as u8
    } else if channel == 1 {
        gamma_spec(pixel.g as int) as u8
    } else {
        gamma_spec(pixel.r as int) as u8
    }
}

/// Serialize one row of 8 pixels into the 24 bytes the row driver
/// shifts out.
pub fn row_bytes(row: &Vec<Color>) -> (result: Vec<u8>)
    requires
        row@.len() == 8,
    ensures
        result@ == row_wire_spec(row@),
{
    let mut out: Vec<u8> = Vec::new();
    let mut k: usize = 0;
    while k < 8
        invariant
            row@.len() == 8,
            k <= 8,
            out@.len() == 3 * k,
            forall|i: int| 0 <= i < 3 * k ==> out@[i] == row_wire_spec(row@)[i],
        decreases 8 - k,
    {
        let pixel = row[7 - k].gamma_correct();
        out.push(pixel.b);
        out.push(pixel.g);
        out.push(pixel.r);
        proof {
            assert forall|i: int| 3 * k <= i < 3 * k + 3 implies out@[i] == row_wire_spec(row@)[i]
                by {
                assert(i / 3 == k && (i % 3 == i - 3 * k)) by (nonlinear_arith)
                    requires 0 <= k && 3 * k <= i < 3 * k + 3;
            }
        }
        k = k + 1;
    }
    proof {
        assert(out@ =~= row_wire_spec(row@));
    }
    out
}

/// The bits of `byte`, most significant first, as the serial data line
/// sends them.
pub fn byte_bits(byte: u8) -> (result: Vec<bool>)
    ensures
        result@.len() == 8,
        forall|i: int| 0 <= i < 8 ==> result@[i] == (byte >> (7 - i) & 1 == 1),
{
    let mut out: Vec<bool> = Vec::new();
    let mut k: usize = 0;
    while k < 8
        invariant
            k <= 8,
            out@.len() == k,
            forall|i: int| 0 <= i < k ==> out@[i] == (byte >> (7 - i) & 1 == 1),
        decreases 8 - k,
    {
        let shift: u8 = (7 - k) as u8;
        out.push(byte >> shift & 1 == 1);
        k = k + 1;
    }
    out
}

} // verus!
