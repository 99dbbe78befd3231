//! The finished buffer as the bytes an image encoder takes: three per pixel,
//! red, green, blue, pixels in buffer order.

use crate::raster::Rgb;
use slice_of_array::SliceFlatExt;
use vstd::prelude::*;
use vstd::slice::slice_to_vec;

verus! {

/// Channel `k` of a pixel: 0 is red, 1 is green, anything else is blue.
pub open spec fn channel(pixel: Rgb, k: int) -> u8 {
    if k == 0 {
        pixel.0
    } else if k == 1 {
        pixel.1
    } else {
        pixel.2
    }
}

/// The channels of `pixels`, pixel after pixel.
pub open spec fn rgb_bytes_spec(pixels: Seq<Rgb>) -> Seq<u8> {
    Seq::new(3 * pixels.len(), |i: int| channel(pixels[i / 3], i % 3))
}

/// `SliceFlatExt::flat` of the crate slice-of-array, on a slice of arrays of
/// three bytes. It is believed, not proved, that the slice it returns holds
/// the bytes of the arrays one array after the other: three times as many
/// bytes as there are arrays, byte `k` of array `i` at place `3 * i + k`.
#[verifier::external_body]
fn flat<'a>(triples: &'a [[u8; 3]]) -> (bytes: &'a [u8])
    ensures
        bytes@.len() == 3 * triples@.len(),
        forall|i: int, k: int|
            0 <= i < triples@.len() && 0 <= k < 3 ==> bytes@[3 * i + k] == #[trigger] triples@[i]@[k],
{
    triples.flat()
}

/// Each pixel as an array of its three channels.
pub fn rgb_triples(pixels: &[Rgb]) -> (triples: Vec<[u8; 3]>)
    ensures
        triples@.len() == pixels@.len(),
        forall|i: int, k: int|
            0 <= i < pixels@.len() && 0 <= k < 3 ==> #[trigger] triples@[i]@[k] == channel(
                pixels@[i],
                k,
            ),
{
    let mut triples: Vec<[u8; 3]> = Vec::new();
    let mut i: usize = 0;
    while i < pixels.len()
        invariant
            i <= pixels@.len(),
            triples@.len() == i,
            forall|j: int, k: int|
                0 <= j < i && 0 <= k < 3 ==> #[trigger] triples@[j]@[k] == channel(pixels@[j], k),
        decreases pixels@.len() - i,
    {
        let pixel = pixels[i];
        triples.push([pixel.0, pixel.1, pixel.2]);
        i = i + 1;
    }
    triples
}

/// The bytes of `pixels` for an encoder of eight-bit RGB: red, green and blue
/// of the first pixel, then of the second, and so on.
pub fn rgb_bytes(pixels: &[Rgb]) -> (bytes: Vec<u8>)
    ensures
        bytes@ == rgb_bytes_spec(pixels@),
{
    let triples = rgb_triples(pixels);
    let bytes = slice_to_vec(flat(triples.as_slice()));
    proof {
        assert forall|j: int| 0 <= j < bytes@.len() implies bytes@[j] == rgb_bytes_spec(pixels@)[j] by {
            let i = j / 3;
            let k = j % 3;
            assert(triples@[i]@[k] == channel(pixels@[i], k));
            assert(bytes@[3 * i + k] == triples@[i]@[k]);
        }
        assert(bytes@ =~= rgb_bytes_spec(pixels@));
    }
    bytes
}

} // verus!
