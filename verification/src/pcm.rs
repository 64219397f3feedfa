//! Samples as the bytes that sound devices take and give, in the order of this
//! machine.

use crate::bytes;
use crate::jitter;
use crate::jitter::JitterBuffer;
use vstd::prelude::*;

verus! {

/// Consecutive samples, high byte before low byte.
pub open spec fn big_endian(samples: Seq<i16>) -> Seq<u8> {
    Seq::new(2 * samples.len(), |k: int| bytes::sample_bytes(samples[k / 2])[1 - k % 2])
}

/// The bytes of `samples` on a machine that stores low bytes first, or does not.
pub open spec fn stored(low_first: bool, samples: Seq<i16>) -> Seq<u8> {
    if low_first {
        bytes::samples_bytes(samples)
    } else {
        big_endian(samples)
    }
}

/// `bytemuck::cast_slice` from `i16` to `u8`: the memory of the samples as bytes, two
/// for each, in the order of this machine. A byte needs no alignment and its size
/// divides that of a sample, so the cast never panics.
#[verifier::external_body]
fn cast_bytes(samples: &[i16]) -> (b: &[u8])
    ensures
        b@ == stored(true, samples@) || b@ == stored(false, samples@),
{
    bytemuck::cast_slice::<i16, u8>(samples)
}

/// `bytemuck::cast_slice_mut` from `i16` to `u8`: the memory of the samples as bytes,
/// two for each, in the order of this machine; what is written there is what the
/// samples become. The cast never panics, as with `cast_slice`.
#[verifier::external_body]
fn cast_bytes_mut(samples: &mut [i16]) -> (b: &mut [u8])
    ensures
        exists|low_first: bool|
            b@ == #[trigger] stored(low_first, old(samples)@) && final(b)@ == stored(
                low_first,
                final(samples)@,
            ),
        final(samples)@.len() == old(samples)@.len(),
{
    bytemuck::cast_slice_mut::<i16, u8>(samples)
}

/// Fills `samples` with the next slice of audio and gives the bytes for the sound
/// device.
pub fn next_block<'a>(jb: &mut JitterBuffer, samples: &'a mut Vec<i16>) -> (b: &'a [u8])
    requires
        old(jb)@.wf(),
    ensures
        final(jb)@ == old(jb)@.pulled(old(samples)@.len()),
        final(jb)@.wf(),
        final(samples)@ == old(jb)@.output(old(samples)@),
        b@ == stored(true, final(samples)@) || b@ == stored(false, final(samples)@),
{
    jb.pull(samples.as_mut_slice());
    cast_bytes(samples.as_slice())
}

/// The bytes into which a sound device writes the samples.
pub fn capture_block(samples: &mut [i16]) -> (b: &mut [u8])
    ensures
        exists|low_first: bool|
            b@ == #[trigger] stored(low_first, old(samples)@) && final(b)@ == stored(
                low_first,
                final(samples)@,
            ),
        final(samples)@.len() == old(samples)@.len(),
{
    cast_bytes_mut(samples)
}

} // verus!
