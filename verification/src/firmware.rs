//! The reset-vector copy that a write places below the bootloader.
//!
//! The bootloader skips the first three bytes of the first page when it
//! writes flash. The second and third bytes (the target of the firmware's
//! reset `LJMP`) are instead written to `firmware_size - 4`, where they later
//! become part of the `LJMP` that enabling the firmware completes. Once
//! written, the copy is cleared again in the caller's image, so that the
//! image compares equal to what the device reads back.
use vstd::prelude::*;

verus! {

/// The image as it is written: bytes 1 and 2 copied to `firmware_size - 4`
/// and `firmware_size - 3`.
pub open spec fn spec_patched(image: Seq<u8>, firmware_size: int) -> Seq<u8> {
    image.update(firmware_size - 4, image[1]).update(firmware_size - 3, image[2])
}

/// The image after the write: the two bytes at `firmware_size - 4` cleared.
pub open spec fn spec_cleaned(image: Seq<u8>, firmware_size: int) -> Seq<u8> {
    image.update(firmware_size - 4, 0).update(firmware_size - 3, 0)
}

/// The image can be patched: it holds the reset vector, and the copy's
/// place lies inside it.
pub open spec fn patchable(image_len: int, firmware_size: int) -> bool {
    &&& 3 <= image_len
    &&& 4 <= firmware_size
    &&& firmware_size - 2 <= image_len
}

/// Copies the reset vector's target (bytes 1 and 2) to `firmware_size - 4`.
pub fn patch_reset_vector(image: &mut Vec<u8>, firmware_size: usize)
    requires
        patchable(old(image)@.len() as int, firmware_size as int),
    ensures
        final(image)@ == spec_patched(old(image)@, firmware_size as int),
{
    let low = image[1];
    let high = image[2];
    image.set(firmware_size - 4, low);
    image.set(firmware_size - 3, high);
}

/// Clears the two bytes at `firmware_size - 4`.
pub fn clear_reset_vector_copy(image: &mut Vec<u8>, firmware_size: usize)
    requires
        patchable(old(image)@.len() as int, firmware_size as int),
    ensures
        final(image)@ == spec_cleaned(old(image)@, firmware_size as int),
{
    image.set(firmware_size - 4, 0);
    image.set(firmware_size - 3, 0);
}

/// Patching and then clearing leaves the caller's image as it was, but for
/// two zero bytes at `firmware_size - 4`; everything else is untouched.
pub proof fn lemma_patch_then_clear(image: Seq<u8>, firmware_size: int)
    requires
        patchable(image.len() as int, firmware_size),
    ensures
        spec_cleaned(spec_patched(image, firmware_size), firmware_size)
            == spec_cleaned(image, firmware_size),
        spec_patched(image, firmware_size)[firmware_size - 4] == image[1],
        spec_patched(image, firmware_size)[firmware_size - 3] == image[2],
        spec_patched(image, firmware_size).len() == image.len(),
        spec_cleaned(image, firmware_size).len() == image.len(),
        spec_cleaned(image, firmware_size)[firmware_size - 4] == 0,
        spec_cleaned(image, firmware_size)[firmware_size - 3] == 0,
        forall|j: int|
            0 <= j < image.len() && j != firmware_size - 4 && j != firmware_size - 3 ==> #[trigger] spec_patched(
                image,
                firmware_size,
            )[j] == image[j] && spec_cleaned(image, firmware_size)[j] == image[j],
{
    assert(spec_cleaned(spec_patched(image, firmware_size), firmware_size)
        =~= spec_cleaned(image, firmware_size));
}

} // verus!
