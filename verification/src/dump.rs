//! The raw dump of the device's flash.

use vstd::prelude::*;
use crate::memory::Window;

verus! {

/// Where the dumped stretch of flash begins.
pub const DUMP_ADDRESS: u32 = 0xc0_0000;

/// How many bytes a dump reads from the device.
pub const DUMP_LENGTH: u32 = 2_097_142;

/// Size of the dump image. It is ten bytes more than is read: the image
/// ends in ten zero bytes.
pub const DUMP_IMAGE_SIZE: u32 = 2_097_152;

/// The image made of `data`: the data, filled up with zero bytes to the
/// size of the image.
pub open spec fn dump_image_of(data: Seq<u8>) -> Seq<u8> {
    if data.len() < DUMP_IMAGE_SIZE {
        data + Seq::new((DUMP_IMAGE_SIZE - data.len()) as nat, |i: int| 0u8)
    } else {
        data
    }
}

/// The window that a dump reads.
pub fn dump_window() -> (window: Window)
    ensures
        window == (Window { address: DUMP_ADDRESS, length: DUMP_LENGTH }),
        window.fits(),
{
    Window { address: DUMP_ADDRESS, length: DUMP_LENGTH }
}

/// Makes the dump image of the bytes read.
pub fn dump_image(data: Vec<u8>) -> (image: Vec<u8>)
    ensures
        image@ == dump_image_of(data@),
{
    let mut image = data;
    while image.len() < DUMP_IMAGE_SIZE as usize
        invariant
            data@.len() <= image@.len(),
            data@.len() < DUMP_IMAGE_SIZE ==> image@.len() <= DUMP_IMAGE_SIZE,
            data@.len() >= DUMP_IMAGE_SIZE ==> image@.len() == data@.len(),
            image@ == data@ + Seq::new((image@.len() - data@.len()) as nat, |i: int| 0u8),
        decreases DUMP_IMAGE_SIZE - image@.len(),
    {
        image.push(0);
        assert(image@ =~= data@ + Seq::new((image@.len() - data@.len()) as nat, |i: int| 0u8));
    }
    proof {
        if data@.len() >= DUMP_IMAGE_SIZE {
            assert(image@.len() == data@.len());
        }
        assert(image@ =~= dump_image_of(data@));
    }
    image
}

} // verus!
