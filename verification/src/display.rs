//! Turning the screen into an RGBA image.

use vstd::prelude::*;
use crate::chip8::PIXELS;

verus! {

/// Channel `i` of the RGBA image of `screen`: a lit pixel (1) is opaque
/// white, every other pixel is all zero.
pub open spec fn rgba_channel(screen: Seq<u8>, i: int) -> u8 {
    if screen[i / 4] == 1 {
        255
    } else {
        0
    }
}

/// The RGBA image of the screen, four bytes per pixel, row by row.
pub fn rgba_frame(screen: &[u8]) -> (frame: Vec<u8>)
    requires
        screen@.len() == PIXELS,
    ensures
        frame@.len() == 4 * PIXELS,
        forall|i: int| 0 <= i < 4 * PIXELS ==> #[trigger] frame@[i] == rgba_channel(screen@, i),
{
    let mut frame: Vec<u8> = Vec::new();
    let mut index: usize = 0;
    while index < PIXELS
        invariant
            screen@.len() == PIXELS,
            index <= PIXELS,
            frame@.len() == 4 * index,
            forall|i: int| 0 <= i < 4 * index ==> #[trigger] frame@[i] == rgba_channel(screen@, i),
        decreases PIXELS - index,
    {
        let value: u8 = if screen[index] == 1 {
            255
        } else {
            0
        };
        let ghost before = frame@;
        frame.push(value);
        frame.push(value);
        frame.push(value);
        frame.push(value);
        assert forall|i: int| 0 <= i < 4 * (index + 1) implies #[trigger] frame@[i]
            == rgba_channel(screen@, i) by {
            if i >= 4 * index {
                assert(i / 4 == index);
            } else {
                assert(frame@[i] == before[i]);
            }
        }
        index = index + 1;
    }
    frame
}

} // verus!
