use vstd::prelude::*;

verus! {

/// Width in pixels of the software-rendered frame.
pub const WIDTH: u32 = 640;

/// Height in pixels of the software-rendered frame.
pub const HEIGHT: u32 = 480;

/// Colour of a cleared pixel: fully transparent black.
pub const BACKGROUND: [u8; 4] = [0, 0, 0, 0];

/// Number of bytes in one RGBA pixel.
pub const BYTES_PER_PIXEL: usize = 4;

/// The frame after every whole RGBA pixel of `frame` has been set to
/// `colour`; bytes past the last whole pixel keep their value.
pub open spec fn filled_frame(frame: Seq<u8>, colour: [u8; 4]) -> Seq<u8> {
    let whole = frame.len() - frame.len() % 4;
    Seq::new(frame.len(), |i: int| if i < whole { colour[i % 4] } else { frame[i] })
}

/// Sets every whole RGBA pixel of `frame` to `colour`.
pub fn fill_frame(frame: &mut [u8], colour: [u8; 4])
    ensures
        final(frame)@ == filled_frame(old(frame)@, colour),
{
    let length = frame.len();
    let whole = length - length % BYTES_PER_PIXEL;
    let mut index: usize = 0;
    while index < whole
        invariant
            length == old(frame)@.len(),
            frame@.len() == length,
            whole == length - length % 4,
            index <= whole,
            forall|k: int| 0 <= k < index ==> frame@[k] == colour[k % 4],
            forall|k: int| index <= k < length ==> frame@[k] == old(frame)@[k],
        decreases whole - index,
    {
        frame[index] = colour[index % BYTES_PER_PIXEL];
        index += 1;
    }
    assert(frame@ =~= filled_frame(old(frame)@, colour));
}

/// Clears the frame to the transparent background.
pub fn clear_frame(frame: &mut [u8])
    ensures
        final(frame)@ == filled_frame(old(frame)@, BACKGROUND),
{
    fill_frame(frame, BACKGROUND);
}

} // verus!
