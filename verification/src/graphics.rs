//! The decision logic behind the graphical memory view: which pixels a
//! byte's bits produce, which byte a mouse click lands on, and what the
//! window's event loop does next.  Opening windows, drawing and the event
//! channel itself are left to the embedding program.

use vstd::prelude::*;

verus! {

/// Messages the allocator sends to a memory-view window.
#[derive(Clone, Copy, Debug, PartialEq, Eq, Structural)]
pub enum Message {
    /// The allocation was resized; rebuild the view over the new mapping.
    Grow,
    /// The allocation was freed; the window must close.
    Free,
    /// Show this many bytes on each row from now on.
    Resize {
        /// Bytes per row.
        columns: usize,
    },
}

/// Bit `k` of `byte`, counting from the least significant bit.
pub open spec fn spec_bit(byte: u8, k: u8) -> bool {
    (byte >> k) & 1 == 1
}

/// The pixel for bit `j` of a byte, most significant bit first: white for a
/// set bit, black for a clear one.
pub open spec fn spec_pixel(byte: u8, j: int) -> u32
    recommends
        0 <= j < 8,
{
    if spec_bit(byte, (7 - j) as u8) {
        0x00FFFFFFu32
    } else {
        0u32
    }
}

/// The whole pixel buffer for a mapping: eight pixels per byte, most
/// significant bit first.
pub open spec fn spec_render(bytes: Seq<u8>) -> Seq<u32> {
    Seq::new(bytes.len() * 8, |t: int| spec_pixel(bytes[t / 8], t % 8))
}

/// The eight pixels of one byte, most significant bit first.
pub fn bits_as_pixels(byte: u8) -> (r: Vec<u32>)
    ensures
        r@.len() == 8,
        forall|j: int| 0 <= j < 8 ==> r@[j] == spec_pixel(byte, j),
{
    let mut r: Vec<u32> = Vec::new();
    let mut j: usize = 0;
    while j < 8
        invariant
            j <= 8,
            r@.len() == j,
            forall|i: int| 0 <= i < j ==> r@[i] == spec_pixel(byte, i),
        decreases 8 - j,
    {
        let shift: u8 = 7 - (j as u8);
        let bit: u8 = (byte >> shift) & 1;
        if bit == 1 {
            r.push(0x00FFFFFFu32);
        } else {
            r.push(0u32);
        }
        j = j + 1;
    }
    r
}

/// The pixel buffer for `bytes`.
pub fn render_buffer(bytes: &[u8]) -> (r: Vec<u32>)
    ensures
        r@ == spec_render(bytes@),
{
    let n = bytes.len();
    let mut r: Vec<u32> = Vec::new();
    let mut i: usize = 0;
    while i < n
        invariant
            i <= n,
            n == bytes@.len(),
            r@.len() == i * 8,
            forall|t: int| 0 <= t < i * 8 ==> r@[t] == spec_render(bytes@)[t],
        decreases n - i,
    {
        let pixels = bits_as_pixels(bytes[i]);
        let mut j: usize = 0;
        while j < 8
            invariant
                j <= 8,
                i < n,
                n == bytes@.len(),
                pixels@.len() == 8,
                forall|u: int| 0 <= u < 8 ==> pixels@[u] == spec_pixel(bytes@[i as int], u),
                r@.len() == i * 8 + j,
                forall|t: int| 0 <= t < i * 8 ==> r@[t] == spec_render(bytes@)[t],
                forall|u: int| 0 <= u < j ==> r@[i * 8 + u] == spec_pixel(bytes@[i as int], u),
            decreases 8 - j,
        {
            r.push(pixels[j]);
            j = j + 1;
        }
        proof {
            assert forall|t: int| 0 <= t < (i + 1) * 8 implies r@[t] == spec_render(bytes@)[t] by {
                if t >= i * 8 {
                    assert(t / 8 == i as int && t % 8 == t - i * 8);
                }
            }
        }
        i = i + 1;
    }
    proof {
        assert(r@ =~= spec_render(bytes@));
    }
    r
}

/// The window size for a mapping of `len` bytes shown `columns` bytes per
/// row: eight bit-squares per byte across, one row per full group of
/// `columns` bytes.
pub fn window_dimensions(len: usize, columns: usize) -> (r: (usize, usize))
    requires
        columns > 0,
        columns <= usize::MAX / 8,
    ensures
        r.0 == 8 * columns,
        r.1 == len / columns,
{
    (8 * columns, len / columns)
}

/// Which byte a mouse click lands on and the mask of the clicked bit, for
/// a click at pixel column `x` and row `y` with `columns` bytes per row.
pub fn click_target(x: usize, y: usize, columns: usize) -> (r: (usize, u8))
    requires
        x / 8 + y * columns <= usize::MAX,
    ensures
        r.0 == x / 8 + y * columns,
        r.1 == (1u8 << ((7 - x % 8) as u8)),
{
    let bit = x % 8;
    let byte = x / 8 + y * columns;
    let mask: u8 = 1u8 << ((7 - bit) as u8);
    (byte, mask)
}

/// The byte after a click: a left click (`set`) sets the clicked bit, a
/// right click clears it.
pub fn apply_click(byte: u8, mask: u8, set: bool) -> (r: u8)
    ensures
        set ==> r == (byte | mask),
        !set ==> r == (byte & !mask),
{
    if set {
        byte | mask
    } else {
        byte & !mask
    }
}

/// What the window's event loop does after one poll.
#[derive(Clone, Copy, Debug, PartialEq, Eq, Structural)]
pub enum WindowStep {
    /// Keep showing the current mapping.
    Keep,
    /// Rebuild mapping, window and buffer with this many columns.
    Rebuild {
        /// Bytes per row for the rebuilt view.
        columns: usize,
    },
    /// Tear the window down.
    Stop,
}

/// The event loop's decision, given whether the window is still open, the
/// message received (if any), whether the channel to the allocator was
/// lost, and the current column count.
pub fn window_step(open: bool, msg: Option<Message>, disconnected: bool, columns: usize) -> (r:
    WindowStep)
    ensures
        !open ==> r == WindowStep::Stop,
        open && msg == Some(Message::Free) ==> r == WindowStep::Stop,
        open && msg == None::<Message> && disconnected ==> r == WindowStep::Stop,
        open && msg == None::<Message> && !disconnected ==> r == WindowStep::Keep,
        open && msg == Some(Message::Grow) ==> r == (WindowStep::Rebuild { columns }),
        forall|c: usize|
            open && msg == Some(Message::Resize { columns: c }) ==> r == (WindowStep::Rebuild {
                columns: c,
            }),
{
    if !open {
        return WindowStep::Stop;
    }
    match msg {
        None => if disconnected {
            WindowStep::Stop
        } else {
            WindowStep::Keep
        },
        Some(Message::Free) => WindowStep::Stop,
        Some(Message::Grow) => WindowStep::Rebuild { columns },
        Some(Message::Resize { columns: c }) => WindowStep::Rebuild { columns: c },
    }
}

} // verus!
