//! The framebuffer renderer: turns the 64 by 32 one-bit framebuffer into a
//! device image in which every logical pixel is a square block of one
//! colour. Presenting the image is left to the caller, which owns the window.

use vstd::prelude::*;

verus! {

/// Columns of the logical framebuffer.
pub const COLUMNS: usize = 64;

/// Rows of the logical framebuffer.
pub const ROWS: usize = 32;

/// Side of the block of device pixels that shows one logical pixel.
pub const SCALE: usize = 20;

/// Width of the device image.
pub const WIDTH: usize = 1280;

/// Height of the device image.
pub const HEIGHT: usize = 640;

/// Colour of a lit pixel, as 0RGB.
pub const FOREGROUND: u32 = 0xFFB000;

/// Colour of a dark pixel, as 0RGB.
pub const BACKGROUND: u32 = 0x000000;

/// Why the framebuffer refused a write or a read.
#[derive(Debug, Clone, Copy, PartialEq, Eq, Structural)]
pub enum DisplayError {
    InvalidPixelAccess,
    InvalidPixelValue,
}

/// The colour in which a logical pixel is shown.
pub open spec fn pixel_color(pixel: u8) -> u32 {
    if pixel == 1 {
        FOREGROUND
    } else {
        BACKGROUND
    }
}

/// The index of the logical pixel that the device pixel `d` shows, both
/// row-major.
pub open spec fn source_pixel(d: int) -> int {
    ((d / (WIDTH as int)) / (SCALE as int)) * (COLUMNS as int) + (d % (WIDTH as int)) / (
    SCALE as int)
}

/// The device image of a framebuffer.
pub open spec fn scaled(pixels: Seq<u8>) -> Seq<u32> {
    Seq::new((WIDTH * HEIGHT) as nat, |d: int| pixel_color(pixels[source_pixel(d)]))
}

// The device pixels of rows `row_lo` up to `row_hi` and columns `col_lo` up
// to `col_hi` (upper ends excluded) show the framebuffer.
spec fn block_done(
    device: Seq<u32>,
    pixels: Seq<u8>,
    row_lo: int,
    row_hi: int,
    col_lo: int,
    col_hi: int,
) -> bool {
    forall|d: int|
        row_lo * WIDTH <= d < row_hi * WIDTH && col_lo <= d % (WIDTH as int) < col_hi
            ==> #[trigger] device[d] == pixel_color(pixels[source_pixel(d)])
}

// A write outside a finished block leaves it finished.
proof fn lemma_write_outside_block(
    device: Seq<u32>,
    pixels: Seq<u8>,
    at: int,
    color: u32,
    row_lo: int,
    row_hi: int,
    col_lo: int,
    col_hi: int,
)
    requires
        block_done(device, pixels, row_lo, row_hi, col_lo, col_hi),
        0 <= row_lo,
        row_hi * WIDTH <= device.len(),
        0 <= at < device.len(),
        !(row_lo * WIDTH <= at < row_hi * WIDTH && col_lo <= at % (WIDTH as int) < col_hi),
    ensures
        block_done(device.update(at, color), pixels, row_lo, row_hi, col_lo, col_hi),
{
    let after = device.update(at, color);
    assert forall|d: int|
        row_lo * WIDTH <= d < row_hi * WIDTH && col_lo <= d % (WIDTH as int)
            < col_hi implies #[trigger] after[d] == pixel_color(pixels[source_pixel(d)]) by {
        assert(d != at);
        assert(device[d] == pixel_color(pixels[source_pixel(d)]));
    }
}

// A write of the right colour just behind the finished part of a row
// lengthens that part by one pixel.
proof fn lemma_write_extends_row(
    device: Seq<u32>,
    pixels: Seq<u8>,
    row: int,
    col_lo: int,
    col: int,
    color: u32,
)
    requires
        block_done(device, pixels, row, row + 1, col_lo, col),
        0 <= row,
        0 <= col < WIDTH,
        (row + 1) * WIDTH <= device.len(),
        color == pixel_color(pixels[source_pixel(row * WIDTH + col)]),
    ensures
        block_done(device.update(row * WIDTH + col, color), pixels, row, row + 1, col_lo, col + 1),
{
    let at = row * WIDTH + col;
    let after = device.update(at, color);
    assert forall|d: int|
        row * WIDTH <= d < (row + 1) * WIDTH && col_lo <= d % (WIDTH as int) < col
            + 1 implies #[trigger] after[d] == pixel_color(pixels[source_pixel(d)]) by {
        if d % (WIDTH as int) == col {
            assert(WIDTH == 1280);
            assert(d == 1280 * (d / 1280) + d % 1280);
            assert(d / 1280 == row);
            assert(d == at);
        } else {
            assert(d != at);
            assert(device[d] == pixel_color(pixels[source_pixel(d)]));
        }
    }
}

/// The renderer as a mathematical value: the logical framebuffer and the
/// device image that the last `render` left.
pub struct DisplayState {
    pub pixels: Seq<u8>,
    pub device: Seq<u32>,
}

impl DisplayState {
    /// The framebuffer and the device image have their fixed sizes, and
    /// every logical pixel is 0 or 1.
    pub open spec fn wf(self) -> bool {
        &&& self.pixels.len() == COLUMNS * ROWS
        &&& self.device.len() == WIDTH * HEIGHT
        &&& forall|k: int| 0 <= k < self.pixels.len() ==> #[trigger] self.pixels[k] <= 1
    }
}

/// The logical framebuffer together with its device-scale image.
pub struct Display {
    display: [u8; 2048],
    buffer: Vec<u32>,
}

impl View for Display {
    type V = DisplayState;

    closed spec fn view(&self) -> DisplayState {
        DisplayState { pixels: self.display@, device: self.buffer@ }
    }
}

impl Display {
    #[verifier::type_invariant]
    spec fn inv(&self) -> bool {
        &&& self.buffer@.len() == WIDTH * HEIGHT
        &&& forall|k: int| 0 <= k < 2048 ==> #[trigger] self.display@[k] <= 1
    }

    /// A dark framebuffer and a black device image.
    pub fn new() -> (display: Self)
        ensures
            display@.wf(),
            display@.pixels == Seq::new((COLUMNS * ROWS) as nat, |k: int| 0u8),
            display@.device == Seq::new((WIDTH * HEIGHT) as nat, |d: int| 0u32),
    {
        let display = Display { display: [0; 2048], buffer: vec![0u32; WIDTH * HEIGHT] };
        proof {
            assert(display@.pixels =~= Seq::new((COLUMNS * ROWS) as nat, |k: int| 0u8));
            assert(display@.device =~= Seq::new((WIDTH * HEIGHT) as nat, |d: int| 0u32));
        }
        display
    }

    /// Redraws the device image from the framebuffer: afterwards every
    /// device pixel has the colour of the logical pixel whose block it lies
    /// in. The framebuffer itself stays as it is.
    pub fn render(&mut self)
        ensures
            final(self)@.pixels == old(self)@.pixels,
            final(self)@.device == scaled(old(self)@.pixels),
            old(self)@.wf(),
            final(self)@.wf(),
    {
        proof {
            use_type_invariant(&*self);
        }
        let mut y: usize = 0;
        while y < ROWS
            invariant
                y <= ROWS,
                self.display == old(self).display,
                self.inv(),
                block_done(self.buffer@, self.display@, 0, y * SCALE, 0, WIDTH as int),
            decreases ROWS - y,
        {
            let mut x: usize = 0;
            while x < COLUMNS
                invariant
                    y < ROWS,
                    x <= COLUMNS,
                    self.display == old(self).display,
                    self.inv(),
                    block_done(self.buffer@, self.display@, 0, y * SCALE, 0, WIDTH as int),
                    block_done(
                        self.buffer@,
                        self.display@,
                        y * SCALE,
                        (y + 1) * SCALE,
                        0,
                        x * SCALE,
                    ),
                decreases COLUMNS - x,
            {
                let color: u32 = if self.display[y * COLUMNS + x] == 1 {
                    FOREGROUND
                } else {
                    BACKGROUND
                };
                let mut dy: usize = 0;
                while dy < SCALE
                    invariant
                        y < ROWS,
                        x < COLUMNS,
                        dy <= SCALE,
                        color == pixel_color(self.display@[y * COLUMNS + x]),
                        self.display == old(self).display,
                        self.inv(),
                        block_done(self.buffer@, self.display@, 0, y * SCALE, 0, WIDTH as int),
                        block_done(
                            self.buffer@,
                            self.display@,
                            y * SCALE,
                            (y + 1) * SCALE,
                            0,
                            x * SCALE,
                        ),
                        block_done(
                            self.buffer@,
                            self.display@,
                            y * SCALE,
                            y * SCALE + dy,
                            x * SCALE,
                            (x + 1) * SCALE,
                        ),
                    decreases SCALE - dy,
                {
                    let mut dx: usize = 0;
                    while dx < SCALE
                        invariant
                            y < ROWS,
                            x < COLUMNS,
                            dy < SCALE,
                            dx <= SCALE,
                            color == pixel_color(self.display@[y * COLUMNS + x]),
                            self.display == old(self).display,
                            self.inv(),
                            block_done(self.buffer@, self.display@, 0, y * SCALE, 0, WIDTH as int),
                            block_done(
                                self.buffer@,
                                self.display@,
                                y * SCALE,
                                (y + 1) * SCALE,
                                0,
                                x * SCALE,
                            ),
                            block_done(
                                self.buffer@,
                                self.display@,
                                y * SCALE,
                                y * SCALE + dy,
                                x * SCALE,
                                (x + 1) * SCALE,
                            ),
                            block_done(
                                self.buffer@,
                                self.display@,
                                y * SCALE + dy,
                                y * SCALE + dy + 1,
                                x * SCALE,
                                x * SCALE + dx,
                            ),
                        decreases SCALE - dx,
                    {
                        let at: usize = (y * SCALE + dy) * WIDTH + (x * SCALE + dx);
                        let ghost before = self.buffer@;
                        let ghost pixels = self.display@;
                        let ghost row = y * SCALE + dy;
                        let ghost col = x * SCALE + dx;
                        self.buffer[at] = color;
                        proof {
                            assert(at == row * WIDTH + col);
                            assert(at as int % (WIDTH as int) == col);
                            assert(source_pixel(at as int) == y * COLUMNS + x);
                            assert(self.buffer@ == before.update(at as int, color));
                            lemma_write_outside_block(
                                before,
                                pixels,
                                at as int,
                                color,
                                0,
                                y * SCALE,
                                0,
                                WIDTH as int,
                            );
                            lemma_write_outside_block(
                                before,
                                pixels,
                                at as int,
                                color,
                                y * SCALE,
                                (y + 1) * SCALE,
                                0,
                                x * SCALE,
                            );
                            lemma_write_outside_block(
                                before,
                                pixels,
                                at as int,
                                color,
                                y * SCALE,
                                y * SCALE + dy,
                                x * SCALE,
                                (x + 1) * SCALE,
                            );
                            lemma_write_extends_row(before, pixels, row, x * SCALE, col, color);
                        }
                        dx += 1;
                    }
                    dy += 1;
                }
                x += 1;
            }
            y += 1;
        }
        proof {
            assert(self.buffer@ =~= scaled(self.display@));
        }
    }

    /// The device image as the last `render` left it, row-major, `WIDTH`
    /// pixels to a row: what is handed to the presentation surface.
    pub fn buffer(&self) -> (device: &Vec<u32>)
        ensures
            device@ == self@.device,
            device@.len() == WIDTH * HEIGHT,
            self@.wf(),
    {
        proof {
            use_type_invariant(self);
        }
        &self.buffer
    }

    /// Whether the driving loop should go on: the surface is still open and
    /// no quit was signalled.
    pub fn is_open(&self, surface_open: bool, quit_signalled: bool) -> (open: bool)
        ensures
            open == (surface_open && !quit_signalled),
            self@.wf(),
    {
        proof {
            use_type_invariant(self);
        }
        surface_open && !quit_signalled
    }

    /// Reads a logical pixel, which is 0 or 1.
    pub fn get_pixel(&self, index: usize) -> (res: Result<u8, DisplayError>)
        ensures
            res == if index < COLUMNS * ROWS {
                Ok::<u8, DisplayError>(self@.pixels[index as int])
            } else {
                Err(DisplayError::InvalidPixelAccess)
            },
            res matches Ok(p) ==> p <= 1,
            self@.wf(),
    {
        proof {
            use_type_invariant(self);
        }
        if index >= 2048 {
            Err(DisplayError::InvalidPixelAccess)
        } else {
            Ok(self.display[index])
        }
    }

    /// Writes a logical pixel; the device image follows at the next
    /// `render`. Fails, and changes nothing, where `index` lies off the grid
    /// or, on the grid, where `value` is neither 0 nor 1.
    pub fn set_pixel(&mut self, index: usize, value: u8) -> (res: Result<bool, DisplayError>)
        ensures
            old(self)@.wf(),
            final(self)@.wf(),
            final(self)@.device == old(self)@.device,
            final(self)@.pixels == if index < COLUMNS * ROWS && value <= 1 {
                old(self)@.pixels.update(index as int, value)
            } else {
                old(self)@.pixels
            },
            res == if index >= COLUMNS * ROWS {
                Err::<bool, DisplayError>(DisplayError::InvalidPixelAccess)
            } else if value > 1 {
                Err(DisplayError::InvalidPixelValue)
            } else {
                Ok(true)
            },
            res is Err ==> *final(self) == *old(self),
    {
        proof {
            use_type_invariant(&*self);
        }
        if index >= 2048 {
            Err(DisplayError::InvalidPixelAccess)
        } else if value == 1 || value == 0 {
            self.display[index] = value;
            Ok(true)
        } else {
            Err(DisplayError::InvalidPixelValue)
        }
    }
}

impl Default for Display {
    fn default() -> (display: Self)
        ensures
            display@.wf(),
            display@.pixels == Seq::new((COLUMNS * ROWS) as nat, |k: int| 0u8),
            display@.device == Seq::new((WIDTH * HEIGHT) as nat, |d: int| 0u32),
    {
        Display::new()
    }
}

/// A device pixel shows the logical pixel whose block it lies in: the one
/// in column `px / SCALE` of row `py / SCALE`.
pub proof fn lemma_scaled_pixel(pixels: Seq<u8>, px: int, py: int)
    requires
        0 <= px < WIDTH,
        0 <= py < HEIGHT,
    ensures
        0 <= py * WIDTH + px < WIDTH * HEIGHT,
        scaled(pixels)[py * WIDTH + px] == pixel_color(
            pixels[(py / (SCALE as int)) * COLUMNS + px / (SCALE as int)],
        ),
        0 <= (py / (SCALE as int)) * COLUMNS + px / (SCALE as int) < COLUMNS * ROWS,
{
}

/// Every device pixel of the block of the logical pixel in column `x` of
/// row `y` has that pixel's colour.
pub proof fn lemma_scaled_block(pixels: Seq<u8>, x: int, y: int, dx: int, dy: int)
    requires
        0 <= x < COLUMNS,
        0 <= y < ROWS,
        0 <= dx < SCALE,
        0 <= dy < SCALE,
    ensures
        0 <= (y * SCALE + dy) * WIDTH + (x * SCALE + dx) < WIDTH * HEIGHT,
        scaled(pixels)[(y * SCALE + dy) * WIDTH + (x * SCALE + dx)] == pixel_color(
            pixels[y * COLUMNS + x],
        ),
{
}

} // verus!
