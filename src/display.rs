use vstd::prelude::*;

verus! {

/// Width of the screen in pixels.
pub const WIDTH: usize = 64;

/// Height of the screen in pixels.
pub const HEIGHT: usize = 32;

/// Number of pixels on the screen.
pub const PIXEL_COUNT: usize = 2048;

/// Bytes per pixel in the RGB24 image handed to a renderer.
pub const BYTES_PER_PIXEL: usize = 3;

/// The index of pixel `(px, py)` in a screen stored row by row.
pub open spec fn pixel_index(px: int, py: int) -> int {
    py * WIDTH + px
}

/// A screen with every pixel off.
pub open spec fn blank() -> Seq<bool> {
    Seq::new(PIXEL_COUNT as nat, |i: int| false)
}

/// How far `p` lies past `origin` when coordinates wrap modulo `size`
/// (both taken in `0..size`).
pub open spec fn wrapped_offset(p: int, origin: int, size: int) -> int {
    if p >= origin {
        p - origin
    } else {
        p + size - origin
    }
}

/// Whether pixel `b` of a sprite row is set; pixel 0 is the most significant
/// bit.
pub open spec fn sprite_bit(row: u8, b: int) -> bool {
    row & (0x80u8 >> (b as u8)) != 0
}

/// Whether the sprite `rows`, drawn with its top-left corner at `(x, y)`
/// wrapped onto the screen, has a set pixel landing on screen pixel
/// `(px, py)`. Row `r` lands on screen row `(y + r) mod HEIGHT`, pixel `b` of
/// a row on screen column `(x + b) mod WIDTH`.
pub open spec fn covers(rows: Seq<u8>, x: u8, y: u8, px: int, py: int) -> bool {
    let r = wrapped_offset(py, y as int % HEIGHT as int, HEIGHT as int);
    let b = wrapped_offset(px, x as int % WIDTH as int, WIDTH as int);
    r < rows.len() && b < 8 && sprite_bit(rows[r], b)
}

/// The screen after XOR-drawing the sprite `rows` at `(x, y)`: exactly the
/// pixels that the sprite covers flip.
pub open spec fn draw_spec(screen: Seq<bool>, rows: Seq<u8>, x: u8, y: u8) -> Seq<bool> {
    Seq::new(
        PIXEL_COUNT as nat,
        |i: int| screen[i] != covers(rows, x, y, i % WIDTH as int, i / WIDTH as int),
    )
}

/// Whether drawing the sprite `rows` at `(x, y)` turns some lit pixel off.
pub open spec fn collides(screen: Seq<bool>, rows: Seq<u8>, x: u8, y: u8) -> bool {
    exists|i: int|
        0 <= i < PIXEL_COUNT && screen[i] && #[trigger] covers(
            rows,
            x,
            y,
            i % WIDTH as int,
            i / WIDTH as int,
        )
}

/// The RGB24 image of a screen: three bytes per pixel, `0xFF` for a lit
/// pixel and `0x00` for a dark one.
pub open spec fn rgb_image(screen: Seq<bool>) -> Seq<u8> {
    Seq::new(
        (screen.len() * BYTES_PER_PIXEL) as nat,
        |k: int|
            if screen[k / BYTES_PER_PIXEL as int] {
                0xFFu8
            } else {
                0x00u8
            },
    )
}

/// Whether the pair `(r, b)` of row and bit offsets comes before `(row, bit)`
/// in drawing order.
spec fn drawn_before(r: int, b: int, row: int, bit: int) -> bool {
    r < row || (r == row && b < bit)
}

/// Whether screen pixel `i` is covered by the sprite and was already handled
/// when drawing reached row `row`, bit `bit`.
spec fn flipped_so_far(rows: Seq<u8>, x: u8, y: u8, i: int, row: int, bit: int) -> bool {
    &&& covers(rows, x, y, i % WIDTH as int, i / WIDTH as int)
    &&& drawn_before(
        wrapped_offset(i / WIDTH as int, y as int % HEIGHT as int, HEIGHT as int),
        wrapped_offset(i % WIDTH as int, x as int % WIDTH as int, WIDTH as int),
        row,
        bit,
    )
}

proof fn lemma_pixel_index(px: int, py: int)
    requires
        0 <= px < WIDTH,
        0 <= py < HEIGHT,
    ensures
        0 <= pixel_index(px, py) < PIXEL_COUNT,
        pixel_index(px, py) % WIDTH as int == px,
        pixel_index(px, py) / WIDTH as int == py,
{
    assert(0 <= py * 64 + px < 2048 && (py * 64 + px) % 64 == px && (py * 64 + px) / 64 == py)
        by (nonlinear_arith)
        requires
            0 <= px < 64,
            0 <= py < 32,
    ;
}

/// The minimal contract of a monochrome screen that a renderer samples.
pub trait DisplayTrait: View<V = Seq<bool>> {
    /// Turns every pixel off.
    fn clear(&mut self)
        ensures
            final(self)@ == blank(),
    ;

    /// Whether pixel `(x, y)` is lit.
    fn get_pixel(&self, x: usize, y: usize) -> (r: bool)
        requires
            self@.len() == PIXEL_COUNT,
            x < WIDTH,
            y < HEIGHT,
        ensures
            r == self@[pixel_index(x as int, y as int)],
    ;

    /// Lights pixel `(x, y)` or turns it off.
    fn set_pixel(&mut self, x: usize, y: usize, on: bool)
        requires
            old(self)@.len() == PIXEL_COUNT,
            x < WIDTH,
            y < HEIGHT,
        ensures
            final(self)@ == old(self)@.update(pixel_index(x as int, y as int), on),
    ;

    /// The screen as an RGB24 image, row by row.
    fn get_pixels(&self) -> (r: Vec<u8>)
        requires
            self@.len() == PIXEL_COUNT,
        ensures
            r@ == rgb_image(self@),
    ;
}

/// A 64 x 32 monochrome framebuffer.
pub struct Framebuffer {
    pixels: [bool; PIXEL_COUNT],
}

impl View for Framebuffer {
    type V = Seq<bool>;

    /// The pixels row by row: pixel `(x, y)` is entry `y * WIDTH + x`.
    closed spec fn view(&self) -> Seq<bool> {
        self.pixels@
    }
}

/// Every framebuffer holds exactly `PIXEL_COUNT` pixels.
pub broadcast proof fn lemma_screen_len(f: &Framebuffer)
    ensures
        #[trigger] f@.len() == PIXEL_COUNT,
{
}

impl Framebuffer {
    /// A framebuffer with every pixel off.
    pub fn new() -> (r: Self)
        ensures
            r@ == blank(),
    {
        let r = Self { pixels: [false; PIXEL_COUNT] };
        assert(r@ =~= blank());
        r
    }

    /// XOR-draws the sprite `rows` with its top-left corner at `(x, y)`,
    /// wrapping around the screen edges. Returns whether some lit pixel was
    /// turned off.
    #[verifier::rlimit(30)]
    pub fn draw_sprite(&mut self, x: u8, y: u8, rows: &[u8]) -> (collision: bool)
        requires
            rows@.len() <= HEIGHT,
        ensures
            final(self)@ == draw_spec(old(self)@, rows@, x, y),
            collision == collides(old(self)@, rows@, x, y),
    {
        let ghost screen = self.pixels@;
        let x0: usize = (x as usize) % WIDTH;
        let y0: usize = (y as usize) % HEIGHT;
        let mut collision = false;
        let mut r: usize = 0;
        while r < rows.len()
            invariant
                rows@.len() <= HEIGHT,
                x0 == x as int % WIDTH as int,
                y0 == y as int % HEIGHT as int,
                screen.len() == PIXEL_COUNT,
                r <= rows@.len(),
                forall|i: int|
                    0 <= i < PIXEL_COUNT ==> #[trigger] self.pixels@[i] == (screen[i]
                        != flipped_so_far(rows@, x, y, i, r as int, 0)),
                collision == exists|i: int|
                    0 <= i < PIXEL_COUNT && screen[i] && #[trigger] flipped_so_far(
                        rows@,
                        x,
                        y,
                        i,
                        r as int,
                        0,
                    ),
            decreases rows@.len() - r,
        {
            let row = rows[r];
            let sy: usize = if y0 + r >= HEIGHT {
                y0 + r - HEIGHT
            } else {
                y0 + r
            };
            let mut b: u8 = 0;
            while b < 8
                invariant
                    rows@.len() <= HEIGHT,
                    x0 == x as int % WIDTH as int,
                    y0 == y as int % HEIGHT as int,
                    screen.len() == PIXEL_COUNT,
                    r < rows@.len(),
                    row == rows@[r as int],
                    sy < HEIGHT,
                    wrapped_offset(sy as int, y0 as int, HEIGHT as int) == r,
                    b <= 8,
                    forall|i: int|
                        0 <= i < PIXEL_COUNT ==> #[trigger] self.pixels@[i] == (screen[i]
                            != flipped_so_far(rows@, x, y, i, r as int, b as int)),
                    collision == exists|i: int|
                        0 <= i < PIXEL_COUNT && screen[i] && #[trigger] flipped_so_far(
                            rows@,
                            x,
                            y,
                            i,
                            r as int,
                            b as int,
                        ),
                decreases 8 - b,
            {
                let sx: usize = if x0 + (b as usize) >= WIDTH {
                    x0 + (b as usize) - WIDTH
                } else {
                    x0 + (b as usize)
                };
                let ghost before = self.pixels@;
                let ghost was_colliding = collision;
                let idx: usize = sy * WIDTH + sx;
                proof {
                    lemma_pixel_index(sx as int, sy as int);
                }
                let set = row & (0x80u8 >> b) != 0;
                if set {
                    let old_pixel = self.pixels[idx];
                    if old_pixel {
                        collision = true;
                    }
                    self.pixels[idx] = !old_pixel;
                }
                proof {
                    assert(sprite_bit(row, b as int) == set);
                    assert forall|i: int| 0 <= i < PIXEL_COUNT implies #[trigger] self.pixels@[i]
                        == (screen[i] != flipped_so_far(rows@, x, y, i, r as int, b + 1)) by {
                        if i != idx {
                            if i % WIDTH as int == sx && i / WIDTH as int == sy {
                                assert(i == pixel_index(sx as int, sy as int));
                            }
                            assert(before[i] == self.pixels@[i]);
                        }
                    }
                    assert(flipped_so_far(rows@, x, y, idx as int, r as int, b + 1) == set);
                    assert(!flipped_so_far(rows@, x, y, idx as int, r as int, b as int));
                    if collision {
                        if !was_colliding {
                            assert(flipped_so_far(rows@, x, y, idx as int, r as int, b + 1));
                            assert(screen[idx as int]);
                        } else {
                            let w = choose|i: int|
                                0 <= i < PIXEL_COUNT && screen[i] && #[trigger] flipped_so_far(
                                    rows@,
                                    x,
                                    y,
                                    i,
                                    r as int,
                                    b as int,
                                );
                            assert(flipped_so_far(rows@, x, y, w, r as int, b + 1));
                        }
                    } else {
                        assert forall|i: int|
                            0 <= i < PIXEL_COUNT && screen[i] implies !#[trigger] flipped_so_far(
                            rows@,
                            x,
                            y,
                            i,
                            r as int,
                            b + 1,
                        ) by {
                            if i != idx {
                                if i % WIDTH as int == sx && i / WIDTH as int == sy {
                                    assert(i == pixel_index(sx as int, sy as int));
                                }
                                assert(!flipped_so_far(rows@, x, y, i, r as int, b as int));
                            }
                        }
                    }
                }
                b = b + 1;
            }
            proof {
                assert forall|i: int| 0 <= i < PIXEL_COUNT implies flipped_so_far(
                    rows@,
                    x,
                    y,
                    i,
                    r as int,
                    8,
                ) == flipped_so_far(rows@, x, y, i, r + 1, 0) by {}
                if collision {
                    let w = choose|i: int|
                        0 <= i < PIXEL_COUNT && screen[i] && #[trigger] flipped_so_far(
                            rows@,
                            x,
                            y,
                            i,
                            r as int,
                            8,
                        );
                    assert(flipped_so_far(rows@, x, y, w, r + 1, 0));
                } else {
                    assert forall|i: int|
                        0 <= i < PIXEL_COUNT && screen[i] implies !#[trigger] flipped_so_far(
                        rows@,
                        x,
                        y,
                        i,
                        r + 1,
                        0,
                    ) by {
                        assert(!flipped_so_far(rows@, x, y, i, r as int, 8));
                    }
                }
            }
            r = r + 1;
        }
        proof {
            assert forall|i: int| 0 <= i < PIXEL_COUNT implies flipped_so_far(
                rows@,
                x,
                y,
                i,
                r as int,
                0,
            ) == covers(rows@, x, y, i % WIDTH as int, i / WIDTH as int) by {}
            if collision {
                let w = choose|i: int|
                    0 <= i < PIXEL_COUNT && screen[i] && #[trigger] flipped_so_far(
                        rows@,
                        x,
                        y,
                        i,
                        r as int,
                        0,
                    );
                assert(covers(rows@, x, y, w % WIDTH as int, w / WIDTH as int));
            } else {
                assert forall|i: int|
                    0 <= i < PIXEL_COUNT && screen[i] implies !#[trigger] covers(
                    rows@,
                    x,
                    y,
                    i % WIDTH as int,
                    i / WIDTH as int,
                ) by {
                    assert(!flipped_so_far(rows@, x, y, i, r as int, 0));
                }
            }
            assert(self.pixels@ =~= draw_spec(screen, rows@, x, y));
        }
        collision
    }
}

impl DisplayTrait for Framebuffer {
    fn clear(&mut self) {
        self.pixels = [false; PIXEL_COUNT];
        assert(self@ =~= blank());
    }

    fn get_pixel(&self, x: usize, y: usize) -> (r: bool) {
        self.pixels[y * WIDTH + x]
    }

    fn set_pixel(&mut self, x: usize, y: usize, on: bool) {
        self.pixels[y * WIDTH + x] = on;
    }

    fn get_pixels(&self) -> (r: Vec<u8>) {
        let mut r: Vec<u8> = Vec::new();
        let mut k: usize = 0;
        while k < PIXEL_COUNT
            invariant
                k <= PIXEL_COUNT,
                r@.len() == k * BYTES_PER_PIXEL,
                forall|j: int| 0 <= j < r@.len() ==> r@[j] == rgb_image(self@)[j],
            decreases PIXEL_COUNT - k,
        {
            let value: u8 = if self.pixels[k] {
                0xFF
            } else {
                0x00
            };
            r.push(value);
            r.push(value);
            r.push(value);
            k = k + 1;
        }
        assert(r@ =~= rgb_image(self@));
        r
    }
}

} // verus!
