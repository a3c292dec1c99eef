//! One screen in the keyboard's wire format, and what can be done to it pixel by pixel.
use vstd::prelude::*;
use crate::frame_bits::{
    lemma_clear_mask, lemma_low_bit, lemma_not_bits, lemma_or_bits, lemma_or_mask, lemma_shift_right_bits, lemma_zero_bits, msb_bit,
};

verus! {

/// Width of the screen in pixels.
pub const W: usize = 128;

/// Height of the screen in pixels.
pub const H: usize = 40;

/// Bytes of one report: the command byte, the packed pixels and a pad byte.
pub const LEN: usize = 2 + W * H / 8;

/// Bytes of the packed pixels alone, one bit per pixel.
pub const PIXEL_BYTES: usize = W * H / 8;

/// The command byte that opens every report.
pub const COMMAND: u8 = 0x61;

/// Whether `(x, y)` is a pixel of the screen.
pub open spec fn on_screen(x: int, y: int) -> bool {
    0 <= x < W && 0 <= y < H
}

/// Whether pixel `(x, y)` is lit in packed pixel data that starts at byte `base`:
/// rows of 16 bytes, the leftmost pixel of each byte in its most significant bit.
pub open spec fn packed_lit(bytes: Seq<u8>, base: int, x: int, y: int) -> bool {
    msb_bit(bytes[base + 16 * y + x / 8], x % 8)
}

/// Whether pixel `(x, y)` is lit in a bare 640-byte raster (no command byte).
pub open spec fn raster_lit(raster: Seq<u8>, x: int, y: int) -> bool {
    packed_lit(raster, 0, x, y)
}

/// One screen as the keyboard wants it: 0x61 command byte, 128x40 pixels
/// row-major with the leftmost pixel in the MSB, then a 0x00 pad = 642 bytes.
#[derive(Clone, Copy)]
pub struct Frame(pub [u8; LEN]);

impl Frame {
    /// The report's bytes.
    pub open spec fn bytes(&self) -> Seq<u8> {
        self.0@
    }

    /// Whether pixel `(x, y)` is lit.
    pub open spec fn lit(&self, x: int, y: int) -> bool {
        packed_lit(self.bytes(), 1, x, y)
    }

    /// No pixel is lit.
    pub open spec fn is_dark(&self) -> bool {
        forall|x: int, y: int| on_screen(x, y) ==> !#[trigger] self.lit(x, y)
    }

    /// The command byte and the pad byte are in place.
    pub open spec fn framed(&self) -> bool {
        self.bytes()[0] == COMMAND && self.bytes()[LEN - 1] == 0
    }

    /// The bytes a frame holds when nothing is drawn.
    pub open spec fn blank_bytes() -> Seq<u8> {
        Seq::new(LEN as nat, |i: int| if i == 0 { COMMAND } else { 0u8 })
    }

    /// A dark screen: the command byte, then zeros.
    pub fn new() -> (f: Self)
        ensures
            f.bytes() == Self::blank_bytes(),
            f.framed(),
            f.is_dark(),
    {
        let mut b = [0u8; LEN];
        b[0] = COMMAND;
        let f = Frame(b);
        proof {
            assert(f.bytes() =~= Self::blank_bytes());
            assert forall|x: int, y: int| on_screen(x, y) implies !#[trigger] f.lit(x, y) by {
                lemma_zero_bits((x % 8) as u8);
            }
        }
        f
    }

    /// The byte that holds pixel `(x, y)`, as the report indexes it.
    pub open spec fn byte_index(x: int, y: int) -> int {
        1 + y * W / 8 + x / 8
    }

    /// The byte `set` leaves at `byte_index(x, y)`.
    pub open spec fn set_byte(b: u8, x: int, on: bool) -> u8 {
        let mask = (0x80u8 >> ((x % 8) as u8)) as u8;
        if on {
            (b | mask) as u8
        } else {
            (b & !mask) as u8
        }
    }

    /// Lights or clears one pixel: bit `x % 8` (from the MSB) of byte `1 + y * 16 + x / 8`.
    /// On the screen that is pixel `(x, y)`; the call panics nowhere it is allowed.
    pub fn set(&mut self, x: usize, y: usize, on: bool)
        requires
            Self::byte_index(x as int, y as int) < LEN,
        ensures
            final(self).bytes() == old(self).bytes().update(
                Self::byte_index(x as int, y as int),
                Self::set_byte(old(self).bytes()[Self::byte_index(x as int, y as int)], x as int, on),
            ),
            on_screen(x as int, y as int) ==> forall|a: int, b: int|
                on_screen(a, b) ==> #[trigger] final(self).lit(a, b) == if a == x && b == y {
                    on
                } else {
                    old(self).lit(a, b)
                },
    {
        let i = 1 + y * W / 8 + x / 8;
        let k = (x % 8) as u8;
        let bit = 0x80u8 >> k;
        if on {
            self.0[i] = self.0[i] | bit;
        } else {
            self.0[i] = self.0[i] & !bit;
        }
        proof {
            if on_screen(x as int, y as int) {
                assert forall|a: int, b: int| on_screen(a, b) implies #[trigger] self.lit(a, b)
                    == if a == x && b == y {
                    on
                } else {
                    old(self).lit(a, b)
                } by {
                    let j = 1 + 16 * b + a / 8;
                    if j == i {
                        if on {
                            lemma_or_mask(old(self).bytes()[j], k, (a % 8) as u8);
                        } else {
                            lemma_clear_mask(old(self).bytes()[j], k, (a % 8) as u8);
                        }
                    }
                }
            }
        }
    }

    /// Draws one pixel given in signed coordinates; pixels off the screen are ignored.
    pub fn draw(&mut self, x: i32, y: i32, on: bool)
        ensures
            forall|a: int, b: int|
                on_screen(a, b) ==> #[trigger] final(self).lit(a, b) == if a == x && b == y {
                    on
                } else {
                    old(self).lit(a, b)
                },
            final(self).bytes()[0] == old(self).bytes()[0],
            final(self).bytes()[LEN - 1] == old(self).bytes()[LEN - 1],
    {
        if 0 <= x && x < W as i32 && 0 <= y && y < H as i32 {
            self.set(x as usize, y as usize, on);
        }
    }

    /// Shifts the packed pixels one row down: row `y` takes row `y - 1`, the top row goes dark.
    fn shift_down(&mut self)
        ensures
            final(self).bytes()[0] == old(self).bytes()[0],
            final(self).bytes()[LEN - 1] == old(self).bytes()[LEN - 1],
            forall|x: int, y: int|
                on_screen(x, y) ==> #[trigger] final(self).lit(x, y) == (y >= 1 && old(self).lit(
                    x,
                    y - 1,
                )),
    {
        let ghost o = self.bytes();
        let mut i: usize = PIXEL_BYTES;
        while i > 16
            invariant
                16 <= i <= PIXEL_BYTES,
                self.bytes().len() == LEN,
                forall|k: int| 0 <= k < LEN && (k == 0 || k > i) ==> #[trigger] self.bytes()[k] == if k
                    == 0 || k == LEN - 1 {
                    o[k]
                } else {
                    o[k - 16]
                },
                forall|k: int| 1 <= k <= i ==> #[trigger] self.bytes()[k] == o[k],
            decreases i,
        {
            self.0[i] = self.0[i - 16];
            i = i - 1;
        }
        let mut j: usize = 1;
        while j <= 16
            invariant
                1 <= j <= 17,
                self.bytes().len() == LEN,
                forall|k: int| 0 <= k < LEN && (k == 0 || k > 16) ==> #[trigger] self.bytes()[k] == if k
                    == 0 || k == LEN - 1 {
                    o[k]
                } else {
                    o[k - 16]
                },
                forall|k: int| 1 <= k < j ==> #[trigger] self.bytes()[k] == 0,
            decreases 17 - j,
        {
            self.0[j] = 0;
            j = j + 1;
        }
        proof {
            assert forall|x: int, y: int| on_screen(x, y) implies #[trigger] self.lit(x, y) == (y >= 1
                && old(self).lit(x, y - 1)) by {
                let k = 1 + 16 * y + x / 8;
                if y == 0 {
                    lemma_zero_bits((x % 8) as u8);
                } else {
                    assert(self.bytes()[k] == o[k - 16]);
                }
            }
        }
    }

    /// The byte a row keeps at position `j` after moving right by one pixel, given the
    /// row's old bytes `row`.
    pub open spec fn shifted_byte(row: Seq<u8>, j: int) -> u8 {
        let carry: u8 = if j == 0 {
            0u8
        } else {
            (row[j - 1] & 1u8) as u8
        };
        ((row[j] >> 1u8) | (carry << 7u8)) as u8
    }

    /// Shifts the packed pixels one column right: column `x` takes column `x - 1`, the
    /// left column goes dark.
    fn shift_right(&mut self)
        ensures
            final(self).bytes()[0] == old(self).bytes()[0],
            final(self).bytes()[LEN - 1] == old(self).bytes()[LEN - 1],
            forall|x: int, y: int|
                on_screen(x, y) ==> #[trigger] final(self).lit(x, y) == (x >= 1 && old(self).lit(
                    x - 1,
                    y,
                )),
    {
        let ghost o = self.bytes();
        let mut r: usize = 0;
        while r < H
            invariant
                0 <= r <= H,
                o.len() == LEN,
                self.bytes().len() == LEN,
                self.bytes()[0] == o[0],
                self.bytes()[LEN - 1] == o[LEN - 1],
                forall|y: int, j: int|
                    0 <= y < r && 0 <= j < 16 ==> #[trigger] self.bytes()[1 + 16 * y + j]
                        == Self::shifted_byte(o.subrange(1 + 16 * y, 17 + 16 * y), j),
                forall|k: int| 1 + 16 * r <= k < LEN ==> #[trigger] self.bytes()[k] == o[k],
            decreases H - r,
        {
            let mut carry: u8 = 0;
            let mut j: usize = 0;
            let ghost row = o.subrange(1 + 16 * r, 17 + 16 * r);
            while j < 16
                invariant
                    0 <= r < H,
                    0 <= j <= 16,
                    o.len() == LEN,
                    row == o.subrange(1 + 16 * r, 17 + 16 * r),
                    self.bytes().len() == LEN,
                    self.bytes()[0] == o[0],
                    self.bytes()[LEN - 1] == o[LEN - 1],
                    carry == if j == 0 {
                        0u8
                    } else {
                        (row[j - 1] & 1u8) as u8
                    },
                    forall|y: int, jj: int|
                        0 <= y < r && 0 <= jj < 16 ==> #[trigger] self.bytes()[1 + 16 * y + jj]
                            == Self::shifted_byte(o.subrange(1 + 16 * y, 17 + 16 * y), jj),
                    forall|jj: int|
                        0 <= jj < j ==> #[trigger] self.bytes()[1 + 16 * r + jj]
                            == Self::shifted_byte(row, jj),
                    forall|k: int| 1 + 16 * r + j <= k < LEN ==> #[trigger] self.bytes()[k] == o[k],
                decreases 16 - j,
            {
                let idx = 1 + 16 * r + j;
                let b = self.0[idx];
                proof {
                    assert(self.bytes()[idx as int] == o[idx as int]);
                    assert(b == row[j as int]);
                    if j > 0 {
                        lemma_low_bit(row[j - 1]);
                    }
                }
                self.0[idx] = (b >> 1u8) | (carry << 7u8);
                carry = b & 1u8;
                j = j + 1;
            }
            r = r + 1;
        }
        proof {
            assert forall|x: int, y: int| on_screen(x, y) implies #[trigger] self.lit(x, y) == (x >= 1
                && old(self).lit(x - 1, y)) by {
                let j = x / 8;
                let k = x % 8;
                let row = o.subrange(1 + 16 * y, 17 + 16 * y);
                let carry: u8 = if j == 0 {
                    0u8
                } else {
                    (row[j - 1] & 1u8) as u8
                };
                assert(self.bytes()[1 + 16 * y + j] == Self::shifted_byte(row, j));
                if j > 0 {
                    lemma_low_bit(row[j - 1]);
                }
                lemma_shift_right_bits(row[j], carry, k as u8);
            }
        }
    }

    /// Whether pixel `(x, y)` is lit once the image has moved one pixel right (if `right`)
    /// and one down (if `down`): it takes the pixel up and to the left of it.
    pub open spec fn shifted_lit(&self, right: bool, down: bool, x: int, y: int) -> bool {
        let dx: int = if right {
            1
        } else {
            0
        };
        let dy: int = if down {
            1
        } else {
            0
        };
        x >= dx && y >= dy && self.lit(x - dx, y - dy)
    }

    /// Moves the image one pixel right and/or down. Pages keep the last column and row
    /// free so nothing falls off; cycling this spreads wear from static pixels.
    pub fn shift(&mut self, right: bool, down: bool)
        ensures
            final(self).bytes()[0] == old(self).bytes()[0],
            final(self).bytes()[LEN - 1] == old(self).bytes()[LEN - 1],
            forall|x: int, y: int|
                on_screen(x, y) ==> #[trigger] final(self).lit(x, y) == old(self).shifted_lit(
                    right,
                    down,
                    x,
                    y,
                ),
    {
        let ghost o = *self;
        if down {
            self.shift_down();
        }
        let ghost mid = *self;
        if right {
            self.shift_right();
        }
        proof {
            assert forall|x: int, y: int| on_screen(x, y) implies #[trigger] self.lit(x, y) == o.shifted_lit(
                right,
                down,
                x,
                y,
            ) by {
                if right && x >= 1 {
                    let _ = mid.lit(x - 1, y);
                }
            }
        }
    }

    /// Whether two frames hold the same bytes.
    pub fn same_as(&self, other: &Frame) -> (same: bool)
        ensures
            same == (self.bytes() == other.bytes()),
    {
        let mut i: usize = 0;
        while i < LEN
            invariant
                0 <= i <= LEN,
                self.bytes().len() == LEN,
                other.bytes().len() == LEN,
                forall|k: int| 0 <= k < i ==> self.bytes()[k] == other.bytes()[k],
            decreases LEN - i,
        {
            if self.0[i] != other.0[i] {
                return false;
            }
            i = i + 1;
        }
        assert(self.bytes() =~= other.bytes());
        true
    }

    /// The frame's bytes after lighting, on top of it, every pixel lit in `raster`.
    pub open spec fn overlaid_bytes(bytes: Seq<u8>, raster: Seq<u8>) -> Seq<u8> {
        Seq::new(
            bytes.len(),
            |k: int|
                if 1 <= k <= PIXEL_BYTES {
                    (bytes[k] | raster[k - 1]) as u8
                } else {
                    bytes[k]
                },
        )
    }

    /// Lights every pixel that is lit in a bare raster of the screen's size, as drawing
    /// lit pixels one by one would.
    pub fn overlay(&mut self, raster: &[u8])
        requires
            raster@.len() == PIXEL_BYTES,
        ensures
            final(self).bytes() == Self::overlaid_bytes(old(self).bytes(), raster@),
            forall|x: int, y: int|
                on_screen(x, y) ==> #[trigger] final(self).lit(x, y) == (old(self).lit(x, y)
                    || raster_lit(raster@, x, y)),
    {
        let mut i: usize = 0;
        while i < PIXEL_BYTES
            invariant
                0 <= i <= PIXEL_BYTES,
                raster@.len() == PIXEL_BYTES,
                self.bytes().len() == LEN,
                forall|k: int|
                    0 <= k < LEN ==> #[trigger] self.bytes()[k] == if 1 <= k <= i {
                        (old(self).bytes()[k] | raster@[k - 1]) as u8
                    } else {
                        old(self).bytes()[k]
                    },
            decreases PIXEL_BYTES - i,
        {
            self.0[i + 1] = self.0[i + 1] | raster[i];
            i = i + 1;
        }
        proof {
            assert(self.bytes() =~= Self::overlaid_bytes(old(self).bytes(), raster@));
            assert forall|x: int, y: int| on_screen(x, y) implies #[trigger] self.lit(x, y) == (old(
                self,
            ).lit(x, y) || raster_lit(raster@, x, y)) by {
                let k = 1 + 16 * y + x / 8;
                lemma_or_bits(old(self).bytes()[k], raster@[k - 1], (x % 8) as u8);
            }
        }
    }

    /// The header of a binary PBM image of the screen: `P4\n128 40\n`.
    pub open spec fn pbm_header() -> Seq<u8> {
        seq![0x50u8, 0x34u8, 0x0au8, 0x31u8, 0x32u8, 0x38u8, 0x20u8, 0x34u8, 0x30u8, 0x0au8]
    }

    /// Binary PBM, inverted so lit pixels come out white like on the keyboard.
    pub fn pbm(&self) -> (out: Vec<u8>)
        ensures
            out@ == Self::pbm_header() + Seq::new(
                PIXEL_BYTES as nat,
                |i: int| !self.bytes()[i + 1],
            ),
            forall|x: int, y: int|
                on_screen(x, y) ==> #[trigger] raster_lit(out@.skip(10), x, y) == !self.lit(x, y),
    {
        let mut out: Vec<u8> = Vec::new();
        out.push(0x50u8);
        out.push(0x34u8);
        out.push(0x0au8);
        out.push(0x31u8);
        out.push(0x32u8);
        out.push(0x38u8);
        out.push(0x20u8);
        out.push(0x34u8);
        out.push(0x30u8);
        out.push(0x0au8);
        let mut i: usize = 1;
        while i <= PIXEL_BYTES
            invariant
                1 <= i <= PIXEL_BYTES + 1,
                self.bytes().len() == LEN,
                out@ == Self::pbm_header() + Seq::new((i - 1) as nat, |k: int| !self.bytes()[k + 1]),
            decreases PIXEL_BYTES + 1 - i,
        {
            out.push(!self.0[i]);
            proof {
                assert(Self::pbm_header() + Seq::new(i as nat, |k: int| !self.bytes()[k + 1])
                    =~= (Self::pbm_header() + Seq::new((i - 1) as nat, |k: int| !self.bytes()[k + 1]))
                    .push(!self.bytes()[i as int]));
            }
            i = i + 1;
        }
        proof {
            assert forall|x: int, y: int| on_screen(x, y) implies #[trigger] raster_lit(
                out@.skip(10),
                x,
                y,
            ) == !self.lit(x, y) by {
                let k = 16 * y + x / 8;
                assert(out@.skip(10)[k] == !self.bytes()[k + 1]);
                lemma_not_bits(self.bytes()[k + 1], (x % 8) as u8);
            }
        }
        out
    }
}

/// The ioctl request that hands a frame to the keyboard as a HID feature report:
/// HIDIOCSFEATURE(642) = _IOC(_IOC_READ | _IOC_WRITE, 'H', 0x06, 642).
pub fn feature_report_request() -> (r: usize)
    ensures
        r == 0xC282_4806,
{
    let r = (3usize << 30usize) | (LEN << 16usize) | ((0x48usize) << 8usize) | 0x06usize;
    assert(r == 0xC282_4806) by (bit_vector)
        requires
            r == (3usize << 30usize) | (642usize << 16usize) | (0x48usize << 8usize) | 0x06usize,
    ;
    r
}

/// Pages keep the last column and row free so nothing falls off: when no pixel is lit in
/// the column (row) that a shift right (down) pushes out, every lit pixel is still lit,
/// one step right and/or down, after the shift.
pub proof fn lemma_shift_loses_nothing(f: Frame, right: bool, down: bool)
    requires
        right ==> forall|y: int| 0 <= y < H ==> !#[trigger] f.lit(W - 1, y),
        down ==> forall|x: int| 0 <= x < W ==> !#[trigger] f.lit(x, H - 1),
    ensures
        forall|x: int, y: int|
            on_screen(x, y) && #[trigger] f.lit(x, y) ==> {
                let dx: int = if right {
                    1
                } else {
                    0
                };
                let dy: int = if down {
                    1
                } else {
                    0
                };
                on_screen(x + dx, y + dy) && f.shifted_lit(right, down, x + dx, y + dy)
            },
{
    assert forall|x: int, y: int| on_screen(x, y) && #[trigger] f.lit(x, y) implies {
        let dx: int = if right {
            1
        } else {
            0
        };
        let dy: int = if down {
            1
        } else {
            0
        };
        on_screen(x + dx, y + dy) && f.shifted_lit(right, down, x + dx, y + dy)
    } by {
        if right {
            assert(x != W - 1);
        }
        if down {
            assert(y != H - 1);
        }
    }
}


/// The pixels lit in a frame, pixel `(x, y)` numbered `y * W + x`.
pub open spec fn lit_pixels(f: Frame) -> Set<int> {
    Set::new(|p: int| 0 <= p < W * H && f.lit(p % (W as int), p / (W as int)))
}

/// Pixel `(x, y)` of the screen has number `y * W + x`, and that number gives it back.
proof fn lemma_pixel_number(x: int, y: int)
    requires
        on_screen(x, y),
    ensures
        0 <= y * W + x < W * H,
        (y * W + x) % (W as int) == x,
        (y * W + x) / (W as int) == y,
{
    vstd::arithmetic::div_mod::lemma_fundamental_div_mod_converse(y * W + x, W as int, y, x);
}

/// The pixel that number `p` stands for is on the screen.
proof fn lemma_number_pixel(p: int)
    requires
        0 <= p < W * H,
    ensures
        on_screen(p % (W as int), p / (W as int)),
        p == (p / (W as int)) * W + p % (W as int),
{
    vstd::arithmetic::div_mod::lemma_fundamental_div_mod(p, W as int);
}

/// A shift with room for it keeps the number of lit pixels: when the column (row) that a
/// shift right (down) pushes out is dark, the shifted frame `g` has exactly as many lit
/// pixels as `f`.
pub proof fn lemma_shift_keeps_count(f: Frame, right: bool, down: bool, g: Frame)
    requires
        right ==> forall|y: int| 0 <= y < H ==> !#[trigger] f.lit(W - 1, y),
        down ==> forall|x: int| 0 <= x < W ==> !#[trigger] f.lit(x, H - 1),
        forall|x: int, y: int|
            on_screen(x, y) ==> #[trigger] g.lit(x, y) == f.shifted_lit(right, down, x, y),
    ensures
        lit_pixels(f).finite(),
        lit_pixels(g).finite(),
        lit_pixels(g).len() == lit_pixels(f).len(),
{
    let dx: int = if right {
        1
    } else {
        0
    };
    let dy: int = if down {
        1
    } else {
        0
    };
    let step = |p: int| p + dx + dy * W;
    let before = lit_pixels(f);
    let after = lit_pixels(g);
    vstd::set_lib::lemma_int_range(0, W * H);
    assert(before.subset_of(vstd::set_lib::set_int_range(0, W * H)));
    vstd::set_lib::lemma_len_subset(before, vstd::set_lib::set_int_range(0, W * H));
    assert forall|q: int| before.map(step).contains(q) <==> after.contains(q) by {
        if before.map(step).contains(q) {
            let p = choose|p: int| before.contains(p) && q == step(p);
            lemma_number_pixel(p);
            let x = p % (W as int);
            let y = p / (W as int);
            if right {
                assert(x != W - 1);
            }
            if down {
                assert(y != H - 1);
            }
            assert(q == (y + dy) * W + (x + dx));
            lemma_pixel_number(x + dx, y + dy);
        }
        if after.contains(q) {
            lemma_number_pixel(q);
            let x = q % (W as int);
            let y = q / (W as int);
            assert(g.lit(x, y));
            assert(x >= dx && y >= dy && f.lit(x - dx, y - dy));
            let p = (y - dy) * W + (x - dx);
            lemma_pixel_number(x - dx, y - dy);
            assert(before.contains(p));
            assert(q == step(p));
        }
    }
    assert(before.map(step) =~= after);
    assert(vstd::relations::injective_on(step, before));
    vstd::set_lib::lemma_map_size(before, after, step);
}

} // verus!
