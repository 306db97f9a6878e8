//! Framebuffer and wire framing of the Sharp Memory LCD (400x240, one
//! bit per pixel, `1` light and `0` ink, MSB first within each byte).
//!
//! A frame goes out as `[cmd] ([addr] [line bytes] [0x00]) * 240 [0x00]`:
//! `cmd` is the write command with the VCOM bit on every other frame (the
//! panel needs VCOM toggled regularly), and `addr` is the 1-based line
//! number with its bits reversed, since the panel reads it LSB first
//! while the SPI bus shifts MSB first. Pixel data goes as it is.
use vstd::prelude::*;

verus! {

pub const WIDTH: usize = 400;
pub const HEIGHT: usize = 240;
pub const LINE_BYTES: usize = 50;
pub const FRAME_BYTES: usize = 12000;

/// Write command.
pub const CMD_WRITE: u8 = 0x80;
/// VCOM polarity bit of the command byte.
pub const CMD_VCOM: u8 = 0x40;

/// Bit `i` (0 = least significant) of `x`.
pub open spec fn bit(x: u8, i: u8) -> u8 {
    (x >> i) & 1
}

/// `n` with its eight bits in reverse order.
pub fn reverse_bits(n: u8) -> (r: u8)
    ensures
        forall|i: u8| i < 8 ==> #[trigger] bit(r, i) == bit(n, (7 - i) as u8),
{
    let r = ((n & 0x01) << 7) | ((n & 0x02) << 5) | ((n & 0x04) << 3) | ((n & 0x08) << 1) | ((n & 0x10)
        >> 1) | ((n & 0x20) >> 3) | ((n & 0x40) >> 5) | ((n & 0x80) >> 7);
    assert(forall|i: u8| i < 8 ==> ((r >> i) & 1) == ((n >> ((7 - i) as u8)) & 1)) by (bit_vector)
        requires
            r == ((n & 0x01) << 7) | ((n & 0x02) << 5) | ((n & 0x04) << 3) | ((n & 0x08) << 1) | ((n
                & 0x10) >> 1) | ((n & 0x20) >> 3) | ((n & 0x40) >> 5) | ((n & 0x80) >> 7),
    ;
    r
}

/// Reversing the bits twice gives the byte back.
pub proof fn lemma_reverse_bits_involution(n: u8, r: u8, back: u8)
    requires
        forall|i: u8| i < 8 ==> #[trigger] bit(r, i) == bit(n, (7 - i) as u8),
        forall|i: u8| i < 8 ==> #[trigger] bit(back, i) == bit(r, (7 - i) as u8),
    ensures
        back == n,
{
    assert(bit(back, 0) == bit(n, 0) && bit(back, 1) == bit(n, 1) && bit(back, 2) == bit(n, 2)
        && bit(back, 3) == bit(n, 3) && bit(back, 4) == bit(n, 4) && bit(back, 5) == bit(n, 5)
        && bit(back, 6) == bit(n, 6) && bit(back, 7) == bit(n, 7)) by {
        assert(bit(back, 0) == bit(r, 7) && bit(r, 7) == bit(n, 0));
        assert(bit(back, 1) == bit(r, 6) && bit(r, 6) == bit(n, 1));
        assert(bit(back, 2) == bit(r, 5) && bit(r, 5) == bit(n, 2));
        assert(bit(back, 3) == bit(r, 4) && bit(r, 4) == bit(n, 3));
        assert(bit(back, 4) == bit(r, 3) && bit(r, 3) == bit(n, 4));
        assert(bit(back, 5) == bit(r, 2) && bit(r, 2) == bit(n, 5));
        assert(bit(back, 6) == bit(r, 1) && bit(r, 1) == bit(n, 6));
        assert(bit(back, 7) == bit(r, 0) && bit(r, 0) == bit(n, 7));
    }
    assert(back == n) by (bit_vector)
        requires
            (back >> 0u8) & 1 == (n >> 0u8) & 1,
            (back >> 1u8) & 1 == (n >> 1u8) & 1,
            (back >> 2u8) & 1 == (n >> 2u8) & 1,
            (back >> 3u8) & 1 == (n >> 3u8) & 1,
            (back >> 4u8) & 1 == (n >> 4u8) & 1,
            (back >> 5u8) & 1 == (n >> 5u8) & 1,
            (back >> 6u8) & 1 == (n >> 6u8) & 1,
            (back >> 7u8) & 1 == (n >> 7u8) & 1,
    ;
}

/// The bytes sent for line `line` (0-based) of `buf`.
pub open spec fn line_frame(buf: Seq<u8>, line: int, addr: u8) -> Seq<u8> {
    seq![addr] + buf.subrange(line * LINE_BYTES, line * LINE_BYTES + LINE_BYTES) + seq![0u8]
}

/// The bytes sent for the first `n` lines, each with its reversed
/// 1-based address `addrs[line]`.
pub open spec fn lines_frame(buf: Seq<u8>, addrs: Seq<u8>, n: nat) -> Seq<u8>
    decreases n,
{
    if n == 0 {
        Seq::empty()
    } else {
        lines_frame(buf, addrs, (n - 1) as nat) + line_frame(buf, n - 1, addrs[n - 1])
    }
}

/// Whether `a` is the reversed 1-based address of line `line`.
pub open spec fn is_line_addr(a: u8, line: int) -> bool {
    forall|i: u8| i < 8 ==> #[trigger] bit(a, i) == bit((line + 1) as u8, (7 - i) as u8)
}

/// The panel's framebuffer and the VCOM bit of the next frame.
pub struct Framebuffer {
    buffer: Vec<u8>,
    vcom: bool,
}

impl Framebuffer {
    /// The bit-packed pixels, row after row.
    pub closed spec fn spec_buffer(&self) -> Seq<u8> {
        self.buffer@
    }

    /// Whether the next frame carries the VCOM bit.
    pub closed spec fn spec_vcom(&self) -> bool {
        self.vcom
    }

    pub closed spec fn wf(&self) -> bool {
        self.buffer@.len() == FRAME_BYTES
    }

    /// Whether pixel `(x, y)` is ink.
    pub open spec fn ink_at(&self, x: int, y: int) -> bool {
        self.spec_buffer()[y * LINE_BYTES + x / 8] & (1u8 << ((7 - x % 8) as u8)) == 0
    }

    /// An all-light panel; the first frame goes without the VCOM bit.
    pub fn new() -> (r: Self)
        ensures
            r.wf(),
            r.spec_buffer() == Seq::new(FRAME_BYTES as nat, |i: int| 0xFFu8),
            !r.spec_vcom(),
    {
        let mut buffer: Vec<u8> = Vec::new();
        let mut i: usize = 0;
        while i < FRAME_BYTES
            invariant
                i <= FRAME_BYTES,
                buffer@ == Seq::new(i as nat, |k: int| 0xFFu8),
            decreases FRAME_BYTES - i,
        {
            buffer.push(0xFF);
            i = i + 1;
            assert(buffer@ =~= Seq::new(i as nat, |k: int| 0xFFu8));
        }
        Framebuffer { buffer, vcom: false }
    }

    /// Paint pixel `(x, y)` as ink or light; points off the panel are
    /// ignored. Only that pixel's bit changes.
    pub fn set_pixel(&mut self, x: i32, y: i32, ink: bool)
        requires
            old(self).wf(),
        ensures
            final(self).wf(),
            final(self).spec_vcom() == old(self).spec_vcom(),
            (x < 0 || y < 0 || x >= WIDTH || y >= HEIGHT) ==> final(self).spec_buffer() == old(self).spec_buffer(),
            (0 <= x < WIDTH && 0 <= y < HEIGHT) ==> {
                let byte = y * LINE_BYTES + x / 8;
                let mask = 1u8 << ((7 - x % 8) as u8);
                final(self).spec_buffer() == old(self).spec_buffer().update(
                    byte,
                    if ink {
                        old(self).spec_buffer()[byte] & !mask
                    } else {
                        old(self).spec_buffer()[byte] | mask
                    },
                )
            },
    {
        if x < 0 || y < 0 || x as usize >= WIDTH || y as usize >= HEIGHT {
            return;
        }
        let xu = x as usize;
        let yu = y as usize;
        let byte = yu * LINE_BYTES + xu / 8;
        let shift = (7 - xu % 8) as u8;
        let mask: u8 = 1u8 << shift;
        let old_byte = self.buffer[byte];
        let new_byte = if ink {
            old_byte & !mask
        } else {
            old_byte | mask
        };
        self.buffer.set(byte, new_byte);
    }

    /// The bytes of one full frame, for the panel's SPI bus; the VCOM bit
    /// of the next frame flips.
    pub fn frame(&mut self) -> (r: Vec<u8>)
        requires
            old(self).wf(),
        ensures
            final(self).wf(),
            final(self).spec_buffer() == old(self).spec_buffer(),
            final(self).spec_vcom() == !old(self).spec_vcom(),
            r@.len() == 1 + HEIGHT * (LINE_BYTES + 2) + 1,
            r@[0] == (if old(self).spec_vcom() {
                CMD_WRITE | CMD_VCOM
            } else {
                CMD_WRITE
            }),
            r@.last() == 0,
            exists|addrs: Seq<u8>|
                addrs.len() == HEIGHT && (forall|l: int| 0 <= l < HEIGHT ==> is_line_addr(#[trigger] addrs[l], l))
                    && r@ == seq![r@[0]] + lines_frame(old(self).spec_buffer(), addrs, HEIGHT as nat) + seq![0u8],
    {
        let cmd = if self.vcom {
            CMD_WRITE | CMD_VCOM
        } else {
            CMD_WRITE
        };
        self.vcom = !self.vcom;
        let mut out: Vec<u8> = Vec::new();
        out.push(cmd);
        let ghost mut addrs: Seq<u8> = Seq::empty();
        let mut line: usize = 0;
        while line < HEIGHT
            invariant
                line <= HEIGHT,
                self.buffer@.len() == FRAME_BYTES,
                addrs.len() == line,
                forall|l: int| 0 <= l < line ==> is_line_addr(#[trigger] addrs[l], l),
                out@ == seq![cmd] + lines_frame(self.buffer@, addrs, line as nat),
                out@.len() == 1 + line * (LINE_BYTES + 2),
            decreases HEIGHT - line,
        {
            let addr = reverse_bits((line + 1) as u8);
            let ghost before = out@;
            out.push(addr);
            let start = line * LINE_BYTES;
            let mut k: usize = 0;
            while k < LINE_BYTES
                invariant
                    k <= LINE_BYTES,
                    line < HEIGHT,
                    start == line * LINE_BYTES,
                    self.buffer@.len() == FRAME_BYTES,
                    out@ == before + seq![addr] + self.buffer@.subrange(start as int, start + k),
                decreases LINE_BYTES - k,
            {
                out.push(self.buffer[start + k]);
                k = k + 1;
                assert(out@ =~= before + seq![addr] + self.buffer@.subrange(start as int, start + k));
            }
            out.push(0);
            assert(start + LINE_BYTES <= FRAME_BYTES);
            assert(out@.len() == before.len() + LINE_BYTES + 2);
            assert(1 + (line + 1) * (LINE_BYTES + 2) == 1 + line * (LINE_BYTES + 2) + LINE_BYTES + 2) by (nonlinear_arith);
            proof {
                let a2 = addrs.push(addr);
                assert forall|l: int| 0 <= l < line + 1 implies is_line_addr(#[trigger] a2[l], l) by {
                    if l < line {
                        assert(a2[l] == addrs[l]);
                    }
                }
                assert(lines_frame(self.buffer@, a2, line as nat) == lines_frame(self.buffer@, addrs, line as nat)) by {
                    lemma_lines_frame_prefix(self.buffer@, addrs, a2, line as nat);
                }
                assert(out@ =~= seq![cmd] + lines_frame(self.buffer@, a2, (line + 1) as nat));
                addrs = a2;
            }
            line = line + 1;
        }
        out.push(0);
        out
    }
}

proof fn lemma_lines_frame_prefix(buf: Seq<u8>, a: Seq<u8>, b: Seq<u8>, n: nat)
    requires
        n <= a.len(),
        n <= b.len(),
        forall|l: int| 0 <= l < n ==> a[l] == b[l],
    ensures
        lines_frame(buf, a, n) == lines_frame(buf, b, n),
    decreases n,
{
    if n > 0 {
        lemma_lines_frame_prefix(buf, a, b, (n - 1) as nat);
    }
}

} // verus!
