use vstd::prelude::*;
use vstd::arithmetic::div_mod::lemma_fundamental_div_mod_converse;
use crate::escape::{Output, level_of, discrete_level};

verus! {

/// Colour input for one pixel: a point of the set, or a brightness level
/// for a point whose orbit escaped.
#[derive(Clone, Copy, Debug, PartialEq, Eq, Structural)]
pub enum Shade {
    InSet,
    Level(u8),
}

/// Layout of the pixel bytes handed to an image encoder.
#[derive(Clone, Copy, Debug, PartialEq, Eq, Structural)]
pub enum ColorMode {
    /// One byte per pixel.
    Grayscale,
    /// Three bytes per pixel, red, green and blue, with the level in blue.
    Rgb,
}

/// Number of bytes that each pixel takes in `mode`.
pub open spec fn channels_of(mode: ColorMode) -> nat {
    match mode {
        ColorMode::Grayscale => 1,
        ColorMode::Rgb => 3,
    }
}

/// Brightness of a shade: 0 for the set, else its level.
pub open spec fn brightness(s: Shade) -> u8 {
    match s {
        Shade::InSet => 0,
        Shade::Level(b) => b,
    }
}

/// Byte `c` of the pixel whose shade is `s`.
pub open spec fn channel_byte(s: Shade, mode: ColorMode, c: int) -> u8 {
    match mode {
        ColorMode::Grayscale => brightness(s),
        ColorMode::Rgb => if c == 2 { brightness(s) } else { 0 },
    }
}

/// The pixel bytes of a grid of shades: pixel after pixel, each taking
/// `channels_of(mode)` bytes.
pub open spec fn bytes_of(grid: Seq<Shade>, mode: ColorMode) -> Seq<u8> {
    let ch = channels_of(mode) as int;
    Seq::new(
        (grid.len() * channels_of(mode)) as nat,
        |k: int| channel_byte(grid[k / ch], mode, k % ch),
    )
}

/// The shade of a point under the discrete colouring.
pub open spec fn shade_of(o: Output) -> Shade {
    match o {
        Output::InSet => Shade::InSet,
        Output::NotInSet(_) => Shade::Level(level_of(o)),
    }
}

impl ColorMode {
    /// Number of bytes that each pixel takes.
    pub fn channels(self) -> (r: usize)
        ensures
            r == channels_of(self),
    {
        match self {
            ColorMode::Grayscale => 1,
            ColorMode::Rgb => 3,
        }
    }
}

impl Shade {
    /// The shade that the discrete colouring gives an escape outcome.
    pub fn from_output(o: Output) -> (r: Shade)
        ensures
            r == shade_of(o),
    {
        match o {
            Output::InSet => Shade::InSet,
            Output::NotInSet(_) => Shade::Level(discrete_level(o)),
        }
    }
}

/// Pixel bytes of a grid, in the same order, for an image encoder.
pub fn to_bytes(grid: &[Shade], mode: ColorMode) -> (r: Vec<u8>)
    requires
        grid@.len() * channels_of(mode) <= usize::MAX,
    ensures
        r@ == bytes_of(grid@, mode),
        r@.len() == grid@.len() * channels_of(mode),
{
    let ch = mode.channels();
    let mut r: Vec<u8> = Vec::new();
    let mut p: usize = 0;
    while p < grid.len()
        invariant
            p <= grid@.len(),
            ch == channels_of(mode),
            grid@.len() * ch <= usize::MAX,
            r@.len() == p * ch,
            forall|k: int| 0 <= k < r@.len() ==> #[trigger] r@[k] == bytes_of(grid@, mode)[k],
        decreases grid@.len() - p,
    {
        let s = grid[p];
        let b: u8 = match s {
            Shade::InSet => 0,
            Shade::Level(b) => b,
        };
        let base = r.len();
        proof {
            assert(p * ch + ch <= grid@.len() * ch) by (nonlinear_arith)
                requires
                    p < grid@.len(),
                    ch >= 1,
            {}
        }
        let mut c: usize = 0;
        while c < ch
            invariant
                p < grid@.len(),
                ch == channels_of(mode),
                grid@.len() * ch <= usize::MAX,
                p * ch + ch <= grid@.len() * ch,
                s == grid@[p as int],
                b == brightness(s),
                base == p * ch,
                c <= ch,
                r@.len() == base + c,
                forall|k: int| 0 <= k < r@.len() ==> #[trigger] r@[k] == bytes_of(grid@, mode)[k],
            decreases ch - c,
        {
            let byte: u8 = match mode {
                ColorMode::Grayscale => b,
                ColorMode::Rgb => if c == 2 { b } else { 0 },
            };
            proof {
                let k = base + c;
                lemma_fundamental_div_mod_converse(k as int, ch as int, p as int, c as int);
                assert(byte == bytes_of(grid@, mode)[k as int]);
            }
            r.push(byte);
            c = c + 1;
        }
        p = p + 1;
    }
    proof {
        assert(r@ =~= bytes_of(grid@, mode));
    }
    r
}

/// Colouring has no interaction between pixels: the bytes of pixel `p` are
/// those of its own shade alone, at `p * channels` onward. Two grids that
/// agree on a pixel, a grid coloured twice among them, give it the same bytes.
pub proof fn lemma_bytes_of_pixel(g1: Seq<Shade>, g2: Seq<Shade>, mode: ColorMode, p: int, c: int)
    requires
        g1.len() == g2.len(),
        0 <= p < g1.len(),
        0 <= c < channels_of(mode),
        g1[p] == g2[p],
    ensures
        p * channels_of(mode) + c < bytes_of(g1, mode).len(),
        bytes_of(g1, mode)[p * channels_of(mode) + c] == channel_byte(g1[p], mode, c),
        bytes_of(g1, mode)[p * channels_of(mode) + c] == bytes_of(g2, mode)[p * channels_of(mode) + c],
{
    let ch = channels_of(mode) as int;
    assert(p * ch + c < g1.len() * ch) by (nonlinear_arith)
        requires
            0 <= p < g1.len(),
            0 <= c < ch,
    {}
    lemma_fundamental_div_mod_converse(p * ch + c, ch, p, c);
}

} // verus!
