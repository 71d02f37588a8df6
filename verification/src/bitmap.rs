//! Pixel-level builtins: ARGB color values in premultiplied and
//! unmultiplied form, a Lehmer/Park-Miller random number generator, and
//! pixel-buffer data with its dirty-state tracking.

use vstd::prelude::*;

verus! {

/// An implementation of the Lehmer/Park-Miller random number generator,
/// with the fixed parameters m = 2,147,483,647 and a = 16,807.
pub struct LehmerRng {
    x: u32,
}

impl LehmerRng {
    pub closed spec fn spec_x(&self) -> u32 {
        self.x
    }

    pub fn with_seed(seed: u32) -> (r: Self)
        ensures
            r.spec_x() == seed,
    {
        Self { x: seed }
    }

    /// The next state of the generator: X_(k+1) = a * X_k mod m.
    pub open spec fn spec_next(x: u32) -> u32 {
        ((x * 16_807) % 2_147_483_647) as u32
    }

    /// Generate the next value in the sequence.
    pub fn gen(&mut self) -> (r: u32)
        ensures
            r == Self::spec_next(old(self).spec_x()),
            final(self).spec_x() == r,
    {
        self.x = (((self.x as u64) * 16_807) % 2_147_483_647) as u32;
        self.x
    }

    /// A value in `start..=end`, drawn from the next generator output.
    pub fn gen_range(&mut self, start: u8, end: u8) -> (r: u8)
        requires
            start <= end,
        ensures
            start <= r <= end,
            r == start + Self::spec_next(old(self).spec_x()) % ((end - start + 1) as u32),
            final(self).spec_x() == Self::spec_next(old(self).spec_x()),
    {
        let g = self.gen();
        start + (g % ((end - start) as u32 + 1)) as u8
    }
}

/// An ARGB color value, stored as one 32-bit word. The same representation
/// carries both premultiplied and unmultiplied colors; which form a value
/// is in is up to the operation using it.
#[derive(Debug, Copy, Clone, Eq, PartialEq, Structural)]
pub struct Color(pub u32);

/// The word formed from alpha, red, green and blue channel bytes.
pub open spec fn spec_argb(a: u8, r: u8, g: u8, b: u8) -> u32 {
    (a * 0x100_0000 + r * 0x1_0000 + g * 0x100 + b) as u32
}

/// The blue channel of a color word: its low byte.
pub open spec fn spec_blue(c: u32) -> u32 {
    c % 0x100
}

/// The green channel of a color word: its second byte.
pub open spec fn spec_green(c: u32) -> u32 {
    (c / 0x100) % 0x100
}

/// The red channel of a color word: its third byte.
pub open spec fn spec_red(c: u32) -> u32 {
    (c / 0x1_0000) % 0x100
}

/// The alpha channel of a color word: its high byte.
pub open spec fn spec_alpha(c: u32) -> u32 {
    c / 0x100_0000
}

/// One channel of blending `s` over `d` with source alpha `sa`:
/// `s + d * (255 - sa) / 256`, wrapping in a byte.
pub open spec fn spec_blend_channel(d: u32, s: u32, sa: u32) -> u8 {
    ((s + (d * (255 - sa)) / 0x100) % 0x100) as u8
}

impl Color {
    /// The blue channel: the low byte.
    pub fn blue(&self) -> (r: u8)
        ensures
            r == spec_blue(self.0),
    {
        (self.0 % 0x100) as u8
    }

    /// The green channel: the second byte.
    pub fn green(&self) -> (r: u8)
        ensures
            r == spec_green(self.0),
    {
        ((self.0 / 0x100) % 0x100) as u8
    }

    /// The red channel: the third byte.
    pub fn red(&self) -> (r: u8)
        ensures
            r == spec_red(self.0),
    {
        ((self.0 / 0x1_0000) % 0x100) as u8
    }

    /// The alpha channel: the high byte.
    pub fn alpha(&self) -> (r: u8)
        ensures
            r == spec_alpha(self.0),
    {
        (self.0 / 0x100_0000) as u8
    }

    /// Packs the four channel bytes into a color word.
    pub fn argb(alpha: u8, red: u8, green: u8, blue: u8) -> (r: Self)
        ensures
            r.0 == spec_argb(alpha, red, green, blue),
    {
        Color((alpha as u32) * 0x100_0000 + (red as u32) * 0x1_0000 + (green as u32) * 0x100
            + (blue as u32))
    }

    /// The same color with its alpha channel replaced.
    pub fn with_alpha(&self, alpha: u8) -> (r: Self)
        ensures
            r.0 == spec_argb(alpha, spec_red(self.0) as u8, spec_green(self.0) as u8,
                spec_blue(self.0) as u8),
    {
        let red = self.red();
        let green = self.green();
        let blue = self.blue();
        Color::argb(alpha, red, green, blue)
    }

    /// One channel scaled into premultiplied form, rounding to nearest.
    pub open spec fn spec_premul_channel(c: u8, a: u8) -> u8 {
        ((c * a + 127) / 255) as u8
    }

    /// The premultiplied form of an unmultiplied color. Where the pixel
    /// buffer is opaque the alpha channel is forced to 255.
    pub open spec fn to_premultiplied_spec(self, transparency: bool) -> Color {
        let a: u8 = if transparency { spec_alpha(self.0) as u8 } else { 255 };
        Color(spec_argb(a,
            Self::spec_premul_channel(spec_red(self.0) as u8, a),
            Self::spec_premul_channel(spec_green(self.0) as u8, a),
            Self::spec_premul_channel(spec_blue(self.0) as u8, a)))
    }

    /// Converts an unmultiplied color to premultiplied form.
    pub fn to_premultiplied_alpha(self, transparency: bool) -> (r: Self)
        ensures
            r == self.to_premultiplied_spec(transparency),
    {
        let old_alpha = if transparency { self.alpha() } else { 255 };

        let r = Self::premul_channel(self.red(), old_alpha);
        let g = Self::premul_channel(self.green(), old_alpha);
        let b = Self::premul_channel(self.blue(), old_alpha);

        Self::argb(old_alpha, r, g, b)
    }

    fn premul_channel(c: u8, a: u8) -> (r: u8)
        ensures
            r == Self::spec_premul_channel(c, a),
    {
        proof {
            vstd::arithmetic::mul::lemma_mul_upper_bound(c as int, 255, a as int, 255);
        }
        (((c as u32) * (a as u32) + 127) / 255) as u8
    }

    /// One channel scaled back out of premultiplied form by the table
    /// factor belonging to the alpha value.
    pub open spec fn spec_unmul_channel(c: u8, factor: u32) -> u8 {
        ((c * factor + 0x8000) / 0x1_0000) as u8
    }

    /// The unmultiplied form of a premultiplied color, by the factor table.
    pub open spec fn to_unmultiplied_spec(self) -> Color {
        let a = spec_alpha(self.0) as u8;
        let factor = FLASH_PREMUL_FACTOR@[a as int];
        Color(spec_argb(a,
            Self::spec_unmul_channel(spec_red(self.0) as u8, factor),
            Self::spec_unmul_channel(spec_green(self.0) as u8, factor),
            Self::spec_unmul_channel(spec_blue(self.0) as u8, factor)))
    }

    /// Converts a premultiplied color back to unmultiplied form, using the
    /// factor table that reproduces the legacy player's exact results.
    pub fn to_un_multiplied_alpha(self) -> (r: Self)
        ensures
            r == self.to_unmultiplied_spec(),
    {
        let alpha = self.alpha();
        let alpha_factor = FLASH_PREMUL_FACTOR[alpha as usize];
        proof {
            lemma_premul_factor_bound(alpha as int);
        }
        let r = Self::unmul_channel(self.red(), alpha_factor);
        let g = Self::unmul_channel(self.green(), alpha_factor);
        let b = Self::unmul_channel(self.blue(), alpha_factor);
        Self::argb(alpha, r, g, b)
    }

    fn unmul_channel(c: u8, factor: u32) -> (r: u8)
        requires
            factor <= 16_678_912,
        ensures
            r == Self::spec_unmul_channel(c, factor),
    {
        proof {
            vstd::arithmetic::mul::lemma_mul_upper_bound(c as int, 255, factor as int,
                16_678_912);
        }
        #[verifier::truncate]
        ((((c as u64) * (factor as u64) + 0x8000) / 0x1_0000) as u8)
    }

    /// One channel scaled by `(255 - source alpha) / 256`, the blend's
    /// attenuation of the destination.
    fn scale_down(c: u8, f: u8) -> (r: u8)
        ensures
            r == (c * f) / 0x100,
    {
        proof {
            vstd::arithmetic::mul::lemma_mul_upper_bound(c as int, 255, f as int, 255);
        }
        (((c as u32) * (f as u32)) / 0x100) as u8
    }

    /// Blends `source` over `self`; both colors must be in premultiplied
    /// form. Each channel becomes `src + dst * (255 - src_alpha) / 256`,
    /// with the additions wrapping in a byte as the legacy player's did.
    /// The result of blending `source` over `self`, channel by channel.
    pub open spec fn blend_over_spec(self, source: Color) -> Color {
        let sa = spec_alpha(source.0);
        Color(spec_argb(spec_blend_channel(spec_alpha(self.0), spec_alpha(source.0), sa),
            spec_blend_channel(spec_red(self.0), spec_red(source.0), sa),
            spec_blend_channel(spec_green(self.0), spec_green(source.0), sa),
            spec_blend_channel(spec_blue(self.0), spec_blue(source.0), sa)))
    }

    #[verifier::rlimit(30)]
    pub fn blend_over(&self, source: &Self) -> (r: Self)
        ensures
            r == self.blend_over_spec(*source),
    {
        let sa = source.alpha();

        let r = source.red().wrapping_add(Self::scale_down(self.red(), 255 - sa));
        let g = source.green().wrapping_add(Self::scale_down(self.green(), 255 - sa));
        let b = source.blue().wrapping_add(Self::scale_down(self.blue(), 255 - sa));
        let a = source.alpha().wrapping_add(Self::scale_down(self.alpha(), 255 - sa));
        proof {
            assert(r == spec_blend_channel(spec_red(self.0), spec_red(source.0),
                spec_alpha(source.0)));
            assert(g == spec_blend_channel(spec_green(self.0), spec_green(source.0),
                spec_alpha(source.0)));
            assert(b == spec_blend_channel(spec_blue(self.0), spec_blue(source.0),
                spec_alpha(source.0)));
            assert(a == spec_blend_channel(spec_alpha(self.0), spec_alpha(source.0),
                spec_alpha(source.0)));
        }
        Self::argb(a, r, g, b)
    }
}

/// Per-alpha factors reversing premultiplication exactly as the legacy
/// player does; found by exhaustive search over the byte channel values.
pub const FLASH_PREMUL_FACTOR: [u32; 256] = [
    0, 16678912, 8339456, 5559638, 4169728, 3335783, 2779819, 2386603, 2086230, 1855488,
    1667892, 1518251, 1391151, 1285234, 1193302, 1111928, 1043895, 981113, 927744, 879275,
    834621, 795535, 759126, 726358, 695839, 668183, 642538, 618737, 596651, 576171,
    555964, 538706, 522104, 506319, 490557, 477321, 464038, 451353, 439544, 428244,
    417582, 407500, 397768, 388535, 379630, 371117, 363179, 355235, 348050, 340965,
    334052, 327038, 321269, 315077, 309159, 303586, 298189, 293092, 287981, 283080,
    278251, 273892, 269268, 265179, 261087, 256971, 253160, 249322, 245508, 242164,
    238575, 235245, 231859, 228848, 225785, 222712, 219616, 216827, 213985, 211432,
    208835, 206075, 203750, 201196, 198895, 196223, 194301, 191987, 189686, 187636,
    185559, 183426, 181453, 179444, 177638, 175855, 174054, 171948, 170489, 168695,
    166889, 165365, 163519, 162045, 160508, 158970, 157429, 156150, 154610, 153081,
    151803, 150511, 148986, 147709, 146420, 145116, 143868, 142586, 141545, 140277,
    139194, 137957, 136954, 135676, 134652, 133621, 132604, 131577, 130552, 129527,
    128508, 127476, 126451, 125432, 124670, 123645, 122818, 121847, 121082, 120060,
    119288, 118263, 117502, 116720, 115967, 115195, 114424, 113655, 112893, 112125,
    111356, 110563, 109811, 109048, 108287, 107766, 107004, 106236, 105724, 104953,
    104434, 103676, 102904, 102375, 101879, 101119, 100604, 99834, 99321, 98813,
    98112, 97533, 97019, 96509, 95994, 95486, 94713, 94185, 93689, 93179,
    92667, 92149, 91643, 91129, 90621, 90068, 89597, 89342, 88829, 88318,
    87804, 87294, 87034, 86523, 85994, 85499, 85245, 84732, 84222, 83956,
    83450, 82937, 82685, 82173, 81840, 81405, 80889, 80638, 80127, 79862,
    79354, 79103, 78590, 78332, 78077, 77565, 77308, 76795, 76541, 76284,
    75766, 75518, 75262, 74748, 74493, 74238, 73691, 73470, 73214, 72959,
    72447, 72189, 71935, 71671, 71166, 70911, 70651, 70399, 70140, 69886,
    69615, 69116, 68861, 68603, 68350, 68093, 67839, 67576, 67326, 67070,
    66813, 66556, 66302, 66046, 65791, 65408,
];

/// Every factor in the table is at most the factor for alpha 1.
pub proof fn lemma_premul_factor_bound(i: int)
    requires
        0 <= i < 256,
    ensures
        FLASH_PREMUL_FACTOR@[i] <= 16_678_912,
{
}

} // verus!
