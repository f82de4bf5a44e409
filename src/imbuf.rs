use vstd::prelude::*;

use crate::scene::Color;

verus! {

/// The decimal digits of `n`, as ASCII bytes.
pub open spec fn decimal(n: nat) -> Seq<u8>
    decreases n,
{
    if n < 10 {
        seq![(48 + n) as u8]
    } else {
        decimal(n / 10).push((48 + n % 10) as u8)
    }
}

/// Writes `n` in decimal.
pub fn decimal_bytes(n: usize) -> (r: Vec<u8>)
    ensures
        r@ == decimal(n as nat),
    decreases n,
{
    if n < 10 {
        let mut r: Vec<u8> = Vec::new();
        r.push((48 + n) as u8);
        assert(r@ =~= seq![(48 + n) as u8]);
        r
    } else {
        let mut r = decimal_bytes(n / 10);
        r.push((48 + n % 10) as u8);
        r
    }
}

/// A grid of `width` × `height` colors, stored row by row.
pub struct ImBuf {
    pub pixels: Vec<Color>,
    pub width: usize,
    pub height: usize,
}

pub open spec fn black() -> Color {
    Color { r: 0, g: 0, b: 0 }
}

/// The portable pixmap header: format tag, dimensions and largest channel value.
pub open spec fn ppm_header(width: nat, height: nat) -> Seq<u8> {
    seq![80u8, 54u8, 10u8] + decimal(width) + seq![32u8] + decimal(height) + seq![10u8] + seq![
        50u8,
        53u8,
        53u8,
        10u8,
    ]
}

pub open spec fn channel(c: Color, k: int) -> u8 {
    if k == 0 {
        c.r
    } else if k == 1 {
        c.g
    } else {
        c.b
    }
}

impl ImBuf {
    pub open spec fn wf(&self) -> bool {
        &&& self.pixels@.len() == self.width * self.height
        &&& self.width * self.height <= usize::MAX
    }

    /// The color at column `i` of row `j`.
    pub open spec fn at(&self, i: int, j: int) -> Color {
        self.pixels@[j * self.width + i]
    }

    /// The pixel bytes of the image, top row first: row `j` of the output is row
    /// `height - 1 - j` of the grid, three bytes (red, green, blue) per pixel.
    pub open spec fn ppm_body(&self) -> Seq<u8> {
        Seq::new(
            (3 * self.width * self.height) as nat,
            |k: int|
                channel(
                    self.at((k / 3) % self.width as int, self.height - 1 - (k / 3) / self.width as int),
                    k % 3,
                ),
        )
    }

    /// A black image.
    pub fn new(width: usize, height: usize) -> (r: ImBuf)
        requires
            width * height <= usize::MAX,
        ensures
            r.wf(),
            r.width == width,
            r.height == height,
            forall|k: int| 0 <= k < r.pixels@.len() ==> #[trigger] r.pixels@[k] == black(),
    {
        let n = width * height;
        let mut pixels: Vec<Color> = Vec::new();
        let mut k: usize = 0;
        while k < n
            invariant
                k <= n,
                pixels@.len() == k,
                forall|m: int| 0 <= m < k ==> #[trigger] pixels@[m] == black(),
            decreases n - k,
        {
            pixels.push(Color { r: 0, g: 0, b: 0 });
            k += 1;
        }
        ImBuf { pixels, width, height }
    }

    /// The color at column `i` of row `j`.
    pub fn get(&self, i: usize, j: usize) -> (r: Color)
        requires
            self.wf(),
            i < self.width,
            j < self.height,
        ensures
            r == self.at(i as int, j as int),
    {
        proof {
            lemma_cell(i as int, j as int, self.width as int, self.height as int);
        }
        self.pixels[j * self.width + i]
    }

    /// Paints column `i` of row `j` with `c`.
    pub fn set(&mut self, i: usize, j: usize, c: Color)
        requires
            old(self).wf(),
            i < old(self).width,
            j < old(self).height,
        ensures
            final(self).wf(),
            final(self).width == old(self).width,
            final(self).height == old(self).height,
            final(self).pixels@ == old(self).pixels@.update(j * old(self).width + i, c),
    {
        proof {
            lemma_cell(i as int, j as int, self.width as int, self.height as int);
        }
        let k = j * self.width + i;
        self.pixels.set(k, c);
    }

    /// The image as a binary portable pixmap.
    pub fn to_ppm(&self) -> (r: Vec<u8>)
        requires
            self.wf(),
            3 * self.width * self.height <= usize::MAX,
        ensures
            r@ == ppm_header(self.width as nat, self.height as nat) + self.ppm_body(),
    {
        let mut out: Vec<u8> = Vec::new();
        out.push(80u8);
        out.push(54u8);
        out.push(10u8);
        let mut w = decimal_bytes(self.width);
        out.append(&mut w);
        out.push(32u8);
        let mut h = decimal_bytes(self.height);
        out.append(&mut h);
        out.push(10u8);
        out.push(50u8);
        out.push(53u8);
        out.push(53u8);
        out.push(10u8);
        let ghost head = out@;
        assert(head =~= ppm_header(self.width as nat, self.height as nat));
        let ghost body = self.ppm_body();
        let width = self.width;
        let height = self.height;
        let mut j: usize = 0;
        assert(out@ =~= head + body.take(3 * 0 * width));
        while j < height
            invariant
                self.wf(),
                width == self.width,
                height == self.height,
                3 * width * height <= usize::MAX,
                j <= height,
                body == self.ppm_body(),
                out@ == head + body.take(3 * j * width),
            decreases height - j,
        {
            assert(3 * j * width == 3 * (j * width + 0)) by (nonlinear_arith);
            let mut i: usize = 0;
            while i < width
                invariant
                    self.wf(),
                    width == self.width,
                    height == self.height,
                    3 * width * height <= usize::MAX,
                    j < height,
                    i <= width,
                    body == self.ppm_body(),
                    out@ == head + body.take(3 * (j * width + i)),
                decreases width - i,
            {
                let row = height - j - 1;
                let c = self.get(i, row);
                proof {
                    lemma_pixel_bytes(self, i as int, j as int);
                }
                out.push(c.r);
                out.push(c.g);
                out.push(c.b);
                proof {
                    let k = 3 * (j * width + i);
                    assert(body.take(k + 3) =~= body.take(k).push(c.r).push(c.g).push(c.b));
                    assert(3 * (j * width + (i + 1)) == 3 * (j * width + i) + 3) by (nonlinear_arith);
                }
                i += 1;
            }
            assert(3 * (j * width + width) == 3 * (j + 1) * width) by (nonlinear_arith);
            j += 1;
        }
        assert(3 * height * width == 3 * width * height) by (nonlinear_arith);
        assert(body.take(3 * height * width) =~= body);
        out
    }
}

proof fn lemma_cell(i: int, j: int, w: int, h: int)
    requires
        0 <= i < w,
        0 <= j < h,
    ensures
        0 <= j * w + i < w * h,
{
    assert(j * w + i < w * h) by (nonlinear_arith)
        requires
            0 <= i < w,
            0 <= j < h,
    ;
    assert(0 <= j * w) by (nonlinear_arith)
        requires
            0 <= j,
            0 <= w,
    ;
}

/// The three bytes of the pixel at column `i` of output row `j`.
proof fn lemma_pixel_bytes(b: &ImBuf, i: int, j: int)
    requires
        b.wf(),
        0 <= i < b.width,
        0 <= j < b.height,
    ensures
        3 * (j * b.width + i) + 3 <= 3 * b.width * b.height,
        b.ppm_body()[3 * (j * b.width + i)] == b.at(i, b.height - 1 - j).r,
        b.ppm_body()[3 * (j * b.width + i) + 1] == b.at(i, b.height - 1 - j).g,
        b.ppm_body()[3 * (j * b.width + i) + 2] == b.at(i, b.height - 1 - j).b,
{
    let w = b.width as int;
    let h = b.height as int;
    lemma_cell(i, j, w, h);
    assert(3 * (j * w + i) + 3 <= 3 * w * h) by (nonlinear_arith)
        requires
            j * w + i < w * h,
    ;
    assert forall|c: int| 0 <= c < 3 implies #[trigger] b.ppm_body()[3 * (j * w + i) + c]
        == channel(b.at(i, h - 1 - j), c) by {
        let k = 3 * (j * w + i) + c;
        assert(k / 3 == j * w + i);
        assert(k % 3 == c);
        assert((j * w + i) % w == i) by (nonlinear_arith)
            requires
                0 <= i < w,
                0 <= j,
        ;
        assert((j * w + i) / w == j) by (nonlinear_arith)
            requires
                0 <= i < w,
                0 <= j,
        ;
    }
    assert(b.ppm_body()[3 * (j * w + i) + 0] == channel(b.at(i, h - 1 - j), 0));
    assert(b.ppm_body()[3 * (j * w + i) + 1] == channel(b.at(i, h - 1 - j), 1));
    assert(b.ppm_body()[3 * (j * w + i) + 2] == channel(b.at(i, h - 1 - j), 2));
}

/// An image that nothing was painted on, black throughout as `new` makes it,
/// encodes as `3 * width * height` zero bytes after the header.
pub proof fn black_image_bytes(b: ImBuf)
    requires
        b.wf(),
        forall|k: int| 0 <= k < b.pixels@.len() ==> #[trigger] b.pixels@[k] == black(),
    ensures
        b.ppm_body() == Seq::new((3 * b.width * b.height) as nat, |k: int| 0u8),
{
    let w = b.width as int;
    let h = b.height as int;
    assert forall|k: int| 0 <= k < 3 * w * h implies #[trigger] b.ppm_body()[k] == 0u8 by {
        let q = k / 3;
        assert(0 <= q < w * h) by (nonlinear_arith)
            requires
                0 <= k < 3 * w * h,
                q == k / 3,
        ;
        assert(w > 0) by (nonlinear_arith)
            requires
                0 <= q < w * h,
                h >= 0,
        ;
        assert(0 <= q / w < h && 0 <= q % w < w) by (nonlinear_arith)
            requires
                0 <= q < w * h,
                w > 0,
        ;
        lemma_cell(q % w, h - 1 - q / w, w, h);
    }
    assert(b.ppm_body() =~= Seq::new((3 * b.width * b.height) as nat, |k: int| 0u8));
}

} // verus!
