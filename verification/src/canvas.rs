//! The pixel canvas: a width x height grid of RGBA pixels stored row-major.

use vstd::prelude::*;

verus! {

/// A canvas: its size in pixels and its pixel data, one RGBA tuple per
/// pixel, row-major.
pub struct Canvas {
    pub size: (usize, usize),
    pub data: Vec<(u8, u8, u8, u8)>,
}

impl Canvas {
    /// The data holds exactly one entry per pixel of the advertised size.
    pub open spec fn wf(&self) -> bool {
        self.data@.len() == self.size.0 * self.size.1
    }

    /// The pixel stored at column `x` of row `y`.
    pub open spec fn spec_pixel(&self, x: int, y: int) -> (u8, u8, u8, u8) {
        self.data@[y * self.size.0 + x]
    }

    /// A fresh canvas of `x` by `y` pixels, all opaque black.
    pub fn new(x: usize, y: usize) -> (c: Canvas)
        requires
            x * y <= usize::MAX,
        ensures
            c.wf(),
            c.size == (x, y),
            forall|i: int| 0 <= i < x * y ==> c.data@[i] == (0u8, 0u8, 0u8, 255u8),
    {
        let total = x * y;
        let mut data: Vec<(u8, u8, u8, u8)> = Vec::new();
        let mut i: usize = 0;
        while i < total
            invariant
                i <= total,
                data@.len() == i,
                forall|j: int| 0 <= j < i ==> data@[j] == (0u8, 0u8, 0u8, 255u8),
            decreases total - i,
        {
            data.push((0, 0, 0, 255));
            i = i + 1;
        }
        Canvas { size: (x, y), data }
    }

    /// Overwrite the pixel at `(x, y)` with `rgba`.
    pub fn set_pixel_color(&mut self, x: usize, y: usize, rgba: (u8, u8, u8, u8))
        requires
            old(self).wf(),
            x < old(self).size.0,
            y < old(self).size.1,
        ensures
            final(self).wf(),
            final(self).size == old(self).size,
            final(self).data@ == old(self).data@.update(
                y * old(self).size.0 + x,
                rgba,
            ),
            final(self).spec_pixel(x as int, y as int) == rgba,
    {
        let w = self.size.0;
        let h = self.size.1;
        proof {
            assert(y * w + x < w * h) by (nonlinear_arith)
                requires
                    x < w,
                    y < h,
            ;
            assert(y * w + x >= 0) by (nonlinear_arith)
                requires
                    x >= 0,
                    y >= 0,
                    w >= 0,
            ;
        }
        let n = self.data.len();
        proof {
            assert(n == w * h);
        }
        let id = y * w + x;
        self.data.set(id, rgba);
    }

    /// Read the pixel at `(x, y)`.
    pub fn get_pixel_color(&self, x: usize, y: usize) -> (rgba: (u8, u8, u8, u8))
        requires
            self.wf(),
            x < self.size.0,
            y < self.size.1,
        ensures
            rgba == self.spec_pixel(x as int, y as int),
    {
        let w = self.size.0;
        let h = self.size.1;
        proof {
            assert(y * w + x < w * h) by (nonlinear_arith)
                requires
                    x < w,
                    y < h,
            ;
            assert(y * w + x >= 0) by (nonlinear_arith)
                requires
                    x >= 0,
                    y >= 0,
                    w >= 0,
            ;
        }
        let n = self.data.len();
        proof {
            assert(n == w * h);
        }
        let id = y * w + x;
        self.data[id]
    }

    /// The canvas size as a pair.
    pub fn size(&self) -> (s: (usize, usize))
        ensures
            s == self.size,
    {
        self.size
    }

    /// The pixel data flattened to raw bytes, four per pixel in RGBA order.
    pub fn data_raw(&self) -> (bytes: Vec<u8>)
        requires
            self.data@.len() * 4 <= usize::MAX,
        ensures
            bytes@.len() == self.data@.len() * 4,
            forall|i: int|
                0 <= i < self.data@.len() ==> bytes@[4 * i] == self.data@[i].0 && bytes@[4 * i + 1]
                    == self.data@[i].1 && bytes@[4 * i + 2] == self.data@[i].2 && bytes@[4 * i + 3]
                    == self.data@[i].3,
    {
        let n = self.data.len();
        let mut bytes: Vec<u8> = Vec::new();
        let mut i: usize = 0;
        while i < n
            invariant
                i <= n,
                n == self.data@.len(),
                n * 4 <= usize::MAX,
                bytes@.len() == 4 * i,
                forall|j: int|
                    0 <= j < i ==> bytes@[4 * j] == self.data@[j].0 && bytes@[4 * j + 1]
                        == self.data@[j].1 && bytes@[4 * j + 2] == self.data@[j].2 && bytes@[4 * j
                        + 3] == self.data@[j].3,
            decreases n - i,
        {
            let p = self.data[i];
            bytes.push(p.0);
            bytes.push(p.1);
            bytes.push(p.2);
            bytes.push(p.3);
            i = i + 1;
        }
        bytes
    }

    /// The canvas width in pixels.
    pub fn width(&self) -> (w: usize)
        ensures
            w == self.size.0,
    {
        self.size.0
    }

    /// The canvas height in pixels.
    pub fn height(&self) -> (h: usize)
        ensures
            h == self.size.1,
    {
        self.size.1
    }
}

} // verus!
