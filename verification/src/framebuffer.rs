use vstd::prelude::*;

verus! {

/// Largest accepted framebuffer dimension. Keeping both dimensions below this
/// bound lets every pixel-coordinate computation in the rasterizer stay well
/// within `i64` range.
pub const MAX_DIM: usize = 1048576;

/// A dense pixel surface: `width * height` packed `0x00RRGGBB` colors in
/// row-major order, together with a background color used by `clear` and a
/// current draw color used by `point`.
pub struct Framebuffer {
    pub width: usize,
    pub height: usize,
    pub buffer: Vec<u32>,
    pub background_color: u32,
    pub current_color: u32,
}

impl Framebuffer {
    /// Well-formedness: the pixel buffer really has one entry per pixel, and
    /// the dimensions are small enough for exact `i64` rasterizer arithmetic.
    pub open spec fn wf(&self) -> bool {
        &&& self.buffer@.len() == self.width * self.height
        &&& self.width <= MAX_DIM
        &&& self.height <= MAX_DIM
    }

    /// Row-major index of pixel `(x, y)`.
    pub open spec fn spec_index_of(&self, x: int, y: int) -> int {
        y * self.width + x
    }

    /// Allocates a `width * height` buffer with every pixel, the background
    /// color and the current color all zero (opaque black).
    pub fn new(width: usize, height: usize) -> (fb: Framebuffer)
        requires
            1 <= width <= MAX_DIM,
            1 <= height <= MAX_DIM,
            width * height <= usize::MAX,
        ensures
            fb.wf(),
            fb.width == width,
            fb.height == height,
            fb.background_color == 0,
            fb.current_color == 0,
            forall|i: int| 0 <= i < fb.buffer@.len() ==> fb.buffer@[i] == 0u32,
    {
        let n: usize = width * height;
        let mut buffer: Vec<u32> = Vec::new();
        let mut i: usize = 0;
        while i < n
            invariant
                i <= n,
                buffer@.len() == i,
                forall|j: int| 0 <= j < i ==> buffer@[j] == 0u32,
            decreases n - i,
        {
            buffer.push(0);
            i = i + 1;
        }
        Framebuffer { width, height, buffer, background_color: 0, current_color: 0 }
    }

    /// Records the color that `clear` will flood the buffer with; the pixels
    /// themselves are untouched.
    pub fn set_background_color(&mut self, color: u32)
        ensures
            *final(self) == (Framebuffer { background_color: color, ..*old(self) }),
    {
        self.background_color = color;
    }

    /// Records the color that `point` will draw with; the pixels themselves
    /// are untouched.
    pub fn set_current_color(&mut self, color: u32)
        ensures
            *final(self) == (Framebuffer { current_color: color, ..*old(self) }),
    {
        self.current_color = color;
    }

    /// Resets every pixel to the background color.
    pub fn clear(&mut self)
        ensures
            final(self).width == old(self).width,
            final(self).height == old(self).height,
            final(self).background_color == old(self).background_color,
            final(self).current_color == old(self).current_color,
            final(self).buffer@.len() == old(self).buffer@.len(),
            forall|i: int| 0 <= i < final(self).buffer@.len()
                ==> final(self).buffer@[i] == old(self).background_color,
    {
        let n: usize = self.buffer.len();
        let bg: u32 = self.background_color;
        let mut i: usize = 0;
        while i < n
            invariant
                i <= n,
                self.width == old(self).width,
                self.height == old(self).height,
                self.background_color == old(self).background_color,
                self.current_color == old(self).current_color,
                self.buffer@.len() == n,
                n == old(self).buffer@.len(),
                bg == old(self).background_color,
                forall|j: int| 0 <= j < i ==> self.buffer@[j] == bg,
            decreases n - i,
        {
            self.buffer[i] = bg;
            i = i + 1;
        }
    }

    /// Writes `color` at `(x, y)` when the pixel lies on the surface, and
    /// leaves the buffer unchanged otherwise: out-of-range writes are
    /// silently dropped, never an error.
    pub fn put_pixel(&mut self, x: usize, y: usize, color: u32)
        requires
            old(self).wf(),
        ensures
            final(self).wf(),
            final(self).width == old(self).width,
            final(self).height == old(self).height,
            final(self).background_color == old(self).background_color,
            final(self).current_color == old(self).current_color,
            x < old(self).width && y < old(self).height ==> final(self).buffer@
                == old(self).buffer@.update(old(self).spec_index_of(x as int, y as int), color),
            !(x < old(self).width && y < old(self).height) ==> final(self).buffer@
                == old(self).buffer@,
    {
        if x < self.width && y < self.height {
            let n: usize = self.buffer.len();
            proof {
                assert(y * self.width + x < self.width * self.height) by (nonlinear_arith)
                    requires
                        x < self.width,
                        y < self.height,
                ;
            }
            let idx: usize = y * self.width + x;
            self.buffer[idx] = color;
        }
    }

    /// Writes the current draw color at `(x, y)` under the same
    /// bounds-check-and-drop policy as `put_pixel`.
    pub fn point(&mut self, x: usize, y: usize)
        requires
            old(self).wf(),
        ensures
            final(self).wf(),
            final(self).width == old(self).width,
            final(self).height == old(self).height,
            final(self).background_color == old(self).background_color,
            final(self).current_color == old(self).current_color,
            x < old(self).width && y < old(self).height ==> final(self).buffer@
                == old(self).buffer@.update(
                old(self).spec_index_of(x as int, y as int),
                old(self).current_color,
            ),
            !(x < old(self).width && y < old(self).height) ==> final(self).buffer@
                == old(self).buffer@,
    {
        let color: u32 = self.current_color;
        self.put_pixel(x, y, color);
    }

    /// Read-only view of the whole pixel array, for presentation.
    pub fn get_buffer(&self) -> (buf: &[u32])
        ensures
            buf@ == self.buffer@,
    {
        self.buffer.as_slice()
    }
}

} // verus!
