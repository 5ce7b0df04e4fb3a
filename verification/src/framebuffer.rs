//! The software pixel buffer: a dense row-major grid of colors with a
//! current drawing color, a background color, and point/clear/packing
//! operations.

use vstd::prelude::*;
use crate::board::lemma_cell_index_bound;
use crate::color::Color;
use crate::color::black;
use crate::color::packed;
use crate::color::white;

verus! {

/// A fixed-size pixel buffer holding one color per pixel in row-major
/// order, plus the color that `point` draws with and the color that
/// `clear` fills with.
pub struct FrameBuffer {
    pub width: usize,
    pub height: usize,
    pub buffer: Vec<Color>,
    pub current_color: Color,
    pub background_color: Color,
}

impl FrameBuffer {
    /// The buffer is well formed: its dimensions are positive and it holds
    /// exactly one color per pixel.
    pub open spec fn wf(&self) -> bool {
        &&& self.width > 0
        &&& self.height > 0
        &&& self.buffer@.len() == self.width * self.height
    }

    /// The color of the pixel at column `x`, row `y`.
    pub open spec fn pixel_at(&self, x: int, y: int) -> Color {
        self.buffer@[y * self.width + x]
    }

    /// A buffer of the given dimensions with every pixel black, a black
    /// background and a white drawing color.
    pub fn new(width: usize, height: usize) -> (fb: FrameBuffer)
        requires
            width > 0,
            height > 0,
            width * height <= usize::MAX,
        ensures
            fb.wf(),
            fb.width == width,
            fb.height == height,
            fb.current_color == white(),
            fb.background_color == black(),
            forall|i: int| 0 <= i < width * height ==> fb.buffer@[i] == black(),
    {
        let n = width * height;
        let mut buffer: Vec<Color> = Vec::new();
        let mut i: usize = 0;
        while i < n
            invariant
                i <= n,
                buffer@.len() == i,
                forall|j: int| 0 <= j < i ==> buffer@[j] == black(),
            decreases n - i,
        {
            buffer.push(Color::new(0, 0, 0));
            i = i + 1;
        }
        FrameBuffer {
            width,
            height,
            buffer,
            current_color: Color::new(255, 255, 255),
            background_color: Color::new(0, 0, 0),
        }
    }

    /// Sets the color that subsequent `point` calls draw with.
    pub fn set_current_color(&mut self, c: Color)
        ensures
            final(self).width == old(self).width,
            final(self).height == old(self).height,
            final(self).buffer@ == old(self).buffer@,
            final(self).background_color == old(self).background_color,
            final(self).current_color == c,
    {
        self.current_color = c;
    }

    /// Sets the color that `clear` fills with.
    pub fn set_background_color(&mut self, c: Color)
        ensures
            final(self).width == old(self).width,
            final(self).height == old(self).height,
            final(self).buffer@ == old(self).buffer@,
            final(self).current_color == old(self).current_color,
            final(self).background_color == c,
    {
        self.background_color = c;
    }

    /// Resets every pixel to the background color.
    pub fn clear(&mut self)
        requires
            old(self).wf(),
        ensures
            final(self).wf(),
            final(self).width == old(self).width,
            final(self).height == old(self).height,
            final(self).current_color == old(self).current_color,
            final(self).background_color == old(self).background_color,
            final(self).buffer@.len() == old(self).buffer@.len(),
            forall|i: int|
                0 <= i < final(self).buffer@.len() ==> final(self).buffer@[i] == old(
                    self,
                ).background_color,
    {
        let n = self.buffer.len();
        let mut i: usize = 0;
        while i < n
            invariant
                i <= n,
                self.buffer@.len() == n,
                self.width == old(self).width,
                self.height == old(self).height,
                self.current_color == old(self).current_color,
                self.background_color == old(self).background_color,
                old(self).wf(),
                forall|j: int| 0 <= j < i ==> self.buffer@[j] == old(self).background_color,
            decreases n - i,
        {
            let c = self.background_color;
            self.buffer[i] = c;
            i = i + 1;
        }
    }

    /// Writes the current drawing color into the pixel at column `x`, row
    /// `y` if it lies inside the buffer; a point outside the buffer is
    /// silently ignored.
    pub fn point(&mut self, x: usize, y: usize)
        requires
            old(self).wf(),
        ensures
            final(self).wf(),
            final(self).width == old(self).width,
            final(self).height == old(self).height,
            final(self).current_color == old(self).current_color,
            final(self).background_color == old(self).background_color,
            x < old(self).width && y < old(self).height ==> final(self).buffer@ == old(
                self,
            ).buffer@.update(y * old(self).width + x, old(self).current_color),
            !(x < old(self).width && y < old(self).height) ==> final(self).buffer@ == old(
                self,
            ).buffer@,
    {
        if x < self.width && y < self.height {
            let _len = self.buffer.len();
            proof {
                lemma_cell_index_bound(self.width as int, self.height as int, x as int, y as int);
            }
            let i = y * self.width + x;
            let c = self.current_color;
            self.buffer[i] = c;
        }
    }

    /// The color of the pixel at column `x`, row `y`.
    pub fn pixel(&self, x: usize, y: usize) -> (c: Color)
        requires
            self.wf(),
            x < self.width,
            y < self.height,
        ensures
            c == self.pixel_at(x as int, y as int),
    {
        let _len = self.buffer.len();
        proof {
            lemma_cell_index_bound(self.width as int, self.height as int, x as int, y as int);
        }
        self.buffer[y * self.width + x]
    }

    /// The whole buffer as packed 32-bit pixel values in row-major order,
    /// ready to hand to a presentation sink.
    pub fn packed_buffer(&self) -> (out: Vec<u32>)
        requires
            self.wf(),
        ensures
            out@.len() == self.buffer@.len(),
            forall|i: int| 0 <= i < out@.len() ==> out@[i] == packed(self.buffer@[i]),
    {
        let n = self.buffer.len();
        let mut out: Vec<u32> = Vec::new();
        let mut i: usize = 0;
        while i < n
            invariant
                i <= n,
                n == self.buffer@.len(),
                out@.len() == i,
                forall|j: int| 0 <= j < i ==> out@[j] == packed(self.buffer@[j]),
            decreases n - i,
        {
            out.push(self.buffer[i].to_packed());
            i = i + 1;
        }
        out
    }
}

} // verus!
