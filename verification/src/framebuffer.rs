//! The colour buffer with its depth buffer.

use vstd::prelude::*;

verus! {

/// The depth that a cleared pixel holds: greater than every depth that can
/// win a depth test.
pub const FAR: i32 = 0x7FFF_FFFF;

/// The colour that a new framebuffer draws with.
pub const WHITE: u32 = 0xFF_FFFF;

/// What a framebuffer holds: `colors` and `depths` are laid out row by row,
/// `width` entries to a row.
pub struct Surface {
    pub width: nat,
    pub height: nat,
    pub colors: Seq<u32>,
    pub depths: Seq<i32>,
    pub background: u32,
    pub current: u32,
}

impl Surface {
    /// Both buffers have one entry per pixel.
    pub open spec fn well_formed(self) -> bool {
        &&& self.colors.len() == self.width * self.height
        &&& self.depths.len() == self.width * self.height
    }

    /// The place of pixel `(x, y)` in the buffers.
    pub open spec fn index_of(self, x: int, y: int) -> int {
        y * self.width + x
    }

    /// A surface of the given size in its first state: black everywhere,
    /// nothing drawn, white as the colour to draw with.
    pub open spec fn blank(width: nat, height: nat) -> Surface {
        Surface {
            width,
            height,
            colors: Seq::new(width * height, |i: int| 0u32),
            depths: Seq::new(width * height, |i: int| FAR),
            background: 0,
            current: WHITE,
        }
    }

    /// Every pixel set to the background colour, every depth to `FAR`.
    pub open spec fn cleared(self) -> Surface {
        Surface {
            colors: Seq::new(self.colors.len(), |i: int| self.background),
            depths: Seq::new(self.depths.len(), |i: int| FAR),
            ..self
        }
    }

    pub open spec fn with_background(self, color: u32) -> Surface {
        Surface { background: color, ..self }
    }

    pub open spec fn with_current(self, color: u32) -> Surface {
        Surface { current: color, ..self }
    }

    /// The depth-tested write of the current colour at `(x, y)`: it lands
    /// where `depth` is strictly less than the depth stored there, and else
    /// changes nothing.
    pub open spec fn plotted(self, x: int, y: int, depth: i32) -> Surface {
        let i = self.index_of(x, y);
        if depth < self.depths[i] {
            Surface {
                colors: self.colors.update(i, self.current),
                depths: self.depths.update(i, depth),
                ..self
            }
        } else {
            self
        }
    }

    /// One draw: set the current colour, then write the point.
    pub open spec fn drawn(self, color: u32, x: int, y: int, depth: i32) -> Surface {
        self.with_current(color).plotted(x, y, depth)
    }
}

/// A target of `width` by `height` pixels with a depth buffer.
pub struct Framebuffer {
    width: usize,
    height: usize,
    buffer: Vec<u32>,
    zbuffer: Vec<i32>,
    background_color: u32,
    current_color: u32,
}

impl View for Framebuffer {
    type V = Surface;

    closed spec fn view(&self) -> Surface {
        Surface {
            width: self.width as nat,
            height: self.height as nat,
            colors: self.buffer@,
            depths: self.zbuffer@,
            background: self.background_color,
            current: self.current_color,
        }
    }
}

impl Framebuffer {
    #[verifier::type_invariant]
    spec fn inv(self) -> bool {
        &&& self.width * self.height <= usize::MAX
        &&& self.buffer@.len() == self.width * self.height
        &&& self.zbuffer@.len() == self.width * self.height
    }

    /// Makes a black framebuffer on which nothing is drawn yet.
    pub fn new(width: usize, height: usize) -> (fb: Framebuffer)
        requires
            width * height <= usize::MAX,
        ensures
            fb@ == Surface::blank(width as nat, height as nat),
            fb@.well_formed(),
    {
        let n: usize = width * height;
        let buffer = filled_colors(n, 0);
        let zbuffer = filled_depths(n, FAR);
        let fb = Framebuffer {
            width,
            height,
            buffer,
            zbuffer,
            background_color: 0,
            current_color: WHITE,
        };
        assert(fb@.colors =~= Surface::blank(width as nat, height as nat).colors);
        assert(fb@.depths =~= Surface::blank(width as nat, height as nat).depths);
        fb
    }

    pub fn width(&self) -> (w: usize)
        ensures
            w == self@.width,
            self@.well_formed(),
    {
        proof {
            use_type_invariant(self);
        }
        self.width
    }

    pub fn height(&self) -> (h: usize)
        ensures
            h == self@.height,
            self@.well_formed(),
    {
        proof {
            use_type_invariant(self);
        }
        self.height
    }

    /// The packed pixels, row by row, for display.
    pub fn buffer(&self) -> (pixels: &Vec<u32>)
        ensures
            pixels@ == self@.colors,
            pixels@.len() == self@.width * self@.height,
    {
        proof {
            use_type_invariant(self);
        }
        &self.buffer
    }

    /// The packed colour of pixel `(x, y)`.
    pub fn color_at(&self, x: usize, y: usize) -> (color: u32)
        requires
            x < self@.width,
            y < self@.height,
        ensures
            color == self@.colors[self@.index_of(x as int, y as int)],
    {
        proof {
            use_type_invariant(self);
            lemma_index_in_range(self.width as int, self.height as int, x as int, y as int);
        }
        self.buffer[y * self.width + x]
    }

    /// The depth stored for pixel `(x, y)`.
    pub fn depth_at(&self, x: usize, y: usize) -> (depth: i32)
        requires
            x < self@.width,
            y < self@.height,
        ensures
            depth == self@.depths[self@.index_of(x as int, y as int)],
    {
        proof {
            use_type_invariant(self);
            lemma_index_in_range(self.width as int, self.height as int, x as int, y as int);
        }
        self.zbuffer[y * self.width + x]
    }

    /// Resets every pixel to the background colour and every depth to `FAR`.
    pub fn clear(&mut self)
        ensures
            final(self)@ == old(self)@.cleared(),
            final(self)@.well_formed(),
    {
        proof {
            use_type_invariant(&*self);
        }
        let n: usize = self.buffer.len();
        self.buffer = filled_colors(n, self.background_color);
        self.zbuffer = filled_depths(n, FAR);
        assert(self@.colors =~= old(self)@.cleared().colors);
        assert(self@.depths =~= old(self)@.cleared().depths);
    }

    /// Writes the current colour at `(x, y)` if `depth` is strictly less than
    /// the depth stored there, and records `depth`; else does nothing.
    pub fn point(&mut self, x: usize, y: usize, depth: i32)
        requires
            x < old(self)@.width,
            y < old(self)@.height,
        ensures
            final(self)@ == old(self)@.plotted(x as int, y as int, depth),
            final(self)@.well_formed(),
            forall|i: int|
                0 <= i < old(self)@.depths.len() ==> final(self)@.depths[i] <= old(self)@.depths[i],
    {
        proof {
            use_type_invariant(&*self);
            lemma_index_in_range(self.width as int, self.height as int, x as int, y as int);
        }
        let index: usize = y * self.width + x;
        if self.zbuffer[index] > depth {
            self.buffer[index] = self.current_color;
            self.zbuffer[index] = depth;
        }
    }

    pub fn set_background_color(&mut self, color: u32)
        ensures
            final(self)@ == old(self)@.with_background(color),
    {
        proof {
            use_type_invariant(&*self);
        }
        self.background_color = color;
    }

    /// Sets the colour that the next `point` writes.
    pub fn set_current_color(&mut self, color: u32)
        ensures
            final(self)@ == old(self)@.with_current(color),
    {
        proof {
            use_type_invariant(&*self);
        }
        self.current_color = color;
    }
}

fn filled_colors(n: usize, value: u32) -> (v: Vec<u32>)
    ensures
        v@ == Seq::new(n as nat, |i: int| value),
{
    let mut v: Vec<u32> = Vec::new();
    let mut i: usize = 0;
    while i < n
        invariant
            i <= n,
            v@ == Seq::new(i as nat, |j: int| value),
        decreases n - i,
    {
        v.push(value);
        i = i + 1;
        assert(v@ =~= Seq::new(i as nat, |j: int| value));
    }
    v
}

fn filled_depths(n: usize, value: i32) -> (v: Vec<i32>)
    ensures
        v@ == Seq::new(n as nat, |i: int| value),
{
    let mut v: Vec<i32> = Vec::new();
    let mut i: usize = 0;
    while i < n
        invariant
            i <= n,
            v@ == Seq::new(i as nat, |j: int| value),
        decreases n - i,
    {
        v.push(value);
        i = i + 1;
        assert(v@ =~= Seq::new(i as nat, |j: int| value));
    }
    v
}

/// The nearer of two writes to one pixel wins whatever their order: after
/// drawing `near_color` at depth `near` and `far_color` at a greater depth
/// `far` on a pixel whose stored depth is greater than `near`, the pixel holds
/// `near_color` and `near`.
pub proof fn lemma_nearer_write_wins(
    s: Surface,
    x: int,
    y: int,
    near: i32,
    far: i32,
    near_color: u32,
    far_color: u32,
)
    requires
        s.well_formed(),
        0 <= x < s.width,
        0 <= y < s.height,
        near < far,
        near < s.depths[s.index_of(x, y)],
    ensures
        s.drawn(near_color, x, y, near).drawn(far_color, x, y, far).colors[s.index_of(x, y)]
            == near_color,
        s.drawn(far_color, x, y, far).drawn(near_color, x, y, near).colors[s.index_of(x, y)]
            == near_color,
        s.drawn(near_color, x, y, near).drawn(far_color, x, y, far).depths[s.index_of(x, y)]
            == near,
        s.drawn(far_color, x, y, far).drawn(near_color, x, y, near).depths[s.index_of(x, y)]
            == near,
{
    lemma_index_in_range(s.width as int, s.height as int, x, y);
}

/// A write never raises a stored depth, keeps the size of the surface, and
/// touches no pixel but its own.
pub proof fn lemma_plotted_frame(s: Surface, x: int, y: int, depth: i32)
    requires
        s.well_formed(),
        0 <= x < s.width,
        0 <= y < s.height,
    ensures
        s.plotted(x, y, depth).well_formed(),
        s.plotted(x, y, depth).width == s.width,
        s.plotted(x, y, depth).height == s.height,
        forall|i: int|
            0 <= i < s.depths.len() ==> #[trigger] s.plotted(x, y, depth).depths[i] <= s.depths[i],
        forall|i: int|
            0 <= i < s.colors.len() && i != s.index_of(x, y) ==> #[trigger] s.plotted(
                x,
                y,
                depth,
            ).colors[i] == s.colors[i],
{
    lemma_index_in_range(s.width as int, s.height as int, x, y);
}

/// Pixel `(x, y)` of a `width` by `height` surface has its place inside the
/// buffers, and no other pixel shares it.
pub proof fn lemma_index_in_range(width: int, height: int, x: int, y: int)
    requires
        0 <= x < width,
        0 <= y < height,
    ensures
        0 <= y * width + x < width * height,
        y * width <= y * width + x,
{
    assert(y * width + x < width * height && 0 <= y * width) by (nonlinear_arith)
        requires
            0 <= x < width,
            0 <= y < height,
    ;
}

} // verus!
