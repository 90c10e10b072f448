use vstd::prelude::*;

verus! {

/// Widths and heights stay below this.
pub const RESOLUTION_LIMIT: usize = 65536;

/// Depth of a cleared pixel: farther than any fragment, standing for infinity.
pub const DEPTH_CLEAR: u32 = 0xFFFF_FFFF;

/// A colour buffer of packed pixels and a depth buffer, both row-major with
/// `width * height` entries; pixel `(i, j)` sits at index `i + j * width`.
pub struct Surface {
    width: usize,
    height: usize,
    colour_buffer: Vec<u32>,
    depth_buffer: Vec<u32>,
}

impl Surface {
    pub closed spec fn spec_width(&self) -> nat {
        self.width as nat
    }

    pub closed spec fn spec_height(&self) -> nat {
        self.height as nat
    }

    /// The colour buffer.
    pub closed spec fn colours(&self) -> Seq<u32> {
        self.colour_buffer@
    }

    /// The depth buffer.
    pub closed spec fn depths(&self) -> Seq<u32> {
        self.depth_buffer@
    }

    pub open spec fn wf(&self) -> bool {
        &&& self.spec_width() < RESOLUTION_LIMIT
        &&& self.spec_height() < RESOLUTION_LIMIT
        &&& self.colours().len() == self.spec_width() * self.spec_height()
        &&& self.depths().len() == self.spec_width() * self.spec_height()
    }

    /// A surface of the given size, black and with every depth cleared.
    pub fn new(width: usize, height: usize) -> (r: Surface)
        requires
            width < RESOLUTION_LIMIT,
            height < RESOLUTION_LIMIT,
        ensures
            r.wf(),
            r.spec_width() == width,
            r.spec_height() == height,
            r.colours() == Seq::new((width * height) as nat, |i: int| 0u32),
            r.depths() == Seq::new((width * height) as nat, |i: int| DEPTH_CLEAR),
    {
        assert(width * height < 0x1_0000_0000) by (nonlinear_arith)
            requires
                width < 65536,
                height < 65536,
        ;
        let n = width * height;
        let mut colour_buffer: Vec<u32> = Vec::new();
        let mut depth_buffer: Vec<u32> = Vec::new();
        let mut i: usize = 0;
        while i < n
            invariant
                i <= n,
                colour_buffer@ == Seq::new(i as nat, |k: int| 0u32),
                depth_buffer@ == Seq::new(i as nat, |k: int| DEPTH_CLEAR),
            decreases n - i,
        {
            colour_buffer.push(0);
            depth_buffer.push(DEPTH_CLEAR);
            i += 1;
            assert(colour_buffer@ =~= Seq::new(i as nat, |k: int| 0u32));
            assert(depth_buffer@ =~= Seq::new(i as nat, |k: int| DEPTH_CLEAR));
        }
        Surface { width, height, colour_buffer, depth_buffer }
    }

    pub fn get_width(&self) -> (r: usize)
        ensures
            r == self.spec_width(),
    {
        self.width
    }

    pub fn get_height(&self) -> (r: usize)
        ensures
            r == self.spec_height(),
    {
        self.height
    }

    /// Sets every pixel to `colour` and every depth to `depth_value`.
    pub fn clear(&mut self, colour: u32, depth_value: u32)
        requires
            old(self).wf(),
        ensures
            final(self).wf(),
            final(self).spec_width() == old(self).spec_width(),
            final(self).spec_height() == old(self).spec_height(),
            final(self).colours() == Seq::new(old(self).colours().len(), |i: int| colour),
            final(self).depths() == Seq::new(old(self).depths().len(), |i: int| depth_value),
    {
        let n = self.colour_buffer.len();
        let mut i: usize = 0;
        while i < n
            invariant
                n == self.colour_buffer.len(),
                n == self.depth_buffer.len(),
                n == old(self).colours().len(),
                self.width == old(self).width,
                self.height == old(self).height,
                i <= n,
                forall|k: int| 0 <= k < i ==> self.colour_buffer@[k] == colour,
                forall|k: int| 0 <= k < i ==> self.depth_buffer@[k] == depth_value,
            decreases n - i,
        {
            self.colour_buffer.set(i, colour);
            self.depth_buffer.set(i, depth_value);
            i += 1;
        }
        assert(self.colour_buffer@ =~= Seq::new(n as nat, |k: int| colour));
        assert(self.depth_buffer@ =~= Seq::new(n as nat, |k: int| depth_value));
    }

    /// The colour of pixel `(i, j)`.
    pub fn get_pixel(&self, i: usize, j: usize) -> (r: u32)
        requires
            self.wf(),
            i < self.spec_width(),
            j < self.spec_height(),
        ensures
            r == self.colours()[i + j * self.spec_width()],
    {
        proof {
            lemma_pixel_index(i as int, j as int, self.width as int, self.height as int);
        }
        self.colour_buffer[i + j * self.width]
    }

    /// Sets the colour of pixel `(i, j)`.
    pub fn set_pixel_coords(&mut self, colour: u32, i: usize, j: usize)
        requires
            old(self).wf(),
            i < old(self).spec_width(),
            j < old(self).spec_height(),
        ensures
            final(self).wf(),
            final(self).spec_width() == old(self).spec_width(),
            final(self).spec_height() == old(self).spec_height(),
            final(self).colours() == old(self).colours().update(
                i + j * old(self).spec_width(),
                colour,
            ),
            final(self).depths() == old(self).depths(),
    {
        proof {
            lemma_pixel_index(i as int, j as int, self.width as int, self.height as int);
        }
        let index = i + j * self.width;
        self.colour_buffer.set(index, colour);
    }

    /// Sets the colour at a linear index.
    pub fn set_pixel_index(&mut self, colour: u32, index: usize)
        requires
            old(self).wf(),
            index < old(self).colours().len(),
        ensures
            final(self).wf(),
            final(self).spec_width() == old(self).spec_width(),
            final(self).spec_height() == old(self).spec_height(),
            final(self).colours() == old(self).colours().update(index as int, colour),
            final(self).depths() == old(self).depths(),
    {
        self.colour_buffer.set(index, colour);
    }

    /// The depth at a linear index.
    pub fn get_depth(&self, index: usize) -> (r: u32)
        requires
            index < self.depths().len(),
        ensures
            r == self.depths()[index as int],
    {
        self.depth_buffer[index]
    }

    /// Sets the depth at a linear index.
    pub fn set_depth(&mut self, index: usize, value: u32)
        requires
            old(self).wf(),
            index < old(self).depths().len(),
        ensures
            final(self).wf(),
            final(self).spec_width() == old(self).spec_width(),
            final(self).spec_height() == old(self).spec_height(),
            final(self).colours() == old(self).colours(),
            final(self).depths() == old(self).depths().update(index as int, value),
    {
        self.depth_buffer.set(index, value);
    }

    /// The colour buffer, for presentation.
    pub fn data(&self) -> (r: &[u32])
        ensures
            r@ == self.colours(),
    {
        self.colour_buffer.as_slice()
    }

    /// The number of pixels.
    pub fn len(&self) -> (r: usize)
        requires
            self.wf(),
        ensures
            r == self.spec_width() * self.spec_height(),
    {
        self.colour_buffer.len()
    }

    /// The distance in entries between vertically adjacent pixels.
    pub fn stride(&self) -> (r: usize)
        ensures
            r == self.spec_width(),
    {
        self.width
    }
}

/// The linear index of an in-bounds pixel is in bounds.
pub proof fn lemma_pixel_index(i: int, j: int, width: int, height: int)
    requires
        0 <= i < width,
        0 <= j < height,
        width < 65536,
        height < 65536,
    ensures
        0 <= j * width <= i + j * width < width * height < 0x1_0000_0000,
{
    assert(0 <= j * width <= i + j * width < width * height < 0x1_0000_0000)
        by (nonlinear_arith)
        requires
            0 <= i < width,
            0 <= j < height,
            width < 65536,
            height < 65536,
    ;
}

} // verus!
