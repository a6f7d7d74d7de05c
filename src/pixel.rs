use vstd::prelude::*;

verus! {

/// One decoded frame: packed, row-major, three bytes (R, G, B) per pixel.
pub struct PixelBuffer {
    width: u32,
    height: u32,
    data: Vec<u8>,
}

/// Byte length of a packed RGB buffer of the given size.
pub open spec fn rgb_len(width: int, height: int) -> int {
    width * height * 3
}

impl View for PixelBuffer {
    type V = (u32, u32, Seq<u8>);

    closed spec fn view(&self) -> (u32, u32, Seq<u8>) {
        (self.width, self.height, self.data@)
    }
}

impl PixelBuffer {
    #[verifier::type_invariant]
    spec fn inv(&self) -> bool {
        self.data@.len() == rgb_len(self.width as int, self.height as int)
    }

    /// The length of the data always matches the dimensions.
    pub open spec fn wf(&self) -> bool {
        self@.2.len() == rgb_len(self@.0 as int, self@.1 as int)
    }

    /// Wraps packed RGB bytes; fails when their length does not match the size.
    pub fn from_raw(width: u32, height: u32, data: Vec<u8>) -> (r: Option<PixelBuffer>)
        ensures
            r is Some <==> data@.len() == rgb_len(width as int, height as int),
            r matches Some(b) ==> b@ == (width, height, data@) && b.wf(),
    {
        let len: usize = data.len();
        let w: u64 = width as u64;
        let h: u64 = height as u64;
        assert(w * h <= 0xffff_ffff * 0xffff_ffffu64) by (nonlinear_arith)
            requires w <= 0xffff_ffff, h <= 0xffff_ffff;
        let area: u64 = w * h;
        if area > u64::MAX / 3 {
            return None;
        }
        let n: u64 = area * 3;
        if n > usize::MAX as u64 || len != n as usize {
            None
        } else {
            Some(PixelBuffer { width, height, data })
        }
    }

    pub fn width(&self) -> (r: u32)
        ensures
            r == self@.0,
            self.wf(),
    {
        proof { use_type_invariant(self); }
        self.width
    }

    pub fn height(&self) -> (r: u32)
        ensures
            r == self@.1,
            self.wf(),
    {
        proof { use_type_invariant(self); }
        self.height
    }

    pub fn data(&self) -> (r: &Vec<u8>)
        ensures
            r@ == self@.2,
            self.wf(),
    {
        proof { use_type_invariant(self); }
        &self.data
    }

    /// Hands the packed bytes over to the caller.
    pub fn into_raw(self) -> (r: Vec<u8>)
        ensures
            r@ == self@.2,
    {
        self.data
    }

    /// A separate buffer with the same size and bytes.
    pub fn duplicate(&self) -> (r: PixelBuffer)
        ensures
            r@ == self@,
            self.wf(),
    {
        proof { use_type_invariant(self); }
        let mut data: Vec<u8> = Vec::with_capacity(self.data.len());
        let mut i: usize = 0;
        while i < self.data.len()
            invariant
                i <= self.data@.len(),
                data@ == self.data@.subrange(0, i as int),
            decreases self.data@.len() - i,
        {
            data.push(self.data[i]);
            i += 1;
            assert(data@ =~= self.data@.subrange(0, i as int));
        }
        assert(data@ =~= self.data@);
        PixelBuffer { width: self.width, height: self.height, data }
    }
}

} // verus!
