//! An owned RGBA bitmap: a contiguous pixel buffer with explicit dimensions,
//! four 8-bit channels per pixel, rows stored top to bottom.
use vstd::prelude::*;

verus! {

/// Mathematical model of a [`Bitmap`]: dimensions plus the flat byte buffer.
#[verifier::ext_equal]
pub ghost struct BitmapView {
    pub width: u32,
    pub height: u32,
    pub data: Seq<u8>,
}

impl BitmapView {
    /// The buffer holds exactly four bytes per pixel.
    pub open spec fn wf(self) -> bool {
        self.data.len() == 4 * self.width * self.height
    }

    /// Channel `c` (0..4) of the pixel at column `px`, row `py`.
    pub open spec fn byte_at(self, px: int, py: int, c: int) -> u8 {
        self.data[4 * (py * self.width + px) + c]
    }
}

/// An owned RGBA bitmap with 8 bits per channel.
#[derive(Debug, Clone, PartialEq)]
pub struct Bitmap {
    pub width: u32,
    pub height: u32,
    pub data: Vec<u8>,
}

impl View for Bitmap {
    type V = BitmapView;

    open spec fn view(&self) -> BitmapView {
        BitmapView { width: self.width, height: self.height, data: self.data@ }
    }
}

impl Bitmap {
    /// Builds a bitmap from its dimensions and raw RGBA bytes; rejects a
    /// buffer whose length does not match the dimensions.
    pub fn from_raw(width: u32, height: u32, data: Vec<u8>) -> (r: Option<Bitmap>)
        ensures
            match r {
                Some(b) => {
                    &&& b@ == (BitmapView { width, height, data: data@ })
                    &&& b@.wf()
                },
                None => data@.len() != 4 * width * height,
            },
    {
        proof {
            assert((width as u128) * (height as u128) < 0x1_0000_0000_0000_0000u128)
                by (nonlinear_arith)
                requires
                    width < 0x1_0000_0000u128,
                    height < 0x1_0000_0000u128,
            ;
        }
        let pixels: u128 = (width as u128) * (height as u128);
        let n: usize = data.len();
        proof {
            assert((n as u128 == 4 * pixels) == (n == 4 * width * height))
                by (nonlinear_arith)
                requires
                    pixels == (width as u128) * (height as u128),
                    n <= usize::MAX,
            ;
        }
        if n as u128 == 4 * pixels {
            let b = Bitmap { width, height, data };
            proof {
                assert(b@ =~= (BitmapView { width, height, data: b.data@ }));
            }
            Some(b)
        } else {
            None
        }
    }
}

} // verus!
