//! The atlas compositor: rebuilding one sprite's padded bitmap from its
//! packed rectangle inside the owning atlas. The output canvas has the
//! entry's frame size, is fully transparent outside the copied rectangle,
//! and carries the atlas pixels inside it.
use vstd::prelude::*;

use crate::bitmap::{Bitmap, BitmapView};
use crate::model::{Entry, EntryView, Page};

verus! {

/// Channel `c` of the composed sprite's pixel at `(px, py)`: the atlas pixel
/// the frame places there, or a fully transparent zero byte outside the
/// copied rectangle.
pub open spec fn composed_byte(e: EntryView, atlas: BitmapView, px: int, py: int, c: int) -> u8 {
    if e.x_offset <= px < e.x_offset + e.width && e.y_offset <= py < e.y_offset + e.height {
        atlas.byte_at(e.x_pos + px - e.x_offset, e.y_pos + py - e.y_offset, c)
    } else {
        0u8
    }
}

/// The byte at flat index `j` of the composed sprite's buffer.
pub open spec fn composed_at(e: EntryView, atlas: BitmapView, j: int) -> u8 {
    let pix = j / 4;
    let c = j % 4;
    composed_byte(e, atlas, pix % (e.total_width as int), pix / (e.total_width as int), c)
}

/// The bitmap that composing `e` over `atlas` produces.
pub open spec fn composed_view(e: EntryView, atlas: BitmapView) -> BitmapView {
    BitmapView {
        width: e.total_width,
        height: e.total_height,
        data: Seq::new((4 * e.total_width * e.total_height) as nat, |j: int| composed_at(e, atlas, j)),
    }
}

impl Entry {
    /// Composes this entry's standalone sprite bitmap from its owning atlas:
    /// a canvas of the frame size, transparent everywhere except the packed
    /// rectangle copied from the atlas at the frame offset.
    #[verifier::rlimit(100)]
    #[verifier::spinoff_prover]
    #[verifier::loop_isolation(false)]
    pub fn get_image(&self, base: &Bitmap) -> (r: Bitmap)
        requires
            base@.wf(),
            self@.valid_for(base@.width, base@.height),
            4 * self@.total_width * self@.total_height <= usize::MAX,
        ensures
            r@ == composed_view(self@, base@),
            r@.wf(),
            r@.width == self@.total_width,
            r@.height == self@.total_height,
            forall|px: int, py: int, c: int|
                0 <= px < self@.total_width && 0 <= py < self@.total_height && 0 <= c < 4
                    ==> #[trigger] r@.byte_at(px, py, c) == composed_byte(self@, base@, px, py, c),
    {
        let tw = self.total_width;
        let th = self.total_height;
        let atlas_len = base.data.len();
        proof {
            assert(base@.data.len() == atlas_len as int);
        }
        let mut data: Vec<u8> = Vec::new();
        let mut py: u32 = 0;
        while py < th
            invariant
                py <= th,
                data@.len() == 4 * (py * tw),
                forall|j: int| 0 <= j < data@.len() ==> data@[j] == composed_at(self@, base@, j),
            decreases th - py,
        {
            let mut px: u32 = 0;
            while px < tw
                invariant
                    py < th,
                    px <= tw,
                    data@.len() == 4 * (py * tw) + 4 * px,
                    forall|j: int|
                        0 <= j < data@.len() ==> data@[j] == composed_at(self@, base@, j),
                decreases tw - px,
            {
                let inside = px >= self.x_offset && px < self.x_offset + self.width && py
                    >= self.y_offset && py < self.y_offset + self.height;
                let mut c: usize = 0;
                while c < 4
                    invariant
                        py < th,
                        px < tw,
                        c <= 4,
                        inside == (self@.x_offset <= px < self@.x_offset + self@.width
                            && self@.y_offset <= py < self@.y_offset + self@.height),
                        data@.len() == 4 * (py * tw) + 4 * px + c,
                        forall|j: int|
                            0 <= j < data@.len() ==> data@[j] == composed_at(self@, base@, j),
                    decreases 4 - c,
                {
                    let byte: u8 = if inside {
                        let ax = self.x_pos + (px - self.x_offset);
                        let ay = self.y_pos + (py - self.y_offset);
                        proof {
                            assert(4 * (ay * base@.width + ax) + c < 4 * base@.width
                                * base@.height) by (nonlinear_arith)
                                requires
                                    0 <= ay < base@.height,
                                    0 <= ax < base@.width,
                                    0 <= c < 4,
                            ;
                        }
                        let idx = 4 * ((ay as usize) * (base.width as usize) + (ax as usize)) + c;
                        base.data[idx]
                    } else {
                        0
                    };
                    data.push(byte);
                    proof {
                        let j = 4 * (py * tw) + 4 * px + c;
                        let pix = py * tw + px;
                        assert(j / 4 == pix && j % 4 == c) by (nonlinear_arith)
                            requires
                                j == 4 * pix + c,
                                0 <= c < 4,
                                0 <= pix,
                        ;
                        assert(pix / (tw as int) == py && pix % (tw as int) == px)
                            by (nonlinear_arith)
                            requires
                                pix == py * tw + px,
                                0 <= px < tw,
                                0 <= py,
                        ;
                        assert(data@[j] == composed_at(self@, base@, j));
                    }
                    c = c + 1;
                }
                px = px + 1;
            }
            proof {
                assert(4 * ((py + 1) * tw) == 4 * (py * tw) + 4 * tw) by (nonlinear_arith);
            }
            py = py + 1;
        }
        proof {
            assert(data@.len() == 4 * tw * th && data@.len() == 4 * (tw * th))
                by (nonlinear_arith)
                requires
                    data@.len() == 4 * ((th as int) * (tw as int)),
            ;
        }
        let r = Bitmap { width: tw, height: th, data };
        proof {
            assert(r@.data =~= composed_view(self@, base@).data);
            assert(r@ =~= composed_view(self@, base@));
            assert forall|px: int, py: int, c: int|
                0 <= px < self@.total_width && 0 <= py < self@.total_height && 0 <= c
                    < 4 implies #[trigger] r@.byte_at(px, py, c) == composed_byte(
                self@,
                base@,
                px,
                py,
                c,
            ) by {
                let j = 4 * (py * tw + px) + c;
                let pix = py * tw + px;
                assert(0 <= pix && j < 4 * tw * th) by (nonlinear_arith)
                    requires
                        j == 4 * pix + c,
                        pix == py * tw + px,
                        0 <= py < th,
                        0 <= px < tw,
                        0 <= c < 4,
                ;
                assert(j / 4 == pix && j % 4 == c) by (nonlinear_arith)
                    requires
                        j == 4 * pix + c,
                        0 <= c < 4,
                        0 <= pix,
                ;
                assert(pix / (tw as int) == py && pix % (tw as int) == px) by (nonlinear_arith)
                    requires
                        pix == py * tw + px,
                        0 <= px < tw,
                        0 <= py,
                ;
                assert(r@.byte_at(px, py, c) == r@.data[j]);
            }
        }
        r
    }
}

impl Page {
    /// Composes the sprite bitmap of the entry at `index`, if the index is
    /// in range. Geometry validity against this page's own bitmap is the
    /// caller's precondition, established once by the validator.
    pub fn get_entry_image(&self, index: usize) -> (r: Option<Bitmap>)
        requires
            self@.image.wf(),
            index < self@.entries.len() ==> {
                &&& self@.entries[index as int].valid_for(self@.image.width, self@.image.height)
                &&& 4 * self@.entries[index as int].total_width
                    * self@.entries[index as int].total_height <= usize::MAX
            },
        ensures
            match r {
                Some(b) => {
                    &&& index < self@.entries.len()
                    &&& b@ == composed_view(self@.entries[index as int], self@.image)
                },
                None => index >= self@.entries.len(),
            },
    {
        if index < self.entries.len() {
            proof {
                assert(self@.entries[index as int] == self.entries@[index as int]@);
            }
            Some(self.entries[index].get_image(&self.image))
        } else {
            None
        }
    }
}

} // verus!
