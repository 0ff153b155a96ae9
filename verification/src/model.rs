//! The data model: an [`Entry`] records one sprite's packing geometry, a
//! [`Page`] is one named atlas with its entries, and a [`Pack`] is the
//! top-level ordered container of pages.
use vstd::prelude::*;

use crate::bitmap::{Bitmap, BitmapView};

verus! {

/// Mathematical model of an [`Entry`].
#[verifier::ext_equal]
pub ghost struct EntryView {
    pub name: Seq<u8>,
    pub x_pos: u32,
    pub y_pos: u32,
    pub width: u32,
    pub height: u32,
    pub x_offset: u32,
    pub y_offset: u32,
    pub total_width: u32,
    pub total_height: u32,
}

impl EntryView {
    /// The packed rectangle lies inside an atlas of the given dimensions, is
    /// not empty, and fits inside its frame at its offset.
    pub open spec fn valid_for(self, atlas_width: u32, atlas_height: u32) -> bool {
        &&& self.width > 0
        &&& self.height > 0
        &&& self.x_pos + self.width <= atlas_width
        &&& self.y_pos + self.height <= atlas_height
        &&& self.total_width > 0
        &&& self.total_height > 0
        &&& self.x_offset + self.width <= self.total_width
        &&& self.y_offset + self.height <= self.total_height
    }

    /// The name field fits behind a 32-bit length prefix.
    pub open spec fn encodable(self) -> bool {
        self.name.len() <= u32::MAX
    }
}

/// One sprite's packing record within a page: the packed (trimmed) rectangle
/// `pos`/`size` inside the atlas, and the untrimmed canvas `frame_offset`/
/// `frame_size` the rectangle is padded back into. The name is the sprite's
/// identifier, stored as UTF-8 bytes.
#[derive(Debug, Clone, PartialEq)]
pub struct Entry {
    pub name: Vec<u8>,
    pub x_pos: u32,
    pub y_pos: u32,
    pub width: u32,
    pub height: u32,
    pub x_offset: u32,
    pub y_offset: u32,
    pub total_width: u32,
    pub total_height: u32,
}

impl View for Entry {
    type V = EntryView;

    open spec fn view(&self) -> EntryView {
        EntryView {
            name: self.name@,
            x_pos: self.x_pos,
            y_pos: self.y_pos,
            width: self.width,
            height: self.height,
            x_offset: self.x_offset,
            y_offset: self.y_offset,
            total_width: self.total_width,
            total_height: self.total_height,
        }
    }
}

/// The entry list a sequence of entries models.
pub open spec fn entry_views(s: Seq<Entry>) -> Seq<EntryView> {
    Seq::new(s.len(), |i: int| s[i]@)
}

/// Mathematical model of a [`Page`].
#[verifier::ext_equal]
pub ghost struct PageView {
    pub name: Seq<u8>,
    pub mask: i32,
    pub entries: Seq<EntryView>,
    pub image: BitmapView,
}

impl PageView {
    /// Every length that the wire format frames with a 32-bit prefix fits.
    pub open spec fn encodable(self) -> bool {
        &&& self.name.len() <= u32::MAX
        &&& self.entries.len() <= u32::MAX
        &&& forall|i: int| 0 <= i < self.entries.len() ==> (#[trigger] self.entries[i]).encodable()
    }
}

/// One named atlas: its bitmap, a per-page mask integer preserved verbatim,
/// and the ordered entries that crop sprites out of the bitmap.
#[derive(Debug, Clone, PartialEq)]
pub struct Page {
    pub name: Vec<u8>,
    pub mask: i32,
    pub entries: Vec<Entry>,
    pub image: Bitmap,
}

impl View for Page {
    type V = PageView;

    open spec fn view(&self) -> PageView {
        PageView {
            name: self.name@,
            mask: self.mask,
            entries: Seq::new(self.entries@.len(), |i: int| self.entries@[i]@),
            image: self.image@,
        }
    }
}

impl Page {
    /// The mask value a page carries when none is supplied.
    pub const DEFAULT_MASK: i32 = 1;

    /// Combines a name, a validated entry list and a bitmap into a page with
    /// the default mask.
    pub fn new(name: Vec<u8>, entries: Vec<Entry>, image: Bitmap) -> (r: Page)
        ensures
            r@ == (PageView {
                name: name@,
                mask: Page::DEFAULT_MASK,
                entries: Seq::new(entries@.len(), |i: int| entries@[i]@),
                image: image@,
            }),
    {
        Page { name, mask: Page::DEFAULT_MASK, entries, image }
    }
}

/// The page list a sequence of pages models.
pub open spec fn page_views(s: Seq<Page>) -> Seq<PageView> {
    Seq::new(s.len(), |i: int| s[i]@)
}

/// Mathematical model of a [`Pack`].
#[verifier::ext_equal]
pub ghost struct PackView {
    pub mask: i32,
    pub pages: Seq<PageView>,
}

impl PackView {
    /// Every length that the wire format frames with a 32-bit prefix fits.
    pub open spec fn encodable(self) -> bool {
        &&& self.pages.len() <= u32::MAX
        &&& forall|i: int| 0 <= i < self.pages.len() ==> (#[trigger] self.pages[i]).encodable()
    }

    /// Every page's bitmap buffer matches its dimensions.
    pub open spec fn images_wf(self) -> bool {
        forall|i: int| 0 <= i < self.pages.len() ==> (#[trigger] self.pages[i]).image.wf()
    }
}

/// The full contents of a pack file: an ordered list of pages, and a mask
/// integer that only the current wire variant persists.
#[derive(Debug, Clone, PartialEq)]
pub struct Pack {
    pub mask: i32,
    pub pages: Vec<Page>,
}

impl View for Pack {
    type V = PackView;

    open spec fn view(&self) -> PackView {
        PackView {
            mask: self.mask,
            pages: Seq::new(self.pages@.len(), |i: int| self.pages@[i]@),
        }
    }
}

impl Pack {
    /// The mask value a pack carries when the wire variant does not persist
    /// one.
    pub const DEFAULT_MASK: i32 = 1;

    /// Wraps an ordered list of pages into a pack with the default mask.
    pub fn new(pages: Vec<Page>) -> (r: Pack)
        ensures
            r@ == (PackView {
                mask: Pack::DEFAULT_MASK,
                pages: Seq::new(pages@.len(), |i: int| pages@[i]@),
            }),
    {
        Pack { mask: Pack::DEFAULT_MASK, pages }
    }
}

} // verus!
