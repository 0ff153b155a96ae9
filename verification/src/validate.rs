//! The entry geometry validator: the one place externally supplied geometry
//! is bounds-checked before it can enter the data model. Decoding a
//! persisted pack never passes through here; assembling a page from
//! user-supplied records always does.
use vstd::prelude::*;

use crate::bitmap::Bitmap;
use crate::model::{Entry, EntryView};

verus! {

/// An explicit untrimmed-canvas frame supplied with an entry definition.
#[derive(Debug, Clone, Copy, PartialEq, Eq)]
pub struct EntryFrame {
    pub x_offset: u32,
    pub y_offset: u32,
    pub total_width: u32,
    pub total_height: u32,
}

/// Rejection of an externally supplied entry definition, naming the
/// offending entry and the offending dimensions.
#[derive(Debug, Clone, PartialEq)]
pub enum ValidateError {
    /// The packed rectangle is empty or does not fit inside the atlas.
    SubImageTooBig {
        name: Vec<u8>,
        width: u32,
        height: u32,
        atlas_width: u32,
        atlas_height: u32,
    },
    /// The frame is empty or smaller than the packed size allows.
    FrameTooSmall {
        name: Vec<u8>,
        frame_width: u32,
        frame_height: u32,
        width: u32,
        height: u32,
    },
}

/// The frame an entry definition gets when none is supplied: no padding.
pub open spec fn frame_or_default(frame: Option<EntryFrame>, width: u32, height: u32) -> EntryFrame {
    match frame {
        Some(f) => f,
        None => EntryFrame { x_offset: 0, y_offset: 0, total_width: width, total_height: height },
    }
}

/// The packed rectangle is rejected: empty in either axis, or reaching past
/// the atlas in either axis. A rectangle that ends exactly at the atlas
/// boundary is accepted.
pub open spec fn sub_image_rejected(
    x_pos: u32,
    y_pos: u32,
    width: u32,
    height: u32,
    atlas_width: u32,
    atlas_height: u32,
) -> bool {
    ||| width == 0
    ||| height == 0
    ||| x_pos + width > atlas_width
    ||| y_pos + height > atlas_height
}

/// The frame is rejected: empty in either axis, or the packed size exceeds
/// the frame offset plus the frame size in either axis.
pub open spec fn frame_rejected(width: u32, height: u32, f: EntryFrame) -> bool {
    ||| f.total_width == 0
    ||| f.total_height == 0
    ||| width > f.x_offset + f.total_width
    ||| height > f.y_offset + f.total_height
}

/// Validates one externally supplied entry definition against the atlas
/// bitmap it would crop from. A missing frame defaults to no padding; the
/// packed rectangle is checked against the atlas first, then the packed
/// size against the frame.
pub fn validate_entry(
    name: Vec<u8>,
    x_pos: u32,
    y_pos: u32,
    width: u32,
    height: u32,
    frame: Option<EntryFrame>,
    image: &Bitmap,
) -> (r: Result<Entry, ValidateError>)
    ensures
        ({
            let f = frame_or_default(frame, width, height);
            let sub_rej = sub_image_rejected(x_pos, y_pos, width, height, image.width, image.height);
            let frm_rej = frame_rejected(width, height, f);
            match r {
                Ok(e) => {
                    &&& !sub_rej
                    &&& !frm_rej
                    &&& e@ == (EntryView {
                        name: name@,
                        x_pos,
                        y_pos,
                        width,
                        height,
                        x_offset: f.x_offset,
                        y_offset: f.y_offset,
                        total_width: f.total_width,
                        total_height: f.total_height,
                    })
                },
                Err(ValidateError::SubImageTooBig {
                    name: n,
                    width: w,
                    height: h,
                    atlas_width,
                    atlas_height,
                }) => {
                    &&& sub_rej
                    &&& n@ == name@
                    &&& w == width
                    &&& h == height
                    &&& atlas_width == image.width
                    &&& atlas_height == image.height
                },
                Err(ValidateError::FrameTooSmall {
                    name: n,
                    frame_width,
                    frame_height,
                    width: w,
                    height: h,
                }) => {
                    &&& !sub_rej
                    &&& frm_rej
                    &&& n@ == name@
                    &&& frame_width == f.total_width
                    &&& frame_height == f.total_height
                    &&& w == width
                    &&& h == height
                },
            }
        }),
{
    let f = match frame {
        Some(f) => f,
        None => EntryFrame { x_offset: 0, y_offset: 0, total_width: width, total_height: height },
    };
    if width == 0 || height == 0 || x_pos as u64 + width as u64 > image.width as u64 || y_pos
        as u64 + height as u64 > image.height as u64 {
        return Err(ValidateError::SubImageTooBig {
            name,
            width,
            height,
            atlas_width: image.width,
            atlas_height: image.height,
        });
    }
    if f.total_width == 0 || f.total_height == 0 || width as u64 > f.x_offset as u64
        + f.total_width as u64 || height as u64 > f.y_offset as u64 + f.total_height as u64 {
        return Err(ValidateError::FrameTooSmall {
            name,
            frame_width: f.total_width,
            frame_height: f.total_height,
            width,
            height,
        });
    }
    Ok(
        Entry {
            name,
            x_pos,
            y_pos,
            width,
            height,
            x_offset: f.x_offset,
            y_offset: f.y_offset,
            total_width: f.total_width,
            total_height: f.total_height,
        },
    )
}

} // verus!
