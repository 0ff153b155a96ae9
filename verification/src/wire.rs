//! The wire format, stated mathematically: what a pack's byte stream is for
//! each format variant, and how a byte stream parses back. The executable
//! codec's contracts are stated against these functions.
use vstd::prelude::*;

use crate::model::{EntryView, PackView, PageView};
use crate::png::{decode_fits, image_decoding_of, png_encoding_of};
use crate::primitive::{
    contains_pattern, i32_le, is_utf8, len_prefixed, parse_buffer, parse_i32, parse_string,
    parse_u32, parse_until, terminator_seq, u32_from, u32_le,
};
use crate::model::Pack;
use crate::{FormatVersion, PackError};

verus! {

/// The four magic bytes `PZPK` that open a current-variant stream.
pub open spec fn magic_seq() -> Seq<u8> {
    seq![0x50u8, 0x5Au8, 0x50u8, 0x4Bu8]
}

/// The fixed-layout body of an entry record: eight little-endian 32-bit
/// integers in wire order.
pub open spec fn entry_fields_enc(e: EntryView) -> Seq<u8> {
    u32_le(e.x_pos) + u32_le(e.y_pos) + u32_le(e.width) + u32_le(e.height) + u32_le(e.x_offset)
        + u32_le(e.y_offset) + u32_le(e.total_width) + u32_le(e.total_height)
}

/// The bytes of one entry record: length-prefixed name, then eight
/// little-endian 32-bit integers in fixed order.
pub open spec fn entry_enc(e: EntryView) -> Seq<u8> {
    len_prefixed(e.name) + entry_fields_enc(e)
}

/// The concatenated records of an entry list, in order.
pub open spec fn entries_enc(s: Seq<EntryView>) -> Seq<u8>
    decreases s.len(),
{
    if s.len() == 0 {
        Seq::empty()
    } else {
        entry_enc(s[0]) + entries_enc(s.drop_first())
    }
}

/// The variant-independent prefix of a page: name, entry count, mask, then
/// the entry records.
pub open spec fn page_header_enc(p: PageView) -> Seq<u8> {
    len_prefixed(p.name) + u32_le(p.entries.len() as u32) + i32_le(p.mask) + entries_enc(p.entries)
}

/// The bytes of one page in the given variant: the legacy variant appends
/// the raw image stream closed by the terminator, the current variant frames
/// it with an explicit length.
pub open spec fn page_enc(v: FormatVersion, p: PageView) -> Seq<u8> {
    match v {
        FormatVersion::V1 => page_header_enc(p) + png_encoding_of(p.image) + terminator_seq(),
        FormatVersion::V2 => page_header_enc(p) + len_prefixed(png_encoding_of(p.image)),
    }
}

/// The concatenated pages of a pack, in order.
pub open spec fn pages_enc(v: FormatVersion, s: Seq<PageView>) -> Seq<u8>
    decreases s.len(),
{
    if s.len() == 0 {
        Seq::empty()
    } else {
        page_enc(v, s[0]) + pages_enc(v, s.drop_first())
    }
}

/// The full byte stream of a pack: the legacy variant is a bare page count
/// followed by pages, the current variant opens with the magic bytes and the
/// container mask.
pub open spec fn pack_enc(v: FormatVersion, p: PackView) -> Seq<u8> {
    match v {
        FormatVersion::V1 => u32_le(p.pages.len() as u32) + pages_enc(v, p.pages),
        FormatVersion::V2 => magic_seq() + i32_le(p.mask) + u32_le(p.pages.len() as u32)
            + pages_enc(v, p.pages),
    }
}

/// Parses one entry record at `pos`.
pub open spec fn parse_entry(b: Seq<u8>, pos: int) -> Result<(EntryView, int), PackError> {
    match parse_string(b, pos) {
        Err(e) => Err(e),
        Ok((name, p1)) => match parse_u32(b, p1) {
            Err(e) => Err(e),
            Ok((x_pos, p2)) => match parse_u32(b, p2) {
                Err(e) => Err(e),
                Ok((y_pos, p3)) => match parse_u32(b, p3) {
                    Err(e) => Err(e),
                    Ok((width, p4)) => match parse_u32(b, p4) {
                        Err(e) => Err(e),
                        Ok((height, p5)) => match parse_u32(b, p5) {
                            Err(e) => Err(e),
                            Ok((x_offset, p6)) => match parse_u32(b, p6) {
                                Err(e) => Err(e),
                                Ok((y_offset, p7)) => match parse_u32(b, p7) {
                                    Err(e) => Err(e),
                                    Ok((total_width, p8)) => match parse_u32(b, p8) {
                                        Err(e) => Err(e),
                                        Ok((total_height, p9)) => Ok((
                                            EntryView {
                                                name,
                                                x_pos,
                                                y_pos,
                                                width,
                                                height,
                                                x_offset,
                                                y_offset,
                                                total_width,
                                                total_height,
                                            },
                                            p9,
                                        )),
                                    },
                                },
                            },
                        },
                    },
                },
            },
        },
    }
}

/// Parses `n` consecutive entry records starting at `pos`.
pub open spec fn parse_entries(b: Seq<u8>, pos: int, n: nat) -> Result<
    (Seq<EntryView>, int),
    PackError,
>
    decreases n,
{
    if n == 0 {
        Ok((Seq::empty(), pos))
    } else {
        match parse_entry(b, pos) {
            Err(e) => Err(e),
            Ok((e0, p)) => match parse_entries(b, p, (n - 1) as nat) {
                Err(e) => Err(e),
                Ok((rest, end)) => Ok((seq![e0] + rest, end)),
            },
        }
    }
}

/// Parses one page at `pos` in the given variant, handing the recovered
/// image byte range to the external image codec.
pub open spec fn parse_page(b: Seq<u8>, pos: int, v: FormatVersion) -> Result<
    (PageView, int),
    PackError,
> {
    match parse_string(b, pos) {
        Err(e) => Err(e),
        Ok((name, p1)) => match parse_u32(b, p1) {
            Err(e) => Err(e),
            Ok((n, p2)) => match parse_i32(b, p2) {
                Err(e) => Err(e),
                Ok((mask, p3)) => match parse_entries(b, p3, n as nat) {
                    Err(e) => Err(e),
                    Ok((entries, p4)) => match (match v {
                        FormatVersion::V1 => parse_until(b, p4, terminator_seq()),
                        FormatVersion::V2 => parse_buffer(b, p4),
                    }) {
                        Err(e) => Err(e),
                        Ok((img_bytes, p5)) => match image_decoding_of(img_bytes) {
                            Err(e) => Err(e),
                            Ok(image) => Ok((PageView { name, mask, entries, image }, p5)),
                        },
                    },
                },
            },
        },
    }
}

/// Parses `n` consecutive pages starting at `pos`.
pub open spec fn parse_pages(b: Seq<u8>, pos: int, n: nat, v: FormatVersion) -> Result<
    (Seq<PageView>, int),
    PackError,
>
    decreases n,
{
    if n == 0 {
        Ok((Seq::empty(), pos))
    } else {
        match parse_page(b, pos, v) {
            Err(e) => Err(e),
            Ok((p0, p)) => match parse_pages(b, p, (n - 1) as nat, v) {
                Err(e) => Err(e),
                Ok((rest, end)) => Ok((seq![p0] + rest, end)),
            },
        }
    }
}

/// Parses the remainder of a current-variant stream, after the magic bytes:
/// container mask, page count, pages.
pub open spec fn parse_pack_current(b: Seq<u8>) -> Result<PackView, PackError> {
    match parse_i32(b, 4) {
        Err(e) => Err(e),
        Ok((mask, p1)) => match parse_u32(b, p1) {
            Err(e) => Err(e),
            Ok((n, p2)) => match parse_pages(b, p2, n as nat, FormatVersion::V2) {
                Err(e) => Err(e),
                Ok((pages, _end)) => Ok(PackView { mask, pages }),
            },
        },
    }
}

/// Parses a legacy-variant stream: a page count from the very first byte,
/// then pages; the container mask is synthesized as the default.
pub open spec fn parse_pack_legacy(b: Seq<u8>) -> Result<PackView, PackError> {
    match parse_u32(b, 0) {
        Err(e) => Err(e),
        Ok((n, p1)) => match parse_pages(b, p1, n as nat, FormatVersion::V1) {
            Err(e) => Err(e),
            Ok((pages, _end)) => Ok(PackView { mask: Pack::DEFAULT_MASK, pages }),
        },
    }
}

/// Parses a pack: the first four bytes select the variant. A stream that
/// opens with the magic bytes is current; any other stream, including one
/// whose first four bytes are a valid page count, is legacy, and those four
/// bytes are re-read as the start of the page count.
pub open spec fn parse_pack(b: Seq<u8>) -> Result<PackView, PackError> {
    if b.len() < 4 {
        Err(PackError::Truncated)
    } else if b.subrange(0, 4) == magic_seq() {
        parse_pack_current(b)
    } else {
        parse_pack_legacy(b)
    }
}

/// Every name a pack would put on the wire is valid UTF-8, so that a decoder
/// accepts it back.
pub open spec fn names_utf8(p: PackView) -> bool {
    forall|i: int|
        0 <= i < p.pages.len() ==> {
            &&& is_utf8((#[trigger] p.pages[i]).name)
            &&& forall|j: int|
                0 <= j < p.pages[i].entries.len() ==> is_utf8(
                    (#[trigger] p.pages[i].entries[j]).name,
                )
        }
}

/// The external image codec decodes each page's encoded image back to the
/// identical bitmap.
pub open spec fn images_lossless(p: PackView) -> bool {
    forall|i: int|
        0 <= i < p.pages.len() ==> image_decoding_of(
            png_encoding_of((#[trigger] p.pages[i]).image),
        ) == Ok::<_, PackError>(p.pages[i].image)
}

/// The external image codec decodes each page's encoded image back to the
/// identical bitmap, for every page whose decoded buffer stays within the
/// decoder's allocation limit. This is what encoding itself can promise;
/// for a pack of such pages it gives [`images_lossless`].
pub open spec fn images_lossless_within_limit(p: PackView) -> bool {
    forall|i: int|
        0 <= i < p.pages.len() ==> (decode_fits((#[trigger] p.pages[i]).image)
            ==> image_decoding_of(png_encoding_of(p.pages[i].image)) == Ok::<_, PackError>(
            p.pages[i].image,
        ))
}

/// One page's image can be encoded in the given variant: the external
/// encoder accepts its dimensions, and in the current variant the encoded
/// stream fits behind a 32-bit length prefix.
pub open spec fn page_encode_ok(v: FormatVersion, pg: PageView) -> bool {
    &&& pg.image.width > 0
    &&& pg.image.height > 0
    &&& (v == FormatVersion::V2 ==> png_encoding_of(pg.image).len() <= u32::MAX)
}

/// Every page of the pack can be encoded in the given variant.
pub open spec fn pages_encode_ok(v: FormatVersion, p: PackView) -> bool {
    forall|i: int| 0 <= i < p.pages.len() ==> page_encode_ok(v, #[trigger] p.pages[i])
}

/// No page's encoded image contains the legacy terminator pattern, so the
/// legacy scan recovers each image byte range exactly.
pub open spec fn images_terminator_free(p: PackView) -> bool {
    forall|i: int|
        0 <= i < p.pages.len() ==> !contains_pattern(
            png_encoding_of((#[trigger] p.pages[i]).image),
            terminator_seq(),
        )
}

/// The page count whose little-endian bytes coincide with the magic bytes;
/// the one legacy stream shape that variant detection cannot tell apart from
/// a current stream.
pub open spec fn magic_as_count() -> u32 {
    u32_from(magic_seq())
}

/// Pins the colliding page count to its numeric value.
pub proof fn lemma_magic_as_count()
    ensures
        magic_as_count() == 0x4B505A50u32,
{
    assert(0x50u32 | 0x5Au32 << 8 | 0x50u32 << 16 | 0x4Bu32 << 24 == 0x4B505A50u32)
        by (bit_vector);
}

/// Every page's encoded image fits behind a 32-bit length prefix.
pub open spec fn images_fit(p: PackView) -> bool {
    forall|i: int|
        0 <= i < p.pages.len() ==> png_encoding_of((#[trigger] p.pages[i]).image).len()
            <= u32::MAX
}

/// Everything the round trip needs of one page beyond its own lengths
/// fitting: its names are UTF-8, its image decodes back losslessly, and the
/// image stream respects the variant's framing.
pub open spec fn page_wire_ok(v: FormatVersion, pg: PageView) -> bool {
    &&& pg.encodable()
    &&& is_utf8(pg.name)
    &&& forall|j: int| 0 <= j < pg.entries.len() ==> is_utf8((#[trigger] pg.entries[j]).name)
    &&& image_decoding_of(png_encoding_of(pg.image)) == Ok::<_, PackError>(pg.image)
    &&& (v == FormatVersion::V2 ==> png_encoding_of(pg.image).len() <= u32::MAX)
    &&& (v == FormatVersion::V1 ==> !contains_pattern(png_encoding_of(pg.image), terminator_seq()))
}

/// Everything the round trip needs of a pack in the given variant.
pub open spec fn wire_ok(v: FormatVersion, p: PackView) -> bool {
    &&& names_utf8(p)
    &&& images_lossless(p)
    &&& (v == FormatVersion::V2 ==> images_fit(p))
    &&& (v == FormatVersion::V1 ==> images_terminator_free(p) && p.pages.len()
        != magic_as_count())
}

#[verifier::rlimit(60)]
#[verifier::spinoff_prover]
/// Appending one entry to a list appends its record to the list's bytes.
pub(crate) proof fn lemma_entries_enc_push(s: Seq<EntryView>, e: EntryView)
    ensures
        entries_enc(s.push(e)) == entries_enc(s) + entry_enc(e),
    decreases s.len(),
{
    let grown = s.push(e);
    if s.len() == 0 {
        assert(grown[0] == e);
        assert(grown.drop_first().len() == 0);
        assert(entries_enc(grown.drop_first()) == Seq::<u8>::empty());
        assert(entries_enc(grown) == entry_enc(e) + entries_enc(grown.drop_first()));
        assert(entry_enc(e) + Seq::<u8>::empty() =~= entry_enc(e));
        assert(entries_enc(s) == Seq::<u8>::empty());
        assert(Seq::<u8>::empty() + entry_enc(e) =~= entry_enc(e));
    } else {
        lemma_entries_enc_push(s.drop_first(), e);
        assert(grown[0] == s[0]);
        assert(grown.drop_first() =~= s.drop_first().push(e));
        assert(entries_enc(grown) == entry_enc(s[0]) + entries_enc(s.drop_first().push(e)));
        assert(entries_enc(s) == entry_enc(s[0]) + entries_enc(s.drop_first()));
        assert(entry_enc(s[0]) + (entries_enc(s.drop_first()) + entry_enc(e)) =~= (entry_enc(
            s[0],
        ) + entries_enc(s.drop_first())) + entry_enc(e));
    }
}

/// Appending one page to a list appends its bytes to the list's bytes.
pub(crate) proof fn lemma_pages_enc_push(v: FormatVersion, s: Seq<PageView>, pg: PageView)
    ensures
        pages_enc(v, s.push(pg)) == pages_enc(v, s) + page_enc(v, pg),
    decreases s.len(),
{
    let grown = s.push(pg);
    if s.len() == 0 {
        assert(grown[0] == pg);
        assert(grown.drop_first().len() == 0);
        assert(pages_enc(v, grown.drop_first()) == Seq::<u8>::empty());
        assert(pages_enc(v, grown) == page_enc(v, pg) + pages_enc(v, grown.drop_first()));
        assert(page_enc(v, pg) + Seq::<u8>::empty() =~= page_enc(v, pg));
        assert(pages_enc(v, s) == Seq::<u8>::empty());
        assert(Seq::<u8>::empty() + page_enc(v, pg) =~= page_enc(v, pg));
    } else {
        lemma_pages_enc_push(v, s.drop_first(), pg);
        assert(grown[0] == s[0]);
        assert(grown.drop_first() =~= s.drop_first().push(pg));
        assert(pages_enc(v, grown) == page_enc(v, s[0]) + pages_enc(v, s.drop_first().push(pg)));
        assert(pages_enc(v, s) == page_enc(v, s[0]) + pages_enc(v, s.drop_first()));
        assert(page_enc(v, s[0]) + (pages_enc(v, s.drop_first()) + page_enc(v, pg)) =~= (page_enc(
            v,
            s[0],
        ) + pages_enc(v, s.drop_first())) + page_enc(v, pg));
    }
}

#[verifier::rlimit(100)]
#[verifier::spinoff_prover]
proof fn lemma_parse_entry_fields(b: Seq<u8>, pos: int, e: EntryView)
    requires
        0 <= pos,
        pos + 32 <= b.len(),
        b.subrange(pos, pos + 32) == entry_fields_enc(e),
    ensures
        parse_u32(b, pos) == Ok::<_, PackError>((e.x_pos, pos + 4)),
        parse_u32(b, pos + 4) == Ok::<_, PackError>((e.y_pos, pos + 8)),
        parse_u32(b, pos + 8) == Ok::<_, PackError>((e.width, pos + 12)),
        parse_u32(b, pos + 12) == Ok::<_, PackError>((e.height, pos + 16)),
        parse_u32(b, pos + 16) == Ok::<_, PackError>((e.x_offset, pos + 20)),
        parse_u32(b, pos + 20) == Ok::<_, PackError>((e.y_offset, pos + 24)),
        parse_u32(b, pos + 24) == Ok::<_, PackError>((e.total_width, pos + 28)),
        parse_u32(b, pos + 28) == Ok::<_, PackError>((e.total_height, pos + 32)),
{
    let sub = b.subrange(pos, pos + 32);
    assert(b.subrange(pos, pos + 4) =~= sub.subrange(0, 4));
    assert(sub.subrange(0, 4) =~= u32_le(e.x_pos));
    crate::primitive::lemma_parse_u32_exact(b, pos, e.x_pos);
    assert(b.subrange(pos + 4, pos + 8) =~= sub.subrange(4, 8));
    assert(sub.subrange(4, 8) =~= u32_le(e.y_pos));
    crate::primitive::lemma_parse_u32_exact(b, pos + 4, e.y_pos);
    assert(b.subrange(pos + 8, pos + 12) =~= sub.subrange(8, 12));
    assert(sub.subrange(8, 12) =~= u32_le(e.width));
    crate::primitive::lemma_parse_u32_exact(b, pos + 8, e.width);
    assert(b.subrange(pos + 12, pos + 16) =~= sub.subrange(12, 16));
    assert(sub.subrange(12, 16) =~= u32_le(e.height));
    crate::primitive::lemma_parse_u32_exact(b, pos + 12, e.height);
    assert(b.subrange(pos + 16, pos + 20) =~= sub.subrange(16, 20));
    assert(sub.subrange(16, 20) =~= u32_le(e.x_offset));
    crate::primitive::lemma_parse_u32_exact(b, pos + 16, e.x_offset);
    assert(b.subrange(pos + 20, pos + 24) =~= sub.subrange(20, 24));
    assert(sub.subrange(20, 24) =~= u32_le(e.y_offset));
    crate::primitive::lemma_parse_u32_exact(b, pos + 20, e.y_offset);
    assert(b.subrange(pos + 24, pos + 28) =~= sub.subrange(24, 28));
    assert(sub.subrange(24, 28) =~= u32_le(e.total_width));
    crate::primitive::lemma_parse_u32_exact(b, pos + 24, e.total_width);
    assert(b.subrange(pos + 28, pos + 32) =~= sub.subrange(28, 32));
    assert(sub.subrange(28, 32) =~= u32_le(e.total_height));
    crate::primitive::lemma_parse_u32_exact(b, pos + 28, e.total_height);
}

#[verifier::rlimit(100)]
#[verifier::spinoff_prover]
proof fn lemma_parse_entry_exact(b: Seq<u8>, pos: int, e: EntryView)
    requires
        e.encodable(),
        is_utf8(e.name),
        0 <= pos,
        pos + entry_enc(e).len() <= b.len(),
        b.subrange(pos, pos + entry_enc(e).len()) == entry_enc(e),
    ensures
        parse_entry(b, pos) == Ok::<_, PackError>((e, pos + entry_enc(e).len())),
{
    let enc = entry_enc(e);
    let nl = e.name.len() as int;
    let l = enc.len() as int;
    let sub = b.subrange(pos, pos + l);
    assert(b.subrange(pos, pos + 4 + nl) =~= sub.subrange(0, 4 + nl));
    assert(sub.subrange(0, 4 + nl) =~= len_prefixed(e.name));
    crate::primitive::lemma_parse_string_exact(b, pos, e.name);
    let p1 = pos + 4 + nl;
    assert(b.subrange(p1, p1 + 32) =~= sub.subrange(4 + nl, 36 + nl));
    assert(sub.subrange(4 + nl, 36 + nl) =~= entry_fields_enc(e));
    lemma_parse_entry_fields(b, p1, e);
    match parse_entry(b, pos) {
        Ok((parsed, end)) => {
            assert(parsed =~= e);
            assert(end == pos + l);
        },
        Err(_) => {
            assert(false);
        },
    }
}

#[verifier::rlimit(100)]
#[verifier::spinoff_prover]
proof fn lemma_parse_entries_exact(b: Seq<u8>, pos: int, s: Seq<EntryView>)
    requires
        forall|j: int|
            0 <= j < s.len() ==> (#[trigger] s[j]).encodable() && is_utf8(s[j].name),
        0 <= pos,
        pos + entries_enc(s).len() <= b.len(),
        b.subrange(pos, pos + entries_enc(s).len()) == entries_enc(s),
    ensures
        parse_entries(b, pos, s.len()) == Ok::<_, PackError>((s, pos + entries_enc(s).len())),
    decreases s.len(),
{
    if s.len() == 0 {
        assert(s =~= Seq::<EntryView>::empty());
    } else {
        let e0 = s[0];
        let rest = s.drop_first();
        let enc = entries_enc(s);
        let l = enc.len() as int;
        let l0 = entry_enc(e0).len() as int;
        let lr = entries_enc(rest).len() as int;
        let sub = b.subrange(pos, pos + l);
        assert(b.subrange(pos, pos + l0) =~= sub.subrange(0, l0));
        assert(sub.subrange(0, l0) =~= entry_enc(e0));
        lemma_parse_entry_exact(b, pos, e0);
        assert(b.subrange(pos + l0, pos + l0 + lr) =~= sub.subrange(l0, l0 + lr));
        assert(sub.subrange(l0, l0 + lr) =~= entries_enc(rest));
        lemma_parse_entries_exact(b, pos + l0, rest);
        assert(seq![e0] + rest =~= s);
    }
}

#[verifier::rlimit(100)]
#[verifier::spinoff_prover]
proof fn lemma_parse_page_exact(b: Seq<u8>, pos: int, v: FormatVersion, pg: PageView)
    requires
        page_wire_ok(v, pg),
        0 <= pos,
        pos + page_enc(v, pg).len() <= b.len(),
        b.subrange(pos, pos + page_enc(v, pg).len()) == page_enc(v, pg),
    ensures
        parse_page(b, pos, v) == Ok::<_, PackError>((pg, pos + page_enc(v, pg).len())),
{
    let enc = page_enc(v, pg);
    let l = enc.len() as int;
    let nl = pg.name.len() as int;
    let le = entries_enc(pg.entries).len() as int;
    let lh = page_header_enc(pg).len() as int;
    let img = png_encoding_of(pg.image);
    let li = img.len() as int;
    let sub = b.subrange(pos, pos + l);
    assert(b.subrange(pos, pos + lh) =~= sub.subrange(0, lh));
    assert(sub.subrange(0, lh) =~= page_header_enc(pg));
    let hsub = b.subrange(pos, pos + lh);
    assert(b.subrange(pos, pos + 4 + nl) =~= hsub.subrange(0, 4 + nl));
    assert(hsub.subrange(0, 4 + nl) =~= len_prefixed(pg.name));
    crate::primitive::lemma_parse_string_exact(b, pos, pg.name);
    let p1 = pos + 4 + nl;
    let count = pg.entries.len() as u32;
    assert(b.subrange(p1, p1 + 4) =~= hsub.subrange(4 + nl, 4 + nl + 4));
    assert(hsub.subrange(4 + nl, 4 + nl + 4) =~= u32_le(count));
    crate::primitive::lemma_parse_u32_exact(b, p1, count);
    let p2 = p1 + 4;
    assert(b.subrange(p2, p2 + 4) =~= hsub.subrange(8 + nl, 8 + nl + 4));
    assert(hsub.subrange(8 + nl, 8 + nl + 4) =~= i32_le(pg.mask));
    crate::primitive::lemma_parse_i32_exact(b, p2, pg.mask);
    let p3 = p2 + 4;
    assert(b.subrange(p3, p3 + le) =~= hsub.subrange(12 + nl, 12 + nl + le));
    assert(hsub.subrange(12 + nl, 12 + nl + le) =~= entries_enc(pg.entries));
    lemma_parse_entries_exact(b, p3, pg.entries);
    assert(count as nat == pg.entries.len());
    let p4 = p3 + le;
    match v {
        FormatVersion::V1 => {
            assert(b.subrange(p4, p4 + li + 4) =~= sub.subrange(lh, lh + li + 4));
            assert(sub.subrange(lh, lh + li + 4) =~= img + terminator_seq());
            crate::primitive::lemma_parse_until_exact(b, p4, img);
        },
        FormatVersion::V2 => {
            assert(b.subrange(p4, p4 + 4 + li) =~= sub.subrange(lh, lh + 4 + li));
            assert(sub.subrange(lh, lh + 4 + li) =~= len_prefixed(img));
            crate::primitive::lemma_parse_buffer_exact(b, p4, img);
        },
    }
    match parse_page(b, pos, v) {
        Ok((parsed, end)) => {
            assert(parsed =~= pg);
            assert(end == pos + l);
        },
        Err(_) => {
            assert(false);
        },
    }
}

#[verifier::rlimit(100)]
#[verifier::spinoff_prover]
proof fn lemma_parse_pages_exact(b: Seq<u8>, pos: int, v: FormatVersion, s: Seq<PageView>)
    requires
        forall|i: int| 0 <= i < s.len() ==> page_wire_ok(v, #[trigger] s[i]),
        0 <= pos,
        pos + pages_enc(v, s).len() <= b.len(),
        b.subrange(pos, pos + pages_enc(v, s).len()) == pages_enc(v, s),
    ensures
        parse_pages(b, pos, s.len(), v) == Ok::<_, PackError>((s, pos + pages_enc(v, s).len())),
    decreases s.len(),
{
    if s.len() == 0 {
        assert(s =~= Seq::<PageView>::empty());
    } else {
        let pg0 = s[0];
        let rest = s.drop_first();
        let enc = pages_enc(v, s);
        let l = enc.len() as int;
        let l0 = page_enc(v, pg0).len() as int;
        let lr = pages_enc(v, rest).len() as int;
        let sub = b.subrange(pos, pos + l);
        assert(b.subrange(pos, pos + l0) =~= sub.subrange(0, l0));
        assert(sub.subrange(0, l0) =~= page_enc(v, pg0));
        lemma_parse_page_exact(b, pos, v, pg0);
        assert(b.subrange(pos + l0, pos + l0 + lr) =~= sub.subrange(l0, l0 + lr));
        assert(sub.subrange(l0, l0 + lr) =~= pages_enc(v, rest));
        lemma_parse_pages_exact(b, pos + l0, v, rest);
        assert(seq![pg0] + rest =~= s);
    }
}

/// Round trip: a pack whose lengths fit the wire format parses back from its
/// own encoding, provided its names are UTF-8, the image codec is lossless
/// on its bitmaps, and — for the legacy variant — no encoded image contains
/// the terminator pattern and the page count does not collide with the magic
/// bytes. The legacy variant does not persist the container mask, so the
/// parsed pack carries the default mask; the current variant preserves it.
/// The losslessness premise is what a successful encode guarantees for every
/// page whose bitmap stays within the decoder's allocation limit
/// ([`crate::png::decode_fits`]); a larger bitmap encodes fine but the
/// decoder refuses it, so the round trip is not promised there.
#[verifier::rlimit(100)]
#[verifier::spinoff_prover]
pub proof fn lemma_round_trip(v: FormatVersion, p: PackView)
    requires
        p.encodable(),
    ensures
        wire_ok(v, p) ==> parse_pack(pack_enc(v, p)) == Ok::<_, PackError>(
            PackView {
                mask: match v {
                    FormatVersion::V1 => Pack::DEFAULT_MASK,
                    FormatVersion::V2 => p.mask,
                },
                pages: p.pages,
            },
        ),
{
    if !wire_ok(v, p) {
        return;
    }
    assert forall|i: int| 0 <= i < p.pages.len() implies page_wire_ok(v, #[trigger] p.pages[i]) by {
        assert(p.pages[i].encodable());
    }
    match v {
        FormatVersion::V1 => {
            lemma_round_trip_legacy(p);
        },
        FormatVersion::V2 => {
            lemma_round_trip_current(p);
        },
    }
}

#[verifier::rlimit(100)]
#[verifier::spinoff_prover]
proof fn lemma_round_trip_legacy(p: PackView)
    requires
        p.encodable(),
        p.pages.len() != magic_as_count(),
        forall|i: int| 0 <= i < p.pages.len() ==> page_wire_ok(FormatVersion::V1, #[trigger] p.pages[i]),
    ensures
        parse_pack(pack_enc(FormatVersion::V1, p)) == Ok::<_, PackError>(
            PackView { mask: Pack::DEFAULT_MASK, pages: p.pages },
        ),
{
    let v = FormatVersion::V1;
    let b = pack_enc(v, p);
    let n32 = p.pages.len() as u32;
    let lp = pages_enc(v, p.pages).len() as int;
    assert(b.subrange(0, 4) =~= u32_le(n32));
    crate::primitive::lemma_parse_u32_exact(b, 0, n32);
    crate::primitive::lemma_u32_le_from(n32);
    if b.subrange(0, 4) == magic_seq() {
        assert(u32_from(u32_le(n32)) == u32_from(magic_seq()));
        assert(false);
    }
    assert(b.subrange(4, 4 + lp) =~= pages_enc(v, p.pages));
    lemma_parse_pages_exact(b, 4, v, p.pages);
    assert(n32 as nat == p.pages.len());
}

#[verifier::rlimit(100)]
#[verifier::spinoff_prover]
proof fn lemma_round_trip_current(p: PackView)
    requires
        p.encodable(),
        forall|i: int| 0 <= i < p.pages.len() ==> page_wire_ok(FormatVersion::V2, #[trigger] p.pages[i]),
    ensures
        parse_pack(pack_enc(FormatVersion::V2, p)) == Ok::<_, PackError>(
            PackView { mask: p.mask, pages: p.pages },
        ),
{
    let v = FormatVersion::V2;
    let b = pack_enc(v, p);
    let n32 = p.pages.len() as u32;
    let lp = pages_enc(v, p.pages).len() as int;
    assert(b.subrange(0, 4) =~= magic_seq());
    assert(b.subrange(4, 8) =~= i32_le(p.mask));
    crate::primitive::lemma_parse_i32_exact(b, 4, p.mask);
    assert(b.subrange(8, 12) =~= u32_le(n32));
    crate::primitive::lemma_parse_u32_exact(b, 8, n32);
    assert(b.subrange(12, 12 + lp) =~= pages_enc(v, p.pages));
    lemma_parse_pages_exact(b, 12, v, p.pages);
    assert(n32 as nat == p.pages.len());
}

/// Variant detection: a stream of at least four bytes that opens with the
/// magic bytes always parses as the current variant; any other stream of at
/// least four bytes always parses as the legacy variant, those four bytes
/// re-read as the start of its page count; a shorter stream is truncated.
pub proof fn lemma_variant_detection(b: Seq<u8>)
    ensures
        b.len() >= 4 && b.subrange(0, 4) == magic_seq() ==> parse_pack(b) == parse_pack_current(
            b,
        ),
        b.len() >= 4 && b.subrange(0, 4) != magic_seq() ==> parse_pack(b) == parse_pack_legacy(b),
        b.len() < 4 ==> parse_pack(b) == Err::<PackView, _>(PackError::Truncated),
{
}

/// Mask semantics: a legacy stream always decodes to the default container
/// mask whatever its content; a current stream decodes to exactly the signed
/// integer persisted after the magic bytes.
pub proof fn lemma_mask_semantics(b: Seq<u8>)
    ensures
        b.len() >= 4 && b.subrange(0, 4) != magic_seq() ==> (match parse_pack(b) {
            Ok(p) => p.mask == Pack::DEFAULT_MASK,
            Err(_) => true,
        }),
        b.len() >= 4 && b.subrange(0, 4) == magic_seq() ==> (match parse_pack(b) {
            Ok(p) => parse_i32(b, 4) == Ok::<_, PackError>((p.mask, 8int)),
            Err(_) => true,
        }),
{
}

} // verus!
