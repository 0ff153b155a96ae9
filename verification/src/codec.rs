//! The executable codec: reading and writing entries, pages and packs over
//! byte buffers, verified against the wire-format functions in [`crate::wire`].
use vstd::prelude::*;


use crate::model::{entry_views, page_views, Entry, EntryView, Pack, PackView, Page, PageView};
use crate::png::{decode_fits, image_decoding_of, png_encoding_of, read_png, write_png};
use crate::primitive::{
    match_at, push_bytes, read_buffer, read_i32, read_string, read_u32, read_until_pattern,
    terminator, write_buffer, write_i32, write_u32,
};
use crate::wire::{
    entries_enc, entry_enc, images_lossless_within_limit, lemma_entries_enc_push,
    lemma_pages_enc_push, magic_seq, pack_enc, page_enc, page_encode_ok, pages_enc,
    pages_encode_ok, parse_entries, parse_entry, parse_pack, parse_page, parse_pages,
};
use crate::{FormatVersion, PackError};

verus! {

/// The magic bytes as a buffer.
fn magic_bytes() -> (r: Vec<u8>)
    ensures
        r@ == magic_seq(),
{
    let mut v: Vec<u8> = Vec::new();
    v.push(0x50);
    v.push(0x5A);
    v.push(0x50);
    v.push(0x4B);
    proof {
        assert(v@ =~= magic_seq());
    }
    v
}

impl Entry {
    /// Reads one entry record at `pos`.
    pub(crate) fn read(bytes: &[u8], pos: usize) -> (r: Result<(Entry, usize), PackError>)
        ensures
            match r {
                Ok((e, p)) => {
                    &&& parse_entry(bytes@, pos as int) == Ok::<_, PackError>((e@, p as int))
                    &&& p as int <= bytes@.len()
                },
                Err(e) => {
                    &&& parse_entry(bytes@, pos as int) == Err::<(EntryView, int), _>(e)
                    &&& (e == PackError::Truncated || e == PackError::MalformedLength)
                },
            },
    {
        let (name, p1) = match read_string(bytes, pos) {
            Ok(v) => v,
            Err(e) => {
                return Err(e);
            },
        };
        let (x_pos, p2) = match read_u32(bytes, p1) {
            Ok(v) => v,
            Err(e) => {
                return Err(e);
            },
        };
        let (y_pos, p3) = match read_u32(bytes, p2) {
            Ok(v) => v,
            Err(e) => {
                return Err(e);
            },
        };
        let (width, p4) = match read_u32(bytes, p3) {
            Ok(v) => v,
            Err(e) => {
                return Err(e);
            },
        };
        let (height, p5) = match read_u32(bytes, p4) {
            Ok(v) => v,
            Err(e) => {
                return Err(e);
            },
        };
        let (x_offset, p6) = match read_u32(bytes, p5) {
            Ok(v) => v,
            Err(e) => {
                return Err(e);
            },
        };
        let (y_offset, p7) = match read_u32(bytes, p6) {
            Ok(v) => v,
            Err(e) => {
                return Err(e);
            },
        };
        let (total_width, p8) = match read_u32(bytes, p7) {
            Ok(v) => v,
            Err(e) => {
                return Err(e);
            },
        };
        let (total_height, p9) = match read_u32(bytes, p8) {
            Ok(v) => v,
            Err(e) => {
                return Err(e);
            },
        };
        let e = Entry {
            name,
            x_pos,
            y_pos,
            width,
            height,
            x_offset,
            y_offset,
            total_width,
            total_height,
        };
        proof {
            assert(parse_entry(bytes@, pos as int) == Ok::<_, PackError>((e@, p9 as int)));
        }
        Ok((e, p9))
    }

    /// Writes one entry record.
    pub(crate) fn write(&self, out: &mut Vec<u8>)
        requires
            self@.encodable(),
        ensures
            final(out)@ == old(out)@ + entry_enc(self@),
    {
        write_buffer(out, self.name.as_slice());
        write_u32(out, self.x_pos);
        write_u32(out, self.y_pos);
        write_u32(out, self.width);
        write_u32(out, self.height);
        write_u32(out, self.x_offset);
        write_u32(out, self.y_offset);
        write_u32(out, self.total_width);
        write_u32(out, self.total_height);
        proof {
            assert(out@ =~= old(out)@ + entry_enc(self@));
        }
    }
}

impl Page {
    /// Reads one page at `pos` in the given variant.
    #[verifier::rlimit(100)]
    #[verifier::spinoff_prover]
    #[verifier::loop_isolation(false)]
    pub(crate) fn read(bytes: &[u8], pos: usize, version: FormatVersion) -> (r: Result<
        (Page, usize),
        PackError,
    >)
        ensures
            match r {
                Ok((pg, p)) => {
                    &&& parse_page(bytes@, pos as int, version) == Ok::<_, PackError>((
                        pg@,
                        p as int,
                    ))
                    &&& pg@.image.wf()
                    &&& p as int <= bytes@.len()
                },
                Err(e) => {
                    &&& parse_page(bytes@, pos as int, version) == Err::<(PageView, int), _>(e)
                    &&& e != PackError::ImageEncodeFailed
                },
            },
    {
        let (name, p1) = match read_string(bytes, pos) {
            Ok(v) => v,
            Err(e) => {
                return Err(e);
            },
        };
        let (count, p2) = match read_u32(bytes, p1) {
            Ok(v) => v,
            Err(e) => {
                return Err(e);
            },
        };
        let (mask, p3) = match read_i32(bytes, p2) {
            Ok(v) => v,
            Err(e) => {
                return Err(e);
            },
        };
        let mut entries: Vec<Entry> = Vec::new();
        let mut p = p3;
        let mut i: u32 = 0;
        proof {
            assert(p3 as int <= bytes@.len());
            assert(entry_views(entries@) + Seq::<EntryView>::empty() =~= entry_views(entries@));
        }
        while i < count
            invariant
                i <= count,
                p as int <= bytes@.len(),
                entries@.len() == i as nat,
                ({
                    let full = parse_entries(bytes@, p3 as int, count as nat);
                    match parse_entries(bytes@, p as int, (count - i) as nat) {
                        Ok((rest, end)) => full == Ok::<_, PackError>((
                            entry_views(entries@) + rest,
                            end,
                        )),
                        Err(e) => full == Err::<(Seq<EntryView>, int), _>(e),
                    }
                }),
            decreases count - i,
        {
            match Entry::read(bytes, p) {
                Ok((e, p_next)) => {
                    proof {
                        match parse_entries(bytes@, p_next as int, (count - i - 1) as nat) {
                            Ok((rest2, end)) => {
                                assert(parse_entries(bytes@, p as int, (count - i) as nat)
                                    == Ok::<_, PackError>((seq![e@] + rest2, end)));
                                assert(entry_views(entries@) + (seq![e@] + rest2) =~= entry_views(
                                    entries@.push(e),
                                ) + rest2);
                            },
                            Err(_) => {},
                        }
                    }
                    entries.push(e);
                    p = p_next;
                    i = i + 1;
                },
                Err(e) => {
                    proof {
                        assert(parse_entries(bytes@, p as int, (count - i) as nat) == Err::<
                            (Seq<EntryView>, int),
                            _,
                        >(e));
                    }
                    return Err(e);
                },
            }
        }
        proof {
            assert(parse_entries(bytes@, p as int, 0) == Ok::<_, PackError>((
                Seq::<EntryView>::empty(),
                p as int,
            )));
            assert(entry_views(entries@) + Seq::<EntryView>::empty() =~= entry_views(entries@));
        }
        let (img_bytes, p5) = match (match version {
            FormatVersion::V1 => {
                let term = terminator();
                read_until_pattern(bytes, p, term.as_slice())
            },
            FormatVersion::V2 => read_buffer(bytes, p),
        }) {
            Ok(v) => v,
            Err(e) => {
                return Err(e);
            },
        };
        match read_png(img_bytes.as_slice()) {
            Ok(image) => {
                let pg = Page { name, mask, entries, image };
                proof {
                    assert(pg@.entries =~= entry_views(pg.entries@));
                    assert(parse_page(bytes@, pos as int, version) == Ok::<_, PackError>((
                        pg@,
                        p5 as int,
                    )));
                }
                Ok((pg, p5))
            },
            Err(e) => Err(e),
        }
    }

    /// Writes one page in the given variant. The bitmap is re-encoded through
    /// the external image codec before anything is appended, so a failed
    /// image encode leaves the output untouched.
    #[verifier::rlimit(100)]
    #[verifier::spinoff_prover]
    #[verifier::loop_isolation(false)]
    pub(crate) fn write(&self, version: FormatVersion, out: &mut Vec<u8>) -> (r: Result<
        (),
        PackError,
    >)
        requires
            self@.encodable(),
            self@.image.wf(),
        ensures
            match r {
                Ok(_) => {
                    &&& final(out)@ == old(out)@ + page_enc(version, self@)
                    &&& page_encode_ok(version, self@)
                    &&& (decode_fits(self@.image) ==> image_decoding_of(png_encoding_of(
                        self@.image,
                    )) == Ok::<_, PackError>(self@.image))
                },
                Err(e) => {
                    &&& final(out)@ == old(out)@
                    &&& (e == PackError::ImageEncodeFailed <==> (self@.image.width == 0
                        || self@.image.height == 0))
                    &&& (e == PackError::MalformedLength <==> (self@.image.width > 0
                        && self@.image.height > 0 && version == FormatVersion::V2
                        && png_encoding_of(self@.image).len() > u32::MAX))
                    &&& (e == PackError::ImageEncodeFailed || e == PackError::MalformedLength)
                },
            },
    {
        let png = match write_png(&self.image) {
            Ok(b) => b,
            Err(e) => {
                return Err(e);
            },
        };
        let fits = match version {
            FormatVersion::V1 => true,
            FormatVersion::V2 => png.len() as u64 <= u32::MAX as u64,
        };
        if !fits {
            return Err(PackError::MalformedLength);
        }
        write_buffer(out, self.name.as_slice());
        write_u32(out, self.entries.len() as u32);
        write_i32(out, self.mask);
        let ghost base = out@;
        let ghost views = entry_views(self.entries@);
        proof {
            assert(views.subrange(0, 0) =~= Seq::<EntryView>::empty());
            assert(base + Seq::<u8>::empty() =~= base);
        }
        let n = self.entries.len();
        let mut i: usize = 0;
        while i < n
            invariant
                i <= n,
                n == self.entries@.len(),
                views == entry_views(self.entries@),
                self@.encodable(),
                out@ == base + entries_enc(views.subrange(0, i as int)),
            decreases n - i,
        {
            proof {
                assert(self@.entries[i as int].encodable());
                assert(self@.entries[i as int] == self.entries@[i as int]@);
            }
            let e = &self.entries[i];
            e.write(out);
            proof {
                let pref = views.subrange(0, i as int);
                lemma_entries_enc_push(pref, self.entries@[i as int]@);
                assert(views.subrange(0, i + 1) =~= pref.push(self.entries@[i as int]@));
                assert(base + (entries_enc(pref) + entry_enc(self.entries@[i as int]@)) =~= (base
                    + entries_enc(pref)) + entry_enc(self.entries@[i as int]@));
            }
            i = i + 1;
        }
        proof {
            assert(views.subrange(0, n as int) =~= views);
        }
        match version {
            FormatVersion::V1 => {
                push_bytes(out, png.as_slice());
                let term = terminator();
                push_bytes(out, term.as_slice());
            },
            FormatVersion::V2 => {
                write_buffer(out, png.as_slice());
            },
        }
        proof {
            assert(out@ =~= old(out)@ + page_enc(version, self@));
        }
        Ok(())
    }
}

impl Pack {
    /// Decodes a pack from a byte stream, detecting the variant from the
    /// first four bytes: the magic bytes select the current variant, and any
    /// other stream is read as the legacy variant, those same four bytes
    /// re-read as the start of its page count. Bytes past the last page are
    /// ignored. The result is exactly what [`crate::wire::parse_pack`] gives.
    pub fn read(bytes: &[u8]) -> (r: Result<Pack, PackError>)
        ensures
            match r {
                Ok(pk) => {
                    &&& parse_pack(bytes@) == Ok::<_, PackError>(pk@)
                    &&& pk@.images_wf()
                },
                Err(e) => {
                    &&& parse_pack(bytes@) == Err::<PackView, _>(e)
                    &&& e != PackError::ImageEncodeFailed
                },
            },
    {
        if bytes.len() < 4 {
            return Err(PackError::Truncated);
        }
        let magic = magic_bytes();
        if match_at(bytes, 0, magic.as_slice()) {
            let (mask, p1) = match read_i32(bytes, 4) {
                Ok(v) => v,
                Err(e) => {
                    return Err(e);
                },
            };
            let (count, p2) = match read_u32(bytes, p1) {
                Ok(v) => v,
                Err(e) => {
                    return Err(e);
                },
            };
            match Pack::read_pages(bytes, p2, count, FormatVersion::V2) {
                Ok((pages, _end)) => {
                    let pk = Pack { mask, pages };
                    proof {
                        assert(pk@.pages =~= page_views(pk.pages@));
                    }
                    Ok(pk)
                },
                Err(e) => Err(e),
            }
        } else {
            let (count, p1) = match read_u32(bytes, 0) {
                Ok(v) => v,
                Err(e) => {
                    return Err(e);
                },
            };
            match Pack::read_pages(bytes, p1, count, FormatVersion::V1) {
                Ok((pages, _end)) => {
                    let pk = Pack { mask: Pack::DEFAULT_MASK, pages };
                    proof {
                        assert(pk@.pages =~= page_views(pk.pages@));
                    }
                    Ok(pk)
                },
                Err(e) => Err(e),
            }
        }
    }

    /// Reads `count` consecutive pages starting at `pos`.
    #[verifier::rlimit(100)]
    #[verifier::spinoff_prover]
    #[verifier::loop_isolation(false)]
    fn read_pages(bytes: &[u8], pos: usize, count: u32, version: FormatVersion) -> (r: Result<
        (Vec<Page>, usize),
        PackError,
    >)
        requires
            pos as int <= bytes@.len(),
        ensures
            match r {
                Ok((pages, p)) => {
                    &&& parse_pages(bytes@, pos as int, count as nat, version) == Ok::<
                        _,
                        PackError,
                    >((page_views(pages@), p as int))
                    &&& forall|k: int| 0 <= k < pages@.len() ==> (#[trigger] pages@[k])@.image.wf()
                },
                Err(e) => {
                    &&& parse_pages(bytes@, pos as int, count as nat, version) == Err::<
                        (Seq<PageView>, int),
                        _,
                    >(e)
                    &&& e != PackError::ImageEncodeFailed
                },
            },
    {
        let mut pages: Vec<Page> = Vec::new();
        let mut p = pos;
        let mut i: u32 = 0;
        while i < count
            invariant
                i <= count,
                p as int <= bytes@.len(),
                pages@.len() == i as nat,
                forall|k: int| 0 <= k < pages@.len() ==> (#[trigger] pages@[k])@.image.wf(),
                ({
                    let full = parse_pages(bytes@, pos as int, count as nat, version);
                    match parse_pages(bytes@, p as int, (count - i) as nat, version) {
                        Ok((rest, end)) => full == Ok::<_, PackError>((
                            page_views(pages@) + rest,
                            end,
                        )),
                        Err(e) => full == Err::<(Seq<PageView>, int), _>(e),
                    }
                }),
            decreases count - i,
        {
            match Page::read(bytes, p, version) {
                Ok((pg, p_next)) => {
                    proof {
                        match parse_pages(bytes@, p_next as int, (count - i - 1) as nat, version) {
                            Ok((rest2, end)) => {
                                assert(parse_pages(bytes@, p as int, (count - i) as nat, version)
                                    == Ok::<_, PackError>((seq![pg@] + rest2, end)));
                                assert(page_views(pages@) + (seq![pg@] + rest2) =~= page_views(
                                    pages@.push(pg),
                                ) + rest2);
                            },
                            Err(_) => {},
                        }
                    }
                    pages.push(pg);
                    p = p_next;
                    i = i + 1;
                },
                Err(e) => {
                    proof {
                        assert(parse_pages(bytes@, p as int, (count - i) as nat, version) == Err::<
                            (Seq<PageView>, int),
                            _,
                        >(e));
                    }
                    return Err(e);
                },
            }
        }
        proof {
            assert(parse_pages(bytes@, p as int, 0, version) == Ok::<_, PackError>((
                Seq::<PageView>::empty(),
                p as int,
            )));
            assert(page_views(pages@) + Seq::<PageView>::empty() =~= page_views(pages@));
        }
        Ok((pages, p))
    }

    /// Encodes the pack in the current variant, the default for new files.
    pub fn write(&self) -> (r: Result<Vec<u8>, PackError>)
        requires
            self@.encodable(),
            self@.images_wf(),
        ensures
            match r {
                Ok(out) => {
                    &&& out@ == pack_enc(FormatVersion::V2, self@)
                    &&& pages_encode_ok(FormatVersion::V2, self@)
                    &&& images_lossless_within_limit(self@)
                },
                Err(e) => {
                    &&& (e == PackError::ImageEncodeFailed || e == PackError::MalformedLength)
                    &&& exists|i: int|
                        0 <= i < self@.pages.len() && !page_encode_ok(
                            FormatVersion::V2,
                            #[trigger] self@.pages[i],
                        )
                },
            },
    {
        self.write_with(FormatVersion::V2)
    }

    /// Encodes the pack in an explicitly chosen variant; the legacy variant
    /// exists to produce files for older consumers.
    #[verifier::rlimit(100)]
    #[verifier::spinoff_prover]
    #[verifier::loop_isolation(false)]
    pub fn write_with(&self, version: FormatVersion) -> (r: Result<Vec<u8>, PackError>)
        requires
            self@.encodable(),
            self@.images_wf(),
        ensures
            match r {
                Ok(out) => {
                    &&& out@ == pack_enc(version, self@)
                    &&& pages_encode_ok(version, self@)
                    &&& images_lossless_within_limit(self@)
                },
                Err(e) => {
                    &&& (e == PackError::ImageEncodeFailed || e == PackError::MalformedLength)
                    &&& exists|i: int|
                        0 <= i < self@.pages.len() && !page_encode_ok(
                            version,
                            #[trigger] self@.pages[i],
                        )
                    &&& (e == PackError::ImageEncodeFailed ==> exists|i: int|
                        0 <= i < self@.pages.len() && ((#[trigger] self@.pages[i]).image.width
                            == 0 || self@.pages[i].image.height == 0))
                    &&& (e == PackError::MalformedLength ==> version == FormatVersion::V2
                        && exists|i: int|
                            0 <= i < self@.pages.len() && png_encoding_of(
                                (#[trigger] self@.pages[i]).image,
                            ).len() > u32::MAX)
                },
            },
    {
        let mut out: Vec<u8> = Vec::new();
        match version {
            FormatVersion::V1 => {
                write_u32(&mut out, self.pages.len() as u32);
            },
            FormatVersion::V2 => {
                let magic = magic_bytes();
                push_bytes(&mut out, magic.as_slice());
                write_i32(&mut out, self.mask);
                write_u32(&mut out, self.pages.len() as u32);
            },
        }
        let ghost base = out@;
        let ghost views = page_views(self.pages@);
        proof {
            assert(views.subrange(0, 0) =~= Seq::<PageView>::empty());
            assert(base + Seq::<u8>::empty() =~= base);
        }
        let n = self.pages.len();
        let mut i: usize = 0;
        while i < n
            invariant
                i <= n,
                n == self.pages@.len(),
                views == page_views(self.pages@),
                self@.encodable(),
                self@.images_wf(),
                out@ == base + pages_enc(version, views.subrange(0, i as int)),
                forall|k: int| 0 <= k < i ==> page_encode_ok(version, #[trigger] views[k]),
                forall|k: int|
                    0 <= k < i ==> (decode_fits((#[trigger] views[k]).image)
                        ==> image_decoding_of(png_encoding_of(views[k].image)) == Ok::<
                        _,
                        PackError,
                    >(views[k].image)),
            decreases n - i,
        {
            proof {
                assert(self@.pages[i as int].encodable());
                assert(self@.pages[i as int].image.wf());
                assert(self@.pages[i as int] == self.pages@[i as int]@);
            }
            let pg = &self.pages[i];
            match pg.write(version, &mut out) {
                Ok(_) => {},
                Err(e) => {
                    proof {
                        assert(self@.pages[i as int] == self.pages@[i as int]@);
                        assert(!page_encode_ok(version, self@.pages[i as int]));
                    }
                    return Err(e);
                },
            }
            proof {
                let pref = views.subrange(0, i as int);
                lemma_pages_enc_push(version, pref, self.pages@[i as int]@);
                assert(views.subrange(0, i + 1) =~= pref.push(self.pages@[i as int]@));
                assert(base + (pages_enc(version, pref) + page_enc(
                    version,
                    self.pages@[i as int]@,
                )) =~= (base + pages_enc(version, pref)) + page_enc(
                    version,
                    self.pages@[i as int]@,
                ));
            }
            i = i + 1;
        }
        proof {
            assert(views.subrange(0, n as int) =~= views);
            assert(out@ =~= pack_enc(version, self@));
        }
        Ok(out)
    }
}

} // verus!
