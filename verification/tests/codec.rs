use pz_pack::{Bitmap, Entry, FormatVersion, Pack, PackError, Page};

fn le(x: u32) -> [u8; 4] {
    x.to_le_bytes()
}

fn sample_bitmap(width: u32, height: u32) -> Bitmap {
    let mut data = Vec::new();
    for i in 0..(4 * width as usize * height as usize) {
        data.push((i * 7 % 251) as u8);
    }
    Bitmap::from_raw(width, height, data).unwrap()
}

fn sample_entry(name: &str) -> Entry {
    Entry {
        name: name.as_bytes().to_vec(),
        x_pos: 1,
        y_pos: 0,
        width: 2,
        height: 2,
        x_offset: 0,
        y_offset: 1,
        total_width: 2,
        total_height: 3,
    }
}

fn sample_pack(mask: i32) -> Pack {
    let page_a = Page {
        name: b"tiles".to_vec(),
        mask: -7,
        entries: vec![sample_entry("grass"), sample_entry("dirt")],
        image: sample_bitmap(4, 3),
    };
    let page_b = Page {
        name: b"ui".to_vec(),
        mask: 3,
        entries: vec![],
        image: sample_bitmap(2, 2),
    };
    Pack { mask, pages: vec![page_a, page_b] }
}

#[test]
fn round_trip_current_variant() {
    let pack = sample_pack(-5);
    let bytes = pack.write().unwrap();
    let decoded = Pack::read(&bytes).unwrap();
    assert_eq!(decoded, pack);
}

#[test]
fn round_trip_current_preserves_negative_mask() {
    let pack = sample_pack(-2147483648);
    let bytes = pack.write_with(FormatVersion::V2).unwrap();
    let decoded = Pack::read(&bytes).unwrap();
    assert_eq!(decoded.mask, -2147483648);
}

#[test]
fn round_trip_legacy_variant() {
    let pack = sample_pack(Pack::DEFAULT_MASK);
    let bytes = pack.write_with(FormatVersion::V1).unwrap();
    let decoded = Pack::read(&bytes).unwrap();
    assert_eq!(decoded, pack);
}

#[test]
fn legacy_decode_synthesizes_default_mask() {
    let pack = sample_pack(42);
    let bytes = pack.write_with(FormatVersion::V1).unwrap();
    let decoded = Pack::read(&bytes).unwrap();
    assert_eq!(decoded.mask, Pack::DEFAULT_MASK);
    assert_eq!(decoded.pages, pack.pages);
}

#[test]
fn default_write_is_current_variant() {
    let pack = sample_pack(9);
    assert_eq!(pack.write().unwrap(), pack.write_with(FormatVersion::V2).unwrap());
}

#[test]
fn default_format_version_is_current() {
    assert_eq!(FormatVersion::default(), FormatVersion::V2);
}

#[test]
fn magic_prefix_selects_current_variant() {
    // Magic bytes, mask 11, zero pages.
    let mut bytes = Vec::new();
    bytes.extend_from_slice(b"PZPK");
    bytes.extend_from_slice(&(11i32).to_le_bytes());
    bytes.extend_from_slice(&le(0));
    let decoded = Pack::read(&bytes).unwrap();
    assert_eq!(decoded.mask, 11);
    assert_eq!(decoded.pages.len(), 0);
}

#[test]
fn small_page_count_decodes_as_legacy() {
    // A stream whose first four bytes are a valid small page count is
    // legacy, even though a count was also where the magic would be.
    let bytes = le(0).to_vec();
    let decoded = Pack::read(&bytes).unwrap();
    assert_eq!(decoded.mask, Pack::DEFAULT_MASK);
    assert_eq!(decoded.pages.len(), 0);
}

#[test]
fn short_stream_is_truncated() {
    assert_eq!(Pack::read(&[]), Err(PackError::Truncated));
    assert_eq!(Pack::read(&[1, 2, 3]), Err(PackError::Truncated));
}

#[test]
fn legacy_missing_page_is_truncated() {
    // Count says one page, but nothing follows.
    let bytes = le(1).to_vec();
    assert_eq!(Pack::read(&bytes), Err(PackError::Truncated));
}

#[test]
fn oversized_name_length_is_malformed() {
    // One legacy page whose name length prefix exceeds the remaining bytes.
    let mut bytes = le(1).to_vec();
    bytes.extend_from_slice(&le(1000));
    bytes.extend_from_slice(b"ab");
    assert_eq!(Pack::read(&bytes), Err(PackError::MalformedLength));
}

#[test]
fn invalid_utf8_name_is_malformed() {
    // One legacy page whose one-byte name is not valid UTF-8.
    let mut bytes = le(1).to_vec();
    bytes.extend_from_slice(&le(1));
    bytes.push(0xFF);
    assert_eq!(Pack::read(&bytes), Err(PackError::MalformedLength));
}

#[test]
fn garbage_image_bytes_fail_decode() {
    // Current variant, one page, empty name, no entries, mask 0, and an
    // image buffer that is not a decodable image.
    let mut bytes = Vec::new();
    bytes.extend_from_slice(b"PZPK");
    bytes.extend_from_slice(&le(0));
    bytes.extend_from_slice(&le(1));
    bytes.extend_from_slice(&le(0));
    bytes.extend_from_slice(&le(0));
    bytes.extend_from_slice(&(0i32).to_le_bytes());
    bytes.extend_from_slice(&le(4));
    bytes.extend_from_slice(&[1, 2, 3, 4]);
    assert_eq!(Pack::read(&bytes), Err(PackError::ImageDecodeFailed));
}

#[test]
fn zero_sized_bitmap_fails_encode() {
    let page = Page::new(b"empty".to_vec(), vec![], Bitmap::from_raw(0, 0, vec![]).unwrap());
    let pack = Pack::new(vec![page]);
    assert_eq!(pack.write(), Err(PackError::ImageEncodeFailed));
}

#[test]
fn zero_width_bitmap_fails_encode() {
    // A single zero axis is already rejected by the image encoder.
    let page = Page::new(b"thin".to_vec(), vec![], Bitmap::from_raw(0, 3, vec![]).unwrap());
    let pack = Pack::new(vec![page]);
    assert_eq!(pack.write_with(FormatVersion::V1), Err(PackError::ImageEncodeFailed));
}

#[test]
fn trailing_bytes_are_ignored() {
    let pack = sample_pack(5);
    let mut bytes = pack.write().unwrap();
    bytes.extend_from_slice(&[0xAB; 17]);
    let decoded = Pack::read(&bytes).unwrap();
    assert_eq!(decoded, pack);
}

#[test]
fn png_round_trip_through_public_codec() {
    let bitmap = sample_bitmap(5, 4);
    let bytes = pz_pack::write_png(&bitmap).unwrap();
    assert_ne!(bytes, bitmap.data);
    let decoded = pz_pack::read_png(&bytes).unwrap();
    assert_eq!(decoded, bitmap);
}

#[test]
fn page_new_uses_default_mask() {
    let page = Page::new(b"p".to_vec(), vec![], sample_bitmap(1, 1));
    assert_eq!(page.mask, Page::DEFAULT_MASK);
    let pack = Pack::new(vec![]);
    assert_eq!(pack.mask, Pack::DEFAULT_MASK);
}
