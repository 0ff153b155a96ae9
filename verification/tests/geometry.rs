use pz_pack::{validate_entry, Bitmap, Entry, EntryFrame, Pack, PackError, Page, ValidateError};

fn atlas(width: u32, height: u32) -> Bitmap {
    let mut data = Vec::new();
    for i in 0..(4 * width as usize * height as usize) {
        data.push((i % 256) as u8);
    }
    Bitmap::from_raw(width, height, data).unwrap()
}

#[test]
fn scan_returns_bytes_before_terminator() {
    let bytes = [0x01u8, 0x02, 0xEF, 0xBE, 0xAD, 0xDE];
    let pattern = [0xEFu8, 0xBE, 0xAD, 0xDE];
    let (payload, end) = pz_pack::read_until_pattern(&bytes, 0, &pattern).unwrap();
    assert_eq!(payload, vec![0x01, 0x02]);
    assert_eq!(end, 6);
}

#[test]
fn scan_without_terminator_is_truncated() {
    let bytes = [0x01u8, 0x02, 0xEF, 0xBE, 0xAD];
    let pattern = [0xEFu8, 0xBE, 0xAD, 0xDE];
    assert_eq!(pz_pack::read_until_pattern(&bytes, 0, &pattern), Err(PackError::Truncated));
}

#[test]
fn scan_stops_at_first_occurrence() {
    let bytes = [0xEFu8, 0xBE, 0xAD, 0xDE, 0x09, 0xEF, 0xBE, 0xAD, 0xDE];
    let pattern = [0xEFu8, 0xBE, 0xAD, 0xDE];
    let (payload, end) = pz_pack::read_until_pattern(&bytes, 0, &pattern).unwrap();
    assert_eq!(payload, Vec::<u8>::new());
    assert_eq!(end, 4);
}

#[test]
fn compose_pads_trimmed_sprite() {
    // The spec's worked example: a 4x4 packed rectangle at (10,10) inside a
    // 20x20 atlas, padded into a 6x6 frame at offset (1,1).
    let base = atlas(20, 20);
    let entry = Entry {
        name: b"sprite".to_vec(),
        x_pos: 10,
        y_pos: 10,
        width: 4,
        height: 4,
        x_offset: 1,
        y_offset: 1,
        total_width: 6,
        total_height: 6,
    };
    let sprite = entry.get_image(&base);
    assert_eq!(sprite.width, 6);
    assert_eq!(sprite.height, 6);
    assert_eq!(sprite.data.len(), 4 * 6 * 6);
    for py in 0..6u32 {
        for px in 0..6u32 {
            for c in 0..4u32 {
                let got = sprite.data[(4 * (py * 6 + px) + c) as usize];
                if (1..5).contains(&px) && (1..5).contains(&py) {
                    let ax = 10 + px - 1;
                    let ay = 10 + py - 1;
                    let want = base.data[(4 * (ay * 20 + ax) + c) as usize];
                    assert_eq!(got, want);
                } else {
                    assert_eq!(got, 0);
                }
            }
        }
    }
}

#[test]
fn get_entry_image_by_index() {
    let base = atlas(8, 8);
    let entry = Entry {
        name: b"e".to_vec(),
        x_pos: 0,
        y_pos: 0,
        width: 2,
        height: 2,
        x_offset: 0,
        y_offset: 0,
        total_width: 2,
        total_height: 2,
    };
    let page = Page::new(b"p".to_vec(), vec![entry.clone()], base.clone());
    let direct = entry.get_image(&base);
    assert_eq!(page.get_entry_image(0), Some(direct));
    assert_eq!(page.get_entry_image(1), None);
}

#[test]
fn zero_width_size_is_rejected() {
    let base = atlas(10, 10);
    for n in [1u32, 5, 10] {
        let r = validate_entry(b"e".to_vec(), 0, 0, 0, n, None, &base);
        match r {
            Err(ValidateError::SubImageTooBig { width, height, .. }) => {
                assert_eq!(width, 0);
                assert_eq!(height, n);
            },
            other => panic!("expected SubImageTooBig, got {other:?}"),
        }
    }
}

#[test]
fn exact_fit_is_accepted() {
    // pos + size equal to the atlas size passes; one past it fails.
    let base = atlas(10, 10);
    let ok = validate_entry(b"e".to_vec(), 4, 6, 6, 4, None, &base);
    let e = ok.unwrap();
    assert_eq!(e.x_pos, 4);
    assert_eq!(e.total_width, 6);
    assert_eq!(e.total_height, 4);
    assert_eq!(e.x_offset, 0);
    let too_big = validate_entry(b"e".to_vec(), 4, 6, 7, 4, None, &base);
    assert!(matches!(too_big, Err(ValidateError::SubImageTooBig { .. })));
}

#[test]
fn zero_frame_is_rejected() {
    let base = atlas(10, 10);
    let frame = EntryFrame { x_offset: 0, y_offset: 0, total_width: 0, total_height: 8 };
    let r = validate_entry(b"e".to_vec(), 0, 0, 2, 2, Some(frame), &base);
    match r {
        Err(ValidateError::FrameTooSmall { frame_width, frame_height, width, height, .. }) => {
            assert_eq!(frame_width, 0);
            assert_eq!(frame_height, 8);
            assert_eq!(width, 2);
            assert_eq!(height, 2);
        },
        other => panic!("expected FrameTooSmall, got {other:?}"),
    }
}

#[test]
fn explicit_frame_is_kept() {
    let base = atlas(10, 10);
    let frame = EntryFrame { x_offset: 2, y_offset: 1, total_width: 7, total_height: 6 };
    let e = validate_entry(b"e".to_vec(), 1, 1, 3, 3, Some(frame), &base).unwrap();
    assert_eq!(e.x_offset, 2);
    assert_eq!(e.y_offset, 1);
    assert_eq!(e.total_width, 7);
    assert_eq!(e.total_height, 6);
}

#[test]
fn bitmap_from_raw_checks_length() {
    assert!(Bitmap::from_raw(2, 2, vec![0; 16]).is_some());
    assert!(Bitmap::from_raw(2, 2, vec![0; 15]).is_none());
}

#[test]
fn validated_entries_survive_a_round_trip() {
    let base = atlas(6, 6);
    let e1 = validate_entry(b"a".to_vec(), 0, 0, 3, 3, None, &base).unwrap();
    let frame = EntryFrame { x_offset: 1, y_offset: 1, total_width: 4, total_height: 4 };
    let e2 = validate_entry(b"b".to_vec(), 3, 3, 3, 3, Some(frame), &base).unwrap();
    let pack = Pack::new(vec![Page::new(b"p".to_vec(), vec![e1, e2], base)]);
    let bytes = pack.write().unwrap();
    let decoded = Pack::read(&bytes).unwrap();
    assert_eq!(decoded, pack);
}
