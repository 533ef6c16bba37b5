use lsled::encoder::Data;
use lsled::encoder::EncodeError;
use lsled::framer::chunks;
use lsled::mode::Mode;
use lsled::raster::rasterize;
use lsled::raster::Glyph;
use lsled::unit::Bitmap;

const GLYPH_A: [u8; 7] = [0x18, 0x24, 0x42, 0x7E, 0x42, 0x42, 0x42];

fn unit_with_data(data: Vec<u8>) -> Bitmap {
    let mut b = Bitmap::new();
    b.data = data;
    b
}

#[test]
fn empty_message_is_the_bare_header() {
    let d = Data::new();
    let out = d.to_bytes().expect("empty message encodes");
    assert_eq!(out.len(), 64);
    assert_eq!(&out[0..6], b"wang\0\0");
    for i in 6..64 {
        assert_eq!(out[i], 0, "byte {} of a header-only message", i);
    }
    let cs = chunks(&out, 16);
    assert_eq!(cs.len(), 4);
    for c in cs.iter() {
        assert_eq!(c.len(), 16);
    }
}

#[test]
fn single_unit_end_to_end() {
    let mut b = Bitmap::new();
    b.flash = false;
    b.marquee = false;
    b.mode = Mode::Fixed;
    b.speed = 5;
    b.put_string(&vec![Glyph { rows: GLYPH_A }]);

    let mut d = Data::new();
    d.push_bitmap(b);
    let out = d.to_bytes().expect("one well-formed slot encodes");

    assert_eq!(out.len(), 80);
    assert_eq!(&out[0..6], b"wang\0\0");
    assert_eq!(out[6], 0x00);
    assert_eq!(out[7], 0x00);
    assert_eq!(out[8], 0x54);
    for i in 9..16 {
        assert_eq!(out[i], 0);
    }
    assert_eq!(out[16], 0x00);
    assert_eq!(out[17], 0x01);
    for i in 18..64 {
        assert_eq!(out[i], 0, "byte {} of the fixed header", i);
    }
    assert_eq!(out[64], 0);
    assert_eq!(out[65], 0);
    for r in 0..7 {
        assert_eq!(out[66 + r], GLYPH_A[r]);
    }
    assert_eq!(out[73], 0);
    assert_eq!(out[74], 0);
    for i in 75..80 {
        assert_eq!(out[i], 0, "trailing padding byte {}", i);
    }
    let cs = chunks(&out, 16);
    assert_eq!(cs.len(), 5);
    for c in cs.iter() {
        assert_eq!(c.len(), 16);
    }
}

#[test]
fn flash_and_marquee_bitmasks_follow_slot_indices() {
    let mut d = Data::new();
    for i in 0..8 {
        let mut b = Bitmap::new();
        b.flash = i == 0 || i == 2 || i == 7;
        b.marquee = i == 1 || i == 3;
        d.push_bitmap(b);
    }
    let out = d.to_bytes().expect("eight empty slots encode");
    assert_eq!(out[6], 0b1000_0101);
    assert_eq!(out[7], 0b0000_1010);
}

#[test]
fn mode_bytes_pack_speed_and_mode_per_slot() {
    let mut d = Data::new();
    let mut first = Bitmap::new();
    first.mode = Mode::ScrollRight;
    first.speed = 15;
    let mut second = Bitmap::new();
    second.mode = Mode::Laser;
    second.speed = 0;
    d.push_bitmap(first);
    d.push_bitmap(second);
    let out = d.to_bytes().expect("two slots encode");
    assert_eq!(out[8], 0xF1);
    assert_eq!(out[9], 0x08);
    for i in 10..16 {
        assert_eq!(out[i], 0, "mode byte of unused slot {}", i - 8);
    }
}

#[test]
fn size_table_counts_row_groups_big_endian() {
    let mut d = Data::new();
    d.push_bitmap(unit_with_data(vec![1; 22]));
    d.push_bitmap(unit_with_data(vec![2; 33]));
    d.push_bitmap(unit_with_data(vec![3; 11 * 300]));
    let out = d.to_bytes().expect("three slots encode");
    assert_eq!(out[16], 0x00);
    assert_eq!(out[17], 0x02);
    assert_eq!(out[18], 0x00);
    assert_eq!(out[19], 0x03);
    assert_eq!(out[20], 0x01);
    assert_eq!(out[21], 0x2C);
    for i in 22..32 {
        assert_eq!(out[i], 0, "size byte of unused slot at offset {}", i);
    }
}

#[test]
fn payload_concatenates_slots_in_order() {
    let mut d = Data::new();
    d.push_bitmap(unit_with_data(vec![0xAA; 11]));
    d.push_bitmap(unit_with_data(vec![0xBB; 22]));
    let out = d.to_bytes().expect("two slots encode");
    for i in 64..75 {
        assert_eq!(out[i], 0xAA);
    }
    for i in 75..97 {
        assert_eq!(out[i], 0xBB);
    }
}

#[test]
fn trailing_padding_aligns_payload_to_sixteen() {
    let cases: [(usize, usize); 4] = [(0, 64), (11, 80), (33, 112), (176, 240)];
    for (payload_len, expected_total) in cases.iter() {
        let mut d = Data::new();
        if *payload_len > 0 {
            d.push_bitmap(unit_with_data(vec![0x11; *payload_len]));
        }
        let out = d.to_bytes().expect("well-formed slot encodes");
        assert_eq!(out.len(), *expected_total, "payload of {} bytes", payload_len);
        assert_eq!(out.len() % 16, 0);
        for i in 64 + payload_len..out.len() {
            assert_eq!(out[i], 0, "padding byte {}", i);
        }
    }
}

#[test]
fn more_than_eight_units_are_rejected() {
    let mut d = Data::new();
    for _ in 0..9 {
        d.push_bitmap(Bitmap::new());
    }
    assert_eq!(d.to_bytes(), Err(EncodeError::TooManyUnits));
}

#[test]
fn oversized_row_group_count_is_rejected() {
    let mut d = Data::new();
    d.push_bitmap(unit_with_data(vec![0; 11 * 65536]));
    assert_eq!(d.to_bytes(), Err(EncodeError::RowGroupOverflow));
}

#[test]
fn largest_representable_row_group_count_encodes() {
    let mut d = Data::new();
    d.push_bitmap(unit_with_data(vec![0; 11 * 65535]));
    let out = d.to_bytes().expect("a count of 65535 still fits the field");
    assert_eq!(out[16], 0xFF);
    assert_eq!(out[17], 0xFF);
}

#[test]
fn encoding_is_deterministic() {
    let mut d = Data::new();
    let mut b = Bitmap::new();
    b.flash = true;
    b.mode = Mode::Animation;
    b.speed = 9;
    b.data = rasterize(&vec![Glyph { rows: GLYPH_A }]);
    d.push_bitmap(b);
    let first = d.to_bytes().expect("encodes");
    let second = d.to_bytes().expect("encodes again");
    assert_eq!(first, second);
}
