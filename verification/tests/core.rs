use nk::bytes::{align_up, read_u16, read_u32, read_u64, write_u16, write_u32, write_u64};
use nk::font::{glyph_index, parse_psf2, saturating_mul, Font, PSF2_MAGIC};
use nk::gdt::{build_gdt, code_descriptor, data_descriptor, tss_descriptor, user_selectors};
use nk::ipc::{Message, MessageBus};
use nk::keyboard::{decode, letter, KeyboardBuffer};
use nk::mouse::MouseState;
use nk::ring::ByteRing;
use nk::serial::SerialLog;

#[test]
fn little_endian_fields_read_back() {
    let mut b = vec![0u8; 16];
    write_u16(&mut b, 0, 0xbeef);
    write_u32(&mut b, 2, 0x1234_5678);
    write_u64(&mut b, 6, 0x0102_0304_0506_0708);
    assert_eq!(&b[0..2], &[0xef, 0xbe]);
    assert_eq!(&b[2..6], &[0x78, 0x56, 0x34, 0x12]);
    assert_eq!(read_u16(&b, 0), Some(0xbeef));
    assert_eq!(read_u32(&b, 2), Some(0x1234_5678));
    assert_eq!(read_u64(&b, 6), Some(0x0102_0304_0506_0708));
}

#[test]
fn field_past_the_end_is_none() {
    let b = [1u8, 2, 3];
    assert_eq!(read_u16(&b, 1), Some(0x0302));
    assert_eq!(read_u16(&b, 2), None);
    assert_eq!(read_u32(&b, 0), None);
    assert_eq!(read_u64(&b, 0), None);
    assert_eq!(read_u16(&b, 9), None);
}

#[test]
fn align_up_rounds_to_multiples() {
    assert_eq!(align_up(0, 8), 0);
    assert_eq!(align_up(1, 8), 8);
    assert_eq!(align_up(8, 8), 8);
    assert_eq!(align_up(4097, 4096), 8192);
}

#[test]
fn ring_is_first_in_first_out() {
    let mut r = ByteRing::new(4);
    assert!(!r.has_data());
    r.push(1);
    r.push(2);
    r.push(3);
    r.push(4);
    assert_eq!(r.pop(), Some(1));
    assert_eq!(r.pop(), Some(2));
    assert_eq!(r.pop(), Some(3));
    assert_eq!(r.pop(), None);
}

#[test]
fn ring_pop_up_to_takes_oldest() {
    let mut r = ByteRing::new(8);
    r.push_bytes(b"abcdef");
    assert_eq!(r.pop_up_to(4), b"abcd".to_vec());
    assert_eq!(r.pop_up_to(4), b"ef".to_vec());
    assert!(r.pop_up_to(4).is_empty());
}

#[test]
fn scancodes_decode_on_german_layout() {
    assert_eq!(decode(0x1e, false), Some(b'a'));
    assert_eq!(decode(0x1e, true), Some(b'A'));
    assert_eq!(decode(0x15, false), Some(b'z'));
    assert_eq!(decode(0x2c, false), Some(b'y'));
    assert_eq!(decode(0x02, true), Some(b'!'));
    assert_eq!(decode(0x1c, false), Some(b'\n'));
    assert_eq!(decode(0x04, true), None);
    assert_eq!(decode(0x58, false), None);
    assert_eq!(letter(b'q', true), b'Q');
}

#[test]
fn keyboard_tracks_shift_and_queues_arrows() {
    let mut k = KeyboardBuffer::new();
    assert_eq!(k.decode_scancode(0x2a), None);
    assert_eq!(k.decode_scancode(0x1e), Some(b'A'));
    assert_eq!(k.decode_scancode(0xaa), None);
    assert_eq!(k.decode_scancode(0x1e), Some(b'a'));
    assert_eq!(k.decode_scancode(0x1d), None);
    assert_eq!(k.decode_scancode(0x2e), Some(3));
    assert_eq!(k.decode_scancode(0x9d), None);
    assert!(!k.has_key());
    k.push_bytes(b"xy");
    assert_eq!(k.pop(), Some(b'x'));
    assert_eq!(k.pop(), Some(b'y'));
    assert_eq!(k.pop(), None);
}

#[test]
fn mouse_packet_moves_pointer() {
    let mut m = MouseState::new();
    assert_eq!(m.packed(), 320 + 65536 * 220);
    m.push(0x00);
    assert_eq!(m.index, 0);
    m.push(0x09);
    m.push(10);
    m.push(5);
    assert_eq!((m.x, m.y, m.buttons, m.sequence), (330, 215, 1, 1));
    m.push(0x38);
    m.push(0xf0);
    m.push(0xf6);
    assert_eq!((m.x, m.y, m.buttons), (314, 225, 0));
    assert_eq!(m.packed(), 314 + 65536 * 225 + 1099511627776 * 2);
}

#[test]
fn mouse_is_clamped_to_screen() {
    let mut m = MouseState::new();
    for _ in 0..10 {
        m.push(0x18);
        m.push(0x80);
        m.push(0);
    }
    assert_eq!(m.x, 0);
    for _ in 0..20 {
        m.push(0x28);
        m.push(0);
        m.push(0x80);
    }
    assert_eq!(m.y, 719);
}

#[test]
fn gdt_descriptors() {
    assert_eq!(code_descriptor(0), 0x0020_9800_0000_0000);
    assert_eq!(code_descriptor(3), 0x0020_f800_0000_0000);
    assert_eq!(data_descriptor(0), 0x0000_9200_0000_0000);
    assert_eq!(data_descriptor(3), 0x0000_f200_0000_0000);
    assert_eq!(tss_descriptor(0x1234_5678_9abc_def0, 103), (0x9a00_89bc_def0_0067, 0x1234_5678));
    let gdt = build_gdt(0x1000);
    assert_eq!(gdt.len(), 7);
    assert_eq!(gdt[0], 0);
    assert_eq!(gdt[4], code_descriptor(3));
    assert_eq!(gdt[6], 0);
    assert_eq!(user_selectors(), (0x23, 0x1b));
}

#[test]
fn serial_log_formats_numbers() {
    let mut s = SerialLog::new();
    s.write_line("nk: up");
    s.write_hex_u16(0x1a2b);
    s.write_str(" ");
    s.write_hex_u64(0xdead_beef);
    s.write_str(" ");
    s.write_dec_u8(7);
    s.write_str(" ");
    s.write_dec_u8(255);
    s.write_str_byte(b'!');
    assert_eq!(s.port, b"nk: up\n0x1a2b 0x00000000deadbeef 7 255!".to_vec());
    assert_eq!(s.log, b"nk: up\n0x1a2b 0x00000000deadbeef 7 255".to_vec());
}

fn psf2(glyphs: u32, width: u32, height: u32) -> Vec<u8> {
    let bytes_per_row = (width + 7) / 8;
    let glyph_size = bytes_per_row * height;
    let mut v = vec![0u8; 32];
    v[0..4].copy_from_slice(&PSF2_MAGIC.to_le_bytes());
    v[8..12].copy_from_slice(&32u32.to_le_bytes());
    v[16..20].copy_from_slice(&glyphs.to_le_bytes());
    v[20..24].copy_from_slice(&glyph_size.to_le_bytes());
    v[24..28].copy_from_slice(&height.to_le_bytes());
    v[28..32].copy_from_slice(&width.to_le_bytes());
    v.extend(std::iter::repeat(0u8).take((glyphs * glyph_size) as usize));
    v
}

#[test]
fn psf2_header_is_parsed() {
    let f: Font = parse_psf2(&psf2(95, 8, 16)).unwrap();
    assert_eq!((f.glyphs, f.glyph_size, f.width, f.height, f.bytes_per_row, f.glyph_offset, f.first), (95, 16, 8, 16, 1, 32, 32));
    assert_eq!(glyph_index(&f, b'A'), Some(33));
    assert_eq!(glyph_index(&f, b'~'), Some(94));
    let g = parse_psf2(&psf2(256, 9, 18)).unwrap();
    assert_eq!(g.bytes_per_row, 2);
    assert_eq!(glyph_index(&g, 200), Some(200));
}

#[test]
fn psf2_rejects_bad_headers() {
    let mut bad = psf2(95, 8, 16);
    bad[0] ^= 1;
    assert!(parse_psf2(&bad).is_none());
    assert!(parse_psf2(&psf2(95, 33, 16)).is_none());
    let truncated = psf2(95, 8, 16);
    assert!(parse_psf2(&truncated[..100]).is_none());
    assert!(parse_psf2(&[0u8; 10]).is_none());
}

#[test]
fn saturating_product() {
    assert_eq!(saturating_mul(3, 4), 12);
    assert_eq!(saturating_mul(usize::MAX, 2), usize::MAX);
}

#[test]
fn message_bus_takes_messages() {
    let mut bus = MessageBus::new();
    bus.publish(Message::new("kernel", "desktop", "paint"));
    let m = Message::new("a", "b", "c");
    assert_eq!((m.from, m.to, m.body), ("a", "b", "c"));
}
