use openjph_core::codestream::bitbuffer_read::BitBufferRead;
use openjph_core::codestream::bitbuffer_write::BitBufferWrite;

#[test]
fn writer_packs_bits_most_significant_first() {
    let mut w = BitBufferWrite::new();
    assert!(w.is_empty());
    w.write(0xA, 4);
    assert!(!w.is_empty());
    w.write(0x5, 4);
    assert!(!w.finalize());
    assert_eq!(w.get_data(), &[0xA5]);
    assert_eq!(w.len(), 1);
}

#[test]
fn writer_pads_last_byte_with_zeros() {
    let mut w = BitBufferWrite::new();
    w.write(0b101, 3);
    assert!(!w.finalize());
    assert_eq!(w.into_data(), vec![0b1010_0000]);
}

#[test]
fn writer_appends_zero_after_final_ff() {
    let mut w = BitBufferWrite::new();
    w.write(0xFF, 8);
    assert!(w.finalize());
    assert_eq!(w.get_data(), &[0xFF, 0x00]);
}

#[test]
fn writer_stuffs_a_zero_bit_after_ff() {
    let mut w = BitBufferWrite::new();
    w.write(0xFF, 8);
    w.write(0x7F, 7);
    assert!(!w.finalize());
    assert_eq!(w.get_data(), &[0xFF, 0x7F]);

    let mut w = BitBufferWrite::new();
    w.write(0xFF, 8);
    w.write(1, 1);
    assert!(!w.finalize());
    assert_eq!(w.get_data(), &[0xFF, 0x40]);
}

#[test]
fn writer_flushes_once_32_bits_are_pending() {
    let mut w = BitBufferWrite::new();
    w.write(0x1234_5678, 32);
    assert_eq!(w.get_data(), &[0x12, 0x34, 0x56, 0x78]);
    assert!(!w.is_empty());
}

#[test]
fn writer_reset_empties_it() {
    let mut w = BitBufferWrite::default();
    w.write(0xFFFF_FFFF, 32);
    w.reset();
    assert!(w.is_empty());
    assert_eq!(w.len(), 0);
    w.write(1, 8);
    assert!(!w.finalize());
    assert_eq!(w.get_data(), &[1]);
}

#[test]
fn reader_unstuffs_after_ff() {
    let data = [0xFF, 0x40];
    let mut r = BitBufferRead::new(&data);
    assert_eq!(r.read(8), 0xFF);
    assert_eq!(r.read(1), 1);
    assert_eq!(r.position(), 2);
    assert!(!r.is_unstuffing());
}

#[test]
fn reader_fill_peek_advance() {
    let data = [0x12, 0x34, 0x56, 0x78, 0x9A];
    let mut r = BitBufferRead::new(&data);
    assert_eq!(r.available_bits(), 0);
    r.fill();
    assert_eq!(r.available_bits(), 32);
    assert_eq!(r.position(), 4);
    assert_eq!(r.peek(8), 0x12);
    r.advance(4);
    assert_eq!(r.peek(8), 0x23);
    assert_eq!(r.read(12), 0x234);
    assert_eq!(r.available_bits(), 16);
}

#[test]
fn reader_fill_adds_up_to_32_bits() {
    let data = [0x01, 0x02, 0x03, 0x04, 0x05, 0x06];
    let mut r = BitBufferRead::new(&data);
    r.fill();
    assert_eq!(r.available_bits(), 32);
    assert_eq!(r.position(), 4);
    assert_eq!(r.peek(32), 0x01020304);
    r.advance(30);
    r.fill();
    assert_eq!(r.available_bits(), 18);
    assert_eq!(r.position(), 6);
    assert_eq!(r.read(18), 0x0_0506);
}

#[test]
fn reader_fill_stops_before_passing_32_bits_after_ff() {
    let data = [0xFF, 0x7F, 0xFF, 0x7F, 0xFF, 0x7F];
    let mut r = BitBufferRead::new(&data);
    r.fill();
    // 8 + 7 + 8 + 7 bits; a fifth byte would pass 32.
    assert_eq!(r.available_bits(), 30);
    assert_eq!(r.position(), 4);
    let mut r = BitBufferRead::new(&data);
    assert_eq!(r.read(8), 0xFF);
    assert_eq!(r.read(32), 0xFFFF_FFFF);
}

#[test]
fn reader_zero_bits() {
    let data = [0xAB];
    let mut r = BitBufferRead::new(&data);
    assert_eq!(r.peek(0), 0);
    assert_eq!(r.read(0), 0);
    assert_eq!(r.available_bits(), 0);
    assert_eq!(r.position(), 0);
    assert_eq!(r.read(8), 0xAB);
}

#[test]
fn writer_writes_nothing_for_zero_bits() {
    let mut w = BitBufferWrite::new();
    w.write(5, 0);
    assert!(w.is_empty());
    assert_eq!(w.len(), 0);
    w.write(1, 1);
    assert!(!w.finalize());
    assert_eq!(w.get_data(), &[0x80]);
}

#[test]
fn reader_reports_pending_unstuff() {
    let data = [0xFF];
    let mut r = BitBufferRead::new(&data);
    r.fill();
    assert!(r.is_unstuffing());
    let other = [0x01];
    r.reset(&other);
    assert_eq!(r.position(), 0);
    assert_eq!(r.available_bits(), 0);
    assert!(!r.is_unstuffing());
    assert_eq!(r.read(8), 1);
}

#[test]
fn written_fields_read_back() {
    let fields: [(u32, u32); 8] = [
        (5, 3),
        (0x1FF, 9),
        (0xABCD, 16),
        (0xFFFF_FFFF, 32),
        (0, 5),
        (1, 1),
        (0x7F, 7),
        (0x3FFF_FFFF, 30),
    ];
    let mut w = BitBufferWrite::new();
    for &(v, n) in &fields {
        w.write(v, n);
    }
    w.finalize();
    let data = w.into_data();
    for pair in data.windows(2) {
        if pair[0] == 0xFF {
            assert!(pair[1] < 0x80);
        }
    }
    assert_ne!(*data.last().unwrap(), 0xFF);
    let mut r = BitBufferRead::new(&data);
    for &(v, n) in &fields {
        assert_eq!(r.read(n), v);
    }
}

#[test]
fn all_ones_stream_reads_back() {
    let mut w = BitBufferWrite::new();
    for _ in 0..10 {
        w.write(0xFFFF_FFFF, 32);
    }
    assert!(!w.finalize() || *w.get_data().last().unwrap() == 0);
    let data = w.into_data();
    let mut r = BitBufferRead::new(&data);
    for _ in 0..10 {
        assert_eq!(r.read(32), 0xFFFF_FFFF);
    }
}

#[test]
fn advance_drops_exactly_n_bits() {
    let data = [0b1011_0110, 0b0101_1100, 0x3C, 0xA5];
    let mut r = BitBufferRead::new(&data);
    r.fill();
    let before = r.peek(20);
    r.advance(7);
    assert_eq!(r.peek(13), before & ((1 << 13) - 1));
    assert_eq!(r.available_bits(), 25);
    assert_eq!(r.position(), 4);
}
