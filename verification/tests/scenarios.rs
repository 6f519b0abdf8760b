use bytebuf::encoding::{get_bytes_u16, get_bytes_u32, get_bytes_u64};
use bytebuf::{ByteBuf, ByteBufMut};

#[test]
fn encodes_u16_most_significant_first() {
    assert_eq!(get_bytes_u16(0x1234), [0x12, 0x34]);
    assert_eq!(get_bytes_u16(0), [0, 0]);
    assert_eq!(get_bytes_u16(u16::MAX), [0xFF, 0xFF]);
    assert_eq!(get_bytes_u16(0x00FF), [0x00, 0xFF]);
}

#[test]
fn encodes_u32_most_significant_first() {
    assert_eq!(get_bytes_u32(0x12345678), [0x12, 0x34, 0x56, 0x78]);
    assert_eq!(get_bytes_u32(1), [0, 0, 0, 1]);
    assert_eq!(get_bytes_u32(u32::MAX), [0xFF; 4]);
}

#[test]
fn encodes_u64_most_significant_first() {
    assert_eq!(
        get_bytes_u64(0x0102030405060708),
        [0x01, 0x02, 0x03, 0x04, 0x05, 0x06, 0x07, 0x08]
    );
    assert_eq!(get_bytes_u64(0x8000000000000000), [0x80, 0, 0, 0, 0, 0, 0, 0]);
    assert_eq!(get_bytes_u64(u64::MAX), [0xFF; 8]);
}

#[test]
fn wrap_starts_at_zero() {
    let mut buf: [u8; 3] = [9, 8, 7];
    {
        let bb = ByteBufMut::wrap(&mut buf);
        assert_eq!(bb.position(), 0);
    }
    assert_eq!(buf, [9, 8, 7]);
    let rb = ByteBuf::wrap(&buf);
    assert_eq!(rb.position(), 0);
}

#[test]
fn big_endian_byte_order() {
    let mut buf: [u8; 4] = [0; 4];
    let mut bb = ByteBufMut::wrap(&mut buf);
    bb.put_u32(0xAABBCCDD);
    assert_eq!(buf, [0xAA, 0xBB, 0xCC, 0xDD]);
}

#[test]
fn exact_fit_write() {
    let mut buf: [u8; 8] = [0x55; 8];
    let mut bb = ByteBufMut::wrap(&mut buf);
    assert_eq!(bb.put_u64(0xAABBCCDDEEFFABCD), 8);
    assert_eq!(bb.position(), 8);
    assert_eq!(buf, [0xAA, 0xBB, 0xCC, 0xDD, 0xEE, 0xFF, 0xAB, 0xCD]);
}

#[test]
fn saturating_short_write() {
    let mut buf: [u8; 1] = [0];
    let mut bb = ByteBufMut::wrap(&mut buf);
    assert_eq!(bb.put_u16(0xABCD), 1);
    assert_eq!(bb.position(), 2);
    assert_eq!(bb.put_u8(0x77), 0);
    assert_eq!(bb.position(), 3);
    assert_eq!(buf, [0xAB]);
}

#[test]
fn short_write_keeps_leading_bytes() {
    let mut buf: [u8; 4] = [0; 4];
    let mut bb = ByteBufMut::wrap(&mut buf);
    assert_eq!(bb.put_u8(0x01), 1);
    assert_eq!(bb.put_u32(0xAABBCCDD), 3);
    assert_eq!(bb.position(), 5);
    assert_eq!(buf, [0x01, 0xAA, 0xBB, 0xCC]);

    let mut wide: [u8; 5] = [0; 5];
    let mut bw = ByteBufMut::wrap(&mut wide);
    assert_eq!(bw.put_u64(0x0102030405060708), 5);
    assert_eq!(bw.position(), 8);
    assert_eq!(wide, [0x01, 0x02, 0x03, 0x04, 0x05]);
}

#[test]
fn write_after_exhaustion_stores_nothing_and_moves_on() {
    let mut buf: [u8; 2] = [0; 2];
    let mut bb = ByteBufMut::wrap(&mut buf);
    assert_eq!(bb.put_u16(0x0102), 2);
    assert_eq!(bb.put_u8(3), 0);
    assert_eq!(bb.position(), 3);
    assert_eq!(bb.put_u16(4), 0);
    assert_eq!(bb.position(), 5);
    assert_eq!(bb.put_u32(5), 0);
    assert_eq!(bb.position(), 9);
    assert_eq!(bb.put_u64(6), 0);
    assert_eq!(bb.position(), 17);
    assert_eq!(buf, [0x01, 0x02]);
}

#[test]
fn write_into_empty_region() {
    let mut buf: [u8; 0] = [];
    let mut bb = ByteBufMut::wrap(&mut buf);
    assert_eq!(bb.put_u32(0xFFFFFFFF), 0);
    assert_eq!(bb.position(), 4);
}

#[test]
fn write_leaves_other_bytes_alone() {
    let mut buf: [u8; 6] = [0x11, 0x22, 0x33, 0x44, 0x55, 0x66];
    let mut bb = ByteBufMut::wrap(&mut buf);
    assert_eq!(bb.put_u8(0xA0), 1);
    assert_eq!(bb.put_u16(0xB0B1), 2);
    assert_eq!(buf, [0xA0, 0xB0, 0xB1, 0x44, 0x55, 0x66]);
}

#[test]
fn write_position_is_sum_of_widths() {
    let mut buf: [u8; 3] = [0; 3];
    let mut bb = ByteBufMut::wrap(&mut buf);
    let mut last: usize = bb.position();
    let mut sum: usize = 0;
    bb.put_u16(1);
    sum += 2;
    assert!(bb.position() >= last);
    assert_eq!(bb.position(), sum);
    last = bb.position();
    bb.put_u64(2);
    sum += 8;
    assert!(bb.position() >= last);
    assert_eq!(bb.position(), sum);
    last = bb.position();
    bb.put_u8(3);
    sum += 1;
    assert!(bb.position() >= last);
    assert_eq!(bb.position(), sum);
    last = bb.position();
    bb.put_u32(4);
    sum += 4;
    assert!(bb.position() >= last);
    assert_eq!(bb.position(), 15);
    assert_eq!(bb.position(), sum);
}

#[test]
fn read_insufficiency() {
    let buf: [u8; 1] = [0xAA];
    let mut bb = ByteBuf::wrap(&buf);
    assert_eq!(bb.get_u16(), None);
    assert_eq!(bb.position(), 0);
}

#[test]
fn read_from_empty_region() {
    let buf: [u8; 0] = [];
    let mut bb = ByteBuf::wrap(&buf);
    assert_eq!(bb.get_u8(), None);
    assert_eq!(bb.get_u16(), None);
    assert_eq!(bb.get_u32(), None);
    assert_eq!(bb.get_u64(), None);
    assert_eq!(bb.position(), 0);
}

#[test]
fn short_read_is_all_or_nothing() {
    let buf: [u8; 7] = [1, 2, 3, 4, 5, 6, 7];
    let mut bb = ByteBuf::wrap(&buf);
    assert_eq!(bb.get_u64(), None);
    assert_eq!(bb.position(), 0);
    assert_eq!(bb.get_u32(), Some(0x01020304));
    assert_eq!(bb.position(), 4);
    assert_eq!(bb.get_u32(), None);
    assert_eq!(bb.position(), 4);
    assert_eq!(bb.get_u16(), Some(0x0506));
    assert_eq!(bb.position(), 6);
    assert_eq!(bb.get_u16(), None);
    assert_eq!(bb.position(), 6);
    assert_eq!(bb.get_u8(), Some(7));
    assert_eq!(bb.position(), 7);
    assert_eq!(bb.get_u8(), None);
    assert_eq!(bb.position(), 7);
}

#[test]
fn read_position_is_sum_of_successful_widths() {
    let buf: [u8; 5] = [0, 1, 0, 2, 3];
    let mut bb = ByteBuf::wrap(&buf);
    let mut sum: usize = 0;
    assert_eq!(bb.get_u16(), Some(1));
    sum += 2;
    assert_eq!(bb.position(), sum);
    assert_eq!(bb.get_u32(), None);
    assert_eq!(bb.position(), sum);
    assert_eq!(bb.get_u16(), Some(2));
    sum += 2;
    assert_eq!(bb.position(), sum);
    assert_eq!(bb.get_u16(), None);
    assert_eq!(bb.position(), sum);
    assert_eq!(bb.get_u8(), Some(3));
    sum += 1;
    assert_eq!(bb.position(), sum);
    assert_eq!(bb.position(), 5);
}

#[test]
fn decodes_most_significant_first() {
    let buf: [u8; 15] = [
        0x80, 0x80, 0x01, 0x80, 0x00, 0x00, 0x01, 0x80, 0x00, 0x00, 0x00, 0x00, 0x00, 0x00, 0x01,
    ];
    let mut bb = ByteBuf::wrap(&buf);
    assert_eq!(bb.get_u8(), Some(0x80));
    assert_eq!(bb.get_u16(), Some(0x8001));
    assert_eq!(bb.get_u32(), Some(0x80000001));
    assert_eq!(bb.get_u64(), Some(0x8000000000000001));
}

#[test]
fn decodes_all_ones() {
    let buf: [u8; 15] = [0xFF; 15];
    let mut bb = ByteBuf::wrap(&buf);
    assert_eq!(bb.get_u8(), Some(u8::MAX));
    assert_eq!(bb.get_u16(), Some(u16::MAX));
    assert_eq!(bb.get_u32(), Some(u32::MAX));
    assert_eq!(bb.get_u64(), Some(u64::MAX));
    assert_eq!(bb.position(), 15);
}

#[test]
fn round_trip_u8() {
    let values: [u8; 4] = [0, 1, 0x7F, u8::MAX];
    for v in values {
        let mut buf: [u8; 3] = [0xEE; 3];
        {
            let mut w = ByteBufMut::wrap(&mut buf);
            w.put_u16(0);
            assert_eq!(w.put_u8(v), 1);
        }
        let mut r = ByteBuf::wrap(&buf);
        r.get_u16();
        assert_eq!(r.get_u8(), Some(v));
    }
}

#[test]
fn round_trip_u16() {
    let values: [u16; 5] = [0, 1, 0x00FF, 0xFF00, u16::MAX];
    for v in values {
        let mut buf: [u8; 3] = [0xEE; 3];
        {
            let mut w = ByteBufMut::wrap(&mut buf);
            w.put_u8(0);
            assert_eq!(w.put_u16(v), 2);
        }
        let mut r = ByteBuf::wrap(&buf);
        r.get_u8();
        assert_eq!(r.get_u16(), Some(v));
    }
}

#[test]
fn round_trip_u32() {
    let values: [u32; 5] = [0, 1, 0xDEADBEEF, 0x00FF00FF, u32::MAX];
    for v in values {
        let mut buf: [u8; 5] = [0xEE; 5];
        {
            let mut w = ByteBufMut::wrap(&mut buf);
            w.put_u8(0);
            assert_eq!(w.put_u32(v), 4);
        }
        let mut r = ByteBuf::wrap(&buf);
        r.get_u8();
        assert_eq!(r.get_u32(), Some(v));
    }
}

#[test]
fn round_trip_u64() {
    let values: [u64; 5] = [0, 1, 0x0123456789ABCDEF, 0xFF00FF00FF00FF00, u64::MAX];
    for v in values {
        let mut buf: [u8; 9] = [0xEE; 9];
        {
            let mut w = ByteBufMut::wrap(&mut buf);
            w.put_u8(0);
            assert_eq!(w.put_u64(v), 8);
        }
        let mut r = ByteBuf::wrap(&buf);
        r.get_u8();
        assert_eq!(r.get_u64(), Some(v));
    }
}

#[test]
fn sequential_mixed_width_round_trip() {
    let mut buf: [u8; 15] = [0; 15];
    {
        let mut w = ByteBufMut::wrap(&mut buf);
        assert_eq!(w.put_u8(1), 1);
        assert_eq!(w.put_u16(2), 2);
        assert_eq!(w.put_u32(3), 4);
        assert_eq!(w.put_u64(4), 8);
        assert_eq!(w.position(), 15);
    }
    assert_eq!(buf, [1, 0, 2, 0, 0, 0, 3, 0, 0, 0, 0, 0, 0, 0, 4]);
    let mut r = ByteBuf::wrap(&buf);
    assert_eq!(r.get_u8(), Some(1));
    assert_eq!(r.get_u16(), Some(2));
    assert_eq!(r.get_u32(), Some(3));
    assert_eq!(r.get_u64(), Some(4));
    assert_eq!(r.position(), 15);
}
