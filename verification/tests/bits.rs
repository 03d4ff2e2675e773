use c6ol_core::game::bit::{BitReader, BitWriter};

#[test]
fn bit_writer_packs_lsb_first_and_pads_with_ones() {
    let mut buf = Vec::new();
    let mut writer = BitWriter::new(&mut buf);
    writer.write(5, 3);
    writer.write(2, 2);
    writer.finish();
    // 0b101 then 0b10 above it, then three one bits.
    assert_eq!(buf, vec![0xF5]);
}

#[test]
fn bit_writer_full_byte_needs_no_padding() {
    let mut buf = vec![0x11];
    let mut writer = BitWriter::new(&mut buf);
    writer.write(0xAB, 8);
    writer.finish();
    assert_eq!(buf, vec![0x11, 0xAB]);
}

#[test]
fn bit_writer_masks_high_bits() {
    let mut buf = Vec::new();
    let mut writer = BitWriter::new(&mut buf);
    writer.write(0xFF, 4);
    writer.write(0, 4);
    writer.finish();
    assert_eq!(buf, vec![0x0F]);
}

#[test]
fn bit_writer_varint_bytes() {
    let mut buf = Vec::new();
    let mut writer = BitWriter::new(&mut buf);
    writer.write_u32_varint(300, 8);
    writer.finish();
    assert_eq!(buf, vec![0xAC, 0x02]);

    let mut buf = Vec::new();
    let mut writer = BitWriter::new(&mut buf);
    writer.write_u32_varint(5, 3);
    writer.finish();
    assert_eq!(buf, vec![0xCD]);
}

#[test]
fn bit_reader_reads_values_and_padding() {
    let bytes = [0xCDu8];
    let mut slice = &bytes[..];
    let mut reader = BitReader::new(&mut slice);
    assert!(reader.has_remaining());
    assert_eq!(reader.read_u32_varint(3), Some(5));
    assert!(!reader.has_remaining());
}

#[test]
fn bit_reader_runs_out() {
    let bytes = [0xABu8];
    let mut slice = &bytes[..];
    let mut reader = BitReader::new(&mut slice);
    assert_eq!(reader.read(4), Some(0xB));
    assert_eq!(reader.read(4), Some(0xA));
    assert!(!reader.has_remaining());
    assert_eq!(reader.read(1), None);

    let empty: [u8; 0] = [];
    let mut slice = &empty[..];
    let mut reader = BitReader::new(&mut slice);
    assert!(!reader.has_remaining());
    assert_eq!(reader.read(8), None);
}

#[test]
fn bit_reader_leaves_unread_bytes() {
    let bytes = [0xABu8, 0xCD];
    let mut slice = &bytes[..];
    {
        let mut reader = BitReader::new(&mut slice);
        assert_eq!(reader.read(8), Some(0xAB));
    }
    assert_eq!(slice, &[0xCD]);
}

#[test]
fn bit_reader_varint_overflow() {
    let ok = [0xFFu8, 0xFF, 0xFF, 0xFF, 0x0F];
    let mut slice = &ok[..];
    let mut reader = BitReader::new(&mut slice);
    assert_eq!(reader.read_u32_varint(8), Some(u32::MAX));

    let too_big = [0xFFu8, 0xFF, 0xFF, 0xFF, 0x10];
    let mut slice = &too_big[..];
    let mut reader = BitReader::new(&mut slice);
    assert_eq!(reader.read_u32_varint(8), None);

    let truncated = [0xFFu8];
    let mut slice = &truncated[..];
    let mut reader = BitReader::new(&mut slice);
    assert_eq!(reader.read_u32_varint(8), None);
}

#[test]
fn bit_varint_roundtrip_all_widths() {
    for n_bits in 2..=8u8 {
        for &n in &[0u32, 1, 2, 3, 127, 128, 300, 65_535, 1 << 31, u32::MAX] {
            let mut buf = Vec::new();
            let mut writer = BitWriter::new(&mut buf);
            writer.write(1, 1);
            writer.write_u32_varint(n, n_bits);
            writer.write(0, 2);
            writer.finish();

            let mut slice = buf.as_slice();
            let mut reader = BitReader::new(&mut slice);
            assert_eq!(reader.read(1), Some(1));
            assert_eq!(reader.read_u32_varint(n_bits), Some(n), "{n} in {n_bits}-bit chunks");
            assert_eq!(reader.read(2), Some(0));
            assert!(!reader.has_remaining());
        }
    }
}
