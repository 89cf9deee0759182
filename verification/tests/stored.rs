use nft_art::zlib::{zlib_format, MAX_STORED_BLOCK};

fn sample(len: usize) -> Vec<u8> {
    (0..len).map(|i| (i * 31 + i / 251) as u8).collect()
}

#[test]
fn empty_input_has_its_fixed_stream() {
    assert_eq!(zlib_format(&[]), vec![0x78, 0x9c, 0x03, 0x00, 0x00, 0x00, 0x00, 0x01]);
}

#[test]
fn short_input_is_one_stored_block() {
    assert_eq!(
        zlib_format(b"abc"),
        vec![0x08, 0x1d, 0x01, 0x03, 0x00, 0xfc, 0xff, 0x61, 0x62, 0x63, 0x02, 0x4d, 0x01, 0x27]
    );
}

#[test]
fn one_byte_is_framed_like_any_other_input() {
    // Adler-32 of one zero byte: a = 1, b = 1
    assert_eq!(
        zlib_format(&[0]),
        vec![0x08, 0x1d, 0x01, 0x01, 0x00, 0xfe, 0xff, 0x00, 0x00, 0x01, 0x00, 0x01]
    );
}

#[test]
fn checksum_is_adler32_of_the_whole_input() {
    let stream = zlib_format(b"Wikipedia");
    assert_eq!(stream[stream.len() - 4..], [0x11, 0xe6, 0x03, 0x98]);
    let data = sample(70000);
    let stream = zlib_format(&data);
    let expected = adler::adler32_slice(&data).to_be_bytes();
    assert_eq!(stream[stream.len() - 4..], expected);
}

#[test]
fn a_full_block_is_still_one_block() {
    let data = sample(MAX_STORED_BLOCK);
    let stream = zlib_format(&data);
    assert_eq!(stream.len(), 2 + 5 + 65535 + 4);
    assert_eq!(stream[..7], [0x08, 0x1d, 0x01, 0xff, 0xff, 0x00, 0x00]);
    assert_eq!(stream[7..7 + 65535], data[..]);
}

#[test]
fn one_byte_more_than_a_block_makes_two() {
    let data = sample(65536);
    let stream = zlib_format(&data);
    assert_eq!(stream.len(), 2 + 5 + 65535 + 5 + 1 + 4);
    assert_eq!(stream[..7], [0x08, 0x1d, 0x00, 0xff, 0xff, 0x00, 0x00]);
    assert_eq!(stream[7..7 + 65535], data[..65535]);
    let second = 7 + 65535;
    assert_eq!(stream[second..second + 5], [0x01, 0x01, 0x00, 0xfe, 0xff]);
    assert_eq!(stream[second + 5], data[65535]);
}

#[test]
fn only_the_last_of_many_blocks_is_marked_final() {
    let data = sample(200000);
    let stream = zlib_format(&data);
    // four blocks: three full ones and one of 3395 bytes
    assert_eq!(stream.len(), 2 + 4 * 5 + 200000 + 4);
    for k in 0..4 {
        let at = 2 + k * (5 + 65535);
        let len = if k == 3 { 200000 - 3 * 65535 } else { 65535 };
        assert_eq!(stream[at], if k == 3 { 1 } else { 0 });
        assert_eq!(stream[at + 1..at + 3], (len as u16).to_le_bytes());
        assert_eq!(stream[at + 3..at + 5], (!(len as u16)).to_le_bytes());
        assert_eq!(stream[at + 5..at + 5 + len], data[k * 65535..k * 65535 + len]);
    }
}

#[test]
fn inflate_gives_the_input_back() {
    for len in [0usize, 1, 2, 255, 3104, 65534, 65535, 65536, 65537, 131070, 131071, 200000] {
        let data = sample(len);
        let stream = zlib_format(&data);
        let back = miniz_oxide::inflate::decompress_to_vec_zlib(&stream);
        assert_eq!(back.ok(), Some(data));
    }
}

#[test]
fn largest_block_size_is_what_sixteen_bits_hold() {
    assert_eq!(MAX_STORED_BLOCK, 65535);
}
