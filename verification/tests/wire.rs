use routing::wire::{
    read_bytes, read_head, write_bytes, write_head, Head, MAJOR_ARRAY, MAJOR_BYTES, MAJOR_TAG,
};

fn head(major: u8, arg: u64) -> Vec<u8> {
    let mut out = Vec::new();
    write_head(&mut out, major, arg);
    out
}

#[test]
fn major_types_are_those_of_the_format() {
    assert_eq!(MAJOR_BYTES, 2);
    assert_eq!(MAJOR_ARRAY, 4);
    assert_eq!(MAJOR_TAG, 6);
}

#[test]
fn heads_take_the_shortest_form() {
    assert_eq!(head(0, 0), vec![0x00]);
    assert_eq!(head(4, 23), vec![0x97]);
    assert_eq!(head(4, 24), vec![0x98, 24]);
    assert_eq!(head(2, 255), vec![0x58, 0xff]);
    assert_eq!(head(2, 256), vec![0x59, 0x01, 0x00]);
    assert_eq!(head(2, 65_535), vec![0x59, 0xff, 0xff]);
    assert_eq!(head(2, 65_536), vec![0x5a, 0x00, 0x01, 0x00, 0x00]);
    assert_eq!(head(6, 5_483_001), vec![0xda, 0x00, 0x53, 0xa9, 0xf9]);
    assert_eq!(head(6, 4_294_967_295), vec![0xda, 0xff, 0xff, 0xff, 0xff]);
    assert_eq!(head(6, 4_294_967_296), vec![0xdb, 0, 0, 0, 1, 0, 0, 0, 0]);
    assert_eq!(
        head(7, 0x0102_0304_0506_0708),
        vec![0xfb, 0x01, 0x02, 0x03, 0x04, 0x05, 0x06, 0x07, 0x08]
    );
    assert_eq!(head(1, u64::MAX), vec![0x3b, 0xff, 0xff, 0xff, 0xff, 0xff, 0xff, 0xff, 0xff]);
}

#[test]
fn heads_are_read_back() {
    let args: [u64; 12] = [
        0,
        23,
        24,
        255,
        256,
        65_535,
        65_536,
        5_483_001,
        4_294_967_295,
        4_294_967_296,
        0x0102_0304_0506_0708,
        u64::MAX,
    ];
    for major in 0..8u8 {
        for arg in args.iter() {
            let bytes = head(major, *arg);
            assert_eq!(read_head(&bytes, 0), Some((Head { major, arg: *arg }, bytes.len())));
        }
    }
}

#[test]
fn heads_are_appended_and_read_in_place() {
    let mut out = vec![0xaa, 0xbb];
    write_head(&mut out, 4, 300);
    assert_eq!(out, vec![0xaa, 0xbb, 0x99, 0x01, 0x2c]);
    assert_eq!(read_head(&out, 2), Some((Head { major: 4, arg: 300 }, 5)));
}

#[test]
fn heads_in_a_wider_form_are_read() {
    assert_eq!(read_head(&[0x18, 0x05], 0), Some((Head { major: 0, arg: 5 }, 2)));
    assert_eq!(read_head(&[0x59, 0x00, 0x05], 0), Some((Head { major: 2, arg: 5 }, 3)));
    assert_eq!(read_head(&[0x9a, 0, 0, 0, 5], 0), Some((Head { major: 4, arg: 5 }, 5)));
    assert_eq!(
        read_head(&[0xdb, 0, 0, 0, 0, 0, 0, 0, 5], 0),
        Some((Head { major: 6, arg: 5 }, 9))
    );
}

#[test]
fn heads_that_are_cut_or_indefinite_are_not_read() {
    assert_eq!(read_head(&[], 0), None);
    assert_eq!(read_head(&[0x00], 1), None);
    assert_eq!(read_head(&[0x00], 7), None);
    assert_eq!(read_head(&[0x18], 0), None);
    assert_eq!(read_head(&[0x19, 0x01], 0), None);
    assert_eq!(read_head(&[0x1a, 0, 0, 0], 0), None);
    assert_eq!(read_head(&[0x1b, 0, 0, 0, 0, 0, 0, 0], 0), None);
    assert_eq!(read_head(&[0x1c], 0), None);
    assert_eq!(read_head(&[0x1d], 0), None);
    assert_eq!(read_head(&[0x1e], 0), None);
    assert_eq!(read_head(&[0x9f], 0), None);
}

#[test]
fn byte_strings_are_written_with_their_length() {
    let mut out = Vec::new();
    write_bytes(&mut out, &vec![]);
    assert_eq!(out, vec![0x40]);
    write_bytes(&mut out, &vec![1, 2, 3]);
    assert_eq!(out, vec![0x40, 0x43, 1, 2, 3]);
    let mut long = Vec::new();
    write_bytes(&mut long, &vec![7; 24]);
    assert_eq!(&long[..2], &[0x58, 24]);
    assert_eq!(long.len(), 26);
}

#[test]
fn byte_strings_are_read_back() {
    let bytes = vec![0x40, 0x43, 1, 2, 3, 0xff];
    assert_eq!(read_bytes(&bytes, 0), Some((vec![], 1)));
    assert_eq!(read_bytes(&bytes, 1), Some((vec![1, 2, 3], 5)));
}

#[test]
fn byte_strings_of_another_type_or_cut_short_are_not_read() {
    // an array head where a byte string is expected
    assert_eq!(read_bytes(&[0x83, 1, 2, 3], 0), None);
    // three bytes announced, two there
    assert_eq!(read_bytes(&[0x43, 1, 2], 0), None);
    // a length that no input can hold
    assert_eq!(read_bytes(&[0x5b, 0xff, 0xff, 0xff, 0xff, 0xff, 0xff, 0xff, 0xff, 1], 0), None);
    assert_eq!(read_bytes(&[], 0), None);
}
