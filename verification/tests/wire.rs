use ink_log::runtime::{DispatchError, LoggerExt};
use ink_log::transport::LogRecord;
use ink_log::wire::{decode_record, encode_record, read_length, write_length};
use parity_scale_codec::{Compact, Decode, DecodeAll, Encode};

fn record(level: u32, target: &[u8], args: &[u8]) -> LogRecord {
    LogRecord { level, target: target.to_vec(), args: args.to_vec() }
}

fn filled(len: usize) -> Vec<u8> {
    let mut data = Vec::with_capacity(len);
    for i in 0..len {
        data.push((i % 251) as u8);
    }
    data
}

#[test]
fn wire_form_of_a_small_record() {
    let bytes = record(3, b"svc", b"started").encode().unwrap();
    assert_eq!(
        bytes,
        vec![3, 0, 0, 0, 12, b's', b'v', b'c', 28, b's', b't', b'a', b'r', b't', b'e', b'd']
    );
}

#[test]
fn level_is_written_least_significant_byte_first() {
    let bytes = record(0x0403_0201, b"", b"").encode().unwrap();
    assert_eq!(bytes, vec![1, 2, 3, 4, 0, 0]);
    let bytes = record(u32::MAX, b"", b"").encode().unwrap();
    assert_eq!(bytes, vec![255, 255, 255, 255, 0, 0]);
}

#[test]
fn length_prefix_takes_the_shortest_form() {
    let bytes = encode_record(1, &filled(63), &[]).unwrap();
    assert_eq!(bytes[4], 63 << 2);
    assert_eq!(bytes.len(), 4 + 1 + 63 + 1);

    let bytes = encode_record(1, &filled(64), &[]).unwrap();
    assert_eq!(&bytes[4..6], &[0x01, 0x01]);
    assert_eq!(bytes.len(), 4 + 2 + 64 + 1);

    let bytes = encode_record(1, &filled(16383), &[]).unwrap();
    assert_eq!(&bytes[4..6], &[0xfd, 0xff]);
    assert_eq!(bytes.len(), 4 + 2 + 16383 + 1);

    let bytes = encode_record(1, &filled(16384), &[]).unwrap();
    assert_eq!(&bytes[4..8], &[0x02, 0x00, 0x01, 0x00]);
    assert_eq!(bytes.len(), 4 + 4 + 16384 + 1);
}

#[test]
fn decoding_gives_back_every_field() {
    for (level, target_len, args_len) in [
        (0u32, 0usize, 0usize),
        (1, 1, 63),
        (2, 63, 64),
        (3, 64, 65),
        (4, 16383, 16384),
        (5, 16384, 16385),
        (6, 70000, 3),
        (u32::MAX, 5, 100000),
    ] {
        let original = record(level, &filled(target_len), &filled(args_len));
        let bytes = original.encode().unwrap();
        let decoded = LoggerExt::decode(&bytes).unwrap();
        assert_eq!(decoded.level, original.level);
        assert_eq!(decoded.target, original.target);
        assert_eq!(decoded.args, original.args);
        let (l, t, a) = decode_record(&bytes).unwrap();
        assert_eq!((l, t, a), (original.level, original.target, original.args));
    }
}

#[test]
fn wire_form_is_that_of_the_scale_codec() {
    for (level, target_len, args_len) in [
        (0u32, 0usize, 0usize),
        (1, 1, 63),
        (2, 63, 64),
        (3, 64, 65),
        (4, 16383, 16384),
        (5, 16384, 16385),
        (77, 70000, 3),
        (u32::MAX, 5, 100000),
    ] {
        let target = filled(target_len);
        let args = filled(args_len);
        let ours = encode_record(level, &target, &args).unwrap();
        let theirs = (level, target.clone(), args.clone()).encode();
        assert_eq!(ours, theirs);
        let back = <(u32, Vec<u8>, Vec<u8>)>::decode_all(&mut &ours[..]).unwrap();
        assert_eq!(back, (level, target.clone(), args.clone()));
        let read = LoggerExt::decode(&theirs).unwrap();
        assert_eq!((read.level, read.target, read.args), (level, target, args));
    }
}

fn both_refuse(input: &[u8]) {
    assert_eq!(LoggerExt::decode(input), Err(DispatchError::MalformedRecord));
    assert_eq!(decode_record(input), None);
    assert!(<(u32, Vec<u8>, Vec<u8>)>::decode_all(&mut &input[..]).is_err());
}

#[test]
fn cut_short_input_is_malformed() {
    both_refuse(&[]);
    both_refuse(&[3, 0, 0]);
    both_refuse(&[3, 0, 0, 0]);
    // a two-byte prefix of which only the first byte is there
    both_refuse(&[3, 0, 0, 0, 0x01]);
    // a four-byte prefix of which only three bytes are there
    both_refuse(&[3, 0, 0, 0, 0x02, 0x00, 0x01]);
    // a five-byte prefix of which only four bytes are there
    both_refuse(&[3, 0, 0, 0, 0x03, 0x00, 0x00, 0x00]);
    // the target is announced with three bytes and has two
    both_refuse(&[3, 0, 0, 0, 12, b's', b'v']);
    // the message is missing
    both_refuse(&[3, 0, 0, 0, 12, b's', b'v', b'c']);
    // the message is announced with seven bytes and has six
    both_refuse(&[3, 0, 0, 0, 12, b's', b'v', b'c', 28, b's', b't', b'a', b'r', b't', b'e']);
    // a length of a gigabyte with nothing behind it
    both_refuse(&[3, 0, 0, 0, 0x03, 0x00, 0x00, 0x00, 0x40]);
}

#[test]
fn every_cut_of_a_wire_form_is_malformed() {
    let bytes = record(3, b"svc", &filled(70)).encode().unwrap();
    for cut in 0..bytes.len() {
        both_refuse(&bytes[..cut]);
    }
    assert!(LoggerExt::decode(&bytes).is_ok());
}

#[test]
fn bytes_left_over_are_malformed() {
    let mut bytes = record(3, b"svc", b"started").encode().unwrap();
    bytes.push(0);
    both_refuse(&bytes);
}

#[test]
fn a_length_prefix_in_a_longer_form_is_malformed() {
    // 3 written in two bytes
    both_refuse(&[3, 0, 0, 0, 0x0d, 0x00, b's', b'v', b'c', 0]);
    // 3 written in four bytes
    both_refuse(&[3, 0, 0, 0, 0x0e, 0x00, 0x00, 0x00, b's', b'v', b'c', 0]);
    // 3 written in five bytes
    both_refuse(&[3, 0, 0, 0, 0x03, 0x03, 0x00, 0x00, 0x00, b's', b'v', b'c', 0]);
    // a prefix that announces more than four bytes of length
    both_refuse(&[3, 0, 0, 0, 0x07, 0x03, 0x00, 0x00, 0x00, 0x00, b's', b'v', b'c', 0]);
}

#[test]
fn length_prefixes_byte_by_byte() {
    let cases: [(u32, &[u8]); 11] = [
        (0, &[0x00]),
        (1, &[0x04]),
        (63, &[0xfc]),
        (64, &[0x01, 0x01]),
        (16383, &[0xfd, 0xff]),
        (16384, &[0x02, 0x00, 0x01, 0x00]),
        (1073741823, &[0xfe, 0xff, 0xff, 0xff]),
        (1073741824, &[0x03, 0x00, 0x00, 0x00, 0x40]),
        (0x0403_0201, &[0x06, 0x08, 0x0c, 0x10]),
        (0x4403_0201, &[0x03, 0x01, 0x02, 0x03, 0x44]),
        (u32::MAX, &[0x03, 0xff, 0xff, 0xff, 0xff]),
    ];
    for (len, bytes) in cases {
        let mut out = vec![0xaa];
        write_length(&mut out, len);
        assert_eq!(&out[1..], bytes);
        assert_eq!(read_length(bytes), Some((len, bytes.len())));
    }
}

#[test]
fn length_prefixes_are_those_of_the_scale_codec() {
    let lens = [
        0u32,
        1,
        62,
        63,
        64,
        65,
        255,
        256,
        16382,
        16383,
        16384,
        16385,
        65535,
        65536,
        (1 << 30) - 1,
        1 << 30,
        (1 << 30) + 1,
        u32::MAX - 1,
        u32::MAX,
    ];
    for len in lens {
        let mut ours = Vec::new();
        write_length(&mut ours, len);
        let theirs = Compact(len).encode();
        assert_eq!(ours, theirs);
        assert_eq!(read_length(&theirs), Some((len, theirs.len())));
        let mut longer = theirs.clone();
        longer.extend_from_slice(&[1, 2, 3]);
        assert_eq!(read_length(&longer), Some((len, theirs.len())));
        for cut in 0..theirs.len() {
            assert_eq!(read_length(&theirs[..cut]), None);
        }
    }
}

fn as_the_scale_codec_reads(input: &[u8]) -> Option<(u32, usize)> {
    let mut rest = input;
    match Compact::<u32>::decode(&mut rest) {
        Ok(Compact(len)) => Some((len, input.len() - rest.len())),
        Err(_) => None,
    }
}

#[test]
fn length_prefixes_are_read_as_the_scale_codec_reads_them() {
    for b0 in 0..=255u8 {
        for b1 in 0..=255u8 {
            for tail in [[0u8, 0, 0], [0xff, 0xff, 0xff], [0, 0, 0x40], [0xff, 0xff, 0x3f]] {
                let input = [b0, b1, tail[0], tail[1], tail[2]];
                for take in 0..=input.len() {
                    assert_eq!(
                        read_length(&input[..take]),
                        as_the_scale_codec_reads(&input[..take])
                    );
                }
            }
        }
    }
}
