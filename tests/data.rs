#![allow(overflowing_literals)]
use wavv::{Chunk, Data, Fmt};

#[test]
fn to_8_bit() {
    let data = Data::BitDepth8(vec![1, 2, 3, 4]);
    assert_eq!(data.to_chunk().bytes, &[1, 2, 3, 4]);
}

#[test]
fn to_16_bit() {
    let data = Data::BitDepth16(vec![1, 2, 3, 4]);
    assert_eq!(data.to_chunk().bytes, &[1, 0, 2, 0, 3, 0, 4, 0]);
}

#[test]
fn to_24_bit() {
    let data = Data::BitDepth24(vec![1, 2, 3, 4]);
    assert_eq!(data.to_chunk().bytes, &[1, 0, 0, 2, 0, 0, 3, 0, 0, 4, 0, 0]);
}

#[test]
fn from_8_bit() {
    let fmt = Fmt {
        bit_depth: 8,
        sample_rate: 48_000,
        num_channels: 1,
    };

    let bytes = [
        0x64, 0x61, 0x74, 0x61, // data
        0x04, 0x00, 0x00, 0x00, // chunk size
        0xff, 0xc0, 0xaa, 0x40, // sample 1, 2, 3, 4
    ];

    let data = Data::from_chunk(&fmt, &Chunk::from_bytes(&bytes).unwrap()).unwrap();

    assert_eq!(data, Data::BitDepth8(vec![255, 192, 170, 64]));
}

#[test]
fn from_16_bit() {
    let fmt = Fmt {
        bit_depth: 16,
        sample_rate: 48_000,
        num_channels: 1,
    };

    let bytes = [
        0x64, 0x61, 0x74, 0x61, // data
        0x08, 0x00, 0x00, 0x00, // chunk size
        0xff, 0x7f, 0x00, 0x80, // sample 1, 2
        0xff, 0xff, 0x01, 0x00, // sample 3, 4
    ];

    let data = Data::from_chunk(&fmt, &Chunk::from_bytes(&bytes).unwrap()).unwrap();

    assert_eq!(data, Data::BitDepth16(vec![32767, -32768, -1, 1]));
}

#[test]
fn from_24_bit() {
    let fmt = Fmt {
        bit_depth: 24,
        sample_rate: 48_000,
        num_channels: 1,
    };

    let bytes = [
        0x64, 0x61, 0x74, 0x61, // data
        0x0c, 0x00, 0x00, 0x00, // chunk size
        0xff, 0xff, 0x7f, // sample 1
        0x00, 0x00, 0x80, // sample 2
        0x01, 0x00, 0x00, // sample 3
        0xff, 0xff, 0xff, // sample 4
    ];

    let data = Data::from_chunk(&fmt, &Chunk::from_bytes(&bytes).unwrap()).unwrap();

    assert_eq!(data, Data::BitDepth24(vec![8_388_607, -8_388_608, 1, -1]));
}
