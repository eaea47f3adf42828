use wavv::chunk::{parse_chunks, ChunkTag};
use wavv::Error;

#[test]
fn should_parse_chunks() {
    let bytes: [u8; 60] = [
        0x52, 0x49, 0x46, 0x46, // RIFF
        0x34, 0x00, 0x00, 0x00, // chunk size
        0x57, 0x41, 0x56, 0x45, // WAVE
        0x66, 0x6d, 0x74, 0x20, // fmt_
        0x10, 0x00, 0x00, 0x00, // chunk size
        0x01, 0x00, // audio format
        0x02, 0x00, // num channels
        0x22, 0x56, 0x00, 0x00, // sample rate
        0x88, 0x58, 0x01, 0x00, // byte rate
        0x04, 0x00, // block align
        0x10, 0x00, // bits per sample
        0x64, 0x61, 0x74, 0x61, // data
        0x10, 0x00, 0x00, 0x00, // chunk size
        0x00, 0x00, 0x00, 0x00, // sample 1 L+R
        0x24, 0x17, 0x1e, 0xf3, // sample 2 L+R
        0x3c, 0x13, 0x3c, 0x14, // sample 3 L+R
        0x16, 0xf9, 0x18, 0xf9, // sample 4 L+R
    ];

    let chunks = parse_chunks(&bytes).unwrap();

    assert_eq!(chunks.len(), 2);
    assert!(chunks.iter().find(|c| c.id == ChunkTag::Fmt).is_some());
    assert!(chunks.iter().find(|c| c.id == ChunkTag::Data).is_some());
}

#[test]
fn should_fail_on_non_wave_files() {
    let bytes: [u8; 60] = [
        0x52, 0x49, 0x46, 0x46, // RIFF
        0x34, 0x00, 0x00, 0x00, // chunk size
        0x57, 0x41, 0x56, 0x56, // WAVV
        0x66, 0x6d, 0x74, 0x20, // fmt_
        0x10, 0x00, 0x00, 0x00, // chunk size
        0x01, 0x00, // audio format
        0x02, 0x00, // num channels
        0x22, 0x56, 0x00, 0x00, // sample rate
        0x88, 0x58, 0x01, 0x00, // byte rate
        0x04, 0x00, // block align
        0x10, 0x00, // bits per sample
        0x64, 0x61, 0x74, 0x61, // data
        0x10, 0x00, 0x00, 0x00, // chunk size
        0x00, 0x00, 0x00, 0x00, // sample 1 L+R
        0x24, 0x17, 0x1e, 0xf3, // sample 2 L+R
        0x3c, 0x13, 0x3c, 0x14, // sample 3 L+R
        0x16, 0xf9, 0x18, 0xf9, // sample 4 L+R
    ];

    assert_eq!(parse_chunks(&bytes).unwrap_err(), Error::NoWaveTagFound);
}

#[test]
fn should_not_fail_with_random_chunks_added() {
    let bytes: [u8; 88] = [
        0x52, 0x49, 0x46, 0x46, // RIFF
        0x34, 0x00, 0x00, 0x00, // chunk size
        0x57, 0x41, 0x56, 0x56, // WAVV
        0x66, 0x6d, 0x74, 0x20, // fmt_
        0x10, 0x00, 0x00, 0x00, // chunk size
        0x01, 0x00, // audio format
        0x02, 0x00, // num channels
        0x22, 0x56, 0x00, 0x00, // sample rate
        0x88, 0x58, 0x01, 0x00, // byte rate
        0x04, 0x00, // block align
        0x10, 0x00, // bits per sample
        0x72, 0x6e, 0x64, 0x6d, // rndm
        0x04, 0x00, 0x00, 0x00, // chunk size
        0xaa, 0xaa, 0xaa, 0xaa, // ...
        0x8b, 0xad, 0xf0, 0x0d, // 8badfood
        0x08, 0x00, 0x00, 0x00, // chunk size
        0xaa, 0xff, 0xaa, 0xff, // ...
        0xff, 0xaa, 0xff, 0xaa, // ...
        0x64, 0x61, 0x74, 0x61, // data
        0x10, 0x00, 0x00, 0x00, // chunk size
        0x00, 0x00, 0x00, 0x00, // sample 1 L+R
        0x24, 0x17, 0x1e, 0xf3, // sample 2 L+R
        0x3c, 0x13, 0x3c, 0x14, // sample 3 L+R
        0x16, 0xf9, 0x18, 0xf9, // sample 4 L+R
    ];

    assert_eq!(parse_chunks(&bytes).unwrap_err(), Error::NoWaveTagFound);
}
