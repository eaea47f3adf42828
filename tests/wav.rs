#![allow(overflowing_literals)]
use wavv::{Data, Wav};

#[test]
fn parse_wav_16_bit_stereo() {
    let bytes: [u8; 60] = [
        0x52, 0x49, 0x46, 0x46, // RIFF
        0x34, 0x00, 0x00, 0x00, // chunk size
        0x57, 0x41, 0x56, 0x45, // WAVE
        0x66, 0x6d, 0x74, 0x20, // fmt_
        0x10, 0x00, 0x00, 0x00, // chunk size
        0x01, 0x00, // audio format
        0x02, 0x00, // num channels
        0x22, 0x56, 0x00, 0x00, // sample rate
        0x88, 0x58, 0x01, 0x00, // byte rate
        0x04, 0x00, // block align
        0x10, 0x00, // bits per sample
        0x64, 0x61, 0x74, 0x61, // data
        0x10, 0x00, 0x00, 0x00, // chunk size
        0x00, 0x00, 0x01, 0x00, // sample 1 L+R
        0x02, 0x00, 0x03, 0x00, // sample 2 L+R
        0x04, 0x00, 0x05, 0x00, // sample 3 L+R
        0x06, 0x00, 0x07, 0x00, // sample 4 L+R
    ];

    let wav = Wav::from_bytes(&bytes).unwrap();

    assert_eq!(wav.fmt.sample_rate, 22050);
    assert_eq!(wav.fmt.bit_depth, 16);
    assert_eq!(wav.fmt.num_channels, 2);

    assert_eq!(
        wav.data,
        Data::BitDepth16(vec![
            0, 1, // sample 1 L+R
            2, 3, // sample 2 L+R
            4, 5, // sample 3 L+R
            6, 7, // sample 4 L+R
        ])
    );
}

#[test]
fn parse_wav_24_bit_mono() {
    let bytes: [u8; 56] = [
        0x52, 0x49, 0x46, 0x46, // RIFF
        0x30, 0x00, 0x00, 0x00, // chunk size
        0x57, 0x41, 0x56, 0x45, // WAVE
        0x66, 0x6d, 0x74, 0x20, // fmt_
        0x10, 0x00, 0x00, 0x00, // chunk size
        0x01, 0x00, // audio format
        0x01, 0x00, // num channels
        0x44, 0xac, 0x00, 0x00, // sample rate
        0x88, 0x58, 0x01, 0x00, // byte rate
        0x04, 0x00, // block align
        0x18, 0x00, // bits per sample
        0x64, 0x61, 0x74, 0x61, // data
        0x0c, 0x00, 0x00, 0x00, // chunk size
        0x00, 0x00, 0x00, // sample 1
        0x00, 0x24, 0x17, // sample 2
        0x1e, 0xf3, 0x3c, // sample 3
        0x13, 0x3c, 0x14, // sample 4
    ];

    let wav = Wav::from_bytes(&bytes).unwrap();

    assert_eq!(wav.fmt.sample_rate, 44100);
    assert_eq!(wav.fmt.bit_depth, 24);
    assert_eq!(wav.fmt.num_channels, 1);

    assert_eq!(
        wav.data,
        Data::BitDepth24(vec![
            0x00000000, // sample 1
            0x00172400, // sample 2
            0x003cf31e, // sample 3
            0x00143c13, // sample 4
        ])
    );
}

#[test]
fn parse_wav_24_bit_with_padding_byte() {
    let bytes: [u8; 48] = [
        0x52, 0x49, 0x46, 0x46, // RIFF
        0x28, 0x00, 0x00, 0x00, // chunk size
        0x57, 0x41, 0x56, 0x45, // WAVE
        0x66, 0x6d, 0x74, 0x20, // fmt_
        0x10, 0x00, 0x00, 0x00, // chunk size
        0x01, 0x00, // audio format
        0x01, 0x00, // num channels
        0x44, 0xac, 0x00, 0x00, // sample rate
        0x88, 0x58, 0x01, 0x00, // byte rate
        0x04, 0x00, // block align
        0x18, 0x00, // bits per sample
        0x64, 0x61, 0x74, 0x61, // data
        0x03, 0x00, 0x00, 0x00, // chunk size
        0xff, 0xff, 0xff, // sample 1
        0x00, // padding byte
    ];

    let wav = Wav::from_bytes(&bytes).unwrap();

    assert_eq!(wav.fmt.sample_rate, 44100);
    assert_eq!(wav.fmt.bit_depth, 24);
    assert_eq!(wav.fmt.num_channels, 1);

    assert_eq!(wav.data, Data::BitDepth24(vec![-1]));
}

#[test]
fn parse_wav_from_and_to_bytes_stereo() {
    let bytes: [u8; 60] = [
        0x52, 0x49, 0x46, 0x46, // RIFF
        0x34, 0x00, 0x00, 0x00, // chunk size
        0x57, 0x41, 0x56, 0x45, // WAVE
        0x66, 0x6d, 0x74, 0x20, // fmt_
        0x10, 0x00, 0x00, 0x00, // chunk size
        0x01, 0x00, // audio format
        0x02, 0x00, // num channels
        0x80, 0xbb, 0x00, 0x00, // sample rate
        0x00, 0xee, 0x02, 0x00, // byte rate
        0x04, 0x00, // block align
        0x10, 0x00, // bits per sample
        0x64, 0x61, 0x74, 0x61, // data
        0x10, 0x00, 0x00, 0x00, // chunk size
        0x00, 0x00, 0x00, 0x00, // sample 1 L+R
        0x24, 0x17, 0x1e, 0xf3, // sample 2 L+R
        0x3c, 0x13, 0x3c, 0x14, // sample 3 L+R
        0x16, 0xf9, 0x18, 0xf9, // sample 4 L+R
    ];

    let wave = Wav::from_bytes(&bytes).unwrap();

    assert_eq!(wave.to_bytes(), bytes);
}

#[test]
fn parse_wav_from_and_to_bytes_mono() {
    let bytes: [u8; 56] = [
        0x52, 0x49, 0x46, 0x46, // RIFF
        0x30, 0x00, 0x00, 0x00, // chunk size
        0x57, 0x41, 0x56, 0x45, // WAVE
        0x66, 0x6d, 0x74, 0x20, // fmt_
        0x10, 0x00, 0x00, 0x00, // chunk size
        0x01, 0x00, // audio format
        0x01, 0x00, // num channels
        0x80, 0xbb, 0x00, 0x00, // sample rate
        0x80, 0x32, 0x02, 0x00, // byte rate
        0x03, 0x00, // block align
        0x18, 0x00, // bits per sample
        0x64, 0x61, 0x74, 0x61, // data
        0x0c, 0x00, 0x00, 0x00, // chunk size
        0x00, 0x00, 0x00, // sample 1
        0x00, 0x00, 0x00, // sample 2
        0x00, 0x00, 0x00, // sample 3
        0x00, 0x00, 0x00, // sample 4
    ];

    let wave = Wav::from_bytes(&bytes).unwrap();

    assert_eq!(wave.to_bytes(), bytes);
}
