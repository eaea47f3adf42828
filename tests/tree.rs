use wavv::parsing::{parse_chunk, parse_chunks, Chunk, ChunkId};
use wavv::wave::Wave;
use wavv::{Data, Error, Fmt};

fn stereo16() -> Fmt {
    Fmt { sample_rate: 22_050, num_channels: 2, bit_depth: 16 }
}

#[test]
fn identifiers_are_recognised() {
    assert_eq!(ChunkId::from_bytes(b"LIST"), ChunkId::LIST);
    assert_eq!(ChunkId::from_bytes(b"IART"), ChunkId::IART);
    assert_eq!(ChunkId::from_bytes(b"INAM"), ChunkId::INAM);
    assert_eq!(ChunkId::from_bytes(b"TLEN"), ChunkId::Other(*b"TLEN"));
    assert_eq!(ChunkId::from_bytes(b"ICOP"), ChunkId::Other(*b"ICOP"));
    assert_eq!(ChunkId::from_bytes(b"ISFT"), ChunkId::ISFT);
    assert_eq!(ChunkId::from_bytes(b"fmt "), ChunkId::FMT);
    assert_eq!(ChunkId::from_bytes(b"zzzz"), ChunkId::Other(*b"zzzz"));
}

#[test]
fn one_record_is_split_off_after_its_pad_byte() {
    let bytes = [b'I', b'N', b'A', b'M', 0x03, 0x00, 0x00, 0x00, b'a', b'b', b'c', 0x00, 0x42];
    let (id, payload, tail) = parse_chunk(&bytes).unwrap();
    assert_eq!(id, ChunkId::INAM);
    assert_eq!(payload, b"abc");
    assert_eq!(tail, &[0x42]);
    assert_eq!(parse_chunk(&bytes[..9]).unwrap_err(), Error::TruncatedChunk);
}

#[test]
fn lists_are_opened() {
    let bytes = [
        b'L', b'I', b'S', b'T', 0x10, 0x00, 0x00, 0x00, // LIST of 16 bytes
        b'I', b'N', b'F', b'O', // list type
        b'I', b'N', b'A', b'M', 0x03, 0x00, 0x00, 0x00, b'a', b'b', b'c', 0x00, // title
        b'd', b'a', b't', b'a', 0x04, 0x00, 0x00, 0x00, 0x01, 0x00, 0xff, 0xff, // samples
    ];
    let chunks = parse_chunks(&stereo16(), &bytes).unwrap();
    assert_eq!(chunks.len(), 2);
    match &chunks[0] {
        Chunk::LIST(kind, inner) => {
            assert_eq!(*kind, ChunkId::INFO);
            assert_eq!(inner.len(), 1);
            match &inner[0] {
                Chunk::Unknown(id, payload) => {
                    assert_eq!(*id, ChunkId::INAM);
                    assert_eq!(payload, b"abc");
                }
                other => panic!("unexpected {:?}", other),
            }
        }
        other => panic!("unexpected {:?}", other),
    }
    match &chunks[1] {
        Chunk::DATA(data) => assert_eq!(*data, Data::BitDepth16(vec![1, -1])),
        other => panic!("unexpected {:?}", other),
    }
}

#[test]
fn short_list_is_reported() {
    let bytes = [b'L', b'I', b'S', b'T', 0x02, 0x00, 0x00, 0x00, b'I', b'N'];
    assert_eq!(parse_chunks(&stereo16(), &bytes).unwrap_err(), Error::TruncatedChunk);
    let result = Chunk::from_bytes_with_id_and_header(&stereo16(), &ChunkId::LIST, b"IN");
    assert_eq!(result.unwrap_err(), Error::TruncatedChunk);
}

#[test]
fn only_format_records_stand_alone() {
    let payload = [0x01, 0x00, 0x01, 0x00, 0x44, 0xac, 0, 0, 0, 0, 0, 0, 0, 0, 0x18, 0x00];
    match Chunk::from_bytes_with_id(&ChunkId::FMT, &payload).unwrap() {
        Some(Chunk::FMT(fmt)) => {
            assert_eq!(fmt, Fmt { sample_rate: 44_100, num_channels: 1, bit_depth: 24 })
        }
        other => panic!("unexpected {:?}", other),
    }
    assert!(Chunk::from_bytes_with_id(&ChunkId::JUNK, &payload).unwrap().is_none());
    assert_eq!(
        Chunk::from_bytes_with_id(&ChunkId::FMT, &payload[..8]).unwrap_err(),
        Error::TruncatedChunk
    );
}

#[test]
fn wave_keeps_other_records_as_a_tree() {
    let mut bytes = vec![
        0x52, 0x49, 0x46, 0x46, // RIFF
        0x48, 0x00, 0x00, 0x00, // chunk size
        0x57, 0x41, 0x56, 0x45, // WAVE
        0x66, 0x6d, 0x74, 0x20, // fmt_
        0x10, 0x00, 0x00, 0x00, // chunk size
        0x01, 0x00, 0x02, 0x00, 0x22, 0x56, 0x00, 0x00, // format, channels, rate
        0x88, 0x58, 0x01, 0x00, 0x04, 0x00, 0x10, 0x00, // byte rate, align, depth
        0x64, 0x61, 0x74, 0x61, // data
        0x04, 0x00, 0x00, 0x00, // chunk size
        0x01, 0x00, 0x02, 0x00, // samples
    ];
    bytes.extend_from_slice(&[
        b'L', b'I', b'S', b'T', 0x0e, 0x00, 0x00, 0x00, b'I', b'N', b'F', b'O', // list
        b'I', b'A', b'R', b'T', 0x02, 0x00, 0x00, 0x00, b'm', b'e', // artist
        b'J', b'U', b'N', b'K', 0x01, 0x00, 0x00, 0x00, 0x00, 0x00, // junk and pad
    ]);
    let wave = Wave::from_bytes(&bytes).unwrap();
    assert_eq!(wave.header, stereo16());
    assert_eq!(wave.data, Data::BitDepth16(vec![1, 2]));
    let others = wave.unknown_chunks.unwrap();
    assert_eq!(others.len(), 2);
    match &others[0] {
        Chunk::LIST(kind, inner) => {
            assert_eq!(*kind, ChunkId::INFO);
            assert_eq!(inner.len(), 1);
        }
        other => panic!("unexpected {:?}", other),
    }
    match &others[1] {
        Chunk::Unknown(id, payload) => {
            assert_eq!(*id, ChunkId::JUNK);
            assert_eq!(payload, &vec![0x00]);
        }
        other => panic!("unexpected {:?}", other),
    }
}

#[test]
fn wave_without_other_records_has_none() {
    let bytes: [u8; 48] = [
        0x52, 0x49, 0x46, 0x46, 0x28, 0x00, 0x00, 0x00, 0x57, 0x41, 0x56, 0x45, // header
        0x66, 0x6d, 0x74, 0x20, 0x10, 0x00, 0x00, 0x00, // fmt_
        0x01, 0x00, 0x01, 0x00, 0x44, 0xac, 0x00, 0x00, // format, channels, rate
        0x88, 0x58, 0x01, 0x00, 0x04, 0x00, 0x18, 0x00, // byte rate, align, depth
        0x64, 0x61, 0x74, 0x61, 0x03, 0x00, 0x00, 0x00, // data
        0xff, 0xff, 0xff, 0x00, // one sample and the pad byte
    ];
    let wave = Wave::from_bytes(&bytes).unwrap();
    assert_eq!(wave.data, Data::BitDepth24(vec![-1]));
    assert!(wave.unknown_chunks.is_none());
}

#[test]
fn deep_lists_stay_raw_past_the_nesting_limit() {
    let mut bytes: Vec<u8> = Vec::new();
    for _ in 0..20 {
        let mut payload = b"INFO".to_vec();
        payload.extend_from_slice(&bytes);
        bytes = b"LIST".to_vec();
        bytes.extend_from_slice(&(payload.len() as u32).to_le_bytes());
        bytes.extend_from_slice(&payload);
    }
    let chunks = parse_chunks(&stereo16(), &bytes).unwrap();
    let mut opened = 0;
    let mut level = &chunks;
    loop {
        assert_eq!(level.len(), 1);
        match &level[0] {
            Chunk::LIST(_, inner) => {
                opened += 1;
                level = inner;
            }
            Chunk::Unknown(id, _) => {
                assert_eq!(*id, ChunkId::LIST);
                break;
            }
            other => panic!("unexpected {:?}", other),
        }
    }
    assert_eq!(opened, wavv::parsing::MAX_NESTING);
}
