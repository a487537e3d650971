use std::io::Write;

use a2s::errors::{Error, IoErrorKind};
use a2s::packet::{
    begin_response, challenge_request, challenge_step, info_challenge, ChallengeStep,
    ResponseStart,
};

fn fragment(id: i32, total: u8, number: u8, size: u16, payload: &[u8]) -> Vec<u8> {
    let mut b = (-2i32).to_le_bytes().to_vec();
    b.extend_from_slice(&id.to_le_bytes());
    b.push(total);
    b.push(number);
    b.extend_from_slice(&size.to_le_bytes());
    b.extend_from_slice(payload);
    b
}

fn start(data: &[u8]) -> a2s::packet::MultiPacket {
    match begin_response(data, 1400).unwrap() {
        ResponseStart::Multi(m) => m,
        ResponseStart::Single(_) => panic!("expected a split response"),
    }
}

#[test]
fn single_packet_payload() {
    let data = [0xFF, 0xFF, 0xFF, 0xFF, 0x49, 1, 2];
    match begin_response(&data, 1400).unwrap() {
        ResponseStart::Single(p) => assert_eq!(p, vec![0x49, 1, 2]),
        ResponseStart::Multi(_) => panic!("expected a single packet"),
    }
}

#[test]
fn response_too_short_or_invalid() {
    assert!(matches!(
        begin_response(&[0xFF, 0xFF], 1400),
        Err(Error::PacketTooShort { expected: 4, actual: 2 })
    ));
    assert!(matches!(begin_response(&[1, 2, 3, 4, 5], 1400), Err(Error::InvalidResponse)));
    let short = fragment(5, 2, 0, 1400, &[]);
    assert!(matches!(
        begin_response(&short[..8], 1400),
        Err(Error::PacketTooShort { expected: 12, actual: 8 })
    ));
    assert!(matches!(
        begin_response(&short, 1400),
        Err(Error::PacketTooShort { expected: 16, actual: 12 })
    ));
}

#[test]
fn split_response_limits() {
    let too_many = fragment(5, 33, 0, 1400, &[0; 8]);
    assert!(matches!(begin_response(&too_many, 1400), Err(Error::MultiPacketTooLarge)));
    let too_big = fragment(5, 2, 0, 1401, &[0; 8]);
    assert!(matches!(begin_response(&too_big, 1400), Err(Error::MultiPacketTooLarge)));
}

#[test]
fn split_response_out_of_order() {
    // first fragment's payload starts with the 4-byte single-packet header
    let mut first_payload = vec![0xFF, 0xFF, 0xFF, 0xFF];
    first_payload.extend_from_slice(b"AB");
    let first = fragment(7, 3, 0, 1400, &first_payload);
    let mut m = start(&first);
    assert_eq!(m.switching_size(), 1400);
    assert_eq!(m.add_fragment(&fragment(7, 3, 2, 1400, b"EF")).unwrap(), false);
    assert_eq!(m.add_fragment(&fragment(7, 3, 1, 1400, b"CD")).unwrap(), true);
    assert_eq!(m.finish().unwrap(), b"ABCDEF".to_vec());
}

#[test]
fn split_response_fragment_errors() {
    let mut m = start(&fragment(7, 2, 0, 1400, &[0; 6]));
    assert!(matches!(
        m.add_fragment(&[0; 9]),
        Err(Error::PacketTooShort { expected: 10, actual: 9 })
    ));
    assert!(matches!(
        m.add_fragment(&fragment(8, 2, 1, 1400, b"x")),
        Err(Error::MismatchPacketId)
    ));
    assert!(matches!(
        m.add_fragment(&fragment(7, 2, 1, 1400, &[])[..11]),
        Err(Error::PacketTooShort { expected: 12, actual: 11 })
    ));
    // nothing was added by the failed calls
    assert_eq!(m.fragments.len(), 1);
}

#[test]
fn compressed_response_checks() {
    let data = b"hello hello hello hello".to_vec();
    let mut enc = bzip2::write::BzEncoder::new(Vec::new(), bzip2::Compression::best());
    enc.write_all(&data).unwrap();
    let compressed = enc.finish().unwrap();
    let crc = crc::crc32::checksum_ieee(&data);
    let id: i32 = 0x8000_0003u32 as i32;
    // The first datagram carries the decompressed size and the checksum; its
    // payload is taken from byte 16 on, so it contributes the 4 checksum
    // bytes. Numbering it 1 puts those bytes after the compressed stream,
    // where the decompressor does not read them.
    let mut first_payload = (data.len() as u32).to_le_bytes().to_vec();
    first_payload.extend_from_slice(&crc.to_le_bytes());
    let first = fragment(id, 2, 1, 1400, &first_payload);
    let mut m = start(&first);
    let mut second_payload = vec![0u8; 8];
    second_payload.extend_from_slice(&compressed);
    assert!(m.add_fragment(&fragment(id, 2, 0, 1400, &second_payload)).unwrap());
    // joined: compressed stream, then the 4 checksum bytes of the first fragment
    assert_eq!(m.finish().unwrap(), data);

    // a wrong checksum is refused
    let mut first_payload = (data.len() as u32).to_le_bytes().to_vec();
    first_payload.extend_from_slice(&(crc ^ 1).to_le_bytes());
    let mut m = start(&fragment(id, 2, 1, 1400, &first_payload));
    assert!(m.add_fragment(&fragment(id, 2, 0, 1400, &second_payload)).unwrap());
    assert!(matches!(m.finish(), Err(Error::ChecksumMismatch)));

    // an announced size above 1 MiB is refused
    let mut first_payload = (0x10_0001u32).to_le_bytes().to_vec();
    first_payload.extend_from_slice(&crc.to_le_bytes());
    let mut m = start(&fragment(id, 2, 1, 1400, &first_payload));
    assert!(m.add_fragment(&fragment(id, 2, 0, 1400, &second_payload)).unwrap());
    assert!(matches!(m.finish(), Err(Error::InvalidBz2Size)));

    // bytes that are not a bzip2 stream give an I/O error
    let mut first_payload = (data.len() as u32).to_le_bytes().to_vec();
    first_payload.extend_from_slice(&crc.to_le_bytes());
    let mut m = start(&fragment(id, 2, 1, 1400, &first_payload));
    let mut junk = vec![0u8; 8];
    junk.extend_from_slice(b"not bzip2 at all");
    assert!(m.add_fragment(&fragment(id, 2, 0, 1400, &junk)).unwrap());
    match m.finish() {
        Err(Error::Io(e)) => {
            assert_eq!(e.kind, IoErrorKind::Other);
            assert_eq!(e.error.kind(), std::io::ErrorKind::InvalidInput);
        }
        other => panic!("unexpected {other:?}"),
    }

    // a stream that ends before the announced size gives an end-of-input error
    let mut first_payload = (data.len() as u32).to_le_bytes().to_vec();
    first_payload.extend_from_slice(&crc.to_le_bytes());
    let mut m = start(&fragment(id, 2, 1, 1400, &first_payload));
    let mut cut = vec![0u8; 8];
    cut.extend_from_slice(&compressed[..compressed.len() / 2]);
    assert!(m.add_fragment(&fragment(id, 2, 0, 1400, &cut)).unwrap());
    match m.finish() {
        Err(Error::Io(e)) => assert_eq!(e.kind, IoErrorKind::UnexpectedEof),
        other => panic!("unexpected {other:?}"),
    }
}

#[test]
fn challenge_retry_on_double_challenge() {
    // the first request carries challenge -1
    let initial = challenge_request(&a2s::players::PLAYER_REQUEST, -1);
    assert!(initial.len() >= 9, "initial request too short");
    assert_eq!(&initial[5..9], &[0xFF, 0xFF, 0xFF, 0xFF]);

    // 1) the server answers with challenge 1000
    let mut resp = vec![b'A'];
    resp.extend_from_slice(&1000i32.to_le_bytes());
    let step = challenge_step(&resp, true).unwrap();
    assert_eq!(step, ChallengeStep::Retry(1000));
    let retry = challenge_request(&a2s::players::PLAYER_REQUEST, 1000);
    assert!(retry.len() >= 9, "first retry too short");
    let challenge = i32::from_le_bytes(retry[5..9].try_into().unwrap());
    assert_eq!(challenge, 1000, "client should echo back challenge 1000");

    // 2) the server answers with a second challenge 2000
    let mut resp = vec![b'A'];
    resp.extend_from_slice(&2000i32.to_le_bytes());
    let step = challenge_step(&resp, false).unwrap();
    assert_eq!(step, ChallengeStep::Retry(2000));
    let retry = challenge_request(&a2s::players::PLAYER_REQUEST, 2000);
    assert!(retry.len() >= 9, "second retry too short");
    let challenge = i32::from_le_bytes(retry[5..9].try_into().unwrap());
    assert_eq!(challenge, 2000, "client should echo back challenge 2000");

    // 3) the server answers with player data: that is the result
    let data = [b'D', 0x00];
    assert_eq!(challenge_step(&data, false).unwrap(), ChallengeStep::Done);
    let players = a2s::players::Player::from_reader(&data, &a2s::DeOptions::default()).unwrap();
    assert!(players.is_empty());
}

#[test]
fn challenge_step_errors() {
    assert!(matches!(challenge_step(&[], true), Err(Error::Io(e)) if e.kind == IoErrorKind::UnexpectedEof));
    assert!(matches!(challenge_step(&[b'A', 1, 2], false), Err(Error::Io(e)) if e.kind == IoErrorKind::UnexpectedEof));
    assert!(matches!(
        challenge_step(&[b'D', 0], true),
        Err(Error::UnexpectedHeader { expected: 0x41, actual: 0x44 })
    ));
}

#[test]
fn info_challenge_decision() {
    let mut resp = vec![b'A'];
    resp.extend_from_slice(&0x1234_5678i32.to_le_bytes());
    assert_eq!(info_challenge(&resp).unwrap(), Some(0x1234_5678));
    assert_eq!(info_challenge(&[0x49, 17]).unwrap(), None);
    assert!(matches!(info_challenge(&[]), Err(Error::Io(e)) if e.kind == IoErrorKind::UnexpectedEof));
    let query = challenge_request(&a2s::info::INFO_REQUEST, 0x1234_5678);
    assert_eq!(query.len(), 29);
    assert_eq!(&query[..25], &a2s::info::INFO_REQUEST);
    assert_eq!(&query[25..], &0x1234_5678i32.to_le_bytes());
}

#[test]
fn check_decompressed_compares_checksums() {
    let data = vec![1u8, 2, 3];
    assert_eq!(a2s::packet::check_decompressed(data.clone(), 7, 7).unwrap(), data);
    assert!(matches!(
        a2s::packet::check_decompressed(data, 7, 8),
        Err(Error::ChecksumMismatch)
    ));
}
