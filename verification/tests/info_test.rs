use a2s::errors::{Error, IoErrorKind};
use a2s::info::{
    ExtendedServerInfo, Info, ServerOS, ServerType, SourceTVInfo, TheShip, TheShipMode,
    INFO_REQUEST,
};
use a2s::DeOptions;

fn sample_info() -> Info {
    Info {
        protocol: 17,
        name: b"My Server".to_vec(),
        map: b"de_dust2".to_vec(),
        folder: b"cstrike".to_vec(),
        game: b"Counter-Strike".to_vec(),
        app_id: 240,
        players: 5,
        max_players: 32,
        bots: 2,
        server_type: ServerType::Dedicated,
        server_os: ServerOS::Linux,
        visibility: false,
        vac: true,
        the_ship: None,
        version: b"1.0.0.71".to_vec(),
        edf: 0x80 | 0x10 | 0x20 | 0x01 | 0x40,
        extended_server_info: ExtendedServerInfo {
            port: Some(27015),
            steam_id: Some(0x0110_0001_0000_1234),
            keywords: Some(b"tag1,tag2".to_vec()),
            game_id: Some(240),
        },
        source_tv: Some(SourceTVInfo { port: 27020, name: b"SourceTV".to_vec() }),
    }
}

fn same_info(a: &Info, b: &Info) {
    assert_eq!(a.protocol, b.protocol);
    assert_eq!(a.name, b.name);
    assert_eq!(a.map, b.map);
    assert_eq!(a.folder, b.folder);
    assert_eq!(a.game, b.game);
    assert_eq!(a.app_id, b.app_id);
    assert_eq!(a.players, b.players);
    assert_eq!(a.max_players, b.max_players);
    assert_eq!(a.bots, b.bots);
    assert_eq!(a.server_type, b.server_type);
    assert_eq!(a.server_os, b.server_os);
    assert_eq!(a.visibility, b.visibility);
    assert_eq!(a.vac, b.vac);
    match (&a.the_ship, &b.the_ship) {
        (Some(x), Some(y)) => {
            assert_eq!(x.mode, y.mode);
            assert_eq!(x.witnesses, y.witnesses);
            assert_eq!(x.duration, y.duration);
        }
        (None, None) => {}
        _ => panic!("the_ship differs"),
    }
    assert_eq!(a.version, b.version);
    assert_eq!(a.edf, b.edf);
    assert_eq!(a.extended_server_info.port, b.extended_server_info.port);
    assert_eq!(a.extended_server_info.steam_id, b.extended_server_info.steam_id);
    assert_eq!(a.extended_server_info.keywords, b.extended_server_info.keywords);
    assert_eq!(a.extended_server_info.game_id, b.extended_server_info.game_id);
    match (&a.source_tv, &b.source_tv) {
        (Some(x), Some(y)) => {
            assert_eq!(x.port, y.port);
            assert_eq!(x.name, y.name);
        }
        (None, None) => {}
        _ => panic!("source_tv differs"),
    }
}

/// A minimal info payload (from the header byte on) with the given VAC byte.
fn info_payload_with_vac(vac: u8) -> Vec<u8> {
    let mut b = vec![0x49, 17];
    b.extend_from_slice(b"name\0map\0folder\0game\0");
    b.extend_from_slice(&10u16.to_le_bytes());
    b.extend_from_slice(&[1, 16, 0, b'd', b'l', 0, vac]);
    b.extend_from_slice(b"1.0\0");
    b
}

#[test]
fn info_roundtrip_all_fields() {
    let info = sample_info();
    let bytes = info.to_bytes();
    assert_eq!(&bytes[..5], &[0xFF, 0xFF, 0xFF, 0xFF, 0x49]);
    let back = Info::from_reader(&bytes[4..]).unwrap();
    same_info(&info, &back);
}

#[test]
fn info_roundtrip_the_ship_without_edf() {
    let mut info = sample_info();
    info.app_id = 2400;
    info.the_ship = Some(TheShip { mode: TheShipMode::Deathmatch, witnesses: 3, duration: 9 });
    info.edf = 0;
    info.extended_server_info =
        ExtendedServerInfo { port: None, steam_id: None, keywords: None, game_id: None };
    info.source_tv = None;
    let bytes = info.to_bytes();
    // no edf byte is written when edf is 0: the encoding ends with the version
    assert_eq!(&bytes[bytes.len() - 9..], b"1.0.0.71\0");
    let back = Info::from_reader(&bytes[4..]).unwrap();
    same_info(&info, &back);
}

#[test]
fn info_size_hint_is_encoding_length() {
    let info = sample_info();
    assert_eq!(info.size_hint(), info.to_bytes().len());
    // 5 + 1 + (9+1) + (8+1) + (7+1) + (14+1) + 2 + 7 + (8+1) + 1 + 2 + 8 + (9+1) + 8 + (2+8+1)
    assert_eq!(info.size_hint(), 106);
}

#[test]
fn info_write_appends() {
    let info = sample_info();
    let mut out = vec![1u8, 2, 3];
    info.write(&mut out).unwrap();
    assert_eq!(&out[..3], &[1, 2, 3]);
    assert_eq!(&out[3..], info.to_bytes().as_slice());
}

#[test]
fn info_exact_fields() {
    let mut b = info_payload_with_vac(1);
    b.push(0x80 | 0x01);
    b.extend_from_slice(&[0x87, 0x69]);
    b.extend_from_slice(&[1, 2, 3, 4, 5, 6, 7, 8]);
    let info = Info::from_reader(&b).unwrap();
    assert_eq!(info.protocol, 17);
    assert_eq!(info.name, b"name");
    assert_eq!(info.map, b"map");
    assert_eq!(info.folder, b"folder");
    assert_eq!(info.game, b"game");
    assert_eq!(info.app_id, 10);
    assert_eq!(info.players, 1);
    assert_eq!(info.max_players, 16);
    assert_eq!(info.bots, 0);
    assert_eq!(info.server_type, ServerType::Dedicated);
    assert_eq!(info.server_os, ServerOS::Linux);
    assert!(!info.visibility);
    assert!(info.vac);
    assert!(info.the_ship.is_none());
    assert_eq!(info.version, b"1.0");
    assert_eq!(info.edf, 0x81);
    assert_eq!(info.extended_server_info.port, Some(0x6987));
    assert_eq!(info.extended_server_info.steam_id, None);
    assert_eq!(info.extended_server_info.keywords, None);
    assert_eq!(info.extended_server_info.game_id, Some(0x0807_0605_0403_0201));
    assert!(info.source_tv.is_none());
}

#[test]
fn info_missing_edf_means_zero() {
    let info = Info::from_reader(&info_payload_with_vac(0)).unwrap();
    assert_eq!(info.edf, 0);
    assert!(info.extended_server_info.port.is_none());
    assert!(info.source_tv.is_none());
}

#[test]
fn info_the_ship_fields() {
    let mut b = vec![0x49, 7];
    b.extend_from_slice(b"n\0m\0f\0g\0");
    b.extend_from_slice(&2400u16.to_le_bytes());
    b.extend_from_slice(&[1, 2, 3, b'i', b'w', 1, 0]);
    b.extend_from_slice(&[4, 5, 6]);
    b.extend_from_slice(b"v\0");
    let info = Info::from_reader(&b).unwrap();
    let ship = info.the_ship.unwrap();
    assert_eq!(ship.mode, TheShipMode::VIPTeam);
    assert_eq!(ship.witnesses, 5);
    assert_eq!(ship.duration, 6);
    assert_eq!(info.server_type, ServerType::NonDedicated);
    assert_eq!(info.server_os, ServerOS::Windows);
    assert!(info.visibility);
    assert_eq!(info.version, b"v");
}

#[test]
fn info_the_ship_unknown_mode() {
    assert_eq!(TheShipMode::from(9u8), TheShipMode::Unknown);
    assert_eq!(TheShipMode::from(0u8), TheShipMode::Hunt);
    assert_eq!(TheShipMode::from(5u8), TheShipMode::TeamElimination);
    assert_eq!(TheShipMode::Unknown.to_byte(), 255);
}

#[test]
fn info_rejects_invalid_vac_byte() {
    // The server sends ASCII '1' (0x31) for the VAC boolean.
    let err = Info::from_reader(&info_payload_with_vac(0x31)).unwrap_err();
    match err {
        Error::InvalidBool { field, value } => {
            assert!(field.contains("vac"));
            assert_eq!(value, 0x31);
        }
        other => panic!("expected InvalidBool error for vac field, got: {other:?}"),
    }
}

#[test]
fn info_visibility_is_any_non_zero_byte() {
    let mut b = info_payload_with_vac(1);
    let vis = b.len() - 1 - 4 - 1;
    b[vis] = 2;
    let info = Info::from_reader(&b).unwrap();
    assert!(info.visibility);
    assert!(info.vac);
    b[vis] = 0;
    let info = Info::from_reader(&b).unwrap();
    assert!(!info.visibility);
}

#[test]
fn info_server_type_and_os() {
    assert!(matches!(ServerType::try_from(b'p'), Ok(ServerType::SourceTV)));
    assert!(matches!(ServerType::try_from(b'x'), Err(Error::Other("Invalid server type"))));
    assert!(matches!(ServerOS::try_from(b'o'), Ok(ServerOS::Mac)));
    assert!(matches!(ServerOS::try_from(b'm'), Ok(ServerOS::Mac)));
    assert!(matches!(ServerOS::try_from(b'z'), Err(Error::Other("Invalid environment"))));
    let mut b = info_payload_with_vac(1);
    let ty = b.len() - 4 - 4;
    b[ty] = b'q';
    assert!(matches!(Info::from_reader(&b), Err(Error::Other("Invalid server type"))));
}

#[test]
fn info_unexpected_header() {
    let mut b = info_payload_with_vac(1);
    b[0] = 0x6D;
    match Info::from_reader(&b).unwrap_err() {
        Error::UnexpectedHeader { expected, actual } => {
            assert_eq!(expected, 0x49);
            assert_eq!(actual, 0x6D);
        }
        other => panic!("unexpected {other:?}"),
    }
}

#[test]
fn info_truncated_is_eof() {
    let b = info_payload_with_vac(1);
    // cut inside the application id
    let cut = 2 + b"name\0map\0folder\0game\0".len() + 1;
    match Info::from_reader(&b[..cut]).unwrap_err() {
        Error::Io(e) => {
            assert_eq!(e.kind, IoErrorKind::UnexpectedEof);
            assert_eq!(e.error.kind(), std::io::ErrorKind::UnexpectedEof);
        }
        other => panic!("unexpected {other:?}"),
    }
    assert!(matches!(Info::from_reader(&[]), Err(Error::Io(e)) if e.kind == IoErrorKind::UnexpectedEof));
}

#[test]
fn info_from_cursor_reads_whole_buffer() {
    let info = sample_info();
    let bytes = info.to_bytes();
    let back = Info::from_cursor(bytes[4..].to_vec()).unwrap();
    same_info(&info, &back);
}

#[test]
fn info_request_bytes() {
    assert_eq!(&INFO_REQUEST[..4], &[0xFF, 0xFF, 0xFF, 0xFF]);
    assert_eq!(&INFO_REQUEST[4..24], b"TSource Engine Query");
    assert_eq!(INFO_REQUEST[24], 0);
}

#[test]
fn de_options_from_app_id() {
    assert!(DeOptions::from_app_id(2400).the_ship);
    assert!(!DeOptions::from_app_id(240).the_ship);
    assert!(!DeOptions::default().the_ship);
}
