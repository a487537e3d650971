use a2s::errors::{Error, IoErrorKind};
use a2s::players::{Player, PLAYER_REQUEST};
use a2s::DeOptions;

fn player_bytes(index: u8, name: &[u8], score: i32, duration: f32) -> Vec<u8> {
    let mut b = vec![index];
    b.extend_from_slice(name);
    b.push(0);
    b.extend_from_slice(&score.to_le_bytes());
    b.extend_from_slice(&duration.to_le_bytes());
    b
}

#[test]
fn players_two_players() {
    let mut b = vec![0x44, 2];
    b.extend(player_bytes(0, b"alice", 12, 61.5));
    b.extend(player_bytes(0, b"bob", -3, 0.25));
    let players = Player::from_reader(&b, &DeOptions::default()).unwrap();
    assert_eq!(players.len(), 2);
    assert_eq!(players[0].index, 0);
    assert_eq!(players[0].name, b"alice");
    assert_eq!(players[0].score, 12);
    assert_eq!(f32::from_bits(players[0].duration_bits), 61.5);
    assert!(players[0].the_ship.is_none());
    assert_eq!(players[1].name, b"bob");
    assert_eq!(players[1].score, -3);
    assert_eq!(f32::from_bits(players[1].duration_bits), 0.25);
}

#[test]
fn players_empty_response() {
    let players = Player::from_reader(&[0x44, 0], &DeOptions::default()).unwrap();
    assert!(players.is_empty());
}

#[test]
fn players_the_ship_fields() {
    let mut b = vec![0x44, 1];
    b.extend(player_bytes(1, b"x", 7, 1.0));
    b.extend_from_slice(&4u32.to_le_bytes());
    b.extend_from_slice(&1000u32.to_le_bytes());
    let players = Player::from_reader(&b, &DeOptions { the_ship: true }).unwrap();
    let ship = players[0].the_ship.unwrap();
    assert_eq!(ship.deaths, 4);
    assert_eq!(ship.money, 1000);
    // without the option, the same bytes decode without The Ship's fields
    let plain = Player::from_reader(&b, &DeOptions::default()).unwrap();
    assert!(plain[0].the_ship.is_none());
    // the deprecated entry point picks the options from the application id
    let by_app = Player::from_cursor(b.clone(), 2400).unwrap();
    assert_eq!(by_app[0].the_ship.unwrap().money, 1000);
}

#[test]
fn players_unexpected_header() {
    match Player::from_reader(&[0x45, 0], &DeOptions::default()).unwrap_err() {
        Error::UnexpectedHeader { expected, actual } => {
            assert_eq!(expected, 0x44);
            assert_eq!(actual, 0x45);
        }
        other => panic!("unexpected {other:?}"),
    }
}

#[test]
fn players_truncated_is_eof() {
    let mut b = vec![0x44, 2];
    b.extend(player_bytes(0, b"alice", 12, 61.5));
    // the second player is missing
    assert!(matches!(Player::from_reader(&b, &DeOptions::default()), Err(Error::Io(e)) if e.kind == IoErrorKind::UnexpectedEof));
    assert!(matches!(Player::from_reader(&[0x44], &DeOptions::default()), Err(Error::Io(e)) if e.kind == IoErrorKind::UnexpectedEof));
}

#[test]
fn player_request_bytes() {
    assert_eq!(PLAYER_REQUEST, [0xFF, 0xFF, 0xFF, 0xFF, 0x55]);
}
