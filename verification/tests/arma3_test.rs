use a2s::errors::{Error, IoErrorKind};
use a2s::rules::arma3::{Arma3Rules, ModHash, WorkshopId};
use a2s::rules::Rule;

fn escape(data: &[u8]) -> Vec<u8> {
    let mut out = Vec::new();
    for &b in data {
        match b {
            0x01 => out.extend_from_slice(&[0x01, 0x01]),
            0x00 => out.extend_from_slice(&[0x01, 0x02]),
            0xFF => out.extend_from_slice(&[0x01, 0x03]),
            _ => out.push(b),
        }
    }
    out
}

fn stream() -> Vec<u8> {
    let mut s = Vec::new();
    s.extend_from_slice(&2u32.to_le_bytes());
    s.push(2); // mods
    // mod 1: workshop mod with a 4-byte id
    s.extend_from_slice(&0xDEAD_BEEFu32.to_le_bytes());
    s.push(0x04);
    s.extend_from_slice(&[0x01, 0x00, 0xFF, 0x00]);
    s.push(3);
    s.extend_from_slice(b"CF\x01");
    // mod 2: DLC with no id
    s.extend_from_slice(&7u32.to_le_bytes());
    s.push(0x10);
    s.push(4);
    s.extend_from_slice(b"Contact");
    s.truncate(s.len() - 3);
    s.push(1); // signatures
    s.push(2);
    s.extend_from_slice(b"bi");
    s.extend_from_slice(b"desc");
    s
}

fn chunk_rules(escaped: &[u8], size: usize, reverse: bool) -> Vec<Rule> {
    let mut chunks: Vec<Rule> = escaped
        .chunks(size)
        .enumerate()
        .map(|(i, c)| Rule { name: vec![i as u8 + 1, 0x02], value: c.to_vec() })
        .collect();
    if reverse {
        chunks.reverse();
    }
    chunks
}

fn check(parsed: &Arma3Rules) {
    assert_eq!(parsed.version, 2);
    assert_eq!(parsed.mods.len(), 2);
    assert_eq!(parsed.mods[0].hash, ModHash(0xDEAD_BEEF));
    assert!(!parsed.mods[0].is_dlc);
    assert_eq!(parsed.mods[0].steam_id, WorkshopId(0x00FF_0001));
    assert_eq!(parsed.mods[0].name, b"CF\x01");
    assert_eq!(parsed.mods[1].hash, ModHash(7));
    assert!(parsed.mods[1].is_dlc);
    assert_eq!(parsed.mods[1].steam_id, WorkshopId(0));
    assert_eq!(parsed.mods[1].name, b"Cont");
    assert_eq!(parsed.signatures, vec![b"bi".to_vec()]);
    assert_eq!(parsed.description, b"desc");
}

#[test]
fn arma3_chunks_in_order() {
    let mut rules = chunk_rules(&escape(&stream()), 5, false);
    rules.insert(1, Rule { name: b"island".to_vec(), value: b"Altis".to_vec() });
    rules.push(Rule { name: b"platform".to_vec(), value: b"win".to_vec() });
    let parsed = Arma3Rules::from_rules(&rules).unwrap();
    check(&parsed);
    assert_eq!(parsed.rules.len(), 2);
    assert_eq!(parsed.rules[0].name, b"island");
    assert_eq!(parsed.rules[1].value, b"win");
}

#[test]
fn arma3_chunks_out_of_order() {
    let rules = chunk_rules(&escape(&stream()), 3, true);
    let parsed = Arma3Rules::from_rules(&rules).unwrap();
    check(&parsed);
    assert!(parsed.rules.is_empty());
}

#[test]
fn arma3_unescape_sequences() {
    // 01 01 -> 01, 01 02 -> 00, 01 03 -> FF; a 0x01 not followed by 1, 2 or 3
    // stands for itself, as does a 0x01 at the very end
    let mut raw = vec![0x01, 0x01, 0x01, 0x02, 0x01, 0x03, 0x07];
    raw.extend_from_slice(&[0x01, 0x02]); // mod count 0
    raw.extend_from_slice(&[0x01, 0x02]); // signature count 0
    raw.extend_from_slice(&[0x01, 0x05, 0x01]); // description
    let rules = vec![Rule { name: vec![0, 0], value: raw }];
    let parsed = Arma3Rules::from_rules(&rules).unwrap();
    assert_eq!(parsed.version, u32::from_le_bytes([0x01, 0x00, 0xFF, 0x07]));
    assert!(parsed.mods.is_empty());
    assert!(parsed.signatures.is_empty());
    assert_eq!(parsed.description, vec![0x01, 0x05, 0x01]);
}

#[test]
fn arma3_no_binary_chunks() {
    let rules = vec![Rule { name: b"ab".to_vec(), value: vec![1, 2, 3] }];
    assert!(matches!(Arma3Rules::from_rules(&rules), Err(Error::NoBinaryChunks)));
    assert!(matches!(Arma3Rules::from_rules(&[]), Err(Error::NoBinaryChunks)));
}

#[test]
fn arma3_steam_id_too_long() {
    let mut s = Vec::new();
    s.extend_from_slice(&2u32.to_le_bytes());
    s.push(1);
    s.extend_from_slice(&9u32.to_le_bytes());
    s.push(0x09); // 9-byte id
    s.extend_from_slice(&[0x33; 12]);
    let rules = vec![Rule { name: vec![1, 1], value: escape(&s) }];
    assert!(matches!(Arma3Rules::from_rules(&rules), Err(Error::SteamIdTooLong)));
}

#[test]
fn arma3_truncated_stream() {
    let rules = vec![Rule { name: vec![1, 1], value: vec![2, 0x01, 0x02] }];
    assert!(matches!(Arma3Rules::from_rules(&rules), Err(Error::Io(e)) if e.kind == IoErrorKind::UnexpectedEof));
}

#[test]
fn arma3_bytes_without_escape_pass_unchanged() {
    // no 0x01 anywhere: the stream is read as sent
    let mut raw = vec![0x02, 0x00, 0x00, 0x00, 0x00, 0x00];
    raw.extend_from_slice(&[0xFF, 0x7E, 0x00]);
    let rules = vec![Rule { name: vec![0, 0], value: raw }];
    let parsed = Arma3Rules::from_rules(&rules).unwrap();
    assert_eq!(parsed.version, 2);
    assert!(parsed.mods.is_empty());
    assert!(parsed.signatures.is_empty());
    assert_eq!(parsed.description, vec![0xFF, 0x7E, 0x00]);
}
