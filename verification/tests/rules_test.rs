use a2s::errors::{Error, IoErrorKind};
use a2s::rules::{Rule, RULES_REQUEST};

fn rule(name: &str, value: &str) -> Rule {
    Rule { name: name.as_bytes().to_vec(), value: value.as_bytes().to_vec() }
}

#[test]
fn rule_encoding() {
    let r = rule("sv_cheats", "0");
    assert_eq!(r.to_bytes(), b"sv_cheats\x000\x00".to_vec());
    assert_eq!(r.size_hint(), 12);
    let mut out = vec![9u8];
    r.write(&mut out).unwrap();
    assert_eq!(out, b"\x09sv_cheats\x000\x00".to_vec());
}

#[test]
fn rules_roundtrip() {
    let rules = vec![rule("mp_timelimit", "30"), rule("", ""), rule("sv_tags", "a,b")];
    let bytes = Rule::vec_to_bytes(rules.clone());
    assert_eq!(&bytes[..7], &[0xFF, 0xFF, 0xFF, 0xFF, 0x45, 3, 0]);
    let back = Rule::from_reader(&bytes[4..]).unwrap();
    assert_eq!(back.len(), rules.len());
    for (a, b) in back.iter().zip(rules.iter()) {
        assert_eq!(a.name, b.name);
        assert_eq!(a.value, b.value);
    }
    assert_eq!(Rule::vec_size_hint(&rules), bytes.len());
    assert_eq!(Rule::vec_size_hint(&rules), 7 + 16 + 2 + 12);
}

#[test]
fn rules_write_vec_appends() {
    let rules = vec![rule("a", "b")];
    let mut out = vec![7u8];
    Rule::write_vec(&rules, &mut out).unwrap();
    assert_eq!(out, vec![7, 0xFF, 0xFF, 0xFF, 0xFF, 0x45, 1, 0, b'a', 0, b'b', 0]);
}

#[test]
fn rules_count_is_written_modulo_65536() {
    let rules: Vec<Rule> = (0..65537).map(|_| rule("", "")).collect();
    let bytes = Rule::vec_to_bytes(rules);
    assert_eq!(&bytes[5..7], &[1, 0]);
}

#[test]
fn rules_last_value_may_end_without_nul() {
    let mut b = vec![0x45, 2, 0];
    b.extend_from_slice(b"a\0b\0c\0d");
    let rules = Rule::from_reader(&b).unwrap();
    assert_eq!(rules.len(), 2);
    assert_eq!(rules[1].name, b"c");
    assert_eq!(rules[1].value, b"d");
}

#[test]
fn rules_count_beyond_input_gives_empty_rules() {
    let b = vec![0x45, 2, 0];
    let rules = Rule::from_reader(&b).unwrap();
    assert_eq!(rules.len(), 2);
    assert!(rules[0].name.is_empty() && rules[1].value.is_empty());
}

#[test]
fn rules_errors() {
    match Rule::from_reader(&[0x44, 0, 0]).unwrap_err() {
        Error::UnexpectedHeader { expected, actual } => {
            assert_eq!(expected, 0x45);
            assert_eq!(actual, 0x44);
        }
        other => panic!("unexpected {other:?}"),
    }
    assert!(matches!(Rule::from_reader(&[0x45, 1]), Err(Error::Io(e)) if e.kind == IoErrorKind::UnexpectedEof));
    assert!(matches!(Rule::from_cursor(vec![0x45, 0, 0]), Ok(v) if v.is_empty()));
}

#[test]
fn rules_request_bytes() {
    assert_eq!(RULES_REQUEST, [0xFF, 0xFF, 0xFF, 0xFF, 0x56]);
}
