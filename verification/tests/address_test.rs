use a2s::address::{game_port, resolve_query_addr, slug};

fn s(v: Vec<char>) -> String {
    v.into_iter().collect()
}

#[test]
fn slug_replaces_separators() {
    assert_eq!(s(slug("74.91.118.209:27015")), "74_91_118_209_27015");
    assert_eq!(s(slug("[::1]:27015")), "___1__27015");
    assert_eq!(s(slug("coralie.megabrutal.com:27015")), "coralie_megabrutal_com_27015");
}

#[test]
fn resolve_query_addr_cases() {
    assert_eq!(s(resolve_query_addr("1.2.3.4:2302", 0)), "1.2.3.4:2302");
    assert_eq!(s(resolve_query_addr("1.2.3.4:2302", 1)), "1.2.3.4:2303");
    assert_eq!(s(resolve_query_addr("1.2.3.4:2302", -2302)), "1.2.3.4:0");
    assert_eq!(s(resolve_query_addr("1.2.3.4:65535", 1)), "1.2.3.4:0");
    assert_eq!(s(resolve_query_addr("1.2.3.4:10", -11)), "1.2.3.4:65535");
    assert_eq!(s(resolve_query_addr("host:+27015", 1)), "host:27016");
    assert_eq!(s(resolve_query_addr("host:27x", 1)), "host:27x");
    assert_eq!(s(resolve_query_addr("host:70000", 1)), "host:70000");
    assert_eq!(s(resolve_query_addr("host", 1)), "host");
    assert_eq!(s(resolve_query_addr("host:", 1)), "host:");
    assert_eq!(s(resolve_query_addr("[::1]:27015", 10)), "[::1]:27025");
    assert_eq!(s(resolve_query_addr("host:007", 1)), "host:8");
}

#[test]
fn game_port_after_last_colon() {
    assert_eq!(game_port("1.2.3.4:2302"), Some(2302));
    assert_eq!(game_port("[::1]:27015"), Some(27015));
    assert_eq!(game_port("host:+7"), Some(7));
    assert_eq!(game_port("host:70000"), None);
    assert_eq!(game_port("host"), None);
    assert_eq!(game_port("host:"), None);
}
