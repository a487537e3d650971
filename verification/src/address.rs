//! Server addresses as the command-line tool writes them.
use vstd::prelude::*;
use vstd::std_specs::iter::IteratorSpec;

verus! {

broadcast use vstd::string::axiom_spec_iter, vstd::string::next_postcondition;

/// The characters of a string.
pub fn chars_of(s: &str) -> (r: Vec<char>)
    ensures
        r@ == s@,
{
    let mut out: Vec<char> = Vec::new();
    let mut it = s.chars();
    loop
        invariant
            out@ + it.remaining() == s@,
            it.obeys_prophetic_iter_laws(),
            it.decrease() is Some,
        ensures
            out@ == s@,
        decreases it.decrease()->0,
    {
        match it.next() {
            Some(c) => {
                out.push(c);
                assert(out@ + it.remaining() =~= s@);
            },
            None => {
                assert(out@ =~= s@);
                break;
            },
        }
    }
    out
}

/// The character that stands for `c` in a file name: `:`, `.`, `[` and `]`
/// become `_`.
pub open spec fn slug_char(c: char) -> char {
    if c == ':' || c == '.' || c == '[' || c == ']' {
        '_'
    } else {
        c
    }
}

/// A file-name-friendly form of an address.
pub fn slug(addr: &str) -> (r: Vec<char>)
    ensures
        r@ == addr@.map_values(|c: char| slug_char(c)),
{
    let v = chars_of(addr);
    let mut out: Vec<char> = Vec::new();
    let mut i: usize = 0;
    while i < v.len()
        invariant
            i <= v.len(),
            v@ == addr@,
            out@ == v@.take(i as int).map_values(|c: char| slug_char(c)),
        decreases v.len() - i,
    {
        let c = v[i];
        let d = if c == ':' || c == '.' || c == '[' || c == ']' {
            '_'
        } else {
            c
        };
        out.push(d);
        i = i + 1;
        proof {
            assert(out@ =~= v@.take(i as int).map_values(|c: char| slug_char(c)));
        }
    }
    proof {
        assert(v@.take(i as int) =~= v@);
    }
    out
}

/// The position of the last `c` in `s`, if any.
pub open spec fn last_index_of(s: Seq<char>, c: char) -> Option<int>
    decreases s.len(),
{
    if s.len() == 0 {
        None
    } else if s.last() == c {
        Some(s.len() - 1)
    } else {
        last_index_of(s.drop_last(), c)
    }
}

pub open spec fn is_digit(c: char) -> bool {
    '0' <= c <= '9'
}

pub open spec fn digit_value(c: char) -> nat {
    ((c as int) - ('0' as int)) as nat
}

/// The number that a string of decimal digits spells.
pub open spec fn decimal_value(s: Seq<char>) -> nat
    decreases s.len(),
{
    if s.len() == 0 {
        0
    } else {
        10 * decimal_value(s.drop_last()) + digit_value(s.last())
    }
}

/// The characters after an optional leading `+`.
pub open spec fn unsigned_digits(s: Seq<char>) -> Seq<char> {
    if s.len() > 0 && s[0] == '+' {
        s.skip(1)
    } else {
        s
    }
}

/// Whether every character is a decimal digit.
pub open spec fn all_digits(d: Seq<char>) -> bool {
    forall|i: int| 0 <= i < d.len() ==> is_digit(#[trigger] d[i])
}

/// What `u16::from_str` accepts: an optional `+`, then one or more decimal
/// digits whose value is at most 65535.
pub open spec fn spec_parse_u16(s: Seq<char>) -> Option<u16> {
    let d = unsigned_digits(s);
    if d.len() > 0 && all_digits(d) && decimal_value(d) <= 0xFFFF {
        Some(decimal_value(d) as u16)
    } else {
        None
    }
}

/// The character of a decimal digit.
pub open spec fn digit_char(d: nat) -> char {
    ((d + 48) as u8) as char
}

/// The decimal digits of `n`, without leading zeros.
pub open spec fn decimal_chars(n: nat) -> Seq<char>
    decreases n,
{
    if n < 10 {
        seq![digit_char(n)]
    } else {
        decimal_chars(n / 10).push(digit_char(n % 10))
    }
}

/// The query port for a game port: the game port plus the offset, taken
/// modulo 2^16.
pub open spec fn spec_query_port(game_port: u16, offset: i32) -> u16 {
    ((game_port + offset) % 0x1_0000) as u16
}

/// The port of an address `host:port` (after its last `:`), if it is a
/// valid port number.
pub open spec fn address_port(addr: Seq<char>) -> Option<(int, u16)> {
    match last_index_of(addr, ':') {
        None => None,
        Some(i) => match spec_parse_u16(addr.skip(i + 1)) {
            None => None,
            Some(p) => Some((i, p)),
        },
    }
}

/// The query address for a game address: with a non-zero offset and a valid
/// port after the last `:`, the host followed by `:` and the game port plus
/// the offset; otherwise the game address itself.
pub open spec fn spec_resolve_query_addr(addr: Seq<char>, offset: i32) -> Seq<char> {
    if offset == 0 {
        addr
    } else {
        match address_port(addr) {
            None => addr,
            Some((i, p)) => addr.take(i) + seq![':'] + decimal_chars(
                spec_query_port(p, offset) as nat,
            ),
        }
    }
}

proof fn lemma_decimal_prefix(s: Seq<char>, k: int)
    requires
        0 <= k <= s.len(),
    ensures
        decimal_value(s.take(k)) <= decimal_value(s),
    decreases s.len() - k,
{
    if k < s.len() {
        lemma_decimal_prefix(s, k + 1);
        assert(s.take(k + 1).drop_last() =~= s.take(k));
    } else {
        assert(s.take(k) =~= s);
    }
}

fn digit_to_char(d: u32) -> (c: char)
    requires
        d < 10,
    ensures
        c == digit_char(d as nat),
{
    ((d as u8) + 48) as char
}

/// Appends the decimal digits of `n`.
fn push_decimal(out: &mut Vec<char>, n: u32)
    ensures
        final(out)@ == old(out)@ + decimal_chars(n as nat),
    decreases n,
{
    if n >= 10 {
        push_decimal(out, n / 10);
    }
    out.push(digit_to_char(n % 10));
    proof {
        assert(out@ =~= old(out)@ + decimal_chars(n as nat));
    }
}

/// Parses a port number the way `u16::from_str` does.
fn parse_port(s: &Vec<char>, from: usize) -> (r: Option<u16>)
    requires
        from <= s.len(),
    ensures
        r == spec_parse_u16(s@.skip(from as int)),
{
    let ghost t = s@.skip(from as int);
    let mut j = from;
    if j < s.len() && s[j] == '+' {
        j = j + 1;
    }
    let ghost d = s@.skip(j as int);
    proof {
        assert(t.len() > 0 && t[0] == '+' ==> d =~= t.skip(1));
        assert(!(t.len() > 0 && t[0] == '+') ==> d =~= t);
    }
    if j == s.len() {
        return None;
    }
    let mut v: u32 = 0;
    let mut k = j;
    while k < s.len()
        invariant
            j < s.len(),
            j <= k <= s.len(),
            d == s@.skip(j as int),
            t == s@.skip(from as int),
            d == unsigned_digits(t),
            v <= 0xFFFF,
            v == decimal_value(d.take(k - j)),
            forall|i: int| 0 <= i < k - j ==> is_digit(#[trigger] d[i]),
        decreases s.len() - k,
    {
        let c = s[k];
        if !('0' <= c && c <= '9') {
            proof {
                assert(d[k - j] == c);
                assert(!is_digit(d[k - j]));
            }
            return None;
        }
        let ghost old_v = v;
        v = v * 10 + (c as u32 - '0' as u32);
        proof {
            assert(d.take(k - j + 1).drop_last() =~= d.take(k - j));
            assert(d.take(k - j + 1).last() == c);
        }
        if v > 0xFFFF {
            proof {
                lemma_decimal_prefix(d, k - j + 1);
            }
            return None;
        }
        k = k + 1;
    }
    proof {
        assert(d.take(k - j) =~= d);
    }
    Some(v as u16)
}

/// The game port plus the offset, as a 16-bit port (modulo 2^16).
fn query_port(game_port: u16, offset: i32) -> (r: u16)
    requires
        game_port + offset <= i32::MAX,
    ensures
        r == spec_query_port(game_port, offset),
{
    let sum: i64 = game_port as i64 + offset as i64;
    let shifted: u64 = (sum + 0x8000_0000i64) as u64;
    let r: u64 = shifted % 0x1_0000;
    proof {
        assert(r == (game_port + offset) % 0x1_0000) by (nonlinear_arith)
            requires
                shifted == game_port + offset + 0x8000_0000,
                r == shifted % 0x1_0000,
        ;
    }
    r as u16
}

/// Finds the last `:` of the address and the port after it, if that is a
/// valid port number.
fn split_port(v: &Vec<char>) -> (r: Option<(usize, u16)>)
    ensures
        match address_port(v@) {
            Some((i, p)) => r == Some::<(usize, u16)>((i as usize, p)) && 0 <= i < v.len(),
            None => r is None,
        },
{
    let mut i = v.len();
    proof {
        assert(v@.take(i as int) =~= v@);
    }
    while i > 0 && v[i - 1] != ':'
        invariant
            i <= v.len(),
            last_index_of(v@, ':') == last_index_of(v@.take(i as int), ':'),
        decreases i,
    {
        proof {
            assert(v@.take(i as int).drop_last() =~= v@.take(i - 1));
        }
        i = i - 1;
    }
    if i == 0 {
        proof {
            assert(v@.take(0) =~= Seq::<char>::empty());
        }
        return None;
    }
    let colon = i - 1;
    proof {
        assert(v@.take(i as int).last() == ':');
        assert(last_index_of(v@, ':') == Some(colon as int));
    }
    match parse_port(v, colon + 1) {
        Some(p) => Some((colon, p)),
        None => None,
    }
}

/// The game port of an address `host:port`: the valid port number after its
/// last `:`, if there is one.
pub fn game_port(game_addr: &str) -> (r: Option<u16>)
    ensures
        match address_port(game_addr@) {
            Some((_, p)) => r == Some(p),
            None => r is None,
        },
{
    let v = chars_of(game_addr);
    match split_port(&v) {
        Some((_, p)) => Some(p),
        None => None,
    }
}

/// Resolves the query address from a game address and a query port offset:
/// with a non-zero offset, the port after the last `:` is moved by the
/// offset; an address without a valid port is returned as it is.
pub fn resolve_query_addr(game_addr: &str, query_port_offset: i32) -> (r: Vec<char>)
    requires
        match address_port(game_addr@) {
            Some((_, p)) => p + query_port_offset <= i32::MAX,
            None => true,
        },
    ensures
        r@ == spec_resolve_query_addr(game_addr@, query_port_offset),
{
    let v = chars_of(game_addr);
    if query_port_offset == 0 {
        return v;
    }
    let (colon, port) = match split_port(&v) {
        Some(cp) => cp,
        None => return v,
    };
    let query_port = query_port(port, query_port_offset) as u32;
    let mut out: Vec<char> = Vec::new();
    let mut k: usize = 0;
    while k < colon
        invariant
            k <= colon < v.len(),
            out@ == v@.take(k as int),
        decreases colon - k,
    {
        out.push(v[k]);
        k = k + 1;
        proof {
            assert(out@ =~= v@.take(k as int));
        }
    }
    out.push(':');
    push_decimal(&mut out, query_port);
    proof {
        assert(out@ =~= v@.take(colon as int) + seq![':'] + decimal_chars(query_port as nat));
    }
    out
}


/// The decimal digits of a number are digits, and read back as the number.
proof fn lemma_decimal_chars(n: nat)
    ensures
        decimal_chars(n).len() > 0,
        all_digits(decimal_chars(n)),
        decimal_value(decimal_chars(n)) == n,
    decreases n,
{
    let d = n % 10;
    assert(digit_char(d) as int == d + 48);
    assert(digit_value(digit_char(d)) == d);
    assert(is_digit(digit_char(d)));
    if n >= 10 {
        lemma_decimal_chars(n / 10);
        let s = decimal_chars(n / 10);
        let t = s.push(digit_char(d));
        assert(t.drop_last() =~= s);
        assert(t.last() == digit_char(d));
        assert(decimal_value(t) == 10 * decimal_value(s) + digit_value(digit_char(d)));
        assert(n == 10 * (n / 10) + d);
        assert forall|i: int| 0 <= i < t.len() implies is_digit(#[trigger] t[i]) by {
            if i < s.len() {
                assert(t[i] == s[i]);
            }
        }
    } else {
        let t = seq![digit_char(d)];
        assert(t.drop_last() =~= Seq::<char>::empty());
        assert(decimal_value(Seq::<char>::empty()) == 0);
        assert(decimal_value(t) == 10 * decimal_value(t.drop_last()) + digit_value(t.last()));
        assert forall|i: int| 0 <= i < t.len() implies is_digit(#[trigger] t[i]) by {}
    }
}

/// The last `:` of `host:digits` is the one before the digits.
proof fn lemma_last_colon(h: Seq<char>, ds: Seq<char>)
    requires
        all_digits(ds),
    ensures
        last_index_of(h + seq![':'] + ds, ':') == Some(h.len() as int),
    decreases ds.len(),
{
    let s = h + seq![':'] + ds;
    if ds.len() == 0 {
        assert(s.last() == ':');
        assert(s =~= h.push(':'));
    } else {
        assert(is_digit(ds[ds.len() - 1]));
        assert(s.last() == ds.last());
        assert(s.last() != ':');
        assert forall|i: int| 0 <= i < ds.drop_last().len() implies is_digit(
            #[trigger] ds.drop_last()[i],
        ) by {
            assert(ds.drop_last()[i] == ds[i]);
        }
        lemma_last_colon(h, ds.drop_last());
        assert(s.drop_last() =~= h + seq![':'] + ds.drop_last());
    }
}

/// The query address keeps the host and carries the query port: when the
/// game address ends in a valid port after its last `:` and the offset is not
/// 0, the query address has the same host before its last `:`, and the port
/// after it reads back as the game port plus the offset, modulo 2^16.
pub proof fn lemma_query_addr_port(addr: Seq<char>, offset: i32, i: int, p: u16)
    requires
        offset != 0,
        address_port(addr) == Some::<(int, u16)>((i, p)),
    ensures
        address_port(spec_resolve_query_addr(addr, offset)) == Some::<(int, u16)>(
            (i, ((p + offset) % 0x1_0000) as u16),
        ),
        spec_resolve_query_addr(addr, offset).take(i) == addr.take(i),
{
    let q: u16 = ((p + offset) % 0x1_0000) as u16;
    let ds = decimal_chars(q as nat);
    lemma_decimal_chars(q as nat);
    let h = addr.take(i);
    assert(0 <= i < addr.len()) by {
        lemma_last_index_bounds(addr, ':');
    }
    let r = h + seq![':'] + ds;
    assert(spec_resolve_query_addr(addr, offset) == r);
    lemma_last_colon(h, ds);
    assert(r.skip(i + 1) =~= ds);
    assert(is_digit(ds[0]));
    assert(unsigned_digits(ds) == ds);
    assert(r.take(i) =~= h);
}

proof fn lemma_last_index_bounds(s: Seq<char>, c: char)
    ensures
        match last_index_of(s, c) {
            Some(i) => 0 <= i < s.len() && s[i] == c,
            None => true,
        },
    decreases s.len(),
{
    if s.len() > 0 && s.last() != c {
        lemma_last_index_bounds(s.drop_last(), c);
    }
}

} // verus!
