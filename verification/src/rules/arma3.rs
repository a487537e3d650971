//! Parser for the Arma 3 Server Browser Protocol 2 - v3.
//!
//! Arma 3 (and DayZ) servers encode mod lists, signatures, and server metadata
//! into the A2S_RULES response using a custom binary format. The binary data is
//! escaped, split across multiple rules as chunks, and reassembled by the
//! client.
use super::{rules_view, Rule, RuleView};
use crate::errors::{Error, ErrorView};
use crate::keyed::{
    join_in_key_order, join_in_key_order_exec, keyed_view, lemma_join_sorted, payloads,
};
use crate::wire::{
    copy_range, le_bytes, lemma_le_roundtrip, lemma_pow256_values, lemma_skip_skip, lemma_u8_pop,
    lemma_uint_pop, pow256, read_bytes, read_u32, read_u8, read_uint, spec_bytes, spec_u32, spec_u8,
    spec_uint,
};
use vstd::prelude::*;

verus! {

/// A Steam Workshop file ID.
#[derive(Debug, Clone, Copy, PartialEq, Eq, Hash)]
pub struct WorkshopId(pub u64);

/// A 4-byte content hash for a mod.
#[derive(Debug, Clone, Copy, PartialEq, Eq, Hash)]
pub struct ModHash(pub u32);

/// A mod entry from the server's mod list.
#[derive(Debug, Clone)]
#[non_exhaustive]
pub struct Mod {
    pub hash: ModHash,
    pub is_dlc: bool,
    pub steam_id: WorkshopId,
    pub name: Vec<u8>,
}

pub struct ModView {
    pub hash: ModHash,
    pub is_dlc: bool,
    pub steam_id: WorkshopId,
    pub name: Seq<u8>,
}

impl View for Mod {
    type V = ModView;

    open spec fn view(&self) -> ModView {
        ModView { hash: self.hash, is_dlc: self.is_dlc, steam_id: self.steam_id, name: self.name@ }
    }
}

pub open spec fn mods_view(ms: Seq<Mod>) -> Seq<ModView> {
    ms.map_values(|m: Mod| m@)
}

pub open spec fn bytes_list_view(bs: Seq<Vec<u8>>) -> Seq<Seq<u8>> {
    bs.map_values(|b: Vec<u8>| b@)
}

/// Parsed Arma 3 / DayZ server browser protocol data.
///
/// This is extracted from the binary chunks embedded in A2S_RULES responses.
/// Standard key-value rules (e.g. "island", "platform") are returned separately.
#[derive(Debug, Clone)]
#[non_exhaustive]
pub struct Arma3Rules {
    /// Protocol version (typically 2).
    pub version: u32,
    /// Server mods.
    pub mods: Vec<Mod>,
    /// Signature/author names required by the server.
    pub signatures: Vec<Vec<u8>>,
    /// Server description or trailing text, if present.
    pub description: Vec<u8>,
    /// Standard key-value rules that are not part of the binary protocol.
    pub rules: Vec<Rule>,
}

pub struct Arma3RulesView {
    pub version: u32,
    pub mods: Seq<ModView>,
    pub signatures: Seq<Seq<u8>>,
    pub description: Seq<u8>,
    pub rules: Seq<RuleView>,
}

impl View for Arma3Rules {
    type V = Arma3RulesView;

    open spec fn view(&self) -> Arma3RulesView {
        Arma3RulesView {
            version: self.version,
            mods: mods_view(self.mods@),
            signatures: bytes_list_view(self.signatures@),
            description: self.description@,
            rules: rules_view(self.rules@),
        }
    }
}

// ---------------------------------------------------------------------------
// Splitting the rules
// ---------------------------------------------------------------------------

/// A rule that carries a binary chunk: a 2-byte name whose bytes are both
/// below 0x20. Its first name byte is the chunk's index.
pub open spec fn is_chunk(r: RuleView) -> bool {
    r.name.len() == 2 && r.name[0] < 0x20 && r.name[1] < 0x20
}

/// The binary chunks among the rules, in order, as (index, payload).
pub open spec fn chunk_list(rs: Seq<RuleView>) -> Seq<(u8, Seq<u8>)>
    decreases rs.len(),
{
    if rs.len() == 0 {
        Seq::empty()
    } else {
        let prev = chunk_list(rs.drop_last());
        let r = rs.last();
        if is_chunk(r) {
            prev.push((r.name[0], r.value))
        } else {
            prev
        }
    }
}

/// The rules that are not binary chunks, in order.
pub open spec fn standard_list(rs: Seq<RuleView>) -> Seq<RuleView>
    decreases rs.len(),
{
    if rs.len() == 0 {
        Seq::empty()
    } else {
        let prev = standard_list(rs.drop_last());
        let r = rs.last();
        if is_chunk(r) {
            prev
        } else {
            prev.push(r)
        }
    }
}

// ---------------------------------------------------------------------------
// Unescaping
// ---------------------------------------------------------------------------

/// The byte that the escape `0x01 b` stands for.
pub open spec fn unescaped_byte(b: u8) -> u8 {
    if b == 1 {
        0x01
    } else if b == 2 {
        0x00
    } else {
        0xFF
    }
}

/// Whether `s` starts with one of the escapes `0x01 0x01`, `0x01 0x02`,
/// `0x01 0x03`.
pub open spec fn starts_with_escape(s: Seq<u8>) -> bool {
    s.len() >= 2 && s[0] == 1 && (s[1] == 1 || s[1] == 2 || s[1] == 3)
}

/// Unescapes the Arma 3 binary encoding, left to right:
/// `0x01 0x01` gives `0x01`, `0x01 0x02` gives `0x00`, `0x01 0x03` gives
/// `0xFF`; every other byte stands for itself.
pub open spec fn spec_unescape(s: Seq<u8>) -> Seq<u8>
    decreases s.len(),
{
    if s.len() == 0 {
        Seq::empty()
    } else if starts_with_escape(s) {
        seq![unescaped_byte(s[1])] + spec_unescape(s.skip(2))
    } else {
        seq![s[0]] + spec_unescape(s.skip(1))
    }
}

/// The escape of one byte: `0x01`, `0x00` and `0xFF` become `0x01 0x01`,
/// `0x01 0x02` and `0x01 0x03`; every other byte stands for itself.
pub open spec fn escaped_byte(b: u8) -> Seq<u8> {
    if b == 0x01 {
        seq![0x01, 0x01]
    } else if b == 0x00 {
        seq![0x01, 0x02]
    } else if b == 0xFF {
        seq![0x01, 0x03]
    } else {
        seq![b]
    }
}

/// The escaping that servers apply before splitting the data into chunks.
pub open spec fn spec_escape(s: Seq<u8>) -> Seq<u8>
    decreases s.len(),
{
    if s.len() == 0 {
        Seq::empty()
    } else {
        escaped_byte(s[0]) + spec_escape(s.skip(1))
    }
}

/// Unescaping undoes the escaping: for all bytes `s`, unescaping the escape
/// of `s` gives `s`.
pub proof fn lemma_unescape_escape(s: Seq<u8>)
    ensures
        spec_unescape(spec_escape(s)) == s,
    decreases s.len(),
{
    if s.len() > 0 {
        let b = s[0];
        let rest = spec_escape(s.skip(1));
        lemma_unescape_escape(s.skip(1));
        let e = escaped_byte(b) + rest;
        assert(spec_escape(s) == e);
        if b == 0x01 || b == 0x00 || b == 0xFF {
            assert(starts_with_escape(e));
            assert(e.skip(2) =~= rest);
            assert(unescaped_byte(e[1]) == b);
        } else {
            assert(!starts_with_escape(e));
            assert(e.skip(1) =~= rest);
        }
        assert(seq![b] + s.skip(1) =~= s);
    } else {
        assert(spec_escape(s) =~= Seq::<u8>::empty());
        assert(s =~= Seq::<u8>::empty());
    }
}

/// Bytes without any `0x01` hold no escape: unescaping leaves them as they
/// are.
pub proof fn lemma_unescape_plain(d: Seq<u8>)
    requires
        forall|i: int| 0 <= i < d.len() ==> #[trigger] d[i] != 0x01,
    ensures
        spec_unescape(d) == d,
    decreases d.len(),
{
    if d.len() > 0 {
        assert(!starts_with_escape(d));
        assert forall|i: int| 0 <= i < d.skip(1).len() implies #[trigger] d.skip(1)[i] != 0x01 by {
            assert(d.skip(1)[i] == d[i + 1]);
        }
        lemma_unescape_plain(d.skip(1));
        assert(seq![d[0]] + d.skip(1) =~= d);
    } else {
        assert(d =~= Seq::<u8>::empty());
    }
}

/// Unescaping never makes the data longer.
pub proof fn lemma_unescape_len(d: Seq<u8>)
    ensures
        spec_unescape(d).len() <= d.len(),
    decreases d.len(),
{
    if d.len() > 0 {
        if starts_with_escape(d) {
            lemma_unescape_len(d.skip(2));
        } else {
            lemma_unescape_len(d.skip(1));
        }
    }
}

/// Unescape the Arma 3 binary protocol encoding.
fn unescape(data: &[u8]) -> (r: Vec<u8>)
    ensures
        r@ == spec_unescape(data@),
{
    let ghost s = data@;
    let mut out: Vec<u8> = Vec::with_capacity(data.len());
    let mut i: usize = 0;
    proof {
        assert(s.skip(0) =~= s);
    }
    while i < data.len()
        invariant
            i <= data.len(),
            s == data@,
            out@ + spec_unescape(s.skip(i as int)) == spec_unescape(s),
        decreases data.len() - i,
    {
        let ghost before = out@;
        let ghost rest = s.skip(i as int);
        if data[i] == 0x01 && i + 1 < data.len() && (data[i + 1] == 0x01 || data[i + 1] == 0x02
            || data[i + 1] == 0x03) {
            let b = data[i + 1];
            let x: u8 = if b == 0x01 {
                0x01
            } else if b == 0x02 {
                0x00
            } else {
                0xFF
            };
            out.push(x);
            proof {
                assert(rest[0] == data@[i as int] && rest[1] == data@[i + 1]);
                assert(starts_with_escape(rest));
                lemma_skip_skip(s, i as int, 2);
                assert(before + (seq![x] + spec_unescape(s.skip(i + 2))) =~= out@ + spec_unescape(
                    s.skip(i + 2),
                ));
            }
            i = i + 2;
        } else {
            out.push(data[i]);
            proof {
                assert(rest[0] == data@[i as int]);
                if rest.len() >= 2 {
                    assert(rest[1] == data@[i + 1]);
                }
                assert(!starts_with_escape(rest));
                lemma_skip_skip(s, i as int, 1);
                assert(before + (seq![data@[i as int]] + spec_unescape(s.skip(i + 1)))
                    =~= out@ + spec_unescape(s.skip(i + 1)));
            }
            i = i + 1;
        }
    }
    proof {
        assert(s.skip(i as int) =~= Seq::<u8>::empty());
        assert(out@ + Seq::<u8>::empty() =~= out@);
    }
    out
}

// ---------------------------------------------------------------------------
// Decoding the stream
// ---------------------------------------------------------------------------

/// A little-endian unsigned number of `len` bytes (at most 8); no bytes
/// give 0.
pub open spec fn spec_var_uint(s: Seq<u8>, len: nat) -> Result<(u64, Seq<u8>), ErrorView> {
    if len == 0 {
        Ok((0, s))
    } else if len > 8 {
        Err(ErrorView::SteamIdTooLong)
    } else {
        match spec_uint(s, len) {
            Ok((v, r)) => Ok((v as u64, r)),
            Err(e) => Err(e),
        }
    }
}

/// One mod: hash, flags (bit 4: DLC, low nibble: length of the Steam id),
/// Steam id, name length and name.
pub open spec fn spec_mod(s: Seq<u8>) -> Result<(ModView, Seq<u8>), ErrorView> {
    match spec_u32(s) {
        Err(e) => Err(e),
        Ok((hash, r)) => match spec_u8(r) {
            Err(e) => Err(e),
            Ok((flags, r)) => match spec_var_uint(r, (flags & 0x0F) as nat) {
                Err(e) => Err(e),
                Ok((steam_id, r)) => match spec_u8(r) {
                    Err(e) => Err(e),
                    Ok((name_len, r)) => match spec_bytes(r, name_len as nat) {
                        Err(e) => Err(e),
                        Ok((name, r)) => Ok(
                            (
                                ModView {
                                    hash: ModHash(hash),
                                    is_dlc: flags & 0x10 != 0,
                                    steam_id: WorkshopId(steam_id),
                                    name,
                                },
                                r,
                            ),
                        ),
                    },
                },
            },
        },
    }
}

/// `n` mods, one after the other.
pub open spec fn spec_mods(s: Seq<u8>, n: nat) -> Result<(Seq<ModView>, Seq<u8>), ErrorView>
    decreases n,
{
    if n == 0 {
        Ok((Seq::empty(), s))
    } else {
        match spec_mod(s) {
            Err(e) => Err(e),
            Ok((m, r)) => match spec_mods(r, (n - 1) as nat) {
                Err(e) => Err(e),
                Ok((ms, r)) => Ok((seq![m] + ms, r)),
            },
        }
    }
}

/// One signature: a length byte and that many bytes.
pub open spec fn spec_signature(s: Seq<u8>) -> Result<(Seq<u8>, Seq<u8>), ErrorView> {
    match spec_u8(s) {
        Err(e) => Err(e),
        Ok((len, r)) => spec_bytes(r, len as nat),
    }
}

/// `n` signatures, one after the other.
pub open spec fn spec_signatures(s: Seq<u8>, n: nat) -> Result<(Seq<Seq<u8>>, Seq<u8>), ErrorView>
    decreases n,
{
    if n == 0 {
        Ok((Seq::empty(), s))
    } else {
        match spec_signature(s) {
            Err(e) => Err(e),
            Ok((g, r)) => match spec_signatures(r, (n - 1) as nat) {
                Err(e) => Err(e),
                Ok((gs, r)) => Ok((seq![g] + gs, r)),
            },
        }
    }
}

/// The unescaped stream: version, mod count, mods, signature count,
/// signatures; the bytes that are left are the description.
pub open spec fn spec_stream(s: Seq<u8>) -> Result<
    (u32, Seq<ModView>, Seq<Seq<u8>>, Seq<u8>),
    ErrorView,
> {
    match spec_u32(s) {
        Err(e) => Err(e),
        Ok((version, r)) => match spec_u8(r) {
            Err(e) => Err(e),
            Ok((mod_count, r)) => match spec_mods(r, mod_count as nat) {
                Err(e) => Err(e),
                Ok((mods, r)) => match spec_u8(r) {
                    Err(e) => Err(e),
                    Ok((sig_count, r)) => match spec_signatures(r, sig_count as nat) {
                        Err(e) => Err(e),
                        Ok((signatures, r)) => Ok((version, mods, signatures, r)),
                    },
                },
            },
        },
    }
}

/// What `from_rules` yields: the chunks are joined in index order (equal
/// indices in rule order), unescaped and decoded; the other rules are kept
/// as they are, in order. Without any chunk there is nothing to decode.
pub open spec fn spec_from_rules(rs: Seq<RuleView>) -> Result<Arma3RulesView, ErrorView> {
    let chunks = chunk_list(rs);
    if chunks.len() == 0 {
        Err(ErrorView::NoBinaryChunks)
    } else {
        match spec_stream(spec_unescape(join_in_key_order(chunks))) {
            Err(e) => Err(e),
            Ok((version, mods, signatures, description)) => Ok(
                Arma3RulesView { version, mods, signatures, description, rules: standard_list(rs) },
            ),
        }
    }
}

/// Read a variable-length unsigned integer (little-endian) up to 8 bytes.
fn read_var_uint(data: &[u8], pos: usize, len: usize) -> (r: Result<(u64, usize), Error>)
    requires
        pos <= data.len(),
    ensures
        match r {
            Ok((v, q)) => q <= data.len() && spec_var_uint(data@.skip(pos as int), len as nat) == Ok::<
                (u64, Seq<u8>),
                ErrorView,
            >((v, data@.skip(q as int))),
            Err(e) => spec_var_uint(data@.skip(pos as int), len as nat) == Err::<
                (u64, Seq<u8>),
                ErrorView,
            >(e@),
        },
{
    if len == 0 {
        return Ok((0, pos));
    }
    if len > 8 {
        return Err(Error::SteamIdTooLong);
    }
    read_uint(data, pos, len)
}

fn parse_mod(data: &[u8], pos: usize) -> (r: Result<(Mod, usize), Error>)
    requires
        pos <= data.len(),
    ensures
        match r {
            Ok((m, q)) => q <= data.len() && spec_mod(data@.skip(pos as int)) == Ok::<
                (ModView, Seq<u8>),
                ErrorView,
            >((m@, data@.skip(q as int))),
            Err(e) => spec_mod(data@.skip(pos as int)) == Err::<(ModView, Seq<u8>), ErrorView>(e@),
        },
{
    let (hash, p) = read_u32(data, pos)?;
    let (flags, p) = read_u8(data, p)?;
    let is_dlc = flags & 0x10 != 0;
    let steam_id_len = (flags & 0x0F) as usize;
    let (steam_id, p) = read_var_uint(data, p, steam_id_len)?;
    let (name_len, p) = read_u8(data, p)?;
    let (name, p) = read_bytes(data, p, name_len as usize)?;
    Ok((Mod { hash: ModHash(hash), is_dlc, steam_id: WorkshopId(steam_id), name }, p))
}

fn parse_signature(data: &[u8], pos: usize) -> (r: Result<(Vec<u8>, usize), Error>)
    requires
        pos <= data.len(),
    ensures
        match r {
            Ok((g, q)) => q <= data.len() && spec_signature(data@.skip(pos as int)) == Ok::<
                (Seq<u8>, Seq<u8>),
                ErrorView,
            >((g@, data@.skip(q as int))),
            Err(e) => spec_signature(data@.skip(pos as int)) == Err::<(Seq<u8>, Seq<u8>), ErrorView>(
                e@,
            ),
        },
{
    let (len, p) = read_u8(data, pos)?;
    read_bytes(data, p, len as usize)
}

fn parse_mods(data: &[u8], pos: usize, count: u8) -> (r: Result<(Vec<Mod>, usize), Error>)
    requires
        pos <= data.len(),
    ensures
        match r {
            Ok((ms, q)) => q <= data.len() && spec_mods(data@.skip(pos as int), count as nat) == Ok::<
                (Seq<ModView>, Seq<u8>),
                ErrorView,
            >((mods_view(ms@), data@.skip(q as int))),
            Err(e) => spec_mods(data@.skip(pos as int), count as nat) == Err::<
                (Seq<ModView>, Seq<u8>),
                ErrorView,
            >(e@),
        },
{
    let ghost s0 = data@.skip(pos as int);
    let mut mods: Vec<Mod> = Vec::with_capacity(count as usize);
    let mut p = pos;
    let mut i: u8 = 0;
    while i < count
        invariant
            i <= count,
            p <= data.len(),
            s0 == data@.skip(pos as int),
            spec_mods(s0, count as nat) == match spec_mods(data@.skip(p as int), (count - i) as nat) {
                Ok((ms, r)) => Ok::<(Seq<ModView>, Seq<u8>), ErrorView>((mods_view(mods@) + ms, r)),
                Err(e) => Err(e),
            },
        decreases count - i,
    {
        let ghost before = mods_view(mods@);
        match parse_mod(data, p) {
            Ok((m, q)) => {
                let ghost mv = m@;
                mods.push(m);
                proof {
                    assert(mods_view(mods@) =~= before.push(mv));
                    match spec_mods(data@.skip(q as int), (count - i - 1) as nat) {
                        Ok((ms, _)) => {
                            assert(before + (seq![mv] + ms) =~= mods_view(mods@) + ms);
                        },
                        Err(_) => {},
                    }
                }
                p = q;
                i = i + 1;
            },
            Err(e) => {
                proof {
                    assert(spec_mods(data@.skip(p as int), (count - i) as nat) == Err::<
                        (Seq<ModView>, Seq<u8>),
                        ErrorView,
                    >(e@));
                }
                return Err(e);
            },
        }
    }
    proof {
        assert(mods_view(mods@) + Seq::<ModView>::empty() =~= mods_view(mods@));
    }
    Ok((mods, p))
}

fn parse_signatures(data: &[u8], pos: usize, count: u8) -> (r: Result<(Vec<Vec<u8>>, usize), Error>)
    requires
        pos <= data.len(),
    ensures
        match r {
            Ok((gs, q)) => q <= data.len() && spec_signatures(data@.skip(pos as int), count as nat)
                == Ok::<(Seq<Seq<u8>>, Seq<u8>), ErrorView>(
                (bytes_list_view(gs@), data@.skip(q as int)),
            ),
            Err(e) => spec_signatures(data@.skip(pos as int), count as nat) == Err::<
                (Seq<Seq<u8>>, Seq<u8>),
                ErrorView,
            >(e@),
        },
{
    let ghost s0 = data@.skip(pos as int);
    let mut sigs: Vec<Vec<u8>> = Vec::with_capacity(count as usize);
    let mut p = pos;
    let mut i: u8 = 0;
    while i < count
        invariant
            i <= count,
            p <= data.len(),
            s0 == data@.skip(pos as int),
            spec_signatures(s0, count as nat) == match spec_signatures(
                data@.skip(p as int),
                (count - i) as nat,
            ) {
                Ok((gs, r)) => Ok::<(Seq<Seq<u8>>, Seq<u8>), ErrorView>(
                    (bytes_list_view(sigs@) + gs, r),
                ),
                Err(e) => Err(e),
            },
        decreases count - i,
    {
        let ghost before = bytes_list_view(sigs@);
        match parse_signature(data, p) {
            Ok((g, q)) => {
                let ghost gv = g@;
                sigs.push(g);
                proof {
                    assert(bytes_list_view(sigs@) =~= before.push(gv));
                    match spec_signatures(data@.skip(q as int), (count - i - 1) as nat) {
                        Ok((gs, _)) => {
                            assert(before + (seq![gv] + gs) =~= bytes_list_view(sigs@) + gs);
                        },
                        Err(_) => {},
                    }
                }
                p = q;
                i = i + 1;
            },
            Err(e) => {
                proof {
                    assert(spec_signatures(data@.skip(p as int), (count - i) as nat) == Err::<
                        (Seq<Seq<u8>>, Seq<u8>),
                        ErrorView,
                    >(e@));
                }
                return Err(e);
            },
        }
    }
    proof {
        assert(bytes_list_view(sigs@) + Seq::<Seq<u8>>::empty() =~= bytes_list_view(sigs@));
    }
    Ok((sigs, p))
}

fn parse_stream(stream: &[u8]) -> (r: Result<(u32, Vec<Mod>, Vec<Vec<u8>>, Vec<u8>), Error>)
    ensures
        match r {
            Ok((version, mods, sigs, description)) => spec_stream(stream@) == Ok::<
                (u32, Seq<ModView>, Seq<Seq<u8>>, Seq<u8>),
                ErrorView,
            >((version, mods_view(mods@), bytes_list_view(sigs@), description@)),
            Err(e) => spec_stream(stream@) == Err::<
                (u32, Seq<ModView>, Seq<Seq<u8>>, Seq<u8>),
                ErrorView,
            >(e@),
        },
{
    proof {
        assert(stream@.skip(0) =~= stream@);
    }
    let (version, p) = read_u32(stream, 0)?;
    let (mod_count, p) = read_u8(stream, p)?;
    let (mods, p) = parse_mods(stream, p, mod_count)?;
    let (sig_count, p) = read_u8(stream, p)?;
    let (signatures, p) = parse_signatures(stream, p, sig_count)?;
    let description = copy_range(stream, p, stream.len());
    proof {
        assert(description@ =~= stream@.skip(p as int));
    }
    Ok((version, mods, signatures, description))
}

/// Splits the rules into binary chunks (index, payload) and standard rules.
fn split_rules(rules: &[Rule]) -> (r: (Vec<(u8, Vec<u8>)>, Vec<Rule>))
    ensures
        keyed_view(r.0@) == chunk_list(rules_view(rules@)),
        rules_view(r.1@) == standard_list(rules_view(rules@)),
{
    let ghost rs = rules_view(rules@);
    let mut chunks: Vec<(u8, Vec<u8>)> = Vec::new();
    let mut standard: Vec<Rule> = Vec::new();
    let mut i: usize = 0;
    while i < rules.len()
        invariant
            i <= rules.len(),
            rs == rules_view(rules@),
            keyed_view(chunks@) == chunk_list(rs.take(i as int)),
            rules_view(standard@) == standard_list(rs.take(i as int)),
        decreases rules.len() - i,
    {
        let rule = &rules[i];
        proof {
            assert(rs.take(i + 1).drop_last() =~= rs.take(i as int));
            assert(rs.take(i + 1).last() == rule@);
        }
        if rule.name.len() == 2 && rule.name[0] < 0x20 && rule.name[1] < 0x20 {
            let payload = copy_range(rule.value.as_slice(), 0, rule.value.len());
            proof {
                assert(payload@ =~= rule.value@);
            }
            let ghost before = keyed_view(chunks@);
            chunks.push((rule.name[0], payload));
            proof {
                assert(keyed_view(chunks@) =~= before.push((rule.name@[0], rule.value@)));
            }
        } else {
            let name = copy_range(rule.name.as_slice(), 0, rule.name.len());
            let value = copy_range(rule.value.as_slice(), 0, rule.value.len());
            proof {
                assert(name@ =~= rule.name@);
                assert(value@ =~= rule.value@);
            }
            let ghost before = rules_view(standard@);
            standard.push(Rule { name, value });
            proof {
                assert(rules_view(standard@) =~= before.push(rule@));
            }
        }
        i = i + 1;
    }
    proof {
        assert(rs.take(i as int) =~= rs);
    }
    (chunks, standard)
}

impl Arma3Rules {
    /// Parse Arma 3 server browser protocol data from a list of A2S_RULES.
    ///
    /// Rules with 2-byte keys where both bytes are < 0x20 are treated as binary
    /// chunks. All other rules are returned as standard key-value pairs.
    pub fn from_rules(rules: &[Rule]) -> (r: Result<Self, Error>)
        ensures
            match r {
                Ok(v) => spec_from_rules(rules_view(rules@)) == Ok::<Arma3RulesView, ErrorView>(v@),
                Err(e) => spec_from_rules(rules_view(rules@)) == Err::<Arma3RulesView, ErrorView>(
                    e@,
                ),
            },
    {
        let (chunks, standard) = split_rules(rules);
        if chunks.len() == 0 {
            proof {
                assert(keyed_view(chunks@).len() == 0);
            }
            return Err(Error::NoBinaryChunks);
        }
        proof {
            assert(keyed_view(chunks@).len() == chunks@.len());
        }
        let raw = join_in_key_order_exec(&chunks);
        let stream = unescape(raw.as_slice());
        let (version, mods, signatures, description) = parse_stream(stream.as_slice())?;
        Ok(Arma3Rules { version, mods, signatures, description, rules: standard })
    }
}


/// Reading one mod reads its wire bytes field by field: the hash (4 bytes,
/// little-endian); the flags byte, whose bit 4 (`0x10`) says whether the mod
/// is a DLC and whose low four bits give the length of the Steam id; the
/// Steam id in that many little-endian bytes; the length of the name in one
/// byte; and the name. What follows is left unread.
pub proof fn lemma_mod_wire(hash: u32, flags: u8, steam_id: u64, name: Seq<u8>, rest: Seq<u8>)
    requires
        flags % 16 <= 8,
        steam_id < pow256((flags % 16) as nat),
        name.len() < 256,
    ensures
        spec_mod(
            le_bytes(hash as nat, 4) + (seq![flags] + (le_bytes(steam_id as nat, (flags % 16) as nat)
                + (seq![name.len() as u8] + (name + rest)))),
        ) == Ok::<(ModView, Seq<u8>), ErrorView>(
            (
                ModView {
                    hash: ModHash(hash),
                    is_dlc: (flags / 16) % 2 == 1,
                    steam_id: WorkshopId(steam_id),
                    name,
                },
                rest,
            ),
        ),
{
    lemma_pow256_values();
    assert((flags & 0x0F) == flags % 16) by (bit_vector);
    assert((flags & 0x10 != 0) == ((flags / 16) % 2 == 1)) by (bit_vector);
    let len = (flags % 16) as nat;
    let s4 = name + rest;
    let s3 = seq![name.len() as u8] + s4;
    let s2 = le_bytes(steam_id as nat, len) + s3;
    let s1 = seq![flags] + s2;
    lemma_uint_pop(hash as nat, 4, s1);
    lemma_u8_pop(flags, s2);
    if len > 0 {
        lemma_uint_pop(steam_id as nat, len, s3);
    } else {
        lemma_le_roundtrip(steam_id as nat, 0);
        assert(le_bytes(steam_id as nat, 0) =~= Seq::<u8>::empty());
        assert(s2 =~= s3);
    }
    lemma_u8_pop(name.len() as u8, s4);
    assert(s4.take(name.len() as int) =~= name);
    assert(s4.skip(name.len() as int) =~= rest);
}

/// A Steam id longer than 8 bytes is refused: a flags byte whose low four
/// bits exceed 8 makes the mod unreadable, whatever follows.
pub proof fn lemma_mod_steam_id_too_long(hash: u32, flags: u8, rest: Seq<u8>)
    requires
        flags % 16 > 8,
    ensures
        spec_mod(le_bytes(hash as nat, 4) + (seq![flags] + rest)) == Err::<(ModView, Seq<u8>), ErrorView>(
            ErrorView::SteamIdTooLong,
        ),
{
    lemma_pow256_values();
    assert((flags & 0x0F) == flags % 16) by (bit_vector);
    lemma_uint_pop(hash as nat, 4, seq![flags] + rest);
    lemma_u8_pop(flags, rest);
}


/// The bytes of one mod in a stream: hash, a flags byte with bit 4 set for a
/// DLC and an 8-byte Steam id, the Steam id, the name's length and the name.
pub open spec fn mod_wire(m: ModView) -> Seq<u8> {
    le_bytes(m.hash.0 as nat, 4) + (seq![
        if m.is_dlc {
            0x18u8
        } else {
            0x08u8
        },
    ] + (le_bytes(m.steam_id.0 as nat, 8) + (seq![m.name.len() as u8] + m.name)))
}

/// The bytes of a list of mods, one after the other.
pub open spec fn mods_wire(ms: Seq<ModView>) -> Seq<u8>
    decreases ms.len(),
{
    if ms.len() == 0 {
        Seq::empty()
    } else {
        mod_wire(ms[0]) + mods_wire(ms.skip(1))
    }
}

/// The bytes of a list of signatures: each its length byte and its bytes.
pub open spec fn signatures_wire(gs: Seq<Seq<u8>>) -> Seq<u8>
    decreases gs.len(),
{
    if gs.len() == 0 {
        Seq::empty()
    } else {
        seq![gs[0].len() as u8] + gs[0] + signatures_wire(gs.skip(1))
    }
}

proof fn lemma_mod_wire_one(m: ModView, rest: Seq<u8>)
    requires
        m.name.len() < 256,
    ensures
        spec_mod(mod_wire(m) + rest) == Ok::<(ModView, Seq<u8>), ErrorView>((m, rest)),
{
    let flags: u8 = if m.is_dlc {
        0x18u8
    } else {
        0x08u8
    };
    lemma_pow256_values();
    assert(flags % 16 == 8);
    assert(((flags / 16) % 2 == 1) == m.is_dlc);
    assert(mod_wire(m) + rest =~= le_bytes(m.hash.0 as nat, 4) + (seq![flags] + (le_bytes(
        m.steam_id.0 as nat,
        (flags % 16) as nat,
    ) + (seq![m.name.len() as u8] + (m.name + rest)))));
    lemma_mod_wire(m.hash.0, flags, m.steam_id.0, m.name, rest);
}

proof fn lemma_mods_wire(ms: Seq<ModView>, rest: Seq<u8>)
    requires
        forall|i: int| 0 <= i < ms.len() ==> (#[trigger] ms[i]).name.len() < 256,
    ensures
        spec_mods(mods_wire(ms) + rest, ms.len()) == Ok::<(Seq<ModView>, Seq<u8>), ErrorView>(
            (ms, rest),
        ),
    decreases ms.len(),
{
    if ms.len() == 0 {
        assert(mods_wire(ms) + rest =~= rest);
        assert(ms =~= Seq::<ModView>::empty());
    } else {
        let m = ms[0];
        let tail = ms.skip(1);
        assert forall|i: int| 0 <= i < tail.len() implies (#[trigger] tail[i]).name.len() < 256 by {
            assert(tail[i] == ms[i + 1]);
        }
        lemma_mods_wire(tail, rest);
        let r = mods_wire(tail) + rest;
        assert(ms[0].name.len() < 256);
        lemma_mod_wire_one(m, r);
        assert(mods_wire(ms) + rest =~= mod_wire(m) + r);
        assert(seq![m] + tail =~= ms);
    }
}

proof fn lemma_signatures_wire(gs: Seq<Seq<u8>>, rest: Seq<u8>)
    requires
        forall|i: int| 0 <= i < gs.len() ==> (#[trigger] gs[i]).len() < 256,
    ensures
        spec_signatures(signatures_wire(gs) + rest, gs.len()) == Ok::<
            (Seq<Seq<u8>>, Seq<u8>),
            ErrorView,
        >((gs, rest)),
    decreases gs.len(),
{
    if gs.len() == 0 {
        assert(signatures_wire(gs) + rest =~= rest);
        assert(gs =~= Seq::<Seq<u8>>::empty());
    } else {
        let g = gs[0];
        let tail = gs.skip(1);
        assert forall|i: int| 0 <= i < tail.len() implies (#[trigger] tail[i]).len() < 256 by {
            assert(tail[i] == gs[i + 1]);
        }
        lemma_signatures_wire(tail, rest);
        let r = signatures_wire(tail) + rest;
        assert(gs[0].len() < 256);
        assert(signatures_wire(gs) + rest =~= seq![g.len() as u8] + (g + r));
        lemma_u8_pop(g.len() as u8, g + r);
        assert((g + r).take(g.len() as int) =~= g);
        assert((g + r).skip(g.len() as int) =~= r);
        assert(seq![g] + tail =~= gs);
    }
}

/// Reading the unescaped stream reads its wire bytes in order: the version
/// (4 bytes, little-endian), the number of mods and the mods, the number of
/// signatures and the signatures; every byte after them is the description.
pub proof fn lemma_stream_wire(
    version: u32,
    ms: Seq<ModView>,
    gs: Seq<Seq<u8>>,
    description: Seq<u8>,
)
    requires
        ms.len() < 256,
        gs.len() < 256,
        forall|i: int| 0 <= i < ms.len() ==> (#[trigger] ms[i]).name.len() < 256,
        forall|i: int| 0 <= i < gs.len() ==> (#[trigger] gs[i]).len() < 256,
    ensures
        spec_stream(
            le_bytes(version as nat, 4) + (seq![ms.len() as u8] + (mods_wire(ms) + (seq![
                gs.len() as u8,
            ] + (signatures_wire(gs) + description)))),
        ) == Ok::<(u32, Seq<ModView>, Seq<Seq<u8>>, Seq<u8>), ErrorView>(
            (version, ms, gs, description),
        ),
{
    lemma_pow256_values();
    let s4 = signatures_wire(gs) + description;
    let s3 = seq![gs.len() as u8] + s4;
    let s2 = mods_wire(ms) + s3;
    let s1 = seq![ms.len() as u8] + s2;
    lemma_uint_pop(version as nat, 4, s1);
    lemma_u8_pop(ms.len() as u8, s2);
    lemma_mods_wire(ms, s3);
    lemma_u8_pop(gs.len() as u8, s4);
    lemma_signatures_wire(gs, description);
}


/// A rule that is no binary chunk: its name is not two bytes both below 0x20.
pub open spec fn is_standard_rule(r: RuleView) -> bool {
    !(r.name.len() == 2 && r.name[0] < 0x20 && r.name[1] < 0x20)
}

proof fn lemma_standard_rules(rs: Seq<RuleView>)
    requires
        forall|i: int| 0 <= i < rs.len() ==> is_standard_rule(#[trigger] rs[i]),
    ensures
        chunk_list(rs) == Seq::<(u8, Seq<u8>)>::empty(),
        standard_list(rs) == rs,
    decreases rs.len(),
{
    if rs.len() > 0 {
        let init = rs.drop_last();
        assert forall|i: int| 0 <= i < init.len() implies is_standard_rule(#[trigger] init[i]) by {
            assert(init[i] == rs[i]);
        }
        lemma_standard_rules(init);
        assert(is_standard_rule(rs[rs.len() - 1]));
        assert(init.push(rs.last()) =~= rs);
    } else {
        assert(rs =~= Seq::<RuleView>::empty());
    }
}

/// Rules without any binary chunk carry no Arma 3 data: they are refused.
pub proof fn lemma_from_rules_no_chunk(rs: Seq<RuleView>)
    requires
        forall|i: int| 0 <= i < rs.len() ==> is_standard_rule(#[trigger] rs[i]),
    ensures
        spec_from_rules(rs) == Err::<Arma3RulesView, ErrorView>(ErrorView::NoBinaryChunks),
{
    lemma_standard_rules(rs);
}

/// How the rules are split: after any number of standard rules, one rule
/// whose name is two bytes below 0x20 and whose value is the escaped stream
/// `s` gives the data that the stream `s` decodes to, with the standard rules
/// kept as they are, in order.
pub proof fn lemma_from_rules_one_chunk(std: Seq<RuleView>, a: u8, b: u8, s: Seq<u8>)
    requires
        a < 0x20,
        b < 0x20,
        forall|i: int| 0 <= i < std.len() ==> is_standard_rule(#[trigger] std[i]),
    ensures
        spec_from_rules(std.push(RuleView { name: seq![a, b], value: spec_escape(s) })) == (match spec_stream(s) {
            Err(e) => Err(e),
            Ok((version, mods, signatures, description)) => Ok(
                Arma3RulesView { version, mods, signatures, description, rules: std },
            ),
        }),
{
    let c = RuleView { name: seq![a, b], value: spec_escape(s) };
    let rs = std.push(c);
    lemma_standard_rules(std);
    assert(rs.drop_last() =~= std);
    let chunks = seq![(a, spec_escape(s))];
    assert(chunk_list(rs) =~= chunks);
    assert(standard_list(rs) =~= std);
    lemma_join_sorted(chunks);
    assert(payloads(chunks) =~= seq![spec_escape(s)]);
    payloads(chunks).lemma_flatten_one_element();
    lemma_unescape_escape(s);
}

} // verus!
