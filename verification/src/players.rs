//! The `A2S_PLAYER` response: the players on a server.
use crate::errors::{Error, ErrorView};
use crate::wire::{
    cstring_bytes, i32_bits, i32_from_bits, le_bytes, lemma_cstring_pop, lemma_pow256_values,
    lemma_u8_pop, lemma_uint_pop, no_nul, read_cstring, read_i32, read_u32, read_u8, spec_cstring,
    spec_i32, spec_u32, spec_u8,
};
use crate::{DeOptions, HEADER_PLAYER};
use vstd::prelude::*;

verus! {

/// The `A2S_PLAYER` request, without a challenge.
pub const PLAYER_REQUEST: [u8; 5] = [0xff, 0xff, 0xff, 0xff, 0x55];

/// The extra player fields that a server running The Ship sends.
#[derive(Debug, Clone, Copy)]
#[non_exhaustive]
pub struct TheShipPlayer {
    pub deaths: u32,
    pub money: u32,
}

/// One player. The connection time is an IEEE-754 single-precision number,
/// kept here as its bit pattern (`f32::from_bits` gives the number).
#[derive(Debug, Clone)]
#[non_exhaustive]
pub struct Player {
    /// Index of player chunk starting from 0.
    pub index: u8,
    /// Name of the player, as sent.
    pub name: Vec<u8>,
    /// Player's score (usually "frags" or "kills").
    pub score: i32,
    /// Bit pattern of the time (in seconds) the player has been connected.
    pub duration_bits: u32,
    /// The Ship additional player info.
    pub the_ship: Option<TheShipPlayer>,
}

pub struct PlayerView {
    pub index: u8,
    pub name: Seq<u8>,
    pub score: i32,
    pub duration_bits: u32,
    pub the_ship: Option<TheShipPlayer>,
}

impl View for Player {
    type V = PlayerView;

    open spec fn view(&self) -> PlayerView {
        PlayerView {
            index: self.index,
            name: self.name@,
            score: self.score,
            duration_bits: self.duration_bits,
            the_ship: self.the_ship,
        }
    }
}

/// The views of a list of players.
pub open spec fn players_view(ps: Seq<Player>) -> Seq<PlayerView> {
    ps.map_values(|p: Player| p@)
}

/// The Ship's player fields, read only when the options say so.
pub open spec fn spec_ship_player(s: Seq<u8>, the_ship: bool) -> Result<
    (Option<TheShipPlayer>, Seq<u8>),
    ErrorView,
> {
    if the_ship {
        match spec_u32(s) {
            Err(e) => Err(e),
            Ok((deaths, r)) => match spec_u32(r) {
                Err(e) => Err(e),
                Ok((money, r)) => Ok((Some(TheShipPlayer { deaths, money }), r)),
            },
        }
    } else {
        Ok((None, s))
    }
}

/// One player: index, name, score, duration and, for The Ship, deaths and money.
pub open spec fn spec_player(s: Seq<u8>, the_ship: bool) -> Result<(PlayerView, Seq<u8>), ErrorView> {
    match spec_u8(s) {
        Err(e) => Err(e),
        Ok((index, r)) => {
            let (name, r) = spec_cstring(r);
            match spec_i32(r) {
                Err(e) => Err(e),
                Ok((score, r)) => match spec_u32(r) {
                    Err(e) => Err(e),
                    Ok((duration_bits, r)) => match spec_ship_player(r, the_ship) {
                        Err(e) => Err(e),
                        Ok((ship, r)) => Ok(
                            (PlayerView { index, name, score, duration_bits, the_ship: ship }, r),
                        ),
                    },
                },
            }
        },
    }
}

/// `n` players, one after the other; the first player that cannot be read
/// gives the error.
pub open spec fn spec_player_items(s: Seq<u8>, n: nat, the_ship: bool) -> Result<
    Seq<PlayerView>,
    ErrorView,
>
    decreases n,
{
    if n == 0 {
        Ok(Seq::empty())
    } else {
        match spec_player(s, the_ship) {
            Err(e) => Err(e),
            Ok((p, r)) => match spec_player_items(r, (n - 1) as nat, the_ship) {
                Err(e) => Err(e),
                Ok(ps) => Ok(seq![p] + ps),
            },
        }
    }
}

/// The decoding of an `A2S_PLAYER` response that starts at its header byte:
/// header `0x44`, the number of players, then the players.
pub open spec fn spec_parse_players(s: Seq<u8>, the_ship: bool) -> Result<Seq<PlayerView>, ErrorView> {
    match spec_u8(s) {
        Err(e) => Err(e),
        Ok((h, r)) => if h != HEADER_PLAYER {
            Err(ErrorView::UnexpectedHeader { expected: HEADER_PLAYER, actual: h })
        } else {
            match spec_u8(r) {
                Err(e) => Err(e),
                Ok((count, r)) => spec_player_items(r, count as nat, the_ship),
            }
        },
    }
}

fn parse_player(data: &[u8], pos: usize, the_ship: bool) -> (r: Result<(Player, usize), Error>)
    requires
        pos <= data.len(),
    ensures
        match r {
            Ok((p, q)) => q <= data.len() && spec_player(data@.skip(pos as int), the_ship) == Ok::<
                (PlayerView, Seq<u8>),
                ErrorView,
            >((p@, data@.skip(q as int))),
            Err(e) => spec_player(data@.skip(pos as int), the_ship) == Err::<
                (PlayerView, Seq<u8>),
                ErrorView,
            >(e@),
        },
{
    let (index, p) = read_u8(data, pos)?;
    let (name, p) = read_cstring(data, p);
    let (score, p) = read_i32(data, p)?;
    let (duration_bits, p) = read_u32(data, p)?;
    let (ship, p) = if the_ship {
        let (deaths, p) = read_u32(data, p)?;
        let (money, p) = read_u32(data, p)?;
        (Some(TheShipPlayer { deaths, money }), p)
    } else {
        (None, p)
    };
    Ok((Player { index, name, score, duration_bits, the_ship: ship }, p))
}

/// Once a player cannot be read, the list cannot be read either.
proof fn lemma_items_err(s: Seq<u8>, n: nat, the_ship: bool, e: ErrorView)
    requires
        n > 0,
        spec_player(s, the_ship) == Err::<(PlayerView, Seq<u8>), ErrorView>(e),
    ensures
        spec_player_items(s, n, the_ship) == Err::<Seq<PlayerView>, ErrorView>(e),
{
}

impl Player {
    /// Decodes an `A2S_PLAYER` response that starts at its header byte
    /// (`0x44`); the options say whether The Ship's fields follow each player.
    pub fn from_reader(data: &[u8], options: &DeOptions) -> (r: Result<Vec<Player>, Error>)
        ensures
            match r {
                Ok(v) => spec_parse_players(data@, options.the_ship) == Ok::<
                    Seq<PlayerView>,
                    ErrorView,
                >(players_view(v@)),
                Err(e) => spec_parse_players(data@, options.the_ship) == Err::<
                    Seq<PlayerView>,
                    ErrorView,
                >(e@),
            },
    {
        proof {
            assert(data@.skip(0) =~= data@);
        }
        let the_ship = options.the_ship;
        let (h, p) = read_u8(data, 0)?;
        if h != HEADER_PLAYER {
            return Err(Error::UnexpectedHeader { expected: HEADER_PLAYER, actual: h });
        }
        let (count, p) = read_u8(data, p)?;
        let ghost r0 = data@.skip(p as int);
        let mut players: Vec<Player> = Vec::with_capacity(count as usize);
        let mut pos = p;
        let mut i: u8 = 0;
        while i < count
            invariant
                i <= count,
                pos <= data.len(),
                the_ship == options.the_ship,
                spec_parse_players(data@, the_ship) == spec_player_items(r0, count as nat, the_ship),
                spec_player_items(r0, count as nat, the_ship) == match spec_player_items(
                    data@.skip(pos as int),
                    (count - i) as nat,
                    the_ship,
                ) {
                    Ok(ps) => Ok::<Seq<PlayerView>, ErrorView>(players_view(players@) + ps),
                    Err(e) => Err(e),
                },
            decreases count - i,
        {
            let ghost before = players_view(players@);
            match parse_player(data, pos, the_ship) {
                Ok((pl, q)) => {
                    let ghost pv = pl@;
                    players.push(pl);
                    proof {
                        assert(players_view(players@) =~= before.push(pv));
                        let rest = spec_player_items(data@.skip(q as int), (count - i - 1) as nat, the_ship);
                        match rest {
                            Ok(ps) => {
                                assert(before + (seq![pv] + ps) =~= players_view(players@) + ps);
                            },
                            Err(_) => {},
                        }
                    }
                    pos = q;
                    i = i + 1;
                },
                Err(e) => {
                    proof {
                        lemma_items_err(data@.skip(pos as int), (count - i) as nat, the_ship, e@);
                    }
                    return Err(e);
                },
            }
        }
        proof {
            assert(players_view(players@) + Seq::<PlayerView>::empty() =~= players_view(players@));
        }
        Ok(players)
    }

    /// Decodes an `A2S_PLAYER` response held in a buffer, with the options for
    /// the given application id. Kept for older callers; `from_reader` is the
    /// one to use.
    pub fn from_cursor(data: Vec<u8>, app_id: u16) -> (r: Result<Vec<Player>, Error>)
        ensures
            match r {
                Ok(v) => spec_parse_players(data@, app_id == crate::THE_SHIP_APP_ID) == Ok::<
                    Seq<PlayerView>,
                    ErrorView,
                >(players_view(v@)),
                Err(e) => spec_parse_players(data@, app_id == crate::THE_SHIP_APP_ID) == Err::<
                    Seq<PlayerView>,
                    ErrorView,
                >(e@),
            },
    {
        Self::from_reader(data.as_slice(), &DeOptions::from_app_id(app_id))
    }
}


/// The bytes of one player on the wire: the index, the name as a
/// NUL-terminated string, the score (4 bytes, little-endian, two's
/// complement), the bits of the duration (4 bytes, little-endian) and, for
/// The Ship, deaths and money (4 bytes each).
pub open spec fn player_wire(p: PlayerView) -> Seq<u8> {
    seq![p.index] + (cstring_bytes(p.name) + (le_bytes(i32_bits(p.score as int), 4) + (le_bytes(
        p.duration_bits as nat,
        4,
    ) + match p.the_ship {
        Some(t) => le_bytes(t.deaths as nat, 4) + le_bytes(t.money as nat, 4),
        None => Seq::<u8>::empty(),
    })))
}

/// The bytes of a list of players on the wire, one after the other.
pub open spec fn players_wire(ps: Seq<PlayerView>) -> Seq<u8>
    decreases ps.len(),
{
    if ps.len() == 0 {
        Seq::empty()
    } else {
        player_wire(ps[0]) + players_wire(ps.skip(1))
    }
}

/// A player the wire carries faithfully: its name holds no NUL byte and it
/// has The Ship's fields exactly when the options say so.
pub open spec fn player_wf(p: PlayerView, the_ship: bool) -> bool {
    no_nul(p.name) && (p.the_ship is Some <==> the_ship)
}

/// Reading one player reads its wire bytes field by field: the name is the
/// whole NUL-terminated string after the index, and the score, duration and
/// The Ship's fields are the bytes after its NUL, whatever follows them.
pub proof fn lemma_player_wire(p: PlayerView, the_ship: bool, rest: Seq<u8>)
    requires
        player_wf(p, the_ship),
    ensures
        spec_player(player_wire(p) + rest, the_ship) == Ok::<(PlayerView, Seq<u8>), ErrorView>(
            (p, rest),
        ),
{
    lemma_pow256_values();
    let ship = match p.the_ship {
        Some(t) => le_bytes(t.deaths as nat, 4) + le_bytes(t.money as nat, 4),
        None => Seq::<u8>::empty(),
    };
    let s4 = ship + rest;
    let s3 = le_bytes(p.duration_bits as nat, 4) + s4;
    let bits = i32_bits(p.score as int);
    let s2 = le_bytes(bits, 4) + s3;
    let s1 = cstring_bytes(p.name) + s2;
    assert(player_wire(p) + rest =~= seq![p.index] + s1);
    lemma_u8_pop(p.index, s1);
    lemma_cstring_pop(p.name, s2);
    lemma_uint_pop(bits, 4, s3);
    assert(i32_from_bits(bits) == p.score);
    lemma_uint_pop(p.duration_bits as nat, 4, s4);
    match p.the_ship {
        Some(t) => {
            let m = le_bytes(t.money as nat, 4) + rest;
            assert(s4 =~= le_bytes(t.deaths as nat, 4) + m);
            lemma_uint_pop(t.deaths as nat, 4, m);
            lemma_uint_pop(t.money as nat, 4, rest);
        },
        None => {
            assert(s4 =~= rest);
        },
    }
}

proof fn lemma_player_items_wire(ps: Seq<PlayerView>, the_ship: bool, rest: Seq<u8>)
    requires
        forall|i: int| 0 <= i < ps.len() ==> player_wf(#[trigger] ps[i], the_ship),
    ensures
        spec_player_items(players_wire(ps) + rest, ps.len(), the_ship) == Ok::<
            Seq<PlayerView>,
            ErrorView,
        >(ps),
    decreases ps.len(),
{
    if ps.len() == 0 {
        assert(players_wire(ps) + rest =~= rest);
        assert(ps =~= Seq::<PlayerView>::empty());
    } else {
        let tail = ps.skip(1);
        assert forall|i: int| 0 <= i < tail.len() implies player_wf(#[trigger] tail[i], the_ship) by {
            assert(tail[i] == ps[i + 1]);
        }
        lemma_player_items_wire(tail, the_ship, rest);
        let r = players_wire(tail) + rest;
        assert(players_wire(ps) + rest =~= player_wire(ps[0]) + r);
        assert(player_wf(ps[0], the_ship));
        lemma_player_wire(ps[0], the_ship, r);
        assert((ps.len() - 1) as nat == tail.len());
        assert(seq![ps[0]] + tail =~= ps);
    }
}

/// Decoding a player response gives back the players its wire bytes carry,
/// in order: for every list of fewer than 256 players whose names hold no NUL
/// byte and which have The Ship's fields exactly when the options say so, the
/// header `0x44`, the number of players and their wire bytes decode to that
/// list, whatever follows.
pub proof fn lemma_players_wire(ps: Seq<PlayerView>, the_ship: bool, rest: Seq<u8>)
    requires
        ps.len() < 256,
        forall|i: int| 0 <= i < ps.len() ==> player_wf(#[trigger] ps[i], the_ship),
    ensures
        spec_parse_players(seq![0x44u8, ps.len() as u8] + players_wire(ps) + rest, the_ship)
            == Ok::<Seq<PlayerView>, ErrorView>(ps),
{
    let body = players_wire(ps) + rest;
    assert(seq![0x44u8, ps.len() as u8] + players_wire(ps) + rest =~= seq![0x44u8] + (seq![
        ps.len() as u8,
    ] + body));
    lemma_u8_pop(0x44u8, seq![ps.len() as u8] + body);
    lemma_u8_pop(ps.len() as u8, body);
    lemma_player_items_wire(ps, the_ship, rest);
}

} // verus!
