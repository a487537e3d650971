//! The `A2S_INFO` response: what a server says about itself.
use crate::errors::{Error, ErrorView};
use crate::wire::{
    agrees, agrees_msg, cstring_bytes, no_nul, lemma_cstring_pop, lemma_u8_pop, lemma_uint_pop,
    lemma_pow256_values, spec_uint, lemma_assoc, le_bytes, lemma_le_bytes_len, lemma_skip_skip, push_cstring,
    push_uint, read_cstring, read_u16, read_u64, read_u8, spec_cstring, spec_u16, spec_u64, spec_u8,
};
use crate::{HEADER_INFO, THE_SHIP_APP_ID};
use vstd::prelude::*;

verus! {

/// The `A2S_INFO` request, without a challenge.
pub const INFO_REQUEST: [u8; 25] = [
    0xFF, 0xFF, 0xFF, 0xFF, 0x54, 0x53, 0x6F, 0x75, 0x72, 0x63, 0x65, 0x20, 0x45, 0x6E, 0x67, 0x69,
    0x6E, 0x65, 0x20, 0x51, 0x75, 0x65, 0x72, 0x79, 0x00,
];

/// Extra-data flag: the game port follows.
pub const EDF_PORT: u8 = 0x80;

/// Extra-data flag: the server's SteamID follows.
pub const EDF_STEAM_ID: u8 = 0x10;

/// Extra-data flag: the keywords follow.
pub const EDF_KEYWORDS: u8 = 0x20;

/// Extra-data flag: the 64-bit game id follows.
pub const EDF_GAME_ID: u8 = 0x01;

/// Extra-data flag: the SourceTV port and name follow.
pub const EDF_SOURCE_TV: u8 = 0x40;

/// The game mode of a server running The Ship.
#[derive(Debug, Clone, Copy, PartialEq, Eq)]
pub enum TheShipMode {
    Hunt,
    Elimination,
    Duel,
    Deathmatch,
    VIPTeam,
    TeamElimination,
    Unknown,
}

/// The mode that a byte on the wire names; bytes past 5 name no mode.
pub open spec fn mode_of_byte(v: u8) -> TheShipMode {
    if v == 0 {
        TheShipMode::Hunt
    } else if v == 1 {
        TheShipMode::Elimination
    } else if v == 2 {
        TheShipMode::Duel
    } else if v == 3 {
        TheShipMode::Deathmatch
    } else if v == 4 {
        TheShipMode::VIPTeam
    } else if v == 5 {
        TheShipMode::TeamElimination
    } else {
        TheShipMode::Unknown
    }
}

/// The byte that stands for a mode on the wire.
pub open spec fn mode_byte(m: TheShipMode) -> u8 {
    match m {
        TheShipMode::Hunt => 0,
        TheShipMode::Elimination => 1,
        TheShipMode::Duel => 2,
        TheShipMode::Deathmatch => 3,
        TheShipMode::VIPTeam => 4,
        TheShipMode::TeamElimination => 5,
        TheShipMode::Unknown => 255,
    }
}

impl From<u8> for TheShipMode {
    fn from(v: u8) -> (r: Self) {
        if v == 0 {
            TheShipMode::Hunt
        } else if v == 1 {
            TheShipMode::Elimination
        } else if v == 2 {
            TheShipMode::Duel
        } else if v == 3 {
            TheShipMode::Deathmatch
        } else if v == 4 {
            TheShipMode::VIPTeam
        } else if v == 5 {
            TheShipMode::TeamElimination
        } else {
            TheShipMode::Unknown
        }
    }
}

impl vstd::std_specs::convert::FromSpecImpl<u8> for TheShipMode {
    open spec fn obeys_from_spec() -> bool {
        true
    }

    open spec fn from_spec(v: u8) -> Self {
        mode_of_byte(v)
    }
}

impl TheShipMode {
    /// The byte that stands for this mode on the wire.
    pub fn to_byte(&self) -> (r: u8)
        ensures
            r == mode_byte(*self),
    {
        match self {
            TheShipMode::Hunt => 0,
            TheShipMode::Elimination => 1,
            TheShipMode::Duel => 2,
            TheShipMode::Deathmatch => 3,
            TheShipMode::VIPTeam => 4,
            TheShipMode::TeamElimination => 5,
            TheShipMode::Unknown => 255,
        }
    }
}

/// The fields that only a server running The Ship sends.
#[derive(Debug, Clone, Copy)]
pub struct TheShip {
    /// Indicates the game mode
    pub mode: TheShipMode,
    /// The number of witnesses necessary to have a player arrested.
    pub witnesses: u8,
    /// Time (in seconds) before a player is arrested while being witnessed.
    pub duration: u8,
}

/// The kind of server.
#[derive(Debug, Clone, Copy, PartialEq, Eq)]
pub enum ServerType {
    Dedicated,
    NonDedicated,
    SourceTV,
}

/// The server type that a byte names, if any.
pub open spec fn server_type_of_byte(v: u8) -> Option<ServerType> {
    if v == 0x64 {
        Some(ServerType::Dedicated)
    } else if v == 0x69 {
        Some(ServerType::NonDedicated)
    } else if v == 0x70 {
        Some(ServerType::SourceTV)
    } else {
        None
    }
}

/// The byte (`d`, `i` or `p`) that stands for a server type.
pub open spec fn server_type_byte(t: ServerType) -> u8 {
    match t {
        ServerType::Dedicated => 0x64,
        ServerType::NonDedicated => 0x69,
        ServerType::SourceTV => 0x70,
    }
}

impl TryFrom<u8> for ServerType {
    type Error = Error;

    fn try_from(val: u8) -> (r: Result<Self, Error>) {
        if val == 0x64 {
            Ok(ServerType::Dedicated)
        } else if val == 0x69 {
            Ok(ServerType::NonDedicated)
        } else if val == 0x70 {
            Ok(ServerType::SourceTV)
        } else {
            Err(Error::Other("Invalid server type"))
        }
    }
}

impl vstd::std_specs::convert::TryFromSpecImpl<u8> for ServerType {
    open spec fn obeys_try_from_spec() -> bool {
        true
    }

    open spec fn try_from_spec(v: u8) -> Result<Self, Error> {
        match server_type_of_byte(v) {
            Some(t) => Ok(t),
            None => Err(Error::Other("Invalid server type")),
        }
    }
}

impl ServerType {
    /// The byte that stands for this server type on the wire.
    pub fn to_byte(&self) -> (r: u8)
        ensures
            r == server_type_byte(*self),
    {
        match self {
            ServerType::Dedicated => 0x64,
            ServerType::NonDedicated => 0x69,
            ServerType::SourceTV => 0x70,
        }
    }
}

/// The operating system of a server.
#[derive(Debug, Clone, Copy, PartialEq, Eq)]
pub enum ServerOS {
    Linux,
    Windows,
    Mac,
}

/// The operating system that a byte names, if any (`m` and `o` both mean Mac).
pub open spec fn server_os_of_byte(v: u8) -> Option<ServerOS> {
    if v == 0x6C {
        Some(ServerOS::Linux)
    } else if v == 0x77 {
        Some(ServerOS::Windows)
    } else if v == 0x6D || v == 0x6F {
        Some(ServerOS::Mac)
    } else {
        None
    }
}

/// The byte (`l`, `w` or `m`) that stands for an operating system.
pub open spec fn server_os_byte(t: ServerOS) -> u8 {
    match t {
        ServerOS::Linux => 0x6C,
        ServerOS::Windows => 0x77,
        ServerOS::Mac => 0x6D,
    }
}

impl TryFrom<u8> for ServerOS {
    type Error = Error;

    fn try_from(val: u8) -> (r: Result<Self, Error>) {
        if val == 0x6C {
            Ok(ServerOS::Linux)
        } else if val == 0x77 {
            Ok(ServerOS::Windows)
        } else if val == 0x6D || val == 0x6F {
            Ok(ServerOS::Mac)
        } else {
            Err(Error::Other("Invalid environment"))
        }
    }
}

impl vstd::std_specs::convert::TryFromSpecImpl<u8> for ServerOS {
    open spec fn obeys_try_from_spec() -> bool {
        true
    }

    open spec fn try_from_spec(v: u8) -> Result<Self, Error> {
        match server_os_of_byte(v) {
            Some(t) => Ok(t),
            None => Err(Error::Other("Invalid environment")),
        }
    }
}

impl ServerOS {
    /// The byte that stands for this operating system on the wire.
    pub fn to_byte(&self) -> (r: u8)
        ensures
            r == server_os_byte(*self),
    {
        match self {
            ServerOS::Linux => 0x6C,
            ServerOS::Windows => 0x77,
            ServerOS::Mac => 0x6D,
        }
    }
}

/// The fields announced by the extra-data flag.
#[derive(Debug, Clone)]
pub struct ExtendedServerInfo {
    /// The server's game port number; present if `edf & 0x80`.
    pub port: Option<u16>,
    /// Server's SteamID; present if `edf & 0x10`.
    pub steam_id: Option<u64>,
    /// Tags that describe the game; present if `edf & 0x20`.
    pub keywords: Option<Vec<u8>>,
    /// The server's 64-bit GameID; present if `edf & 0x01`.
    pub game_id: Option<u64>,
}

pub struct ExtendedServerInfoView {
    pub port: Option<u16>,
    pub steam_id: Option<u64>,
    pub keywords: Option<Seq<u8>>,
    pub game_id: Option<u64>,
}

pub open spec fn opt_bytes_view(o: Option<Vec<u8>>) -> Option<Seq<u8>> {
    match o {
        Some(v) => Some(v@),
        None => None,
    }
}

impl View for ExtendedServerInfo {
    type V = ExtendedServerInfoView;

    open spec fn view(&self) -> ExtendedServerInfoView {
        ExtendedServerInfoView {
            port: self.port,
            steam_id: self.steam_id,
            keywords: opt_bytes_view(self.keywords),
            game_id: self.game_id,
        }
    }
}

/// The SourceTV spectator server.
#[derive(Debug, Clone)]
pub struct SourceTVInfo {
    /// Spectator port number for SourceTV.
    pub port: u16,
    /// Name of the spectator server for SourceTV.
    pub name: Vec<u8>,
}

pub struct SourceTVInfoView {
    pub port: u16,
    pub name: Seq<u8>,
}

impl View for SourceTVInfo {
    type V = SourceTVInfoView;

    open spec fn view(&self) -> SourceTVInfoView {
        SourceTVInfoView { port: self.port, name: self.name@ }
    }
}

pub open spec fn opt_source_tv_view(o: Option<SourceTVInfo>) -> Option<SourceTVInfoView> {
    match o {
        Some(v) => Some(v@),
        None => None,
    }
}

/// What a server says about itself. Strings are raw bytes, as sent.
#[derive(Debug, Clone)]
pub struct Info {
    /// Protocol version used by the server.
    pub protocol: u8,
    /// Name of the server.
    pub name: Vec<u8>,
    /// Map the server has currently loaded.
    pub map: Vec<u8>,
    /// Name of the folder containing the game files.
    pub folder: Vec<u8>,
    /// Full name of the game.
    pub game: Vec<u8>,
    /// Steam Application ID of game.
    pub app_id: u16,
    /// Number of players on the server.
    pub players: u8,
    /// Maximum number of players the server reports it can hold.
    pub max_players: u8,
    /// Number of bots on the server.
    pub bots: u8,
    /// Indicates the type of server.
    pub server_type: ServerType,
    /// Indicates the operating system of the server.
    pub server_os: ServerOS,
    /// Indicates whether the server requires a password.
    pub visibility: bool,
    /// Specifies whether the server uses VAC.
    pub vac: bool,
    /// These fields only exist in a response if the server is running The Ship.
    pub the_ship: Option<TheShip>,
    /// Version of the game installed on the server.
    pub version: Vec<u8>,
    /// If present, this specifies which additional data fields will be included.
    pub edf: u8,
    pub extended_server_info: ExtendedServerInfo,
    /// Present if `edf & 0x40`.
    pub source_tv: Option<SourceTVInfo>,
}

pub struct InfoView {
    pub protocol: u8,
    pub name: Seq<u8>,
    pub map: Seq<u8>,
    pub folder: Seq<u8>,
    pub game: Seq<u8>,
    pub app_id: u16,
    pub players: u8,
    pub max_players: u8,
    pub bots: u8,
    pub server_type: ServerType,
    pub server_os: ServerOS,
    pub visibility: bool,
    pub vac: bool,
    pub the_ship: Option<TheShip>,
    pub version: Seq<u8>,
    pub edf: u8,
    pub extended_server_info: ExtendedServerInfoView,
    pub source_tv: Option<SourceTVInfoView>,
}

impl View for Info {
    type V = InfoView;

    open spec fn view(&self) -> InfoView {
        InfoView {
            protocol: self.protocol,
            name: self.name@,
            map: self.map@,
            folder: self.folder@,
            game: self.game@,
            app_id: self.app_id,
            players: self.players,
            max_players: self.max_players,
            bots: self.bots,
            server_type: self.server_type,
            server_os: self.server_os,
            visibility: self.visibility,
            vac: self.vac,
            the_ship: self.the_ship,
            version: self.version@,
            edf: self.edf,
            extended_server_info: self.extended_server_info@,
            source_tv: opt_source_tv_view(self.source_tv),
        }
    }
}


// ---------------------------------------------------------------------------
// Encoding
// ---------------------------------------------------------------------------

/// The byte of a boolean field.
pub open spec fn bool_byte(b: bool) -> u8 {
    if b {
        1
    } else {
        0
    }
}

pub open spec fn ship_bytes(o: Option<TheShip>) -> Seq<u8> {
    match o {
        Some(t) => seq![mode_byte(t.mode), t.witnesses, t.duration],
        None => Seq::empty(),
    }
}

/// The extra-data flag byte, written only when some flag is set.
pub open spec fn edf_bytes(edf: u8) -> Seq<u8> {
    if edf != 0 {
        seq![edf]
    } else {
        Seq::empty()
    }
}

pub open spec fn opt_u16_bytes(o: Option<u16>) -> Seq<u8> {
    match o {
        Some(v) => le_bytes(v as nat, 2),
        None => Seq::empty(),
    }
}

pub open spec fn opt_u64_bytes(o: Option<u64>) -> Seq<u8> {
    match o {
        Some(v) => le_bytes(v as nat, 8),
        None => Seq::empty(),
    }
}

pub open spec fn opt_cstring_bytes(o: Option<Seq<u8>>) -> Seq<u8> {
    match o {
        Some(v) => cstring_bytes(v),
        None => Seq::empty(),
    }
}

pub open spec fn extended_bytes(e: ExtendedServerInfoView) -> Seq<u8> {
    opt_u16_bytes(e.port) + opt_u64_bytes(e.steam_id) + opt_cstring_bytes(e.keywords)
        + opt_u64_bytes(e.game_id)
}

pub open spec fn source_tv_bytes(o: Option<SourceTVInfoView>) -> Seq<u8> {
    match o {
        Some(t) => le_bytes(t.port as nat, 2) + cstring_bytes(t.name),
        None => Seq::empty(),
    }
}

/// The fixed-size fields between the game name and the optional parts.
pub open spec fn info_counts_bytes(v: InfoView) -> Seq<u8> {
    le_bytes(v.app_id as nat, 2) + seq![
        v.players,
        v.max_players,
        v.bots,
        server_type_byte(v.server_type),
        server_os_byte(v.server_os),
        bool_byte(v.visibility),
        bool_byte(v.vac),
    ]
}

/// The leading fields of an info response: header byte, protocol, the four
/// names and the fixed-size fields.
pub open spec fn info_head_bytes(v: InfoView) -> Seq<u8> {
    seq![HEADER_INFO, v.protocol] + cstring_bytes(v.name) + cstring_bytes(v.map) + cstring_bytes(
        v.folder,
    ) + cstring_bytes(v.game) + info_counts_bytes(v)
}

/// The trailing fields: The Ship's fields, version and the optional fields.
pub open spec fn info_tail_bytes(v: InfoView) -> Seq<u8> {
    ship_bytes(v.the_ship) + cstring_bytes(v.version) + edf_bytes(v.edf) + extended_bytes(
        v.extended_server_info,
    ) + source_tv_bytes(v.source_tv)
}

/// The encoding of an info response from its header byte on.
pub open spec fn info_payload(v: InfoView) -> Seq<u8> {
    info_head_bytes(v) + info_tail_bytes(v)
}

/// The encoding of an info response as a single-packet datagram.
pub open spec fn info_bytes(v: InfoView) -> Seq<u8> {
    seq![0xFFu8, 0xFF, 0xFF, 0xFF] + info_payload(v)
}

/// The size that `size_hint` computes, term by term.
pub open spec fn info_size(v: InfoView) -> int {
    5 + 1 + v.name.len() + 1 + v.map.len() + 1 + v.folder.len() + 1 + v.game.len() + 1 + 2 + 1 + 1
        + 1 + 1 + 1 + 1 + 1 + v.version.len() + 1 + (if v.the_ship is Some {
        3int
    } else {
        0
    }) + (if v.edf != 0 {
        1int
    } else {
        0
    }) + (if v.extended_server_info.port is Some {
        2int
    } else {
        0
    }) + (if v.extended_server_info.steam_id is Some {
        8int
    } else {
        0
    }) + (match v.extended_server_info.keywords {
        Some(k) => k.len() + 1int,
        None => 0int,
    }) + (if v.extended_server_info.game_id is Some {
        8int
    } else {
        0
    }) + (match v.source_tv {
        Some(t) => 2 + t.name.len() + 1int,
        None => 0int,
    })
}

/// What a response must hold for its encoding to decode to it again: strings
/// without NUL bytes, The Ship's fields exactly for The Ship, and an optional
/// field present exactly when the extra-data flag announces it.
pub open spec fn info_wf(v: InfoView) -> bool {
    &&& no_nul(v.name)
    &&& no_nul(v.map)
    &&& no_nul(v.folder)
    &&& no_nul(v.game)
    &&& no_nul(v.version)
    &&& (v.the_ship is Some <==> v.app_id == THE_SHIP_APP_ID)
    &&& (v.extended_server_info.port is Some <==> edf_has(v.edf, EDF_PORT))
    &&& (v.extended_server_info.steam_id is Some <==> edf_has(v.edf, EDF_STEAM_ID))
    &&& (v.extended_server_info.keywords is Some <==> edf_has(v.edf, EDF_KEYWORDS))
    &&& (v.extended_server_info.game_id is Some <==> edf_has(v.edf, EDF_GAME_ID))
    &&& (v.source_tv is Some <==> edf_has(v.edf, EDF_SOURCE_TV))
    &&& (match v.extended_server_info.keywords {
        Some(k) => no_nul(k),
        None => true,
    })
    &&& (match v.source_tv {
        Some(t) => no_nul(t.name),
        None => true,
    })
}

/// The size hint is the length of the encoding.
pub proof fn lemma_info_size_is_len(v: InfoView)
    ensures
        info_size(v) == info_bytes(v).len(),
{
    lemma_le_bytes_len(v.app_id as nat, 2);
    if let Some(p) = v.extended_server_info.port {
        lemma_le_bytes_len(p as nat, 2);
    }
    if let Some(x) = v.extended_server_info.steam_id {
        lemma_le_bytes_len(x as nat, 8);
    }
    if let Some(x) = v.extended_server_info.game_id {
        lemma_le_bytes_len(x as nat, 8);
    }
    if let Some(t) = v.source_tv {
        lemma_le_bytes_len(t.port as nat, 2);
    }
}


fn write_ship(o: &Option<TheShip>, w: &mut Vec<u8>)
    ensures
        final(w)@ == old(w)@ + ship_bytes(*o),
{
    if let Some(the_ship) = o {
        w.push(the_ship.mode.to_byte());
        w.push(the_ship.witnesses);
        w.push(the_ship.duration);
        proof {
            assert(w@ =~= old(w)@ + ship_bytes(*o));
        }
    } else {
        proof {
            assert(w@ =~= old(w)@ + ship_bytes(*o));
        }
    }
}

fn write_source_tv(o: &Option<SourceTVInfo>, w: &mut Vec<u8>)
    ensures
        final(w)@ == old(w)@ + source_tv_bytes(opt_source_tv_view(*o)),
{
    if let Some(source_tv) = o {
        push_uint(w, source_tv.port as u64, 2);
        push_cstring(w, source_tv.name.as_slice());
        proof {
            assert(w@ =~= old(w)@ + source_tv_bytes(opt_source_tv_view(*o)));
        }
    } else {
        proof {
            assert(w@ =~= old(w)@ + source_tv_bytes(opt_source_tv_view(*o)));
        }
    }
}

impl ExtendedServerInfo {
    fn write(&self, w: &mut Vec<u8>)
        ensures
            final(w)@ == old(w)@ + extended_bytes(self@),
    {
        let ghost a = w@;
        if let Some(port) = &self.port {
            push_uint(w, *port as u64, 2);
        }
        proof {
            assert(w@ =~= a + opt_u16_bytes(self.port));
        }
        let ghost b = w@;
        if let Some(steam_id) = &self.steam_id {
            push_uint(w, *steam_id, 8);
        }
        proof {
            assert(w@ =~= b + opt_u64_bytes(self.steam_id));
        }
        let ghost c = w@;
        if let Some(keywords) = &self.keywords {
            push_cstring(w, keywords.as_slice());
        }
        proof {
            assert(w@ =~= c + opt_cstring_bytes(opt_bytes_view(self.keywords)));
        }
        let ghost d = w@;
        if let Some(game_id) = &self.game_id {
            push_uint(w, *game_id, 8);
        }
        proof {
            assert(w@ =~= d + opt_u64_bytes(self.game_id));
            assert(w@ =~= a + extended_bytes(self@));
        }
    }
}

impl Info {
    /// The number of bytes that `to_bytes` produces.
    pub fn size_hint(&self) -> (r: usize)
        requires
            info_size(self@) <= usize::MAX,
        ensures
            r == info_size(self@),
            r == info_bytes(self@).len(),
    {
        proof {
            lemma_info_size_is_len(self@);
        }
        let mut size = 5 + 1 + self.name.len() + 1 + self.map.len() + 1 + self.folder.len() + 1
            + self.game.len() + 1 + 2 + 1 + 1 + 1 + 1 + 1 + 1 + 1 + self.version.len() + 1;
        if self.the_ship.is_some() {
            size += 3;
        }
        if self.edf != 0 {
            size += 1;
        }
        if self.extended_server_info.port.is_some() {
            size += 2;
        }
        if self.extended_server_info.steam_id.is_some() {
            size += 8;
        }
        if let Some(keywords) = &self.extended_server_info.keywords {
            size += keywords.len() + 1;
        }
        if self.extended_server_info.game_id.is_some() {
            size += 8;
        }
        if let Some(source_tv) = &self.source_tv {
            size += 2 + source_tv.name.len() + 1;
        }
        size
    }

    fn write_head(&self, w: &mut Vec<u8>)
        ensures
            final(w)@ == old(w)@ + info_head_bytes(self@),
    {
        let ghost start = w@;
        w.push(HEADER_INFO);
        w.push(self.protocol);
        let ghost a = w@;
        push_cstring(w, self.name.as_slice());
        push_cstring(w, self.map.as_slice());
        push_cstring(w, self.folder.as_slice());
        push_cstring(w, self.game.as_slice());
        proof {
            assert(w@ =~= a + cstring_bytes(self.name@) + cstring_bytes(self.map@) + cstring_bytes(
                self.folder@,
            ) + cstring_bytes(self.game@));
        }
        let ghost b = w@;
        push_uint(w, self.app_id as u64, 2);
        w.push(self.players);
        w.push(self.max_players);
        w.push(self.bots);
        w.push(self.server_type.to_byte());
        w.push(self.server_os.to_byte());
        w.push(if self.visibility { 1 } else { 0 });
        w.push(if self.vac { 1 } else { 0 });
        proof {
            assert(w@ =~= b + info_counts_bytes(self@));
            assert(w@ =~= start + info_head_bytes(self@));
        }
    }

    fn write_tail(&self, w: &mut Vec<u8>)
        ensures
            final(w)@ == old(w)@ + info_tail_bytes(self@),
    {
        let ghost c = w@;
        write_ship(&self.the_ship, w);
        push_cstring(w, self.version.as_slice());
        let ghost d = w@;
        if self.edf != 0 {
            w.push(self.edf);
        }
        proof {
            assert(w@ =~= d + edf_bytes(self.edf));
        }
        self.extended_server_info.write(w);
        write_source_tv(&self.source_tv, w);
        proof {
            assert(w@ =~= c + info_tail_bytes(self@));
        }
    }

    /// Appends the single-packet encoding of this response to `w`.
    pub fn write(&self, w: &mut Vec<u8>) -> (r: Result<(), Error>)
        ensures
            r is Ok,
            final(w)@ == old(w)@ + info_bytes(self@),
    {
        let ghost start = w@;
        w.push(0xFF);
        w.push(0xFF);
        w.push(0xFF);
        w.push(0xFF);
        let ghost a = w@;
        self.write_head(w);
        self.write_tail(w);
        proof {
            assert(a =~= start + seq![0xFFu8, 0xFF, 0xFF, 0xFF]);
            assert(w@ =~= start + info_bytes(self@));
        }
        Ok(())
    }

    /// The single-packet encoding of this response.
    pub fn to_bytes(&self) -> (r: Vec<u8>)
        requires
            info_size(self@) <= usize::MAX,
        ensures
            r@ == info_bytes(self@),
    {
        let mut bytes = Vec::with_capacity(self.size_hint());
        let _ = self.write(&mut bytes);
        proof {
            assert(bytes@ =~= info_bytes(self@));
        }
        bytes
    }
}


// ---------------------------------------------------------------------------
// Decoding
// ---------------------------------------------------------------------------

/// Whether the extra-data flag `edf` announces the field of `flag`.
pub open spec fn edf_has(edf: u8, flag: u8) -> bool {
    edf & flag != 0
}

/// A boolean byte: 0 or 1, anything else is refused with the field's name.
pub open spec fn spec_bool(s: Seq<u8>, field: Seq<char>) -> Result<(bool, Seq<u8>), ErrorView> {
    match spec_u8(s) {
        Err(e) => Err(e),
        Ok((b, r)) => if b == 0 {
            Ok((false, r))
        } else if b == 1 {
            Ok((true, r))
        } else {
            Err(ErrorView::InvalidBool { field, value: b })
        },
    }
}

/// A flag byte: any non-zero byte is `true`.
pub open spec fn spec_flag(s: Seq<u8>) -> Result<(bool, Seq<u8>), ErrorView> {
    match spec_u8(s) {
        Err(e) => Err(e),
        Ok((b, r)) => Ok((b != 0, r)),
    }
}

/// The Ship's fields, read only when the application id is that of The Ship.
pub open spec fn spec_the_ship(s: Seq<u8>, app_id: u16) -> Result<(Option<TheShip>, Seq<u8>), ErrorView> {
    if app_id != THE_SHIP_APP_ID {
        Ok((None, s))
    } else {
        match spec_u8(s) {
            Err(e) => Err(e),
            Ok((m, r)) => match spec_u8(r) {
                Err(e) => Err(e),
                Ok((w, r)) => match spec_u8(r) {
                    Err(e) => Err(e),
                    Ok((d, r)) => Ok(
                        (Some(TheShip { mode: mode_of_byte(m), witnesses: w, duration: d }), r),
                    ),
                },
            },
        }
    }
}

/// The extra-data flag: a byte if one is left, else 0.
pub open spec fn spec_edf(s: Seq<u8>) -> (u8, Seq<u8>) {
    match spec_u8(s) {
        Ok((e, r)) => (e, r),
        Err(_) => (0, s),
    }
}

pub open spec fn spec_opt_u16(s: Seq<u8>, present: bool) -> Result<(Option<u16>, Seq<u8>), ErrorView> {
    if present {
        match spec_u16(s) {
            Ok((v, r)) => Ok((Some(v), r)),
            Err(e) => Err(e),
        }
    } else {
        Ok((None, s))
    }
}

pub open spec fn spec_opt_u64(s: Seq<u8>, present: bool) -> Result<(Option<u64>, Seq<u8>), ErrorView> {
    if present {
        match spec_u64(s) {
            Ok((v, r)) => Ok((Some(v), r)),
            Err(e) => Err(e),
        }
    } else {
        Ok((None, s))
    }
}

pub open spec fn spec_opt_cstring(s: Seq<u8>, present: bool) -> (Option<Seq<u8>>, Seq<u8>) {
    if present {
        let (v, r) = spec_cstring(s);
        (Some(v), r)
    } else {
        (None, s)
    }
}

/// The fields that `edf` announces, in wire order: port, SteamID, keywords, game id.
pub open spec fn spec_extended(s: Seq<u8>, edf: u8) -> Result<(ExtendedServerInfoView, Seq<u8>), ErrorView> {
    match spec_opt_u16(s, edf_has(edf, EDF_PORT)) {
        Err(e) => Err(e),
        Ok((port, r)) => match spec_opt_u64(r, edf_has(edf, EDF_STEAM_ID)) {
            Err(e) => Err(e),
            Ok((steam_id, r)) => {
                let (keywords, r) = spec_opt_cstring(r, edf_has(edf, EDF_KEYWORDS));
                match spec_opt_u64(r, edf_has(edf, EDF_GAME_ID)) {
                    Err(e) => Err(e),
                    Ok((game_id, r)) => Ok(
                        (ExtendedServerInfoView { port, steam_id, keywords, game_id }, r),
                    ),
                }
            },
        },
    }
}

/// The SourceTV port and name, if `edf` announces them.
pub open spec fn spec_source_tv(s: Seq<u8>, edf: u8) -> Result<(Option<SourceTVInfoView>, Seq<u8>), ErrorView> {
    if edf_has(edf, EDF_SOURCE_TV) {
        match spec_u16(s) {
            Err(e) => Err(e),
            Ok((port, r)) => {
                let (name, r) = spec_cstring(r);
                Ok((Some(SourceTVInfoView { port, name }), r))
            },
        }
    } else {
        Ok((None, s))
    }
}

/// The fixed-size fields after the application id: players, maximum
/// players, bots, server type, operating system, visibility (any non-zero
/// byte is `true`) and VAC (strictly 0 or 1).
pub open spec fn spec_info_counts(s: Seq<u8>) -> Result<
    ((u8, u8, u8, ServerType, ServerOS, bool, bool), Seq<u8>),
    ErrorView,
> {
    match spec_u8(s) {
        Err(e) => Err(e),
        Ok((players, r)) => match spec_u8(r) {
            Err(e) => Err(e),
            Ok((max_players, r)) => match spec_u8(r) {
                Err(e) => Err(e),
                Ok((bots, r)) => match spec_u8(r) {
                    Err(e) => Err(e),
                    Ok((tb, r)) => match server_type_of_byte(tb) {
                        None => Err(ErrorView::Other("Invalid server type"@)),
                        Some(server_type) => match spec_u8(r) {
                            Err(e) => Err(e),
                            Ok((ob, r)) => match server_os_of_byte(ob) {
                                None => Err(ErrorView::Other("Invalid environment"@)),
                                Some(server_os) => match spec_flag(r) {
                                    Err(e) => Err(e),
                                    Ok((visibility, r)) => match spec_bool(r, "vac"@) {
                                        Err(e) => Err(e),
                                        Ok((vac, r)) => Ok(
                                            (
                                                (
                                                    players,
                                                    max_players,
                                                    bots,
                                                    server_type,
                                                    server_os,
                                                    visibility,
                                                    vac,
                                                ),
                                                r,
                                            ),
                                        ),
                                    },
                                },
                            },
                        },
                    },
                },
            },
        },
    }
}

/// The fields after VAC: The Ship's fields, version, extra-data flag, the
/// fields it announces and SourceTV.
pub open spec fn spec_info_rest(s: Seq<u8>, app_id: u16) -> Result<
    (Option<TheShip>, Seq<u8>, u8, ExtendedServerInfoView, Option<SourceTVInfoView>),
    ErrorView,
> {
    match spec_the_ship(s, app_id) {
        Err(e) => Err(e),
        Ok((the_ship, r)) => {
            let (version, r) = spec_cstring(r);
            let (edf, r) = spec_edf(r);
            match spec_extended(r, edf) {
                Err(e) => Err(e),
                Ok((ext, r)) => match spec_source_tv(r, edf) {
                    Err(e) => Err(e),
                    Ok((stv, _)) => Ok((the_ship, version, edf, ext, stv)),
                },
            }
        },
    }
}

/// The decoding of an `A2S_INFO` response that starts at its header byte:
/// header `0x49`, protocol, name, map, folder, game, application id, the
/// fixed-size fields and the rest.
pub open spec fn spec_parse_info(s: Seq<u8>) -> Result<InfoView, ErrorView> {
    match spec_u8(s) {
        Err(e) => Err(e),
        Ok((h, r)) => if h != HEADER_INFO {
            Err(ErrorView::UnexpectedHeader { expected: HEADER_INFO, actual: h })
        } else {
            match spec_u8(r) {
                Err(e) => Err(e),
                Ok((protocol, r)) => {
                    let (name, r) = spec_cstring(r);
                    let (map, r) = spec_cstring(r);
                    let (folder, r) = spec_cstring(r);
                    let (game, r) = spec_cstring(r);
                    match spec_u16(r) {
                        Err(e) => Err(e),
                        Ok((app_id, r)) => match spec_info_counts(r) {
                            Err(e) => Err(e),
                            Ok((c, r)) => match spec_info_rest(r, app_id) {
                                Err(e) => Err(e),
                                Ok((the_ship, version, edf, extended_server_info, source_tv)) => Ok(
                                    InfoView {
                                        protocol,
                                        name,
                                        map,
                                        folder,
                                        game,
                                        app_id,
                                        players: c.0,
                                        max_players: c.1,
                                        bots: c.2,
                                        server_type: c.3,
                                        server_os: c.4,
                                        visibility: c.5,
                                        vac: c.6,
                                        the_ship,
                                        version,
                                        edf,
                                        extended_server_info,
                                        source_tv,
                                    },
                                ),
                            },
                        },
                    }
                },
            }
        },
    }
}

fn parse_bool(data: &[u8], pos: usize, field: &'static str) -> (r: Result<(bool, usize), Error>)
    requires
        pos <= data.len(),
    ensures
        agrees(r, data@, spec_bool(data@.skip(pos as int), field@)),
{
    let (b, p) = read_u8(data, pos)?;
    if b == 0 {
        Ok((false, p))
    } else if b == 1 {
        Ok((true, p))
    } else {
        Err(Error::InvalidBool { field, value: b })
    }
}

fn parse_the_ship(data: &[u8], pos: usize, app_id: u16) -> (r: Result<(Option<TheShip>, usize), Error>)
    requires
        pos <= data.len(),
    ensures
        agrees(r, data@, spec_the_ship(data@.skip(pos as int), app_id)),
{
    if app_id != THE_SHIP_APP_ID {
        return Ok((None, pos));
    }
    let (m, p) = read_u8(data, pos)?;
    proof {
        lemma_skip_skip(data@, pos as int, (p - pos) as int);
    }
    let (w, p2) = read_u8(data, p)?;
    let (d, p3) = read_u8(data, p2)?;
    Ok((Some(TheShip { mode: TheShipMode::from(m), witnesses: w, duration: d }), p3))
}

fn parse_opt_u16(data: &[u8], pos: usize, present: bool) -> (r: Result<(Option<u16>, usize), Error>)
    requires
        pos <= data.len(),
    ensures
        agrees(r, data@, spec_opt_u16(data@.skip(pos as int), present)),
{
    if present {
        let (v, p) = read_u16(data, pos)?;
        Ok((Some(v), p))
    } else {
        Ok((None, pos))
    }
}

fn parse_opt_u64(data: &[u8], pos: usize, present: bool) -> (r: Result<(Option<u64>, usize), Error>)
    requires
        pos <= data.len(),
    ensures
        agrees(r, data@, spec_opt_u64(data@.skip(pos as int), present)),
{
    if present {
        let (v, p) = read_u64(data, pos)?;
        Ok((Some(v), p))
    } else {
        Ok((None, pos))
    }
}

fn parse_opt_cstring(data: &[u8], pos: usize, present: bool) -> (r: (Option<Vec<u8>>, usize))
    requires
        pos <= data.len(),
    ensures
        r.1 <= data.len(),
        spec_opt_cstring(data@.skip(pos as int), present) == (opt_bytes_view(r.0), data@.skip(r.1 as int)),
{
    if present {
        let (v, p) = read_cstring(data, pos);
        (Some(v), p)
    } else {
        (None, pos)
    }
}

fn parse_extended(data: &[u8], pos: usize, edf: u8) -> (r: Result<(ExtendedServerInfo, usize), Error>)
    requires
        pos <= data.len(),
    ensures
        agrees(r, data@, spec_extended(data@.skip(pos as int), edf)),
{
    let (port, p) = parse_opt_u16(data, pos, edf & EDF_PORT != 0)?;
    let (steam_id, p) = parse_opt_u64(data, p, edf & EDF_STEAM_ID != 0)?;
    let (keywords, p) = parse_opt_cstring(data, p, edf & EDF_KEYWORDS != 0);
    let (game_id, p) = parse_opt_u64(data, p, edf & EDF_GAME_ID != 0)?;
    Ok((ExtendedServerInfo { port, steam_id, keywords, game_id }, p))
}

fn parse_source_tv(data: &[u8], pos: usize, edf: u8) -> (r: Result<(Option<SourceTVInfo>, usize), Error>)
    requires
        pos <= data.len(),
    ensures
        match r {
            Ok((v, q)) => q <= data.len() && spec_source_tv(data@.skip(pos as int), edf) == Ok::<
                (Option<SourceTVInfoView>, Seq<u8>),
                ErrorView,
            >((opt_source_tv_view(v), data@.skip(q as int))),
            Err(e) => spec_source_tv(data@.skip(pos as int), edf) == Err::<
                (Option<SourceTVInfoView>, Seq<u8>),
                ErrorView,
            >(e@),
        },
{
    if edf & EDF_SOURCE_TV != 0 {
        let (port, p) = read_u16(data, pos)?;
        let (name, p) = read_cstring(data, p);
        Ok((Some(SourceTVInfo { port, name }), p))
    } else {
        Ok((None, pos))
    }
}

fn parse_counts(data: &[u8], pos: usize) -> (r: Result<
    ((u8, u8, u8, ServerType, ServerOS, bool, bool), usize),
    Error,
>)
    requires
        pos <= data.len(),
    ensures
        match r {
            Ok((c, q)) => q <= data.len() && spec_info_counts(data@.skip(pos as int)) == Ok::<
                ((u8, u8, u8, ServerType, ServerOS, bool, bool), Seq<u8>),
                ErrorView,
            >((c, data@.skip(q as int))),
            Err(e) => spec_info_counts(data@.skip(pos as int)) == Err::<
                ((u8, u8, u8, ServerType, ServerOS, bool, bool), Seq<u8>),
                ErrorView,
            >(e@),
        },
{
    let (players, p) = read_u8(data, pos)?;
    let (max_players, p) = read_u8(data, p)?;
    let (bots, p) = read_u8(data, p)?;
    let (tb, p) = read_u8(data, p)?;
    let server_type = match ServerType::try_from(tb) {
        Ok(t) => t,
        Err(e) => return Err(e),
    };
    let (ob, p) = read_u8(data, p)?;
    let server_os = match ServerOS::try_from(ob) {
        Ok(t) => t,
        Err(e) => return Err(e),
    };
    let (vb, p) = read_u8(data, p)?;
    let visibility = vb != 0;
    let (vac, p) = parse_bool(data, p, "vac")?;
    Ok(((players, max_players, bots, server_type, server_os, visibility, vac), p))
}

fn parse_rest(data: &[u8], pos: usize, app_id: u16) -> (r: Result<
    (Option<TheShip>, Vec<u8>, u8, ExtendedServerInfo, Option<SourceTVInfo>),
    Error,
>)
    requires
        pos <= data.len(),
    ensures
        match r {
            Ok((the_ship, version, edf, ext, stv)) => spec_info_rest(data@.skip(pos as int), app_id)
                == Ok::<
                (Option<TheShip>, Seq<u8>, u8, ExtendedServerInfoView, Option<SourceTVInfoView>),
                ErrorView,
            >((the_ship, version@, edf, ext@, opt_source_tv_view(stv))),
            Err(e) => spec_info_rest(data@.skip(pos as int), app_id) == Err::<
                (Option<TheShip>, Seq<u8>, u8, ExtendedServerInfoView, Option<SourceTVInfoView>),
                ErrorView,
            >(e@),
        },
{
    let (the_ship, p) = parse_the_ship(data, pos, app_id)?;
    let (version, p) = read_cstring(data, p);
    let (edf, p) = match read_u8(data, p) {
        Ok((e, q)) => (e, q),
        Err(_) => (0u8, p),
    };
    let (extended_server_info, p) = parse_extended(data, p, edf)?;
    let (source_tv, _p) = parse_source_tv(data, p, edf)?;
    Ok((the_ship, version, edf, extended_server_info, source_tv))
}

impl Info {
    /// Decodes an `A2S_INFO` response that starts at its header byte (`0x49`).
    pub fn from_reader(data: &[u8]) -> (r: Result<Info, Error>)
        ensures
            agrees_msg(r, spec_parse_info(data@)),
    {
        proof {
            assert(data@.skip(0) =~= data@);
        }
        let (h, p) = read_u8(data, 0)?;
        if h != HEADER_INFO {
            return Err(Error::UnexpectedHeader { expected: HEADER_INFO, actual: h });
        }
        let (protocol, p) = read_u8(data, p)?;
        let (name, p) = read_cstring(data, p);
        let (map, p) = read_cstring(data, p);
        let (folder, p) = read_cstring(data, p);
        let (game, p) = read_cstring(data, p);
        let (app_id, p) = read_u16(data, p)?;
        let (c, p) = parse_counts(data, p)?;
        let (the_ship, version, edf, extended_server_info, source_tv) = parse_rest(data, p, app_id)?;
        Ok(Info {
            protocol,
            name,
            map,
            folder,
            game,
            app_id,
            players: c.0,
            max_players: c.1,
            bots: c.2,
            server_type: c.3,
            server_os: c.4,
            visibility: c.5,
            vac: c.6,
            the_ship,
            version,
            edf,
            extended_server_info,
            source_tv,
        })
    }

    /// Decodes an `A2S_INFO` response held in a buffer (the whole buffer is
    /// read). Kept for older callers; `from_reader` is the one to use.
    pub fn from_cursor(data: Vec<u8>) -> (r: Result<Info, Error>)
        ensures
            agrees_msg(r, spec_parse_info(data@)),
    {
        Self::from_reader(data.as_slice())
    }
}


// ---------------------------------------------------------------------------
// Decoding what was encoded
// ---------------------------------------------------------------------------

proof fn lemma_u16_pop(x: u16, rest: Seq<u8>)
    ensures
        spec_u16(le_bytes(x as nat, 2) + rest) == Ok::<(u16, Seq<u8>), ErrorView>((x, rest)),
{
    lemma_pow256_values();
    lemma_uint_pop(x as nat, 2, rest);
}

proof fn lemma_u64_pop(x: u64, rest: Seq<u8>)
    ensures
        spec_u64(le_bytes(x as nat, 8) + rest) == Ok::<(u64, Seq<u8>), ErrorView>((x, rest)),
{
    lemma_pow256_values();
    lemma_uint_pop(x as nat, 8, rest);
}

proof fn lemma_bool_pop(b: bool, field: Seq<char>, rest: Seq<u8>)
    ensures
        spec_bool(seq![bool_byte(b)] + rest, field) == Ok::<(bool, Seq<u8>), ErrorView>((b, rest)),
{
    lemma_u8_pop(bool_byte(b), rest);
}

proof fn lemma_ship_pop(o: Option<TheShip>, app_id: u16, rest: Seq<u8>)
    requires
        o is Some <==> app_id == THE_SHIP_APP_ID,
    ensures
        spec_the_ship(ship_bytes(o) + rest, app_id) == Ok::<(Option<TheShip>, Seq<u8>), ErrorView>(
            (o, rest),
        ),
{
    match o {
        Some(t) => {
            let r2 = seq![t.duration] + rest;
            let r1 = seq![t.witnesses] + r2;
            assert(ship_bytes(o) + rest =~= seq![mode_byte(t.mode)] + r1);
            lemma_u8_pop(mode_byte(t.mode), r1);
            lemma_u8_pop(t.witnesses, r2);
            lemma_u8_pop(t.duration, rest);
            assert(mode_of_byte(mode_byte(t.mode)) == t.mode);
        },
        None => {
            assert(ship_bytes(o) + rest =~= rest);
        },
    }
}

proof fn lemma_opt_u16_pop(o: Option<u16>, rest: Seq<u8>)
    ensures
        spec_opt_u16(opt_u16_bytes(o) + rest, o is Some) == Ok::<(Option<u16>, Seq<u8>), ErrorView>(
            (o, rest),
        ),
{
    match o {
        Some(x) => lemma_u16_pop(x, rest),
        None => assert(opt_u16_bytes(o) + rest =~= rest),
    }
}

proof fn lemma_opt_u64_pop(o: Option<u64>, rest: Seq<u8>)
    ensures
        spec_opt_u64(opt_u64_bytes(o) + rest, o is Some) == Ok::<(Option<u64>, Seq<u8>), ErrorView>(
            (o, rest),
        ),
{
    match o {
        Some(x) => lemma_u64_pop(x, rest),
        None => assert(opt_u64_bytes(o) + rest =~= rest),
    }
}

proof fn lemma_opt_cstring_pop(o: Option<Seq<u8>>, rest: Seq<u8>)
    requires
        match o {
            Some(k) => no_nul(k),
            None => true,
        },
    ensures
        spec_opt_cstring(opt_cstring_bytes(o) + rest, o is Some) == (o, rest),
{
    match o {
        Some(k) => lemma_cstring_pop(k, rest),
        None => assert(opt_cstring_bytes(o) + rest =~= rest),
    }
}

proof fn lemma_extended_pop(e: ExtendedServerInfoView, edf: u8, rest: Seq<u8>)
    requires
        e.port is Some <==> edf_has(edf, EDF_PORT),
        e.steam_id is Some <==> edf_has(edf, EDF_STEAM_ID),
        e.keywords is Some <==> edf_has(edf, EDF_KEYWORDS),
        e.game_id is Some <==> edf_has(edf, EDF_GAME_ID),
        match e.keywords {
            Some(k) => no_nul(k),
            None => true,
        },
    ensures
        spec_extended(extended_bytes(e) + rest, edf) == Ok::<
            (ExtendedServerInfoView, Seq<u8>),
            ErrorView,
        >((e, rest)),
{
    let r3 = opt_u64_bytes(e.game_id) + rest;
    let r2 = opt_cstring_bytes(e.keywords) + r3;
    let r1 = opt_u64_bytes(e.steam_id) + r2;
    let a = opt_u16_bytes(e.port);
    let b = opt_u64_bytes(e.steam_id);
    let c = opt_cstring_bytes(e.keywords);
    let d = opt_u64_bytes(e.game_id);
    lemma_assoc(a + b + c, d, rest);
    lemma_assoc(a + b, c, r3);
    lemma_assoc(a, b, r2);
    lemma_opt_u16_pop(e.port, r1);
    lemma_opt_u64_pop(e.steam_id, r2);
    lemma_opt_cstring_pop(e.keywords, r3);
    lemma_opt_u64_pop(e.game_id, rest);
}

proof fn lemma_source_tv_pop(o: Option<SourceTVInfoView>, edf: u8, rest: Seq<u8>)
    requires
        o is Some <==> edf_has(edf, EDF_SOURCE_TV),
        match o {
            Some(t) => no_nul(t.name),
            None => true,
        },
    ensures
        spec_source_tv(source_tv_bytes(o) + rest, edf) == Ok::<
            (Option<SourceTVInfoView>, Seq<u8>),
            ErrorView,
        >((o, rest)),
{
    match o {
        Some(t) => {
            let r1 = cstring_bytes(t.name) + rest;
            assert(source_tv_bytes(o) + rest =~= le_bytes(t.port as nat, 2) + r1);
            lemma_u16_pop(t.port, r1);
            lemma_cstring_pop(t.name, rest);
        },
        None => assert(source_tv_bytes(o) + rest =~= rest),
    }
}

proof fn lemma_no_flags(edf: u8)
    requires
        edf == 0,
    ensures
        !edf_has(edf, EDF_PORT),
        !edf_has(edf, EDF_STEAM_ID),
        !edf_has(edf, EDF_KEYWORDS),
        !edf_has(edf, EDF_GAME_ID),
        !edf_has(edf, EDF_SOURCE_TV),
{
    assert(edf == 0 ==> edf & 0x80 == 0 && edf & 0x10 == 0 && edf & 0x20 == 0 && edf & 0x01 == 0
        && edf & 0x40 == 0) by (bit_vector);
}

/// The fields after VAC decode to what was encoded.
proof fn lemma_info_rest_pop(v: InfoView)
    requires
        info_wf(v),
    ensures
        spec_info_rest(info_tail_bytes(v), v.app_id) == Ok::<
            (Option<TheShip>, Seq<u8>, u8, ExtendedServerInfoView, Option<SourceTVInfoView>),
            ErrorView,
        >((v.the_ship, v.version, v.edf, v.extended_server_info, v.source_tv)),
{
    let t5 = source_tv_bytes(v.source_tv);
    let t4 = extended_bytes(v.extended_server_info) + t5;
    let t3 = edf_bytes(v.edf) + t4;
    let t2 = cstring_bytes(v.version) + t3;
    let ss = ship_bytes(v.the_ship);
    let vv = cstring_bytes(v.version);
    let ee = edf_bytes(v.edf);
    let xx = extended_bytes(v.extended_server_info);
    lemma_assoc(ss + vv + ee, xx, t5);
    lemma_assoc(ss + vv, ee, t4);
    lemma_assoc(ss, vv, t3);
    assert(info_tail_bytes(v) == ss + t2);
    lemma_ship_pop(v.the_ship, v.app_id, t2);
    lemma_cstring_pop(v.version, t3);
    if v.edf != 0 {
        lemma_u8_pop(v.edf, t4);
    } else {
        lemma_no_flags(v.edf);
        assert(t4 =~= Seq::<u8>::empty());
        assert(t3 =~= Seq::<u8>::empty());
    }
    assert(t5 =~= t5 + Seq::<u8>::empty());
    lemma_extended_pop(v.extended_server_info, v.edf, t5);
    lemma_source_tv_pop(v.source_tv, v.edf, Seq::<u8>::empty());
}

/// The fixed-size fields after the application id decode to what was encoded.
proof fn lemma_info_counts_pop(v: InfoView, rest: Seq<u8>)
    ensures
        spec_info_counts(info_seven_bytes(v) + rest) == Ok::<((u8, u8, u8, ServerType, ServerOS, bool, bool), Seq<u8>), ErrorView>(
            (
                (
                    v.players,
                    v.max_players,
                    v.bots,
                    v.server_type,
                    v.server_os,
                    v.visibility,
                    v.vac,
                ),
                rest,
            ),
        ),
{
    let c7 = seq![bool_byte(v.vac)] + rest;
    let c6 = seq![bool_byte(v.visibility)] + c7;
    let c5 = seq![server_os_byte(v.server_os)] + c6;
    let c4 = seq![server_type_byte(v.server_type)] + c5;
    let c3 = seq![v.bots] + c4;
    let c2 = seq![v.max_players] + c3;
    let c1 = seq![v.players] + c2;
    assert(info_seven_bytes(v) + rest =~= c1);
    lemma_u8_pop(v.players, c2);
    lemma_u8_pop(v.max_players, c3);
    lemma_u8_pop(v.bots, c4);
    lemma_u8_pop(server_type_byte(v.server_type), c5);
    lemma_u8_pop(server_os_byte(v.server_os), c6);
    lemma_u8_pop(bool_byte(v.visibility), c7);
    lemma_bool_pop(v.vac, "vac"@, rest);
    assert(server_type_of_byte(server_type_byte(v.server_type)) == Some(v.server_type));
    assert(server_os_of_byte(server_os_byte(v.server_os)) == Some(v.server_os));
}

/// The seven fixed-size bytes after the application id.
pub open spec fn info_seven_bytes(v: InfoView) -> Seq<u8> {
    seq![
        v.players,
        v.max_players,
        v.bots,
        server_type_byte(v.server_type),
        server_os_byte(v.server_os),
        bool_byte(v.visibility),
        bool_byte(v.vac),
    ]
}

proof fn lemma_info_payload_shape(v: InfoView)
    ensures
        info_payload(v) == seq![HEADER_INFO] + (seq![v.protocol] + (cstring_bytes(v.name) + (
        cstring_bytes(v.map) + (cstring_bytes(v.folder) + (cstring_bytes(v.game) + (le_bytes(
            v.app_id as nat,
            2,
        ) + (info_seven_bytes(v) + info_tail_bytes(v)))))))),
{
    let t1 = info_tail_bytes(v);
    let seven = info_seven_bytes(v);
    let c1 = seven + t1;
    let le_app = le_bytes(v.app_id as nat, 2);
    assert(info_counts_bytes(v) == le_app + seven);
    lemma_assoc(le_app, seven, t1);
    let c0 = le_app + c1;
    let pp = seq![HEADER_INFO, v.protocol];
    let nn = cstring_bytes(v.name);
    let mm = cstring_bytes(v.map);
    let ff = cstring_bytes(v.folder);
    let gg = cstring_bytes(v.game);
    let g3 = gg + c0;
    let g2 = ff + g3;
    let g1 = mm + g2;
    let g0 = nn + g1;
    lemma_assoc(pp + nn + mm + ff + gg, info_counts_bytes(v), t1);
    lemma_assoc(pp + nn + mm + ff, gg, c0);
    lemma_assoc(pp + nn + mm, ff, g3);
    lemma_assoc(pp + nn, mm, g2);
    lemma_assoc(pp, nn, g1);
    assert(pp + g0 =~= seq![HEADER_INFO] + (seq![v.protocol] + g0));
}

/// Decoding runs through its steps when each step reads what it should.
proof fn lemma_parse_info_steps(
    v: InfoView,
    h: Seq<u8>,
    p: Seq<u8>,
    g0: Seq<u8>,
    g1: Seq<u8>,
    g2: Seq<u8>,
    g3: Seq<u8>,
    c0: Seq<u8>,
    c1: Seq<u8>,
    t1: Seq<u8>,
)
    requires
        spec_u8(h) == Ok::<(u8, Seq<u8>), ErrorView>((HEADER_INFO, p)),
        spec_u8(p) == Ok::<(u8, Seq<u8>), ErrorView>((v.protocol, g0)),
        spec_cstring(g0) == (v.name, g1),
        spec_cstring(g1) == (v.map, g2),
        spec_cstring(g2) == (v.folder, g3),
        spec_cstring(g3) == (v.game, c0),
        spec_u16(c0) == Ok::<(u16, Seq<u8>), ErrorView>((v.app_id, c1)),
        spec_info_counts(c1) == Ok::<
            ((u8, u8, u8, ServerType, ServerOS, bool, bool), Seq<u8>),
            ErrorView,
        >(
            (
                (
                    v.players,
                    v.max_players,
                    v.bots,
                    v.server_type,
                    v.server_os,
                    v.visibility,
                    v.vac,
                ),
                t1,
            ),
        ),
        spec_info_rest(t1, v.app_id) == Ok::<
            (Option<TheShip>, Seq<u8>, u8, ExtendedServerInfoView, Option<SourceTVInfoView>),
            ErrorView,
        >((v.the_ship, v.version, v.edf, v.extended_server_info, v.source_tv)),
    ensures
        spec_parse_info(h) == Ok::<InfoView, ErrorView>(v),
{
}

/// Decoding an encoded info response gives it back: for every response
/// whose strings hold no NUL byte, whose The Ship fields are present exactly
/// for The Ship, and whose optional fields are present exactly when the
/// extra-data flag announces them, decoding the bytes after the 4-byte
/// single-packet header of its encoding yields the same response.
pub proof fn lemma_info_roundtrip(v: InfoView)
    requires
        info_wf(v),
    ensures
        spec_parse_info(info_payload(v)) == Ok::<InfoView, ErrorView>(v),
        info_bytes(v).skip(4) == info_payload(v),
{
    assert(info_bytes(v).skip(4) =~= info_payload(v));
    let t1 = info_tail_bytes(v);
    lemma_info_rest_pop(v);
    lemma_info_counts_pop(v, t1);
    lemma_info_payload_shape(v);
    let c1 = info_seven_bytes(v) + t1;
    let c0 = le_bytes(v.app_id as nat, 2) + c1;
    let g3 = cstring_bytes(v.game) + c0;
    let g2 = cstring_bytes(v.folder) + g3;
    let g1 = cstring_bytes(v.map) + g2;
    let g0 = cstring_bytes(v.name) + g1;
    let p = seq![v.protocol] + g0;
    let h = seq![HEADER_INFO] + p;
    lemma_u8_pop(HEADER_INFO, p);
    lemma_u8_pop(v.protocol, g0);
    lemma_cstring_pop(v.name, g1);
    lemma_cstring_pop(v.map, g2);
    lemma_cstring_pop(v.folder, g3);
    lemma_cstring_pop(v.game, c0);
    lemma_u16_pop(v.app_id, c1);
    lemma_parse_info_steps(v, h, p, g0, g1, g2, g3, c0, c1, t1);
}



/// The wire layout of an info response, field by field: the 4-byte
/// single-packet header `FF FF FF FF`; the header byte `0x49`; the protocol;
/// name, map, folder and game as NUL-terminated strings; the application id
/// (2 bytes, little-endian); players, maximum players, bots; the server type
/// (`d`, `i`, `p`); the operating system (`l`, `w`, `m`); visibility and VAC
/// as 0 or 1; for The Ship its mode (0 to 5, 255 for an unknown one),
/// witnesses and duration; the version string; the extra-data flag when it is
/// not 0; then, each only when present, the port (2 bytes), the SteamID
/// (8 bytes), the keywords (a NUL-terminated string), the game id (8 bytes),
/// and the SourceTV port (2 bytes) followed by its name.
pub proof fn lemma_info_wire_layout(v: InfoView)
    ensures
        info_bytes(v) == seq![0xFFu8, 0xFF, 0xFF, 0xFF] + ((seq![0x49u8, v.protocol] + cstring_bytes(v.name) + cstring_bytes(v.map) + cstring_bytes(v.folder)
            + cstring_bytes(v.game) + (le_bytes(v.app_id as nat, 2) + seq![
                v.players,
                v.max_players,
                v.bots,
                match v.server_type {
                    ServerType::Dedicated => 0x64u8,
                    ServerType::NonDedicated => 0x69u8,
                    ServerType::SourceTV => 0x70u8,
                },
                match v.server_os {
                    ServerOS::Linux => 0x6Cu8,
                    ServerOS::Windows => 0x77u8,
                    ServerOS::Mac => 0x6Du8,
                },
                if v.visibility {
                    1u8
                } else {
                    0u8
                },
                if v.vac {
                    1u8
                } else {
                    0u8
                },
            ])) + ((match v.the_ship {
            Some(t) => seq![
                match t.mode {
                    TheShipMode::Hunt => 0u8,
                    TheShipMode::Elimination => 1u8,
                    TheShipMode::Duel => 2u8,
                    TheShipMode::Deathmatch => 3u8,
                    TheShipMode::VIPTeam => 4u8,
                    TheShipMode::TeamElimination => 5u8,
                    TheShipMode::Unknown => 255u8,
                },
                t.witnesses,
                t.duration,
            ],
            None => Seq::<u8>::empty(),
        }) + cstring_bytes(v.version) + (if v.edf != 0 {
            seq![v.edf]
        } else {
            Seq::<u8>::empty()
        }) + ((match v.extended_server_info.port {
            Some(p) => le_bytes(p as nat, 2),
            None => Seq::<u8>::empty(),
        }) + (match v.extended_server_info.steam_id {
            Some(x) => le_bytes(x as nat, 8),
            None => Seq::<u8>::empty(),
        }) + (match v.extended_server_info.keywords {
            Some(k) => cstring_bytes(k),
            None => Seq::<u8>::empty(),
        }) + (match v.extended_server_info.game_id {
            Some(g) => le_bytes(g as nat, 8),
            None => Seq::<u8>::empty(),
        })) + (match v.source_tv {
            Some(t) => le_bytes(t.port as nat, 2) + cstring_bytes(t.name),
            None => Seq::<u8>::empty(),
        }))),
{
    assert(info_counts_bytes(v) =~= le_bytes(v.app_id as nat, 2) + seq![
                v.players,
                v.max_players,
                v.bots,
                match v.server_type {
                    ServerType::Dedicated => 0x64u8,
                    ServerType::NonDedicated => 0x69u8,
                    ServerType::SourceTV => 0x70u8,
                },
                match v.server_os {
                    ServerOS::Linux => 0x6Cu8,
                    ServerOS::Windows => 0x77u8,
                    ServerOS::Mac => 0x6Du8,
                },
                if v.visibility {
                    1u8
                } else {
                    0u8
                },
                if v.vac {
                    1u8
                } else {
                    0u8
                },
            ]);
    assert(ship_bytes(v.the_ship) == (match v.the_ship {
            Some(t) => seq![
                match t.mode {
                    TheShipMode::Hunt => 0u8,
                    TheShipMode::Elimination => 1u8,
                    TheShipMode::Duel => 2u8,
                    TheShipMode::Deathmatch => 3u8,
                    TheShipMode::VIPTeam => 4u8,
                    TheShipMode::TeamElimination => 5u8,
                    TheShipMode::Unknown => 255u8,
                },
                t.witnesses,
                t.duration,
            ],
            None => Seq::<u8>::empty(),
        }));
    assert(edf_bytes(v.edf) == (if v.edf != 0 {
            seq![v.edf]
        } else {
            Seq::<u8>::empty()
        }));
    assert(extended_bytes(v.extended_server_info) == ((match v.extended_server_info.port {
            Some(p) => le_bytes(p as nat, 2),
            None => Seq::<u8>::empty(),
        }) + (match v.extended_server_info.steam_id {
            Some(x) => le_bytes(x as nat, 8),
            None => Seq::<u8>::empty(),
        }) + (match v.extended_server_info.keywords {
            Some(k) => cstring_bytes(k),
            None => Seq::<u8>::empty(),
        }) + (match v.extended_server_info.game_id {
            Some(g) => le_bytes(g as nat, 8),
            None => Seq::<u8>::empty(),
        })));
    assert(source_tv_bytes(v.source_tv) == (match v.source_tv {
            Some(t) => le_bytes(t.port as nat, 2) + cstring_bytes(t.name),
            None => Seq::<u8>::empty(),
        }));
}

/// Decoding reads the wire layout field by field: for every response whose
/// strings hold no NUL byte, whose The Ship fields are present exactly for
/// The Ship and whose optional fields are present exactly when the extra-data
/// flag announces them, decoding `bytes`, its wire layout, after the 4-byte
/// single-packet header gives back every field.
/// Decoding, after the 4-byte single-packet header, any bytes that are the
/// encoding of a well-formed response.
proof fn lemma_decode_encoding(l: Seq<u8>, v: InfoView)
    requires
        info_wf(v),
        l == info_bytes(v),
    ensures
        spec_parse_info(l.skip(4)) == Ok::<InfoView, ErrorView>(v),
{
    lemma_info_roundtrip(v);
}

#[verifier::spinoff_prover]
pub proof fn lemma_info_decodes_wire_layout(v: InfoView, bytes: Seq<u8>)
    requires
        info_wf(v),
        bytes == seq![0xFFu8, 0xFF, 0xFF, 0xFF] + ((seq![0x49u8, v.protocol] + cstring_bytes(v.name) + cstring_bytes(v.map) + cstring_bytes(v.folder)
            + cstring_bytes(v.game) + (le_bytes(v.app_id as nat, 2) + seq![
                v.players,
                v.max_players,
                v.bots,
                match v.server_type {
                    ServerType::Dedicated => 0x64u8,
                    ServerType::NonDedicated => 0x69u8,
                    ServerType::SourceTV => 0x70u8,
                },
                match v.server_os {
                    ServerOS::Linux => 0x6Cu8,
                    ServerOS::Windows => 0x77u8,
                    ServerOS::Mac => 0x6Du8,
                },
                if v.visibility {
                    1u8
                } else {
                    0u8
                },
                if v.vac {
                    1u8
                } else {
                    0u8
                },
            ])) + ((match v.the_ship {
            Some(t) => seq![
                match t.mode {
                    TheShipMode::Hunt => 0u8,
                    TheShipMode::Elimination => 1u8,
                    TheShipMode::Duel => 2u8,
                    TheShipMode::Deathmatch => 3u8,
                    TheShipMode::VIPTeam => 4u8,
                    TheShipMode::TeamElimination => 5u8,
                    TheShipMode::Unknown => 255u8,
                },
                t.witnesses,
                t.duration,
            ],
            None => Seq::<u8>::empty(),
        }) + cstring_bytes(v.version) + (if v.edf != 0 {
            seq![v.edf]
        } else {
            Seq::<u8>::empty()
        }) + ((match v.extended_server_info.port {
            Some(p) => le_bytes(p as nat, 2),
            None => Seq::<u8>::empty(),
        }) + (match v.extended_server_info.steam_id {
            Some(x) => le_bytes(x as nat, 8),
            None => Seq::<u8>::empty(),
        }) + (match v.extended_server_info.keywords {
            Some(k) => cstring_bytes(k),
            None => Seq::<u8>::empty(),
        }) + (match v.extended_server_info.game_id {
            Some(g) => le_bytes(g as nat, 8),
            None => Seq::<u8>::empty(),
        })) + (match v.source_tv {
            Some(t) => le_bytes(t.port as nat, 2) + cstring_bytes(t.name),
            None => Seq::<u8>::empty(),
        }))),
    ensures
        spec_parse_info(bytes.skip(4)) == Ok::<InfoView, ErrorView>(v),
{
    lemma_info_wire_layout(v);
    lemma_decode_encoding(info_bytes(v), v);
}


/// Reading the fixed-size fields of an info response, for every value of
/// their seven bytes: players, maximum players and bots as they are; the
/// server type `d`, `i` or `p` (any other byte is refused); the operating
/// system `l`, `w`, or `m` or `o` for Mac (any other byte is refused);
/// visibility `true` for any non-zero byte; VAC `true` for 1, `false` for 0,
/// any other byte refused as an invalid boolean of the field `vac`.
pub proof fn lemma_info_counts_wire(
    players: u8,
    max_players: u8,
    bots: u8,
    t: u8,
    o: u8,
    vis: u8,
    vac: u8,
    rest: Seq<u8>,
)
    ensures
        spec_info_counts(seq![players, max_players, bots, t, o, vis, vac] + rest) == (if t != 0x64
            && t != 0x69 && t != 0x70 {
            Err(ErrorView::Other("Invalid server type"@))
        } else if o != 0x6C && o != 0x77 && o != 0x6D && o != 0x6F {
            Err(ErrorView::Other("Invalid environment"@))
        } else if vac > 1 {
            Err(ErrorView::InvalidBool { field: "vac"@, value: vac })
        } else {
            Ok(
                (
                    (
                        players,
                        max_players,
                        bots,
                        if t == 0x64 {
                            ServerType::Dedicated
                        } else if t == 0x69 {
                            ServerType::NonDedicated
                        } else {
                            ServerType::SourceTV
                        },
                        if o == 0x6C {
                            ServerOS::Linux
                        } else if o == 0x77 {
                            ServerOS::Windows
                        } else {
                            ServerOS::Mac
                        },
                        vis != 0,
                        vac == 1,
                    ),
                    rest,
                ),
            )
        }),
{
    let s6 = seq![vac] + rest;
    let s5 = seq![vis] + s6;
    let s4 = seq![o] + s5;
    let s3 = seq![t] + s4;
    let s2 = seq![bots] + s3;
    let s1 = seq![max_players] + s2;
    assert(seq![players, max_players, bots, t, o, vis, vac] + rest =~= seq![players] + s1);
    lemma_u8_pop(players, s1);
    lemma_u8_pop(max_players, s2);
    lemma_u8_pop(bots, s3);
    lemma_u8_pop(t, s4);
    lemma_u8_pop(o, s5);
    lemma_u8_pop(vis, s6);
    lemma_u8_pop(vac, rest);
}


/// The Ship's fields are three bytes (mode, witnesses, duration) read only
/// for the application id 2400: the mode byte 0 to 5 names Hunt, Elimination,
/// Duel, Deathmatch, VIP Team and Team Elimination, and every other byte
/// names an unknown mode. For any other application id nothing is read.
pub proof fn lemma_the_ship_wire(app_id: u16, m: u8, w: u8, d: u8, rest: Seq<u8>)
    ensures
        app_id == 2400 ==> spec_the_ship(seq![m, w, d] + rest, app_id) == Ok::<
            (Option<TheShip>, Seq<u8>),
            ErrorView,
        >(
            (
                Some(
                    TheShip {
                        mode: if m == 0 {
                            TheShipMode::Hunt
                        } else if m == 1 {
                            TheShipMode::Elimination
                        } else if m == 2 {
                            TheShipMode::Duel
                        } else if m == 3 {
                            TheShipMode::Deathmatch
                        } else if m == 4 {
                            TheShipMode::VIPTeam
                        } else if m == 5 {
                            TheShipMode::TeamElimination
                        } else {
                            TheShipMode::Unknown
                        },
                        witnesses: w,
                        duration: d,
                    },
                ),
                rest,
            ),
        ),
        app_id != 2400 ==> spec_the_ship(rest, app_id) == Ok::<
            (Option<TheShip>, Seq<u8>),
            ErrorView,
        >((None, rest)),
{
    let s2 = seq![d] + rest;
    let s1 = seq![w] + s2;
    assert(seq![m, w, d] + rest =~= seq![m] + s1);
    lemma_u8_pop(m, s1);
    lemma_u8_pop(w, s2);
    lemma_u8_pop(d, rest);
}

} // verus!
