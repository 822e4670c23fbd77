//! The replay decoder: drives metadata decode, the chunk scans, and the
//! per-event-type decoding, accumulating the parsed records.
use vstd::prelude::*;
use crate::err::ParseError;
use crate::hex::{hex_lower, hex_byte_upper, hex_byte_string_upper};
use crate::reader::{
    Reader, keeps_data, le_u32_at, le_i32_at, le_u64_at, le_u16_at, spec_string_in_bounds,
    spec_string_payload, spec_string_end, spec_string_seq, spec_string_u32_seq,
};
use crate::text::trim_end_of;
use crate::text::trim_end_str;
use crate::crypto::aes256_ecb_decrypt;
use crate::version::{
    rich_player_layout, legacy_skip_len, elimination_layout, spec_branch_version, parse_branch,
};

verus! {

/// Session metadata, decoded once at the start of the buffer.
pub struct Meta {
    pub magic: u32,
    pub file_version: u32,
    pub length_in_ms: u32,
    pub network_version: u32,
    pub changelist: u32,
    pub name: String,
    pub is_live: bool,
    pub timestamp: Option<u32>,
    pub is_compressed: bool,
    pub is_encrypted: bool,
}

/// The mathematical value of a [`Meta`].
pub struct MetaView {
    pub magic: u32,
    pub file_version: u32,
    pub length_in_ms: u32,
    pub network_version: u32,
    pub changelist: u32,
    pub name: Seq<char>,
    pub is_live: bool,
    pub timestamp: Option<u32>,
    pub is_compressed: bool,
    pub is_encrypted: bool,
}

impl View for Meta {
    type V = MetaView;

    open spec fn view(&self) -> MetaView {
        MetaView {
            magic: self.magic,
            file_version: self.file_version,
            length_in_ms: self.length_in_ms,
            network_version: self.network_version,
            changelist: self.changelist,
            name: self.name@,
            is_live: self.is_live,
            timestamp: self.timestamp,
            is_compressed: self.is_compressed,
            is_encrypted: self.is_encrypted,
        }
    }
}

/// The game build identified by the header's branch label.
pub struct GameVersion {
    pub branch: String,
    pub patch: u16,
    pub changelist: u32,
    pub major: u32,
    pub minor: u32,
}

/// The mathematical value of a [`GameVersion`].
pub struct GameVersionView {
    pub branch: Seq<char>,
    pub patch: u16,
    pub changelist: u32,
    pub major: u32,
    pub minor: u32,
}

impl View for GameVersion {
    type V = GameVersionView;

    open spec fn view(&self) -> GameVersionView {
        GameVersionView {
            branch: self.branch@,
            patch: self.patch,
            changelist: self.changelist,
            major: self.major,
            minor: self.minor,
        }
    }
}

/// The versioned header carried by the first container chunk.
pub struct Header {
    pub magic: u32,
    pub network_version: u32,
    pub network_checksum: u32,
    pub engine_network_version: u32,
    pub game_network_protocol: u32,
    pub id: Option<String>,
    pub version: GameVersion,
    pub level_names_and_times: Vec<(String, u32)>,
    pub flags: u32,
    pub game_specific_data: Vec<String>,
}

/// The mathematical value of a [`Header`].
pub struct HeaderView {
    pub magic: u32,
    pub network_version: u32,
    pub network_checksum: u32,
    pub engine_network_version: u32,
    pub game_network_protocol: u32,
    pub id: Option<Seq<char>>,
    pub version: GameVersionView,
    pub level_names_and_times: Seq<(Seq<char>, u32)>,
    pub flags: u32,
    pub game_specific_data: Seq<Seq<char>>,
}

impl View for Header {
    type V = HeaderView;

    open spec fn view(&self) -> HeaderView {
        HeaderView {
            magic: self.magic,
            network_version: self.network_version,
            network_checksum: self.network_checksum,
            engine_network_version: self.engine_network_version,
            game_network_protocol: self.game_network_protocol,
            id: match self.id {
                Some(s) => Some(s@),
                None => None,
            },
            version: self.version@,
            level_names_and_times: self.level_names_and_times@.map_values(
                |p: (String, u32)| (p.0@, p.1),
            ),
            flags: self.flags,
            game_specific_data: self.game_specific_data@.map_values(|s: String| s@),
        }
    }
}

/// One participant of an elimination: an identifier for humans, a display
/// name for bots.
pub struct Player {
    pub id: String,
    pub name: String,
    pub is_bot: bool,
}

/// The mathematical value of a [`Player`].
pub struct PlayerView {
    pub id: Seq<char>,
    pub name: Seq<char>,
    pub is_bot: bool,
}

impl View for Player {
    type V = PlayerView;

    open spec fn view(&self) -> PlayerView {
        PlayerView { id: self.id@, name: self.name@, is_bot: self.is_bot }
    }
}

/// One elimination event, in chunk-encounter order.
pub struct Elimination {
    pub eliminated: Player,
    pub eliminator: Player,
    pub gun_type: String,
    pub is_knocked: bool,
    pub timestamp: u32,
}

/// The mathematical value of an [`Elimination`].
pub struct ElimView {
    pub eliminated: PlayerView,
    pub eliminator: PlayerView,
    pub gun_type: Seq<char>,
    pub is_knocked: bool,
    pub timestamp: u32,
}

impl View for Elimination {
    type V = ElimView;

    open spec fn view(&self) -> ElimView {
        ElimView {
            eliminated: self.eliminated@,
            eliminator: self.eliminator@,
            gun_type: self.gun_type@,
            is_knocked: self.is_knocked,
            timestamp: self.timestamp,
        }
    }
}

/// Aggregate team statistics; the latest decoded value wins.
pub struct TeamMatchStats {
    pub placement: u32,
    pub total_players: u32,
}

/// Aggregate match statistics; the latest decoded value wins. The
/// accuracy fraction is kept as the raw bits of its little-endian 32-bit
/// float encoding.
pub struct MatchStats {
    pub accuracy_bits: u32,
    pub assists: u32,
    pub eliminations: u32,
    pub weapon_damage: u32,
    pub other_damage: u32,
    pub revives: u32,
    pub damage_taken: u32,
    pub damage_to_structures: u32,
    pub materials_gathered: u32,
    pub materials_used: u32,
    pub total_traveled: u32,
}

/// The views of a run of eliminations.
pub open spec fn el_views(s: Seq<Elimination>) -> Seq<ElimView> {
    s.map_values(|e: Elimination| e@)
}

/// The team statistics record starting at `off`: four reserved bytes,
/// placement, total players.
pub open spec fn spec_team_stats(b: Seq<u8>, off: int) -> Option<TeamMatchStats> {
    if off + 12 <= b.len() {
        Some(
            TeamMatchStats { placement: le_u32_at(b, off + 4), total_players: le_u32_at(b, off + 8) },
        )
    } else {
        None
    }
}

/// The match statistics record starting at `off`: four reserved bytes,
/// the accuracy float's bits, then ten unsigned counters in fixed order.
pub open spec fn spec_match_stats(b: Seq<u8>, off: int) -> Option<MatchStats> {
    if off + 48 <= b.len() {
        Some(
            MatchStats {
                accuracy_bits: le_u32_at(b, off + 4),
                assists: le_u32_at(b, off + 8),
                eliminations: le_u32_at(b, off + 12),
                weapon_damage: le_u32_at(b, off + 16),
                other_damage: le_u32_at(b, off + 20),
                revives: le_u32_at(b, off + 24),
                damage_taken: le_u32_at(b, off + 28),
                damage_to_structures: le_u32_at(b, off + 32),
                materials_gathered: le_u32_at(b, off + 36),
                materials_used: le_u32_at(b, off + 40),
                total_traveled: le_u32_at(b, off + 44),
            },
        )
    } else {
        None
    }
}

/// The rich tag-based player record starting at `off`: tag three is a bot
/// named `Bot`; tag sixteen is a bot with an explicit name; any other tag
/// skips one reserved byte and reads a 16-byte hex identifier.
pub open spec fn spec_player(b: Seq<u8>, off: int) -> Option<(PlayerView, int)> {
    if off < 0 || off + 1 > b.len() {
        None
    } else {
        let tag = b[off];
        if tag == 3 {
            Some((PlayerView { id: Seq::empty(), name: "Bot"@, is_bot: true }, off + 1))
        } else if tag == 16 {
            if spec_string_in_bounds(b, off + 1) && spec_string_payload(b, off + 1) is Some {
                Some(
                    (
                        PlayerView {
                            id: Seq::empty(),
                            name: spec_string_payload(b, off + 1).unwrap(),
                            is_bot: true,
                        },
                        spec_string_end(b, off + 1),
                    ),
                )
            } else {
                None
            }
        } else {
            if off + 2 + 16 <= b.len() {
                Some(
                    (
                        PlayerView {
                            id: hex_lower(b.subrange(off + 2, off + 18)),
                            name: Seq::empty(),
                            is_bot: false,
                        },
                        off + 18,
                    ),
                )
            } else {
                None
            }
        }
    }
}

/// The trailing fields shared by both elimination layouts: one gun-type
/// byte, rendered as two uppercase hex digits, and one knocked flag.
pub open spec fn spec_elim_finish(
    b: Seq<u8>,
    off: int,
    eliminated: PlayerView,
    eliminator: PlayerView,
    t: u32,
) -> Option<ElimView> {
    if off + 5 <= b.len() {
        Some(
            ElimView {
                eliminated,
                eliminator,
                gun_type: hex_byte_upper(b[off]),
                is_knocked: le_i32_at(b, off + 1) == 1,
                timestamp: t,
            },
        )
    } else {
        None
    }
}

/// The elimination record starting at `off` in a decrypted event payload,
/// under the layout that the given engine network version and release
/// numbers select.
pub open spec fn spec_elimination(
    b: Seq<u8>,
    off: int,
    engine_network_version: u32,
    major: u32,
    minor: u32,
    t: u32,
) -> Option<ElimView> {
    if rich_player_layout(engine_network_version, major) {
        match spec_player(b, off + 85) {
            None => None,
            Some((p1, o1)) => match spec_player(b, o1) {
                None => None,
                Some((p2, o2)) => spec_elim_finish(b, o2, p1, p2, t),
            },
        }
    } else {
        let s = off + legacy_skip_len(major, minor);
        if spec_string_in_bounds(b, s) && spec_string_payload(b, s) is Some {
            let id1 = spec_string_payload(b, s).unwrap();
            let o1 = spec_string_end(b, s);
            if spec_string_in_bounds(b, o1) && spec_string_payload(b, o1) is Some {
                let id2 = spec_string_payload(b, o1).unwrap();
                let o2 = spec_string_end(b, o1);
                spec_elim_finish(
                    b,
                    o2,
                    PlayerView { id: id1, name: Seq::empty(), is_bot: false },
                    PlayerView { id: id2, name: Seq::empty(), is_bot: false },
                    t,
                )
            } else {
                None
            }
        } else {
            None
        }
    }
}

/// The tick count of the capture-timestamp epoch.
pub const EPOCH_TICKS: u64 = 621355968000000000;

/// The divisor turning epoch-relative ticks into the stored timestamp.
pub const TICK_DIVISOR: u64 = 100000;

/// The session metadata starting at `off`: five fixed words, the trimmed
/// display name, the live flag, then the fields that later file versions
/// added, with the symmetric key captured when the encryption flag is
/// set. Yields the metadata value, the offset just past it, and the
/// captured key.
pub open spec fn spec_meta(b: Seq<u8>, off: int) -> Option<(MetaView, int, Option<Seq<u8>>)> {
    if off + 20 > b.len() {
        None
    } else {
        let magic = le_u32_at(b, off);
        let file_version = le_u32_at(b, off + 4);
        let length_in_ms = le_u32_at(b, off + 8);
        let network_version = le_u32_at(b, off + 12);
        let changelist = le_u32_at(b, off + 16);
        let so = off + 20;
        if !(spec_string_in_bounds(b, so) && spec_string_payload(b, so) is Some) {
            None
        } else {
            let name = trim_end_of(spec_string_payload(b, so).unwrap());
            let o1 = spec_string_end(b, so);
            if o1 + 4 > b.len() {
                None
            } else {
                let is_live = le_i32_at(b, o1) == 1;
                let o2 = o1 + 4;
                if file_version >= 3 && o2 + 8 > b.len() {
                    None
                } else if file_version >= 3 && le_u64_at(b, o2) < EPOCH_TICKS {
                    None
                } else {
                    let timestamp = if file_version >= 3 {
                        Some((((le_u64_at(b, o2) - EPOCH_TICKS) / TICK_DIVISOR as int) as u32))
                    } else {
                        None
                    };
                    let o3 = if file_version >= 3 {
                        o2 + 8
                    } else {
                        o2
                    };
                    if file_version >= 2 && o3 + 4 > b.len() {
                        None
                    } else {
                        let is_compressed = file_version >= 2 && le_i32_at(b, o3) == 1;
                        let o4 = if file_version >= 2 {
                            o3 + 4
                        } else {
                            o3
                        };
                        if file_version < 6 {
                            Some(
                                (
                                    MetaView {
                                        magic,
                                        file_version,
                                        length_in_ms,
                                        network_version,
                                        changelist,
                                        name,
                                        is_live,
                                        timestamp,
                                        is_compressed,
                                        is_encrypted: false,
                                    },
                                    o4,
                                    None,
                                ),
                            )
                        } else if o4 + 4 > b.len() {
                            None
                        } else {
                            let is_encrypted = le_i32_at(b, o4) == 1;
                            let o5 = o4 + 4;
                            if !is_encrypted {
                                Some(
                                    (
                                        MetaView {
                                            magic,
                                            file_version,
                                            length_in_ms,
                                            network_version,
                                            changelist,
                                            name,
                                            is_live,
                                            timestamp,
                                            is_compressed,
                                            is_encrypted: false,
                                        },
                                        o5,
                                        None,
                                    ),
                                )
                            } else if o5 + 4 > b.len() || o5 + 4 + le_u32_at(b, o5) > b.len() {
                                None
                            } else {
                                let klen = le_u32_at(b, o5) as int;
                                Some(
                                    (
                                        MetaView {
                                            magic,
                                            file_version,
                                            length_in_ms,
                                            network_version,
                                            changelist,
                                            name,
                                            is_live,
                                            timestamp,
                                            is_compressed,
                                            is_encrypted: true,
                                        },
                                        o5 + 4 + klen,
                                        Some(b.subrange(o5 + 4, o5 + 4 + klen)),
                                    ),
                                )
                            }
                        }
                    }
                }
            }
        }
    }
}

/// The header starting at `off` (just past a header chunk's type and
/// size): five fixed words, the optional 16-byte identifier, four
/// reserved bytes, patch, changelist, the branch label with its release
/// numbers, the level list, flags, and the game-specific strings.
pub open spec fn spec_header(b: Seq<u8>, off: int) -> Option<(HeaderView, int)> {
    if off + 20 > b.len() {
        None
    } else {
        let magic = le_u32_at(b, off);
        let network_version = le_u32_at(b, off + 4);
        let network_checksum = le_u32_at(b, off + 8);
        let engine_network_version = le_u32_at(b, off + 12);
        let game_network_protocol = le_u32_at(b, off + 16);
        let o1 = off + 20;
        if network_version > 12 && o1 + 16 > b.len() {
            None
        } else {
            let id = if network_version > 12 {
                Some(hex_lower(b.subrange(o1, o1 + 16)))
            } else {
                None
            };
            let o2 = if network_version > 12 {
                o1 + 16
            } else {
                o1
            };
            let o3 = o2 + 4;
            if o3 + 6 > b.len() {
                None
            } else {
                let patch = le_u16_at(b, o3);
                let changelist = le_u32_at(b, o3 + 2);
                let o4 = o3 + 6;
                if !(spec_string_in_bounds(b, o4) && spec_string_payload(b, o4) is Some) {
                    None
                } else {
                    let branch = spec_string_payload(b, o4).unwrap();
                    let o5 = spec_string_end(b, o4);
                    if o5 + 4 > b.len() {
                        None
                    } else {
                        match spec_string_u32_seq(b, o5 + 4, le_u32_at(b, o5) as int) {
                            None => None,
                            Some((levels, o6)) => {
                                if o6 + 8 > b.len() {
                                    None
                                } else {
                                    let flags = le_u32_at(b, o6);
                                    match spec_string_seq(b, o6 + 8, le_u32_at(b, o6 + 4) as int) {
                                        None => None,
                                        Some((gsd, o7)) => {
                                            match spec_branch_version(branch) {
                                                None => None,
                                                Some((major, minor)) => Some(
                                                    (
                                                        HeaderView {
                                                            magic,
                                                            network_version,
                                                            network_checksum,
                                                            engine_network_version,
                                                            game_network_protocol,
                                                            id,
                                                            version: GameVersionView {
                                                                branch,
                                                                patch,
                                                                changelist,
                                                                major,
                                                                minor,
                                                            },
                                                            level_names_and_times: levels,
                                                            flags,
                                                            game_specific_data: gsd,
                                                        },
                                                        o7,
                                                    ),
                                                ),
                                            }
                                        },
                                    }
                                }
                            },
                        }
                    }
                }
            }
        }
    }
}

/// What one decoded event chunk does to the decoder's records.
pub enum EventOutcome {
    /// An elimination appended to the ordered list.
    Elim(ElimView),
    /// Match statistics replacing any previous value.
    Stats(MatchStats),
    /// Team statistics replacing any previous value.
    TeamStats(TeamMatchStats),
    /// A recognised or unknown event with no record kept.
    Nothing,
}

/// The view of a possibly captured key.
pub open spec fn key_view(k: Option<Vec<u8>>) -> Option<Seq<u8>> {
    match k {
        Some(v) => Some(v@),
        None => None,
    }
}

/// Whether the fields of the event chunk starting at `off` that precede
/// the decryption all parse: the three leading strings, the start time,
/// the reserved bytes, and a payload length the buffer can honour. Up to
/// here no key is involved; decryption is attempted right after.
pub open spec fn spec_event_prefix_ok(b: Seq<u8>, off: int) -> bool {
    &&& spec_string_in_bounds(b, off)
    &&& spec_string_payload(b, off) is Some
    &&& {
        let o1 = spec_string_end(b, off);
        &&& spec_string_in_bounds(b, o1)
        &&& spec_string_payload(b, o1) is Some
        &&& {
            let o2 = spec_string_end(b, o1);
            &&& spec_string_in_bounds(b, o2)
            &&& spec_string_payload(b, o2) is Some
            &&& {
                let o3 = spec_string_end(b, o2);
                &&& o3 + 12 <= b.len()
                &&& o3 + 12 + le_u32_at(b, o3 + 8) <= b.len()
            }
        }
    }
}

/// The event chunk starting at `off`: an unused identifier string, the
/// group name, the metadata tag, the start time, four reserved bytes, the
/// payload length and the payload, which is decrypted unconditionally
/// with the captured key and dispatched by group and tag.
pub open spec fn spec_event(
    b: Seq<u8>,
    off: int,
    key: Option<Seq<u8>>,
    engine_network_version: u32,
    major: u32,
    minor: u32,
) -> Option<EventOutcome> {
    if !(spec_string_in_bounds(b, off) && spec_string_payload(b, off) is Some) {
        None
    } else {
        let o1 = spec_string_end(b, off);
        if !(spec_string_in_bounds(b, o1) && spec_string_payload(b, o1) is Some) {
            None
        } else {
            let group = spec_string_payload(b, o1).unwrap();
            let o2 = spec_string_end(b, o1);
            if !(spec_string_in_bounds(b, o2) && spec_string_payload(b, o2) is Some) {
                None
            } else {
                let tag = spec_string_payload(b, o2).unwrap();
                let o3 = spec_string_end(b, o2);
                if o3 + 12 > b.len() {
                    None
                } else {
                    let start_time = le_u32_at(b, o3);
                    let len = le_u32_at(b, o3 + 8) as int;
                    let o4 = o3 + 12;
                    if o4 + len > b.len() {
                        None
                    } else if !(key is Some && key.unwrap().len() == 32 && len > 0 && len % 16
                        == 0) {
                        None
                    } else {
                        let plain = aes256_ecb_decrypt(key.unwrap(), b.subrange(o4, o4 + len));
                        if group == "playerElim"@ {
                            match spec_elimination(
                                plain,
                                0,
                                engine_network_version,
                                major,
                                minor,
                                start_time,
                            ) {
                                Some(e) => Some(EventOutcome::Elim(e)),
                                None => None,
                            }
                        } else if tag == "AthenaMatchStats"@ {
                            match spec_match_stats(plain, 0) {
                                Some(s) => Some(EventOutcome::Stats(s)),
                                None => None,
                            }
                        } else if tag == "AthenaMatchTeamStats"@ {
                            match spec_team_stats(plain, 0) {
                                Some(s) => Some(EventOutcome::TeamStats(s)),
                                None => None,
                            }
                        } else {
                            Some(EventOutcome::Nothing)
                        }
                    }
                }
            }
        }
    }
}

/// What decoding one event chunk with the given outcome does to the
/// decoder's records.
pub open spec fn event_effect(pre: Parser, post: Parser, o: EventOutcome) -> bool {
    match o {
        EventOutcome::Elim(e) => {
            &&& el_views(post.eliminations@) == el_views(pre.eliminations@).push(e)
            &&& post.match_stats == pre.match_stats
            &&& post.team_match_stats == pre.team_match_stats
        },
        EventOutcome::Stats(s) => {
            &&& post.match_stats == Some(s)
            &&& post.eliminations@ == pre.eliminations@
            &&& post.team_match_stats == pre.team_match_stats
        },
        EventOutcome::TeamStats(s) => {
            &&& post.team_match_stats == Some(s)
            &&& post.eliminations@ == pre.eliminations@
            &&& post.match_stats == pre.match_stats
        },
        EventOutcome::Nothing => {
            &&& post.eliminations@ == pre.eliminations@
            &&& post.match_stats == pre.match_stats
            &&& post.team_match_stats == pre.team_match_stats
        },
    }
}

/// The first scan pass: the header taken from the first chunk of type
/// zero, read without skipping over other chunk payloads, and the offset
/// of that chunk's declared end.
pub open spec fn spec_find_header(b: Seq<u8>, off: int) -> Option<(HeaderView, int)>
    decreases b.len() - off,
{
    if off + 8 > b.len() {
        None
    } else {
        let t = le_u32_at(b, off);
        let size = le_i32_at(b, off + 4);
        if t == 0 {
            match spec_header(b, off + 8) {
                None => None,
                Some((h, _end)) => if size >= 0 && off + 8 + size <= usize::MAX {
                    Some((h, off + 8 + size))
                } else {
                    None
                },
            }
        } else {
            spec_find_header(b, off + 8)
        }
    }
}

/// The second scan pass from `off` to the end of the buffer: every chunk
/// is stepped over to its declared end; event chunks are decoded and
/// their outcomes collected, eliminations in encounter order and the
/// statistics last-write-wins.
pub open spec fn spec_scan(
    b: Seq<u8>,
    off: int,
    key: Option<Seq<u8>>,
    engine_network_version: u32,
    major: u32,
    minor: u32,
) -> Option<(Seq<ElimView>, Option<MatchStats>, Option<TeamMatchStats>)>
    decreases b.len() - off,
{
    if off >= b.len() {
        Some((Seq::<ElimView>::empty(), None, None))
    } else if off + 8 > b.len() {
        None
    } else {
        let t = le_u32_at(b, off);
        let size = le_i32_at(b, off + 4);
        if size < 0 || off + 8 + size > usize::MAX {
            None
        } else {
            let next = off + 8 + size;
            let clamped = if next > b.len() {
                b.len() as int
            } else {
                next
            };
            let this = if t == 3 {
                spec_event(b, off + 8, key, engine_network_version, major, minor)
            } else {
                Some(EventOutcome::Nothing)
            };
            match this {
                None => None,
                Some(outc) => match spec_scan(b, clamped, key, engine_network_version, major, minor) {
                    None => None,
                    Some((elims, ms, ts)) => match outc {
                        EventOutcome::Elim(e) => Some((seq![e] + elims, ms, ts)),
                        EventOutcome::Stats(s) => Some(
                            (
                                elims,
                                if ms is Some {
                                    ms
                                } else {
                                    Some(s)
                                },
                                ts,
                            ),
                        ),
                        EventOutcome::TeamStats(s) => Some(
                            (
                                elims,
                                ms,
                                if ts is Some {
                                    ts
                                } else {
                                    Some(s)
                                },
                            ),
                        ),
                        EventOutcome::Nothing => Some((elims, ms, ts)),
                    },
                },
            }
        }
    }
}

/// The replay decoder: owns the byte cursor over the main buffer and
/// accumulates the parsed records.
pub struct Parser {
    pub reader: Reader,
    pub meta: Option<Meta>,
    pub header: Option<Header>,
    pub match_stats: Option<MatchStats>,
    pub team_match_stats: Option<TeamMatchStats>,
    pub eliminations: Vec<Elimination>,
}

/// True when a decoding step left the decoder's records other than the
/// given ones as they were.
pub open spec fn keeps_records(pre: Parser, post: Parser) -> bool {
    &&& post.meta == pre.meta
    &&& post.header == pre.header
    &&& post.match_stats == pre.match_stats
    &&& post.team_match_stats == pre.team_match_stats
    &&& post.eliminations@ == pre.eliminations@
}

impl Parser {
    /// A fresh decoder over the given replay bytes: nothing parsed yet.
    pub fn new(buffer: Vec<u8>) -> (r: Parser)
        ensures
            r.reader.buffer@ == buffer@,
            r.reader.offset == 0,
            r.reader.encryption_key is None,
            r.meta is None,
            r.header is None,
            r.match_stats is None,
            r.team_match_stats is None,
            r.eliminations@.len() == 0,
    {
        Parser {
            reader: Reader::new(buffer),
            meta: None,
            header: None,
            match_stats: None,
            team_match_stats: None,
            eliminations: Vec::new(),
        }
    }

    /// Decodes the session metadata at the cursor, in strict field order,
    /// and captures the symmetric key when the encryption flag is set.
    pub fn parse_meta(&mut self) -> (r: Result<(), ParseError>)
        ensures
            final(self).reader.buffer@ == old(self).reader.buffer@,
            final(self).header == old(self).header,
            final(self).match_stats == old(self).match_stats,
            final(self).team_match_stats == old(self).team_match_stats,
            final(self).eliminations@ == old(self).eliminations@,
            ({
                let m = spec_meta(old(self).reader.buffer@, old(self).reader.offset as int);
                &&& (r is Ok <==> m is Some)
                &&& (r is Ok ==> {
                    &&& final(self).meta matches Some(mt) && mt@ == m.unwrap().0
                    &&& final(self).reader.offset == m.unwrap().1
                    &&& (m.unwrap().2 is Some ==> key_view(final(self).reader.encryption_key)
                        == m.unwrap().2)
                    &&& (m.unwrap().2 is None ==> final(self).reader.encryption_key == old(
                        self,
                    ).reader.encryption_key)
                })
                &&& (r is Err ==> final(self).meta == old(self).meta
                    && final(self).reader.encryption_key == old(self).reader.encryption_key)
            }),
    {
        let magic = match self.reader.read_u32() {
            Ok(v) => v,
            Err(e) => { return Err(e) },
        };
        let file_version = match self.reader.read_u32() {
            Ok(v) => v,
            Err(e) => { return Err(e) },
        };
        let length_in_ms = match self.reader.read_u32() {
            Ok(v) => v,
            Err(e) => { return Err(e) },
        };
        let network_version = match self.reader.read_u32() {
            Ok(v) => v,
            Err(e) => { return Err(e) },
        };
        let changelist = match self.reader.read_u32() {
            Ok(v) => v,
            Err(e) => { return Err(e) },
        };
        let raw_name = match self.reader.read_string() {
            Ok(v) => v,
            Err(e) => { return Err(e) },
        };
        let name = trim_end_str(raw_name.as_str()).to_owned();
        let is_live = match self.reader.read_bool() {
            Ok(v) => v,
            Err(e) => { return Err(e) },
        };
        let mut timestamp: Option<u32> = None;
        if file_version >= 3 {
            let raw = match self.reader.read_u64() {
                Ok(v) => v,
                Err(e) => { return Err(e) },
            };
            if raw < EPOCH_TICKS {
                return Err(ParseError::Format { offset: self.reader.offset });
            }
            timestamp = Some(#[verifier::truncate] (((raw - EPOCH_TICKS) / TICK_DIVISOR) as u32));
        }
        let mut is_compressed = false;
        if file_version >= 2 {
            is_compressed = match self.reader.read_bool() {
                Ok(v) => v,
                Err(e) => { return Err(e) },
            };
        }
        let mut is_encrypted = false;
        if file_version >= 6 {
            is_encrypted = match self.reader.read_bool() {
                Ok(v) => v,
                Err(e) => { return Err(e) },
            };
            if is_encrypted {
                let key_length = match self.reader.read_u32() {
                    Ok(v) => v,
                    Err(e) => { return Err(e) },
                };
                let key = match self.reader.read_bytes(&(key_length as usize)) {
                    Ok(v) => v,
                    Err(e) => { return Err(e) },
                };
                self.reader.encryption_key = Some(key);
            }
        }
        self.meta = Some(
            Meta {
                magic,
                file_version,
                length_in_ms,
                network_version,
                changelist,
                name,
                is_live,
                timestamp,
                is_compressed,
                is_encrypted,
            },
        );
        Ok(())
    }

    /// Decodes the header record at the cursor, in strict field order,
    /// parsing the release numbers out of the branch label; a label
    /// lacking the pattern is a fatal format error.
    pub fn parse_header(&mut self) -> (r: Result<Header, ParseError>)
        ensures
            keeps_data(old(self).reader, final(self).reader),
            final(self).meta == old(self).meta,
            final(self).header == old(self).header,
            final(self).match_stats == old(self).match_stats,
            final(self).team_match_stats == old(self).team_match_stats,
            final(self).eliminations@ == old(self).eliminations@,
            ({
                let m = spec_header(old(self).reader.buffer@, old(self).reader.offset as int);
                &&& (r is Ok <==> m is Some)
                &&& (r is Ok ==> r.unwrap()@ == m.unwrap().0 && final(self).reader.offset
                    == m.unwrap().1)
            }),
    {
        let magic = match self.reader.read_u32() {
            Ok(v) => v,
            Err(e) => { return Err(e) },
        };
        let network_version = match self.reader.read_u32() {
            Ok(v) => v,
            Err(e) => { return Err(e) },
        };
        let network_checksum = match self.reader.read_u32() {
            Ok(v) => v,
            Err(e) => { return Err(e) },
        };
        let engine_network_version = match self.reader.read_u32() {
            Ok(v) => v,
            Err(e) => { return Err(e) },
        };
        let game_network_protocol = match self.reader.read_u32() {
            Ok(v) => v,
            Err(e) => { return Err(e) },
        };
        let mut id: Option<String> = None;
        if network_version > 12 {
            id = match self.reader.read_id() {
                Ok(v) => Some(v),
                Err(e) => { return Err(e) },
            };
        }
        match self.reader.read_u32() {
            Ok(_reserved) => {},
            Err(e) => { return Err(e) },
        }
        let patch = match self.reader.read_u16() {
            Ok(v) => v,
            Err(e) => { return Err(e) },
        };
        let changelist = match self.reader.read_u32() {
            Ok(v) => v,
            Err(e) => { return Err(e) },
        };
        let branch = match self.reader.read_string() {
            Ok(v) => v,
            Err(e) => { return Err(e) },
        };
        let level_names_and_times = match self.reader.read_string_u32_tuple_vec() {
            Ok(v) => v,
            Err(e) => { return Err(e) },
        };
        let flags = match self.reader.read_u32() {
            Ok(v) => v,
            Err(e) => { return Err(e) },
        };
        let game_specific_data = match self.reader.read_string_vec() {
            Ok(v) => v,
            Err(e) => { return Err(e) },
        };
        let (major, minor) = match parse_branch(branch.as_str()) {
            Ok(v) => v,
            Err(e) => { return Err(e) },
        };
        Ok(
            Header {
                magic,
                network_version,
                network_checksum,
                engine_network_version,
                game_network_protocol,
                id,
                version: GameVersion { branch, patch, changelist, major, minor },
                level_names_and_times,
                flags,
                game_specific_data,
            },
        )
    }

    /// Decodes one team statistics record from the given cursor.
    pub fn parse_team_match_stats(&mut self, data: &mut Reader) -> (r: Result<
        TeamMatchStats,
        ParseError,
    >)
        ensures
            *final(self) == *old(self),
            keeps_data(*old(data), *final(data)),
            r is Ok <==> spec_team_stats(old(data).buffer@, old(data).offset as int) is Some,
            r is Ok ==> r.unwrap() == spec_team_stats(
                old(data).buffer@,
                old(data).offset as int,
            ).unwrap(),
            r is Ok ==> final(data).offset == old(data).offset + 12,
    {
        let placement = match data.read_u32() {
            Ok(_reserved) => match data.read_u32() {
                Ok(v) => v,
                Err(e) => { return Err(e) },
            },
            Err(e) => { return Err(e) },
        };
        let total_players = match data.read_u32() {
            Ok(v) => v,
            Err(e) => { return Err(e) },
        };
        Ok(TeamMatchStats { placement, total_players })
    }

    /// Decodes one match statistics record from the given cursor.
    pub fn parse_match_stats(&mut self, data: &mut Reader) -> (r: Result<MatchStats, ParseError>)
        ensures
            *final(self) == *old(self),
            keeps_data(*old(data), *final(data)),
            r is Ok <==> spec_match_stats(old(data).buffer@, old(data).offset as int) is Some,
            r is Ok ==> r.unwrap() == spec_match_stats(
                old(data).buffer@,
                old(data).offset as int,
            ).unwrap(),
            r is Ok ==> final(data).offset == old(data).offset + 48,
    {
        match data.read_u32() {
            Ok(_reserved) => {},
            Err(e) => { return Err(e) },
        }
        let accuracy_bits = match data.read_f32_bits() {
            Ok(v) => v,
            Err(e) => { return Err(e) },
        };
        let assists = match data.read_u32() {
            Ok(v) => v,
            Err(e) => { return Err(e) },
        };
        let eliminations = match data.read_u32() {
            Ok(v) => v,
            Err(e) => { return Err(e) },
        };
        let weapon_damage = match data.read_u32() {
            Ok(v) => v,
            Err(e) => { return Err(e) },
        };
        let other_damage = match data.read_u32() {
            Ok(v) => v,
            Err(e) => { return Err(e) },
        };
        let revives = match data.read_u32() {
            Ok(v) => v,
            Err(e) => { return Err(e) },
        };
        let damage_taken = match data.read_u32() {
            Ok(v) => v,
            Err(e) => { return Err(e) },
        };
        let damage_to_structures = match data.read_u32() {
            Ok(v) => v,
            Err(e) => { return Err(e) },
        };
        let materials_gathered = match data.read_u32() {
            Ok(v) => v,
            Err(e) => { return Err(e) },
        };
        let materials_used = match data.read_u32() {
            Ok(v) => v,
            Err(e) => { return Err(e) },
        };
        let total_traveled = match data.read_u32() {
            Ok(v) => v,
            Err(e) => { return Err(e) },
        };
        Ok(
            MatchStats {
                accuracy_bits,
                assists,
                eliminations,
                weapon_damage,
                other_damage,
                revives,
                damage_taken,
                damage_to_structures,
                materials_gathered,
                materials_used,
                total_traveled,
            },
        )
    }

    /// Decodes one rich tag-based player record from the given cursor.
    pub fn parse_player(&mut self, data: &mut Reader) -> (r: Result<Player, ParseError>)
        ensures
            *final(self) == *old(self),
            keeps_data(*old(data), *final(data)),
            r is Ok <==> spec_player(old(data).buffer@, old(data).offset as int) is Some,
            r is Ok ==> r.unwrap()@ == spec_player(
                old(data).buffer@,
                old(data).offset as int,
            ).unwrap().0 && final(data).offset == spec_player(
                old(data).buffer@,
                old(data).offset as int,
            ).unwrap().1,
    {
        let player_type = match data.read_byte() {
            Ok(v) => v,
            Err(e) => { return Err(e) },
        };
        if player_type == 3 {
            Ok(Player { name: String::from_str("Bot"), id: String::new(), is_bot: true })
        } else if player_type == 16 {
            let name = match data.read_string() {
                Ok(v) => v,
                Err(e) => { return Err(e) },
            };
            Ok(Player { name, id: String::new(), is_bot: true })
        } else {
            match data.read_byte() {
                Ok(_reserved) => {},
                Err(e) => { return Err(e) },
            }
            let id = match data.read_id() {
                Ok(v) => v,
                Err(e) => { return Err(e) },
            };
            Ok(Player { name: String::new(), id, is_bot: false })
        }
    }

    /// Decodes one elimination record from a decrypted event payload,
    /// selecting the layout from the header's engine network version and
    /// release numbers, and appends it to the ordered elimination list
    /// with the event's start time as its timestamp. A decoder without a
    /// header cannot place the record and fails.
    pub fn parse_elimination(&mut self, data: &mut Reader, timestamp: u32) -> (r: Result<
        (),
        ParseError,
    >)
        ensures
            keeps_data(*old(data), *final(data)),
            final(self).reader == old(self).reader,
            final(self).meta == old(self).meta,
            final(self).header == old(self).header,
            final(self).match_stats == old(self).match_stats,
            final(self).team_match_stats == old(self).team_match_stats,
            old(self).header is None ==> (r is Err && final(self).eliminations@ == old(
                self,
            ).eliminations@),
            old(self).header matches Some(h) ==> {
                let m = spec_elimination(
                    old(data).buffer@,
                    old(data).offset as int,
                    h.engine_network_version,
                    h.version.major,
                    h.version.minor,
                    timestamp,
                );
                &&& (r is Ok <==> m is Some)
                &&& (r is Ok ==> el_views(final(self).eliminations@) == el_views(
                    old(self).eliminations@,
                ).push(m.unwrap()))
                &&& (r is Err ==> final(self).eliminations@ == old(self).eliminations@)
            },
    {
        let (engine_network_version, major, minor) = match &self.header {
            Some(h) => (h.engine_network_version, h.version.major, h.version.minor),
            None => { return Err(ParseError::Format { offset: 0 }) },
        };
        let layout = elimination_layout(engine_network_version, major, minor);
        let buffer_len = data.buffer.len();
        if data.offset > usize::MAX - layout.1 {
            proof {
                assert(buffer_len == old(data).buffer@.len());
            }
            return Err(ParseError::Bounds { offset: data.offset });
        }
        data.skip(&layout.1);
        let (eliminated, eliminator) = if layout.0 {
            let p1 = match self.parse_player(data) {
                Ok(v) => v,
                Err(e) => { return Err(e) },
            };
            let p2 = match self.parse_player(data) {
                Ok(v) => v,
                Err(e) => { return Err(e) },
            };
            (p1, p2)
        } else {
            let id1 = match data.read_string() {
                Ok(v) => v,
                Err(e) => { return Err(e) },
            };
            let id2 = match data.read_string() {
                Ok(v) => v,
                Err(e) => { return Err(e) },
            };
            (
                Player { name: String::new(), id: id1, is_bot: false },
                Player { name: String::new(), id: id2, is_bot: false },
            )
        };
        let gun_type = match data.read_byte() {
            Ok(v) => v,
            Err(e) => { return Err(e) },
        };
        let knocked = match data.read_bool() {
            Ok(v) => v,
            Err(e) => { return Err(e) },
        };
        self.eliminations.push(
            Elimination {
                eliminated,
                eliminator,
                gun_type: hex_byte_string_upper(gun_type),
                is_knocked: knocked,
                timestamp,
            },
        );
        proof {
            assert(el_views(self.eliminations@) =~= el_views(old(self).eliminations@).push(
                self.eliminations@.last()@,
            ));
        }
        Ok(())
    }

    /// Decodes one event chunk at the cursor: the leading strings, the
    /// start time, the payload, its unconditional decryption with the
    /// captured key, and the dispatch by group name and metadata tag.
    pub fn parse_event(&mut self) -> (r: Result<(), ParseError>)
        ensures
            keeps_data(old(self).reader, final(self).reader),
            final(self).meta == old(self).meta,
            final(self).header == old(self).header,
            old(self).header matches Some(h) ==> {
                let m = spec_event(
                    old(self).reader.buffer@,
                    old(self).reader.offset as int,
                    key_view(old(self).reader.encryption_key),
                    h@.engine_network_version,
                    h@.version.major,
                    h@.version.minor,
                );
                &&& (r is Ok <==> m is Some)
                &&& (r is Ok ==> event_effect(*old(self), *final(self), m.unwrap()))
            },
            (spec_event_prefix_ok(old(self).reader.buffer@, old(self).reader.offset as int)
                && old(self).reader.encryption_key is None) ==> r == Err::<(), ParseError>(
                ParseError::Encryption,
            ),
    {
        match self.reader.read_string() {
            Ok(_event_id) => {},
            Err(e) => { return Err(e) },
        }
        let group = match self.reader.read_string() {
            Ok(v) => v,
            Err(e) => { return Err(e) },
        };
        let metadata = match self.reader.read_string() {
            Ok(v) => v,
            Err(e) => { return Err(e) },
        };
        let start_time = match self.reader.read_u32() {
            Ok(v) => v,
            Err(e) => { return Err(e) },
        };
        match self.reader.read_u32() {
            Ok(_reserved) => {},
            Err(e) => { return Err(e) },
        }
        let length = match self.reader.read_u32() {
            Ok(v) => v,
            Err(e) => { return Err(e) },
        };
        let encrypted_buffer = match self.reader.read_bytes(&(length as usize)) {
            Ok(v) => v,
            Err(e) => { return Err(e) },
        };
        let mut buffer_reader = match self.reader.decrypt_buffer(encrypted_buffer) {
            Ok(v) => v,
            Err(e) => { return Err(e) },
        };
        if group == String::from_str("playerElim") {
            match self.parse_elimination(&mut buffer_reader, start_time) {
                Ok(()) => {},
                Err(e) => { return Err(e) },
            }
        } else if metadata == String::from_str("AthenaMatchStats") {
            let s = match self.parse_match_stats(&mut buffer_reader) {
                Ok(v) => v,
                Err(e) => { return Err(e) },
            };
            self.match_stats = Some(s);
        } else if metadata == String::from_str("AthenaMatchTeamStats") {
            let s = match self.parse_team_match_stats(&mut buffer_reader) {
                Ok(v) => v,
                Err(e) => { return Err(e) },
            };
            self.team_match_stats = Some(s);
        }
        Ok(())
    }

    /// Handles one chunk whose payload starts at the cursor and then
    /// repositions the cursor to the chunk's declared end, independent of
    /// how many payload bytes the handler consumed: this is what makes
    /// unknown or partially-consumed chunk types safely skippable. Event
    /// chunks are decoded; header, replay-data, checkpoint and unknown
    /// chunks are stepped over.
    pub fn handle_chunk(&mut self, chunk_type: u32, payload_start: usize, chunk_size: usize) -> (r:
        Result<(), ParseError>)
        requires
            old(self).reader.offset == payload_start,
            payload_start + chunk_size <= usize::MAX,
            old(self).header is Some,
        ensures
            keeps_data(old(self).reader, final(self).reader),
            final(self).meta == old(self).meta,
            final(self).header == old(self).header,
            r is Ok ==> final(self).reader.offset == payload_start + chunk_size,
            ({
                let m = if chunk_type == 3 {
                    spec_event(
                        old(self).reader.buffer@,
                        payload_start as int,
                        key_view(old(self).reader.encryption_key),
                        old(self).header.unwrap()@.engine_network_version,
                        old(self).header.unwrap()@.version.major,
                        old(self).header.unwrap()@.version.minor,
                    )
                } else {
                    Some(EventOutcome::Nothing)
                };
                &&& (r is Ok <==> m is Some)
                &&& (r is Ok ==> event_effect(*old(self), *final(self), m.unwrap()))
            }),
    {
        if chunk_type == 3 {
            match self.parse_event() {
                Ok(()) => {},
                Err(e) => { return Err(e) },
            }
        }
        self.reader.goto(&(payload_start + chunk_size));
        Ok(())
    }

    /// Walks the container chunks: a first pass that takes the header
    /// from the first chunk of type zero (failing when the buffer ends
    /// without one), then a second pass over the rest of the buffer that
    /// steps every chunk to its declared end and decodes event chunks.
    #[verifier::rlimit(60)]
    pub fn parse_chunks(&mut self) -> (r: Result<(), ParseError>)
        ensures
            final(self).meta == old(self).meta,
            keeps_data(old(self).reader, final(self).reader),
            r is Ok ==> final(self).reader.offset >= final(self).reader.buffer@.len(),
            old(self).header is None ==> {
                let b = old(self).reader.buffer@;
                let k = key_view(old(self).reader.encryption_key);
                let fh = spec_find_header(b, old(self).reader.offset as int);
                &&& (fh is None ==> r is Err && final(self).header is None
                    && final(self).match_stats == old(self).match_stats
                    && final(self).team_match_stats == old(self).team_match_stats
                    && final(self).eliminations@ == old(self).eliminations@)
                &&& (fh matches Some(f) ==> {
                    let sc = spec_scan(
                        b,
                        f.1,
                        k,
                        f.0.engine_network_version,
                        f.0.version.major,
                        f.0.version.minor,
                    );
                    &&& (r is Ok <==> sc is Some)
                    &&& (r is Ok ==> {
                        &&& final(self).header matches Some(h) && h@ == f.0
                        &&& el_views(final(self).eliminations@) == el_views(
                            old(self).eliminations@,
                        ) + sc.unwrap().0
                        &&& final(self).match_stats == (if sc.unwrap().1 is Some {
                            sc.unwrap().1
                        } else {
                            old(self).match_stats
                        })
                        &&& final(self).team_match_stats == (if sc.unwrap().2 is Some {
                            sc.unwrap().2
                        } else {
                            old(self).team_match_stats
                        })
                    })
                })
            },
            old(self).header matches Some(h0) ==> {
                let b = old(self).reader.buffer@;
                let k = key_view(old(self).reader.encryption_key);
                let sc = spec_scan(
                    b,
                    old(self).reader.offset as int,
                    k,
                    h0@.engine_network_version,
                    h0@.version.major,
                    h0@.version.minor,
                );
                &&& final(self).header == old(self).header
                &&& (r is Ok <==> sc is Some)
                &&& (r is Ok ==> {
                    &&& el_views(final(self).eliminations@) == el_views(old(self).eliminations@)
                        + sc.unwrap().0
                    &&& final(self).match_stats == (if sc.unwrap().1 is Some {
                        sc.unwrap().1
                    } else {
                        old(self).match_stats
                    })
                    &&& final(self).team_match_stats == (if sc.unwrap().2 is Some {
                        sc.unwrap().2
                    } else {
                        old(self).team_match_stats
                    })
                })
            },
    {
        let blen = self.reader.buffer.len();
        while self.header.is_none() && self.reader.offset < blen
            invariant
                blen == self.reader.buffer@.len(),
                keeps_data(old(self).reader, self.reader),
                self.meta == old(self).meta,
                self.match_stats == old(self).match_stats,
                self.team_match_stats == old(self).team_match_stats,
                self.eliminations@ == old(self).eliminations@,
                old(self).header is Some ==> self.header == old(self).header
                    && self.reader.offset == old(self).reader.offset,
                old(self).header is None ==> {
                    &&& (self.header is None ==> spec_find_header(
                        old(self).reader.buffer@,
                        old(self).reader.offset as int,
                    ) == spec_find_header(old(self).reader.buffer@, self.reader.offset as int))
                    &&& (self.header matches Some(nh) ==> spec_find_header(
                        old(self).reader.buffer@,
                        old(self).reader.offset as int,
                    ) matches Some(f) && nh@ == f.0 && self.reader.offset == f.1)
                },
            decreases
                    (if self.reader.offset <= blen {
                        blen - self.reader.offset
                    } else {
                        0
                    }),
        {
            let ghost b = old(self).reader.buffer@;
            let ghost cur0 = self.reader.offset as int;
            let chunk_type = match self.reader.read_u32() {
                Ok(v) => v,
                Err(e) => {
                    proof {
                        assert(spec_find_header(b, cur0) is None);
                    }
                    return Err(e);
                },
            };
            let chunk_size = match self.reader.read_i32() {
                Ok(v) => v,
                Err(e) => {
                    proof {
                        assert(spec_find_header(b, cur0) is None);
                    }
                    return Err(e);
                },
            };
            let start = self.reader.offset;
            if chunk_type == 0 {
                let h = match self.parse_header() {
                    Ok(v) => v,
                    Err(e) => {
                        proof {
                            assert(spec_find_header(b, cur0) is None);
                        }
                        return Err(e);
                    },
                };
                if chunk_size < 0 {
                    proof {
                        assert(spec_find_header(b, cur0) is None);
                    }
                    return Err(ParseError::Format { offset: start });
                }
                let sz: usize = chunk_size as usize;
                if start > usize::MAX - sz {
                    proof {
                        assert(spec_find_header(b, cur0) is None);
                    }
                    return Err(ParseError::Bounds { offset: start });
                }
                self.header = Some(h);
                self.reader.goto(&(start + sz));
                proof {
                    assert(spec_find_header(b, cur0) matches Some(f) && self.header.unwrap()@
                        == f.0 && self.reader.offset == f.1);
                }
            } else {
                proof {
                    assert(spec_find_header(b, cur0) == spec_find_header(b, cur0 + 8));
                }
            }
        }
        if self.header.is_none() {
            proof {
                assert(spec_find_header(
                    old(self).reader.buffer@,
                    self.reader.offset as int,
                ) is None);
            }
            return Err(ParseError::Format { offset: self.reader.offset });
        }
        let ghost mid = *self;
        let (engine_network_version, major, minor) = match &self.header {
            Some(h) => (h.engine_network_version, h.version.major, h.version.minor),
            None => { return Err(ParseError::Format { offset: self.reader.offset }) },
        };
        while self.reader.offset < blen
            invariant
                blen == self.reader.buffer@.len(),
                keeps_data(mid.reader, self.reader),
                self.meta == mid.meta,
                self.header == mid.header,
                mid.header matches Some(mh) && mh.engine_network_version == engine_network_version
                    && mh.version.major == major && mh.version.minor == minor,
                mid.meta == old(self).meta,
                mid.match_stats == old(self).match_stats,
                mid.team_match_stats == old(self).team_match_stats,
                mid.eliminations@ == old(self).eliminations@,
                keeps_data(old(self).reader, mid.reader),
                old(self).header is Some ==> mid.header == old(self).header
                    && mid.reader.offset == old(self).reader.offset,
                old(self).header is None ==> (spec_find_header(
                    old(self).reader.buffer@,
                    old(self).reader.offset as int,
                ) matches Some(f) && mid.header.unwrap()@ == f.0 && mid.reader.offset == f.1),
                ({
                    let b = mid.reader.buffer@;
                    let k = key_view(mid.reader.encryption_key);
                    let sc0 = spec_scan(
                        b,
                        mid.reader.offset as int,
                        k,
                        engine_network_version,
                        major,
                        minor,
                    );
                    match spec_scan(
                        b,
                        self.reader.offset as int,
                        k,
                        engine_network_version,
                        major,
                        minor,
                    ) {
                        None => sc0 is None,
                        Some(rest) => sc0 matches Some(total) && {
                            &&& el_views(self.eliminations@) + rest.0 == el_views(
                                mid.eliminations@,
                            ) + total.0
                            &&& (if rest.1 is Some {
                                rest.1
                            } else {
                                self.match_stats
                            }) == (if total.1 is Some {
                                total.1
                            } else {
                                mid.match_stats
                            })
                            &&& (if rest.2 is Some {
                                rest.2
                            } else {
                                self.team_match_stats
                            }) == (if total.2 is Some {
                                total.2
                            } else {
                                mid.team_match_stats
                            })
                        },
                    }
                }),
            decreases
                    (if self.reader.offset <= blen {
                        blen - self.reader.offset
                    } else {
                        0
                    }),
        {
            let ghost b = mid.reader.buffer@;
            let ghost k = key_view(mid.reader.encryption_key);
            let ghost cur0 = self.reader.offset as int;
            let ghost pre_iter = *self;
            let chunk_type = match self.reader.read_u32() {
                Ok(v) => v,
                Err(e) => {
                    proof {
                        assert(spec_scan(b, cur0, k, engine_network_version, major, minor)
                            is None);
                    }
                    return Err(e);
                },
            };
            let chunk_size = match self.reader.read_i32() {
                Ok(v) => v,
                Err(e) => {
                    proof {
                        assert(spec_scan(b, cur0, k, engine_network_version, major, minor)
                            is None);
                    }
                    return Err(e);
                },
            };
            let start = self.reader.offset;
            if chunk_size < 0 {
                proof {
                    assert(spec_scan(b, cur0, k, engine_network_version, major, minor) is None);
                }
                return Err(ParseError::Format { offset: start });
            }
            let sz: usize = chunk_size as usize;
            if start > usize::MAX - sz {
                proof {
                    assert(spec_scan(b, cur0, k, engine_network_version, major, minor) is None);
                }
                return Err(ParseError::Bounds { offset: start });
            }
            match self.handle_chunk(chunk_type, start, sz) {
                Ok(()) => {},
                Err(e) => {
                    proof {
                        assert(spec_scan(b, cur0, k, engine_network_version, major, minor)
                            is None);
                    }
                    return Err(e);
                },
            }
            proof {
                let next = cur0 + 8 + sz as int;
                let clamped = if next > b.len() {
                    b.len() as int
                } else {
                    next
                };
                let outc = if chunk_type == 3 {
                    spec_event(b, cur0 + 8, k, engine_network_version, major, minor).unwrap()
                } else {
                    EventOutcome::Nothing
                };
                assert(spec_scan(b, next, k, engine_network_version, major, minor) == spec_scan(
                    b,
                    clamped,
                    k,
                    engine_network_version,
                    major,
                    minor,
                ));
                let rest2 = spec_scan(b, next, k, engine_network_version, major, minor);
                if rest2 is Some {
                    let (e2, m2, t2) = rest2.unwrap();
                    match outc {
                        EventOutcome::Elim(e) => {
                            assert(spec_scan(b, cur0, k, engine_network_version, major, minor)
                                == Some((seq![e] + e2, m2, t2)));
                            assert(el_views(self.eliminations@) + e2 =~= el_views(
                                pre_iter.eliminations@,
                            ) + (seq![e] + e2));
                        },
                        EventOutcome::Stats(_s) => {},
                        EventOutcome::TeamStats(_s) => {},
                        EventOutcome::Nothing => {},
                    }
                }
            }
        }
        proof {
            let b = mid.reader.buffer@;
            let k = key_view(mid.reader.encryption_key);
            assert(spec_scan(b, self.reader.offset as int, k, engine_network_version, major, minor)
                == Some(
                (Seq::<ElimView>::empty(), None::<MatchStats>, None::<TeamMatchStats>),
            ));
            assert(el_views(self.eliminations@) + Seq::<ElimView>::empty() =~= el_views(
                self.eliminations@,
            ));
        }
        Ok(())
    }

    /// Runs the whole decode: metadata, then the chunk scans.
    pub fn parse(&mut self) -> (r: Result<(), ParseError>)
        ensures
            final(self).reader.buffer@ == old(self).reader.buffer@,
            old(self).header is None ==> {
                let b = old(self).reader.buffer@;
                let m = spec_meta(b, old(self).reader.offset as int);
                &&& (m is None ==> r is Err)
                &&& (m matches Some(mm) ==> {
                    let fh = spec_find_header(b, mm.1);
                    let ek = if mm.2 is Some {
                        mm.2
                    } else {
                        key_view(old(self).reader.encryption_key)
                    };
                    &&& (fh is None ==> r is Err)
                    &&& (fh matches Some(f) ==> {
                        let sc = spec_scan(
                            b,
                            f.1,
                            ek,
                            f.0.engine_network_version,
                            f.0.version.major,
                            f.0.version.minor,
                        );
                        &&& (r is Ok <==> sc is Some)
                        &&& (r is Ok ==> {
                            &&& final(self).meta matches Some(mt) && mt@ == mm.0
                            &&& final(self).header matches Some(h) && h@ == f.0
                            &&& el_views(final(self).eliminations@) == el_views(
                                old(self).eliminations@,
                            ) + sc.unwrap().0
                            &&& final(self).match_stats == (if sc.unwrap().1 is Some {
                                sc.unwrap().1
                            } else {
                                old(self).match_stats
                            })
                            &&& final(self).team_match_stats == (if sc.unwrap().2 is Some {
                                sc.unwrap().2
                            } else {
                                old(self).team_match_stats
                            })
                        })
                    })
                })
            },
    {
        match self.parse_meta() {
            Ok(()) => {},
            Err(e) => { return Err(e) },
        }
        match self.parse_chunks() {
            Ok(()) => {},
            Err(e) => { return Err(e) },
        }
        Ok(())
    }
}

/// Law: a replay buffer whose metadata ends at `mo` without capturing a
/// key, followed by a header chunk of type zero and declared size
/// `hsize`, followed by a single event chunk of type three filling the
/// rest of the buffer and decoding to one elimination, scans to exactly
/// that elimination and no statistics. Together with [`Parser::parse`]'s
/// contract, a decoder holding `key` that runs on such a buffer ends
/// with that one elimination appended and its statistics untouched.
pub proof fn lemma_single_elimination_replay(
    b: Seq<u8>,
    mo: int,
    key: Seq<u8>,
    h: HeaderView,
    hsize: int,
    e: ElimView,
)
    requires
        spec_meta(b, 0) matches Some(m) && m.1 == mo && m.2 is None,
        le_u32_at(b, mo) == 0,
        le_i32_at(b, mo + 4) == hsize,
        hsize >= 0,
        mo + 8 + hsize <= usize::MAX,
        spec_header(b, mo + 8) matches Some(hh) && hh.0 == h,
        le_u32_at(b, mo + 8 + hsize) == 3,
        le_i32_at(b, mo + 8 + hsize + 4) >= 0,
        mo + 8 + hsize + 8 + le_i32_at(b, mo + 8 + hsize + 4) == b.len(),
        b.len() <= usize::MAX,
        spec_event(
            b,
            mo + 8 + hsize + 8,
            Some(key),
            h.engine_network_version,
            h.version.major,
            h.version.minor,
        ) == Some(EventOutcome::Elim(e)),
    ensures
        spec_find_header(b, mo) == Some((h, mo + 8 + hsize)),
        spec_scan(
            b,
            mo + 8 + hsize,
            Some(key),
            h.engine_network_version,
            h.version.major,
            h.version.minor,
        ) == Some((seq![e], None::<MatchStats>, None::<TeamMatchStats>)),
{
    let eo = mo + 8 + hsize;
    let esize = le_i32_at(b, eo + 4) as int;
    assert(mo + 8 <= b.len());
    assert(spec_find_header(b, mo) == Some((h, eo)));
    assert(eo < b.len());
    assert(spec_scan(
        b,
        b.len() as int,
        Some(key),
        h.engine_network_version,
        h.version.major,
        h.version.minor,
    ) == Some((Seq::<ElimView>::empty(), None::<MatchStats>, None::<TeamMatchStats>)));
    assert(seq![e] + Seq::<ElimView>::empty() =~= seq![e]);
    assert(spec_scan(
        b,
        eo,
        Some(key),
        h.engine_network_version,
        h.version.major,
        h.version.minor,
    ) == Some((seq![e], None::<MatchStats>, None::<TeamMatchStats>)));
}

} // verus!
