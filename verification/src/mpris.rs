//! The media player integration's own rules: how often the elapsed time is
//! read, and how a player's playback status is understood.

use vstd::prelude::*;
use core::time::Duration;
use crate::text::{
    ascii_lowercase, ascii_lowercase_of, chars_of, find_sub, find_sub_from, occurs_at, option_view, owned, same_chars,
    starts_with, str_starts_with, string_of, trim_bounds, trim_ws,
};
use crate::manifest::{field_is, ActionDefinition, ConfigField, PluginManifest, VariableDefinition, VariableKind};
use crate::prometheus::{action_is, variable_is};
use crate::keyed::{ids_unique, keyed, lemma_keyed_absent, lemma_keyed_at, lemma_keyed_dom, position_of, put_at, remove_at};
use crate::time::{duration_from_millis, millis_duration};
use crate::numbers::{parse_bounded_spec, parse_radix};
use crate::streamdeck::{lossy_text, utf8_lossy};
use vstd::utf8::is_char_boundary;
use vstd::string::StringSliceAdditionalSpecFns;

verus! {

/// How often the elapsed time is read when a configuration does not say.
pub const DEFAULT_POSITION_INTERVAL_MS: u64 = 1_000;

/// A progress ring is 24 segments wide; reading the elapsed time faster than
/// this only costs round trips to the player.
pub const MINIMUM_POSITION_INTERVAL_MS: u64 = 200;

/// An instance's configuration.
#[derive(Clone, Debug)]
pub struct MprisConfig {
    /// Matched as a case-insensitive substring of the player's bus name.
    /// Players that do not match are ignored entirely, so an instance can be
    /// pinned to one application.
    pub preferred_player: Option<String>,
    pub position_interval_ms: Option<u64>,
}

impl Default for MprisConfig {
    fn default() -> (config: Self)
        ensures
            config.preferred_player is None,
            config.position_interval_ms is None,
    {
        MprisConfig { preferred_player: None, position_interval_ms: None }
    }
}

/// The position interval in milliseconds: the configured one, or the
/// default, and never below the floor.
pub open spec fn position_interval_ms_spec(configured: Option<u64>) -> u64 {
    let asked = match configured {
        Some(ms) => ms,
        None => DEFAULT_POSITION_INTERVAL_MS,
    };
    if asked < MINIMUM_POSITION_INTERVAL_MS {
        MINIMUM_POSITION_INTERVAL_MS
    } else {
        asked
    }
}

impl MprisConfig {
    /// How often the elapsed time is read.
    pub fn position_interval(&self) -> (interval: Duration)
        ensures
            interval == millis_duration(position_interval_ms_spec(self.position_interval_ms)),
    {
        let asked = match self.position_interval_ms {
            Some(ms) => ms,
            None => DEFAULT_POSITION_INTERVAL_MS,
        };
        let ms = if asked < MINIMUM_POSITION_INTERVAL_MS {
            MINIMUM_POSITION_INTERVAL_MS
        } else {
            asked
        };
        duration_from_millis(ms)
    }
}

/// Ordered worst to best on purpose: when several players are running, the
/// one that is actually playing outranks one that was paused an hour ago.
#[derive(Clone, Copy, Debug, PartialEq, Eq, PartialOrd, Ord, Hash, Structural)]
pub enum PlaybackStatus {
    Stopped,
    Paused,
    Playing,
}

impl Default for PlaybackStatus {
    fn default() -> (status: Self)
        ensures
            status == PlaybackStatus::Stopped,
    {
        PlaybackStatus::Stopped
    }
}

/// The status a player reports, read without regard to case or surrounding
/// whitespace; anything unrecognised is stopped.
pub open spec fn parse_status_spec(value: Seq<char>) -> PlaybackStatus {
    let word = ascii_lowercase(trim_ws(value));
    if word == "playing"@ {
        PlaybackStatus::Playing
    } else if word == "paused"@ {
        PlaybackStatus::Paused
    } else {
        PlaybackStatus::Stopped
    }
}

/// The word MPRIS uses for a status.
pub open spec fn status_word(status: PlaybackStatus) -> Seq<char> {
    match status {
        PlaybackStatus::Playing => "Playing"@,
        PlaybackStatus::Paused => "Paused"@,
        PlaybackStatus::Stopped => "Stopped"@,
    }
}

impl PlaybackStatus {
    /// Reads the status a player reports.
    pub fn parse(value: &str) -> (status: Self)
        ensures
            status == parse_status_spec(value@),
    {
        let chars = chars_of(value);
        let (start, end) = trim_bounds(&chars, 0, chars.len());
        proof {
            assert(chars@.subrange(0, chars@.len() as int) =~= chars@);
        }
        let word = ascii_lowercase_of(&chars, start, end);
        if same_chars(&word, &chars_of("playing")) {
            PlaybackStatus::Playing
        } else if same_chars(&word, &chars_of("paused")) {
            PlaybackStatus::Paused
        } else {
            PlaybackStatus::Stopped
        }
    }

    /// The word MPRIS uses for the status.
    pub fn as_str(self) -> (word: &'static str)
        ensures
            word@ == status_word(self),
    {
        match self {
            PlaybackStatus::Playing => "Playing",
            PlaybackStatus::Paused => "Paused",
            PlaybackStatus::Stopped => "Stopped",
        }
    }

    /// Whether the player is playing.
    pub fn is_playing(self) -> (playing: bool)
        ensures
            playing == (self == PlaybackStatus::Playing),
    {
        match self {
            PlaybackStatus::Playing => true,
            _ => false,
        }
    }
}

/// Reading a status back from the word MPRIS uses for it gives the same
/// status.
pub proof fn lemma_status_word_round_trip(status: PlaybackStatus)
    ensures
        parse_status_spec(status_word(status)) == status,
{
    reveal_strlit("Playing");
    reveal_strlit("Paused");
    reveal_strlit("Stopped");
    reveal_strlit("playing");
    reveal_strlit("paused");
    let word = status_word(status);
    crate::text::lemma_trim_ws_of_word(word);
    assert(ascii_lowercase(word) =~= match status {
        PlaybackStatus::Playing => "playing"@,
        PlaybackStatus::Paused => "paused"@,
        PlaybackStatus::Stopped => seq!['s', 't', 'o', 'p', 'p', 'e', 'd'],
    });
}

/// What an escape's two bytes stand for, as `u8::from_str_radix` reads the
/// two characters in base 16: two hexadecimal digits, or `+` and one. A
/// byte outside ASCII is no digit.
pub open spec fn escape_value(high: u8, low: u8) -> Option<nat> {
    if high < 128 && low < 128 {
        parse_bounded_spec(seq![high as char, low as char], 16, 255)
    } else {
        None
    }
}

/// The bytes of a percent-encoded text with every `%` followed by an
/// escape replaced by the byte it stands for; a `%` followed by anything
/// else is kept.
pub open spec fn percent_decode_bytes(bytes: Seq<u8>) -> Seq<u8>
    decreases bytes.len(),
{
    if bytes.len() == 0 {
        Seq::empty()
    } else if bytes[0] == 37 && bytes.len() > 2 && escape_value(bytes[1], bytes[2]) is Some {
        seq![escape_value(bytes[1], bytes[2])->0 as u8] + percent_decode_bytes(bytes.skip(3))
    } else {
        seq![bytes[0]] + percent_decode_bytes(bytes.skip(1))
    }
}

/// Whether the two bytes after every `%` that has two bytes after it end on
/// a character boundary, so that they can be read as text.
pub open spec fn escapes_end_on_characters(bytes: Seq<u8>) -> bool {
    forall|i: int| 0 <= i && i + 2 < bytes.len() && bytes[i] == 37 ==> #[trigger] is_char_boundary(bytes, i + 3)
}

fn escape_of(high: u8, low: u8) -> (value: Option<u8>)
    ensures
        match value {
            Some(v) => escape_value(high, low) == Some(v as nat),
            None => escape_value(high, low) is None,
        },
{
    if high >= 128 || low >= 128 {
        return None;
    }
    let mut pair = String::new();
    pair.push(high as char);
    pair.push(low as char);
    assert(pair@ =~= seq![high as char, low as char]);
    match parse_radix(pair.as_str(), 16, 255) {
        Some(v) => Some(v as u8),
        None => None,
    }
}

/// A `file://` path with its percent escapes decoded, read as UTF-8 with
/// malformed sequences replaced.
pub fn percent_decoded(value: &str) -> (decoded: String)
    requires
        escapes_end_on_characters(value.spec_bytes()),
    ensures
        decoded@ == utf8_lossy(percent_decode_bytes(value.spec_bytes())),
{
    let bytes = value.as_bytes();
    let ghost all = bytes@;
    let mut out: Vec<u8> = Vec::new();
    let mut at: usize = 0;
    assert(all.skip(0) =~= all);
    while at < bytes.len()
        invariant
            bytes@ == all,
            at <= all.len(),
            out@ + percent_decode_bytes(all.skip(at as int)) == percent_decode_bytes(all),
        decreases all.len() - at,
    {
        let ghost rest = all.skip(at as int);
        assert(rest[0] == all[at as int]);
        if bytes[at] == 37 && bytes.len() - at > 2 {
            assert(rest[1] == all[at + 1] && rest[2] == all[at + 2]);
            match escape_of(bytes[at + 1], bytes[at + 2]) {
                Some(byte) => {
                    assert(rest.skip(3) =~= all.skip(at + 3));
                    out.push(byte);
                    assert(out@ + percent_decode_bytes(all.skip(at + 3)) =~= percent_decode_bytes(all));
                    at += 3;
                    continue;
                },
                None => {},
            }
        }
        assert(rest.skip(1) =~= all.skip(at + 1));
        out.push(bytes[at]);
        assert(out@ + percent_decode_bytes(all.skip(at + 1)) =~= percent_decode_bytes(all));
        at += 1;
    }
    assert(all.skip(at as int) =~= Seq::<u8>::empty());
    assert(out@ =~= percent_decode_bytes(all));
    lossy_text(out.as_slice())
}

/// The prefix of the well-known name every media player owns on the bus.
pub const NAME_PREFIX: &'static str = "org.mpris.MediaPlayer2.";

/// How a status ranks: playing over paused over stopped.
pub open spec fn rank(status: PlaybackStatus) -> int {
    match status {
        PlaybackStatus::Stopped => 0,
        PlaybackStatus::Paused => 1,
        PlaybackStatus::Playing => 2,
    }
}

/// Whether a player with status and update number `a` outranks one with
/// `b`: a better status, or the same status and a later update.
pub open spec fn outranks(a: (PlaybackStatus, u64), b: (PlaybackStatus, u64)) -> bool {
    rank(a.0) > rank(b.0) || (rank(a.0) == rank(b.0) && a.1 > b.1)
}

/// Whether `name` is the player a roster follows: it is on the roster and
/// outranks every other player on it.
pub open spec fn is_followed(players: Map<Seq<char>, (PlaybackStatus, u64)>, name: Seq<char>) -> bool {
    &&& players.dom().contains(name)
    &&& forall|other: Seq<char>| #[trigger] players.dom().contains(other) && other != name ==> outranks(
        players[name],
        players[other],
    )
}

/// Whether no two players on a roster last spoke on the same update.
pub open spec fn distinct_updates(players: Map<Seq<char>, (PlaybackStatus, u64)>) -> bool {
    forall|a: Seq<char>, b: Seq<char>|
        #[trigger] players.dom().contains(a) && #[trigger] players.dom().contains(b) && a != b ==> players[a].1
            != players[b].1
}

/// The player a configuration asks for, trimmed and in lower case; nothing
/// when it is blank.
pub open spec fn preferred_spec(preferred: Option<Seq<char>>) -> Option<Seq<char>> {
    match preferred {
        Some(p) => {
            let wanted = ascii_lowercase(trim_ws(p));
            if wanted.len() == 0 {
                None
            } else {
                Some(wanted)
            }
        },
        None => None,
    }
}

/// Whether `pattern` occurs somewhere in `t`.
pub open spec fn contains_text(t: Seq<char>, pattern: Seq<char>) -> bool {
    exists|i: int| occurs_at(t, pattern, i)
}

/// Whether a roster that wants `preferred` follows the player that owns
/// `bus_name`: a media player's name that, without regard to ASCII case,
/// contains the wanted player.
pub open spec fn accepts_spec(preferred: Option<Seq<char>>, bus_name: Seq<char>) -> bool {
    &&& starts_with(bus_name, NAME_PREFIX@)
    &&& match preferred {
        Some(wanted) => contains_text(ascii_lowercase(bus_name), wanted),
        None => true,
    }
}

/// Which media players are on the bus, how each ranks, and which one a
/// panel follows. What a player plays is kept beside it by name.
#[derive(Debug)]
pub struct PlayerRoster {
    preferred: Option<String>,
    players: Vec<(String, (PlaybackStatus, u64))>,
    updates: u64,
}

impl PlayerRoster {
    /// The players by bus name: each one's status and the update it last
    /// spoke on.
    pub closed spec fn player_map(&self) -> Map<Seq<char>, (PlaybackStatus, u64)> {
        keyed(self.players@)
    }

    /// The player the roster wants, if any.
    pub closed spec fn preferred_view(&self) -> Option<Seq<char>> {
        option_view(self.preferred)
    }

    /// The number of the last update.
    pub closed spec fn update_number(&self) -> u64 {
        self.updates
    }

    /// The roster's invariant: each player is listed once, and each spoke on
    /// an update of its own, no later than the last.
    pub closed spec fn wf(&self) -> bool {
        &&& ids_unique(self.players@)
        &&& forall|name: Seq<char>| #[trigger] self.player_map().dom().contains(name) ==> self.player_map()[name].1
            <= self.updates
        &&& distinct_updates(self.player_map())
    }

    /// A roster with no players yet, that follows only players whose name
    /// contains `preferred_player` when one is given.
    pub fn new(preferred_player: Option<String>) -> (roster: Self)
        ensures
            roster.wf(),
            roster.player_map() == Map::<Seq<char>, (PlaybackStatus, u64)>::empty(),
            roster.preferred_view() == preferred_spec(option_view(preferred_player)),
            roster.update_number() == 0,
    {
        let preferred = match &preferred_player {
            Some(p) => {
                let chars = chars_of(p.as_str());
                let (start, end) = trim_bounds(&chars, 0, chars.len());
                proof {
                    assert(chars@.subrange(0, chars@.len() as int) =~= chars@);
                }
                let wanted = ascii_lowercase_of(&chars, start, end);
                if wanted.len() == 0 {
                    None
                } else {
                    Some(string_of(&wanted, 0, wanted.len()))
                }
            },
            None => None,
        };
        let roster = PlayerRoster { preferred, players: Vec::new(), updates: 0 };
        proof {
            if roster.preferred is Some {
                assert(roster.preferred->0@ =~= ascii_lowercase(trim_ws(preferred_player->0@)));
            }
            assert(roster.player_map() =~= Map::<Seq<char>, (PlaybackStatus, u64)>::empty());
        }
        roster
    }

    /// Whether the roster follows the player that owns `bus_name`.
    pub fn accepts(&self, bus_name: &str) -> (accepted: bool)
        ensures
            accepted == accepts_spec(self.preferred_view(), bus_name@),
    {
        if !str_starts_with(bus_name, NAME_PREFIX) {
            return false;
        }
        match &self.preferred {
            Some(wanted) => {
                let chars = chars_of(bus_name);
                let lowered = ascii_lowercase_of(&chars, 0, chars.len());
                proof {
                    assert(chars@.subrange(0, chars@.len() as int) =~= bus_name@);
                }
                let pattern = chars_of(wanted.as_str());
                if pattern.len() == 0 {
                    proof {
                        assert(lowered@.subrange(0, 0) =~= pattern@);
                        assert(occurs_at(lowered@, pattern@, 0));
                    }
                    return true;
                }
                let at = find_sub(&lowered, &pattern);
                proof {
                    lemma_find_sub_finds(lowered@, pattern@);
                }
                at < lowered.len()
            },
            None => true,
        }
    }

    /// Records that the player that owns `bus_name` spoke, with its new
    /// status when the update carries one. A player the roster does not
    /// follow is ignored. Answers whether it was recorded.
    pub fn apply(&mut self, bus_name: &str, status: Option<PlaybackStatus>) -> (recorded: bool)
        requires
            old(self).wf(),
            old(self).update_number() < u64::MAX,
        ensures
            final(self).wf(),
            final(self).preferred_view() == old(self).preferred_view(),
            recorded == accepts_spec(old(self).preferred_view(), bus_name@),
            !recorded ==> final(self).player_map() == old(self).player_map() && final(self).update_number()
                == old(self).update_number(),
            recorded ==> final(self).update_number() == old(self).update_number() + 1 && final(self).player_map()
                == old(self).player_map().insert(
                bus_name@,
                (
                    match status {
                        Some(s) => s,
                        None => if old(self).player_map().dom().contains(bus_name@) {
                            old(self).player_map()[bus_name@].0
                        } else {
                            PlaybackStatus::Stopped
                        },
                    },
                    final(self).update_number(),
                ),
            ),
    {
        if !self.accepts(bus_name) {
            return false;
        }
        self.updates = self.updates + 1;
        let found = position_of(&self.players, bus_name);
        let previous = match found {
            Some(i) => {
                proof {
                    lemma_keyed_at(self.players@, i as int);
                }
                self.players[i].1.0
            },
            None => {
                proof {
                    lemma_keyed_absent(self.players@, bus_name@);
                }
                PlaybackStatus::Stopped
            },
        };
        let now = match status {
            Some(s) => s,
            None => previous,
        };
        put_at(&mut self.players, found, owned(bus_name), (now, self.updates));
        true
    }

    /// Forgets the player that owned `bus_name`, which has left the bus.
    pub fn forget(&mut self, bus_name: &str)
        requires
            old(self).wf(),
        ensures
            final(self).wf(),
            final(self).player_map() == old(self).player_map().remove(bus_name@),
            final(self).preferred_view() == old(self).preferred_view(),
            final(self).update_number() == old(self).update_number(),
    {
        match position_of(&self.players, bus_name) {
            Some(i) => {
                remove_at(&mut self.players, i);
            },
            None => {
                proof {
                    lemma_keyed_absent(self.players@, bus_name@);
                    assert(self.player_map().remove(bus_name@) =~= self.player_map());
                }
            },
        }
    }

    /// The number of the last update; another can be recorded while it is
    /// below the largest.
    pub fn update_count(&self) -> (count: u64)
        ensures
            count == self.update_number(),
    {
        self.updates
    }

    /// The player the panel follows, with its status: the one that outranks
    /// every other; nothing when no player is on the roster.
    pub fn active(&self) -> (followed: Option<(&str, PlaybackStatus)>)
        requires
            self.wf(),
        ensures
            match followed {
                Some((name, status)) => is_followed(self.player_map(), name@) && self.player_map()[name@].0 == status,
                None => self.player_map().dom().len() == 0 && self.player_map() == Map::<
                    Seq<char>,
                    (PlaybackStatus, u64),
                >::empty(),
            },
    {
        if self.players.len() == 0 {
            proof {
                assert(self.player_map() =~= Map::<Seq<char>, (PlaybackStatus, u64)>::empty());
            }
            return None;
        }
        let mut best: usize = 0;
        let mut i: usize = 1;
        while i < self.players.len()
            invariant
                self.wf(),
                1 <= i <= self.players@.len(),
                best < i,
                forall|j: int| 0 <= j < i && j != best ==> outranks(self.players@[best as int].1, #[trigger] self.players@[j].1),
            decreases self.players.len() - i,
        {
            let (status, updates) = self.players[i].1;
            let (best_status, best_updates) = self.players[best].1;
            let better = rank_of(status) > rank_of(best_status) || (rank_of(status) == rank_of(best_status)
                && updates > best_updates);
            if better {
                proof {
                    assert forall|j: int| 0 <= j < i + 1 && j != i implies outranks(
                        self.players@[i as int].1,
                        #[trigger] self.players@[j].1,
                    ) by {
                        if j != best {
                            assert(outranks(self.players@[best as int].1, self.players@[j].1));
                        }
                    }
                }
                best = i;
            } else {
                proof {
                    lemma_keyed_at(self.players@, i as int);
                    lemma_keyed_at(self.players@, best as int);
                    assert(self.players@[i as int].0@ != self.players@[best as int].0@);
                    assert(self.players@[i as int].1.1 != self.players@[best as int].1.1);
                }
            }
            i += 1;
        }
        proof {
            lemma_keyed_at(self.players@, best as int);
            let name = self.players@[best as int].0@;
            assert forall|other: Seq<char>| #[trigger] self.player_map().dom().contains(other) && other != name implies outranks(
                self.player_map()[name],
                self.player_map()[other],
            ) by {
                lemma_keyed_dom(self.players@, other);
                let j = choose|j: int| 0 <= j < self.players@.len() && (#[trigger] self.players@[j]).0@ == other;
                lemma_keyed_at(self.players@, j);
            }
        }
        Some((self.players[best].0.as_str(), self.players[best].1.0))
    }
}

/// On a roster no two players spoke on the same update, so the player it
/// follows is one player.
pub proof fn lemma_roster_updates_distinct(roster: &PlayerRoster)
    requires
        roster.wf(),
    ensures
        distinct_updates(roster.player_map()),
{
}

fn rank_of(status: PlaybackStatus) -> (r: u8)
    ensures
        r == rank(status),
{
    match status {
        PlaybackStatus::Stopped => 0,
        PlaybackStatus::Paused => 1,
        PlaybackStatus::Playing => 2,
    }
}

/// Where `find_sub` stops is inside the text exactly when the pattern occurs.
proof fn lemma_find_sub_finds(t: Seq<char>, pattern: Seq<char>)
    requires
        pattern.len() > 0,
    ensures
        (find_sub_from(t, pattern, 0) < t.len()) == contains_text(t, pattern),
{
    lemma_find_sub_from_finds(t, pattern, 0);
}

proof fn lemma_find_sub_from_finds(t: Seq<char>, pattern: Seq<char>, from: int)
    requires
        pattern.len() > 0,
        0 <= from,
        forall|m: int| 0 <= m < from ==> !occurs_at(t, pattern, m),
    ensures
        (find_sub_from(t, pattern, from) < t.len()) == contains_text(t, pattern),
    decreases t.len() - from,
{
    if from >= t.len() {
        if contains_text(t, pattern) {
            let m = choose|m: int| occurs_at(t, pattern, m);
            assert(m < from);
        }
    } else if occurs_at(t, pattern, from) {
    } else {
        lemma_find_sub_from_finds(t, pattern, from + 1);
    }
}

/// The player a roster follows is one player: no two can each outrank all
/// others when no two spoke on the same update.
pub proof fn lemma_followed_is_unique(players: Map<Seq<char>, (PlaybackStatus, u64)>, a: Seq<char>, b: Seq<char>)
    requires
        distinct_updates(players),
        is_followed(players, a),
        is_followed(players, b),
    ensures
        a == b,
{
    if a != b {
        assert(outranks(players[a], players[b]));
        assert(outranks(players[b], players[a]));
    }
}

/// A playing player is followed over any that is not playing, however much
/// more recently that one spoke.
pub proof fn lemma_playing_is_followed_first(
    players: Map<Seq<char>, (PlaybackStatus, u64)>,
    followed: Seq<char>,
    playing: Seq<char>,
)
    requires
        is_followed(players, followed),
        players.dom().contains(playing),
        players[playing].0 == PlaybackStatus::Playing,
    ensures
        players[followed].0 == PlaybackStatus::Playing,
{
    if followed != playing {
        assert(outranks(players[followed], players[playing]));
    }
}

/// Among players of one status the one that spoke last is followed.
pub proof fn lemma_latest_of_a_status_is_followed(
    players: Map<Seq<char>, (PlaybackStatus, u64)>,
    followed: Seq<char>,
    other: Seq<char>,
)
    requires
        is_followed(players, followed),
        players.dom().contains(other),
        other != followed,
        players[other].0 == players[followed].0,
    ensures
        players[followed].1 > players[other].1,
{
    assert(outranks(players[followed], players[other]));
}

/// The integration's manifest: a preferred player and a polling interval to
/// configure, the transport actions, and what the followed player plays.
pub fn manifest() -> (manifest: PluginManifest)
    ensures
        manifest.plugin_type@ == "mpris"@,
        manifest.display_name@ == "Local media"@,
        manifest.description@ == "Whatever is playing on this machine, over MPRIS."@,
        manifest.config_schema@.len() == 2,
        field_is(
            manifest.config_schema@[0],
            "preferred_player"@,
            "Preferred player"@,
            false,
            Some("spotify"@),
            Some("Only players whose bus name contains this are followed. Empty follows whichever player is playing."@),
        ),
        manifest.config_schema@[0].kind is Text,
        field_is(
            manifest.config_schema@[1],
            "position_interval_ms"@,
            "Position interval (ms)"@,
            false,
            None,
            Some("How often the elapsed time is read while something is playing."@),
        ),
        manifest.config_schema@[1].kind is Number,
        manifest.actions@.len() == 7,
        action_is(manifest.actions@[0], "play_pause"@, "Play or pause"@, 0),
        action_is(manifest.actions@[1], "next"@, "Next track"@, 0),
        action_is(manifest.actions@[2], "previous"@, "Previous track"@, 0),
        action_is(manifest.actions@[3], "stop"@, "Stop"@, 0),
        action_is(manifest.actions@[4], "seek"@, "Seek"@, 1),
        field_is(
            manifest.actions@[4].parameters@[0],
            "offset_seconds"@,
            "Offset (seconds)"@,
            true,
            Some("10"@),
            Some("Negative goes back."@),
        ),
        action_is(manifest.actions@[5], "set_volume"@, "Set volume"@, 1),
        field_is(
            manifest.actions@[5].parameters@[0],
            "volume"@,
            "Volume"@,
            true,
            Some("0.5"@),
            Some("Between 0 and 1."@),
        ),
        action_is(manifest.actions@[6], "raise"@, "Raise window"@, 0),
        manifest.variables@.len() == 10,
        variable_is(manifest.variables@[0], "player"@, VariableKind::Text),
        variable_is(manifest.variables@[1], "title"@, VariableKind::Text),
        variable_is(manifest.variables@[2], "artist"@, VariableKind::Text),
        variable_is(manifest.variables@[3], "album"@, VariableKind::Text),
        variable_is(manifest.variables@[4], "art"@, VariableKind::Image),
        variable_is(manifest.variables@[5], "art_url"@, VariableKind::Text),
        variable_is(manifest.variables@[6], "status"@, VariableKind::Text),
        variable_is(manifest.variables@[7], "position"@, VariableKind::Number),
        variable_is(manifest.variables@[8], "length"@, VariableKind::Number),
        variable_is(manifest.variables@[9], "volume"@, VariableKind::Number),
{
    PluginManifest {
        plugin_type: "mpris",
        display_name: "Local media",
        description: "Whatever is playing on this machine, over MPRIS.",
        config_schema: vec![
            ConfigField::text("preferred_player").label("Preferred player").placeholder("spotify").help(
                "Only players whose bus name contains this are followed. Empty follows whichever player is playing.",
            ),
            ConfigField::number("position_interval_ms").label("Position interval (ms)").help(
                "How often the elapsed time is read while something is playing.",
            ),
        ],
        actions: vec![
            ActionDefinition::new("play_pause").label("Play or pause"),
            ActionDefinition::new("next").label("Next track"),
            ActionDefinition::new("previous").label("Previous track"),
            ActionDefinition::new("stop").label("Stop"),
            ActionDefinition::new("seek").label("Seek").description(
                "Moves the playhead relative to where it is now.",
            ).parameters(
                vec![
                    ConfigField::number("offset_seconds").label("Offset (seconds)").placeholder("10").required().help(
                        "Negative goes back.",
                    ),
                ],
            ),
            ActionDefinition::new("set_volume").label("Set volume").parameters(
                vec![
                    ConfigField::number("volume").label("Volume").placeholder("0.5").required().help(
                        "Between 0 and 1.",
                    ),
                ],
            ),
            ActionDefinition::new("raise").label("Raise window").description(
                "Brings the player's window to the front.",
            ),
        ],
        variables: vec![
            VariableDefinition::new("player", VariableKind::Text).description(
                "Bus name of the player being followed.",
            ),
            VariableDefinition::new("title", VariableKind::Text),
            VariableDefinition::new("artist", VariableKind::Text),
            VariableDefinition::new("album", VariableKind::Text),
            VariableDefinition::new("art", VariableKind::Image).description(
                "The cover art itself, ready to show as a key background.",
            ),
            VariableDefinition::new("art_url", VariableKind::Text).description(
                "Where the player says its cover art lives.",
            ),
            VariableDefinition::new("status", VariableKind::Text).description("Playing, Paused or Stopped."),
            VariableDefinition::new("position", VariableKind::Number).description(
                "Elapsed seconds, read while something is playing.",
            ),
            VariableDefinition::new("length", VariableKind::Number).description("Track seconds."),
            VariableDefinition::new("volume", VariableKind::Number).description("Between 0 and 1."),
        ],
    }
}

} // verus!

verus! {

/// A configured position interval of at least 200 ms is used as it is; a
/// shorter one is raised to 200 ms; with none, the elapsed time is read
/// every second.
pub proof fn lemma_position_interval_respects_configuration(ms: u64)
    ensures
        ms >= 200 ==> position_interval_ms_spec(Some(ms)) == ms,
        ms < 200 ==> position_interval_ms_spec(Some(ms)) == 200,
        position_interval_ms_spec(None) == 1000,
{
}

} // verus!
