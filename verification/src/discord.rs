//! The Discord integration's own rules: what a configuration must look like,
//! which channel is shown, how a member's voice state reads on a key, and
//! which guilds, channels and members a picker offers.

use vstd::prelude::*;
use crate::numbers::{parse_bounded_spec, parse_radix};
use crate::order::{lemma_lex_asymmetric, lemma_lex_transitive, lex_less, lex_lt};
use crate::identifiers::{AssetId, IntegrationId};
use crate::keyed::{ids_unique, keyed, position_of};
use crate::manifest::{
    field_is, ActionDefinition, ConfigField, ConfigFieldKind, PluginManifest, VariableDefinition,
    VariableKind,
};
use crate::panels::{
    member, Action, ActionBinding, ActionTrigger, Anchor9, Border, ColorBinding, ControlTemplate,
    JsonValue, OverlayImage, RenderedState, RgbaColor,
};
use crate::plugin::LookupOption;
use crate::preset::Preset;
use crate::text::{decimal, decimal_text};
use crate::text::{chars_of, find_sub, find_sub_from, owned, same_chars, string_of, trim_bounds, trim_ws};

verus! {

/// The outline colour of a member who is muted or deafened.
pub const MUTED_COLOR: &'static str = "#ed4245";

/// The lookup source that lists guilds.
pub const GUILD_LOOKUP: &'static str = "guilds";

/// The lookup source that lists voice channels.
pub const CHANNEL_LOOKUP: &'static str = "voice_channels";

/// The lookup source that lists members.
pub const MEMBER_LOOKUP: &'static str = "members";

/// How many members an instance publishes unless it says otherwise.
pub fn default_max_members() -> (count: usize)
    ensures
        count == 4,
{
    4
}

/// An instance's configuration.
#[derive(Clone, Debug)]
pub struct DiscordConfig {
    /// Resolved separately, as a secret.
    pub token: Option<toml::Value>,
    pub guild_id: Option<String>,
    pub channel_id: Option<String>,
    pub user_id: Option<String>,
    pub max_members: usize,
}

/// Whether every character is an ASCII digit.
pub open spec fn all_ascii_digits(value: Seq<char>) -> bool {
    forall|i: int| 0 <= i < value.len() ==> '0' <= #[trigger] value[i] && value[i] <= '9'
}

/// A Discord id is a snowflake: a non-empty run of ASCII digits.
pub open spec fn validate_id_spec(name: Seq<char>, value: Seq<char>) -> Result<(), Seq<char>> {
    if value.len() == 0 || !all_ascii_digits(value) {
        Err(name + " must be a Discord snowflake"@)
    } else {
        Ok(())
    }
}

/// The unit result, or an error taken by its characters.
pub open spec fn unit_view(result: Result<(), String>) -> Result<(), Seq<char>> {
    match result {
        Ok(()) => Ok(()),
        Err(message) => Err(message@),
    }
}

/// Checks that `value` is a snowflake, naming the setting when it is not.
pub fn validate_id(name: &str, value: &str) -> (checked: Result<(), String>)
    ensures
        unit_view(checked) == validate_id_spec(name@, value@),
{
    let chars = chars_of(value);
    let mut i: usize = 0;
    while i < chars.len()
        invariant
            chars@ == value@,
            i <= chars@.len(),
            forall|j: int| 0 <= j < i ==> '0' <= #[trigger] chars@[j] && chars@[j] <= '9',
        decreases chars.len() - i,
    {
        if !('0' <= chars[i] && chars[i] <= '9') {
            let mut message = owned(name);
            message.push_str(" must be a Discord snowflake");
            return Err(message);
        }
        i += 1;
    }
    if chars.len() == 0 {
        let mut message = owned(name);
        message.push_str(" must be a Discord snowflake");
        return Err(message);
    }
    Ok(())
}

/// Only the shape of what is set is checked: every id that is set is a
/// snowflake, in the order guild, channel, user, and between one and 32
/// members are published.
pub open spec fn validate_spec(
    guild_id: Option<Seq<char>>,
    channel_id: Option<Seq<char>>,
    user_id: Option<Seq<char>>,
    max_members: usize,
) -> Result<(), Seq<char>> {
    if guild_id is Some && validate_id_spec("guild_id"@, guild_id->0) is Err {
        validate_id_spec("guild_id"@, guild_id->0)
    } else if channel_id is Some && validate_id_spec("channel_id"@, channel_id->0) is Err {
        validate_id_spec("channel_id"@, channel_id->0)
    } else if user_id is Some && validate_id_spec("user_id"@, user_id->0) is Err {
        validate_id_spec("user_id"@, user_id->0)
    } else if max_members == 0 || max_members > 32 {
        Err("max_members must be between 1 and 32"@)
    } else {
        Ok(())
    }
}

impl DiscordConfig {
    /// Checks the shape of what is set. A half-configured instance still
    /// starts, because the guild and channel pickers are answered by a
    /// running instance.
    pub fn validate(&self) -> (checked: Result<(), String>)
        ensures
            unit_view(checked) == validate_spec(
                crate::text::option_view(self.guild_id),
                crate::text::option_view(self.channel_id),
                crate::text::option_view(self.user_id),
                self.max_members,
            ),
    {
        match &self.guild_id {
            Some(value) => {
                let checked = validate_id("guild_id", value.as_str());
                if checked.is_err() {
                    return checked;
                }
            },
            None => {},
        }
        match &self.channel_id {
            Some(value) => {
                let checked = validate_id("channel_id", value.as_str());
                if checked.is_err() {
                    return checked;
                }
            },
            None => {},
        }
        match &self.user_id {
            Some(value) => {
                let checked = validate_id("user_id", value.as_str());
                if checked.is_err() {
                    return checked;
                }
            },
            None => {},
        }
        if self.max_members == 0 || self.max_members > 32 {
            return Err(owned("max_members must be between 1 and 32"));
        }
        Ok(())
    }

    /// Whether there is enough here to show anything: a guild, and a channel
    /// or a user to follow.
    pub fn names_a_channel(&self) -> (names: bool)
        ensures
            names == (self.guild_id is Some && (self.channel_id is Some || self.user_id is Some)),
    {
        self.guild_id.is_some() && (self.channel_id.is_some() || self.user_id.is_some())
    }
}

/// A channel of a guild.
#[derive(Debug)]
pub struct DiscordChannel {
    pub name: String,
    pub kind: u64,
}

impl View for DiscordChannel {
    type V = (Seq<char>, u64);

    open spec fn view(&self) -> (Seq<char>, u64) {
        (self.name@, self.kind)
    }
}

impl Clone for DiscordChannel {
    fn clone(&self) -> (copy: Self)
        ensures
            copy == *self,
    {
        DiscordChannel { name: self.name.clone(), kind: self.kind }
    }
}

/// The channel kind of a voice channel.
pub const GUILD_VOICE: u64 = 2;

/// The channel kind of a stage channel.
pub const GUILD_STAGE: u64 = 13;

impl DiscordChannel {
    /// Whether members can be in the channel by voice: a voice or a stage
    /// channel.
    pub fn is_voice(&self) -> (voice: bool)
        ensures
            voice == (self.kind == GUILD_VOICE || self.kind == GUILD_STAGE),
    {
        self.kind == GUILD_VOICE || self.kind == GUILD_STAGE
    }
}

/// A member of a guild.
#[derive(Debug)]
pub struct DiscordUser {
    pub id: String,
    pub name: String,
    pub avatar: String,
}

impl View for DiscordUser {
    type V = (Seq<char>, Seq<char>, Seq<char>);

    open spec fn view(&self) -> (Seq<char>, Seq<char>, Seq<char>) {
        (self.id@, self.name@, self.avatar@)
    }
}

impl Clone for DiscordUser {
    fn clone(&self) -> (copy: Self)
        ensures
            copy == *self,
    {
        DiscordUser { id: self.id.clone(), name: self.name.clone(), avatar: self.avatar.clone() }
    }
}

/// Where a member is by voice, and how.
#[derive(Debug)]
pub struct VoiceState {
    pub channel_id: Option<String>,
    pub is_server_muted: bool,
    pub is_server_deafened: bool,
    pub is_self_muted: bool,
    pub is_self_deafened: bool,
    pub is_streaming: bool,
    pub is_video_on: bool,
}

impl View for VoiceState {
    type V = (Option<Seq<char>>, bool, bool, bool, bool, bool, bool);

    open spec fn view(&self) -> (Option<Seq<char>>, bool, bool, bool, bool, bool, bool) {
        (
            crate::text::option_view(self.channel_id),
            self.is_server_muted,
            self.is_server_deafened,
            self.is_self_muted,
            self.is_self_deafened,
            self.is_streaming,
            self.is_video_on,
        )
    }
}

impl Clone for VoiceState {
    fn clone(&self) -> (copy: Self)
        ensures
            copy == *self,
    {
        let channel_id = match &self.channel_id {
            Some(id) => Some(id.clone()),
            None => None,
        };
        VoiceState {
            channel_id,
            is_server_muted: self.is_server_muted,
            is_server_deafened: self.is_server_deafened,
            is_self_muted: self.is_self_muted,
            is_self_deafened: self.is_self_deafened,
            is_streaming: self.is_streaming,
            is_video_on: self.is_video_on,
        }
    }
}

impl Default for VoiceState {
    fn default() -> (voice: Self)
        ensures
            voice.channel_id is None,
            !voice.is_server_muted,
            !voice.is_server_deafened,
            !voice.is_self_muted,
            !voice.is_self_deafened,
            !voice.is_streaming,
            !voice.is_video_on,
    {
        VoiceState {
            channel_id: None,
            is_server_muted: false,
            is_server_deafened: false,
            is_self_muted: false,
            is_self_deafened: false,
            is_streaming: false,
            is_video_on: false,
        }
    }
}

impl VoiceState {
    /// A server mute and a self mute are the same fact to a key showing
    /// whether a microphone is live.
    pub fn is_muted(&self) -> (muted: bool)
        ensures
            muted == (self.is_self_muted || self.is_server_muted),
    {
        self.is_self_muted || self.is_server_muted
    }

    /// A server deafen and a self deafen alike.
    pub fn is_deafened(&self) -> (deafened: bool)
        ensures
            deafened == (self.is_self_deafened || self.is_server_deafened),
    {
        self.is_self_deafened || self.is_server_deafened
    }
}

/// The outline colour of a member: red when muted or deafened, and empty
/// otherwise, because an unresolvable colour leaves a key unbordered.
pub fn status_color(voice: &VoiceState) -> (color: &'static str)
    ensures
        color@ == if voice.is_self_deafened || voice.is_server_deafened || voice.is_self_muted
            || voice.is_server_muted {
            MUTED_COLOR@
        } else {
            ""@
        },
{
    if voice.is_deafened() || voice.is_muted() {
        MUTED_COLOR
    } else {
        ""
    }
}

/// Which of the six default avatars a user without one of their own gets:
/// their id modulo six, or the first when the id is not a number.
pub open spec fn avatar_index_spec(id: Seq<char>) -> u64 {
    match parse_bounded_spec(id, 10, u64::MAX as nat) {
        Some(value) => (value % 6) as u64,
        None => 0,
    }
}

/// Which of the six default avatars a user without one of their own gets.
pub fn avatar_index(id: &str) -> (index: u64)
    ensures
        index == avatar_index_spec(id@),
        index < 6,
{
    match parse_radix(id, 10, u64::MAX) {
        Some(value) => value % 6,
        None => 0,
    }
}

/// What an instance knows of Discord: every guild the bot is in (id and
/// name), the channels, the members and where each member is by voice, all
/// keyed by id.
#[derive(Clone, Debug)]
pub struct DiscordState {
    pub guilds: Vec<(String, String)>,
    pub channels: Vec<(String, DiscordChannel)>,
    pub users: Vec<(String, DiscordUser)>,
    pub voice_states: Vec<(String, VoiceState)>,
}

impl DiscordState {
    /// Each list names an id once.
    pub open spec fn wf(&self) -> bool {
        &&& ids_unique(self.guilds@)
        &&& ids_unique(self.channels@)
        &&& ids_unique(self.users@)
        &&& ids_unique(self.voice_states@)
    }

    /// The guilds by id: their names.
    pub open spec fn guild_map(&self) -> Map<Seq<char>, Seq<char>> {
        keyed(self.guilds@).map_values(|name: String| name@)
    }

    /// The channels by id.
    pub open spec fn channel_map(&self) -> Map<Seq<char>, (Seq<char>, u64)> {
        keyed(self.channels@).map_values(|channel: DiscordChannel| channel@)
    }

    /// The members by id.
    pub open spec fn user_map(&self) -> Map<Seq<char>, (Seq<char>, Seq<char>, Seq<char>)> {
        keyed(self.users@).map_values(|user: DiscordUser| user@)
    }

    /// Where each member in voice is, by their id.
    pub open spec fn voice_map(&self) -> Map<Seq<char>, (Option<Seq<char>>, bool, bool, bool, bool, bool, bool)> {
        keyed(self.voice_states@).map_values(|voice: VoiceState| voice@)
    }
}

impl Default for DiscordState {
    fn default() -> (state: Self)
        ensures
            state.guilds@.len() == 0,
            state.channels@.len() == 0,
            state.users@.len() == 0,
            state.voice_states@.len() == 0,
    {
        DiscordState { guilds: Vec::new(), channels: Vec::new(), users: Vec::new(), voice_states: Vec::new() }
    }
}

/// The channel the followed user is in, when the state knows of one.
pub open spec fn followed_channel(
    user_id: Option<Seq<char>>,
    voice_states: Seq<(String, VoiceState)>,
) -> Option<Seq<char>> {
    match user_id {
        None => None,
        Some(user) => if exists|i: int| 0 <= i < voice_states.len() && (#[trigger] voice_states[i]).0@ == user {
            let i = choose|i: int| 0 <= i < voice_states.len() && (#[trigger] voice_states[i]).0@ == user;
            crate::text::option_view(voice_states[i].1.channel_id)
        } else {
            None
        },
    }
}

/// Which channel is shown and which setting chose it: the followed user's
/// channel, else the fixed channel, else none.
pub open spec fn selected_channel_spec(
    user_id: Option<Seq<char>>,
    channel_id: Option<Seq<char>>,
    voice_states: Seq<(String, VoiceState)>,
) -> (Option<Seq<char>>, Seq<char>) {
    match followed_channel(user_id, voice_states) {
        Some(channel) => (Some(channel), "followed"@),
        None => match channel_id {
            Some(channel) => (Some(channel), "fallback"@),
            None => (None, "none"@),
        },
    }
}

/// Which channel the followed user is in, falling back to the fixed channel
/// when they are not in voice or not visible to the bot; with the setting
/// that chose it.
pub fn selected_channel(settings: &DiscordConfig, state: &DiscordState) -> (selected: (
    Option<String>,
    &'static str,
))
    requires
        ids_unique(state.voice_states@),
    ensures
        (crate::text::option_view(selected.0), selected.1@) == selected_channel_spec(
            crate::text::option_view(settings.user_id),
            crate::text::option_view(settings.channel_id),
            state.voice_states@,
        ),
{
    let followed: Option<String> = match &settings.user_id {
        Some(user_id) => match position_of(&state.voice_states, user_id.as_str()) {
            Some(i) => {
                proof {
                    let k = choose|k: int|
                        0 <= k < state.voice_states@.len() && (#[trigger] state.voice_states@[k]).0@
                            == user_id@;
                    assert(k == i);
                }
                match &state.voice_states[i].1.channel_id {
                    Some(channel) => Some(channel.clone()),
                    None => None,
                }
            },
            None => None,
        },
        None => None,
    };
    match followed {
        Some(channel) => (Some(channel), "followed"),
        None => match &settings.channel_id {
            Some(channel) => (Some(channel.clone()), "fallback"),
            None => (None, "none"),
        },
    }
}


/// What `str::to_lowercase` returns for a text.
pub uninterp spec fn lowercase(text: Seq<char>) -> Seq<char>;

/// `str::to_lowercase`: the text in lower case by the Unicode rules, the
/// same text for the same text. ASCII letters are lowered as ASCII.
#[verifier::external_body]
pub(crate) fn to_lowercase(text: &str) -> (lowered: String)
    ensures
        lowered@ == lowercase(text@),
        (forall|i: int| 0 <= i < text@.len() ==> (#[trigger] text@[i] as u32) < 128) ==> lowered@
            == crate::text::ascii_lowercase(text@),
{
    text.to_lowercase()
}

/// Whether `needle` occurs in `haystack`.
pub open spec fn contains_text(haystack: Seq<char>, needle: Seq<char>) -> bool {
    find_sub_from(haystack, needle, 0) < haystack.len() || needle.len() == 0
}

fn contains(haystack: &String, needle: &Vec<char>) -> (found: bool)
    ensures
        found == contains_text(haystack@, needle@),
{
    if needle.len() == 0 {
        return true;
    }
    let chars = chars_of(haystack.as_str());
    find_sub(&chars, needle) < chars.len()
}

/// A picker query matches an option when, trimmed and in lower case, it is
/// empty or occurs in the option's label or value, so a snowflake pasted
/// from Discord finds its own entry just as a typed name does.
pub open spec fn query_matches_spec(query: Seq<char>, label: Seq<char>, value: Seq<char>) -> bool {
    let needle = lowercase(trim_ws(query));
    needle.len() == 0 || contains_text(lowercase(label), needle) || contains_text(lowercase(value), needle)
}

/// Whether a picker query matches an option.
pub fn query_matches(query: &str, label: &str, value: &str) -> (found: bool)
    ensures
        found == query_matches_spec(query@, label@, value@),
{
    let chars = chars_of(query);
    let (start, end) = trim_bounds(&chars, 0, chars.len());
    proof {
        assert(chars@.subrange(0, chars@.len() as int) =~= chars@);
    }
    let trimmed = string_of(&chars, start, end);
    let needle = chars_of(to_lowercase(trimmed.as_str()).as_str());
    if needle.len() == 0 {
        return true;
    }
    contains(&to_lowercase(label), &needle) || contains(&to_lowercase(value), &needle)
}

/// The key options sort by: the label in lower case, then the value.
pub open spec fn option_key(option: LookupOption) -> (Seq<char>, Seq<char>) {
    (lowercase(option.label@), option.value@)
}

/// Whether key `a` sorts strictly before key `b`.
pub open spec fn key_lt(a: (Seq<char>, Seq<char>), b: (Seq<char>, Seq<char>)) -> bool {
    lex_lt(a.0, b.0) || (a.0 == b.0 && lex_lt(a.1, b.1))
}

/// Whether options are in order: none sorts before one ahead of it.
pub open spec fn in_order(options: Seq<LookupOption>) -> bool {
    forall|i: int, j: int|
        0 <= i < j < options.len() ==> !key_lt(option_key(#[trigger] options[j]), option_key(#[trigger] options[i]))
}

proof fn lemma_key_transitive(a: (Seq<char>, Seq<char>), b: (Seq<char>, Seq<char>), c: (Seq<char>, Seq<char>))
    requires
        key_lt(a, b),
        key_lt(b, c),
    ensures
        key_lt(a, c),
{
    if lex_lt(a.0, b.0) && lex_lt(b.0, c.0) {
        lemma_lex_transitive(a.0, b.0, c.0, 0);
    }
    if a.0 == b.0 && b.0 == c.0 && lex_lt(a.1, b.1) && lex_lt(b.1, c.1) {
        lemma_lex_transitive(a.1, b.1, c.1, 0);
    }
}

proof fn lemma_key_irreflexive(a: (Seq<char>, Seq<char>))
    ensures
        !key_lt(a, a),
{
    lemma_lex_asymmetric(a.0, a.0, 0);
    lemma_lex_asymmetric(a.1, a.1, 0);
}

/// Where an option goes among ordered ones: after every one it does not sort
/// before, so options with the same key keep their order.
fn insertion_point(ordered: &Vec<LookupOption>, option: &LookupOption) -> (position: usize)
    ensures
        position <= ordered@.len(),
        forall|q: int| 0 <= q < position ==> !key_lt(option_key(*option), option_key(#[trigger] ordered@[q])),
        position < ordered@.len() ==> key_lt(option_key(*option), option_key(ordered@[position as int])),
{
    let mut position: usize = 0;
    while position < ordered.len()
        invariant
            position <= ordered@.len(),
            forall|q: int| 0 <= q < position ==> !key_lt(option_key(*option), option_key(#[trigger] ordered@[q])),
        decreases ordered.len() - position,
    {
        if key_less(option, &ordered[position]) {
            return position;
        }
        position += 1;
    }
    position
}

fn key_less(a: &LookupOption, b: &LookupOption) -> (less: bool)
    ensures
        less == key_lt(option_key(*a), option_key(*b)),
{
    let a_label = chars_of(to_lowercase(a.label.as_str()).as_str());
    let b_label = chars_of(to_lowercase(b.label.as_str()).as_str());
    if lex_less(&a_label, &b_label) {
        return true;
    }
    if !same_chars(&a_label, &b_label) {
        return false;
    }
    let a_value = chars_of(a.value.as_str());
    let b_value = chars_of(b.value.as_str());
    lex_less(&a_value, &b_value)
}

/// Options in order of their label in lower case, then their value; options
/// with the same key keep their order.
pub fn sorted(options: Vec<LookupOption>) -> (ordered: Vec<LookupOption>)
    ensures
        ordered@.to_multiset() == options@.to_multiset(),
        ordered@.len() == options@.len(),
        forall|i: int| 0 <= i < ordered@.len() ==> options@.contains(#[trigger] ordered@[i]),
        forall|j: int| 0 <= j < options@.len() ==> ordered@.contains(#[trigger] options@[j]),
        in_order(ordered@),
{
    let mut ordered: Vec<LookupOption> = Vec::new();
    let mut remaining = options;
    let ghost original = remaining@;
    let count = remaining.len();
    let mut taken: usize = 0;
    assert(ordered@ =~= original.take(0));
    while remaining.len() > 0
        invariant
            original.len() == taken + remaining@.len(),
            original.len() == count,
            remaining@ == original.skip(taken as int),
            ordered@.to_multiset() == original.take(taken as int).to_multiset(),
            in_order(ordered@),
        decreases remaining.len(),
    {
        let option = remaining.remove(0);
        proof {
            assert(original.take(taken + 1) =~= original.take(taken as int).push(option));
            assert(remaining@ =~= original.skip(taken + 1));
            vstd::seq_lib::to_multiset_build(original.take(taken as int), option);
        }
        let position = insertion_point(&ordered, &option);
        let ghost before = ordered@;
        ordered.insert(position, option);
        proof {
            vstd::seq_lib::to_multiset_insert(before, position as int, option);
            assert forall|i: int, j: int| 0 <= i < j < ordered@.len() implies !key_lt(
                option_key(#[trigger] ordered@[j]),
                option_key(#[trigger] ordered@[i]),
            ) by {
                let p = position as int;
                if j < p {
                    assert(ordered@[i] == before[i] && ordered@[j] == before[j]);
                } else if j == p {
                    assert(ordered@[i] == before[i]);
                } else if i == p {
                    assert(ordered@[j] == before[j - 1]);
                    if key_lt(option_key(before[j - 1]), option_key(option)) {
                        lemma_key_transitive(option_key(before[j - 1]), option_key(option), option_key(before[p]));
                        lemma_key_irreflexive(option_key(before[p]));
                        assert(false);
                    }
                } else if i < p {
                    assert(ordered@[i] == before[i] && ordered@[j] == before[j - 1]);
                } else {
                    assert(ordered@[i] == before[i - 1] && ordered@[j] == before[j - 1]);
                }
            }
        }
        taken += 1;
    }
    assert(original.take(taken as int) =~= original);
    proof {
        vstd::seq_lib::to_multiset_len(ordered@);
        vstd::seq_lib::to_multiset_len(original);
        assert forall|i: int| 0 <= i < ordered@.len() implies original.contains(#[trigger] ordered@[i]) by {
            vstd::seq_lib::to_multiset_contains(ordered@, ordered@[i]);
            vstd::seq_lib::to_multiset_contains(original, ordered@[i]);
        }
        assert forall|j: int| 0 <= j < original.len() implies ordered@.contains(#[trigger] original[j]) by {
            vstd::seq_lib::to_multiset_contains(ordered@, original[j]);
            vstd::seq_lib::to_multiset_contains(original, original[j]);
        }
    }
    ordered
}

/// A choice of a picker taken by its plain values: value, label and group.
pub open spec fn choice_view(option: LookupOption) -> (Seq<char>, Seq<char>, Option<Seq<char>>) {
    (option.value@, option.label@, crate::text::option_view(option.group))
}

/// Whether some option is `choice`.
pub open spec fn offered(options: Seq<LookupOption>, choice: (Seq<char>, Seq<char>, Option<Seq<char>>)) -> bool {
    exists|i: int| 0 <= i < options.len() && #[trigger] choice_view(options[i]) == choice
}

/// The choices a filtered list holds are exactly `choices`, as many as
/// there are, in picker order.
pub open spec fn offers(options: Seq<LookupOption>, choices: Seq<(Seq<char>, Seq<char>, Option<Seq<char>>)>) -> bool {
    &&& options.len() == choices.len()
    &&& forall|i: int| 0 <= i < options.len() ==> choices.contains(choice_view(#[trigger] options[i]))
    &&& forall|j: int| 0 <= j < choices.len() ==> offered(options, #[trigger] choices[j])
    &&& in_order(options)
}

proof fn lemma_sorted_offers(
    found: Seq<LookupOption>,
    ordered: Seq<LookupOption>,
    choices: Seq<(Seq<char>, Seq<char>, Option<Seq<char>>)>,
)
    requires
        found.map_values(|o: LookupOption| choice_view(o)) == choices,
        ordered.len() == found.len(),
        forall|i: int| 0 <= i < ordered.len() ==> found.contains(#[trigger] ordered[i]),
        forall|j: int| 0 <= j < found.len() ==> ordered.contains(#[trigger] found[j]),
        in_order(ordered),
    ensures
        offers(ordered, choices),
{
    assert forall|i: int| 0 <= i < ordered.len() implies choices.contains(choice_view(#[trigger] ordered[i])) by {
        let j = choose|j: int| 0 <= j < found.len() && found[j] == ordered[i];
        assert(choices[j] == choice_view(found[j]));
    }
    assert forall|j: int| 0 <= j < choices.len() implies offered(ordered, #[trigger] choices[j]) by {
        assert(ordered.contains(found[j]));
        let i = choose|i: int| 0 <= i < ordered.len() && ordered[i] == found[j];
        assert(choice_view(ordered[i]) == choices[j]);
    }
    assert(choices.len() == found.len());
}

/// The guilds a query matches, as choices, in the state's order.
pub open spec fn guild_choices(guilds: Seq<(String, String)>, query: Seq<char>) -> Seq<(Seq<char>, Seq<char>, Option<Seq<char>>)>
    decreases guilds.len(),
{
    if guilds.len() == 0 {
        seq![]
    } else {
        let rest = guild_choices(guilds.drop_last(), query);
        let (id, name) = guilds.last();
        if query_matches_spec(query, name@, id@) {
            rest.push((id@, name@, None))
        } else {
            rest
        }
    }
}

/// Every guild the bot is in whose name or id the query matches.
pub fn guild_options(state: &DiscordState, query: &str) -> (options: Vec<LookupOption>)
    ensures
        offers(options@, guild_choices(state.guilds@, query@)),
{
    let mut found: Vec<LookupOption> = Vec::new();
    let mut i: usize = 0;
    while i < state.guilds.len()
        invariant
            i <= state.guilds@.len(),
            found@.map_values(|o: LookupOption| choice_view(o)) == guild_choices(state.guilds@.take(i as int), query@),
        decreases state.guilds.len() - i,
    {
        let ghost before = found@;
        assert(state.guilds@.take(i + 1).drop_last() =~= state.guilds@.take(i as int));
        let (id, name) = &state.guilds[i];
        if query_matches(query, name.as_str(), id.as_str()) {
            found.push(LookupOption::new(id.clone(), name.clone()));
            assert(found@.map_values(|o: LookupOption| choice_view(o)) =~= before.map_values(|o: LookupOption| choice_view(o)).push((id@, name@, None)));
        }
        i += 1;
    }
    assert(state.guilds@.take(i as int) =~= state.guilds@);
    let ordered = sorted(found);
    proof {
        lemma_sorted_offers(found@, ordered@, guild_choices(state.guilds@, query@));
    }
    ordered
}


/// The voice and stage channels a query matches, as choices filed under
/// "Stage" or "Voice", in the state's order.
pub open spec fn channel_choices(channels: Seq<(String, DiscordChannel)>, query: Seq<char>) -> Seq<(Seq<char>, Seq<char>, Option<Seq<char>>)>
    decreases channels.len(),
{
    if channels.len() == 0 {
        seq![]
    } else {
        let rest = channel_choices(channels.drop_last(), query);
        let (id, channel) = channels.last();
        if (channel.kind == GUILD_VOICE || channel.kind == GUILD_STAGE) && query_matches_spec(
            query,
            channel.name@,
            id@,
        ) {
            rest.push(
                (
                    id@,
                    channel.name@,
                    Some(
                        if channel.kind == GUILD_STAGE {
                            "Stage"@
                        } else {
                            "Voice"@
                        },
                    ),
                ),
            )
        } else {
            rest
        }
    }
}

/// Every voice or stage channel whose name or id the query matches.
pub fn channel_options(state: &DiscordState, query: &str) -> (options: Vec<LookupOption>)
    ensures
        offers(options@, channel_choices(state.channels@, query@)),
{
    let mut found: Vec<LookupOption> = Vec::new();
    let mut i: usize = 0;
    while i < state.channels.len()
        invariant
            i <= state.channels@.len(),
            found@.map_values(|o: LookupOption| choice_view(o)) == channel_choices(state.channels@.take(i as int), query@),
        decreases state.channels.len() - i,
    {
        let ghost before = found@;
        assert(state.channels@.take(i + 1).drop_last() =~= state.channels@.take(i as int));
        let (id, channel) = &state.channels[i];
        if channel.is_voice() && query_matches(query, channel.name.as_str(), id.as_str()) {
            let group = if channel.kind == GUILD_STAGE {
                "Stage"
            } else {
                "Voice"
            };
            found.push(LookupOption::new(id.clone(), channel.name.clone()).group(group));
            assert(found@.map_values(|o: LookupOption| choice_view(o)) =~= before.map_values(|o: LookupOption| choice_view(o)).push((id@, channel.name@, Some(group@))));
        }
        i += 1;
    }
    assert(state.channels@.take(i as int) =~= state.channels@);
    let ordered = sorted(found);
    proof {
        lemma_sorted_offers(found@, ordered@, channel_choices(state.channels@, query@));
    }
    ordered
}

/// The members a query matches by name or id, as choices, in the state's
/// order.
pub open spec fn member_choices(users: Seq<(String, DiscordUser)>, query: Seq<char>) -> Seq<(Seq<char>, Seq<char>, Option<Seq<char>>)>
    decreases users.len(),
{
    if users.len() == 0 {
        seq![]
    } else {
        let rest = member_choices(users.drop_last(), query);
        let user = users.last().1;
        if query_matches_spec(query, user.name@, user.id@) {
            rest.push((user.id@, user.name@, None))
        } else {
            rest
        }
    }
}

/// Every member whose name or id the query matches.
pub fn member_options(state: &DiscordState, query: &str) -> (options: Vec<LookupOption>)
    ensures
        offers(options@, member_choices(state.users@, query@)),
{
    let mut found: Vec<LookupOption> = Vec::new();
    let mut i: usize = 0;
    while i < state.users.len()
        invariant
            i <= state.users@.len(),
            found@.map_values(|o: LookupOption| choice_view(o)) == member_choices(state.users@.take(i as int), query@),
        decreases state.users.len() - i,
    {
        let ghost before = found@;
        assert(state.users@.take(i + 1).drop_last() =~= state.users@.take(i as int));
        let user = &state.users[i].1;
        if query_matches(query, user.name.as_str(), user.id.as_str()) {
            found.push(LookupOption::new(user.id.clone(), user.name.clone()));
            assert(found@.map_values(|o: LookupOption| choice_view(o)) =~= before.map_values(|o: LookupOption| choice_view(o)).push((user.id@, user.name@, None)));
        }
        i += 1;
    }
    assert(state.users@.take(i as int) =~= state.users@);
    let ordered = sorted(found);
    proof {
        lemma_sorted_offers(found@, ordered@, member_choices(state.users@, query@));
    }
    ordered
}


/// A white label on the slate key background.
pub open spec fn is_label_state(state: RenderedState, text: Seq<char>) -> bool {
    &&& state.text matches Some(t) && t@ == text
    &&& state.image is None
    &&& state.overlay_image is None
    &&& state.image_tint is None
    &&& state.bar is None
    &&& state.foreground_color == Some(
        ColorBinding::Literal(RgbaColor { red: 255, green: 255, blue: 255, alpha: 255 }),
    )
    &&& state.background_color == Some(
        ColorBinding::Literal(RgbaColor { red: 30, green: 41, blue: 59, alpha: 255 }),
    )
    &&& state.border is None
    &&& !state.is_pressed
}

/// A readout of the selected channel.
pub open spec fn is_channel_preset(preset: Preset, preset_id: Seq<char>, name: Seq<char>, text: Seq<char>) -> bool {
    &&& preset.preset_id@ == preset_id
    &&& preset.category@ == "Channel"@
    &&& preset.name@ == name
    &&& preset.description is None
    &&& preset.control.name@ == name
    &&& is_label_state(preset.control.default_state, text)
    &&& preset.control.pressed_state is None
    &&& preset.control.action_bindings@.len() == 0
}

/// A readout of the selected channel.
pub fn channel_preset(preset_id: &str, name: &str, text: &str) -> (preset: Preset)
    ensures
        is_channel_preset(preset, preset_id@, name@, text@),
{
    Preset {
        preset_id: owned(preset_id),
        category: owned("Channel"),
        name: owned(name),
        description: None,
        control: ControlTemplate {
            name: owned(name),
            default_state: RenderedState::labelled(
                text,
                RgbaColor::opaque(255, 255, 255),
                RgbaColor::opaque(30, 41, 59),
                false,
            ),
            pressed_state: None,
            action_bindings: Vec::new(),
        },
    }
}

/// `$(self:channel_members_<index><suffix>)`.
pub open spec fn member_value(index: nat, suffix: Seq<char>) -> Seq<char> {
    "$(self:channel_members_"@ + decimal(index) + suffix + ")"@
}

/// The key for member slot `index`: their name over their avatar, with a
/// badge and an outline that show a mute or a deafen.
pub open spec fn is_member_preset(preset: Preset, index: nat) -> bool {
    let slot = decimal(index + 1);
    let state = preset.control.default_state;
    &&& preset.preset_id@ == "member-"@ + decimal(index)
    &&& preset.category@ == "Members"@
    &&& preset.name@ == "Member "@ + slot
    &&& preset.description matches Some(d) && d@
        == "Avatar, name, and a badge and outline for muted or deafened."@
    &&& preset.control.name@ == "Member "@ + slot
    &&& state.text matches Some(t) && t@ == member_value(index, ""@)
    &&& state.image matches Some(i) && i@ == member_value(index, "_avatar"@)
    &&& state.overlay_image matches Some(o) && o.image@ == member_value(index, "_status_icon"@)
        && o.anchor == Anchor9::BottomEnd && o.scale_percent == 32 && o.tint is None
    &&& state.image_tint is None
    &&& state.bar is None
    &&& state.foreground_color == Some(
        ColorBinding::Literal(RgbaColor { red: 255, green: 255, blue: 255, alpha: 255 }),
    )
    &&& state.background_color == Some(
        ColorBinding::Literal(RgbaColor { red: 30, green: 41, blue: 59, alpha: 255 }),
    )
    &&& state.border matches Some(b) && b.width == 5 && (b.color matches ColorBinding::Reference(r)
        && r@ == member_value(index, "_status_color"@))
    &&& !state.is_pressed
    &&& preset.control.pressed_state is None
    &&& preset.control.action_bindings@.len() == 0
}

/// The key that server-mutes member slot `index`.
pub open spec fn is_mute_preset(preset: Preset, index: nat) -> bool {
    let slot = decimal(index + 1);
    &&& preset.preset_id@ == "mute-member-"@ + decimal(index)
    &&& preset.category@ == "Member actions"@
    &&& preset.name@ == "Server-mute member "@ + slot
    &&& preset.description is None
    &&& preset.control.name@ == "Mute member "@ + slot
    &&& is_label_state(preset.control.default_state, "Mute\n"@ + member_value(index, ""@))
    &&& preset.control.pressed_state is None
    &&& preset.control.action_bindings@.len() == 1
    &&& preset.control.action_bindings@[0].gesture == ActionTrigger::Press
    &&& preset.control.action_bindings@[0].actions@.len() == 1
    &&& preset.control.action_bindings@[0].actions@[0] matches Action::InvokeIntegration {
        integration_id,
        action_name,
        parameters,
    } && integration_id@ == "self"@ && action_name@ == "mute_member"@ && (parameters matches JsonValue::Object(
        fields,
    ) && fields@.len() == 2 && fields@[0].0@ == "user_id"@ && (fields@[0].1 matches JsonValue::Text(
        t,
    ) && t@ == member_value(index, "_id"@)) && fields@[1].0@ == "mute"@ && fields@[1].1
        == JsonValue::Bool(true))
}

fn member_value_text(index: &String, suffix: &str) -> (text: String)
    ensures
        text@ == "$(self:channel_members_"@ + index@ + suffix@ + ")"@,
{
    let mut text = owned("$(self:channel_members_");
    text.push_str(index.as_str());
    text.push_str(suffix);
    text.push_str(")");
    text
}

fn member_preset(index: usize) -> (preset: Preset)
    requires
        index < usize::MAX,
    ensures
        is_member_preset(preset, index as nat),
{
    let number = decimal_text(index as u64);
    let slot = decimal_text((index + 1) as u64);
    let mut preset_id = owned("member-");
    preset_id.push_str(number.as_str());
    let mut name = owned("Member ");
    name.push_str(slot.as_str());
    let default_state = RenderedState {
        text: Some(member_value_text(&number, "")),
        image: Some(AssetId(member_value_text(&number, "_avatar"))),
        image_tint: None,
        overlay_image: Some(
            OverlayImage {
                image: AssetId(member_value_text(&number, "_status_icon")),
                anchor: Anchor9::BottomEnd,
                scale_percent: 32,
                tint: None,
            },
        ),
        foreground_color: Some(ColorBinding::Literal(RgbaColor::opaque(255, 255, 255))),
        background_color: Some(ColorBinding::Literal(RgbaColor::opaque(30, 41, 59))),
        border: Some(
            Border {
                color: ColorBinding::Reference(member_value_text(&number, "_status_color")),
                width: 5,
            },
        ),
        bar: None,
        is_pressed: false,
    };
    Preset {
        preset_id,
        category: owned("Members"),
        name: name.clone(),
        description: Some(owned("Avatar, name, and a badge and outline for muted or deafened.")),
        control: ControlTemplate {
            name,
            default_state,
            pressed_state: None,
            action_bindings: Vec::new(),
        },
    }
}

fn mute_preset(index: usize) -> (preset: Preset)
    requires
        index < usize::MAX,
    ensures
        is_mute_preset(preset, index as nat),
{
    let number = decimal_text(index as u64);
    let slot = decimal_text((index + 1) as u64);
    let mut preset_id = owned("mute-member-");
    preset_id.push_str(number.as_str());
    let mut name = owned("Server-mute member ");
    name.push_str(slot.as_str());
    let mut control_name = owned("Mute member ");
    control_name.push_str(slot.as_str());
    let mut label = owned("Mute\n");
    let value = member_value_text(&number, "");
    label.push_str(value.as_str());
    let parameters = JsonValue::Object(
        vec![
            member("user_id", JsonValue::Text(member_value_text(&number, "_id"))),
            member("mute", JsonValue::Bool(true)),
        ],
    );
    Preset {
        preset_id,
        category: owned("Member actions"),
        name,
        description: None,
        control: ControlTemplate {
            name: control_name,
            default_state: RenderedState::labelled(
                label.as_str(),
                RgbaColor::opaque(255, 255, 255),
                RgbaColor::opaque(30, 41, 59),
                false,
            ),
            pressed_state: None,
            action_bindings: vec![
                ActionBinding {
                    gesture: ActionTrigger::Press,
                    actions: vec![
                        Action::InvokeIntegration {
                            integration_id: IntegrationId(owned("self")),
                            action_name: owned("mute_member"),
                            parameters,
                        },
                    ],
                },
            ],
        },
    }
}

/// One ready-made key per member slot and a mute key beside it, after the two
/// channel readouts. The slots are what `max_members` says, so the picker
/// does not change every time somebody speaks.
pub fn presets(settings: &DiscordConfig) -> (presets: Vec<Preset>)
    requires
        settings.max_members <= (usize::MAX - 2) / 2,
    ensures
        presets@.len() == 2 + 2 * settings.max_members,
        is_channel_preset(presets@[0], "channel-name"@, "Channel name"@, "$(self:channel_name)"@),
        is_channel_preset(presets@[1], "member-count"@, "Members in channel"@, "$(self:member_count)"@),
        forall|index: int|
            0 <= index < settings.max_members ==> is_member_preset(#[trigger] presets@[2 + 2 * index], index as nat)
                && is_mute_preset(presets@[3 + 2 * index], index as nat),
{
    let mut presets = vec![
        channel_preset("channel-name", "Channel name", "$(self:channel_name)"),
        channel_preset("member-count", "Members in channel", "$(self:member_count)"),
    ];
    let mut index: usize = 0;
    while index < settings.max_members
        invariant
            settings.max_members <= (usize::MAX - 2) / 2,
            index <= settings.max_members,
            presets@.len() == 2 + 2 * index,
            is_channel_preset(presets@[0], "channel-name"@, "Channel name"@, "$(self:channel_name)"@),
            is_channel_preset(presets@[1], "member-count"@, "Members in channel"@, "$(self:member_count)"@),
            forall|k: int|
                0 <= k < index ==> is_member_preset(#[trigger] presets@[2 + 2 * k], k as nat) && is_mute_preset(
                    presets@[3 + 2 * k],
                    k as nat,
                ),
        decreases settings.max_members - index,
    {
        let ghost before = presets@;
        presets.push(member_preset(index));
        presets.push(mute_preset(index));
        proof {
            assert forall|k: int| 0 <= k < index + 1 implies is_member_preset(
                #[trigger] presets@[2 + 2 * k],
                k as nat,
            ) && is_mute_preset(presets@[3 + 2 * k], k as nat) by {
                if k < index {
                    assert(presets@[2 + 2 * k] == before[2 + 2 * k]);
                    assert(presets@[3 + 2 * k] == before[3 + 2 * k]);
                }
            }
        }
        index += 1;
    }
    presets
}


/// The values the integration publishes, in order.
pub open spec fn discord_variables(variables: Seq<VariableDefinition>) -> bool {
    &&& variables.len() == 15
    &&& variables[0].name@ == "channel_id"@ && variables[0].label@ == "channel_id"@ && variables[0].kind == VariableKind::Text && variables[0].description is None
    &&& variables[1].name@ == "channel_name"@ && variables[1].label@ == "channel_name"@ && variables[1].kind == VariableKind::Text && variables[1].description is None
    &&& variables[2].name@ == "channel_source"@ && variables[2].label@ == "channel_source"@ && variables[2].kind == VariableKind::Text && (variables[2].description matches Some(d) && d@ == "Which setting chose the channel: followed, fallback or none."@)
    &&& variables[3].name@ == "member_count"@ && variables[3].label@ == "member_count"@ && variables[3].kind == VariableKind::Number && variables[3].description is None
    &&& variables[4].name@ == "channel_members_<index>"@ && variables[4].label@ == "channel_members_<index>"@ && variables[4].kind == VariableKind::Text && (variables[4].description matches Some(d) && d@ == "Display name of a member in the selected voice channel."@)
    &&& variables[5].name@ == "channel_members_<index>_id"@ && variables[5].label@ == "channel_members_<index>_id"@ && variables[5].kind == VariableKind::Text && (variables[5].description matches Some(d) && d@ == "Discord user ID of a member in the selected voice channel."@)
    &&& variables[6].name@ == "channel_members_<index>_avatar"@ && variables[6].label@ == "channel_members_<index>_avatar"@ && variables[6].kind == VariableKind::Text && (variables[6].description matches Some(d) && d@ == "Discord avatar CDN URL for a member in the selected voice channel."@)
    &&& variables[7].name@ == "channel_members_<index>_image"@ && variables[7].label@ == "channel_members_<index>_image"@ && variables[7].kind == VariableKind::Image && (variables[7].description matches Some(d) && d@ == "Cached profile image for a member in the selected voice channel."@)
    &&& variables[8].name@ == "channel_members_<index>_muted"@ && variables[8].label@ == "channel_members_<index>_muted"@ && variables[8].kind == VariableKind::Boolean && (variables[8].description matches Some(d) && d@ == "Whether the member's microphone is muted, by themselves or by the server."@)
    &&& variables[9].name@ == "channel_members_<index>_deafened"@ && variables[9].label@ == "channel_members_<index>_deafened"@ && variables[9].kind == VariableKind::Boolean && (variables[9].description matches Some(d) && d@ == "Whether the member is deafened, by themselves or by the server."@)
    &&& variables[10].name@ == "channel_members_<index>_server_muted"@ && variables[10].label@ == "channel_members_<index>_server_muted"@ && variables[10].kind == VariableKind::Boolean && (variables[10].description matches Some(d) && d@ == "Whether the member was muted by the server rather than by themselves."@)
    &&& variables[11].name@ == "channel_members_<index>_streaming"@ && variables[11].label@ == "channel_members_<index>_streaming"@ && variables[11].kind == VariableKind::Boolean && (variables[11].description matches Some(d) && d@ == "Whether the member is sharing their screen."@)
    &&& variables[12].name@ == "channel_members_<index>_video"@ && variables[12].label@ == "channel_members_<index>_video"@ && variables[12].kind == VariableKind::Boolean && (variables[12].description matches Some(d) && d@ == "Whether the member's camera is on."@)
    &&& variables[13].name@ == "channel_members_<index>_status_icon"@ && variables[13].label@ == "channel_members_<index>_status_icon"@ && variables[13].kind == VariableKind::Image && (variables[13].description matches Some(d) && d@ == "Mute or deafen badge for a member, for a control's overlay image."@)
    &&& variables[14].name@ == "channel_members_<index>_status_color"@ && variables[14].label@ == "channel_members_<index>_status_color"@ && variables[14].kind == VariableKind::Text && (variables[14].description matches Some(d) && d@ == "Border colour for a member's status, empty when there is nothing to show."@)
}

fn discord_variable_definitions() -> (variables: Vec<VariableDefinition>)
    ensures
        discord_variables(variables@),
{
    vec![
        VariableDefinition::new("channel_id", VariableKind::Text),
        VariableDefinition::new("channel_name", VariableKind::Text),
        VariableDefinition::new("channel_source", VariableKind::Text).description(
            "Which setting chose the channel: followed, fallback or none.",
        ),
        VariableDefinition::new("member_count", VariableKind::Number),
        VariableDefinition::new("channel_members_<index>", VariableKind::Text).description(
            "Display name of a member in the selected voice channel.",
        ),
        VariableDefinition::new("channel_members_<index>_id", VariableKind::Text).description(
            "Discord user ID of a member in the selected voice channel.",
        ),
        VariableDefinition::new("channel_members_<index>_avatar", VariableKind::Text).description(
            "Discord avatar CDN URL for a member in the selected voice channel.",
        ),
        VariableDefinition::new("channel_members_<index>_image", VariableKind::Image).description(
            "Cached profile image for a member in the selected voice channel.",
        ),
        VariableDefinition::new("channel_members_<index>_muted", VariableKind::Boolean).description(
            "Whether the member's microphone is muted, by themselves or by the server.",
        ),
        VariableDefinition::new("channel_members_<index>_deafened", VariableKind::Boolean).description(
            "Whether the member is deafened, by themselves or by the server.",
        ),
        VariableDefinition::new("channel_members_<index>_server_muted", VariableKind::Boolean).description(
            "Whether the member was muted by the server rather than by themselves.",
        ),
        VariableDefinition::new("channel_members_<index>_streaming", VariableKind::Boolean).description(
            "Whether the member is sharing their screen.",
        ),
        VariableDefinition::new("channel_members_<index>_video", VariableKind::Boolean).description(
            "Whether the member's camera is on.",
        ),
        VariableDefinition::new("channel_members_<index>_status_icon", VariableKind::Image).description(
            "Mute or deafen badge for a member, for a control's overlay image.",
        ),
        VariableDefinition::new("channel_members_<index>_status_color", VariableKind::Text).description(
            "Border colour for a member's status, empty when there is nothing to show.",
        ),
    ]
}

/// The integration's manifest: a bot token, the guild, an optional fallback
/// channel and followed user, the number of members to publish; actions to
/// mute, deafen and disconnect a member; and the values it publishes.
pub fn manifest() -> (manifest: PluginManifest)
    ensures
        manifest.plugin_type@ == "discord"@,
        manifest.display_name@ == "Discord"@,
        manifest.description@
            == "Track members in a Discord voice channel and control guild voice state."@,
        manifest.config_schema@.len() == 5,
        field_is(
            manifest.config_schema@[0],
            "token"@,
            "Bot token"@,
            true,
            None,
            Some("A Discord bot token. Never use a normal user token."@),
        ),
        manifest.config_schema@[0].kind is Secret,
        field_is(manifest.config_schema@[1], "guild_id"@, "Guild"@, true, None, None),
        manifest.config_schema@[1].kind matches ConfigFieldKind::Lookup { source } && source@ == GUILD_LOOKUP@,
        field_is(
            manifest.config_schema@[2],
            "channel_id"@,
            "Fallback voice channel"@,
            false,
            None,
            Some("Shown when the followed user is not in voice. Required on its own if no user is followed."@),
        ),
        manifest.config_schema@[2].kind matches ConfigFieldKind::Lookup { source } && source@ == CHANNEL_LOOKUP@,
        field_is(
            manifest.config_schema@[3],
            "user_id"@,
            "Followed user"@,
            false,
            None,
            Some("The voice channel containing this user takes priority over the fallback channel."@),
        ),
        manifest.config_schema@[3].kind matches ConfigFieldKind::Lookup { source } && source@ == MEMBER_LOOKUP@,
        field_is(manifest.config_schema@[4], "max_members"@, "Members to publish"@, false, Some("4"@), None),
        manifest.config_schema@[4].kind is Number,
        manifest.actions@.len() == 3,
        manifest.actions@[0].name@ == "mute_member"@,
        manifest.actions@[0].label@ == "Mute member"@,
        manifest.actions@[0].parameters@.len() == 2,
        field_is(manifest.actions@[0].parameters@[0], "user_id"@, "User ID"@, true, None, None),
        manifest.actions@[0].parameters@[0].kind is Text,
        field_is(manifest.actions@[0].parameters@[1], "mute"@, "Muted"@, true, None, None),
        manifest.actions@[0].parameters@[1].kind is Boolean,
        manifest.actions@[1].name@ == "deafen_member"@,
        manifest.actions@[1].label@ == "Deafen member"@,
        manifest.actions@[1].parameters@.len() == 2,
        field_is(manifest.actions@[1].parameters@[0], "user_id"@, "User ID"@, true, None, None),
        manifest.actions@[1].parameters@[0].kind is Text,
        field_is(manifest.actions@[1].parameters@[1], "deaf"@, "Deafened"@, true, None, None),
        manifest.actions@[1].parameters@[1].kind is Boolean,
        manifest.actions@[2].name@ == "disconnect_member"@,
        manifest.actions@[2].label@ == "Disconnect member"@,
        manifest.actions@[2].parameters@.len() == 1,
        field_is(manifest.actions@[2].parameters@[0], "user_id"@, "User ID"@, true, None, None),
        manifest.actions@[2].parameters@[0].kind is Text,
        forall|i: int| 0 <= i < 3 ==> (#[trigger] manifest.actions@[i]).description is None,
        discord_variables(manifest.variables@),
{
    PluginManifest {
        plugin_type: "discord",
        display_name: "Discord",
        description: "Track members in a Discord voice channel and control guild voice state.",
        config_schema: vec![
            ConfigField::secret("token").label("Bot token").required().help(
                "A Discord bot token. Never use a normal user token.",
            ),
            ConfigField::lookup("guild_id", GUILD_LOOKUP).label("Guild").required(),
            ConfigField::lookup("channel_id", CHANNEL_LOOKUP).label("Fallback voice channel").help(
                "Shown when the followed user is not in voice. Required on its own if no user is followed.",
            ),
            ConfigField::lookup("user_id", MEMBER_LOOKUP).label("Followed user").help(
                "The voice channel containing this user takes priority over the fallback channel.",
            ),
            ConfigField::number("max_members").label("Members to publish").placeholder("4"),
        ],
        actions: vec![
            ActionDefinition::new("mute_member").label("Mute member").parameters(
                vec![
                    ConfigField::text("user_id").label("User ID").required(),
                    ConfigField::boolean("mute").label("Muted").required(),
                ],
            ),
            ActionDefinition::new("deafen_member").label("Deafen member").parameters(
                vec![
                    ConfigField::text("user_id").label("User ID").required(),
                    ConfigField::boolean("deaf").label("Deafened").required(),
                ],
            ),
            ActionDefinition::new("disconnect_member").label("Disconnect member").parameters(
                vec![ConfigField::text("user_id").label("User ID").required()],
            ),
        ],
        variables: discord_variable_definitions(),
    }
}

} // verus!
