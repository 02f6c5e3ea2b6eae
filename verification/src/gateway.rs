//! How the Discord gateway's events change what an instance knows: the
//! guilds, channels and members it has seen and where each member is by
//! voice.

use vstd::prelude::*;
use crate::discord::{
    avatar_index, avatar_index_spec, followed_channel, selected_channel_spec, DiscordChannel, DiscordState, DiscordUser,
    VoiceState,
};
use crate::json::{count_of, field, flag_of, get, get_count, get_flag, get_items, get_text, items_of, text_of};
use crate::keyed::{ids_unique, keyed, lemma_keyed_at, lemma_keyed_dom, put, take_out};
use crate::panels::JsonValue;
use crate::text::{decimal, decimal_text, owned, str_eq};

verus! {

/// A member as the plugin keeps them: id, name and avatar address.
pub open spec fn user_record(id: Seq<char>, name: Seq<char>, avatar: Seq<char>) -> (Seq<char>, Seq<char>, Seq<char>) {
    (id, name, avatar)
}

/// The name a member is shown by: their nickname in the guild, else their
/// global name, else their user name, else their id.
pub open spec fn display_name(id: Seq<char>, member: JsonValue, user: JsonValue) -> Seq<char> {
    match text_of(field(member, "nick"@)) {
        Some(name) => name,
        None => match text_of(field(user, "global_name"@)) {
            Some(name) => name,
            None => match text_of(field(user, "username"@)) {
                Some(name) => name,
                None => id,
            },
        },
    }
}

/// Where a member's avatar is: their own when they have one, else the
/// default avatar their id picks.
pub open spec fn avatar_url(id: Seq<char>, user: JsonValue) -> Seq<char> {
    match text_of(field(user, "avatar"@)) {
        Some(hash) => "https://cdn.discordapp.com/avatars/"@ + id + "/"@ + hash + ".png?size=128"@,
        None => "https://cdn.discordapp.com/embed/avatars/"@ + decimal(avatar_index_spec(id) as nat)
            + ".png"@,
    }
}

/// What a member document records, when it names a user with an id: that id
/// and the member as the plugin keeps them.
pub open spec fn member_record(member: JsonValue) -> Option<(Seq<char>, (Seq<char>, Seq<char>, Seq<char>))> {
    match field(member, "user"@) {
        Some(user) => match text_of(field(user, "id"@)) {
            Some(id) => Some((id, (id, display_name(id, member, user), avatar_url(id, user)))),
            None => None,
        },
        None => None,
    }
}

/// The members after a member document: the member it records put in place
/// of what was known of them.
pub open spec fn member_applied(
    users: Map<Seq<char>, (Seq<char>, Seq<char>, Seq<char>)>,
    member: JsonValue,
) -> Map<Seq<char>, (Seq<char>, Seq<char>, Seq<char>)> {
    match member_record(member) {
        Some((id, user)) => users.insert(id, user),
        None => users,
    }
}

/// Where a voice state document puts its member, when it names a channel.
pub open spec fn voice_record(data: JsonValue) -> Option<(Option<Seq<char>>, bool, bool, bool, bool, bool, bool)> {
    match text_of(field(data, "channel_id"@)) {
        Some(channel) => Some(
            (
                Some(channel),
                flag_of(field(data, "mute"@)),
                flag_of(field(data, "deaf"@)),
                flag_of(field(data, "self_mute"@)),
                flag_of(field(data, "self_deaf"@)),
                flag_of(field(data, "self_stream"@)),
                flag_of(field(data, "self_video"@)),
            ),
        ),
        None => None,
    }
}

/// The members and voice states after a voice state document: a document
/// without a user changes nothing; one with a member records that member; a
/// member who joined a channel is put there, and one whose channel is empty
/// has left voice and is dropped.
pub open spec fn state_applied(
    users: Map<Seq<char>, (Seq<char>, Seq<char>, Seq<char>)>,
    voices: Map<Seq<char>, (Option<Seq<char>>, bool, bool, bool, bool, bool, bool)>,
    data: JsonValue,
) -> (Map<Seq<char>, (Seq<char>, Seq<char>, Seq<char>)>, Map<Seq<char>, (Option<Seq<char>>, bool, bool, bool, bool, bool, bool)>) {
    match text_of(field(data, "user_id"@)) {
        None => (users, voices),
        Some(user_id) => {
            let users = match field(data, "member"@) {
                Some(member) => member_applied(users, member),
                None => users,
            };
            match voice_record(data) {
                Some(voice) => (users, voices.insert(user_id, voice)),
                None => (users, voices.remove(user_id)),
            }
        },
    }
}

/// A member as the plugin keeps them, from the member document and its user.
pub fn user_from_json(id: &str, member: &JsonValue, user: &JsonValue) -> (found: DiscordUser)
    ensures
        found@ == user_record(id@, display_name(id@, *member, *user), avatar_url(id@, *user)),
{
    let name = match get_text(member, "nick") {
        Some(name) => name.clone(),
        None => match get_text(user, "global_name") {
            Some(name) => name.clone(),
            None => match get_text(user, "username") {
                Some(name) => name.clone(),
                None => owned(id),
            },
        },
    };
    let avatar = match get_text(user, "avatar") {
        Some(hash) => {
            let mut url = owned("https://cdn.discordapp.com/avatars/");
            url.push_str(id);
            url.push_str("/");
            url.push_str(hash.as_str());
            url.push_str(".png?size=128");
            url
        },
        None => {
            let mut url = owned("https://cdn.discordapp.com/embed/avatars/");
            let index = decimal_text(avatar_index(id));
            url.push_str(index.as_str());
            url.push_str(".png");
            url
        },
    };
    DiscordUser { id: owned(id), name, avatar }
}

/// Lists a member under their id, in place of what was known of them.
fn record_user(state: &mut DiscordState, id: &str, user: DiscordUser)
    requires
        old(state).wf(),
    ensures
        final(state).wf(),
        final(state).user_map() == old(state).user_map().insert(id@, user@),
        final(state).guilds@ == old(state).guilds@,
        final(state).channels@ == old(state).channels@,
        final(state).voice_states@ == old(state).voice_states@,
{
    let ghost before = keyed(state.users@);
    put(&mut state.users, owned(id), user);
    proof {
        assert(keyed(state.users@).map_values(|user: DiscordUser| user@) =~= before.map_values(
            |user: DiscordUser| user@,
        ).insert(id@, user@));
    }
}

/// Records the member a member document names.
pub fn update_member(state: &mut DiscordState, member: &JsonValue)
    requires
        old(state).wf(),
    ensures
        final(state).wf(),
        final(state).user_map() == member_applied(old(state).user_map(), *member),
        final(state).guilds@ == old(state).guilds@,
        final(state).channels@ == old(state).channels@,
        final(state).voice_states@ == old(state).voice_states@,
{
    let user = match get(member, "user") {
        Some(user) => user,
        None => return,
    };
    let user_id = match get_text(user, "id") {
        Some(id) => id,
        None => return,
    };
    let found = user_from_json(user_id.as_str(), member, user);
    record_user(state, user_id.as_str(), found);
}

/// Records a voice state document: its member, if it carries one, and where
/// its user now is by voice.
pub fn update_state(state: &mut DiscordState, data: &JsonValue)
    requires
        old(state).wf(),
    ensures
        final(state).wf(),
        (final(state).user_map(), final(state).voice_map()) == state_applied(
            old(state).user_map(),
            old(state).voice_map(),
            *data,
        ),
        final(state).guilds@ == old(state).guilds@,
        final(state).channels@ == old(state).channels@,
{
    let user_id = match get_text(data, "user_id") {
        Some(id) => id,
        None => return,
    };
    match get(data, "member") {
        Some(member) => update_member(state, member),
        None => {},
    }
    let ghost before = keyed(state.voice_states@);
    match get_text(data, "channel_id") {
        None => {
            take_out(&mut state.voice_states, user_id.as_str());
            proof {
                assert(keyed(state.voice_states@).map_values(|voice: VoiceState| voice@)
                    =~= before.map_values(|voice: VoiceState| voice@).remove(user_id@));
            }
        },
        Some(channel) => {
            let voice = VoiceState {
                channel_id: Some(channel.clone()),
                is_server_muted: get_flag(data, "mute"),
                is_server_deafened: get_flag(data, "deaf"),
                is_self_muted: get_flag(data, "self_mute"),
                is_self_deafened: get_flag(data, "self_deaf"),
                is_streaming: get_flag(data, "self_stream"),
                is_video_on: get_flag(data, "self_video"),
            };
            let ghost recorded = voice@;
            put(&mut state.voice_states, user_id.clone(), voice);
            proof {
                assert(keyed(state.voice_states@).map_values(|voice: VoiceState| voice@)
                    =~= before.map_values(|voice: VoiceState| voice@).insert(user_id@, recorded));
            }
        },
    }
}

/// The channel a channel document records, when it has an id and a name; a
/// kind that is not a number reads as zero.
pub open spec fn channel_record(item: JsonValue) -> Option<(Seq<char>, (Seq<char>, u64))> {
    match (text_of(field(item, "id"@)), text_of(field(item, "name"@))) {
        (Some(id), Some(name)) => Some((id, (name, count_of(field(item, "type"@))))),
        _ => None,
    }
}

/// The channels after channel documents, one after the other.
pub open spec fn channels_applied(
    channels: Map<Seq<char>, (Seq<char>, u64)>,
    items: Seq<JsonValue>,
) -> Map<Seq<char>, (Seq<char>, u64)>
    decreases items.len(),
{
    if items.len() == 0 {
        channels
    } else {
        let before = channels_applied(channels, items.drop_last());
        match channel_record(items.last()) {
            Some((id, channel)) => before.insert(id, channel),
            None => before,
        }
    }
}

/// The members after member documents, one after the other.
pub open spec fn members_applied(
    users: Map<Seq<char>, (Seq<char>, Seq<char>, Seq<char>)>,
    items: Seq<JsonValue>,
) -> Map<Seq<char>, (Seq<char>, Seq<char>, Seq<char>)>
    decreases items.len(),
{
    if items.len() == 0 {
        users
    } else {
        member_applied(members_applied(users, items.drop_last()), items.last())
    }
}

/// The members and voice states after voice state documents, one after the
/// other.
pub open spec fn states_applied(
    users: Map<Seq<char>, (Seq<char>, Seq<char>, Seq<char>)>,
    voices: Map<Seq<char>, (Option<Seq<char>>, bool, bool, bool, bool, bool, bool)>,
    items: Seq<JsonValue>,
) -> (Map<Seq<char>, (Seq<char>, Seq<char>, Seq<char>)>, Map<Seq<char>, (Option<Seq<char>>, bool, bool, bool, bool, bool, bool)>)
    decreases items.len(),
{
    if items.len() == 0 {
        (users, voices)
    } else {
        let before = states_applied(users, voices, items.drop_last());
        state_applied(before.0, before.1, items.last())
    }
}

/// The guild a guild document names, when it names one by id.
pub open spec fn guild_id_of(data: JsonValue) -> Option<Seq<char>> {
    text_of(field(data, "id"@))
}

/// The guilds after a guild document: any guild it names by id and name is
/// recorded, configured or not, so an instance that has not chosen a guild
/// yet can still offer the ones its bot is in.
pub open spec fn guilds_applied(guilds: Map<Seq<char>, Seq<char>>, data: JsonValue) -> Map<Seq<char>, Seq<char>> {
    match (guild_id_of(data), text_of(field(data, "name"@))) {
        (Some(id), Some(name)) => guilds.insert(id, name),
        _ => guilds,
    }
}

/// Whether a guild document is about the configured guild.
pub open spec fn is_configured_guild(data: JsonValue, configured: Option<Seq<char>>) -> bool {
    guild_id_of(data) is Some && guild_id_of(data) == configured
}

/// The view of a configured guild id.
pub open spec fn configured_view(configured: Option<&str>) -> Option<Seq<char>> {
    match configured {
        Some(id) => Some(id@),
        None => None,
    }
}

/// Records the channels of the configured guild's document.
fn record_channels(state: &mut DiscordState, items: &[JsonValue])
    requires
        old(state).wf(),
    ensures
        final(state).wf(),
        final(state).channel_map() == channels_applied(old(state).channel_map(), items@),
        final(state).guilds@ == old(state).guilds@,
        final(state).users@ == old(state).users@,
        final(state).voice_states@ == old(state).voice_states@,
{
    let ghost start = state.channel_map();
    let ghost guilds = state.guilds@;
    let ghost users = state.users@;
    let ghost voices = state.voice_states@;
    let mut i: usize = 0;
    assert(items@.take(0) =~= Seq::<JsonValue>::empty());
    while i < items.len()
        invariant
            i <= items@.len(),
            state.wf(),
            state.channel_map() == channels_applied(start, items@.take(i as int)),
            state.guilds@ == guilds,
            state.users@ == users,
            state.voice_states@ == voices,
        decreases items.len() - i,
    {
        let item = &items[i];
        assert(items@.take(i + 1).drop_last() =~= items@.take(i as int));
        assert(items@.take(i + 1).last() == items@[i as int]);
        match (get_text(item, "id"), get_text(item, "name")) {
            (Some(id), Some(name)) => {
                let channel = DiscordChannel { name: name.clone(), kind: get_count(item, "type") };
                let ghost recorded = channel@;
                let ghost before = keyed(state.channels@);
                put(&mut state.channels, id.clone(), channel);
                proof {
                    assert(keyed(state.channels@).map_values(|channel: DiscordChannel| channel@)
                        =~= before.map_values(|channel: DiscordChannel| channel@).insert(id@, recorded));
                }
            },
            _ => {},
        }
        i += 1;
    }
    assert(items@.take(i as int) =~= items@);
}

/// Records the members of the configured guild's document.
fn record_members(state: &mut DiscordState, items: &[JsonValue])
    requires
        old(state).wf(),
    ensures
        final(state).wf(),
        final(state).user_map() == members_applied(old(state).user_map(), items@),
        final(state).guilds@ == old(state).guilds@,
        final(state).channels@ == old(state).channels@,
        final(state).voice_states@ == old(state).voice_states@,
{
    let ghost start = state.user_map();
    let ghost guilds = state.guilds@;
    let ghost channels = state.channels@;
    let ghost voices = state.voice_states@;
    let mut i: usize = 0;
    assert(items@.take(0) =~= Seq::<JsonValue>::empty());
    while i < items.len()
        invariant
            i <= items@.len(),
            state.wf(),
            state.user_map() == members_applied(start, items@.take(i as int)),
            state.guilds@ == guilds,
            state.channels@ == channels,
            state.voice_states@ == voices,
        decreases items.len() - i,
    {
        assert(items@.take(i + 1).drop_last() =~= items@.take(i as int));
        assert(items@.take(i + 1).last() == items@[i as int]);
        update_member(state, &items[i]);
        i += 1;
    }
    assert(items@.take(i as int) =~= items@);
}

/// Records the voice states of the configured guild's document.
fn record_states(state: &mut DiscordState, items: &[JsonValue])
    requires
        old(state).wf(),
    ensures
        final(state).wf(),
        (final(state).user_map(), final(state).voice_map()) == states_applied(
            old(state).user_map(),
            old(state).voice_map(),
            items@,
        ),
        final(state).guilds@ == old(state).guilds@,
        final(state).channels@ == old(state).channels@,
{
    let ghost users = state.user_map();
    let ghost voices = state.voice_map();
    let ghost guilds = state.guilds@;
    let ghost channels = state.channels@;
    let mut i: usize = 0;
    assert(items@.take(0) =~= Seq::<JsonValue>::empty());
    while i < items.len()
        invariant
            i <= items@.len(),
            state.wf(),
            (state.user_map(), state.voice_map()) == states_applied(users, voices, items@.take(i as int)),
            state.guilds@ == guilds,
            state.channels@ == channels,
        decreases items.len() - i,
    {
        assert(items@.take(i + 1).drop_last() =~= items@.take(i as int));
        assert(items@.take(i + 1).last() == items@[i as int]);
        update_state(state, &items[i]);
        i += 1;
    }
    assert(items@.take(i as int) =~= items@);
}

/// Records a guild document. Every guild the bot is in is recorded by name;
/// the channels, members and voice states only of the configured guild.
/// Answers whether the document was about the configured guild, and so
/// whether anything worth publishing changed.
pub fn update_guild(state: &mut DiscordState, data: &JsonValue, configured: Option<&str>) -> (changed: bool)
    requires
        old(state).wf(),
    ensures
        final(state).wf(),
        changed == is_configured_guild(*data, configured_view(configured)),
        final(state).guild_map() == guilds_applied(old(state).guild_map(), *data),
        changed ==> final(state).channel_map() == channels_applied(
            old(state).channel_map(),
            items_of(field(*data, "channels"@)),
        ),
        changed ==> (final(state).user_map(), final(state).voice_map()) == states_applied(
            members_applied(old(state).user_map(), items_of(field(*data, "members"@))),
            old(state).voice_map(),
            items_of(field(*data, "voice_states"@)),
        ),
        !changed ==> final(state).channels@ == old(state).channels@ && final(state).users@
            == old(state).users@ && final(state).voice_states@ == old(state).voice_states@,
{
    let guild_id = match get_text(data, "id") {
        Some(id) => id,
        None => return false,
    };
    match get_text(data, "name") {
        Some(name) => {
            let ghost before = keyed(state.guilds@);
            put(&mut state.guilds, guild_id.clone(), name.clone());
            proof {
                assert(keyed(state.guilds@).map_values(|name: String| name@) =~= before.map_values(
                    |name: String| name@,
                ).insert(guild_id@, name@));
            }
        },
        None => {},
    }
    let configured_here = match configured {
        Some(id) => str_eq(guild_id.as_str(), id),
        None => false,
    };
    if !configured_here {
        return false;
    }
    record_channels(state, get_items(data, "channels"));
    record_members(state, get_items(data, "members"));
    record_states(state, get_items(data, "voice_states"));
    true
}

/// Records a member document fetched for someone in voice, if they are
/// still in voice by the time it arrives.
pub fn update_member_if_present(state: &mut DiscordState, member: &JsonValue, user_id: &str)
    requires
        old(state).wf(),
    ensures
        final(state).wf(),
        final(state).user_map() == match field(*member, "user"@) {
            Some(user) => if old(state).voice_map().dom().contains(user_id@) {
                old(state).user_map().insert(
                    user_id@,
                    user_record(user_id@, display_name(user_id@, *member, user), avatar_url(user_id@, user)),
                )
            } else {
                old(state).user_map()
            },
            None => old(state).user_map(),
        },
        final(state).guilds@ == old(state).guilds@,
        final(state).channels@ == old(state).channels@,
        final(state).voice_states@ == old(state).voice_states@,
{
    let user = match get(member, "user") {
        Some(user) => user,
        None => return,
    };
    proof {
        lemma_keyed_dom(state.voice_states@, user_id@);
    }
    match crate::keyed::position_of(&state.voice_states, user_id) {
        Some(_) => {
            let found = user_from_json(user_id, member, user);
            record_user(state, user_id, found);
        },
        None => {},
    }
}

/// With every id listed once, the followed user's channel is the one their
/// voice state names.
proof fn lemma_followed_channel_by_id(voices: Seq<(String, VoiceState)>, user: Seq<char>)
    requires
        ids_unique(voices),
    ensures
        followed_channel(Some(user), voices) == if keyed(voices).dom().contains(user) {
            keyed(voices)[user]@.0
        } else {
            None
        },
{
    lemma_keyed_dom(voices, user);
    if exists|i: int| 0 <= i < voices.len() && (#[trigger] voices[i]).0@ == user {
        let i = choose|i: int| 0 <= i < voices.len() && (#[trigger] voices[i]).0@ == user;
        lemma_keyed_at(voices, i);
    }
}

/// Once a voice state puts the followed user in a channel, that channel is
/// the one shown; once one says they left voice, the fixed channel is shown
/// again, or none when there is no fixed channel.
pub proof fn lemma_followed_user_decides(
    before: DiscordState,
    after: DiscordState,
    data: JsonValue,
    fallback: Option<Seq<char>>,
)
    requires
        before.wf(),
        after.wf(),
        after.voice_map() == state_applied(before.user_map(), before.voice_map(), data).1,
        text_of(field(data, "user_id"@)) is Some,
    ensures
        voice_record(data) matches Some(voice) ==> selected_channel_spec(
            text_of(field(data, "user_id"@)),
            fallback,
            after.voice_states@,
        ) == (voice.0, "followed"@),
        voice_record(data) is None ==> selected_channel_spec(
            text_of(field(data, "user_id"@)),
            fallback,
            after.voice_states@,
        ) == match fallback {
            Some(channel) => (Some(channel), "fallback"@),
            None => (None, "none"@),
        },
{
    let user = text_of(field(data, "user_id"@)).unwrap();
    lemma_followed_channel_by_id(after.voice_states@, user);
    let voices = keyed(after.voice_states@);
    assert(after.voice_map().dom().contains(user) == voices.dom().contains(user));
    if voices.dom().contains(user) {
        assert(after.voice_map()[user] == voices[user]@);
    }
    match voice_record(data) {
        Some(voice) => {
            assert(after.voice_map()[user] == voice);
        },
        None => {
            assert(!after.voice_map().dom().contains(user));
        },
    }
}

} // verus!
