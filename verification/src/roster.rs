//! What a Discord instance publishes about the channel it shows: the
//! channel, its members in order of name, and for each key slot the values
//! the slot's presets read.

use vstd::prelude::*;
use crate::discord::{
    key_lt, lowercase, selected_channel, selected_channel_spec, status_color, to_lowercase, DiscordConfig,
    DiscordState, DiscordUser, VoiceState, MUTED_COLOR,
};
use crate::identifiers::AssetId;
use crate::keyed::{ids_unique, keyed, lemma_keyed_at, lemma_keyed_dom, position_of};
use crate::order::{lemma_lex_asymmetric, lemma_lex_transitive, lex_less, lex_lt};
use crate::text::{chars_of, decimal, decimal_text, option_view, owned, same_chars};

verus! {

/// The members in the channel, in the order the voice states are listed:
/// each one whose voice state is in `channel` and who is known by id.
pub open spec fn candidates(
    voices: Seq<(String, VoiceState)>,
    users: Map<Seq<char>, (Seq<char>, Seq<char>, Seq<char>)>,
    channel: Option<Seq<char>>,
) -> Seq<((Seq<char>, Seq<char>, Seq<char>), (Option<Seq<char>>, bool, bool, bool, bool, bool, bool))>
    decreases voices.len(),
{
    if voices.len() == 0 {
        Seq::empty()
    } else {
        let before = candidates(voices.drop_last(), users, channel);
        let entry = voices.last();
        if entry.1@.0 == channel && users.dom().contains(entry.0@) {
            before.push((users[entry.0@], entry.1@))
        } else {
            before
        }
    }
}

/// The ids of those in the channel who are not known yet, in the order the
/// voice states are listed.
pub open spec fn unknown_in(
    voices: Seq<(String, VoiceState)>,
    users: Map<Seq<char>, (Seq<char>, Seq<char>, Seq<char>)>,
    channel: Option<Seq<char>>,
) -> Seq<Seq<char>>
    decreases voices.len(),
{
    if voices.len() == 0 {
        Seq::empty()
    } else {
        let before = unknown_in(voices.drop_last(), users, channel);
        let entry = voices.last();
        if entry.1@.0 == channel && !users.dom().contains(entry.0@) {
            before.push(entry.0@)
        } else {
            before
        }
    }
}

/// The members taken by their plain values.
pub open spec fn member_views(members: Seq<(DiscordUser, VoiceState)>) -> Seq<
    ((Seq<char>, Seq<char>, Seq<char>), (Option<Seq<char>>, bool, bool, bool, bool, bool, bool)),
> {
    members.map_values(|member: (DiscordUser, VoiceState)| (member.0@, member.1@))
}

/// The key members are ordered by: the name in lower case, then the id.
pub open spec fn member_key(
    member: ((Seq<char>, Seq<char>, Seq<char>), (Option<Seq<char>>, bool, bool, bool, bool, bool, bool)),
) -> (Seq<char>, Seq<char>) {
    (lowercase(member.0.1), member.0.0)
}

/// Whether members are in order: none sorts before one ahead of it.
pub open spec fn members_in_order(
    members: Seq<((Seq<char>, Seq<char>, Seq<char>), (Option<Seq<char>>, bool, bool, bool, bool, bool, bool))>,
) -> bool {
    forall|i: int, j: int|
        0 <= i < j < members.len() ==> !key_lt(member_key(#[trigger] members[j]), member_key(#[trigger] members[i]))
}

/// The name of the channel with id `channel`, or nothing when it is not
/// known.
pub open spec fn channel_name_of(
    channels: Map<Seq<char>, (Seq<char>, u64)>,
    channel: Option<Seq<char>>,
) -> Seq<char> {
    match channel {
        Some(id) => if channels.dom().contains(id) {
            channels[id].0
        } else {
            Seq::empty()
        },
        None => Seq::empty(),
    }
}

/// The channel an instance shows and who is in it.
#[derive(Debug)]
pub struct Roster {
    pub channel_id: Option<String>,
    pub channel_source: &'static str,
    pub channel_name: String,
    pub members: Vec<(DiscordUser, VoiceState)>,
}

/// Whether two optional channel ids are the same.
fn same_channel(left: &Option<String>, right: &Option<String>) -> (same: bool)
    ensures
        same == (option_view(*left) == option_view(*right)),
{
    match (left, right) {
        (Some(a), Some(b)) => crate::text::str_eq(a.as_str(), b.as_str()),
        (None, None) => true,
        _ => false,
    }
}

proof fn lemma_member_key_transitive(a: (Seq<char>, Seq<char>), b: (Seq<char>, Seq<char>), c: (Seq<char>, Seq<char>))
    requires
        key_lt(a, b),
        key_lt(b, c),
    ensures
        key_lt(a, c),
{
    if lex_lt(a.0, b.0) && lex_lt(b.0, c.0) {
        lemma_lex_transitive(a.0, b.0, c.0, 0);
    }
    if a.0 == b.0 && b.0 == c.0 && lex_lt(a.1, b.1) && lex_lt(b.1, c.1) {
        lemma_lex_transitive(a.1, b.1, c.1, 0);
    }
}

proof fn lemma_member_key_irreflexive(a: (Seq<char>, Seq<char>))
    ensures
        !key_lt(a, a),
{
    lemma_lex_asymmetric(a.0, a.0, 0);
    lemma_lex_asymmetric(a.1, a.1, 0);
}

/// Whether member `a` sorts strictly before member `b`.
fn member_less(a: &(DiscordUser, VoiceState), b: &(DiscordUser, VoiceState)) -> (less: bool)
    ensures
        less == key_lt(member_key((a.0@, a.1@)), member_key((b.0@, b.1@))),
{
    let a_name = chars_of(to_lowercase(a.0.name.as_str()).as_str());
    let b_name = chars_of(to_lowercase(b.0.name.as_str()).as_str());
    if lex_less(&a_name, &b_name) {
        return true;
    }
    if !same_chars(&a_name, &b_name) {
        return false;
    }
    let a_id = chars_of(a.0.id.as_str());
    let b_id = chars_of(b.0.id.as_str());
    lex_less(&a_id, &b_id)
}

/// Where a member goes among ordered ones: after every one it does not sort
/// before.
fn member_slot(ordered: &Vec<(DiscordUser, VoiceState)>, member: &(DiscordUser, VoiceState)) -> (position: usize)
    ensures
        position <= ordered@.len(),
        forall|q: int|
            0 <= q < position ==> !key_lt(
                member_key((member.0@, member.1@)),
                member_key(#[trigger] member_views(ordered@)[q]),
            ),
        position < ordered@.len() ==> key_lt(
            member_key((member.0@, member.1@)),
            member_key(member_views(ordered@)[position as int]),
        ),
{
    let mut position: usize = 0;
    while position < ordered.len()
        invariant
            position <= ordered@.len(),
            forall|q: int|
                0 <= q < position ==> !key_lt(
                    member_key((member.0@, member.1@)),
                    member_key(#[trigger] member_views(ordered@)[q]),
                ),
        decreases ordered.len() - position,
    {
        if member_less(member, &ordered[position]) {
            return position;
        }
        position += 1;
    }
    position
}

/// Members in order of their name in lower case, then their id; members with
/// the same key keep their order.
fn order_members(members: Vec<(DiscordUser, VoiceState)>) -> (ordered: Vec<(DiscordUser, VoiceState)>)
    ensures
        member_views(ordered@).to_multiset() == member_views(members@).to_multiset(),
        members_in_order(member_views(ordered@)),
{
    let mut ordered: Vec<(DiscordUser, VoiceState)> = Vec::new();
    let mut remaining = members;
    let ghost original = member_views(remaining@);
    let mut taken: usize = 0;
    assert(member_views(ordered@) =~= original.take(0));
    assert(member_views(remaining@) =~= original.skip(0));
    let count = remaining.len();
    assert(original.len() == count);
    while remaining.len() > 0
        invariant
            original.len() == taken + remaining@.len(),
            original.len() <= usize::MAX,
            member_views(remaining@) == original.skip(taken as int),
            member_views(ordered@).to_multiset() == original.take(taken as int).to_multiset(),
            members_in_order(member_views(ordered@)),
        decreases remaining.len(),
    {
        let ghost rest = remaining@;
        let member = remaining.remove(0);
        let ghost seen = (member.0@, member.1@);
        proof {
            assert(member_views(rest)[0] == seen);
            assert(original[taken as int] == seen);
            assert(original.take(taken + 1) =~= original.take(taken as int).push(seen));
            assert forall|k: int| 0 <= k < remaining@.len() implies member_views(remaining@)[k]
                == original.skip(taken + 1)[k] by {
                assert(remaining@[k] == rest[k + 1]);
                assert(member_views(rest)[k + 1] == original.skip(taken as int)[k + 1]);
            }
            assert(member_views(remaining@) =~= original.skip(taken + 1));
            vstd::seq_lib::to_multiset_build(original.take(taken as int), seen);
        }
        let position = member_slot(&ordered, &member);
        let ghost before = member_views(ordered@);
        ordered.insert(position, member);
        proof {
            assert(member_views(ordered@) =~= before.insert(position as int, seen));
            vstd::seq_lib::to_multiset_insert(before, position as int, seen);
            let now = member_views(ordered@);
            assert forall|i: int, j: int| 0 <= i < j < now.len() implies !key_lt(
                member_key(#[trigger] now[j]),
                member_key(#[trigger] now[i]),
            ) by {
                let p = position as int;
                if j < p {
                    assert(now[i] == before[i] && now[j] == before[j]);
                } else if j == p {
                    assert(now[i] == before[i]);
                } else if i == p {
                    assert(now[j] == before[j - 1]);
                    if key_lt(member_key(before[j - 1]), member_key(seen)) {
                        lemma_member_key_transitive(member_key(before[j - 1]), member_key(seen), member_key(before[p]));
                        lemma_member_key_irreflexive(member_key(before[p]));
                        assert(false);
                    }
                } else if i < p {
                    assert(now[i] == before[i] && now[j] == before[j - 1]);
                } else {
                    assert(now[i] == before[i - 1] && now[j] == before[j - 1]);
                }
            }
        }
        taken += 1;
    }
    assert(original.take(taken as int) =~= original);
    ordered
}

/// The channel an instance shows, with its name and its members in order of
/// name.
pub fn channel_roster(settings: &DiscordConfig, state: &DiscordState) -> (roster: Roster)
    requires
        state.wf(),
    ensures
        (option_view(roster.channel_id), roster.channel_source@) == selected_channel_spec(
            option_view(settings.user_id),
            option_view(settings.channel_id),
            state.voice_states@,
        ),
        roster.channel_name@ == channel_name_of(state.channel_map(), option_view(roster.channel_id)),
        member_views(roster.members@).to_multiset() == candidates(
            state.voice_states@,
            state.user_map(),
            option_view(roster.channel_id),
        ).to_multiset(),
        members_in_order(member_views(roster.members@)),
{
    let (channel_id, channel_source) = selected_channel(settings, state);
    let mut found: Vec<(DiscordUser, VoiceState)> = Vec::new();
    let mut i: usize = 0;
    assert(state.voice_states@.take(0) =~= Seq::<(String, VoiceState)>::empty());
    while i < state.voice_states.len()
        invariant
            i <= state.voice_states@.len(),
            state.wf(),
            member_views(found@) == candidates(
                state.voice_states@.take(i as int),
                state.user_map(),
                option_view(channel_id),
            ),
        decreases state.voice_states.len() - i,
    {
        let entry = &state.voice_states[i];
        let ghost before = found@;
        assert(state.voice_states@.take(i + 1).drop_last() =~= state.voice_states@.take(i as int));
        assert(state.voice_states@.take(i + 1).last() == state.voice_states@[i as int]);
        proof {
            lemma_keyed_dom(state.users@, entry.0@);
        }
        if same_channel(&entry.1.channel_id, &channel_id) {
            match position_of(&state.users, entry.0.as_str()) {
                Some(j) => {
                    proof {
                        lemma_keyed_at(state.users@, j as int);
                    }
                    found.push((state.users[j].1.clone(), entry.1.clone()));
                    proof {
                        assert(member_views(found@) =~= member_views(before).push(
                            (state.users@[j as int].1@, entry.1@),
                        ));
                    }
                },
                None => {},
            }
        }
        i += 1;
    }
    assert(state.voice_states@.take(i as int) =~= state.voice_states@);
    let channel_name = match &channel_id {
        Some(id) => match position_of(&state.channels, id.as_str()) {
            Some(j) => {
                proof {
                    lemma_keyed_at(state.channels@, j as int);
                }
                state.channels[j].1.name.clone()
            },
            None => {
                proof {
                    lemma_keyed_dom(state.channels@, id@);
                }
                String::new()
            },
        },
        None => String::new(),
    };
    Roster { channel_id, channel_source, channel_name, members: order_members(found) }
}

/// The ids of those in the shown channel whose member record has not
/// arrived, to be fetched one by one.
pub fn missing_member_ids(settings: &DiscordConfig, state: &DiscordState) -> (missing: Vec<String>)
    requires
        state.wf(),
    ensures
        missing@.map_values(|id: String| id@) == unknown_in(
            state.voice_states@,
            state.user_map(),
            selected_channel_spec(
                option_view(settings.user_id),
                option_view(settings.channel_id),
                state.voice_states@,
            ).0,
        ),
{
    let (channel_id, _) = selected_channel(settings, state);
    let mut missing: Vec<String> = Vec::new();
    let mut i: usize = 0;
    assert(state.voice_states@.take(0) =~= Seq::<(String, VoiceState)>::empty());
    while i < state.voice_states.len()
        invariant
            i <= state.voice_states@.len(),
            state.wf(),
            missing@.map_values(|id: String| id@) == unknown_in(
                state.voice_states@.take(i as int),
                state.user_map(),
                option_view(channel_id),
            ),
        decreases state.voice_states.len() - i,
    {
        let entry = &state.voice_states[i];
        let ghost before = missing@;
        assert(state.voice_states@.take(i + 1).drop_last() =~= state.voice_states@.take(i as int));
        assert(state.voice_states@.take(i + 1).last() == state.voice_states@[i as int]);
        proof {
            lemma_keyed_dom(state.users@, entry.0@);
        }
        if same_channel(&entry.1.channel_id, &channel_id) {
            match position_of(&state.users, entry.0.as_str()) {
                Some(j) => {},
                None => {
                    missing.push(entry.0.clone());
                    proof {
                        assert(missing@.map_values(|id: String| id@) =~= before.map_values(
                            |id: String| id@,
                        ).push(entry.0@));
                    }
                },
            }
        }
        i += 1;
    }
    assert(state.voice_states@.take(i as int) =~= state.voice_states@);
    missing
}

/// The badge a member's key wears: deafened over muted, and none when the
/// member can hear and be heard.
#[derive(Clone, Copy, Debug, PartialEq, Eq, Structural)]
pub enum StatusBadge {
    Deafened,
    Muted,
    Blank,
}

/// The badge for a voice state.
pub open spec fn badge_for(voice: (Option<Seq<char>>, bool, bool, bool, bool, bool, bool)) -> StatusBadge {
    if voice.2 || voice.4 {
        StatusBadge::Deafened
    } else if voice.1 || voice.3 {
        StatusBadge::Muted
    } else {
        StatusBadge::Blank
    }
}

/// A value an instance publishes.
#[derive(Debug)]
pub enum PublishedValue {
    Text(String),
    Count(u64),
    Flag(bool),
    Image(AssetId),
    Badge(StatusBadge),
}

/// A published value by its plain values.
pub enum PublishedView {
    Text(Seq<char>),
    Count(nat),
    Flag(bool),
    Image(Seq<char>),
    Badge(StatusBadge),
}

impl View for PublishedValue {
    type V = PublishedView;

    open spec fn view(&self) -> PublishedView {
        match self {
            PublishedValue::Text(text) => PublishedView::Text(text@),
            PublishedValue::Count(count) => PublishedView::Count(*count as nat),
            PublishedValue::Flag(flag) => PublishedView::Flag(*flag),
            PublishedValue::Image(image) => PublishedView::Image(image.0@),
            PublishedValue::Badge(badge) => PublishedView::Badge(*badge),
        }
    }
}

/// A published name and value by their plain values.
pub open spec fn entry_view(entry: (String, PublishedValue)) -> (Seq<char>, PublishedView) {
    (entry.0@, entry.1@)
}

/// The name of a value of key slot `index`.
pub open spec fn slot_name(index: nat, suffix: Seq<char>) -> Seq<char> {
    "channel_members_"@ + decimal(index) + suffix
}

/// What an empty slot shows: no member, with nobody muted.
pub open spec fn nobody() -> ((Seq<char>, Seq<char>, Seq<char>), (Option<Seq<char>>, bool, bool, bool, bool, bool, bool)) {
    ((Seq::empty(), Seq::empty(), Seq::empty()), (None, false, false, false, false, false, false))
}

/// The colour a slot's outline takes: red when its member is muted or
/// deafened, and none otherwise.
pub open spec fn slot_color(voice: (Option<Seq<char>>, bool, bool, bool, bool, bool, bool)) -> Seq<char> {
    if voice.1 || voice.2 || voice.3 || voice.4 {
        MUTED_COLOR@
    } else {
        Seq::empty()
    }
}

/// The `j`th value of key slot `index`, for the member in it or for nobody:
/// name, id, avatar, whether muted, deafened, muted by the server, streaming
/// or on video, the outline colour, the badge, and the avatar image, which
/// starts out empty until the avatar is fetched.
pub open spec fn slot_entry(
    index: nat,
    j: int,
    member: Option<((Seq<char>, Seq<char>, Seq<char>), (Option<Seq<char>>, bool, bool, bool, bool, bool, bool))>,
) -> (Seq<char>, PublishedView) {
    let m = match member {
        Some(m) => m,
        None => nobody(),
    };
    if j == 0 {
        (slot_name(index, ""@), PublishedView::Text(m.0.1))
    } else if j == 1 {
        (slot_name(index, "_id"@), PublishedView::Text(m.0.0))
    } else if j == 2 {
        (slot_name(index, "_avatar"@), PublishedView::Text(m.0.2))
    } else if j == 3 {
        (slot_name(index, "_muted"@), PublishedView::Flag(m.1.3 || m.1.1))
    } else if j == 4 {
        (slot_name(index, "_deafened"@), PublishedView::Flag(m.1.4 || m.1.2))
    } else if j == 5 {
        (slot_name(index, "_server_muted"@), PublishedView::Flag(m.1.1))
    } else if j == 6 {
        (slot_name(index, "_streaming"@), PublishedView::Flag(m.1.5))
    } else if j == 7 {
        (slot_name(index, "_video"@), PublishedView::Flag(m.1.6))
    } else if j == 8 {
        (slot_name(index, "_status_color"@), PublishedView::Text(slot_color(m.1)))
    } else if j == 9 {
        (slot_name(index, "_status_icon"@), PublishedView::Badge(badge_for(m.1)))
    } else {
        (slot_name(index, "_image"@), PublishedView::Image("builtin:none"@))
    }
}

/// The member in key slot `index`, if the channel has that many.
pub open spec fn member_in_slot(
    members: Seq<(DiscordUser, VoiceState)>,
    index: int,
) -> Option<((Seq<char>, Seq<char>, Seq<char>), (Option<Seq<char>>, bool, bool, bool, bool, bool, bool))> {
    if 0 <= index < members.len() {
        Some(member_views(members)[index])
    } else {
        None
    }
}

/// `prefix` followed by `suffix`.
fn joined(prefix: &String, suffix: &str) -> (text: String)
    ensures
        text@ == prefix@ + suffix@,
{
    let mut text = prefix.clone();
    text.push_str(suffix);
    text
}

/// The badge for a voice state.
fn badge_of(voice: &VoiceState) -> (badge: StatusBadge)
    ensures
        badge == badge_for(voice@),
{
    if voice.is_deafened() {
        StatusBadge::Deafened
    } else if voice.is_muted() {
        StatusBadge::Muted
    } else {
        StatusBadge::Blank
    }
}

/// Adds the values of key slot `index`.
fn push_slot(values: &mut Vec<(String, PublishedValue)>, index: usize, member: Option<&(DiscordUser, VoiceState)>)
    ensures
        final(values)@.len() == old(values)@.len() + 11,
        forall|k: int| 0 <= k < old(values)@.len() ==> final(values)@[k] == old(values)@[k],
        forall|j: int|
            0 <= j < 11 ==> entry_view(#[trigger] final(values)@[old(values)@.len() + j]) == slot_entry(
                index as nat,
                j,
                match member {
                    Some(m) => Some((m.0@, m.1@)),
                    None => None,
                },
            ),
{
    let ghost start = values@.len() as int;
    let mut prefix = owned("channel_members_");
    let number = decimal_text(index as u64);
    prefix.push_str(number.as_str());
    let default_voice = VoiceState::default();
    let (name, id, avatar, voice) = match member {
        Some(m) => (m.0.name.clone(), m.0.id.clone(), m.0.avatar.clone(), &m.1),
        None => (String::new(), String::new(), String::new(), &default_voice),
    };
    values.push((joined(&prefix, ""), PublishedValue::Text(name)));
    values.push((joined(&prefix, "_id"), PublishedValue::Text(id)));
    values.push((joined(&prefix, "_avatar"), PublishedValue::Text(avatar)));
    values.push((joined(&prefix, "_muted"), PublishedValue::Flag(voice.is_muted())));
    values.push((joined(&prefix, "_deafened"), PublishedValue::Flag(voice.is_deafened())));
    values.push((joined(&prefix, "_server_muted"), PublishedValue::Flag(voice.is_server_muted)));
    values.push((joined(&prefix, "_streaming"), PublishedValue::Flag(voice.is_streaming)));
    values.push((joined(&prefix, "_video"), PublishedValue::Flag(voice.is_video_on)));
    values.push((joined(&prefix, "_status_color"), PublishedValue::Text(owned(status_color(voice)))));
    values.push((joined(&prefix, "_status_icon"), PublishedValue::Badge(badge_of(voice))));
    values.push((joined(&prefix, "_image"), PublishedValue::Image(AssetId(owned("builtin:none")))));
    proof {
        reveal_strlit("");
        let mv = match member {
            Some(m) => Some((m.0@, m.1@)),
            None => None,
        };
        let m = match mv {
            Some(m) => m,
            None => nobody(),
        };
        assert(voice@ == m.1);
        assert(""@ =~= Seq::<char>::empty());
        assert(prefix@ == "channel_members_"@ + decimal(index as nat));
        assert(prefix@ + ""@ =~= prefix@);
        assert forall|j: int| 0 <= j < 11 implies entry_view(#[trigger] values@[start + j]) == slot_entry(
            index as nat,
            j,
            mv,
        ) by {
            if j == 0 {
                assert(slot_name(index as nat, ""@) =~= prefix@);
                assert(values@[start].1@ == PublishedView::Text(m.0.1));
            } else if j == 1 {
                assert(values@[start + 1].1@ == PublishedView::Text(m.0.0));
            } else if j == 3 {
                assert(values@[start + 3].1@ == PublishedView::Flag(m.1.3 || m.1.1));
            } else if j == 8 {
                assert(values@[start + 8].1@ == PublishedView::Text(slot_color(m.1)));
            } else if j == 9 {
                assert(values@[start + 9].1@ == PublishedView::Badge(badge_for(m.1)));
            } else if j == 10 {
                assert(values@[start + 10].1@ == PublishedView::Image("builtin:none"@));
            }
        }
    }
}

/// The values an instance publishes about its channel: its id, name and the
/// setting that chose it, how many members are in it, and the values of
/// each of `max_members` key slots, filled in the members' order.
pub fn roster_values(roster: &Roster, max_members: usize) -> (values: Vec<(String, PublishedValue)>)
    requires
        4 + 11 * max_members <= usize::MAX,
    ensures
        values@.len() == 4 + 11 * max_members,
        entry_view(values@[0]) == ("channel_id"@, PublishedView::Text(
            match option_view(roster.channel_id) {
                Some(id) => id,
                None => Seq::empty(),
            },
        )),
        entry_view(values@[1]) == ("channel_name"@, PublishedView::Text(roster.channel_name@)),
        entry_view(values@[2]) == ("channel_source"@, PublishedView::Text(roster.channel_source@)),
        entry_view(values@[3]) == ("member_count"@, PublishedView::Count(roster.members@.len())),
        forall|i: int, j: int|
            0 <= i < max_members && 0 <= j < 11 ==> entry_view(values@[4 + 11 * i + j]) == #[trigger] slot_entry(
                i as nat,
                j,
                member_in_slot(roster.members@, i),
            ),
{
    let mut values: Vec<(String, PublishedValue)> = Vec::new();
    let channel_text = match &roster.channel_id {
        Some(id) => id.clone(),
        None => String::new(),
    };
    values.push((owned("channel_id"), PublishedValue::Text(channel_text)));
    values.push((owned("channel_name"), PublishedValue::Text(roster.channel_name.clone())));
    values.push((owned("channel_source"), PublishedValue::Text(owned(roster.channel_source))));
    values.push((owned("member_count"), PublishedValue::Count(roster.members.len() as u64)));
    let ghost header = values@;
    proof {
        assert(entry_view(header[0]) == ("channel_id"@, PublishedView::Text(
            match option_view(roster.channel_id) {
                Some(id) => id,
                None => Seq::empty(),
            },
        )));
        assert(entry_view(header[1]) == ("channel_name"@, PublishedView::Text(roster.channel_name@)));
        assert(entry_view(header[2]) == ("channel_source"@, PublishedView::Text(roster.channel_source@)));
        assert(entry_view(header[3]) == ("member_count"@, PublishedView::Count(roster.members@.len())));
    }
    let mut index: usize = 0;
    while index < max_members
        invariant
            index <= max_members,
            4 + 11 * max_members <= usize::MAX,
            values@.len() == 4 + 11 * index,
            header.len() == 4,
            forall|k: int| 0 <= k < 4 ==> values@[k] == header[k],
            forall|i: int, j: int|
                0 <= i < index && 0 <= j < 11 ==> entry_view(values@[4 + 11 * i + j]) == #[trigger] slot_entry(
                    i as nat,
                    j,
                    member_in_slot(roster.members@, i),
                ),
        decreases max_members - index,
    {
        let member = if index < roster.members.len() {
            Some(&roster.members[index])
        } else {
            None
        };
        let ghost before = values@;
        push_slot(&mut values, index, member);
        proof {
            assert forall|i: int, j: int|
                0 <= i < index + 1 && 0 <= j < 11 implies entry_view(values@[4 + 11 * i + j]) == #[trigger] slot_entry(
                i as nat,
                j,
                member_in_slot(roster.members@, i),
            ) by {
                if i < index {
                    assert(values@[4 + 11 * i + j] == before[4 + 11 * i + j]);
                } else {
                    assert(values@[before.len() + j] == values@[4 + 11 * i + j]);
                }
            }
        }
        index += 1;
    }
    values
}

} // verus!
