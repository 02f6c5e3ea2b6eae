use launchpi::discord::{DiscordConfig, DiscordState, MUTED_COLOR};
use launchpi::gateway::{update_guild, update_member, update_member_if_present, update_state, user_from_json};
use launchpi::panels::JsonValue;
use launchpi::roster::{channel_roster, missing_member_ids, roster_values, PublishedValue, StatusBadge};

fn text(value: &str) -> JsonValue {
    JsonValue::Text(value.to_string())
}

fn object(members: Vec<(&str, JsonValue)>) -> JsonValue {
    JsonValue::Object(
        members
            .into_iter()
            .map(|(key, value)| (key.to_string(), value))
            .collect(),
    )
}

fn member(id: &str, name: &str) -> JsonValue {
    object(vec![("user", object(vec![("id", text(id)), ("username", text(name))]))])
}

fn joined(user_id: &str, channel_id: &str) -> JsonValue {
    object(vec![("user_id", text(user_id)), ("channel_id", text(channel_id))])
}

fn settings(channel_id: Option<&str>, user_id: Option<&str>) -> DiscordConfig {
    DiscordConfig {
        token: None,
        guild_id: Some("1".to_string()),
        channel_id: channel_id.map(str::to_string),
        user_id: user_id.map(str::to_string),
        max_members: 4,
    }
}

#[test]
fn a_nickname_wins_over_the_global_and_the_user_name() {
    let user = object(vec![
        ("id", text("7")),
        ("global_name", text("Global")),
        ("username", text("user")),
        ("avatar", text("abc")),
    ]);
    let with_nick = object(vec![("nick", text("Nick"))]);
    let found = user_from_json("7", &with_nick, &user);
    assert_eq!(found.name, "Nick");
    assert_eq!(found.id, "7");
    assert_eq!(found.avatar, "https://cdn.discordapp.com/avatars/7/abc.png?size=128");

    let found = user_from_json("7", &object(vec![]), &user);
    assert_eq!(found.name, "Global");
}

#[test]
fn a_user_without_names_or_avatar_gets_the_id_and_a_default_avatar() {
    let user = object(vec![("id", text("13")), ("avatar", JsonValue::Null)]);
    let found = user_from_json("13", &object(vec![]), &user);
    assert_eq!(found.name, "13");
    assert_eq!(found.avatar, "https://cdn.discordapp.com/embed/avatars/1.png");

    let named = object(vec![("username", text("ada"))]);
    assert_eq!(user_from_json("13", &object(vec![]), &named).name, "ada");
}

#[test]
fn a_member_document_without_a_user_id_changes_nothing() {
    let mut state = DiscordState::default();
    update_member(&mut state, &object(vec![("user", object(vec![("username", text("x"))]))]));
    update_member(&mut state, &object(vec![("nick", text("x"))]));
    assert!(state.users.is_empty());
    update_member(&mut state, &member("5", "Eve"));
    update_member(&mut state, &member("5", "Eve2"));
    assert_eq!(state.users.len(), 1);
    assert_eq!(state.users[0].1.name, "Eve2");
}

#[test]
fn a_voice_state_without_a_user_changes_nothing() {
    let mut state = DiscordState::default();
    update_state(&mut state, &object(vec![("channel_id", text("2"))]));
    assert!(state.voice_states.is_empty());
    update_state(&mut state, &joined("1", "2"));
    update_state(&mut state, &joined("1", "3"));
    assert_eq!(state.voice_states.len(), 1);
    assert_eq!(state.voice_states[0].1.channel_id.as_deref(), Some("3"));
}

#[test]
fn the_configured_guild_records_members_and_voice_states() {
    let mut state = DiscordState::default();
    let changed = update_guild(
        &mut state,
        &object(vec![
            ("id", text("1")),
            ("name", text("Home")),
            ("members", JsonValue::Array(vec![member("5", "Eve"), member("6", "Bob")])),
            ("voice_states", JsonValue::Array(vec![joined("5", "20"), joined("6", "21")])),
        ]),
        Some("1"),
    );
    assert!(changed);
    assert_eq!(state.guilds, vec![("1".to_string(), "Home".to_string())]);
    assert_eq!(state.users.len(), 2);
    assert_eq!(state.voice_states.len(), 2);

    let other = update_guild(
        &mut state,
        &object(vec![("id", text("2")), ("members", JsonValue::Array(vec![member("9", "Zed")]))]),
        Some("1"),
    );
    assert!(!other);
    assert_eq!(state.users.len(), 2);
}

#[test]
fn the_roster_lists_the_channel_members_by_name_then_id() {
    let mut state = DiscordState::default();
    for (id, name) in [("3", "zed"), ("1", "Amy"), ("2", "amy"), ("4", "Bob")] {
        update_member(&mut state, &member(id, name));
    }
    for (user, channel) in [("3", "20"), ("2", "20"), ("1", "20"), ("4", "21"), ("8", "20")] {
        update_state(&mut state, &joined(user, channel));
    }
    update_guild(
        &mut state,
        &object(vec![
            ("id", text("1")),
            (
                "channels",
                JsonValue::Array(vec![object(vec![
                    ("id", text("20")),
                    ("name", text("Lounge")),
                    ("type", JsonValue::Integer(2)),
                ])]),
            ),
        ]),
        Some("1"),
    );

    let roster = channel_roster(&settings(Some("20"), None), &state);
    assert_eq!(roster.channel_id.as_deref(), Some("20"));
    assert_eq!(roster.channel_source, "fallback");
    assert_eq!(roster.channel_name, "Lounge");
    let ids: Vec<_> = roster.members.iter().map(|(user, _)| user.id.as_str()).collect();
    assert_eq!(ids, ["1", "2", "3"]);

    assert_eq!(missing_member_ids(&settings(Some("20"), None), &state), vec!["8".to_string()]);
    let elsewhere = channel_roster(&settings(Some("99"), None), &state);
    assert_eq!(elsewhere.channel_name, "");
    assert!(elsewhere.members.is_empty());
}

#[test]
fn a_fetched_member_is_kept_only_while_they_are_in_voice() {
    let mut state = DiscordState::default();
    update_state(&mut state, &joined("8", "20"));
    update_member_if_present(&mut state, &member("9", "Gone"), "9");
    assert!(state.users.is_empty());
    update_member_if_present(&mut state, &member("8", "Here"), "8");
    assert_eq!(state.users.len(), 1);
    assert_eq!(state.users[0].1.name, "Here");
    update_member_if_present(&mut state, &object(vec![]), "8");
    assert_eq!(state.users[0].1.name, "Here");
}

#[test]
fn each_slot_publishes_its_member_or_nothing() {
    let mut state = DiscordState::default();
    update_member(&mut state, &member("1", "Ada"));
    update_state(
        &mut state,
        &object(vec![
            ("user_id", text("1")),
            ("channel_id", text("20")),
            ("self_mute", JsonValue::Bool(true)),
        ]),
    );
    let roster = channel_roster(&settings(None, Some("1")), &state);
    assert_eq!(roster.channel_source, "followed");
    let values = roster_values(&roster, 2);
    assert_eq!(values.len(), 4 + 11 * 2);
    assert_eq!(values[0].0, "channel_id");
    assert!(matches!(&values[0].1, PublishedValue::Text(id) if id == "20"));
    assert!(matches!(&values[2].1, PublishedValue::Text(source) if source == "followed"));
    assert!(matches!(values[3].1, PublishedValue::Count(1)));

    assert_eq!(values[4].0, "channel_members_0");
    assert!(matches!(&values[4].1, PublishedValue::Text(name) if name == "Ada"));
    assert_eq!(values[7].0, "channel_members_0_muted");
    assert!(matches!(values[7].1, PublishedValue::Flag(true)));
    assert_eq!(values[12].0, "channel_members_0_status_color");
    assert!(matches!(&values[12].1, PublishedValue::Text(color) if color == MUTED_COLOR));
    assert!(matches!(values[13].1, PublishedValue::Badge(StatusBadge::Muted)));
    assert_eq!(values[14].0, "channel_members_0_image");
    assert!(matches!(&values[14].1, PublishedValue::Image(image) if image.0 == "builtin:none"));

    assert_eq!(values[15].0, "channel_members_1");
    assert!(matches!(&values[15].1, PublishedValue::Text(name) if name.is_empty()));
    assert!(matches!(values[18].1, PublishedValue::Flag(false)));
    assert!(matches!(values[24].1, PublishedValue::Badge(StatusBadge::Blank)));
}
