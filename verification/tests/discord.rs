use launchpi::discord::{
    avatar_index, channel_options, guild_options, manifest, member_options, presets, query_matches,
    selected_channel, sorted, status_color, validate_id, DiscordChannel, DiscordConfig,
    DiscordState, DiscordUser, VoiceState, MUTED_COLOR,
};
use launchpi::gateway::{update_guild, update_state};
use launchpi::panels::{Action, ColorBinding, JsonValue};
use launchpi::plugin::LookupOption;

#[test]
fn default_avatar_index_uses_the_discord_user_id() {
    assert_eq!(avatar_index("7"), 1);
    assert_eq!(avatar_index("12"), 0);
}

#[test]
fn an_id_that_is_not_a_number_gets_the_first_default_avatar() {
    assert_eq!(avatar_index("seven"), 0);
    assert_eq!(avatar_index(""), 0);
    assert_eq!(avatar_index("+11"), 5);
    assert_eq!(avatar_index("99999999999999999999999"), 0);
    assert_eq!(avatar_index("389006437613043712"), 389006437613043712 % 6);
}

fn settings(channel_id: Option<&str>, user_id: Option<&str>) -> DiscordConfig {
    DiscordConfig {
        token: None,
        guild_id: Some("1".to_string()),
        channel_id: channel_id.map(str::to_string),
        user_id: user_id.map(str::to_string),
        max_members: 4,
    }
}

fn text(value: &str) -> JsonValue {
    JsonValue::Text(value.to_string())
}

fn object(members: Vec<(&str, JsonValue)>) -> JsonValue {
    JsonValue::Object(
        members
            .into_iter()
            .map(|(key, value)| (key.to_string(), value))
            .collect(),
    )
}

fn voice_of<'a>(state: &'a DiscordState, user_id: &str) -> Option<&'a VoiceState> {
    state
        .voice_states
        .iter()
        .find(|(id, _)| id == user_id)
        .map(|(_, voice)| voice)
}

#[test]
fn the_followed_user_wins_and_the_fixed_channel_is_the_fallback() {
    let settings = settings(Some("100"), Some("7"));
    let mut state = DiscordState::default();
    assert_eq!(
        selected_channel(&settings, &state),
        (Some("100".to_string()), "fallback")
    );

    update_state(
        &mut state,
        &object(vec![("user_id", text("7")), ("channel_id", text("200"))]),
    );
    assert_eq!(
        selected_channel(&settings, &state),
        (Some("200".to_string()), "followed")
    );

    update_state(
        &mut state,
        &object(vec![("user_id", text("7")), ("channel_id", JsonValue::Null)]),
    );
    assert_eq!(
        selected_channel(&settings, &state),
        (Some("100".to_string()), "fallback")
    );
}

#[test]
fn a_followed_user_with_no_fallback_selects_nothing_while_they_are_out_of_voice() {
    assert_eq!(
        selected_channel(&settings(None, Some("7")), &DiscordState::default()),
        (None, "none")
    );
}

#[test]
fn a_voice_state_keeps_the_mute_and_deafen_flags() {
    let mut state = DiscordState::default();
    update_state(
        &mut state,
        &object(vec![
            ("user_id", text("1")),
            ("channel_id", text("2")),
            ("self_mute", JsonValue::Bool(true)),
            ("self_deaf", JsonValue::Bool(true)),
            ("self_stream", JsonValue::Bool(true)),
            ("self_video", JsonValue::Bool(true)),
        ]),
    );
    let voice = voice_of(&state, "1").expect("state was recorded");
    assert!(voice.is_muted() && voice.is_deafened());
    assert!(voice.is_streaming && voice.is_video_on);
    assert!(!voice.is_server_muted, "a self mute is not a server mute");
}

#[test]
fn a_server_mute_and_a_self_mute_read_the_same_to_a_key() {
    let mut state = DiscordState::default();
    update_state(
        &mut state,
        &object(vec![
            ("user_id", text("1")),
            ("channel_id", text("2")),
            ("mute", JsonValue::Bool(true)),
            ("deaf", JsonValue::Bool(true)),
        ]),
    );
    let voice = voice_of(&state, "1").expect("state was recorded");
    assert!(voice.is_muted() && voice.is_deafened());
    assert_eq!(status_color(voice), MUTED_COLOR);
}

#[test]
fn each_kind_of_mute_and_deafen_colours_the_key() {
    let server = VoiceState {
        is_server_muted: true,
        ..VoiceState::default()
    };
    let own = VoiceState {
        is_self_muted: true,
        ..VoiceState::default()
    };
    assert!(server.is_muted() && own.is_muted());
    assert_eq!(status_color(&server), MUTED_COLOR);
    assert_eq!(status_color(&own), MUTED_COLOR);
    let deafened = VoiceState {
        is_self_deafened: true,
        ..VoiceState::default()
    };
    assert!(deafened.is_deafened());
    assert_eq!(status_color(&deafened), "#ed4245");
}

#[test]
fn an_unmuted_member_has_no_status_colour_so_the_key_stays_unbordered() {
    assert_eq!(status_color(&VoiceState::default()), "");
}

#[test]
fn a_lookup_matches_a_pasted_snowflake_as_well_as_a_typed_name() {
    let mut state = DiscordState::default();
    state
        .guilds
        .push(("389006437613043712".to_string(), "Home".to_string()));

    assert_eq!(guild_options(&state, "hom").len(), 1);
    assert_eq!(guild_options(&state, "3890064").len(), 1);
    assert_eq!(guild_options(&state, "elsewhere").len(), 0);
}

#[test]
fn a_guild_the_bot_is_in_can_be_picked_before_one_is_configured() {
    let mut state = DiscordState::default();
    let changed = update_guild(
        &mut state,
        &object(vec![
            ("id", text("900")),
            ("name", text("Elsewhere")),
            ("channels", JsonValue::Array(vec![])),
        ]),
        None,
    );

    assert!(!changed, "an unconfigured guild publishes nothing");
    assert_eq!(guild_options(&state, "").len(), 1, "but it is still offered");
    assert!(state.channels.is_empty());
}

#[test]
fn only_voice_and_stage_channels_are_offered() {
    let mut state = DiscordState::default();
    let channel = |id: &str, name: &str, kind: i64| {
        object(vec![
            ("id", text(id)),
            ("name", text(name)),
            ("type", JsonValue::Integer(kind)),
        ])
    };
    update_guild(
        &mut state,
        &object(vec![
            ("id", text("1")),
            ("name", text("Home")),
            (
                "channels",
                JsonValue::Array(vec![
                    channel("10", "general", 0),
                    channel("11", "Lounge", 2),
                    channel("12", "Announcements", 5),
                    channel("13", "Main Stage", 13),
                ]),
            ),
        ]),
        Some("1"),
    );

    let offered: Vec<_> = channel_options(&state, "")
        .into_iter()
        .map(|option| option.label)
        .collect();
    assert_eq!(offered, vec!["Lounge", "Main Stage"]);
}

#[test]
fn voice_and_stage_channels_are_grouped_by_kind() {
    let mut state = DiscordState::default();
    for (id, name, kind) in [
        ("1", "general", 0),
        ("2", "Lounge", 2),
        ("3", "Town hall", 13),
        ("4", "announcements", 5),
    ] {
        state.channels.push((
            id.to_string(),
            DiscordChannel {
                name: name.to_string(),
                kind,
            },
        ));
    }

    let offered = channel_options(&state, "");
    assert_eq!(
        offered
            .iter()
            .map(|option| (option.value.as_str(), option.group.as_deref()))
            .collect::<Vec<_>>(),
        [("2", Some("Voice")), ("3", Some("Stage"))]
    );
    assert!(channel_options(&state, "TOWN").len() == 1);
}

#[test]
fn members_are_offered_in_order_of_their_name() {
    let mut state = DiscordState::default();
    for (id, name) in [("3", "zed"), ("1", "Amy"), ("2", "bob")] {
        state.users.push((
            id.to_string(),
            DiscordUser {
                id: id.to_string(),
                name: name.to_string(),
                avatar: String::new(),
            },
        ));
    }
    let offered = member_options(&state, "  ");
    assert_eq!(
        offered
            .iter()
            .map(|option| option.label.as_str())
            .collect::<Vec<_>>(),
        ["Amy", "bob", "zed"]
    );
}

#[test]
fn options_with_the_same_label_sort_by_value_and_keep_all_entries() {
    let options = vec![
        LookupOption::new("b".to_string(), "Same".to_string()),
        LookupOption::new("a".to_string(), "same".to_string()),
        LookupOption::new("c".to_string(), "Other".to_string()),
    ];
    let ordered = sorted(options);
    assert_eq!(
        ordered
            .iter()
            .map(|option| option.value.as_str())
            .collect::<Vec<_>>(),
        ["c", "a", "b"]
    );
}

#[test]
fn a_query_matches_either_half_without_regard_to_case() {
    assert!(query_matches("", "anything", "1"));
    assert!(query_matches(" LIV ", "Living Room", "1"));
    assert!(query_matches("42", "Room", "1042"));
    assert!(!query_matches("den", "Room", "1042"));
}

#[test]
fn an_id_must_be_a_snowflake() {
    assert_eq!(validate_id("guild_id", "123"), Ok(()));
    assert_eq!(
        validate_id("guild_id", "12a"),
        Err("guild_id must be a Discord snowflake".to_string())
    );
    assert_eq!(
        validate_id("user_id", ""),
        Err("user_id must be a Discord snowflake".to_string())
    );
    let mut config = settings(Some("abc"), None);
    assert_eq!(
        config.validate(),
        Err("channel_id must be a Discord snowflake".to_string())
    );
    config.channel_id = Some("100".to_string());
    assert_eq!(config.validate(), Ok(()));
    config.max_members = 33;
    assert_eq!(
        config.validate(),
        Err("max_members must be between 1 and 32".to_string())
    );
    assert!(config.names_a_channel());
}

#[test]
fn a_member_preset_is_offered_for_every_slot_and_binds_only_its_own_index() {
    let offered = presets(&settings(None, None));
    assert_eq!(offered.len(), 10);
    assert_eq!(offered[0].preset_id, "channel-name");
    assert_eq!(offered[1].preset_id, "member-count");
    let member = &offered[6];
    assert_eq!(member.preset_id, "member-2");
    assert_eq!(member.name, "Member 3");
    assert_eq!(
        member.control.default_state.text.as_deref(),
        Some("$(self:channel_members_2)")
    );
    assert_eq!(
        member.control.default_state.border.as_ref().map(|border| &border.color),
        Some(&ColorBinding::Reference(
            "$(self:channel_members_2_status_color)".to_string()
        ))
    );
    let mute = &offered[7];
    assert_eq!(mute.preset_id, "mute-member-2");
    let Action::InvokeIntegration { parameters, .. } = &mute.control.action_bindings[0].actions[0]
    else {
        panic!("a mute key calls the instance");
    };
    assert_eq!(
        parameters,
        &JsonValue::Object(vec![
            (
                "user_id".to_string(),
                JsonValue::Text("$(self:channel_members_2_id)".to_string())
            ),
            ("mute".to_string(), JsonValue::Bool(true)),
        ])
    );
}

#[test]
fn the_discord_manifest_declares_three_member_actions() {
    let declared = manifest();
    assert_eq!(declared.plugin_type, "discord");
    assert_eq!(
        declared
            .actions
            .iter()
            .map(|action| action.name.as_str())
            .collect::<Vec<_>>(),
        ["mute_member", "deafen_member", "disconnect_member"]
    );
    assert!(declared.config_schema[0].is_secret());
    assert_eq!(declared.variables.len(), 15);
}

#[test]
fn member_updates_remove_users_that_leave_voice() {
    let mut state = DiscordState::default();
    update_state(
        &mut state,
        &object(vec![
            ("user_id", text("1")),
            ("channel_id", text("2")),
            (
                "member",
                object(vec![(
                    "user",
                    object(vec![("username", text("Ada")), ("avatar", JsonValue::Null)]),
                )]),
            ),
        ]),
    );
    assert!(voice_of(&state, "1").is_some());
    update_state(
        &mut state,
        &object(vec![("user_id", text("1")), ("channel_id", JsonValue::Null)]),
    );
    assert!(voice_of(&state, "1").is_none());
}
