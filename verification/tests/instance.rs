use launchpi::identifiers::IntegrationId;
use launchpi::instance::{parse_instance_stem, required_secret, secret, SecretLookup};

#[test]
fn a_stem_splits_into_type_and_name() {
    let identity = parse_instance_stem("http.weather").expect("valid stem");
    assert_eq!(identity.plugin_type, "http");
    assert_eq!(identity.name, "weather");
    assert_eq!(
        identity.integration_id(),
        IntegrationId("http.weather".to_string())
    );
    assert_eq!(identity.file_name(), "http.weather.toml");
}

#[test]
fn a_stem_without_a_name_is_rejected() {
    assert!(parse_instance_stem("http").is_err());
}

#[test]
fn names_are_restricted_to_lower_case_letters_digits_and_dashes() {
    assert!(parse_instance_stem("http.living-room").is_ok());
    assert!(parse_instance_stem("http.Living").is_err());
    assert!(parse_instance_stem("http.-leading").is_err());
    assert!(parse_instance_stem("http.with space").is_err());
    assert!(parse_instance_stem("http.").is_err());
}

#[test]
fn a_second_dot_is_rejected_rather_than_folded_into_the_name() {
    assert!(parse_instance_stem("http.a.b").is_err());
}

#[test]
fn a_secret_field_resolves_or_names_itself_in_the_error() {
    assert_eq!(secret("token", SecretLookup::Resolved("hunter2".to_string())), Ok(Some("hunter2".to_string())));
    assert_eq!(secret("absent", SecretLookup::Absent), Ok(None));
    assert_eq!(
        secret("token", SecretLookup::Invalid("expected env or file".to_string())),
        Err("token is not a valid secret reference: expected env or file".to_string())
    );
    assert_eq!(
        secret("token", SecretLookup::Unresolved("HASS_TOKEN is not set".to_string())),
        Err("token: HASS_TOKEN is not set".to_string())
    );
    assert_eq!(required_secret("absent", SecretLookup::Absent), Err("absent is required".to_string()));
    assert_eq!(
        required_secret("token", SecretLookup::Resolved("hunter2".to_string())),
        Ok("hunter2".to_string())
    );
}
