use std::time::Duration;

use launchpi::http::{HttpConfig, PollConfig};
use launchpi::mpris::{MprisConfig, PlaybackStatus};
use launchpi::prometheus::PrometheusConfig;

#[test]
fn an_empty_configuration_still_polls_the_position() {
    assert_eq!(
        MprisConfig::default().position_interval(),
        Duration::from_millis(1_000)
    );
}

#[test]
fn a_position_interval_never_drops_below_the_floor() {
    let config = MprisConfig {
        position_interval_ms: Some(5),
        ..MprisConfig::default()
    };
    assert_eq!(config.position_interval(), Duration::from_millis(200));
}

#[test]
fn a_configured_position_interval_above_the_floor_is_kept() {
    let config = MprisConfig {
        position_interval_ms: Some(750),
        ..MprisConfig::default()
    };
    assert_eq!(config.position_interval(), Duration::from_millis(750));
}

#[test]
fn the_three_mpris_statuses_parse_and_anything_else_is_stopped() {
    assert_eq!(PlaybackStatus::parse("Playing"), PlaybackStatus::Playing);
    assert_eq!(PlaybackStatus::parse(" paused "), PlaybackStatus::Paused);
    assert_eq!(PlaybackStatus::parse("Stopped"), PlaybackStatus::Stopped);
    assert_eq!(PlaybackStatus::parse(""), PlaybackStatus::Stopped);
    assert_eq!(PlaybackStatus::parse("buffering"), PlaybackStatus::Stopped);
}

#[test]
fn a_status_reads_back_from_its_own_word() {
    for status in [
        PlaybackStatus::Stopped,
        PlaybackStatus::Paused,
        PlaybackStatus::Playing,
    ] {
        assert_eq!(PlaybackStatus::parse(status.as_str()), status);
    }
    assert!(PlaybackStatus::Playing.is_playing());
    assert!(!PlaybackStatus::Paused.is_playing());
    assert!(PlaybackStatus::Playing > PlaybackStatus::Paused);
    assert!(PlaybackStatus::Paused > PlaybackStatus::Stopped);
}

#[test]
fn a_poll_interval_never_drops_below_the_floor() {
    let poll = PollConfig {
        name: "value".to_string(),
        path: "/".to_string(),
        interval_ms: Some(1),
        extract: None,
    };
    assert_eq!(poll.interval(), Duration::from_millis(100));
}

#[test]
fn an_unconfigured_poll_runs_every_minute() {
    let poll = PollConfig {
        name: "value".to_string(),
        path: "/".to_string(),
        interval_ms: None,
        extract: None,
    };
    assert_eq!(poll.interval(), Duration::from_millis(60_000));
}

#[test]
fn a_relative_path_joins_onto_the_base_url() {
    let config = HttpConfig {
        base_url: Some("https://api.example.com/".to_string()),
        ..HttpConfig::default()
    };
    assert_eq!(
        config.resolve_url("/v1/forecast"),
        Ok("https://api.example.com/v1/forecast".to_string())
    );
}

#[test]
fn an_absolute_url_ignores_the_base_url() {
    let config = HttpConfig {
        base_url: Some("https://api.example.com".to_string()),
        ..HttpConfig::default()
    };
    assert_eq!(
        config.resolve_url("http://other.local/status"),
        Ok("http://other.local/status".to_string())
    );
}

#[test]
fn a_relative_path_without_a_base_url_is_an_error() {
    assert!(HttpConfig::default().resolve_url("/v1/forecast").is_err());
    assert_eq!(
        HttpConfig::default().resolve_url("status"),
        Err("status is relative and this instance has no base_url".to_string())
    );
}

#[test]
fn a_request_times_out_after_five_seconds_unless_configured() {
    assert_eq!(HttpConfig::default().timeout(), Duration::from_millis(5_000));
    let config = HttpConfig {
        timeout_ms: Some(250),
        ..HttpConfig::default()
    };
    assert_eq!(config.timeout(), Duration::from_millis(250));
}

#[test]
fn a_scrape_interval_never_drops_below_ten_seconds() {
    assert_eq!(
        PrometheusConfig::default().scrape_interval(),
        Duration::from_secs(30)
    );
    let config = PrometheusConfig {
        scrape_interval_s: Some(2),
        ..PrometheusConfig::default()
    };
    assert_eq!(config.scrape_interval(), Duration::from_secs(10));
}

#[test]
fn a_target_must_be_an_absolute_url() {
    assert_eq!(
        PrometheusConfig::default().base_url(),
        Err("target is required".to_string())
    );
    let relative = PrometheusConfig {
        target: "prometheus.local:9090".to_string(),
        ..PrometheusConfig::default()
    };
    assert_eq!(
        relative.base_url(),
        Err(
            "target must be an absolute URL (http:// or https://), got: prometheus.local:9090"
                .to_string()
        )
    );
    let absolute = PrometheusConfig {
        target: "http://prometheus.local:9090".to_string(),
        ..PrometheusConfig::default()
    };
    assert_eq!(
        absolute.base_url(),
        Ok("http://prometheus.local:9090".to_string())
    );
}

#[test]
fn the_default_scrape_path_queries_every_series() {
    assert_eq!(
        PrometheusConfig::default().scrape_path(),
        "/api/v1/query?query=%7B__name__%3D~'.%2B'%7D"
    );
    let raw = PrometheusConfig {
        path: Some("/metrics".to_string()),
        ..PrometheusConfig::default()
    };
    assert_eq!(raw.scrape_path(), "/metrics");
}
