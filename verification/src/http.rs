//! The HTTP integration's configuration: where requests go, how long they may
//! take, and how often each poll runs.

use vstd::prelude::*;
use core::time::Duration;
use std::collections::BTreeMap;
use crate::text::{
    chars_of, owned, result_view, starts_with, str_starts_with, string_of, trim_end_bound,
    trim_end_char, trim_start_bound, trim_start_char,
};
use crate::time::{duration_from_millis, millis_duration};
use crate::json::{get, member_of};
use crate::numbers::{parse_bounded_spec, parse_radix};
use crate::panels::JsonValue;
use crate::manifest::{
    field_is, ActionDefinition, ConfigField, ConfigFieldKind, PluginManifest, VariableDefinition, VariableKind,
};
use crate::prometheus::{action_is, variable_is};

verus! {

/// How long a request may take when a configuration does not say.
pub const DEFAULT_TIMEOUT_MS: u64 = 5_000;

/// How often a poll runs when it does not say.
pub const DEFAULT_INTERVAL_MS: u64 = 60_000;

/// Polling more often than this only loads the server.
pub const MINIMUM_INTERVAL_MS: u64 = 100;

/// A poll with no `extract` publishes the whole body. Long bodies are not
/// useful on a 96 by 96 key and holding them in the variable store serves
/// nothing.
pub const MAX_BODY_VARIABLE_LENGTH: usize = 512;

/// A TOML value, as a configuration file holds it.
#[verifier::external_type_specification]
#[verifier::external_body]
pub struct ExTomlValue(toml::Value);

/// An instance's configuration.
#[derive(Clone, Debug)]
pub struct HttpConfig {
    pub base_url: Option<String>,
    pub timeout_ms: Option<u64>,
    /// Sent verbatim as the `Authorization` header when set; an inline
    /// string or a reference to where the secret is kept.
    pub authorization: Option<toml::Value>,
    pub headers: BTreeMap<String, String>,
    pub poll: Vec<PollConfig>,
}

impl Default for HttpConfig {
    fn default() -> (config: Self)
        ensures
            config.base_url is None,
            config.timeout_ms is None,
            config.authorization is None,
            config.headers@ == Map::<String, String>::empty(),
            config.poll@.len() == 0,
    {
        HttpConfig {
            base_url: None,
            timeout_ms: None,
            authorization: None,
            headers: BTreeMap::new(),
            poll: Vec::new(),
        }
    }
}

/// Where a request for `path` goes: an absolute URL as written, or the path
/// joined onto the base with exactly one slash between them.
pub open spec fn resolve_url_spec(base_url: Option<Seq<char>>, path: Seq<char>) -> Result<
    Seq<char>,
    Seq<char>,
> {
    if starts_with(path, "http://"@) || starts_with(path, "https://"@) {
        Ok(path)
    } else {
        match base_url {
            None => Err(path + " is relative and this instance has no base_url"@),
            Some(base) => Ok(trim_end_char(base, '/') + "/"@ + trim_start_char(path, '/')),
        }
    }
}

impl HttpConfig {
    /// How long a request may take.
    pub fn timeout(&self) -> (timeout: Duration)
        ensures
            timeout == millis_duration(
                match self.timeout_ms {
                    Some(ms) => ms,
                    None => DEFAULT_TIMEOUT_MS,
                },
            ),
    {
        let ms = match self.timeout_ms {
            Some(ms) => ms,
            None => DEFAULT_TIMEOUT_MS,
        };
        duration_from_millis(ms)
    }

    /// Joins a request path onto the configured base. An absolute URL in the
    /// path wins, so one instance can serve both a base-relative poll and a
    /// one-off call elsewhere.
    pub fn resolve_url(&self, path: &str) -> (url: Result<String, String>)
        ensures
            result_view(url) == resolve_url_spec(crate::text::option_view(self.base_url), path@),
    {
        if str_starts_with(path, "http://") || str_starts_with(path, "https://") {
            return Ok(owned(path));
        }
        match &self.base_url {
            None => {
                let mut message = owned(path);
                message.push_str(" is relative and this instance has no base_url");
                Err(message)
            },
            Some(base) => {
                let base_chars = chars_of(base.as_str());
                let path_chars = chars_of(path);
                proof {
                    assert(base_chars@.subrange(0, base_chars@.len() as int) =~= base_chars@);
                    assert(path_chars@.subrange(0, path_chars@.len() as int) =~= path_chars@);
                }
                let base_end = trim_end_bound(&base_chars, 0, base_chars.len(), '/');
                let path_start = trim_start_bound(&path_chars, 0, path_chars.len(), '/');
                let mut url = string_of(&base_chars, 0, base_end);
                url.push_str("/");
                let rest = string_of(&path_chars, path_start, path_chars.len());
                url.push_str(rest.as_str());
                Ok(url)
            },
        }
    }
}

/// One request run on a schedule, whose answer is published under `name`.
#[derive(Clone, Debug)]
pub struct PollConfig {
    pub name: String,
    pub path: String,
    pub interval_ms: Option<u64>,
    /// A dotted path into the JSON response. Absent means publish the body as
    /// text.
    pub extract: Option<String>,
}

/// The poll interval in milliseconds: the configured one, or the default,
/// and never below the floor.
pub open spec fn poll_interval_ms_spec(configured: Option<u64>) -> u64 {
    let asked = match configured {
        Some(ms) => ms,
        None => DEFAULT_INTERVAL_MS,
    };
    if asked < MINIMUM_INTERVAL_MS {
        MINIMUM_INTERVAL_MS
    } else {
        asked
    }
}

impl PollConfig {
    /// How often the poll runs.
    pub fn interval(&self) -> (interval: Duration)
        ensures
            interval == millis_duration(poll_interval_ms_spec(self.interval_ms)),
    {
        let asked = match self.interval_ms {
            Some(ms) => ms,
            None => DEFAULT_INTERVAL_MS,
        };
        let ms = if asked < MINIMUM_INTERVAL_MS {
            MINIMUM_INTERVAL_MS
        } else {
            asked
        };
        duration_from_millis(ms)
    }
}

/// One step of a dotted path: the member of an object named `segment`, or
/// the item of an array at the index `segment` reads as; nothing from any
/// other value.
pub open spec fn path_step(current: Option<JsonValue>, segment: Seq<char>) -> Option<JsonValue> {
    match current {
        Some(JsonValue::Object(fields)) => member_of(fields@, segment),
        Some(JsonValue::Array(items)) => match parse_bounded_spec(segment, 10, usize::MAX as nat) {
            Some(index) => if index < items@.len() {
                Some(items@[index as int])
            } else {
                None
            },
            None => None,
        },
        _ => None,
    }
}

/// A step for a segment that is not empty; an empty one is skipped.
pub open spec fn finish_segment(current: Option<JsonValue>, segment: Seq<char>) -> Option<JsonValue> {
    if segment.len() == 0 {
        current
    } else {
        path_step(current, segment)
    }
}

/// Walking the rest of a dotted path from `current`, the segment read so
/// far being `segment`: every dot ends a segment.
pub open spec fn walk_path(current: Option<JsonValue>, segment: Seq<char>, rest: Seq<char>) -> Option<JsonValue>
    decreases rest.len(),
{
    if rest.len() == 0 {
        finish_segment(current, segment)
    } else if rest[0] == '.' {
        walk_path(finish_segment(current, segment), Seq::empty(), rest.drop_first())
    } else {
        walk_path(current, segment.push(rest[0]), rest.drop_first())
    }
}

pub(crate) fn step<'a>(current: &'a JsonValue, segment: &Vec<char>) -> (next: Option<&'a JsonValue>)
    ensures
        match next {
            Some(v) => path_step(Some(*current), segment@) == Some(*v),
            None => path_step(Some(*current), segment@) is None,
        },
{
    let text = string_of(segment, 0, segment.len());
    proof {
        assert(segment@.subrange(0, segment@.len() as int) =~= segment@);
    }
    match current {
        JsonValue::Object(_) => get(current, text.as_str()),
        JsonValue::Array(items) => match parse_radix(text.as_str(), 10, usize::MAX as u64) {
            Some(index) => if index < items.len() as u64 {
                Some(&items[index as usize])
            } else {
                None
            },
            None => None,
        },
        _ => None,
    }
}

/// Walks a dotted path into a JSON document. Numeric segments index arrays,
/// so `results.0.temperature` works; empty segments are skipped.
pub fn extract_value<'a>(document: &'a JsonValue, path: &str) -> (found: Option<&'a JsonValue>)
    ensures
        match found {
            Some(v) => walk_path(Some(*document), Seq::empty(), path@) == Some(*v),
            None => walk_path(Some(*document), Seq::empty(), path@) is None,
        },
{
    let chars = chars_of(path);
    let mut current: Option<&JsonValue> = Some(document);
    let mut segment: Vec<char> = Vec::new();
    let mut i: usize = 0;
    assert(chars@.skip(0) =~= chars@);
    while i < chars.len()
        invariant
            chars@ == path@,
            i <= chars@.len(),
            walk_path(Some(*document), Seq::empty(), path@) == walk_path(
                match current {
                    Some(v) => Some(*v),
                    None => None,
                },
                segment@,
                chars@.skip(i as int),
            ),
        decreases chars.len() - i,
    {
        let ghost rest = chars@.skip(i as int);
        assert(rest[0] == chars@[i as int]);
        assert(rest.drop_first() =~= chars@.skip(i + 1));
        if chars[i] == '.' {
            if segment.len() > 0 {
                current = match current {
                    Some(v) => step(v, &segment),
                    None => None,
                };
            }
            segment = Vec::new();
        } else {
            segment.push(chars[i]);
        }
        i += 1;
    }
    assert(chars@.skip(i as int).len() == 0);
    if segment.len() > 0 {
        current = match current {
            Some(v) => step(v, &segment),
            None => None,
        };
    }
    current
}

/// The text a poll without an `extract` publishes: the body's first 512
/// characters.
pub fn body_text(body: &str) -> (text: String)
    ensures
        text@ == body@.take(if body@.len() < MAX_BODY_VARIABLE_LENGTH { body@.len() as int } else { MAX_BODY_VARIABLE_LENGTH as int }),
{
    let chars = chars_of(body);
    let end = if chars.len() < MAX_BODY_VARIABLE_LENGTH {
        chars.len()
    } else {
        MAX_BODY_VARIABLE_LENGTH
    };
    let text = string_of(&chars, 0, end);
    assert(chars@.subrange(0, end as int) =~= body@.take(end as int));
    text
}

/// The integration's manifest: a base URL, a timeout and an authorization
/// to configure, one request action, and one value per poll.
pub fn manifest() -> (manifest: PluginManifest)
    ensures
        manifest.plugin_type@ == "http"@,
        manifest.display_name@ == "HTTP"@,
        manifest.description@ == "Call HTTP endpoints and publish values from their responses."@,
        manifest.config_schema@.len() == 3,
        field_is(
            manifest.config_schema@[0],
            "base_url"@,
            "Base URL"@,
            false,
            Some("https://api.example.com"@),
            Some("Prefixed onto any request path that is not already an absolute URL."@),
        ),
        manifest.config_schema@[0].kind is Text,
        field_is(manifest.config_schema@[1], "timeout_ms"@, "Timeout (ms)"@, false, None, None),
        manifest.config_schema@[1].kind is Number,
        field_is(
            manifest.config_schema@[2],
            "authorization"@,
            "Authorization"@,
            false,
            None,
            Some("Sent verbatim as the Authorization header."@),
        ),
        manifest.config_schema@[2].kind is Secret,
        manifest.actions@.len() == 1,
        action_is(manifest.actions@[0], "request"@, "Send request"@, 4),
        field_is(manifest.actions@[0].parameters@[0], "method"@, "Method"@, true, None, None),
        manifest.actions@[0].parameters@[0].kind matches ConfigFieldKind::Select { options } && options@.len() == 5,
        field_is(manifest.actions@[0].parameters@[1], "path"@, "Path"@, true, None, None),
        field_is(manifest.actions@[0].parameters@[2], "body"@, "Body"@, false, None, None),
        field_is(
            manifest.actions@[0].parameters@[3],
            "content_type"@,
            "Content type"@,
            false,
            Some("application/json"@),
            None,
        ),
        manifest.variables@.len() == 1,
        variable_is(manifest.variables@[0], "<poll name>"@, VariableKind::Text),
{
    PluginManifest {
        plugin_type: "http",
        display_name: "HTTP",
        description: "Call HTTP endpoints and publish values from their responses.",
        config_schema: vec![
            ConfigField::text("base_url").label("Base URL").placeholder("https://api.example.com").help(
                "Prefixed onto any request path that is not already an absolute URL.",
            ),
            ConfigField::number("timeout_ms").label("Timeout (ms)"),
            ConfigField::secret("authorization").label("Authorization").help(
                "Sent verbatim as the Authorization header.",
            ),
        ],
        actions: vec![
            ActionDefinition::new("request").label("Send request").description(
                "Performs one HTTP request. Every field resolves $(...) references.",
            ).parameters(
                vec![
                    ConfigField::select("method", &["GET", "POST", "PUT", "PATCH", "DELETE"]).label(
                        "Method",
                    ).required(),
                    ConfigField::text("path").label("Path").required(),
                    ConfigField::text("body").label("Body"),
                    ConfigField::text("content_type").label("Content type").placeholder("application/json"),
                ],
            ),
        ],
        variables: vec![
            VariableDefinition::new("<poll name>", VariableKind::Text).description(
                "One variable per [[config.poll]] entry, named by its name field.",
            ),
        ],
    }
}

} // verus!

verus! {

/// A configured poll interval of at least 100 ms is used as it is; a
/// shorter one is raised to 100 ms; with none, the poll runs every minute.
pub proof fn lemma_poll_interval_respects_configuration(ms: u64)
    ensures
        ms >= 100 ==> poll_interval_ms_spec(Some(ms)) == ms,
        ms < 100 ==> poll_interval_ms_spec(Some(ms)) == 100,
        poll_interval_ms_spec(None) == 60000,
{
}

/// A relative path joined onto a base URL: the base without its trailing
/// slashes (the first `kept` characters), exactly one `/`, then the path
/// without its leading slashes (all but the first `skipped` characters),
/// whether or not the base ends in `/` or the path starts with one.
pub proof fn lemma_relative_path_joins_with_one_slash(base: Seq<char>, path: Seq<char>, kept: int, skipped: int)
    requires
        !starts_with(path, "http://"@),
        !starts_with(path, "https://"@),
        0 <= kept <= base.len(),
        forall|m: int| kept <= m < base.len() ==> base[m] == '/',
        kept == 0 || base[kept - 1] != '/',
        0 <= skipped <= path.len(),
        forall|m: int| 0 <= m < skipped ==> path[m] == '/',
        skipped == path.len() || path[skipped] != '/',
    ensures
        resolve_url_spec(Some(base), path) == Ok::<Seq<char>, Seq<char>>(base.take(kept) + seq!['/'] + path.skip(skipped)),
{
    crate::text::lemma_trim_end_char_is(base, '/', kept);
    crate::text::lemma_trim_start_char_is(path, '/', skipped);
    reveal_strlit("/");
    assert("/"@ =~= seq!['/']);
}

/// An absolute `http` or `https` URL is requested as written, whatever the
/// base; a relative path without a base is refused, naming the path.
pub proof fn lemma_absolute_urls_pass_and_relative_ones_need_a_base(base: Option<Seq<char>>, path: Seq<char>)
    ensures
        (starts_with(path, "http://"@) || starts_with(path, "https://"@)) ==> resolve_url_spec(base, path)
            == Ok::<Seq<char>, Seq<char>>(path),
        !(starts_with(path, "http://"@) || starts_with(path, "https://"@)) && base is None ==> resolve_url_spec(
            base,
            path,
        ) == Err::<Seq<char>, Seq<char>>(path + " is relative and this instance has no base_url"@),
{
}

} // verus!
