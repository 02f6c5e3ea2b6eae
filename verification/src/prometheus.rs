//! The Prometheus integration's configuration: where it scrapes, how often,
//! and which path it asks for.

use vstd::prelude::*;
use core::time::Duration;
use std::collections::BTreeMap;
use crate::text::{chars_of, owned, starts_with, str_starts_with, result_view, option_view};
use crate::time::{duration_from_secs, seconds_duration};
use crate::json::{field, field_of, get, get_text, text_of};
use crate::panels::{Bar, ColorBinding, ControlTemplate, Edge, JsonValue, RenderedState, RgbaColor, ValueBinding};
use crate::manifest::{
    field_is, ActionDefinition, ConfigField, PluginManifest, VariableDefinition, VariableKind,
};
use crate::preset::Preset;
use vstd::utf8::encode_utf8;
use vstd::string::StringSliceAdditionalSpecFns;

verus! {

/// How often a target is scraped when a configuration does not say.
pub const DEFAULT_SCRAPE_INTERVAL_S: u64 = 30;

/// Scraping more often than this only loads the server.
pub const MINIMUM_SCRAPE_INTERVAL_S: u64 = 10;

/// The query a standard Prometheus answers with every series it holds.
pub const DEFAULT_SCRAPE_PATH: &'static str = "/api/v1/query?query=%7B__name__%3D~'.%2B'%7D";

/// An instance's configuration.
#[derive(Clone, Debug)]
pub struct PrometheusConfig {
    pub target: String,
    pub scrape_interval_s: Option<u64>,
    pub bearer_token: Option<String>,
    pub headers: BTreeMap<String, String>,
    /// The scrape path: the default query for a standard Prometheus, or
    /// `/metrics` for the raw exposition format.
    pub path: Option<String>,
}

impl Default for PrometheusConfig {
    fn default() -> (config: Self)
        ensures
            config.target@ == Seq::<char>::empty(),
            config.scrape_interval_s is None,
            config.bearer_token is None,
            config.headers@ == Map::<String, String>::empty(),
            config.path is None,
    {
        PrometheusConfig {
            target: String::new(),
            scrape_interval_s: None,
            bearer_token: None,
            headers: BTreeMap::new(),
            path: None,
        }
    }
}

/// The scrape interval in seconds: the configured one, or the default, and
/// never below the floor.
pub open spec fn scrape_interval_s_spec(configured: Option<u64>) -> u64 {
    let asked = match configured {
        Some(seconds) => seconds,
        None => DEFAULT_SCRAPE_INTERVAL_S,
    };
    if asked < MINIMUM_SCRAPE_INTERVAL_S {
        MINIMUM_SCRAPE_INTERVAL_S
    } else {
        asked
    }
}

/// The target itself when it is an absolute `http` or `https` URL, or what
/// is wrong with it.
pub open spec fn base_url_spec(target: Seq<char>) -> Result<Seq<char>, Seq<char>> {
    if target.len() == 0 {
        Err("target is required"@)
    } else if !starts_with(target, "http://"@) && !starts_with(target, "https://"@) {
        Err("target must be an absolute URL (http:// or https://), got: "@ + target)
    } else {
        Ok(target)
    }
}

impl PrometheusConfig {
    /// How often the target is scraped.
    pub fn scrape_interval(&self) -> (interval: Duration)
        ensures
            interval == seconds_duration(scrape_interval_s_spec(self.scrape_interval_s)),
    {
        let asked = match self.scrape_interval_s {
            Some(seconds) => seconds,
            None => DEFAULT_SCRAPE_INTERVAL_S,
        };
        let seconds = if asked < MINIMUM_SCRAPE_INTERVAL_S {
            MINIMUM_SCRAPE_INTERVAL_S
        } else {
            asked
        };
        duration_from_secs(seconds)
    }

    /// The server every request goes to.
    pub fn base_url(&self) -> (url: Result<String, String>)
        ensures
            result_view(url) == base_url_spec(self.target@),
    {
        if chars_of(self.target.as_str()).len() == 0 {
            return Err(owned("target is required"));
        }
        let target = self.target.as_str();
        if !str_starts_with(target, "http://") && !str_starts_with(target, "https://") {
            let mut message = owned("target must be an absolute URL (http:// or https://), got: ");
            message.push_str(target);
            return Err(message);
        }
        Ok(self.target.clone())
    }

    /// The path a scrape asks for.
    pub fn scrape_path(&self) -> (path: String)
        ensures
            path@ == match option_view(self.path) {
                Some(p) => p,
                None => DEFAULT_SCRAPE_PATH@,
            },
    {
        match &self.path {
            Some(path) => path.clone(),
            None => owned(DEFAULT_SCRAPE_PATH),
        }
    }
}

/// Past this many bytes the `metrics` summary takes no more samples.
pub const MAX_METRICS_TEXT_LENGTH: usize = 512;

/// The series of a query answer: `data.result`, when it is an array.
pub open spec fn result_items(body: JsonValue) -> Option<Seq<JsonValue>> {
    match field_of(field(body, "data"@), "result"@) {
        Some(JsonValue::Array(items)) => Some(items@),
        _ => None,
    }
}

/// The sample text of a series: the second item of its `value`, when that is
/// text.
pub open spec fn sample_text(series: JsonValue) -> Option<Seq<char>> {
    match field(series, "value"@) {
        Some(JsonValue::Array(pair)) => if pair@.len() > 1 {
            text_of(Some(pair@[1]))
        } else {
            None
        },
        _ => None,
    }
}

/// A series' metric name and sample text, when it has both.
pub open spec fn named_sample(series: JsonValue) -> Option<(Seq<char>, Seq<char>)> {
    match (text_of(field_of(field(series, "metric"@), "__name__"@)), sample_text(series)) {
        (Some(name), Some(value)) => Some((name, value)),
        _ => None,
    }
}

/// The named samples among the series, in order.
pub open spec fn named_samples(items: Seq<JsonValue>) -> Seq<(Seq<char>, Seq<char>)>
    decreases items.len(),
{
    if items.len() == 0 {
        Seq::empty()
    } else {
        match named_sample(items.last()) {
            Some(sample) => named_samples(items.drop_last()).push(sample),
            None => named_samples(items.drop_last()),
        }
    }
}

/// The `metrics` summary of samples: `name:value` joined by commas, taking
/// samples while the text is under 512 bytes.
pub open spec fn metrics_summary(samples: Seq<(Seq<char>, Seq<char>)>) -> Seq<char>
    decreases samples.len(),
{
    if samples.len() == 0 {
        Seq::empty()
    } else {
        let before = metrics_summary(samples.drop_last());
        let sample = samples.last();
        if (encode_utf8(before).len() as usize) < MAX_METRICS_TEXT_LENGTH {
            if before.len() == 0 {
                sample.0 + ":"@ + sample.1
            } else {
                before + ","@ + sample.0 + ":"@ + sample.1
            }
        } else {
            before
        }
    }
}

fn sample_of(series: &JsonValue) -> (sample: Option<(String, String)>)
    ensures
        match sample {
            Some((name, value)) => named_sample(*series) == Some((name@, value@)),
            None => named_sample(*series) is None,
        },
{
    let name = match get(series, "metric") {
        Some(metric) => match get_text(metric, "__name__") {
            Some(name) => name,
            None => return None,
        },
        None => return None,
    };
    let value = match get(series, "value") {
        Some(JsonValue::Array(pair)) => if pair.len() > 1 {
            match &pair[1] {
                JsonValue::Text(text) => text,
                _ => return None,
            }
        } else {
            return None;
        },
        _ => return None,
    };
    Some((owned(name.as_str()), owned(value.as_str())))
}

/// What a scrape publishes: each series' metric name with its sample text,
/// in order, and the `metrics` summary of them; nothing when the answer has
/// no `data.result` array.
pub fn scraped_samples(body: &JsonValue) -> (scraped: Option<(Vec<(String, String)>, String)>)
    ensures
        match scraped {
            Some((samples, summary)) => result_items(*body) matches Some(items) && samples@.len()
                == named_samples(items).len() && (forall|i: int|
                0 <= i < samples@.len() ==> (#[trigger] samples@[i]).0@ == named_samples(items)[i].0
                    && samples@[i].1@ == named_samples(items)[i].1) && summary@ == metrics_summary(
                named_samples(items),
            ),
            None => result_items(*body) is None,
        },
{
    let items = match get(body, "data") {
        Some(data) => match get(data, "result") {
            Some(JsonValue::Array(items)) => items,
            _ => return None,
        },
        None => return None,
    };
    let ghost all = items@;
    let mut samples: Vec<(String, String)> = Vec::new();
    let mut summary = String::new();
    let mut i: usize = 0;
    while i < items.len()
        invariant
            items@ == all,
            i <= all.len(),
            samples@.len() == named_samples(all.take(i as int)).len(),
            forall|j: int|
                0 <= j < samples@.len() ==> (#[trigger] samples@[j]).0@ == named_samples(all.take(i as int))[j].0
                    && samples@[j].1@ == named_samples(all.take(i as int))[j].1,
            summary@ == metrics_summary(named_samples(all.take(i as int))),
        decreases items.len() - i,
    {
        let ghost before = named_samples(all.take(i as int));
        assert(all.take(i + 1).drop_last() =~= all.take(i as int));
        assert(all.take(i + 1).last() == all[i as int]);
        match sample_of(&items[i]) {
            Some((name, value)) => {
                proof {
                    assert(named_samples(all.take(i + 1)) == before.push((name@, value@)));
                    assert(named_samples(all.take(i + 1)).drop_last() =~= before);
                }
                proof {
                    reveal_strlit(":");
                    reveal_strlit(",");
                }
                let ghost text_before = summary@;
                let bytes = summary.as_str().len();
                assert(bytes == encode_utf8(text_before).len() as usize);
                if bytes < MAX_METRICS_TEXT_LENGTH {
                    let started = summary.as_str().is_empty();
                    if !started {
                        summary.push(',');
                    }
                    let ghost joined = summary@;
                    summary.push_str(name.as_str());
                    summary.push(':');
                    summary.push_str(value.as_str());
                    proof {
                        if text_before.len() == 0 {
                            assert(summary@ =~= name@ + ":"@ + value@);
                        } else {
                            assert(joined =~= text_before + ","@);
                            assert(summary@ =~= text_before + ","@ + name@ + ":"@ + value@);
                        }
                    }
                }
                samples.push((name, value));
            },
            None => {},
        }
        i += 1;
    }
    assert(all.take(all.len() as int) =~= all);
    Some((samples, summary))
}

/// The sample text of a query's first series. An answer without a
/// `data.result` array returned no results; one whose first series has no
/// sample text has no value.
pub fn first_sample(body: &JsonValue) -> (sample: Result<String, String>)
    ensures
        match sample {
            Ok(value) => result_items(*body) matches Some(items) && items.len() > 0 && sample_text(items[0])
                == Some(value@),
            Err(reason) => match result_items(*body) {
                None => reason@ == "No results returned from query"@,
                Some(items) => (items.len() == 0 || sample_text(items[0]) is None) && reason@
                    == "No value in query result"@,
            },
        },
{
    let items = match get(body, "data") {
        Some(data) => match get(data, "result") {
            Some(JsonValue::Array(items)) => items,
            _ => return Err(owned("No results returned from query")),
        },
        None => return Err(owned("No results returned from query")),
    };
    if items.len() == 0 {
        return Err(owned("No value in query result"));
    }
    match get(&items[0], "value") {
        Some(JsonValue::Array(pair)) => if pair.len() > 1 {
            match &pair[1] {
                JsonValue::Text(text) => Ok(owned(text.as_str())),
                _ => Err(owned("No value in query result")),
            }
        } else {
            Err(owned("No value in query result"))
        },
        _ => Err(owned("No value in query result")),
    }
}

/// An action with the given name and label and that many parameters.
pub open spec fn action_is(action: ActionDefinition, name: Seq<char>, label: Seq<char>, parameters: nat) -> bool {
    action.name@ == name && action.label@ == label && action.parameters@.len() == parameters
}

/// A published value with the given name and kind.
pub open spec fn variable_is(variable: VariableDefinition, name: Seq<char>, kind: VariableKind) -> bool {
    variable.name@ == name && variable.kind == kind
}

/// The integration's manifest: a target, an interval and a token to
/// configure, one query action, and the scraped summary it publishes.
pub fn manifest() -> (manifest: PluginManifest)
    ensures
        manifest.plugin_type@ == "prometheus"@,
        manifest.display_name@ == "Prometheus"@,
        manifest.description@ == "Scrape Prometheus metrics and publish them as variables."@,
        manifest.config_schema@.len() == 3,
        field_is(
            manifest.config_schema@[0],
            "target"@,
            "Target URL"@,
            true,
            Some("http://prometheus:9090"@),
            Some("The base URL of the Prometheus server."@),
        ),
        manifest.config_schema@[0].kind is Text,
        field_is(
            manifest.config_schema@[1],
            "scrape_interval_s"@,
            "Scrape interval (seconds)"@,
            false,
            Some("30"@),
            Some("How often to scrape metrics. Minimum 10 seconds."@),
        ),
        manifest.config_schema@[1].kind is Number,
        field_is(
            manifest.config_schema@[2],
            "bearer_token"@,
            "Bearer token"@,
            false,
            None,
            Some("Optional Bearer token for authentication."@),
        ),
        manifest.config_schema@[2].kind is Secret,
        manifest.actions@.len() == 1,
        action_is(manifest.actions@[0], "query"@, "Run PromQL query"@, 2),
        manifest.actions@[0].parameters@[0].key@ == "query"@ && manifest.actions@[0].parameters@[0].is_required,
        manifest.actions@[0].parameters@[1].key@ == "variable_name"@
            && manifest.actions@[0].parameters@[1].is_required,
        manifest.variables@.len() == 1,
        variable_is(manifest.variables@[0], "metrics"@, VariableKind::Text),
{
    PluginManifest {
        plugin_type: "prometheus",
        display_name: "Prometheus",
        description: "Scrape Prometheus metrics and publish them as variables.",
        config_schema: vec![
            ConfigField::text("target").label("Target URL").required().placeholder(
                "http://prometheus:9090",
            ).help("The base URL of the Prometheus server."),
            ConfigField::number("scrape_interval_s").label("Scrape interval (seconds)").placeholder(
                "30",
            ).help("How often to scrape metrics. Minimum 10 seconds."),
            ConfigField::secret("bearer_token").label("Bearer token").help(
                "Optional Bearer token for authentication.",
            ),
        ],
        actions: vec![
            ActionDefinition::new("query").label("Run PromQL query").description(
                "Execute an arbitrary PromQL query and publish the result.",
            ).parameters(
                vec![
                    ConfigField::text("query").label("PromQL query").required().placeholder(
                        "up or 100 * (1 - node_cpu_seconds_total{mode=\"idle\"} / rate(node_cpu_seconds_total[5m]))",
                    ),
                    ConfigField::text("variable_name").label("Variable name").required().placeholder(
                        "custom_metric",
                    ),
                ],
            ),
        ],
        variables: vec![
            VariableDefinition::new("metrics", VariableKind::Text).description(
                "Last scraped metrics as a JSON text blob (truncated).",
            ),
        ],
    }
}

/// A key that shows a percentage query in white on black, over an empty
/// white bar along its bottom edge.
pub open spec fn is_percentage_state(state: RenderedState, promql: Seq<char>) -> bool {
    &&& state.text matches Some(t) && t@ == promql
    &&& state.foreground_color == Some(ColorBinding::Literal(RgbaColor { red: 255, green: 255, blue: 255, alpha: 255 }))
    &&& state.background_color == Some(ColorBinding::Literal(RgbaColor { red: 0, green: 0, blue: 0, alpha: 255 }))
    &&& state.image is None
    &&& state.image_tint is None
    &&& state.overlay_image is None
    &&& state.border is None
    &&& state.bar == Some(Bar {
        value: ValueBinding::Literal(0),
        maximum: ValueBinding::Literal(100),
        color: ColorBinding::Literal(RgbaColor { red: 255, green: 255, blue: 255, alpha: 255 }),
        edge: Edge::Bottom,
        thickness: 5,
    })
    &&& !state.is_pressed
}

fn percentage_state(promql: &str) -> (state: RenderedState)
    ensures
        is_percentage_state(state, promql@),
{
    let mut state = RenderedState::labelled(
        promql,
        RgbaColor::opaque(255, 255, 255),
        RgbaColor::opaque(0, 0, 0),
        false,
    );
    state.bar = Some(
        Bar {
            value: ValueBinding::Literal(0),
            maximum: ValueBinding::Literal(100),
            color: ColorBinding::Literal(RgbaColor::opaque(255, 255, 255)),
            edge: Edge::Bottom,
            thickness: 5,
        },
    );
    state
}

/// A recommended key that shows the query `promql`.
pub open spec fn is_usage_preset(preset: Preset, id: Seq<char>, name: Seq<char>, description: Seq<char>, promql: Seq<char>) -> bool {
    &&& preset.preset_id@ == id
    &&& preset.category@ == "Prometheus"@
    &&& preset.name@ == name
    &&& preset.description matches Some(d) && d@ == description
    &&& preset.control.name@ == name
    &&& is_percentage_state(preset.control.default_state, promql)
    &&& preset.control.pressed_state is None
    &&& preset.control.action_bindings@.len() == 0
}

fn usage_preset(id: &str, name: &str, description: &str, promql: &str) -> (preset: Preset)
    ensures
        is_usage_preset(preset, id@, name@, description@, promql@),
{
    Preset {
        preset_id: owned(id),
        category: owned("Prometheus"),
        name: owned(name),
        description: Some(owned(description)),
        control: ControlTemplate {
            name: owned(name),
            default_state: percentage_state(promql),
            pressed_state: None,
            action_bindings: Vec::new(),
        },
    }
}

/// The keys the integration recommends: CPU, memory and disk use.
pub fn presets() -> (presets: Vec<Preset>)
    ensures
        presets@.len() == 3,
        is_usage_preset(
            presets@[0],
            "cpu_usage"@,
            "CPU Usage"@,
            "CPU utilization percentage."@,
            "$(self:100 * (1 - avg(rate(node_cpu_seconds_total{mode=\"idle\"}[5m]))))"@,
        ),
        is_usage_preset(
            presets@[1],
            "memory_usage"@,
            "Memory Usage"@,
            "Memory utilization percentage."@,
            "$(self:100 * (1 - node_memory_MemAvailable_bytes / node_memory_MemTotal_bytes))"@,
        ),
        is_usage_preset(
            presets@[2],
            "disk_usage"@,
            "Disk Usage"@,
            "Disk utilization percentage."@,
            "$(self:100 * (1 - node_filesystem_avail_bytes{mountpoint=\"/\"} / node_filesystem_size_bytes{mountpoint=\"/\"}))"@,
        ),
{
    vec![
        usage_preset(
            "cpu_usage",
            "CPU Usage",
            "CPU utilization percentage.",
            "$(self:100 * (1 - avg(rate(node_cpu_seconds_total{mode=\"idle\"}[5m]))))",
        ),
        usage_preset(
            "memory_usage",
            "Memory Usage",
            "Memory utilization percentage.",
            "$(self:100 * (1 - node_memory_MemAvailable_bytes / node_memory_MemTotal_bytes))",
        ),
        usage_preset(
            "disk_usage",
            "Disk Usage",
            "Disk utilization percentage.",
            "$(self:100 * (1 - node_filesystem_avail_bytes{mountpoint=\"/\"} / node_filesystem_size_bytes{mountpoint=\"/\"}))",
        ),
    ]
}

} // verus!

verus! {

/// A configured scrape interval of at least ten seconds is used as it is;
/// a shorter one is raised to ten seconds; with none, the scrape runs every
/// thirty seconds. So the interval never drops below ten seconds and never
/// differs from a configured one that respects that floor.
pub proof fn lemma_scrape_interval_respects_configuration(seconds: u64)
    ensures
        seconds >= 10 ==> scrape_interval_s_spec(Some(seconds)) == seconds,
        seconds < 10 ==> scrape_interval_s_spec(Some(seconds)) == 10,
        scrape_interval_s_spec(None) == 30,
        scrape_interval_s_spec(Some(seconds)) >= 10,
        scrape_interval_s_spec(Some(seconds)) >= seconds,
{
}

} // verus!
