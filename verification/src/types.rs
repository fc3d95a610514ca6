//! Plain data shared by every component.

use crate::chainlist::{get_chain_info, is_first_chain, ChainCatalog};
use crate::json::{
    lemma_first_field, lemma_object_view, member_of, number_of, JsonField, JsonMember, JsonTerm,
    JsonValue,
};
use crate::text::{decimal, decimal_value, format_decimal, lemma_decimal_round_trip, parse_decimal};
use vstd::prelude::*;
use vstd::string::*;

verus! {

/// Numeric identifier of a blockchain network.
pub type NetworkId = u64;

/// Human readable name of a network.
pub type NetworkName = String;

/// How much user data a provider is known to collect.
#[derive(Debug, Clone, Copy, PartialEq, Eq, Structural)]
pub enum Tracking {
    /// The provider collects user data.
    Yes,
    /// The provider collects only what it needs to operate.
    Limited,
    /// The provider collects nothing.
    NoTracking,
}

/// Verbosity levels, from the quietest to the most talkative.
#[derive(Debug, Clone, Copy, PartialEq, Eq, Structural)]
pub enum LogLevel {
    Error,
    Warn,
    Info,
    Debug,
    Trace,
}

impl LogLevel {
    /// Position of the level on the verbosity scale, `Error` being 0.
    pub open spec fn rank(self) -> nat {
        match self {
            LogLevel::Error => 0,
            LogLevel::Warn => 1,
            LogLevel::Info => 2,
            LogLevel::Debug => 3,
            LogLevel::Trace => 4,
        }
    }

    /// Whether a logger configured at `self` emits an event of `event_level`:
    /// exactly when the event is no more verbose than the configuration.
    pub fn allows(&self, event_level: &LogLevel) -> (allowed: bool)
        ensures
            allowed == (event_level.rank() <= self.rank()),
    {
        match self {
            LogLevel::Error => matches!(event_level, LogLevel::Error),
            LogLevel::Warn => matches!(event_level, LogLevel::Error | LogLevel::Warn),
            LogLevel::Info => matches!(
                event_level,
                LogLevel::Error | LogLevel::Warn | LogLevel::Info
            ),
            LogLevel::Debug => matches!(
                event_level,
                LogLevel::Error | LogLevel::Warn | LogLevel::Info | LogLevel::Debug
            ),
            LogLevel::Trace => true,
        }
    }
}

/// One candidate endpoint.
#[derive(Debug, PartialEq, Eq)]
pub struct Rpc {
    /// The endpoint's URL, in the normal form a URL parser writes it in.
    pub url: String,
    pub tracking: Option<Tracking>,
    pub tracking_details: Option<String>,
    pub is_open_source: Option<bool>,
}

/// The mathematical content of an [`Rpc`].
pub struct RpcView {
    pub url: Seq<char>,
    pub tracking: Option<Tracking>,
    pub tracking_details: Option<Seq<char>>,
    pub is_open_source: Option<bool>,
}

impl View for Rpc {
    type V = RpcView;

    open spec fn view(&self) -> RpcView {
        RpcView {
            url: self.url@,
            tracking: self.tracking,
            tracking_details: match self.tracking_details {
                Some(details) => Some(details@),
                None => None,
            },
            is_open_source: self.is_open_source,
        }
    }
}

/// The views of a list of endpoints, in order.
pub open spec fn rpcs_view(rpcs: Seq<Rpc>) -> Seq<RpcView> {
    Seq::new(rpcs.len(), |i: int| rpcs[i]@)
}

/// The URLs of a list of endpoints, in order.
pub open spec fn rpc_urls(rpcs: Seq<Rpc>) -> Seq<Seq<char>> {
    Seq::new(rpcs.len(), |i: int| rpcs[i].url@)
}

impl Clone for Rpc {
    fn clone(&self) -> (copy: Self)
        ensures
            copy == *self,
    {
        Rpc {
            url: self.url.clone(),
            tracking: self.tracking,
            tracking_details: match &self.tracking_details {
                Some(details) => Some(details.clone()),
                None => None,
            },
            is_open_source: self.is_open_source,
        }
    }
}

/// The last known probe outcome of a URL.
#[derive(Debug, Clone, Copy, PartialEq, Eq, Structural)]
pub struct LatencyRecord {
    pub latency_ms: u64,
    /// When the probe was made, in whole seconds since the Unix epoch.
    pub last_tested: u64,
    pub failure_count: u32,
}

/// The number written under `key` in a JSON object, where it is written in
/// decimal digits.
pub open spec fn number_member(term: JsonTerm, key: Seq<char>) -> Option<nat> {
    match member_of(term, key) {
        Some(member) => match number_of(member) {
            Some(text) => decimal_value(text),
            None => None,
        },
        None => None,
    }
}

/// The number written under `key` in a JSON object, where it is written in
/// decimal digits and fits 64 bits.
fn read_number(value: &JsonValue, key: &str) -> (number: Option<u64>)
    ensures
        match number {
            Some(n) => number_member(value@, key@) == Some(n as nat),
            None => number_member(value@, key@) matches Some(v) ==> v > u64::MAX,
        },
{
    match value.get(key) {
        Some(member) => match member.as_number() {
            Some(text) => parse_decimal(text),
            None => None,
        },
        None => None,
    }
}

/// Writes a point in time, given in whole seconds since the Unix epoch, as a
/// JSON number.
pub fn serialize(seconds: u64) -> (value: JsonValue)
    ensures
        value@ == JsonTerm::Number(decimal(seconds as nat)),
{
    JsonValue::Number(format_decimal(seconds))
}

/// Reads a point in time, in whole seconds since the Unix epoch, from a JSON
/// number written in decimal digits. `None` for anything else, and for a
/// number beyond 64 bits.
pub fn deserialize(value: &JsonValue) -> (seconds: Option<u64>)
    ensures
        match seconds {
            Some(secs) => number_of(value@) matches Some(text) && decimal_value(text) == Some(
                secs as nat,
            ),
            None => number_of(value@) matches Some(text) ==> (decimal_value(text) matches Some(v)
                ==> v > u64::MAX),
        },
{
    match value.as_number() {
        Some(text) => parse_decimal(text),
        None => None,
    }
}

impl LatencyRecord {
    /// The record as a JSON object: its three fields by name, each a whole
    /// number, the time of the probe in seconds since the Unix epoch.
    pub open spec fn json(self) -> JsonTerm {
        JsonTerm::Object(
            seq![
                JsonField {
                    key: "latency_ms"@,
                    value: JsonTerm::Number(decimal(self.latency_ms as nat)),
                },
                JsonField {
                    key: "last_tested"@,
                    value: JsonTerm::Number(decimal(self.last_tested as nat)),
                },
                JsonField {
                    key: "failure_count"@,
                    value: JsonTerm::Number(decimal(self.failure_count as nat)),
                },
            ],
        )
    }

    /// The record that a JSON object stands for: its members `latency_ms`,
    /// `last_tested` and `failure_count` must each be a number written in
    /// decimal digits that fits the field. Other members are ignored.
    pub open spec fn from_term(term: JsonTerm) -> Option<LatencyRecord> {
        match (
            number_member(term, "latency_ms"@),
            number_member(term, "last_tested"@),
            number_member(term, "failure_count"@),
        ) {
            (Some(latency), Some(tested), Some(failures)) => if latency <= u64::MAX && tested
                <= u64::MAX && failures <= u32::MAX {
                Some(
                    LatencyRecord {
                        latency_ms: latency as u64,
                        last_tested: tested as u64,
                        failure_count: failures as u32,
                    },
                )
            } else {
                None
            },
            _ => None,
        }
    }

    /// The record as a JSON object.
    pub fn to_json(&self) -> (value: JsonValue)
        ensures
            value@ == self.json(),
    {
        let mut members: Vec<JsonMember> = Vec::new();
        members.push(
            JsonMember {
                key: "latency_ms".to_owned(),
                value: JsonValue::Number(format_decimal(self.latency_ms)),
            },
        );
        members.push(JsonMember { key: "last_tested".to_owned(), value: serialize(self.last_tested) });
        members.push(
            JsonMember {
                key: "failure_count".to_owned(),
                value: JsonValue::Number(format_decimal(self.failure_count as u64)),
            },
        );
        proof {
            lemma_object_view(members, self.json()->Object_0);
        }
        JsonValue::Object(members)
    }

    /// The record that a JSON object stands for, if it stands for one.
    pub fn from_json(value: &JsonValue) -> (record: Option<LatencyRecord>)
        ensures
            record == Self::from_term(value@),
    {
        let latency = read_number(value, "latency_ms");
        let tested = match value.get("last_tested") {
            Some(member) => deserialize(member),
            None => None,
        };
        let failures = read_number(value, "failure_count");
        match (latency, tested, failures) {
            (Some(latency_ms), Some(last_tested), Some(count)) => {
                if count <= u32::MAX as u64 {
                    Some(LatencyRecord { latency_ms, last_tested, failure_count: count as u32 })
                } else {
                    None
                }
            },
            _ => None,
        }
    }
}

/// Writing a record as JSON and reading it back gives the same record: the
/// same latency, the same time of the probe, the same failure count.
pub proof fn lemma_latency_record_round_trip(record: LatencyRecord)
    ensures
        LatencyRecord::from_term(record.json()) == Some(record),
{
    reveal_strlit("latency_ms");
    reveal_strlit("last_tested");
    reveal_strlit("failure_count");
    let fields = record.json()->Object_0;
    assert(fields[0].key == "latency_ms"@);
    assert(fields[1].key == "last_tested"@);
    assert(fields[2].key == "failure_count"@);
    assert("latency_ms"@.len() == 10);
    assert("last_tested"@.len() == 11);
    assert("failure_count"@.len() == 13);
    assert(crate::json::is_first_field(fields, "latency_ms"@, 0));
    assert(crate::json::is_first_field(fields, "last_tested"@, 1));
    assert(crate::json::is_first_field(fields, "failure_count"@, 2));
    lemma_first_field(fields, "latency_ms"@, 0);
    lemma_first_field(fields, "last_tested"@, 1);
    lemma_first_field(fields, "failure_count"@, 2);
    lemma_decimal_round_trip(record.latency_ms as nat);
    lemma_decimal_round_trip(record.last_tested as nat);
    lemma_decimal_round_trip(record.failure_count as nat);
}

/// Which networks survive when the catalog is pruned.
#[derive(Debug)]
pub struct WipeChainData {
    pub clear_data: bool,
    pub retain_these_chains: Vec<NetworkId>,
}

impl WipeChainData {
    /// Prune everything but `network_id`.
    pub fn new(network_id: NetworkId) -> (wipe: Self)
        ensures
            wipe.clear_data,
            wipe.retain_these_chains@ == seq![network_id],
    {
        let mut retain: Vec<NetworkId> = Vec::new();
        retain.push(network_id);
        WipeChainData { clear_data: true, retain_these_chains: retain }
    }
}

/// How the retrying proxy behaves.
#[derive(Debug, Clone, Copy, PartialEq, Eq, Structural)]
pub struct ProxySettings {
    pub retry_count: u32,
    pub retry_delay_ms: u64,
    pub rpc_call_timeout_ms: u64,
}

impl Default for ProxySettings {
    fn default() -> (settings: Self)
        ensures
            settings == (ProxySettings {
                retry_count: 3,
                retry_delay_ms: 1000,
                rpc_call_timeout_ms: 5000,
            }),
    {
        ProxySettings { retry_count: 3, retry_delay_ms: 1000, rpc_call_timeout_ms: 5000 }
    }
}

/// What a caller may set when it builds a handler.
#[derive(Debug)]
pub struct HandlerSettings {
    pub log_level: LogLevel,
    pub tracking: Tracking,
    pub network_rpcs: Vec<Rpc>,
    pub network_name: NetworkName,
    pub rpc_probe_timeout_ms: u64,
    pub proxy_settings: Option<ProxySettings>,
    pub wipe_chain_data: WipeChainData,
}

impl Default for HandlerSettings {
    /// The settings of a caller who set nothing: errors only, limited
    /// tracking, no endpoints of its own, a probe timeout of three seconds.
    fn default() -> (settings: Self)
        ensures
            settings.log_level == LogLevel::Error,
            settings.tracking == Tracking::Limited,
            settings.network_rpcs@.len() == 0,
            settings.network_name@.len() == 0,
            settings.rpc_probe_timeout_ms == 3000,
            settings.proxy_settings.is_none(),
            !settings.wipe_chain_data.clear_data,
            settings.wipe_chain_data.retain_these_chains@.len() == 0,
    {
        HandlerSettings {
            log_level: LogLevel::Error,
            tracking: Tracking::Limited,
            network_rpcs: Vec::new(),
            network_name: String::new(),
            rpc_probe_timeout_ms: 3000,
            proxy_settings: None,
            wipe_chain_data: WipeChainData { clear_data: false, retain_these_chains: Vec::new() },
        }
    }
}

/// A network together with the caller's settings for it, if any.
#[derive(Debug)]
pub struct HandlerConfig {
    pub network_id: NetworkId,
    pub settings: Option<HandlerSettings>,
}

impl HandlerConfig {
    /// The configuration most callers start from for `network_id`: errors
    /// only, limited tracking, no endpoints of their own, the catalog's name
    /// for the network, a probe timeout of three seconds, the default proxy
    /// settings, and a catalog pruned to that network.
    pub fn new(catalog: &ChainCatalog, network_id: NetworkId) -> (config: Self)
        requires
            exists|i: int|
                0 <= i < catalog.chain_data.len() && (#[trigger] catalog.chain_data[i]).chain_id
                    == network_id,
        ensures
            config.network_id == network_id,
            config.settings matches Some(settings) && {
                &&& settings.log_level == LogLevel::Error
                &&& settings.tracking == Tracking::Limited
                &&& settings.network_rpcs@.len() == 0
                &&& exists|i: int| #[trigger]
                    is_first_chain(catalog.chain_data@, network_id, i) && settings.network_name
                        == catalog.chain_data[i].name
                &&& settings.rpc_probe_timeout_ms == 3000
                &&& settings.proxy_settings == Some(
                    ProxySettings { retry_count: 3, retry_delay_ms: 1000, rpc_call_timeout_ms: 5000 },
                )
                &&& settings.wipe_chain_data.clear_data
                &&& settings.wipe_chain_data.retain_these_chains@ == seq![network_id]
            },
    {
        let network_name = get_chain_info(catalog, network_id).unwrap().name;
        HandlerConfig {
            network_id,
            settings: Some(
                HandlerSettings {
                    log_level: LogLevel::Error,
                    tracking: Tracking::Limited,
                    network_rpcs: Vec::new(),
                    network_name,
                    rpc_probe_timeout_ms: 3000,
                    proxy_settings: Some(ProxySettings::default()),
                    wipe_chain_data: WipeChainData::new(network_id),
                },
            ),
        }
    }
}

} // verus!
