//! The state of a handler and the decisions it takes.

use crate::chainlist::{picked, ChainCatalog};
use crate::config::resolve_config::{is_normal_form_of, resolve_config, NormalizedConfig};
use crate::error::RpcHandlerError;
use crate::performance::measure::LatencyMap;
use crate::performance::pick_fastest::{is_fastest, pick_fastest};
use crate::provider::create_provider::create_provider;
use crate::provider::retry_proxy::{
    planned_urls, wrap_with_retry, RetryOptions, RetryProvider, RetrySession,
};
use crate::ranking::{is_stable_order, stable_order};
use crate::rpc::select_base_rpc_set::{select_base_rpc_set, suitable};
use crate::string_map::StringMap;
use crate::strategy::Strategy;
use crate::text::{same_text, texts};
use crate::types::{rpcs_view, HandlerConfig, NetworkId, Rpc};
use vstd::prelude::*;
use vstd::string::*;

verus! {

/// What probing found, for the handler to act on.
pub enum Selection {
    /// The fastest endpoint, if any passed, and the latency of each that
    /// passed.
    Fastest { fastest: Option<String>, latencies: LatencyMap },
    /// The first endpoint that passed, if any did.
    FirstHealthy { url: Option<String> },
}

/// A handler for one network: its endpoints, what is known of their
/// latencies, and the provider it currently uses.
pub struct RpcHandler {
    pub config: NormalizedConfig,
    pub network_id: NetworkId,
    pub rpcs: Vec<Rpc>,
    /// The latency of every endpoint that passed the last probing.
    pub latencies: LatencyMap,
    /// The provider in use; none before the handler is initialised.
    pub provider: Option<RetryProvider>,
    /// How the handler picks its endpoint.
    pub strategy: Strategy,
    /// How many requests have gone by since the endpoints were last probed
    /// again.
    pub staleness: u32,
}

/// From how many requests gone by a new probing is due.
pub const STALE_AFTER: u32 = 3;

/// Whether an event of level `level` is logged under the configured level
/// `configured`, both given by name: it is, when the event is no more
/// verbose than the configuration. An unknown configured level logs
/// nothing; an unknown event level counts as the most verbose.
pub open spec fn logs(configured: Seq<char>, level: Seq<char>) -> bool {
    if configured == "error"@ {
        level == "error"@
    } else if configured == "warn"@ {
        level == "error"@ || level == "warn"@
    } else if configured == "info"@ {
        level == "error"@ || level == "warn"@ || level == "info"@
    } else if configured == "debug"@ {
        level == "error"@ || level == "warn"@ || level == "info"@ || level == "debug"@
    } else {
        configured == "trace"@
    }
}

/// Whether an event of level `level` is logged under the configured level
/// `configured`.
pub fn should_log(configured: &str, level: &str) -> (emit: bool)
    ensures
        emit == logs(configured@, level@),
{
    let is_error = same_text(level, "error");
    let is_warn = same_text(level, "warn");
    let is_info = same_text(level, "info");
    let is_debug = same_text(level, "debug");
    if same_text(configured, "error") {
        is_error
    } else if same_text(configured, "warn") {
        is_error || is_warn
    } else if same_text(configured, "info") {
        is_error || is_warn || is_info
    } else if same_text(configured, "debug") {
        is_error || is_warn || is_info || is_debug
    } else {
        same_text(configured, "trace")
    }
}

/// The URLs of a latency map by ascending latency; URLs with equal latency
/// keep the order in which they entered the map.
pub fn ordered_urls(latencies: &LatencyMap) -> (urls: Vec<String>)
    ensures
        exists|order: Seq<usize>| #[trigger]
            is_stable_order(latencies.values(), order) && texts(urls@) == picked(
                latencies.keys(),
                order,
            ),
{
    let n = latencies.len();
    let mut keys: Vec<u64> = Vec::new();
    let mut i: usize = 0;
    while i < n
        invariant
            i <= n,
            n == latencies.keys().len(),
            n == latencies.values().len(),
            keys@ == latencies.values().take(i as int),
        decreases n - i,
    {
        keys.push(*latencies.value_at(i));
        assert(keys@ =~= latencies.values().take(i + 1));
        i += 1;
    }
    assert(latencies.values().take(n as int) =~= latencies.values());
    let order = stable_order(&keys);
    let mut urls: Vec<String> = Vec::new();
    let mut k: usize = 0;
    while k < order.len()
        invariant
            k <= order.len(),
            n == latencies.keys().len(),
            n == latencies.values().len(),
            keys@ == latencies.values(),
            is_stable_order(keys@, order@),
            texts(urls@) == picked(latencies.keys(), order@).take(k as int),
        decreases order.len() - k,
    {
        let ghost before = texts(urls@);
        assert(order[k as int] < n);
        let url = latencies.key_at(order[k]).clone();
        urls.push(url);
        assert(texts(urls@) =~= before.push(latencies.keys()[order[k as int] as int]));
        assert(texts(urls@) =~= picked(latencies.keys(), order@).take(k + 1));
        k += 1;
    }
    assert(picked(latencies.keys(), order@).take(order.len() as int) =~= picked(
        latencies.keys(),
        order@,
    ));
    urls
}

impl RpcHandler {
    /// `session` is the plan of a request through the provider in use: the
    /// request goes to the known endpoints by ascending latency, the
    /// provider's own URL in front unless it is among them, under the
    /// provider's retry options. Without a provider there is no plan, only
    /// `NoAvailableRpcs`.
    pub open spec fn plans_request(&self, session: Result<RetrySession, RpcHandlerError>) -> bool {
        match self.provider {
            Some(p) => session matches Ok(s) && {
                &&& exists|order: Seq<usize>| #[trigger]
                    is_stable_order(self.latencies.values(), order) && s.urls() == planned_urls(
                        picked(self.latencies.keys(), order),
                        p.base_url@,
                    )
                &&& s.passes() == p.options.retry_count
                &&& s.delay() == p.options.retry_delay_ms
                &&& s.call_timeout() == p.options.rpc_call_timeout_ms
                &&& s.attempts() == 0
            },
            None => session matches Err(RpcHandlerError::NoAvailableRpcs { network_id })
                && network_id == self.network_id,
        }
    }

    /// The URL of the provider in use, if there is one.
    pub open spec fn provider_url(&self) -> Option<Seq<char>> {
        match self.provider {
            Some(provider) => Some(provider.base_url@),
            None => None,
        }
    }

    /// The provider in use, if there is one.
    pub open spec fn provider(&self) -> Option<RetryProvider> {
        self.provider
    }

    /// What is known of the latencies.
    pub open spec fn latencies(&self) -> LatencyMap {
        self.latencies
    }

    /// How the handler picks its endpoint.
    pub open spec fn chosen_strategy(&self) -> Strategy {
        self.strategy
    }

    /// The retry options that the configuration gives a provider.
    pub open spec fn retry_options(&self) -> RetryOptions {
        RetryOptions {
            retry_count: self.config.retry.retry_count,
            retry_delay_ms: self.config.retry.retry_delay_ms,
            chain_id: self.network_id,
            rpc_call_timeout_ms: self.config.settings.rpc_call_timeout_ms,
        }
    }

    /// A handler for the network of `config`. Its endpoints are the
    /// caller's own followed by those of the catalog that suit the caller's
    /// tracking preference. It has no provider until it is initialised. The
    /// strategy is `Fastest` unless another is given. This never fails.
    pub fn new(catalog: &ChainCatalog, config: HandlerConfig, strategy: Option<Strategy>) -> (handler:
        Result<Self, RpcHandlerError>)
        ensures
            handler matches Ok(h) && {
                &&& h.network_id == config.network_id
                &&& is_normal_form_of(h.config, config)
                &&& h.provider().is_none()
                &&& h.staleness == 0
                &&& h.latencies().keys().len() == 0
                &&& h.chosen_strategy() == strategy.unwrap_or(Strategy::Fastest)
                &&& rpcs_view(h.rpcs@) == rpcs_view(h.config.injected_rpcs@)
                    + crate::chainlist::extra_rpcs_of(*catalog, config.network_id).filter(
                    suitable(h.config.tracking),
                )
            },
    {
        let normalized = resolve_config(config);
        let strategy = match strategy {
            Some(s) => s,
            None => Strategy::Fastest,
        };
        let mut injected: Vec<Rpc> = Vec::new();
        let mut i: usize = 0;
        while i < normalized.injected_rpcs.len()
            invariant
                i <= normalized.injected_rpcs.len(),
                injected@ == normalized.injected_rpcs@.take(i as int),
            decreases normalized.injected_rpcs.len() - i,
        {
            injected.push(normalized.injected_rpcs[i].clone());
            assert(injected@ =~= normalized.injected_rpcs@.take(i + 1));
            i += 1;
        }
        assert(normalized.injected_rpcs@.take(normalized.injected_rpcs.len() as int)
            =~= normalized.injected_rpcs@);
        let rpcs = select_base_rpc_set(
            catalog,
            normalized.network_id,
            normalized.tracking,
            injected,
        );
        Ok(
            RpcHandler {
                network_id: normalized.network_id,
                rpcs,
                latencies: StringMap::new(),
                provider: None,
                strategy,
                staleness: 0,
                config: normalized,
            },
        )
    }

    /// How the handler picks its endpoint.
    pub fn strategy(&self) -> (strategy: Strategy)
        ensures
            strategy == self.chosen_strategy(),
    {
        self.strategy
    }

    /// The retrying provider for `url` under the handler's configuration.
    pub fn build_provider(&self, url: String) -> (provider: Result<RetryProvider, RpcHandlerError>)
        ensures
            provider matches Ok(p) && p.base_url == url && p.chain_id == self.network_id
                && p.options == self.retry_options(),
    {
        match create_provider(url, self.network_id) {
            Ok(base) => {
                let options = RetryOptions {
                    retry_count: self.config.retry.retry_count,
                    retry_delay_ms: self.config.retry.retry_delay_ms,
                    chain_id: self.network_id,
                    rpc_call_timeout_ms: self.config.settings.rpc_call_timeout_ms,
                };
                Ok(wrap_with_retry(base.url, self.network_id, options))
            },
            Err(error) => Err(error),
        }
    }

    /// Takes up what probing found.
    ///
    /// Where an endpoint was found it becomes the provider in use, and with
    /// the `Fastest` strategy the latencies found replace those known. Where
    /// none was found nothing changes; `fail_if_none` says whether that is
    /// an error.
    fn adopt(&mut self, found: Selection, fail_if_none: bool) -> (done: Result<(), RpcHandlerError>)
        ensures
            final(self).config == old(self).config,
            final(self).network_id == old(self).network_id,
            final(self).rpcs == old(self).rpcs,
            final(self).chosen_strategy() == old(self).chosen_strategy(),
            final(self).staleness == old(self).staleness,
            match found {
                Selection::Fastest { fastest: Some(url), latencies } => {
                    &&& done is Ok
                    &&& final(self).latencies() == latencies
                    &&& final(self).provider() matches Some(p) && p.base_url == url && p.chain_id
                        == old(self).network_id && p.options == old(self).retry_options()
                },
                Selection::FirstHealthy { url: Some(url) } => {
                    &&& done is Ok
                    &&& final(self).latencies() == old(self).latencies()
                    &&& final(self).provider() matches Some(p) && p.base_url == url && p.chain_id
                        == old(self).network_id && p.options == old(self).retry_options()
                },
                _ => {
                    &&& final(self).latencies() == old(self).latencies()
                    &&& final(self).provider() == old(self).provider()
                    &&& if fail_if_none {
                        done matches Err(RpcHandlerError::NoAvailableRpcs { network_id })
                            && network_id == old(self).network_id
                    } else {
                        done is Ok
                    }
                },
            },
    {
        let url = match found {
            Selection::Fastest { fastest, latencies } => {
                match fastest {
                    Some(url) => {
                        self.latencies = latencies;
                        Some(url)
                    },
                    None => None,
                }
            },
            Selection::FirstHealthy { url } => url,
        };
        match url {
            Some(url) => {
                match self.build_provider(url) {
                    Ok(provider) => {
                        self.provider = Some(provider);
                        Ok(())
                    },
                    Err(error) => Err(error),
                }
            },
            None => {
                if fail_if_none {
                    Err(RpcHandlerError::NoAvailableRpcs { network_id: self.network_id })
                } else {
                    Ok(())
                }
            },
        }
    }

    /// Initialises the handler with what the first probing found. An
    /// endpoint that was found becomes the provider in use; with the
    /// `Fastest` strategy the latencies found are kept as well. Where none
    /// was found the handler stays as it is and fails with
    /// `NoAvailableRpcs`.
    pub fn init(&mut self, found: Selection) -> (done: Result<(), RpcHandlerError>)
        ensures
            final(self).config == old(self).config,
            final(self).network_id == old(self).network_id,
            final(self).rpcs == old(self).rpcs,
            final(self).chosen_strategy() == old(self).chosen_strategy(),
            final(self).staleness == old(self).staleness,
            match found {
                Selection::Fastest { fastest: Some(url), latencies } => {
                    &&& done is Ok
                    &&& final(self).latencies() == latencies
                    &&& final(self).provider() matches Some(p) && p.base_url == url && p.chain_id
                        == old(self).network_id && p.options == old(self).retry_options()
                },
                Selection::FirstHealthy { url: Some(url) } => {
                    &&& done is Ok
                    &&& final(self).latencies() == old(self).latencies()
                    &&& final(self).provider() matches Some(p) && p.base_url == url && p.chain_id
                        == old(self).network_id && p.options == old(self).retry_options()
                },
                _ => {
                    &&& final(self).latencies() == old(self).latencies()
                    &&& final(self).provider() == old(self).provider()
                    &&& done matches Err(RpcHandlerError::NoAvailableRpcs { network_id })
                        && network_id == old(self).network_id
                },
            },
    {
        self.adopt(found, true)
    }

    /// Takes up what a later probing found, as [`RpcHandler::init`] does,
    /// except that finding no endpoint is no error: the handler then keeps
    /// the provider it has.
    pub fn refresh(&mut self, found: Selection) -> (done: Result<(), RpcHandlerError>)
        ensures
            done is Ok,
            final(self).config == old(self).config,
            final(self).network_id == old(self).network_id,
            final(self).rpcs == old(self).rpcs,
            final(self).chosen_strategy() == old(self).chosen_strategy(),
            final(self).staleness == old(self).staleness,
            match found {
                Selection::Fastest { fastest: Some(url), latencies } => {
                    &&& final(self).latencies() == latencies
                    &&& final(self).provider() matches Some(p) && p.base_url == url && p.chain_id
                        == old(self).network_id && p.options == old(self).retry_options()
                },
                Selection::FirstHealthy { url: Some(url) } => {
                    &&& final(self).latencies() == old(self).latencies()
                    &&& final(self).provider() matches Some(p) && p.base_url == url && p.chain_id
                        == old(self).network_id && p.options == old(self).retry_options()
                },
                _ => {
                    &&& final(self).latencies() == old(self).latencies()
                    &&& final(self).provider() == old(self).provider()
                },
            },
    {
        self.adopt(found, false)
    }

    /// Whether the endpoints are to be probed again after a request.
    ///
    /// Probing again is due when the latency map holds at most one entry,
    /// or when three requests have gone by since it was last due. The count
    /// of requests gone by starts over when probing is due, and goes up by
    /// one when it is not.
    pub fn refresh_due(&mut self) -> (due: bool)
        ensures
            due == (old(self).latencies.keys().len() <= 1 || old(self).staleness >= STALE_AFTER),
            final(self).staleness == if due {
                0
            } else {
                old(self).staleness + 1
            },
            final(self).config == old(self).config,
            final(self).network_id == old(self).network_id,
            final(self).rpcs == old(self).rpcs,
            final(self).latencies == old(self).latencies,
            final(self).provider == old(self).provider,
            final(self).strategy == old(self).strategy,
    {
        if self.latencies.len() <= 1 || self.staleness >= STALE_AFTER {
            self.staleness = 0;
            true
        } else {
            self.staleness = self.staleness + 1;
            false
        }
    }

    /// The fastest of the endpoints whose latency is known; `NoAvailableRpcs`
    /// where none is known.
    pub fn get_fastest_rpc(&self) -> (url: Result<String, RpcHandlerError>)
        ensures
            match url {
                Ok(fastest) => exists|i: int| #[trigger]
                    is_fastest(self.latencies.keys(), self.latencies.values(), i) && self.latencies.keys()[i]
                        == fastest@,
                Err(RpcHandlerError::NoAvailableRpcs { network_id }) => self.latencies.keys().len()
                    == 0 && network_id == self.network_id,
                Err(_) => false,
            },
    {
        match pick_fastest(&self.latencies) {
            Some(url) => Ok(url),
            None => Err(RpcHandlerError::NoAvailableRpcs { network_id: self.network_id }),
        }
    }

    /// The provider in use; `NoAvailableRpcs` before the handler has one.
    pub fn get_provider(&self) -> (provider: Result<RetryProvider, RpcHandlerError>)
        ensures
            match self.provider() {
                Some(p) => provider == Ok::<RetryProvider, RpcHandlerError>(p),
                None => provider matches Err(RpcHandlerError::NoAvailableRpcs { network_id })
                    && network_id == self.network_id,
            },
    {
        match &self.provider {
            Some(provider) => Ok(provider.clone()),
            None => Err(RpcHandlerError::NoAvailableRpcs { network_id: self.network_id }),
        }
    }

    /// The URL of the provider in use; `NoAvailableRpcs` before the handler
    /// has one.
    pub fn get_provider_url(&self) -> (url: Result<String, RpcHandlerError>)
        ensures
            match self.provider_url() {
                Some(u) => url matches Ok(text) && text@ == u,
                None => url matches Err(RpcHandlerError::NoAvailableRpcs { network_id })
                    && network_id == self.network_id,
            },
    {
        match self.get_provider() {
            Ok(provider) => Ok(provider.base_url),
            Err(error) => Err(error),
        }
    }

    /// What is known of the latencies.
    pub fn get_latencies(&self) -> (latencies: &LatencyMap)
        ensures
            *latencies == self.latencies(),
    {
        &self.latencies
    }

    /// Plans a request through the provider in use: it goes to the known
    /// endpoints by ascending latency, the provider's own URL in front
    /// unless it is among them. `NoAvailableRpcs` before the handler has a
    /// provider.
    pub fn try_proxy_request(&self) -> (session: Result<RetrySession, RpcHandlerError>)
        ensures
            self.plans_request(session),
    {
        match &self.provider {
            Some(provider) => {
                let urls = ordered_urls(&self.latencies);
                let ghost order = choose|order: Seq<usize>| #[trigger]
                    is_stable_order(self.latencies.values(), order) && texts(urls@) == picked(
                        self.latencies.keys(),
                        order,
                    );
                let session = provider.send_request(urls);
                assert(is_stable_order(self.latencies().values(), order));
                session
            },
            None => Err(RpcHandlerError::NoAvailableRpcs { network_id: self.network_id }),
        }
    }
}

} // verus!
