//! The process-wide state: the configuration document and the two derived
//! indices (service name to service, domain to route target), kept in
//! lock-step, together with the port-switch transition and reload.
//!
//! Callers that share this state across tasks wrap it in a reader/writer
//! lock; every mutating method here is the body of one exclusive critical
//! section, and every lookup the body of one shared one.

use vstd::prelude::*;

use crate::config::{
    Config, ConfigError, ConfigV, Route, RouteTarget, RouteTargetV, Service, ServiceV, RouteV,
    spec_valid_config, str_eq,
};

verus! {

/// First index whose key equals `key`, scanning left to right.
pub open spec fn spec_find_key(keys: Seq<Seq<char>>, key: Seq<char>) -> Option<int>
    decreases keys.len(),
{
    if keys.len() == 0 {
        None
    } else if keys[0] == key {
        Some(0)
    } else {
        match spec_find_key(keys.drop_first(), key) {
            Some(i) => Some(i + 1),
            None => None,
        }
    }
}

pub proof fn lemma_find_key_props(keys: Seq<Seq<char>>, key: Seq<char>)
    ensures
        match spec_find_key(keys, key) {
            Some(i) => 0 <= i < keys.len() && keys[i] == key && forall|j: int|
                0 <= j < i ==> keys[j] != key,
            None => forall|j: int| 0 <= j < keys.len() ==> keys[j] != key,
        },
    decreases keys.len(),
{
    if keys.len() > 0 && keys[0] != key {
        lemma_find_key_props(keys.drop_first(), key);
        match spec_find_key(keys.drop_first(), key) {
            Some(i) => {
                assert(keys.drop_first()[i] == keys[i + 1]);
                assert(forall|j: int| 1 <= j < i + 1 ==> keys[j] == keys.drop_first()[j - 1]);
            },
            None => {
                assert(forall|j: int|
                    1 <= j < keys.len() ==> keys[j] == keys.drop_first()[j - 1]);
            },
        }
    }
}

/// A first match found by a scan is the match `spec_find_key` names.
pub proof fn lemma_find_key_first(keys: Seq<Seq<char>>, key: Seq<char>, i: int)
    requires
        0 <= i < keys.len(),
        keys[i] == key,
        forall|j: int| 0 <= j < i ==> keys[j] != key,
    ensures
        spec_find_key(keys, key) == Some(i),
{
    lemma_find_key_props(keys, key);
    match spec_find_key(keys, key) {
        Some(k) => {
            if k < i {
                assert(keys[k] != key);
            }
            if k > i {
                assert(keys[i] != key);
            }
        },
        None => {
            assert(keys[i] != key);
        },
    }
}

/// The names of a service list, in order.
pub open spec fn spec_service_names(ss: Seq<ServiceV>) -> Seq<Seq<char>> {
    Seq::new(ss.len(), |i: int| ss[i].name)
}

/// The domains of a route list, in order.
pub open spec fn spec_route_domains(rs: Seq<RouteV>) -> Seq<Seq<char>> {
    Seq::new(rs.len(), |i: int| rs[i].domain)
}

/// The service registered under `name`, if any: the first with that name.
pub open spec fn spec_lookup_service(ss: Seq<ServiceV>, name: Seq<char>) -> Option<ServiceV> {
    match spec_find_key(spec_service_names(ss), name) {
        Some(i) => Some(ss[i]),
        None => None,
    }
}

/// The target for `domain`: the first route with that exact domain, else
/// the first wildcard (`*`) route, else none.
pub open spec fn spec_lookup_route(rs: Seq<RouteV>, domain: Seq<char>) -> Option<RouteTargetV> {
    match spec_find_key(spec_route_domains(rs), domain) {
        Some(i) => Some(rs[i].target),
        None => match spec_find_key(spec_route_domains(rs), "*"@) {
            Some(i) => Some(rs[i].target),
            None => None,
        },
    }
}

/// Why a port switch was refused.
#[derive(Clone, Copy, Debug, PartialEq, Eq, Structural)]
pub enum SwitchError {
    /// No service of the given name exists.
    ServiceNotFound,
    /// The requested port was 0.
    InvalidPort,
    /// The health probe against the new port reported unhealthy.
    HealthCheckFailed,
}

/// A service after a switch to `new_port`: the old active port is recorded
/// as the previous one.
pub open spec fn spec_switch_service(s: ServiceV, new_port: u16) -> ServiceV {
    ServiceV {
        name: s.name,
        host: s.host,
        port: new_port,
        health_check: s.health_check,
        previous_port: Some(s.port),
    }
}

/// The shared state: cached listener ports and the three cells.
#[derive(Debug)]
pub struct AppState {
    /// The control-API listener port, cached at construction.
    pub port: u16,
    /// The proxy listener port, cached at construction.
    pub proxy_port: u16,
    /// The authoritative configuration document.
    pub config: Config,
    /// Derived index: the services of `config`, in order.
    pub services_map: Vec<Service>,
    /// Derived index: the routes of `config`, in order.
    pub routes_map: Vec<Route>,
}

/// Spec-level value of an [`AppState`].
pub struct AppStateV {
    pub port: u16,
    pub proxy_port: u16,
    pub config: ConfigV,
    pub services_map: Seq<ServiceV>,
    pub routes_map: Seq<RouteV>,
}

impl View for AppState {
    type V = AppStateV;

    open spec fn view(&self) -> AppStateV {
        AppStateV {
            port: self.port,
            proxy_port: self.proxy_port,
            config: self.config@,
            services_map: Seq::new(self.services_map@.len(), |i: int| self.services_map@[i]@),
            routes_map: Seq::new(self.routes_map@.len(), |i: int| self.routes_map@[i]@),
        }
    }
}

impl AppState {
    /// The two indices agree with the authoritative document, and the
    /// document meets the schema rules.
    pub open spec fn wf(&self) -> bool {
        &&& self@.services_map =~= self@.config.services
        &&& self@.routes_map =~= self@.config.routes
        &&& spec_valid_config(self@.config)
    }

    /// Build the state from a validated document; both indices are derived
    /// from it and the listener ports are cached.
    pub fn new(config: Config) -> (r: AppState)
        requires
            spec_valid_config(config@),
        ensures
            r.wf(),
            r@.config == config@,
            r.port == config@.api_port,
            r.proxy_port == config@.proxy_port,
    {
        let port = config.api_port;
        let proxy_port = config.proxy_port;
        let mut services_map: Vec<Service> = Vec::new();
        let mut i: usize = 0;
        while i < config.services.len()
            invariant
                0 <= i <= config.services.len(),
                services_map@.len() == i,
                forall|j: int| 0 <= j < i ==> (#[trigger] services_map@[j])@ == config.services@[j]@,
            decreases config.services.len() - i,
        {
            services_map.push(config.services[i].clone());
            i = i + 1;
        }
        let mut routes_map: Vec<Route> = Vec::new();
        let mut k: usize = 0;
        while k < config.routes.len()
            invariant
                0 <= k <= config.routes.len(),
                routes_map@.len() == k,
                forall|j: int| 0 <= j < k ==> (#[trigger] routes_map@[j])@ == config.routes@[j]@,
            decreases config.routes.len() - k,
        {
            routes_map.push(config.routes[k].clone());
            k = k + 1;
        }
        let r = AppState { port, proxy_port, config, services_map, routes_map };
        proof {
            assert(r@.services_map =~= r@.config.services);
            assert(r@.routes_map =~= r@.config.routes);
        }
        r
    }

    /// A snapshot of the service registered under `name`, if any.
    pub fn lookup_service(&self, name: &str) -> (r: Option<Service>)
        ensures
            match r {
                Some(s) => spec_lookup_service(self@.services_map, name@) == Some(s@),
                None => spec_lookup_service(self@.services_map, name@) is None,
            },
    {
        let ghost names = spec_service_names(self@.services_map);
        let mut i: usize = 0;
        while i < self.services_map.len()
            invariant
                names == spec_service_names(self@.services_map),
                0 <= i <= self.services_map.len(),
                forall|j: int| 0 <= j < i ==> names[j] != name@,
            decreases self.services_map.len() - i,
        {
            if str_eq(self.services_map[i].name.as_str(), name) {
                proof {
                    lemma_find_key_first(names, name@, i as int);
                }
                return Some(self.services_map[i].clone());
            }
            i = i + 1;
        }
        proof {
            lemma_find_key_props(names, name@);
        }
        None
    }

    /// A snapshot of the target for `domain`: the exact route when one
    /// exists, else the wildcard route, else none.
    pub fn lookup_route(&self, domain: &str) -> (r: Option<RouteTarget>)
        ensures
            match r {
                Some(t) => spec_lookup_route(self@.routes_map, domain@) == Some(t@),
                None => spec_lookup_route(self@.routes_map, domain@) is None,
            },
    {
        match self.find_route(domain) {
            Some(i) => Some(self.routes_map[i].target.clone()),
            None => {
                proof {
                    reveal_strlit("*");
                }
                match self.find_route("*") {
                    Some(i) => Some(self.routes_map[i].target.clone()),
                    None => None,
                }
            },
        }
    }

    fn find_route(&self, domain: &str) -> (r: Option<usize>)
        ensures
            match r {
                Some(i) => spec_find_key(spec_route_domains(self@.routes_map), domain@) == Some(
                    i as int) && i < self.routes_map.len(),
                None => spec_find_key(spec_route_domains(self@.routes_map), domain@) is None,
            },
    {
        let ghost domains = spec_route_domains(self@.routes_map);
        let mut i: usize = 0;
        while i < self.routes_map.len()
            invariant
                domains == spec_route_domains(self@.routes_map),
                0 <= i <= self.routes_map.len(),
                forall|j: int| 0 <= j < i ==> domains[j] != domain@,
            decreases self.routes_map.len() - i,
        {
            if str_eq(self.routes_map[i].domain.as_str(), domain) {
                proof {
                    lemma_find_key_first(domains, domain@, i as int);
                }
                return Some(i);
            }
            i = i + 1;
        }
        proof {
            lemma_find_key_props(domains, domain@);
        }
        None
    }

    /// The single mutator of a service's port. Finds the service, records
    /// its old port as previous, sets the new port in the document and the
    /// index together, and reports the probe verdict the caller obtained
    /// against the new port. An unhealthy verdict does not roll the switch
    /// back: the state keeps the new port and the error tells the caller
    /// that the probe failed.
    pub fn update_service_port(
        &mut self,
        service_name: &str,
        new_port: u16,
        skip_health_check: bool,
        probe_healthy: bool,
    ) -> (r: Result<u16, SwitchError>)
        requires
            old(self).wf(),
            new_port != 0,
        ensures
            final(self).wf(),
            final(self).port == old(self).port,
            final(self).proxy_port == old(self).proxy_port,
            final(self)@.routes_map == old(self)@.routes_map,
            final(self)@.config.routes == old(self)@.config.routes,
            final(self)@.config.api_port == old(self)@.config.api_port,
            final(self)@.config.proxy_port == old(self)@.config.proxy_port,
            final(self)@.config.health_check == old(self)@.config.health_check,
            match spec_find_key(
                spec_service_names(old(self)@.services_map),
                service_name@,
            ) {
                Some(i) => {
                    let olds = old(self)@.services_map[i];
                    &&& final(self)@.services_map =~= old(self)@.services_map.update(
                        i,
                        spec_switch_service(olds, new_port),
                    )
                    &&& final(self)@.config.services =~= old(self)@.config.services.update(
                        i,
                        spec_switch_service(olds, new_port),
                    )
                    &&& spec_lookup_service(final(self)@.services_map, service_name@) == Some(
                        spec_switch_service(olds, new_port),
                    )
                    &&& r == if skip_health_check || probe_healthy {
                        Result::<u16, SwitchError>::Ok(olds.port)
                    } else {
                        Result::<u16, SwitchError>::Err(SwitchError::HealthCheckFailed)
                    }
                },
                None => {
                    &&& r == Result::<u16, SwitchError>::Err(SwitchError::ServiceNotFound)
                    &&& final(self)@ == old(self)@
                },
            },
    {
        let ghost names = spec_service_names(old(self)@.services_map);
        let found = self.find_service_index(service_name);
        match found {
            None => Err(SwitchError::ServiceNotFound),
            Some(i) => {
                let old_port = self.services_map[i].port;
                self.services_map[i].previous_port = Some(old_port);
                self.services_map[i].port = new_port;
                self.config.services[i].previous_port = Some(old_port);
                self.config.services[i].port = new_port;
                proof {
                    lemma_find_key_props(names, service_name@);
                    let olds = old(self)@.services_map[i as int];
                    assert(self@.services_map =~= old(self)@.services_map.update(
                        i as int,
                        spec_switch_service(olds, new_port),
                    ));
                    assert(self@.config.services =~= old(self)@.config.services.update(
                        i as int,
                        spec_switch_service(olds, new_port),
                    ));
                    assert(spec_service_names(self@.services_map) =~= names);
                    lemma_find_key_first(names, service_name@, i as int);
                    assert(spec_valid_config(self@.config)) by {
                        assert(forall|j: int|
                            0 <= j < self@.config.routes.len() ==> (
                            #[trigger] self@.config.routes[j]) == old(self)@.config.routes[j]);
                        assert(forall|j: int|
                            0 <= j < self@.config.services.len() ==> (
                            #[trigger] self@.config.services[j]).name == old(
                            self)@.config.services[j].name);
                        assert(spec_service_names(self@.config.services) =~= spec_service_names(
                            old(self)@.config.services));
                        assert forall|j: int|
                            0 <= j < self@.config.routes.len() implies match (
                        #[trigger] self@.config.routes[j]).target {
                            RouteTargetV::Service { service } => crate::config::spec_has_service(
                                self@.config.services,
                                service,
                            ),
                            RouteTargetV::Static { .. } => true,
                        } by {
                            match self@.config.routes[j].target {
                                RouteTargetV::Service { service } => {
                                    let k = choose|k: int|
                                        0 <= k < old(self)@.config.services.len() && old(
                                        self)@.config.services[k].name == service;
                                    assert(self@.config.services[k].name == service);
                                },
                                RouteTargetV::Static { .. } => {},
                            }
                        }
                    }
                }
                if skip_health_check || probe_healthy {
                    Ok(old_port)
                } else {
                    Err(SwitchError::HealthCheckFailed)
                }
            },
        }
    }

    fn find_service_index(&self, name: &str) -> (r: Option<usize>)
        ensures
            match r {
                Some(i) => spec_find_key(spec_service_names(self@.services_map), name@) == Some(
                    i as int) && i < self.services_map.len(),
                None => spec_find_key(spec_service_names(self@.services_map), name@) is None,
            },
    {
        let ghost names = spec_service_names(self@.services_map);
        let mut i: usize = 0;
        while i < self.services_map.len()
            invariant
                names == spec_service_names(self@.services_map),
                0 <= i <= self.services_map.len(),
                forall|j: int| 0 <= j < i ==> names[j] != name@,
            decreases self.services_map.len() - i,
        {
            if str_eq(self.services_map[i].name.as_str(), name) {
                proof {
                    lemma_find_key_first(names, name@, i as int);
                }
                return Some(i);
            }
            i = i + 1;
        }
        proof {
            lemma_find_key_props(names, name@);
        }
        None
    }

    /// Replace the document and both indices with a new validated document,
    /// atomically with respect to this exclusive critical section. A
    /// document that fails validation leaves every cell untouched. The
    /// cached listener ports never change after construction.
    pub fn apply_config(&mut self, new_config: Config) -> (r: Result<(), ConfigError>)
        requires
            old(self).wf(),
        ensures
            final(self).wf(),
            final(self).port == old(self).port,
            final(self).proxy_port == old(self).proxy_port,
            match r {
                Ok(()) => spec_valid_config(new_config@) && final(self)@.config == new_config@,
                Err(e) => {
                    &&& !spec_valid_config(new_config@)
                    &&& e == ConfigError::Schema
                    &&& final(self)@ == old(self)@
                },
            },
    {
        match new_config.validate() {
            Err(e) => Err(e),
            Ok(()) => {
                let port = self.port;
                let proxy_port = self.proxy_port;
                let mut fresh = AppState::new(new_config);
                fresh.port = port;
                fresh.proxy_port = proxy_port;
                *self = fresh;
                Ok(())
            },
        }
    }
}

/// A route lookup reads the routes cell alone: two states whose routes
/// agree answer every lookup alike, so repeated lookups with no mutation
/// in between return the same target.
pub proof fn lemma_lookup_route_idempotent(s1: AppStateV, s2: AppStateV, domain: Seq<char>)
    requires
        s1.routes_map == s2.routes_map,
    ensures
        spec_lookup_route(s1.routes_map, domain) == spec_lookup_route(s2.routes_map, domain),
{
}

/// Host matching: an exact domain match wins over the wildcard; with no
/// exact match the wildcard route answers; an unknown domain with no
/// wildcard route yields nothing.
pub proof fn lemma_host_matching(rs: Seq<RouteV>, domain: Seq<char>)
    ensures
        (exists|i: int| 0 <= i < rs.len() && rs[i].domain == domain) ==> {
            let i = spec_find_key(spec_route_domains(rs), domain).unwrap();
            &&& 0 <= i < rs.len()
            &&& rs[i].domain == domain
            &&& spec_lookup_route(rs, domain) == Some(rs[i].target)
        },
        (!(exists|i: int| 0 <= i < rs.len() && rs[i].domain == domain) && (exists|i: int|
            0 <= i < rs.len() && rs[i].domain == "*"@)) ==> {
            let i = spec_find_key(spec_route_domains(rs), "*"@).unwrap();
            &&& 0 <= i < rs.len()
            &&& rs[i].domain == "*"@
            &&& spec_lookup_route(rs, domain) == Some(rs[i].target)
        },
        (!(exists|i: int| 0 <= i < rs.len() && rs[i].domain == domain) && !(exists|i: int|
            0 <= i < rs.len() && rs[i].domain == "*"@)) ==> spec_lookup_route(rs, domain) is None,
{
    lemma_find_key_props(spec_route_domains(rs), domain);
    lemma_find_key_props(spec_route_domains(rs), "*"@);
    if exists|i: int| 0 <= i < rs.len() && rs[i].domain == domain {
        let w = choose|i: int| 0 <= i < rs.len() && rs[i].domain == domain;
        assert(spec_route_domains(rs)[w] == domain);
    }
    if exists|i: int| 0 <= i < rs.len() && rs[i].domain == "*"@ {
        let w = choose|i: int| 0 <= i < rs.len() && rs[i].domain == "*"@;
        assert(spec_route_domains(rs)[w] == "*"@);
    }
}

} // verus!
