//! The configuration document: services, routes, listener ports and
//! health-check defaults, together with its validity rules.

use vstd::prelude::*;

verus! {

/// How a service's health is probed: up to `retry_count` GET requests to
/// `path`, `retry_delay_seconds` apart.
#[derive(Debug)]
pub struct HealthCheckConfig {
    pub path: String,
    pub retry_count: u32,
    pub retry_delay_seconds: u64,
}

/// Spec-level value of a [`HealthCheckConfig`].
pub struct HealthCheckConfigV {
    pub path: Seq<char>,
    pub retry_count: u32,
    pub retry_delay_seconds: u64,
}

impl View for HealthCheckConfig {
    type V = HealthCheckConfigV;

    open spec fn view(&self) -> HealthCheckConfigV {
        HealthCheckConfigV {
            path: self.path@,
            retry_count: self.retry_count,
            retry_delay_seconds: self.retry_delay_seconds,
        }
    }
}

impl Clone for HealthCheckConfig {
    fn clone(&self) -> (r: Self)
        ensures
            r@ == self@,
    {
        HealthCheckConfig {
            path: self.path.clone(),
            retry_count: self.retry_count,
            retry_delay_seconds: self.retry_delay_seconds,
        }
    }
}

/// The defaults of a health check: path `/`, ten attempts, one second apart.
pub open spec fn spec_default_health_check() -> HealthCheckConfigV {
    HealthCheckConfigV { path: "/"@, retry_count: 10, retry_delay_seconds: 1 }
}

impl HealthCheckConfig {
    /// The document-level default health check.
    pub fn new_default() -> (r: HealthCheckConfig)
        ensures
            r@ == spec_default_health_check(),
    {
        HealthCheckConfig {
            path: crate::default_path(),
            retry_count: crate::default_retry_count(),
            retry_delay_seconds: crate::default_retry_delay(),
        }
    }
}

impl Default for HealthCheckConfig {
    fn default() -> (r: Self)
        ensures
            r@ == spec_default_health_check(),
    {
        HealthCheckConfig::new_default()
    }
}

/// A named backend, addressable as `host:port`.
#[derive(Debug)]
pub struct Service {
    pub name: String,
    pub host: String,
    pub port: u16,
    pub health_check: Option<HealthCheckConfig>,
    pub previous_port: Option<u16>,
}

/// Spec-level value of a [`Service`].
pub struct ServiceV {
    pub name: Seq<char>,
    pub host: Seq<char>,
    pub port: u16,
    pub health_check: Option<HealthCheckConfigV>,
    pub previous_port: Option<u16>,
}

impl View for Service {
    type V = ServiceV;

    open spec fn view(&self) -> ServiceV {
        ServiceV {
            name: self.name@,
            host: self.host@,
            port: self.port,
            health_check: match self.health_check {
                Some(h) => Some(h@),
                None => None,
            },
            previous_port: self.previous_port,
        }
    }
}

impl Clone for Service {
    fn clone(&self) -> (r: Self)
        ensures
            r@ == self@,
    {
        Service {
            name: self.name.clone(),
            host: self.host.clone(),
            port: self.port,
            health_check: match &self.health_check {
                Some(h) => Some(h.clone()),
                None => None,
            },
            previous_port: self.previous_port,
        }
    }
}

/// Where a route sends a request: to a named service, or to files under a
/// directory.
#[derive(Debug)]
pub enum RouteTarget {
    Service { service: String },
    Static { root: String, index: Vec<String>, try_files: Vec<String> },
}

/// Spec-level value of a [`RouteTarget`].
pub enum RouteTargetV {
    Service { service: Seq<char> },
    Static { root: Seq<char>, index: Seq<Seq<char>>, try_files: Seq<Seq<char>> },
}

impl View for RouteTarget {
    type V = RouteTargetV;

    open spec fn view(&self) -> RouteTargetV {
        match self {
            RouteTarget::Service { service } => RouteTargetV::Service { service: service@ },
            RouteTarget::Static { root, index, try_files } => RouteTargetV::Static {
                root: root@,
                index: index.deep_view(),
                try_files: try_files.deep_view(),
            },
        }
    }
}

fn clone_string_vec(v: &Vec<String>) -> (r: Vec<String>)
    ensures
        r.deep_view() == v.deep_view(),
{
    let mut out: Vec<String> = Vec::new();
    let mut i: usize = 0;
    while i < v.len()
        invariant
            0 <= i <= v.len(),
            out@.len() == i,
            forall|j: int| 0 <= j < i ==> (#[trigger] out@[j])@ == v@[j]@,
        decreases v.len() - i,
    {
        out.push(v[i].clone());
        i = i + 1;
    }
    proof {
        assert(out.deep_view() =~= v.deep_view());
    }
    out
}

impl Clone for RouteTarget {
    fn clone(&self) -> (r: Self)
        ensures
            r@ == self@,
    {
        match self {
            RouteTarget::Service { service } => RouteTarget::Service { service: service.clone() },
            RouteTarget::Static { root, index, try_files } => RouteTarget::Static {
                root: root.clone(),
                index: clone_string_vec(index),
                try_files: clone_string_vec(try_files),
            },
        }
    }
}

/// A mapping from an inbound `Host` domain (or the wildcard `*`) to a target.
#[derive(Debug)]
pub struct Route {
    pub domain: String,
    pub target: RouteTarget,
}

/// Spec-level value of a [`Route`].
pub struct RouteV {
    pub domain: Seq<char>,
    pub target: RouteTargetV,
}

impl View for Route {
    type V = RouteV;

    open spec fn view(&self) -> RouteV {
        RouteV { domain: self.domain@, target: self.target@ }
    }
}

impl Clone for Route {
    fn clone(&self) -> (r: Self)
        ensures
            r@ == self@,
    {
        Route { domain: self.domain.clone(), target: self.target.clone() }
    }
}

/// The top-level configuration document.
#[derive(Debug)]
pub struct Config {
    pub services: Vec<Service>,
    pub routes: Vec<Route>,
    pub api_port: u16,
    pub proxy_port: u16,
    pub health_check: HealthCheckConfig,
}

/// Spec-level value of a [`Config`].
pub struct ConfigV {
    pub services: Seq<ServiceV>,
    pub routes: Seq<RouteV>,
    pub api_port: u16,
    pub proxy_port: u16,
    pub health_check: HealthCheckConfigV,
}

impl View for Config {
    type V = ConfigV;

    open spec fn view(&self) -> ConfigV {
        ConfigV {
            services: Seq::new(self.services@.len(), |i: int| self.services@[i]@),
            routes: Seq::new(self.routes@.len(), |i: int| self.routes@[i]@),
            api_port: self.api_port,
            proxy_port: self.proxy_port,
            health_check: self.health_check@,
        }
    }
}

impl Clone for Config {
    fn clone(&self) -> (r: Self)
        ensures
            r@ == self@,
    {
        let mut services: Vec<Service> = Vec::new();
        let mut i: usize = 0;
        while i < self.services.len()
            invariant
                0 <= i <= self.services.len(),
                services@.len() == i,
                forall|j: int| 0 <= j < i ==> services@[j]@ == self.services@[j]@,
            decreases self.services.len() - i,
        {
            services.push(self.services[i].clone());
            i = i + 1;
        }
        let mut routes: Vec<Route> = Vec::new();
        let mut k: usize = 0;
        while k < self.routes.len()
            invariant
                0 <= k <= self.routes.len(),
                routes@.len() == k,
                forall|j: int| 0 <= j < k ==> routes@[j]@ == self.routes@[j]@,
            decreases self.routes.len() - k,
        {
            routes.push(self.routes[k].clone());
            k = k + 1;
        }
        let r = Config {
            services,
            routes,
            api_port: self.api_port,
            proxy_port: self.proxy_port,
            health_check: self.health_check.clone(),
        };
        proof {
            assert(r@.services =~= self@.services);
            assert(r@.routes =~= self@.routes);
        }
        r
    }
}

/// Why a configuration document was rejected.
#[derive(Clone, Copy, Debug, PartialEq, Eq, Structural)]
pub enum ConfigError {
    /// The text is not a well-formed document.
    Parse,
    /// The document is well-formed but breaks a schema rule: a missing
    /// required field, a service port of 0, a duplicate service name, or a
    /// route that references an unknown service.
    Schema,
}

pub open spec fn spec_has_service(ss: Seq<ServiceV>, name: Seq<char>) -> bool {
    exists|i: int| 0 <= i < ss.len() && ss[i].name == name
}

/// The schema rules a document must meet before it may drive the proxy:
/// no service port is 0, service names are unique, and every route that
/// names a service names one that exists.
pub open spec fn spec_valid_config(c: ConfigV) -> bool {
    &&& forall|i: int| 0 <= i < c.services.len() ==> (#[trigger] c.services[i]).port != 0
    &&& forall|i: int, j: int|
        0 <= i < j < c.services.len() ==> (#[trigger] c.services[i]).name != (
        #[trigger] c.services[j]).name
    &&& forall|i: int|
        0 <= i < c.routes.len() ==> match (#[trigger] c.routes[i]).target {
            RouteTargetV::Service { service } => spec_has_service(c.services, service),
            RouteTargetV::Static { .. } => true,
        }
}

/// `a` and `b` hold the same characters.
pub fn str_eq(a: &str, b: &str) -> (r: bool)
    ensures
        r <==> a@ == b@,
{
    let x = a.to_owned();
    let y = b.to_owned();
    x == y
}

impl Config {
    /// The first service named `name`, if any, with its index.
    pub fn find_service(&self, name: &str) -> (r: Option<usize>)
        ensures
            match r {
                Some(i) => i < self.services.len() && self@.services[i as int].name == name@
                    && spec_has_service(self@.services, name@),
                None => !spec_has_service(self@.services, name@),
            },
    {
        let mut i: usize = 0;
        while i < self.services.len()
            invariant
                0 <= i <= self.services.len(),
                forall|j: int| 0 <= j < i ==> (#[trigger] self@.services[j]).name != name@,
            decreases self.services.len() - i,
        {
            if str_eq(self.services[i].name.as_str(), name) {
                return Some(i);
            }
            i = i + 1;
        }
        None
    }

    /// Check every schema rule; `Ok` exactly on valid documents.
    pub fn validate(&self) -> (r: Result<(), ConfigError>)
        ensures
            r is Ok <==> spec_valid_config(self@),
            r is Err ==> r == Result::<(), ConfigError>::Err(ConfigError::Schema),
    {
        let ghost cv = self@;
        let mut i: usize = 0;
        while i < self.services.len()
            invariant
                cv == self@,
                0 <= i <= self.services.len(),
                forall|j: int| 0 <= j < i ==> (#[trigger] cv.services[j]).port != 0,
                forall|j: int, k: int|
                    0 <= j < k < i ==> (#[trigger] cv.services[j]).name != (
                    #[trigger] cv.services[k]).name,
            decreases self.services.len() - i,
        {
            if self.services[i].port == 0 {
                return Err(ConfigError::Schema);
            }
            let mut j: usize = 0;
            while j < i
                invariant
                    cv == self@,
                    0 <= j <= i < self.services.len(),
                    forall|k: int| 0 <= k < j ==> (#[trigger] cv.services[k]).name != cv.services[
                        i as int].name,
                decreases i - j,
            {
                if str_eq(self.services[j].name.as_str(), self.services[i].name.as_str()) {
                    proof {
                        assert(cv.services[j as int].name == cv.services[i as int].name);
                        assert(!spec_valid_config(cv));
                    }
                    return Err(ConfigError::Schema);
                }
                j = j + 1;
            }
            i = i + 1;
        }
        let mut k: usize = 0;
        while k < self.routes.len()
            invariant
                cv == self@,
                forall|j: int| 0 <= j < cv.services.len() ==> (#[trigger] cv.services[j]).port
                    != 0,
                forall|j: int, l: int|
                    0 <= j < l < cv.services.len() ==> (#[trigger] cv.services[j]).name != (
                    #[trigger] cv.services[l]).name,
                0 <= k <= self.routes.len(),
                forall|j: int|
                    0 <= j < k ==> match (#[trigger] cv.routes[j]).target {
                        RouteTargetV::Service { service } => spec_has_service(cv.services, service),
                        RouteTargetV::Static { .. } => true,
                    },
            decreases self.routes.len() - k,
        {
            match &self.routes[k].target {
                RouteTarget::Service { service } => {
                    if self.find_service(service.as_str()).is_none() {
                        proof {
                            assert(cv.routes[k as int].target == RouteTargetV::Service {
                                service: service@,
                            });
                            assert(!spec_valid_config(cv));
                        }
                        return Err(ConfigError::Schema);
                    }
                },
                RouteTarget::Static { .. } => {},
            }
            k = k + 1;
        }
        Ok(())
    }
}

/// The health check that applies to a service: its own when it carries one,
/// else the document-level one.
pub open spec fn spec_effective_health_check(s: ServiceV, global: HealthCheckConfigV) -> HealthCheckConfigV {
    match s.health_check {
        Some(h) => h,
        None => global,
    }
}

/// The health check the prober uses for `s` under the document default
/// `global`.
pub fn effective_health_check(s: &Service, global: &HealthCheckConfig) -> (r: HealthCheckConfig)
    ensures
        r@ == spec_effective_health_check(s@, global@),
{
    match &s.health_check {
        Some(h) => h.clone(),
        None => global.clone(),
    }
}

/// Legacy standalone settings read from the process environment by the
/// caller: listener port, public host, proxy port.
#[derive(Debug)]
pub struct Env {
    pub port: u16,
    pub host: String,
    pub proxy_port: u16,
}

impl Env {
    /// Build the settings from the raw variable values, applying the
    /// documented fallbacks: port 1143, host `http://localhost/`,
    /// proxy port 1144.
    pub fn from_vars(port: Option<&str>, host: Option<String>, proxy_port: Option<&str>) -> (r: Env)
        ensures
            r.port == match port {
                Some(p) => match crate::digits::spec_parse_u64(p@) {
                    Some(v) => if v <= u16::MAX {
                        v as u16
                    } else {
                        1143u16
                    },
                    None => 1143u16,
                },
                None => 1143u16,
            },
            r.host@ == match host {
                Some(h) => h@,
                None => "http://localhost/"@,
            },
            r.proxy_port == match proxy_port {
                Some(p) => match crate::digits::spec_parse_u64(p@) {
                    Some(v) => if v <= u16::MAX {
                        v as u16
                    } else {
                        1144u16
                    },
                    None => 1144u16,
                },
                None => 1144u16,
            },
    {
        let port_val: u16 = match port {
            Some(p) => match crate::digits::parse_u16(p) {
                Some(v) => v,
                None => 1143,
            },
            None => 1143,
        };
        let host_val: String = match host {
            Some(h) => h,
            None => "http://localhost/".to_owned(),
        };
        let proxy_val: u16 = match proxy_port {
            Some(p) => match crate::digits::parse_u16(p) {
                Some(v) => v,
                None => 1144,
            },
            None => 1144,
        };
        Env { port: port_val, host: host_val, proxy_port: proxy_val }
    }
}

} // verus!
