//! The control plane's port-update endpoint: request validation, the
//! switch itself, and the exact response the endpoint answers with.

use vstd::prelude::*;

use crate::digits::spec_dec;
use crate::state::{AppState, SwitchError, spec_find_key, spec_service_names, spec_switch_service};

verus! {

/// The body of a port-update request.
#[derive(Debug)]
pub struct UpdatePortRequest {
    pub service: String,
    pub port: u16,
    pub skip_health_check: bool,
}

/// Spec-level value of an [`UpdatePortRequest`].
pub struct UpdatePortRequestV {
    pub service: Seq<char>,
    pub port: u16,
    pub skip_health_check: bool,
}

impl View for UpdatePortRequest {
    type V = UpdatePortRequestV;

    open spec fn view(&self) -> UpdatePortRequestV {
        UpdatePortRequestV {
            service: self.service@,
            port: self.port,
            skip_health_check: self.skip_health_check,
        }
    }
}

/// What the endpoint answers: success with its message and the two ports,
/// or a refusal with a status code and an error message.
#[derive(Debug)]
pub enum PortUpdateOutcome {
    Updated { message: String, previous_port: u16, current_port: u16 },
    Rejected { status: u16, error: String },
}

impl PortUpdateOutcome {
    /// The HTTP status of the answer.
    pub fn status(&self) -> (r: u16)
        ensures
            r == match self {
                PortUpdateOutcome::Updated { .. } => 200u16,
                PortUpdateOutcome::Rejected { status, .. } => *status,
            },
    {
        match self {
            PortUpdateOutcome::Updated { .. } => 200,
            PortUpdateOutcome::Rejected { status, .. } => *status,
        }
    }
}

/// The success message: `Service '{name}' updated from port {a} to {b}`.
pub open spec fn spec_msg_updated(name: Seq<char>, from_port: u16, to_port: u16) -> Seq<char> {
    "Service '"@ + name + "' updated from port "@ + spec_dec(from_port as nat) + " to "@
        + spec_dec(to_port as nat)
}

/// The unknown-service message: `Service '{name}' not found`.
pub open spec fn spec_msg_not_found(name: Seq<char>) -> Seq<char> {
    "Service '"@ + name + "' not found"@
}

/// The failed-probe message: `Service '{name}' is not healthy`.
pub open spec fn spec_msg_unhealthy(name: Seq<char>) -> Seq<char> {
    "Service '"@ + name + "' is not healthy"@
}

fn msg_updated(name: &str, from_port: u16, to_port: u16) -> (r: String)
    ensures
        r@ == spec_msg_updated(name@, from_port, to_port),
{
    let mut s = "Service '".to_owned();
    s.append(name);
    s.append("' updated from port ");
    let f = crate::digits::u64_to_string(from_port as u64);
    s.append(f.as_str());
    s.append(" to ");
    let t = crate::digits::u64_to_string(to_port as u64);
    s.append(t.as_str());
    s
}

fn msg_not_found(name: &str) -> (r: String)
    ensures
        r@ == spec_msg_not_found(name@),
{
    let mut s = "Service '".to_owned();
    s.append(name);
    s.append("' not found");
    s
}

fn msg_unhealthy(name: &str) -> (r: String)
    ensures
        r@ == spec_msg_unhealthy(name@),
{
    let mut s = "Service '".to_owned();
    s.append(name);
    s.append("' is not healthy");
    s
}

/// The endpoint's whole decision. A port of 0 is rejected with 400 and the
/// state untouched; an unknown service with 404 and the state untouched.
/// Otherwise the switch is applied; when the health probe was run and
/// reported unhealthy the answer is a 404 refusal, but the switch stands
/// either way (no rollback), and on success the answer carries the old and
/// new port. `probe_healthy` is the verdict the caller obtained against
/// the new port; it is read only when the request does not skip the check.
pub fn handle_update_port(
    state: &mut AppState,
    req: &UpdatePortRequest,
    probe_healthy: bool,
) -> (r: PortUpdateOutcome)
    requires
        old(state).wf(),
    ensures
        final(state).wf(),
        final(state).port == old(state).port,
        final(state).proxy_port == old(state).proxy_port,
        final(state)@.routes_map == old(state)@.routes_map,
        req@.port == 0 ==> final(state)@ == old(state)@ && (r matches
            PortUpdateOutcome::Rejected { status, error } && status == 400
            && error@ == "Invalid port number"@),
        req@.port != 0 ==> match spec_find_key(
            spec_service_names(old(state)@.services_map),
            req@.service,
        ) {
            None => final(state)@ == old(state)@ && (r matches PortUpdateOutcome::Rejected {
                status,
                error,
            } && status == 404 && error@ == spec_msg_not_found(req@.service)),
            Some(i) => {
                let olds = old(state)@.services_map[i];
                &&& final(state)@.services_map =~= old(state)@.services_map.update(
                    i,
                    spec_switch_service(olds, req@.port),
                )
                &&& final(state)@.config.services =~= old(state)@.config.services.update(
                    i,
                    spec_switch_service(olds, req@.port),
                )
                &&& if req@.skip_health_check || probe_healthy {
                    r matches PortUpdateOutcome::Updated { message, previous_port, current_port }
                        && message@ == spec_msg_updated(req@.service, olds.port, req@.port)
                        && previous_port == olds.port && current_port == req@.port
                } else {
                    r matches PortUpdateOutcome::Rejected { status, error } && status == 404
                        && error@ == spec_msg_unhealthy(req@.service)
                }
            },
        },
{
    if req.port == 0 {
        return PortUpdateOutcome::Rejected {
            status: 400,
            error: "Invalid port number".to_owned(),
        };
    }
    match state.update_service_port(
        req.service.as_str(),
        req.port,
        req.skip_health_check,
        probe_healthy,
    ) {
        Ok(old_port) => PortUpdateOutcome::Updated {
            message: msg_updated(req.service.as_str(), old_port, req.port),
            previous_port: old_port,
            current_port: req.port,
        },
        Err(SwitchError::ServiceNotFound) => PortUpdateOutcome::Rejected {
            status: 404,
            error: msg_not_found(req.service.as_str()),
        },
        Err(_) => PortUpdateOutcome::Rejected {
            status: 404,
            error: msg_unhealthy(req.service.as_str()),
        },
    }
}

} // verus!
