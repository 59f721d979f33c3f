//! The registration endpoints: what a service is told about its own instances.

use crate::registry;
use crate::registry::{RegistrationError, RegistrationRequest, Registry};
use crate::text;
use vstd::prelude::*;
use vstd::string::*;

verus! {

/// What an instance is told once it is registered.
pub struct RegistrationResponse {
    pub service: String,
    pub instance_id: String,
    pub ttl_seconds: u64,
    pub heartbeat_interval_seconds: u64,
    pub heartbeat_url: String,
}

/// How a registration is answered.
pub enum RegisterReply {
    Created(RegistrationResponse),
    BadRequest(String),
    Conflict(String),
}

/// How often an instance should say it is alive: three times in its life, at least
/// once a second.
pub open spec fn interval_spec(ttl: u64) -> u64 {
    if ttl / 3 >= 1 {
        ttl / 3
    } else {
        1
    }
}

/// Where an instance says it is alive.
pub open spec fn heartbeat_url_spec(service: Seq<char>, instance_id: Seq<char>) -> Seq<char> {
    "/registry/services/"@ + service + "/instances/"@ + instance_id
}

/// Whether an answer is right for a registration.
pub open spec fn answers_registration(
    registry: Registry,
    request: RegistrationRequest,
    r: RegisterReply,
) -> bool {
    match registry::registration_spec(request, registry.static_services@, registry.catalog@) {
        registry::Registration::Invalid(e) => r matches RegisterReply::BadRequest(m) && m@ == e,
        registry::Registration::Conflict(e) => r matches RegisterReply::Conflict(m) && m@ == e,
        registry::Registration::Routes(_) => r matches RegisterReply::Created(c) && c.service@
            == request.service@ && c.instance_id@ == request.instance_id@ && c.ttl_seconds
            == registry.ttl && c.heartbeat_interval_seconds == interval_spec(registry.ttl)
            && c.heartbeat_url@ == heartbeat_url_spec(request.service@, request.instance_id@),
    }
}

/// Registers an instance.
pub fn register(registry: &mut Registry, request: RegistrationRequest) -> (r: RegisterReply)
    ensures
        answers_registration(*old(registry), request, r),
        registry::same_rest(*final(registry), *old(registry)),
        match registry::registration_spec(
            request,
            old(registry).static_services@,
            old(registry).catalog@,
        ) {
            registry::Registration::Routes(routes) => exists|now: u128|
                old(registry).clock.shows(now) && #[trigger] registry::registered(
                    old(registry).services@,
                    request,
                    routes,
                    now,
                    final(registry).services@,
                ),
            _ => final(registry).services@ == old(registry).services@,
        },
        old(registry).wf() ==> final(registry).wf(),
{
    let service = request.service.clone();
    let instance_id = request.instance_id.clone();
    match registry.register(request) {
        Ok(()) => {
            let ttl_seconds = registry.ttl_seconds();
            let mut heartbeat_url = text::cat3(
                "/registry/services/",
                service.as_str(),
                "/instances/",
            );
            heartbeat_url.append(instance_id.as_str());
            let third: u64 = ttl_seconds / 3;
            RegisterReply::Created(
                RegistrationResponse {
                    service,
                    instance_id,
                    ttl_seconds,
                    heartbeat_interval_seconds: if third >= 1 {
                        third
                    } else {
                        1
                    },
                    heartbeat_url,
                },
            )
        },
        Err(RegistrationError::Invalid(e)) => RegisterReply::BadRequest(e),
        Err(RegistrationError::Conflict(e)) => RegisterReply::Conflict(e),
    }
}

/// How an instance that speaks of itself is answered.
pub enum InstanceReply {
    NoContent,
    /// The instance is not known: what is wrong, and what it should do about it.
    NotFound { error: String, action: Option<&'static str> },
}

/// What an unknown instance is told.
pub open spec fn unknown_instance(service: Seq<char>, instance_id: Seq<char>) -> Seq<char> {
    "instance '"@ + instance_id + "' of service '"@ + service + "' is not registered"@
}

/// Writes what an unknown instance is told.
fn tell_unknown(service: &str, instance_id: &str) -> (r: String)
    ensures
        r@ == unknown_instance(service@, instance_id@),
{
    text::cat5("instance '", instance_id, "' of service '", service, "' is not registered")
}

/// Notes that an instance is alive. One that is not known is told to register anew.
pub fn heartbeat(registry: &mut Registry, service: &str, instance_id: &str) -> (r: InstanceReply)
    ensures
        registry::same_rest(*final(registry), *old(registry)),
        if registry::known(old(registry).services@, service@, instance_id@) {
            r is NoContent && exists|now: u128|
                old(registry).clock.shows(now) && #[trigger] registry::beaten(
                    old(registry).services@,
                    service@,
                    instance_id@,
                    now,
                    final(registry).services@,
                )
        } else {
            (r matches InstanceReply::NotFound { error, action: Some(action) } && error@
                == unknown_instance(service@, instance_id@) && action@ == "re-register"@)
                && final(registry).services@ == old(registry).services@
        },
        old(registry).wf() ==> final(registry).wf(),
{
    if registry.heartbeat(service, instance_id) {
        InstanceReply::NoContent
    } else {
        InstanceReply::NotFound {
            error: tell_unknown(service, instance_id),
            action: Some("re-register"),
        }
    }
}

/// Takes an instance out.
pub fn deregister(registry: &mut Registry, service: &str, instance_id: &str) -> (r: InstanceReply)
    ensures
        registry::deregistered(*old(registry), service@, instance_id@, *final(registry)),
        old(registry).wf() ==> final(registry).wf(),
        if registry::known(old(registry).services@, service@, instance_id@) {
            r is NoContent
        } else {
            r matches InstanceReply::NotFound { error, action: None } && error@
                == unknown_instance(service@, instance_id@)
        },
{
    if registry.deregister(service, instance_id) {
        InstanceReply::NoContent
    } else {
        InstanceReply::NotFound { error: tell_unknown(service, instance_id), action: None }
    }
}

} // verus!
