//! Named cancellation triggers. Each trigger has a generation; a token
//! remembers the generation it was taken at, and firing moves the
//! generation on, which cancels every token taken before.

use vstd::prelude::*;
use crate::text::str_eq;

verus! {

#[derive(PartialEq, Eq, Structural, Clone, Copy, Debug)]
pub enum TriggerName {
    Shutdown,
    StopServices,
    ReloadConfiguration,
}

/// The trigger a name stands for: `shutdown`, `stop_services` or
/// `reload_configuration`.
pub fn trigger_from_name(name: &str) -> (r: Option<TriggerName>)
    ensures
        name@ == "shutdown"@ ==> r == Some(TriggerName::Shutdown),
        name@ == "stop_services"@ ==> r == Some(TriggerName::StopServices),
        name@ == "reload_configuration"@ ==> r == Some(TriggerName::ReloadConfiguration),
        name@ != "shutdown"@ && name@ != "stop_services"@ && name@ != "reload_configuration"@ ==> r
            is None,
{
    proof {
        reveal_strlit("shutdown");
        reveal_strlit("stop_services");
        reveal_strlit("reload_configuration");
        assert("shutdown"@.len() == 8);
        assert("stop_services"@.len() == 13);
        assert("reload_configuration"@.len() == 20);
    }
    if str_eq(name, "shutdown") {
        Some(TriggerName::Shutdown)
    } else if str_eq(name, "stop_services") {
        Some(TriggerName::StopServices)
    } else if str_eq(name, "reload_configuration") {
        Some(TriggerName::ReloadConfiguration)
    } else {
        None
    }
}

/// A subscription: the trigger and its generation when taken.
#[derive(PartialEq, Eq, Structural, Clone, Copy, Debug)]
pub struct TriggerToken {
    pub trigger: TriggerName,
    pub generation: u64,
}

#[derive(PartialEq, Eq, Structural, Clone, Copy, Debug)]
pub struct TriggerRegistry {
    shutdown: u64,
    stop_services: u64,
    reload_configuration: u64,
}

/// The generation of `t` in a registry.
pub open spec fn generation_of(r: TriggerRegistry, t: TriggerName) -> u64 {
    match t {
        TriggerName::Shutdown => r.spec_shutdown(),
        TriggerName::StopServices => r.spec_stop_services(),
        TriggerName::ReloadConfiguration => r.spec_reload_configuration(),
    }
}

impl TriggerRegistry {
    pub closed spec fn spec_shutdown(self) -> u64 {
        self.shutdown
    }

    pub closed spec fn spec_stop_services(self) -> u64 {
        self.stop_services
    }

    pub closed spec fn spec_reload_configuration(self) -> u64 {
        self.reload_configuration
    }

    pub fn new() -> (r: Self)
        ensures
            forall|t: TriggerName| generation_of(r, t) == 0,
    {
        TriggerRegistry { shutdown: 0, stop_services: 0, reload_configuration: 0 }
    }

    pub fn generation(&self, t: TriggerName) -> (r: u64)
        ensures
            r == generation_of(*self, t),
    {
        match t {
            TriggerName::Shutdown => self.shutdown,
            TriggerName::StopServices => self.stop_services,
            TriggerName::ReloadConfiguration => self.reload_configuration,
        }
    }

    /// A token on the current generation of `t`.
    pub fn subscribe(&self, t: TriggerName) -> (r: TriggerToken)
        ensures
            r.trigger == t,
            r.generation == generation_of(*self, t),
    {
        TriggerToken { trigger: t, generation: self.generation(t) }
    }

    /// Fires `t`: every token taken so far reads as cancelled, and new
    /// tokens start live. (A trigger fired `u64::MAX` times stays put.)
    pub fn fire(&mut self, t: TriggerName)
        ensures
            generation_of(*final(self), t) == if generation_of(*old(self), t) == u64::MAX {
                u64::MAX
            } else {
                (generation_of(*old(self), t) + 1) as u64
            },
            forall|u: TriggerName| u != t ==> generation_of(*final(self), u) == generation_of(*old(self), u),
    {
        match t {
            TriggerName::Shutdown => self.shutdown = self.shutdown.saturating_add(1),
            TriggerName::StopServices => self.stop_services = self.stop_services.saturating_add(1),
            TriggerName::ReloadConfiguration => {
                self.reload_configuration = self.reload_configuration.saturating_add(1)
            },
        }
    }

    /// Whether the trigger of `token` has fired since it was taken.
    pub fn is_cancelled(&self, token: &TriggerToken) -> (r: bool)
        ensures
            r == (generation_of(*self, token.trigger) > token.generation),
    {
        self.generation(token.trigger) > token.generation
    }
}

/// Whether `token` reads as cancelled in registry `r`.
pub open spec fn cancelled_in(r: TriggerRegistry, token: TriggerToken) -> bool {
    generation_of(r, token.trigger) > token.generation
}

/// Firing a trigger cancels every token taken on it before, while a token
/// taken after the firing is live.
pub proof fn lemma_fire_cancels(
    before: TriggerRegistry,
    after: TriggerRegistry,
    t: TriggerName,
    old_token: TriggerToken,
    new_token: TriggerToken,
)
    requires
        generation_of(before, t) < u64::MAX,
        generation_of(after, t) == generation_of(before, t) + 1,
        old_token.trigger == t,
        old_token.generation <= generation_of(before, t),
        new_token.trigger == t,
        new_token.generation == generation_of(after, t),
    ensures
        cancelled_in(after, old_token),
        !cancelled_in(after, new_token),
{
}

} // verus!
