//! Configuration reload as a state machine. The caller performs the
//! actions (fire `stop_services`, wait, build a new running state,
//! publish it under the write lock) and reports back the events.

use vstd::prelude::*;

verus! {

/// What readers see: the configuration generation the bindings and the
/// caches were built from.
#[derive(PartialEq, Eq, Structural, Clone, Copy, Debug)]
pub struct PublishedState {
    pub bindings_generation: u64,
    pub caches_generation: u64,
}

#[derive(PartialEq, Eq, Structural, Clone, Copy, Debug)]
pub enum ReloadPhase {
    Serving,
    Draining,
    Building,
}

#[derive(PartialEq, Eq, Structural, Clone, Copy, Debug)]
pub enum ReloadEvent {
    /// `reload_configuration` fired.
    ReloadRequested,
    /// The drain delay after `stop_services` is over.
    DrainElapsed,
    /// The new running state was built.
    StateBuilt,
    /// Building the new running state failed.
    BuildFailed,
}

#[derive(PartialEq, Eq, Structural, Clone, Copy, Debug)]
pub enum ReloadAction {
    /// Fire `stop_services` and wait the drain delay.
    StopServicesAndDrain,
    /// Build a running state from configuration generation `generation`.
    Build { generation: u64 },
    /// Swap in the state built from `generation`.
    Publish { generation: u64 },
    /// Keep serving the current state.
    KeepCurrent,
    /// Nothing to do for this event in this phase.
    Ignore,
}

pub struct ReloadCoordinator {
    phase: ReloadPhase,
    published: PublishedState,
    next_generation: u64,
}

impl ReloadCoordinator {
    pub closed spec fn spec_phase(&self) -> ReloadPhase {
        self.phase
    }

    pub closed spec fn spec_published(&self) -> PublishedState {
        self.published
    }

    pub closed spec fn spec_next_generation(&self) -> u64 {
        self.next_generation
    }

    /// The published state comes from a single configuration generation,
    /// older than the one being built.
    pub closed spec fn wf(&self) -> bool {
        &&& self.published.bindings_generation == self.published.caches_generation
        &&& self.published.bindings_generation < self.next_generation
    }

    pub fn new() -> (r: Self)
        ensures
            r.wf(),
            r.spec_phase() == ReloadPhase::Serving,
            r.spec_published() == (PublishedState { bindings_generation: 0, caches_generation: 0 }),
    {
        ReloadCoordinator {
            phase: ReloadPhase::Serving,
            published: PublishedState { bindings_generation: 0, caches_generation: 0 },
            next_generation: 1,
        }
    }

    /// The state readers currently see.
    pub fn published(&self) -> (r: PublishedState)
        requires
            self.wf(),
        ensures
            r == self.spec_published(),
            r.bindings_generation == r.caches_generation,
    {
        self.published
    }

    pub fn phase(&self) -> (r: ReloadPhase)
        ensures
            r == self.spec_phase(),
    {
        self.phase
    }

    /// Reacts to one event: a reload request while serving drains first;
    /// after the drain a state is built from the next configuration
    /// generation; a built state is published whole, a failed build keeps
    /// the current one. Events out of turn are ignored.
    pub fn step(&mut self, event: ReloadEvent) -> (r: ReloadAction)
        requires
            old(self).wf(),
        ensures
            final(self).wf(),
            old(self).spec_phase() == ReloadPhase::Serving && event == ReloadEvent::ReloadRequested
                ==> r == ReloadAction::StopServicesAndDrain && final(self).spec_phase()
                == ReloadPhase::Draining && final(self).spec_published() == old(self).spec_published(),
            old(self).spec_phase() == ReloadPhase::Draining && event == ReloadEvent::DrainElapsed
                ==> r == (ReloadAction::Build { generation: old(self).spec_next_generation() })
                && final(self).spec_phase() == ReloadPhase::Building && final(self).spec_published()
                == old(self).spec_published(),
            old(self).spec_phase() == ReloadPhase::Building && event == ReloadEvent::StateBuilt
                && old(self).spec_next_generation() < u64::MAX ==> r == (ReloadAction::Publish {
                generation: old(self).spec_next_generation(),
            }) && final(self).spec_phase() == ReloadPhase::Serving && final(self).spec_published() == (
            PublishedState {
                bindings_generation: old(self).spec_next_generation(),
                caches_generation: old(self).spec_next_generation(),
            }),
            old(self).spec_phase() == ReloadPhase::Building && event == ReloadEvent::BuildFailed ==> r
                == ReloadAction::KeepCurrent && final(self).spec_phase() == ReloadPhase::Serving
                && final(self).spec_published() == old(self).spec_published(),
            r == ReloadAction::Ignore ==> final(self).spec_phase() == old(self).spec_phase()
                && final(self).spec_published() == old(self).spec_published(),
            final(self).spec_published().bindings_generation == final(self).spec_published().caches_generation,
    {
        match (self.phase, event) {
            (ReloadPhase::Serving, ReloadEvent::ReloadRequested) => {
                self.phase = ReloadPhase::Draining;
                ReloadAction::StopServicesAndDrain
            },
            (ReloadPhase::Draining, ReloadEvent::DrainElapsed) => {
                self.phase = ReloadPhase::Building;
                ReloadAction::Build { generation: self.next_generation }
            },
            (ReloadPhase::Building, ReloadEvent::StateBuilt) => {
                let g = self.next_generation;
                if g == u64::MAX {
                    self.phase = ReloadPhase::Serving;
                    return ReloadAction::KeepCurrent;
                }
                self.published = PublishedState { bindings_generation: g, caches_generation: g };
                self.next_generation = g + 1;
                self.phase = ReloadPhase::Serving;
                ReloadAction::Publish { generation: g }
            },
            (ReloadPhase::Building, ReloadEvent::BuildFailed) => {
                self.phase = ReloadPhase::Serving;
                ReloadAction::KeepCurrent
            },
            _ => ReloadAction::Ignore,
        }
    }
}

} // verus!
