//! The holder of the active specification. It is replaced as a whole, never
//! changed rule by rule, so that no decision is ever taken on a mix of an old
//! and a new rule set. A program shares one store between its threads behind a
//! readers-writer lock: `evaluate` needs shared access for one pass over the
//! rules, `replace` exclusive access.

use crate::level::{publish_max_level, Level, LevelFilter};
use crate::log_specification::{
    enabled_by,
    first_match,
    lemma_first_match,
    lemma_max_level_of,
    max_level_of,
    LogSpecification,
    Rule,
    SpecView,
};
use vstd::prelude::*;

verus! {

/// A signal from the watch on the specification file.
#[derive(Clone, Copy, Debug, PartialEq, Eq, Structural)]
pub enum WatchEvent {
    /// The file was written, after writes in quick succession had settled.
    Write,
    /// Anything else that happened to the file.
    Other,
    /// The watch itself reported an error.
    Failure,
    /// The watch on the file could not be established.
    NotEstablished,
}

/// What the watch loop does about a signal.
#[derive(Clone, Copy, Debug, PartialEq, Eq, Structural)]
pub enum WatchReaction {
    /// Read the file again and hand the result to `SpecificationStore::reload`.
    Reload,
    /// Do nothing.
    Ignore,
    /// Report the error and go on watching.
    Report,
    /// Give up: the file cannot be watched, and the setup that asked for the
    /// watch ends with the error. Logging that runs already goes on.
    GiveUp,
}

/// The active specification together with the marker of the most verbose
/// threshold that any of its rules has. The marker always belongs to the rules
/// that are held: both change together or not at all.
///
/// A store is installed once the logger that decides by it has been accepted
/// as the logger of the process. Only an installed store publishes its marker
/// to the `log` crate: when it is installed, and with every replacement after
/// that.
#[derive(Debug)]
pub struct SpecificationStore {
    spec: LogSpecification,
    marker: LevelFilter,
    installed: bool,
}

/// The mathematical content of a `SpecificationStore`.
pub struct StoreView {
    pub spec: SpecView,
    pub marker: LevelFilter,
    pub installed: bool,
}

impl View for SpecificationStore {
    type V = StoreView;

    closed spec fn view(&self) -> StoreView {
        StoreView { spec: self.spec@, marker: self.marker, installed: self.installed }
    }
}

/// No record above the most verbose threshold of a rule set is enabled by it,
/// whatever its module: a filter that drops such records early drops nothing
/// that the rules would let pass.
pub proof fn lemma_marker_is_sound(rules: Seq<Rule>, level: Level, path: Seq<char>)
    requires
        enabled_by(rules, level, path),
    ensures
        max_level_of(rules).admits(level),
{
    lemma_first_match(rules, path);
    lemma_max_level_of(rules);
    assert(rules[first_match(rules, path)].level_filter.rank() <= max_level_of(rules).rank());
}

impl SpecificationStore {
    #[verifier::type_invariant]
    spec fn marker_fits(&self) -> bool {
        self.marker == max_level_of(self.spec@.rules)
    }

    /// A store that holds `spec` and is not installed. Nothing is published.
    pub fn new(spec: LogSpecification) -> (store: SpecificationStore)
        ensures
            store@ == (StoreView {
                spec: spec@,
                marker: max_level_of(spec@.rules),
                installed: false,
            }),
    {
        let marker = spec.max_level();
        SpecificationStore { spec, marker, installed: false }
    }

    /// Takes the answer to the attempt to install the logger that decides by this
    /// store. After a success the store is installed, and its marker is
    /// published to the `log` crate. After a failure, which means that another
    /// logger runs already, the store is as it was and nothing is published. The
    /// answer is handed back.
    pub fn install<E>(&mut self, outcome: Result<(), E>) -> (r: Result<(), E>)
        ensures
            r == outcome,
            final(self)@ == (StoreView {
                installed: old(self)@.installed || outcome is Ok,
                ..old(self)@
            }),
    {
        proof {
            use_type_invariant(&*self);
        }
        if outcome.is_ok() {
            self.installed = true;
            publish_max_level(self.marker);
        }
        outcome
    }

    /// Decides whether a record of severity `level` from `module` is enabled by
    /// the specification that is held.
    pub fn evaluate(&self, level: Level, module: &str) -> (b: bool)
        ensures
            b == enabled_by(self@.spec.rules, level, module@),
            b ==> self@.marker.admits(level),
    {
        proof {
            use_type_invariant(self);
        }
        let b = self.spec.enabled(level, module);
        proof {
            if b {
                lemma_marker_is_sound(self@.spec.rules, level, module@);
            }
        }
        b
    }

    /// Decides from the marker alone whether a record of severity `level` can be
    /// enabled for any module at all.
    pub fn is_of_interest(&self, level: Level) -> (b: bool)
        ensures
            b == max_level_of(self@.spec.rules).admits(level),
            b == self@.marker.admits(level),
    {
        proof {
            use_type_invariant(self);
        }
        self.marker.enables(level)
    }

    /// The marker: the most verbose threshold of the rules that are held.
    pub fn max_level(&self) -> (max: LevelFilter)
        ensures
            max == max_level_of(self@.spec.rules),
            max == self@.marker,
    {
        proof {
            use_type_invariant(self);
        }
        self.marker
    }

    /// Whether the store is installed.
    pub fn is_installed(&self) -> (installed: bool)
        ensures
            installed == self@.installed,
    {
        self.installed
    }

    /// The specification that is held.
    pub fn specification(&self) -> (spec: &LogSpecification)
        ensures
            spec@ == self@.spec,
    {
        &self.spec
    }

    /// Puts `new_spec` in the place of the specification that is held and sets
    /// the marker to fit it, in one step. Every later `evaluate` decides by
    /// `new_spec` alone. An installed store publishes the new marker to the
    /// `log` crate.
    pub fn replace(&mut self, new_spec: LogSpecification)
        ensures
            final(self)@ == (StoreView {
                spec: new_spec@,
                marker: max_level_of(new_spec@.rules),
                installed: old(self)@.installed,
            }),
    {
        let marker = new_spec.max_level();
        let installed = self.installed;
        *self = SpecificationStore { spec: new_spec, marker, installed };
        if installed {
            publish_max_level(marker);
        }
    }

    /// Takes over what came of reading the specification file again. A
    /// specification that was read replaces the one that is held. A failure, be
    /// it that the file could not be read or that its content had flaws, leaves
    /// the store as it was and is handed back to be reported.
    pub fn reload<E>(&mut self, outcome: Result<LogSpecification, E>) -> (failure: Option<E>)
        ensures
            match outcome {
                Ok(spec) => failure is None && final(self)@ == (StoreView {
                    spec: spec@,
                    marker: max_level_of(spec@.rules),
                    installed: old(self)@.installed,
                }),
                Err(e) => failure == Some(e) && *final(self) == *old(self),
            },
    {
        match outcome {
            Ok(spec) => {
                self.replace(spec);
                None
            },
            Err(e) => Some(e),
        }
    }

    /// What is done about a signal from the watch: only a write to the file
    /// makes the loop read the file again, an error of the running watch is
    /// reported, and a watch that cannot be established is fatal for the setup
    /// that asked for it.
    pub fn reaction(event: WatchEvent) -> (reaction: WatchReaction)
        ensures
            reaction == match event {
                WatchEvent::Write => WatchReaction::Reload,
                WatchEvent::Other => WatchReaction::Ignore,
                WatchEvent::Failure => WatchReaction::Report,
                WatchEvent::NotEstablished => WatchReaction::GiveUp,
            },
    {
        match event {
            WatchEvent::Write => WatchReaction::Reload,
            WatchEvent::Other => WatchReaction::Ignore,
            WatchEvent::Failure => WatchReaction::Report,
            WatchEvent::NotEstablished => WatchReaction::GiveUp,
        }
    }
}

} // verus!
