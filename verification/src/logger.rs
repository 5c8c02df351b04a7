//! The log state threaded through a compile: an optional sink and a
//! minimum priority, owned by the caller rather than hidden in process-wide
//! state, so the engine stays independently testable.
use vstd::prelude::*;

verus! {

/// A log sink; the tool's callers implement it.  A sink models what it has
/// received so that `log`'s contract can state delivery.
pub trait Log {
    /// The lines this sink has received, in order, with their priorities.
    /// A verified sink overrides this model; the default stands in for
    /// sinks outside the verifier's reach.
    open spec fn received(&self) -> Seq<(i64, Seq<char>)> {
        Seq::empty()
    }

    /// Writes one line at the given priority: the sink receives exactly it.
    fn write(&mut self, priority: i64, line: &str)
        ensures
            final(self).received() == old(self).received().push((priority, line@)),
    ;
}

/// The logging state one invocation threads through its components.
pub struct State<L: Log> {
    /// The installed sink, if any.
    pub log: Option<L>,
    /// Lines below this priority are dropped.
    pub min_priority: i64,
}

impl<L: Log> Default for State<L> {
    /// A fresh state: no sink, and every priority down to the default
    /// threshold passes.
    fn default() -> (r: Self)
        ensures
            r.log is None,
            r.min_priority == -1,
    {
        State { log: None, min_priority: -1 }
    }
}

/// Sets the priority below which lines are dropped.
pub fn set_priority<L: Log>(state: &mut State<L>, priority: i64)
    ensures
        final(state).min_priority == priority,
        final(state).log == old(state).log,
{
    state.min_priority = priority;
}

/// The priority below which lines are dropped.
pub fn get_priority<L: Log>(state: &State<L>) -> (r: i64)
    ensures
        r == state.min_priority,
{
    state.min_priority
}

/// Installs a sink, replacing any earlier one.
pub fn set<L: Log>(state: &mut State<L>, log: L)
    ensures
        final(state).log == Some(log),
        final(state).min_priority == old(state).min_priority,
{
    state.log = Some(log);
}

/// The installed sink.
pub fn get<L: Log>(state: &State<L>) -> (r: &Option<L>)
    ensures
        r == &state.log,
{
    &state.log
}

/// Removes and returns the installed sink.
pub fn remove<L: Log>(state: &mut State<L>) -> (r: Option<L>)
    ensures
        r == old(state).log,
        final(state).log is None,
        final(state).min_priority == old(state).min_priority,
{
    state.log.take()
}

/// Writes one line through the installed sink: the sink receives exactly
/// that line, once, unless its priority falls below the threshold or no
/// sink is installed — then nothing changes.
pub fn log<L: Log>(state: &mut State<L>, priority: i64, line: &str)
    ensures
        final(state).min_priority == old(state).min_priority,
        match old(state).log {
            Some(l) => final(state).log is Some && final(state).log.unwrap().received() == (
            if priority >= old(state).min_priority {
                l.received().push((priority, line@))
            } else {
                l.received()
            }),
            None => final(state).log is None,
        },
        priority < old(state).min_priority ==> final(state).log == old(state).log,
{
    if priority < state.min_priority {
        return ;
    }
    match &mut state.log {
        Some(l) => {
            l.write(priority, line);
        },
        None => {},
    }
}

} // verus!
