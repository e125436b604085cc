//! Scheduling policy for background work: which lane each kind of work
//! queues on, and which kinds a newer request of the same kind cancels.
use vstd::prelude::*;

verus! {

#[derive(Clone, Copy, Debug, PartialEq, Eq, Structural)]
pub enum Kind {
    Navigation,
    Details,
    Search,
    Background,
    Mutation,
    Command,
}

/// The queues work waits in: navigation has its own, reads share one, and
/// changes to files run one at a time.
#[derive(Clone, Copy, Debug, PartialEq, Eq, Structural)]
pub enum Lane {
    Navigation,
    Background,
    Mutation,
}

pub open spec fn lane_spec(kind: Kind) -> Lane {
    match kind {
        Kind::Navigation => Lane::Navigation,
        Kind::Details | Kind::Search | Kind::Background => Lane::Background,
        Kind::Mutation | Kind::Command => Lane::Mutation,
    }
}

pub fn lane(kind: Kind) -> (r: Lane)
    ensures
        r == lane_spec(kind),
{
    match kind {
        Kind::Navigation => Lane::Navigation,
        Kind::Details | Kind::Search | Kind::Background => Lane::Background,
        Kind::Mutation | Kind::Command => Lane::Mutation,
    }
}

/// How many jobs a lane runs at once.
pub fn lane_permits(lane: Lane) -> (r: usize)
    ensures
        r == (match lane {
            Lane::Navigation => 2usize,
            Lane::Background => 2usize,
            Lane::Mutation => 1usize,
        }),
{
    match lane {
        Lane::Navigation => 2,
        Lane::Background => 2,
        Lane::Mutation => 1,
    }
}

/// Navigation, details and search are superseded by newer work of the same
/// kind; other work always finishes.
pub open spec fn cancellable_spec(kind: Kind) -> bool {
    kind is Navigation || kind is Details || kind is Search
}

pub fn cancellable(kind: Kind) -> (r: bool)
    ensures
        r == cancellable_spec(kind),
{
    match kind {
        Kind::Navigation | Kind::Details | Kind::Search => true,
        Kind::Background | Kind::Mutation | Kind::Command => false,
    }
}

/// A job's claim on its kind's generation: the generation it started in,
/// when its kind can be cancelled.
#[derive(Clone, Copy, Debug, PartialEq, Eq)]
pub struct Cancellation {
    pub generation: Option<u64>,
}

/// The counter after one more start or cancel (an atomic add, wrapping).
pub open spec fn next_generation(g: u64) -> u64 {
    if g == u64::MAX {
        0
    } else {
        (g + 1) as u64
    }
}

pub open spec fn begin_spec(kind: Kind, current: u64) -> Cancellation {
    Cancellation {
        generation: if cancellable_spec(kind) {
            Some(next_generation(current))
        } else {
            None
        },
    }
}

pub open spec fn cancelled_spec(c: Cancellation, current: u64) -> bool {
    c.generation matches Some(mine) && mine != current
}

impl Cancellation {
    /// The claim of a job that starts when its kind's counter reads
    /// `current`: starting moves the counter on, and the job owns the new
    /// value.
    pub fn begin(kind: Kind, current: u64) -> (r: Self)
        ensures
            r == begin_spec(kind, current),
    {
        if cancellable(kind) {
            Cancellation { generation: Some(current.wrapping_add(1)) }
        } else {
            Cancellation { generation: None }
        }
    }

    /// Cancelled once the kind's counter has moved past the job's own value.
    pub fn is_cancelled(&self, current: u64) -> (r: bool)
        ensures
            r == cancelled_spec(*self, current),
    {
        match self.generation {
            Some(mine) => current != mine,
            None => false,
        }
    }
}

/// The latest job of a kind runs until the next start or cancel of that
/// kind, which cancels it; work of other kinds is never cancelled.
pub proof fn lemma_latest_job_runs(kind: Kind, current: u64)
    ensures
        !cancelled_spec(begin_spec(kind, current), next_generation(current)),
        cancellable_spec(kind) ==> cancelled_spec(
            begin_spec(kind, current),
            next_generation(next_generation(current)),
        ),
        !cancellable_spec(kind) ==> forall|g: u64| !cancelled_spec(begin_spec(kind, current), g),
{
}

} // verus!
