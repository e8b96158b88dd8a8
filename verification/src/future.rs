//! A future that needs a given number of wake-ups before it completes.
use vstd::prelude::*;

verus! {

/// What one poll of an [`NPollsToBeReady`] decides.
#[derive(PartialEq, Eq, Debug, Clone, Copy)]
pub enum NPollsOutcome {
    /// The future was polled while no wake-up was due: it stays pending and
    /// nothing else happens.
    Asleep,
    /// The future was awake with polls left: it stays pending, goes to sleep
    /// and asks for one delayed wake-up. `remaining` is the count it had.
    Rearm { remaining: usize },
    /// The future was awake with no polls left: it completes.
    Ready,
}

/// One poll of a future with `left` polls to go, `awake` telling whether its
/// last wake-up has arrived: returns the new count and the outcome.
pub open spec fn npolls_model(left: usize, awake: bool) -> (usize, NPollsOutcome) {
    if !awake {
        (left, NPollsOutcome::Asleep)
    } else if left == 0 {
        (left, NPollsOutcome::Ready)
    } else {
        ((left - 1) as usize, NPollsOutcome::Rearm { remaining: left })
    }
}

/// The count left after `k` awake polls from `left`.
pub open spec fn awake_run(left: usize, k: nat) -> usize
    decreases k,
{
    if k == 0 {
        left
    } else {
        npolls_model(awake_run(left, (k - 1) as nat), true).0
    }
}

/// A future that completes on the first awake poll after `n` awake polls
/// have each consumed one unit of its count.
pub struct NPollsToBeReady {
    left: usize,
}

impl NPollsToBeReady {
    /// The number of awake polls that will still return pending.
    pub closed spec fn left_spec(&self) -> usize {
        self.left
    }

    /// A future that completes after `n` rounds of waiting.
    pub fn new(n: usize) -> (s: Self)
        ensures
            s.left_spec() == n,
    {
        NPollsToBeReady { left: n }
    }

    /// One poll: `awake` tells whether the wake-up asked for by the last
    /// pending poll has arrived (it is true before the first poll). See
    /// [`npolls_model`].
    pub fn poll(&mut self, awake: bool) -> (outcome: NPollsOutcome)
        ensures
            (final(self).left_spec(), outcome) == npolls_model(old(self).left_spec(), awake),
    {
        if !awake {
            NPollsOutcome::Asleep
        } else if self.left == 0 {
            NPollsOutcome::Ready
        } else {
            let remaining = self.left;
            self.left = self.left - 1;
            NPollsOutcome::Rearm { remaining }
        }
    }

    /// The number of awake polls that will still return pending.
    pub fn left(&self) -> (r: usize)
        ensures
            r == self.left_spec(),
    {
        self.left
    }
}

/// A poll before the wake-up arrives changes nothing and stays pending.
pub proof fn law_asleep_poll_changes_nothing(left: usize)
    ensures
        npolls_model(left, false) == (left, NPollsOutcome::Asleep),
{
}

/// A future made with `new(n)` answers pending to its first `n` awake polls
/// and completes on the next one: after `k < n` awake polls (counting from
/// zero), the next awake poll answers pending with `n - k` polls remaining,
/// and after `n` of them it completes.
pub proof fn law_ready_after_n_awake_polls(n: usize, k: nat)
    requires
        k <= n,
    ensures
        awake_run(n, k) == n - k,
        npolls_model(awake_run(n, k), true).1 == (if k < n {
            NPollsOutcome::Rearm { remaining: (n - k) as usize }
        } else {
            NPollsOutcome::Ready
        }),
    decreases k,
{
    if k > 0 {
        law_ready_after_n_awake_polls(n, (k - 1) as nat);
    }
}

} // verus!
