//! Waypoint patrol: the robot moves toward each waypoint in turn, cycling.
use vstd::prelude::*;

use crate::types::Priority;

verus! {

/// The waypoint index that follows `i` on a round of `n` waypoints.
pub open spec fn next_waypoint(i: nat, n: nat) -> nat
    recommends
        n > 0,
{
    ((i + 1) as int % (n as int)) as nat
}

/// The waypoint index after `k` advances from `i` on a round of `n` waypoints.
pub open spec fn advance_times(i: nat, n: nat, k: nat) -> nat
    decreases k,
{
    if k == 0 {
        i
    } else {
        next_waypoint(advance_times(i, n, (k - 1) as nat), n)
    }
}

/// `k` advances from index `i` (below `n`) reach index `(i + k) % n`; in
/// particular `n` advances come back to where they started.
pub proof fn lemma_advance_cycles(i: nat, n: nat, k: nat)
    requires
        i < n,
    ensures
        advance_times(i, n, k) as int == (i + k) as int % (n as int),
        advance_times(i, n, n) == i,
{
    lemma_advance_n(i, n, k);
    lemma_advance_n(i, n, n);
    vstd::arithmetic::div_mod::lemma_add_mod_noop(i as int, n as int, n as int);
    vstd::arithmetic::div_mod::lemma_mod_self_0(n as int);
    vstd::arithmetic::div_mod::lemma_small_mod(i, n);
}

proof fn lemma_advance_n(i: nat, n: nat, k: nat)
    requires
        i < n,
    ensures
        advance_times(i, n, k) as int == (i + k) as int % (n as int),
    decreases k,
{
    if k > 0 {
        lemma_advance_n(i, n, (k - 1) as nat);
        let prev = advance_times(i, n, (k - 1) as nat) as int;
        let m = n as int;
        assert(prev == (i + k - 1) as int % m);
        assert((prev + 1) % m == (i + k) as int % m) by {
            vstd::arithmetic::div_mod::lemma_add_mod_noop(i + k - 1, 1, m);
            vstd::arithmetic::div_mod::lemma_mod_twice(i + k - 1, m);
            vstd::arithmetic::div_mod::lemma_add_mod_noop(prev, 1, m);
        }
    } else {
        vstd::arithmetic::div_mod::lemma_small_mod(i, n);
    }
}

/// Waypoint-based autonomous patrol behavior.
///
/// The robot moves toward each waypoint in sequence, cycling back to the
/// first after reaching the last. `W` is the waypoint type and `D` the type
/// of the arrival threshold, against which callers measure arrival.
pub struct PatrolBehavior<W, D> {
    waypoints: Vec<W>,
    arrival_threshold: D,
    current_waypoint: usize,
}

impl<W, D> PatrolBehavior<W, D> {
    /// The waypoints, in patrol order.
    pub closed spec fn route(&self) -> Seq<W> {
        self.waypoints@
    }

    /// The index of the waypoint currently targeted.
    pub closed spec fn index(&self) -> nat {
        self.current_waypoint as nat
    }

    /// The arrival threshold.
    pub closed spec fn threshold(&self) -> D {
        self.arrival_threshold
    }

    #[verifier::type_invariant]
    closed spec fn on_route(&self) -> bool {
        self.current_waypoint < self.waypoints@.len()
    }

    /// A patrol over the given waypoints, starting at the first.
    /// There must be at least one waypoint.
    pub fn new(waypoints: Vec<W>, arrival_threshold: D) -> (r: Self)
        requires
            waypoints.len() > 0,
        ensures
            r.route() == waypoints@,
            r.index() == 0,
            r.threshold() == arrival_threshold,
    {
        PatrolBehavior { waypoints, arrival_threshold, current_waypoint: 0 }
    }

    /// The same patrol with another arrival threshold.
    pub fn with_threshold(self, threshold: D) -> (r: Self)
        ensures
            r.route() == self.route(),
            r.index() == self.index(),
            r.threshold() == threshold,
    {
        proof {
            use_type_invariant(&self);
        }
        PatrolBehavior {
            waypoints: self.waypoints,
            arrival_threshold: threshold,
            current_waypoint: self.current_waypoint,
        }
    }

    pub fn name(&self) -> (s: &'static str)
        ensures
            s@ == "PatrolBehavior"@,
    {
        "PatrolBehavior"
    }

    /// The behavior's priority: `Normal`.
    pub fn priority(&self) -> (p: Priority)
        ensures
            p == Priority::Normal,
    {
        Priority::Normal
    }

    /// The arrival threshold.
    pub fn arrival_threshold(&self) -> (d: &D)
        ensures
            *d == self.threshold(),
    {
        &self.arrival_threshold
    }

    /// The waypoint currently targeted.
    pub fn current_target(&self) -> (w: &W)
        ensures
            self.index() < self.route().len(),
            *w == self.route()[self.index() as int],
    {
        proof {
            use_type_invariant(self);
        }
        &self.waypoints[self.current_waypoint]
    }

    /// The index of the waypoint currently targeted; always below the count.
    pub fn current_index(&self) -> (i: usize)
        ensures
            i == self.index(),
            i < self.route().len(),
    {
        proof {
            use_type_invariant(self);
        }
        self.current_waypoint
    }

    /// The number of waypoints; never zero.
    pub fn waypoint_count(&self) -> (n: usize)
        ensures
            n == self.route().len(),
            n > 0,
    {
        proof {
            use_type_invariant(self);
        }
        self.waypoints.len()
    }

    /// Target the next waypoint, wrapping around after the last.
    pub fn advance(&mut self)
        ensures
            final(self).route() == old(self).route(),
            final(self).threshold() == old(self).threshold(),
            final(self).index() == next_waypoint(old(self).index(), old(self).route().len()),
    {
        proof {
            use_type_invariant(&*self);
        }
        let n = self.waypoints.len();
        let next = (self.current_waypoint + 1) % n;
        self.current_waypoint = next;
    }
}

} // verus!
