//! Threat detection: escalation from `NoThreat` through `Suspicious` to `Confirmed`.
use vstd::prelude::*;

use crate::types::{Priority, ThreatLevel};

verus! {

/// The text spoken when sustained detection confirms a threat.
pub open spec fn confirmed_alert() -> Seq<char> {
    "ALERT: Unknown person detected \u{2014} threat confirmed!"@
}

/// The text spoken when an unknown person is first seen nearby.
pub open spec fn suspicious_alert() -> Seq<char> {
    "Caution: Unknown person detected nearby."@
}

/// The tracker's counter after one observation.
pub open spec fn next_counter(counter: nat, detected: bool) -> nat {
    if detected {
        counter + 1
    } else if counter > 0 {
        (counter - 1) as nat
    } else {
        0
    }
}

/// The tracker's level after one observation, given the counter before it.
pub open spec fn next_level(
    counter: nat,
    level: ThreatLevel,
    sustained: nat,
    detected: bool,
) -> ThreatLevel {
    if detected {
        if counter + 1 >= sustained {
            ThreatLevel::Confirmed
        } else {
            ThreatLevel::Suspicious
        }
    } else if next_counter(counter, false) == 0 {
        ThreatLevel::NoThreat
    } else {
        level
    }
}

/// The counter and level after a run of observations, oldest first.
pub open spec fn run_observations(
    counter: nat,
    level: ThreatLevel,
    sustained: nat,
    observations: Seq<bool>,
) -> (nat, ThreatLevel)
    decreases observations.len(),
{
    if observations.len() == 0 {
        (counter, level)
    } else {
        let d = observations[0];
        run_observations(
            next_counter(counter, d),
            next_level(counter, level, sustained, d),
            sustained,
            observations.drop_first(),
        )
    }
}

/// Detects unknown persons and escalates through threat levels.
///
/// When an unknown person is detected within the alert distance, the
/// counter increments. Once it reaches `sustained_ticks` the threat is
/// confirmed. Without a detection the counter decays by one, and the level
/// drops back to `NoThreat` when it reaches zero.
///
/// `D` is the type of the alert distance, which callers compare percepts
/// against before reporting an observation.
pub struct ThreatDetectionBehavior<D> {
    alert_distance: D,
    sustained_ticks: usize,
    state: ThreatState,
}

/// The mutable part of a detector: its counter and level.
#[derive(Clone, Copy)]
struct ThreatState {
    tick_counter: usize,
    current_level: ThreatLevel,
}

impl<D> ThreatDetectionBehavior<D> {
    /// The counter of consecutive-ish detections.
    pub closed spec fn counter(&self) -> nat {
        self.state.tick_counter as nat
    }

    /// The current threat level.
    pub closed spec fn level(&self) -> ThreatLevel {
        self.state.current_level
    }

    /// The number of detections that confirm a threat.
    pub closed spec fn sustained(&self) -> nat {
        self.sustained_ticks as nat
    }

    /// The alert distance.
    pub closed spec fn distance(&self) -> D {
        self.alert_distance
    }

    /// The level is `NoThreat` exactly when the counter is zero.
    #[verifier::type_invariant]
    closed spec fn counter_matches_level(&self) -> bool {
        (self.state.tick_counter == 0) <==> (self.state.current_level == ThreatLevel::NoThreat)
    }

    /// A detector with the given alert distance and confirmation count, at rest.
    pub fn new(alert_distance: D, sustained_ticks: usize) -> (r: Self)
        ensures
            r.distance() == alert_distance,
            r.sustained() == sustained_ticks,
            r.counter() == 0,
            r.level() == ThreatLevel::NoThreat,
    {
        ThreatDetectionBehavior {
            alert_distance,
            sustained_ticks,
            state: ThreatState { tick_counter: 0, current_level: ThreatLevel::NoThreat },
        }
    }

    /// The behavior's name.
    pub fn name(&self) -> (s: &'static str)
        ensures
            s@ == "ThreatDetection"@,
    {
        "ThreatDetection"
    }

    /// The behavior's priority: `High`.
    pub fn priority(&self) -> (p: Priority)
        ensures
            p == Priority::High,
    {
        Priority::High
    }

    /// The alert distance.
    pub fn alert_distance(&self) -> (d: &D)
        ensures
            *d == self.distance(),
    {
        &self.alert_distance
    }

    /// The number of detections that confirm a threat.
    pub fn sustained_ticks(&self) -> (n: usize)
        ensures
            n == self.sustained(),
    {
        self.sustained_ticks
    }

    /// The current threat level.
    pub fn threat_level(&self) -> (l: ThreatLevel)
        ensures
            l == self.level(),
            (l == ThreatLevel::NoThreat) <==> (self.counter() == 0),
    {
        proof {
            use_type_invariant(self);
        }
        self.state.current_level
    }

    /// The current tick counter.
    pub fn tick_counter(&self) -> (n: usize)
        ensures
            n == self.counter(),
    {
        self.state.tick_counter
    }

    /// Reset the detector to its initial state.
    pub fn reset(&mut self)
        ensures
            final(self).counter() == 0,
            final(self).level() == ThreatLevel::NoThreat,
            final(self).sustained() == old(self).sustained(),
            final(self).distance() == old(self).distance(),
    {
        self.state = ThreatState { tick_counter: 0, current_level: ThreatLevel::NoThreat };
    }

    /// Record one observation: whether an unknown person was detected within
    /// the alert distance. Returns the alert to speak, if any.
    ///
    /// A detection raises the counter; at `sustained_ticks` or more the level
    /// is `Confirmed`, below it `Suspicious`. Without a detection the counter
    /// decays by one and nothing is said.
    pub fn observe(&mut self, person_detected: bool) -> (alert: Option<String>)
        requires
            person_detected ==> old(self).counter() < usize::MAX,
        ensures
            final(self).counter() == next_counter(old(self).counter(), person_detected),
            final(self).level() == next_level(
                old(self).counter(),
                old(self).level(),
                old(self).sustained(),
                person_detected,
            ),
            final(self).sustained() == old(self).sustained(),
            final(self).distance() == old(self).distance(),
            person_detected ==> alert is Some,
            !person_detected ==> alert is None,
            alert matches Some(text) ==> (final(self).level() == ThreatLevel::Confirmed
                ==> text@ == confirmed_alert()),
            alert matches Some(text) ==> (final(self).level() == ThreatLevel::Suspicious
                ==> text@ == suspicious_alert()),
    {
        proof {
            use_type_invariant(&*self);
        }
        if person_detected {
            let counter = self.state.tick_counter + 1;
            if counter >= self.sustained_ticks {
                self.state = ThreatState { tick_counter: counter, current_level: ThreatLevel::Confirmed };
                Some("ALERT: Unknown person detected \u{2014} threat confirmed!".to_owned())
            } else {
                self.state = ThreatState { tick_counter: counter, current_level: ThreatLevel::Suspicious };
                Some("Caution: Unknown person detected nearby.".to_owned())
            }
        } else {
            let mut counter = self.state.tick_counter;
            if counter > 0 {
                counter = counter - 1;
            }
            let level = if counter == 0 {
                ThreatLevel::NoThreat
            } else {
                self.state.current_level
            };
            self.state = ThreatState { tick_counter: counter, current_level: level };
            None
        }
    }
}

/// One observation: a detection adds one to the counter and makes the
/// threat confirmed once the counter reaches the confirmation count,
/// suspicious below it; a quiet observation takes one off the counter (not
/// below zero), clears the threat when the counter reaches zero, and
/// otherwise leaves the level as it was, so a confirmed threat stays
/// confirmed until the counter has decayed to zero.
pub proof fn lemma_observation_step(counter: nat, level: ThreatLevel, sustained: nat, detected: bool)
    ensures
        detected ==> next_counter(counter, detected) == counter + 1,
        detected ==> (next_level(counter, level, sustained, detected) == ThreatLevel::Confirmed
            <==> counter + 1 >= sustained),
        detected ==> (next_level(counter, level, sustained, detected) == ThreatLevel::Suspicious
            <==> counter + 1 < sustained),
        !detected && counter > 0 ==> next_counter(counter, detected) == counter - 1,
        !detected && counter == 0 ==> next_counter(counter, detected) == 0,
        !detected && counter > 1 ==> next_level(counter, level, sustained, detected) == level,
        !detected && counter <= 1 ==> next_level(counter, level, sustained, detected)
            == ThreatLevel::NoThreat,
{
}

/// Quiet observations fewer than the counter leave the level unchanged and
/// take one off the counter each.
pub proof fn lemma_quiet_keeps_level(counter: nat, level: ThreatLevel, sustained: nat, k: nat)
    requires
        k < counter,
    ensures
        run_observations(counter, level, sustained, Seq::new(k, |i: int| false)) == (
            (counter - k) as nat,
            level,
        ),
    decreases k,
{
    let obs = Seq::new(k, |i: int| false);
    if k == 0 {
        assert(obs =~= Seq::<bool>::empty());
    } else {
        lemma_observation_step(counter, level, sustained, false);
        assert(obs[0] == false);
        assert(obs.drop_first() =~= Seq::new((k - 1) as nat, |i: int| false));
        lemma_quiet_keeps_level((counter - 1) as nat, level, sustained, (k - 1) as nat);
    }
}

/// After any run of observations the level is `NoThreat` exactly when the
/// counter is zero, provided that held at the start.
pub proof fn lemma_level_tracks_counter(
    counter: nat,
    level: ThreatLevel,
    sustained: nat,
    observations: Seq<bool>,
)
    requires
        (counter == 0) <==> (level == ThreatLevel::NoThreat),
    ensures
        ({
            let (c, l) = run_observations(counter, level, sustained, observations);
            (c == 0) <==> (l == ThreatLevel::NoThreat)
        }),
    decreases observations.len(),
{
    if observations.len() > 0 {
        let d = observations[0];
        lemma_level_tracks_counter(
            next_counter(counter, d),
            next_level(counter, level, sustained, d),
            sustained,
            observations.drop_first(),
        );
    }
}

/// From rest, `n` consecutive detections leave the counter at `n`; the
/// threat is confirmed exactly when `n` reaches the confirmation count, and
/// is suspicious before that.
pub proof fn lemma_sustained_detection_confirms(sustained: nat, n: nat)
    requires
        n >= 1,
    ensures
        run_observations(0, ThreatLevel::NoThreat, sustained, Seq::new(n, |i: int| true)) == (
            n,
            if n >= sustained {
                ThreatLevel::Confirmed
            } else {
                ThreatLevel::Suspicious
            },
        ),
{
    lemma_detections_from(0, ThreatLevel::NoThreat, sustained, n);
}

/// `n` detections from any state add `n` to the counter and set the level
/// by the new counter.
proof fn lemma_detections_from(counter: nat, level: ThreatLevel, sustained: nat, n: nat)
    requires
        n >= 1,
    ensures
        run_observations(counter, level, sustained, Seq::new(n, |i: int| true)) == (
            counter + n,
            if counter + n >= sustained {
                ThreatLevel::Confirmed
            } else {
                ThreatLevel::Suspicious
            },
        ),
    decreases n,
{
    let obs = Seq::new(n, |i: int| true);
    let c1 = next_counter(counter, true);
    let l1 = next_level(counter, level, sustained, true);
    assert(obs.drop_first() =~= Seq::new((n - 1) as nat, |i: int| true));
    assert(obs[0]);
    assert(run_observations(counter, level, sustained, obs) == run_observations(
        c1,
        l1,
        sustained,
        obs.drop_first(),
    ));
    if n > 1 {
        lemma_detections_from(c1, l1, sustained, (n - 1) as nat);
    } else {
        assert(obs.drop_first() =~= Seq::<bool>::empty());
        assert(run_observations(c1, l1, sustained, Seq::<bool>::empty()) == (c1, l1));
    }
}

/// Once detections stop, the counter decays one step per observation, and
/// after as many quiet observations as the counter held, the level is back
/// to `NoThreat`.
pub proof fn lemma_quiet_observations_clear(counter: nat, level: ThreatLevel, sustained: nat)
    ensures
        run_observations(counter, level, sustained, Seq::new(counter, |i: int| false)).0 == 0,
        counter > 0 ==> run_observations(
            counter,
            level,
            sustained,
            Seq::new(counter, |i: int| false),
        ).1 == ThreatLevel::NoThreat,
    decreases counter,
{
    let obs = Seq::new(counter, |i: int| false);
    if counter > 0 {
        let c1 = next_counter(counter, false);
        let l1 = next_level(counter, level, sustained, false);
        assert(obs.drop_first() =~= Seq::new((counter - 1) as nat, |i: int| false));
        lemma_quiet_observations_clear(c1, l1, sustained);
        if c1 == 0 {
            assert(obs.drop_first() =~= Seq::<bool>::empty());
        }
    } else {
        assert(obs =~= Seq::<bool>::empty());
    }
}

} // verus!
