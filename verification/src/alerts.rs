//! The guardian's log of security alerts.
use vstd::prelude::*;
use std::time::SystemTime;

use crate::types::{wall_clock_now, ThreatLevel};

verus! {

/// A security alert raised by the guardian system; `L` is the type of the
/// location it was raised at.
#[derive(Debug)]
pub struct Alert<L> {
    pub timestamp: SystemTime,
    pub level: ThreatLevel,
    pub message: String,
    pub location: Option<L>,
}

/// A log of security alerts, oldest first.
pub struct AlertManager<L> {
    alerts: Vec<Alert<L>>,
}

impl<L> AlertManager<L> {
    /// The alerts raised, oldest first.
    pub closed spec fn log(&self) -> Seq<Alert<L>> {
        self.alerts@
    }

    /// An empty log.
    pub fn new() -> (m: Self)
        ensures
            m.log().len() == 0,
    {
        AlertManager { alerts: Vec::new() }
    }

    /// Raise a new alert, stamped with the current time, at the end of the log.
    pub fn raise(&mut self, level: ThreatLevel, message: &str, location: Option<L>)
        ensures
            final(self).log().len() == old(self).log().len() + 1,
            final(self).log().take(old(self).log().len() as int) == old(self).log(),
            final(self).log().last().level == level,
            final(self).log().last().message@ == message@,
            final(self).log().last().location == location,
    {
        let alert = Alert {
            timestamp: wall_clock_now(),
            level,
            message: message.to_owned(),
            location,
        };
        self.alerts.push(alert);
        assert(self.alerts@.take(old(self).log().len() as int) =~= old(self).log());
    }

    /// The most recent `count` alerts (all of them when there are fewer),
    /// oldest first.
    pub fn recent(&self, count: usize) -> (r: &[Alert<L>])
        ensures
            r@ == self.log().skip(self.log().len() - (if count <= self.log().len() {
                count as int
            } else {
                self.log().len() as int
            })),
    {
        let start = self.alerts.len().saturating_sub(count);
        let (_, tail) = self.alerts.as_slice().split_at(start);
        assert(tail@ =~= self.log().skip(start as int));
        tail
    }

    /// The number of alerts.
    pub fn count(&self) -> (n: usize)
        ensures
            n == self.log().len(),
    {
        self.alerts.len()
    }

    /// All the alerts, oldest first.
    pub fn all(&self) -> (r: &[Alert<L>])
        ensures
            r@ == self.log(),
    {
        self.alerts.as_slice()
    }

    /// Remove every alert.
    pub fn clear(&mut self)
        ensures
            final(self).log().len() == 0,
    {
        self.alerts.clear();
    }
}

impl<L> Default for AlertManager<L> {
    fn default() -> (m: Self)
        ensures
            m.log().len() == 0,
    {
        Self::new()
    }
}

} // verus!
