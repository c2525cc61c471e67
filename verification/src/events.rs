//! Event-driven behavior: reactions registered against percept triggers.
use vstd::prelude::*;

use crate::text::{concat_str, str_eq};
use crate::types::Priority;

verus! {

/// Events that can trigger reactive behaviors.
#[derive(Debug, Clone, PartialEq, Eq)]
pub enum EventTrigger {
    PersonDetected,
    UnknownFaceDetected,
    LoudNoise,
    TimerElapsed { name: String },
    Custom(String),
}

/// What the event triggers read of a percept: a person (and the name, when
/// the person is known), an audio event and its kind, or anything else.
#[derive(Debug, Clone, PartialEq, Eq)]
pub enum PerceptCue {
    Person { name: Option<String> },
    AudioEvent { kind: String },
    Other,
}

/// Whether a trigger matches one percept.
pub open spec fn cue_matches(trigger: EventTrigger, cue: PerceptCue) -> bool {
    match trigger {
        EventTrigger::PersonDetected => cue is Person,
        EventTrigger::UnknownFaceDetected => cue matches PerceptCue::Person { name: None },
        EventTrigger::LoudNoise => cue matches PerceptCue::AudioEvent { kind } && kind@
            == "loud_noise"@,
        EventTrigger::TimerElapsed { name } => cue matches PerceptCue::AudioEvent { kind }
            && kind@ == "timer:"@ + name@,
        EventTrigger::Custom(event_name) => cue matches PerceptCue::AudioEvent { kind } && kind@
            == event_name@,
    }
}

/// Whether a trigger matches any of the percepts.
pub open spec fn trigger_matches_any(trigger: EventTrigger, cues: Seq<PerceptCue>) -> bool {
    exists|i: int| 0 <= i < cues.len() && cue_matches(trigger, #[trigger] cues[i])
}

/// Which percepts each trigger matches: a detected person is any person,
/// known or not; an unknown face is a person without a name; the other
/// triggers match only audio events, never a person, and nothing matches a
/// percept of another sort.
pub proof fn lemma_trigger_targets(trigger: EventTrigger, cue: PerceptCue)
    ensures
        (cue is Person) ==> cue_matches(EventTrigger::PersonDetected, cue),
        !(cue is Person) ==> !cue_matches(EventTrigger::PersonDetected, cue),
        cue_matches(EventTrigger::UnknownFaceDetected, cue) <==> (cue == (PerceptCue::Person {
            name: None,
        })),
        cue_matches(EventTrigger::UnknownFaceDetected, cue) ==> cue_matches(
            EventTrigger::PersonDetected,
            cue,
        ),
        (cue is Person) ==> (cue_matches(trigger, cue) <==> ((trigger is PersonDetected) || ((
        trigger is UnknownFaceDetected) && cue == (PerceptCue::Person { name: None })))),
        (cue is Other) ==> !cue_matches(trigger, cue),
        (cue is AudioEvent) ==> (cue_matches(trigger, cue) ==> !(trigger is PersonDetected)
            && !(trigger is UnknownFaceDetected)),
        cue_matches(EventTrigger::LoudNoise, cue) <==> (cue matches PerceptCue::AudioEvent { kind }
            && kind@ == "loud_noise"@),
        forall|name: String|
            #[trigger] cue_matches(EventTrigger::TimerElapsed { name }, cue) <==> (
            cue matches PerceptCue::AudioEvent { kind } && kind@ == "timer:"@ + name@),
        forall|event: String|
            #[trigger] cue_matches(EventTrigger::Custom(event), cue) <==> (
            cue matches PerceptCue::AudioEvent { kind } && kind@ == event@),
{
}

/// Any person among the percepts sets off `PersonDetected`.
pub proof fn lemma_any_person_detected(cues: Seq<PerceptCue>, i: int)
    requires
        0 <= i < cues.len(),
        cues[i] is Person,
    ensures
        trigger_matches_any(EventTrigger::PersonDetected, cues),
{
    lemma_trigger_targets(EventTrigger::PersonDetected, cues[i]);
}

/// Whether a trigger matches one percept.
pub fn cue_matches_exec(trigger: &EventTrigger, cue: &PerceptCue) -> (b: bool)
    ensures
        b == cue_matches(*trigger, *cue),
{
    match trigger {
        EventTrigger::PersonDetected => match cue {
            PerceptCue::Person { .. } => true,
            _ => false,
        },
        EventTrigger::UnknownFaceDetected => match cue {
            PerceptCue::Person { name } => name.is_none(),
            _ => false,
        },
        EventTrigger::LoudNoise => match cue {
            PerceptCue::AudioEvent { kind } => str_eq(kind.as_str(), "loud_noise"),
            _ => false,
        },
        EventTrigger::TimerElapsed { name } => match cue {
            PerceptCue::AudioEvent { kind } => {
                let expected = concat_str("timer:", name.as_str());
                str_eq(kind.as_str(), expected.as_str())
            },
            _ => false,
        },
        EventTrigger::Custom(event_name) => match cue {
            PerceptCue::AudioEvent { kind } => str_eq(kind.as_str(), event_name.as_str()),
            _ => false,
        },
    }
}

/// Associates a trigger with an action and priority. `A` is the action type.
pub struct EventReaction<A> {
    pub trigger: EventTrigger,
    pub action: A,
    pub priority: Priority,
}

/// Whether reaction `i` is the one chosen: it matches, no matching reaction
/// ranks higher, and every earlier matching reaction ranks lower.
pub open spec fn is_chosen_reaction<A>(
    reactions: Seq<EventReaction<A>>,
    cues: Seq<PerceptCue>,
    i: int,
) -> bool {
    &&& 0 <= i < reactions.len()
    &&& trigger_matches_any(reactions[i].trigger, cues)
    &&& forall|j: int|
        0 <= j < reactions.len() && trigger_matches_any(#[trigger] reactions[j].trigger, cues)
            ==> reactions[j].priority.spec_rank() <= reactions[i].priority.spec_rank()
    &&& forall|j: int|
        0 <= j < i && trigger_matches_any(#[trigger] reactions[j].trigger, cues)
            ==> reactions[j].priority.spec_rank() < reactions[i].priority.spec_rank()
}

/// Event-driven behavior that checks percepts against registered triggers.
pub struct EventDrivenBehavior<A> {
    reactions: Vec<EventReaction<A>>,
}

/// Whether a trigger matches any of the percepts.
pub fn trigger_matches(trigger: &EventTrigger, cues: &Vec<PerceptCue>) -> (b: bool)
    ensures
        b == trigger_matches_any(*trigger, cues@),
{
    let mut i: usize = 0;
    while i < cues.len()
        invariant
            i <= cues.len(),
            forall|j: int| 0 <= j < i ==> !cue_matches(*trigger, #[trigger] cues@[j]),
        decreases cues.len() - i,
    {
        if cue_matches_exec(trigger, &cues[i]) {
            return true;
        }
        i = i + 1;
    }
    false
}

impl<A> EventDrivenBehavior<A> {
    /// The registered reactions, in registration order.
    pub closed spec fn reaction_list(&self) -> Seq<EventReaction<A>> {
        self.reactions@
    }

    /// A behavior with no reactions.
    pub fn new() -> (r: Self)
        ensures
            r.reaction_list() == Seq::<EventReaction<A>>::empty(),
    {
        EventDrivenBehavior { reactions: Vec::new() }
    }

    /// Register a new event reaction.
    pub fn add_reaction(&mut self, reaction: EventReaction<A>)
        ensures
            final(self).reaction_list() == old(self).reaction_list().push(reaction),
    {
        self.reactions.push(reaction);
    }

    /// The number of registered reactions.
    pub fn reaction_count(&self) -> (n: usize)
        ensures
            n == self.reaction_list().len(),
    {
        self.reactions.len()
    }

    /// The reaction registered at position `i`.
    pub fn reaction(&self, i: usize) -> (r: &EventReaction<A>)
        requires
            i < self.reaction_list().len(),
        ensures
            *r == self.reaction_list()[i as int],
    {
        &self.reactions[i]
    }

    pub fn name(&self) -> (s: &'static str)
        ensures
            s@ == "EventDriven"@,
    {
        "EventDriven"
    }

    /// The highest priority among the registered reactions, or `Low` if
    /// there are none.
    pub fn priority(&self) -> (p: Priority)
        ensures
            forall|j: int|
                0 <= j < self.reaction_list().len()
                    ==> #[trigger] self.reaction_list()[j].priority.spec_rank() <= p.spec_rank(),
            p == Priority::Low || exists|j: int|
                0 <= j < self.reaction_list().len() && #[trigger] self.reaction_list()[j].priority
                    == p,
    {
        let mut best = Priority::Low;
        let mut i: usize = 0;
        while i < self.reactions.len()
            invariant
                i <= self.reactions@.len(),
                forall|j: int|
                    0 <= j < i ==> #[trigger] self.reactions@[j].priority.spec_rank()
                        <= best.spec_rank(),
                best == Priority::Low || exists|j: int|
                    0 <= j < i && #[trigger] self.reactions@[j].priority == best,
            decreases self.reactions@.len() - i,
        {
            if self.reactions[i].priority.rank() > best.rank() {
                best = self.reactions[i].priority;
            }
            i = i + 1;
        }
        best
    }

    /// The reaction to fire for the given percepts: among the reactions whose
    /// trigger matches, the first of the highest priority. `None` when no
    /// trigger matches.
    pub fn evaluate(&self, cues: &Vec<PerceptCue>) -> (r: Option<usize>)
        ensures
            match r {
                Some(i) => is_chosen_reaction(self.reaction_list(), cues@, i as int),
                None => forall|j: int|
                    0 <= j < self.reaction_list().len() ==> !trigger_matches_any(
                        #[trigger] self.reaction_list()[j].trigger,
                        cues@,
                    ),
            },
    {
        let mut best: Option<usize> = None;
        let mut i: usize = 0;
        while i < self.reactions.len()
            invariant
                i <= self.reactions@.len(),
                match best {
                    Some(b) => {
                        &&& b < i
                        &&& trigger_matches_any(self.reactions@[b as int].trigger, cues@)
                        &&& forall|j: int|
                            0 <= j < i && trigger_matches_any(
                                #[trigger] self.reactions@[j].trigger,
                                cues@,
                            ) ==> self.reactions@[j].priority.spec_rank()
                                <= self.reactions@[b as int].priority.spec_rank()
                        &&& forall|j: int|
                            0 <= j < b && trigger_matches_any(
                                #[trigger] self.reactions@[j].trigger,
                                cues@,
                            ) ==> self.reactions@[j].priority.spec_rank()
                                < self.reactions@[b as int].priority.spec_rank()
                    },
                    None => forall|j: int|
                        0 <= j < i ==> !trigger_matches_any(
                            #[trigger] self.reactions@[j].trigger,
                            cues@,
                        ),
                },
            decreases self.reactions@.len() - i,
        {
            if trigger_matches(&self.reactions[i].trigger, cues) {
                match best {
                    Some(b) => {
                        if self.reactions[i].priority.rank() > self.reactions[b].priority.rank() {
                            best = Some(i);
                        }
                    },
                    None => {
                        best = Some(i);
                    },
                }
            }
            i = i + 1;
        }
        best
    }
}

impl<A> Default for EventDrivenBehavior<A> {
    fn default() -> (r: Self)
        ensures
            r.reaction_list() == Seq::<EventReaction<A>>::empty(),
    {
        Self::new()
    }
}

} // verus!
