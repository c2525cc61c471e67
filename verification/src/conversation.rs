//! Conversation history kept for a language model backend.
use vstd::prelude::*;

use crate::text::{join_lines, push_str};

verus! {

/// A single turn in a conversation.
#[derive(Debug, Clone)]
pub struct ConversationTurn {
    pub role: String,
    pub content: String,
}

/// A turn as plain values: its role and its content.
pub open spec fn turn_view(t: ConversationTurn) -> (Seq<char>, Seq<char>) {
    (t.role@, t.content@)
}

/// The turns as plain values.
pub open spec fn turn_views(h: Seq<ConversationTurn>) -> Seq<(Seq<char>, Seq<char>)> {
    h.map_values(|t: ConversationTurn| turn_view(t))
}

/// The last `max` turns of a history (all of them when there are fewer).
pub open spec fn keep_recent<T>(h: Seq<T>, max: nat) -> Seq<T> {
    if h.len() > max {
        h.skip(h.len() - max)
    } else {
        h
    }
}

/// Keeping the recent turns after appending one keeps at most `max` turns,
/// the latest of them last when `max` is positive, the earlier ones the
/// latest of before.
pub proof fn lemma_keep_recent_push<T>(h: Seq<T>, x: T, max: nat)
    requires
        h.len() <= max,
    ensures
        keep_recent(h.push(x), max).len() == if max == 0 {
            0
        } else {
            h.len() + 1 - (if h.len() == max {
                1int
            } else {
                0int
            })
        },
        max > 0 ==> keep_recent(h.push(x), max).last() == x,
        max > 0 ==> keep_recent(h.push(x), max).drop_last() == keep_recent(h, (max - 1) as nat),
{
    let p = h.push(x);
    if p.len() > max {
        if max > 0 {
            assert(p.skip(p.len() - max).drop_last() =~= h.skip(h.len() - (max - 1)));
        }
    } else {
        assert(p.drop_last() =~= h);
    }
}

/// The prompt line of a turn: `role: content`.
pub open spec fn turn_line(t: (Seq<char>, Seq<char>)) -> Seq<char> {
    t.0 + ": "@ + t.1
}

/// The prompt for a history: the system prompt as a `system: ...` line when
/// there is one, then one `role: content` line per turn, joined by `\n`.
pub open spec fn prompt_of(system: Option<Seq<char>>, h: Seq<(Seq<char>, Seq<char>)>) -> Seq<
    char,
> {
    let head: Seq<Seq<char>> = match system {
        Some(p) => seq!["system: "@ + p],
        None => seq![],
    };
    join_lines(head + h.map_values(|t: (Seq<char>, Seq<char>)| turn_line(t)))
}

/// Manages conversation history for a language model backend `B`. The
/// history holds at most `max_history` turns: the most recent ones.
pub struct ConversationManager<B> {
    history: Vec<ConversationTurn>,
    backend: B,
    max_history: usize,
    system_prompt: Option<String>,
}

impl<B> ConversationManager<B> {
    /// The turns, oldest first.
    pub closed spec fn turns(&self) -> Seq<(Seq<char>, Seq<char>)> {
        turn_views(self.history@)
    }

    /// The most turns kept.
    pub closed spec fn limit(&self) -> nat {
        self.max_history as nat
    }

    /// The system prompt, if any.
    pub closed spec fn system(&self) -> Option<Seq<char>> {
        match self.system_prompt {
            Some(p) => Some(p@),
            None => None,
        }
    }

    /// The backend.
    pub closed spec fn model(&self) -> B {
        self.backend
    }

    #[verifier::type_invariant]
    closed spec fn bounded(&self) -> bool {
        self.history@.len() <= self.max_history
    }

    /// A conversation with no history and no system prompt.
    pub fn new(backend: B, max_history: usize) -> (m: Self)
        ensures
            m.turns() == Seq::<(Seq<char>, Seq<char>)>::empty(),
            m.limit() == max_history,
            m.system() is None,
            m.model() == backend,
    {
        ConversationManager { history: Vec::new(), backend, max_history, system_prompt: None }
    }

    /// A conversation with no history and the given system prompt.
    pub fn with_system_prompt(backend: B, max_history: usize, system_prompt: String) -> (m: Self)
        ensures
            m.turns() == Seq::<(Seq<char>, Seq<char>)>::empty(),
            m.limit() == max_history,
            m.system() == Some(system_prompt@),
            m.model() == backend,
    {
        ConversationManager {
            history: Vec::new(),
            backend,
            max_history,
            system_prompt: Some(system_prompt),
        }
    }

    /// The turns, oldest first; never more than the limit.
    pub fn history(&self) -> (h: &[ConversationTurn])
        ensures
            turn_views(h@) == self.turns(),
            h@.len() <= self.limit(),
    {
        proof {
            use_type_invariant(self);
        }
        self.history.as_slice()
    }

    /// The system prompt, if any.
    pub fn system_prompt(&self) -> (p: Option<&str>)
        ensures
            match p {
                Some(s) => self.system() == Some(s@),
                None => self.system() is None,
            },
    {
        match &self.system_prompt {
            Some(s) => Some(s.as_str()),
            None => None,
        }
    }

    /// The backend.
    pub fn backend(&self) -> (b: &B)
        ensures
            *b == self.model(),
    {
        &self.backend
    }

    /// Append a turn, dropping the oldest turns beyond the limit.
    pub fn add_turn(&mut self, role: &str, content: &str)
        ensures
            final(self).turns() == keep_recent(
                old(self).turns().push((role@, content@)),
                old(self).limit(),
            ),
            final(self).limit() == old(self).limit(),
            final(self).system() == old(self).system(),
            final(self).model() == old(self).model(),
    {
        proof {
            use_type_invariant(&*self);
        }
        let mut h: Vec<ConversationTurn> = Vec::new();
        std::mem::swap(&mut h, &mut self.history);
        let ghost before = turn_views(h@);
        let turn = ConversationTurn { role: role.to_owned(), content: content.to_owned() };
        h.push(turn);
        let ghost pushed = turn_views(h@);
        proof {
            assert(pushed =~= before.push((role@, content@)));
        }
        let mut dropped: usize = 0;
        while h.len() > self.max_history
            invariant
                pushed.len() == before.len() + 1,
                before.len() <= self.max_history,
                h@.len() + dropped == pushed.len(),
                turn_views(h@) == pushed.skip(dropped as int),
                dropped > 0 ==> h@.len() >= self.max_history,
            decreases h.len(),
        {
            let ghost prev = h@;
            h.remove(0);
            proof {
                assert(turn_views(h@) =~= turn_views(prev).drop_first());
                assert(pushed.skip(dropped as int).drop_first() =~= pushed.skip(dropped + 1));
            }
            dropped = dropped + 1;
        }
        proof {
            if pushed.len() <= self.max_history {
                assert(dropped == 0);
                assert(pushed.skip(0) =~= pushed);
            }
        }
        self.history = h;
    }

    /// The prompt for the current history and system prompt.
    pub fn prompt(&self) -> (p: String)
        ensures
            p@ == prompt_of(self.system(), self.turns()),
    {
        let ghost head: Seq<Seq<char>> = match self.system() {
            Some(sp) => seq!["system: "@ + sp],
            None => seq![],
        };
        let ghost parts = head + self.turns().map_values(
            |t: (Seq<char>, Seq<char>)| turn_line(t),
        );
        let mut out = String::new();
        let mut count: usize = 0;
        match &self.system_prompt {
            Some(sp) => {
                push_str(&mut out, "system: ");
                push_str(&mut out, sp.as_str());
                count = 1;
                proof {
                    assert(parts.take(1) =~= seq![parts[0]]);
                }
            },
            None => {},
        }
        assert(count == head.len());
        assert(out@ == join_lines(parts.take(count as int)));
        proof {
            use_type_invariant(self);
        }
        let mut i: usize = 0;
        while i < self.history.len()
            invariant
                i <= self.history@.len(),
                count == head.len(),
                parts == head + self.turns().map_values(
                    |t: (Seq<char>, Seq<char>)| turn_line(t),
                ),
                self.turns() == turn_views(self.history@),
                out@ == join_lines(parts.take(count + i)),
            decreases self.history.len() - i,
        {
            let t = &self.history[i];
            let ghost before = out@;
            if count > 0 || i > 0 {
                push_str(&mut out, "\n");
            }
            push_str(&mut out, t.role.as_str());
            push_str(&mut out, ": ");
            push_str(&mut out, t.content.as_str());
            proof {
                let pre = parts.take(count + i + 1);
                assert(pre.drop_last() =~= parts.take(count + i));
                assert(pre.last() == turn_line(turn_view(self.history@[i as int])));
                if count + i == 0 {
                    assert(pre =~= seq![pre.last()]);
                }
            }
            i = i + 1;
        }
        proof {
            assert(parts.take(count + self.history@.len()) =~= parts);
        }
        out
    }

    /// Record the user's message and return the prompt to send to the backend.
    pub fn begin_chat(&mut self, user_message: &str) -> (prompt: String)
        ensures
            final(self).turns() == keep_recent(
                old(self).turns().push(("user"@, user_message@)),
                old(self).limit(),
            ),
            final(self).limit() == old(self).limit(),
            final(self).system() == old(self).system(),
            final(self).model() == old(self).model(),
            prompt@ == prompt_of(final(self).system(), final(self).turns()),
    {
        self.add_turn("user", user_message);
        self.prompt()
    }

    /// Record the backend's response as the assistant's turn.
    pub fn finish_chat(&mut self, response: &str)
        ensures
            final(self).turns() == keep_recent(
                old(self).turns().push(("assistant"@, response@)),
                old(self).limit(),
            ),
            final(self).limit() == old(self).limit(),
            final(self).system() == old(self).system(),
            final(self).model() == old(self).model(),
    {
        self.add_turn("assistant", response);
    }
}

} // verus!
