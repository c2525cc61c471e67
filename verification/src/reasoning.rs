//! Chain-of-thought reasoning: the step format and the ReAct-style loop.
use vstd::prelude::*;

use crate::text::{
    chars_of, concat_str, lines, lines_of, push_str, string_from, strip_prefix_chars, trim,
    trim_chars, views, has_prefix,
};

verus! {

/// The type of a reasoning step in a chain-of-thought sequence.
#[derive(Debug, Clone, Copy, PartialEq, Eq, Structural)]
pub enum StepType {
    Thought,
    Action,
    Observation,
    Answer,
}

/// A single step in a reasoning chain.
#[derive(Debug, Clone)]
pub struct ReasoningStep {
    pub step_type: StepType,
    pub content: String,
}

/// A complete chain of reasoning steps with an optional final answer.
pub struct ReasoningChain {
    pub steps: Vec<ReasoningStep>,
    pub final_answer: Option<String>,
}

/// The label of a step type.
pub open spec fn label_of(st: StepType) -> Seq<char> {
    match st {
        StepType::Thought => "Thought"@,
        StepType::Action => "Action"@,
        StepType::Observation => "Observation"@,
        StepType::Answer => "Answer"@,
    }
}

/// The label of a step type.
pub fn step_type_label(st: &StepType) -> (s: &'static str)
    ensures
        s@ == label_of(*st),
{
    match st {
        StepType::Thought => "Thought",
        StepType::Action => "Action",
        StepType::Observation => "Observation",
        StepType::Answer => "Answer",
    }
}

/// A step as plain values: its type and its content.
pub open spec fn step_view(s: ReasoningStep) -> (StepType, Seq<char>) {
    (s.step_type, s.content@)
}

/// The steps as plain values.
pub open spec fn step_views(s: Seq<ReasoningStep>) -> Seq<(StepType, Seq<char>)> {
    s.map_values(|x: ReasoningStep| step_view(x))
}

/// The step a line states, if any: after trimming, a line that starts with
/// `Thought:`, `Action:`, `Observation:` or `Answer:`, with the rest trimmed.
pub open spec fn line_step(line: Seq<char>) -> Option<(StepType, Seq<char>)> {
    let t = trim(line);
    if has_prefix(t, "Thought:"@) {
        Some((StepType::Thought, trim(t.skip("Thought:"@.len() as int))))
    } else if has_prefix(t, "Action:"@) {
        Some((StepType::Action, trim(t.skip("Action:"@.len() as int))))
    } else if has_prefix(t, "Observation:"@) {
        Some((StepType::Observation, trim(t.skip("Observation:"@.len() as int))))
    } else if has_prefix(t, "Answer:"@) {
        Some((StepType::Answer, trim(t.skip("Answer:"@.len() as int))))
    } else {
        None
    }
}

/// The steps stated by the lines, in order.
pub open spec fn steps_of_lines(ls: Seq<Seq<char>>) -> Seq<(StepType, Seq<char>)>
    decreases ls.len(),
{
    if ls.len() == 0 {
        seq![]
    } else {
        let r = steps_of_lines(ls.drop_last());
        match line_step(ls.last()) {
            Some(x) => r.push(x),
            None => r,
        }
    }
}

/// The reasoning steps a text states.
pub open spec fn reasoning_steps(text: Seq<char>) -> Seq<(StepType, Seq<char>)> {
    steps_of_lines(lines(text))
}

/// The step a line states, if any.
fn parse_line_step(line: &Vec<char>) -> (r: Option<ReasoningStep>)
    ensures
        match r {
            Some(s) => line_step(line@) == Some(step_view(s)),
            None => line_step(line@) is None,
        },
{
    let t = trim_chars(line);
    match strip_prefix_chars(&t, "Thought:") {
        Some(rest) => {
            let c = trim_chars(&rest);
            return Some(ReasoningStep { step_type: StepType::Thought, content: string_from(&c) });
        },
        None => {},
    }
    match strip_prefix_chars(&t, "Action:") {
        Some(rest) => {
            let c = trim_chars(&rest);
            return Some(ReasoningStep { step_type: StepType::Action, content: string_from(&c) });
        },
        None => {},
    }
    match strip_prefix_chars(&t, "Observation:") {
        Some(rest) => {
            let c = trim_chars(&rest);
            return Some(
                ReasoningStep { step_type: StepType::Observation, content: string_from(&c) },
            );
        },
        None => {},
    }
    match strip_prefix_chars(&t, "Answer:") {
        Some(rest) => {
            let c = trim_chars(&rest);
            return Some(ReasoningStep { step_type: StepType::Answer, content: string_from(&c) });
        },
        None => {},
    }
    None
}

/// Parse reasoning steps from a model's response: one step per line that
/// starts, after trimming, with `Thought:`, `Action:`, `Observation:` or
/// `Answer:`; other lines are skipped.
pub fn parse_reasoning_steps(text: &str) -> (steps: Vec<ReasoningStep>)
    ensures
        step_views(steps@) == reasoning_steps(text@),
{
    let v = chars_of(text);
    let ls = lines_of(&v);
    let ghost lv = views(ls@);
    let mut steps: Vec<ReasoningStep> = Vec::new();
    let mut i: usize = 0;
    while i < ls.len()
        invariant
            i <= ls.len(),
            lv == views(ls@),
            step_views(steps@) == steps_of_lines(lv.take(i as int)),
        decreases ls.len() - i,
    {
        let ghost before = steps@;
        let r = parse_line_step(&ls[i]);
        proof {
            assert(lv.take(i + 1).drop_last() =~= lv.take(i as int));
            assert(lv.take(i + 1).last() == ls@[i as int]@);
        }
        match r {
            Some(s) => {
                steps.push(s);
                proof {
                    assert(step_views(steps@) =~= step_views(before).push(step_view(s)));
                }
            },
            None => {},
        }
        i = i + 1;
    }
    proof {
        assert(lv.take(ls.len() as int) =~= lv);
    }
    steps
}

/// Whether any of the steps is an answer.
pub open spec fn has_answer(steps: Seq<(StepType, Seq<char>)>) -> bool {
    exists|i: int| 0 <= i < steps.len() && (#[trigger] steps[i]).0 == StepType::Answer
}

/// The content of the last answer among the steps, if any.
pub open spec fn last_answer(steps: Seq<(StepType, Seq<char>)>) -> Option<Seq<char>>
    decreases steps.len(),
{
    if steps.len() == 0 {
        None
    } else if steps.last().0 == StepType::Answer {
        Some(steps.last().1)
    } else {
        last_answer(steps.drop_last())
    }
}

/// The context lines that record the steps: `label: content` each.
pub open spec fn render_steps(steps: Seq<(StepType, Seq<char>)>) -> Seq<char>
    decreases steps.len(),
{
    if steps.len() == 0 {
        seq![]
    } else {
        render_steps(steps.drop_last()) + label_of(steps.last().0) + ": "@ + steps.last().1
            + "\n"@
    }
}

/// The opening prompt for a question.
pub open spec fn opening_context(question: Seq<char>) -> Seq<char> {
    "Answer the following question by thinking step by step.\nUse the format:\nThought: <your reasoning>\nAction: <action to take if needed>\nObservation: <result of action>\nAnswer: <final answer>\n\nQuestion: "@
        + question + "\n"@
}

/// Chain-of-thought reasoner using a ReAct-style loop. `B` is the model
/// backend, which the caller queries with the session's context.
pub struct ChainOfThoughtReasoner<B> {
    backend: B,
    max_steps: usize,
}

impl<B> ChainOfThoughtReasoner<B> {
    /// The backend.
    pub closed spec fn model(&self) -> B {
        self.backend
    }

    /// The most model queries a question gets.
    pub closed spec fn budget(&self) -> nat {
        self.max_steps as nat
    }

    /// A reasoner over the backend allowing `max_steps` model queries.
    pub fn new(backend: B, max_steps: usize) -> (r: Self)
        ensures
            r.model() == backend,
            r.budget() == max_steps,
    {
        ChainOfThoughtReasoner { backend, max_steps }
    }

    /// The backend.
    pub fn backend(&self) -> (b: &B)
        ensures
            *b == self.model(),
    {
        &self.backend
    }

    /// The most model queries a question gets.
    pub fn max_steps(&self) -> (n: usize)
        ensures
            n == self.budget(),
    {
        self.max_steps
    }

    /// Begin reasoning on a question.
    pub fn start(&self, question: &str) -> (s: ReasoningSession)
        ensures
            s.spec_context() == opening_context(question@),
            s.spec_steps() == Seq::<(StepType, Seq<char>)>::empty(),
            s.queries_left() == self.budget(),
    {
        let mut context = "Answer the following question by thinking step by step.\nUse the format:\nThought: <your reasoning>\nAction: <action to take if needed>\nObservation: <result of action>\nAnswer: <final answer>\n\nQuestion: ".to_owned();
        push_str(&mut context, question);
        push_str(&mut context, "\n");
        ReasoningSession { steps: Vec::new(), context, remaining: self.max_steps }
    }
}

/// One question being reasoned on: the steps so far, the context to send to
/// the model next, and the model queries left.
pub struct ReasoningSession {
    steps: Vec<ReasoningStep>,
    context: String,
    remaining: usize,
}

impl ReasoningSession {
    /// The steps so far.
    pub closed spec fn spec_steps(&self) -> Seq<(StepType, Seq<char>)> {
        step_views(self.steps@)
    }

    /// The context to send to the model next.
    pub closed spec fn spec_context(&self) -> Seq<char> {
        self.context@
    }

    /// The model queries left.
    pub closed spec fn queries_left(&self) -> nat {
        self.remaining as nat
    }

    /// The context to send to the model next.
    pub fn context(&self) -> (c: &str)
        ensures
            c@ == self.spec_context(),
    {
        self.context.as_str()
    }

    /// Whether the model may be queried again.
    pub fn has_budget(&self) -> (b: bool)
        ensures
            b == (self.queries_left() > 0),
    {
        self.remaining > 0
    }

    /// Take in the model's response to the current context.
    ///
    /// A response that states no step is taken as the answer, trimmed. A
    /// response with an answer step ends the reasoning with the last answer.
    /// Otherwise its steps are recorded, appended to the context as
    /// `label: content` lines, and one query is used up.
    pub fn absorb(&mut self, response: &str) -> (r: Option<ReasoningChain>)
        requires
            old(self).queries_left() > 0,
        ensures
            ({
                let ns = reasoning_steps(response@);
                let all = old(self).spec_steps() + ns;
                if ns.len() == 0 {
                    &&& r matches Some(chain)
                    &&& step_views(chain.steps@) == old(self).spec_steps().push(
                        (StepType::Answer, trim(response@)),
                    )
                    &&& chain.final_answer matches Some(a)
                    &&& a@ == trim(response@)
                } else if has_answer(ns) {
                    &&& r matches Some(chain)
                    &&& step_views(chain.steps@) == all
                    &&& chain.final_answer matches Some(a)
                    &&& last_answer(all) == Some(a@)
                } else {
                    &&& r is None
                    &&& final(self).spec_steps() == all
                    &&& final(self).spec_context() == old(self).spec_context() + render_steps(ns)
                    &&& final(self).queries_left() == old(self).queries_left() - 1
                }
            }),
    {
        let new_steps = parse_reasoning_steps(response);
        let ghost ns = step_views(new_steps@);
        if new_steps.len() == 0 {
            let rv = chars_of(response);
            let t = trim_chars(&rv);
            let ghost before = self.steps@;
            self.steps.push(ReasoningStep { step_type: StepType::Answer, content: string_from(&t) });
            let answer = string_from(&t);
            proof {
                assert(step_views(self.steps@) =~= step_views(before).push(
                    (StepType::Answer, trim(response@)),
                ));
            }
            let mut steps: Vec<ReasoningStep> = Vec::new();
            std::mem::swap(&mut steps, &mut self.steps);
            return Some(ReasoningChain { steps, final_answer: Some(answer) });
        }
        let ghost start_steps = self.steps@;
        let ghost start_context = self.context@;
        let mut found_answer = false;
        let mut answer: Option<String> = None;
        let mut i: usize = 0;
        while i < new_steps.len()
            invariant
                i <= new_steps.len(),
                ns == step_views(new_steps@),
                self.remaining == old(self).remaining,
                ns == reasoning_steps(response@),
                step_views(self.steps@) == step_views(start_steps) + ns.take(i as int),
                self.context@ == start_context + render_steps(ns.take(i as int)),
                found_answer == has_answer(ns.take(i as int)),
                found_answer ==> (answer matches Some(a) && last_answer(ns.take(i as int))
                    == Some(a@)),
            decreases new_steps.len() - i,
        {
            let step = &new_steps[i];
            let label = step_type_label(&step.step_type);
            push_str(&mut self.context, label);
            push_str(&mut self.context, ": ");
            push_str(&mut self.context, step.content.as_str());
            push_str(&mut self.context, "\n");
            let copy = ReasoningStep {
                step_type: step.step_type,
                content: step.content.clone(),
            };
            let ghost before = self.steps@;
            self.steps.push(copy);
            if step.step_type == StepType::Answer {
                found_answer = true;
                answer = Some(step.content.clone());
            }
            proof {
                let pre = ns.take(i + 1);
                assert(pre.drop_last() =~= ns.take(i as int));
                assert(pre.last() == step_view(new_steps@[i as int]));
                assert(step_views(self.steps@) =~= step_views(before).push(step_view(copy)));
                assert(step_views(self.steps@) =~= step_views(start_steps) + pre);
                if found_answer {
                    assert(answer matches Some(a) && last_answer(pre) == Some(a@));
                    if step.step_type != StepType::Answer {
                        let k = choose|k: int|
                            0 <= k < i && (#[trigger] ns.take(i as int)[k]).0 == StepType::Answer;
                        assert(pre[k] == ns.take(i as int)[k]);
                    }
                } else {
                    assert forall|k: int| 0 <= k < pre.len() implies (#[trigger] pre[k]).0
                        != StepType::Answer by {
                        if k < i {
                            assert(pre[k] == ns.take(i as int)[k]);
                        }
                    }
                }
            }
            i = i + 1;
        }
        proof {
            assert(ns.take(new_steps.len() as int) =~= ns);
        }
        if found_answer {
            proof {
                lemma_last_answer_append(step_views(start_steps), ns);
            }
            let mut steps: Vec<ReasoningStep> = Vec::new();
            std::mem::swap(&mut steps, &mut self.steps);
            Some(ReasoningChain { steps, final_answer: answer })
        } else {
            self.remaining = self.remaining - 1;
            None
        }
    }

    /// End the reasoning without an answer: the chain of the steps so far.
    pub fn finish(self) -> (chain: ReasoningChain)
        ensures
            step_views(chain.steps@) == self.spec_steps(),
            chain.final_answer is None,
    {
        ReasoningChain { steps: self.steps, final_answer: None }
    }
}

/// The last answer of `a + b`, when `b` has one, is the last answer of `b`.
proof fn lemma_last_answer_append(a: Seq<(StepType, Seq<char>)>, b: Seq<(StepType, Seq<char>)>)
    requires
        has_answer(b),
    ensures
        last_answer(a + b) == last_answer(b),
    decreases b.len(),
{
    let ab = a + b;
    assert(ab.last() == b.last());
    if b.last().0 != StepType::Answer {
        let k = choose|k: int| 0 <= k < b.len() && (#[trigger] b[k]).0 == StepType::Answer;
        assert(b.drop_last()[k] == b[k]);
        assert(ab.drop_last() =~= a + b.drop_last());
        lemma_last_answer_append(a, b.drop_last());
    }
}

} // verus!
