//! The decision engine and its built-in behaviors.
use vstd::prelude::*;

use crate::planner::{
    is_top_pending, lemma_empty_order_no_pending, lemma_first_of_order_is_top, pending_order,
    ranked_before, Goal, TaskNode,
};
use crate::types::{Priority, ThreatLevel};

verus! {

/// A behavior held by the engine, with the priority it declared.
pub struct RankedBehavior<B> {
    pub priority: Priority,
    pub behavior: B,
}

/// Whether a sequence of ranked behaviors is ordered by non-increasing priority.
pub open spec fn by_priority<B>(s: Seq<RankedBehavior<B>>) -> bool {
    forall|i: int, j: int|
        0 <= i < j < s.len() ==> s[i].priority.spec_rank() >= s[j].priority.spec_rank()
}

/// Where a behavior of priority `p` goes: after the leading entries whose
/// priority is at least `p`.
pub open spec fn insertion_point<B>(s: Seq<RankedBehavior<B>>, p: Priority) -> nat
    decreases s.len(),
{
    if s.len() == 0 {
        0
    } else if s[0].priority.spec_rank() >= p.spec_rank() {
        1 + insertion_point(s.drop_first(), p)
    } else {
        0
    }
}

/// The insertion point of a priority in a sequence ordered by priority:
/// every entry before it ranks at least as high, every entry after it lower.
pub proof fn lemma_insertion_point<B>(s: Seq<RankedBehavior<B>>, p: Priority)
    requires
        by_priority(s),
    ensures
        insertion_point(s, p) <= s.len(),
        forall|i: int|
            0 <= i < insertion_point(s, p) ==> s[i].priority.spec_rank() >= p.spec_rank(),
        forall|i: int|
            insertion_point(s, p) <= i < s.len() ==> s[i].priority.spec_rank()
                < p.spec_rank(),
    decreases s.len(),
{
    if s.len() > 0 {
        let t = s.drop_first();
        assert(by_priority(t));
        lemma_insertion_point(t, p);
        if s[0].priority.spec_rank() >= p.spec_rank() {
            assert forall|i: int|
                0 <= i < insertion_point(s, p) implies s[i].priority.spec_rank()
                >= p.spec_rank() by {
                if i > 0 {
                    assert(s[i] == t[i - 1]);
                }
            }
            assert forall|i: int|
                insertion_point(s, p) <= i < s.len() implies s[i].priority.spec_rank()
                < p.spec_rank() by {
                assert(s[i] == t[i - 1]);
            }
        } else {
            assert forall|i: int|
                insertion_point(s, p) <= i < s.len() implies s[i].priority.spec_rank()
                < p.spec_rank() by {
                assert(s[0].priority.spec_rank() >= s[i].priority.spec_rank());
            }
        }
    }
}

/// A position `k` before which every entry ranks at least `p` and at which the
/// entry (if any) ranks lower is the insertion point.
proof fn lemma_insertion_point_at<B>(s: Seq<RankedBehavior<B>>, p: Priority, k: int)
    requires
        0 <= k <= s.len(),
        forall|i: int| 0 <= i < k ==> s[i].priority.spec_rank() >= p.spec_rank(),
        k < s.len() ==> s[k].priority.spec_rank() < p.spec_rank(),
    ensures
        insertion_point(s, p) == k,
    decreases k,
{
    if k > 0 {
        let t = s.drop_first();
        assert forall|i: int| 0 <= i < k - 1 implies t[i].priority.spec_rank()
            >= p.spec_rank() by {
            assert(t[i] == s[i + 1]);
        }
        if k - 1 < t.len() {
            assert(t[k - 1] == s[k]);
        }
        lemma_insertion_point_at(t, p, k - 1);
    }
}

/// Inserting a behavior at its insertion point keeps the order by priority.
pub proof fn lemma_insert_keeps_order<B>(s: Seq<RankedBehavior<B>>, x: RankedBehavior<B>)
    requires
        by_priority(s),
    ensures
        by_priority(s.insert(insertion_point(s, x.priority) as int, x)),
        s.insert(insertion_point(s, x.priority) as int, x).remove(
            insertion_point(s, x.priority) as int,
        ) == s,
{
    lemma_insertion_point(s, x.priority);
    let k = insertion_point(s, x.priority) as int;
    let r = s.insert(k, x);
    assert forall|i: int, j: int|
        0 <= i < j < r.len() implies r[i].priority.spec_rank() >= r[j].priority.spec_rank() by {
        if j < k {
        } else if j == k {
        } else if i < k {
            assert(r[j] == s[j - 1]);
        } else if i == k {
            assert(r[j] == s[j - 1]);
        } else {
            assert(r[j] == s[j - 1]);
            assert(r[i] == s[i - 1]);
        }
    }
    assert(r.remove(k) =~= s);
}

/// Whether a ranked behavior has the priority of rank `r`.
pub open spec fn rank_is<B>(r: nat) -> spec_fn(RankedBehavior<B>) -> bool {
    |x: RankedBehavior<B>| x.priority.spec_rank() == r
}

/// The behaviors stably sorted by priority, highest first: those of each
/// priority, from `Critical` down to `Low`, in the order given.
pub open spec fn stably_by_priority<B>(s: Seq<RankedBehavior<B>>) -> Seq<RankedBehavior<B>> {
    s.filter(rank_is(3)) + s.filter(rank_is(2)) + s.filter(rank_is(1)) + s.filter(rank_is(0))
}

/// The entries of an engine to which the behaviors were added one at a
/// time, in the order given, starting from no behaviors.
pub open spec fn added_in_turn<B>(s: Seq<RankedBehavior<B>>) -> Seq<RankedBehavior<B>>
    decreases s.len(),
{
    if s.len() == 0 {
        s
    } else {
        let t = added_in_turn(s.drop_last());
        t.insert(insertion_point(t, s.last().priority) as int, s.last())
    }
}

/// Before a block of entries ranking at least `p` and a block ranking lower,
/// a behavior of priority `p` goes between the two.
proof fn lemma_point_between<B>(a: Seq<RankedBehavior<B>>, b: Seq<RankedBehavior<B>>, x: RankedBehavior<B>)
    requires
        forall|i: int| 0 <= i < a.len() ==> (#[trigger] a[i]).priority.spec_rank() >= x.priority.spec_rank(),
        forall|i: int| 0 <= i < b.len() ==> (#[trigger] b[i]).priority.spec_rank() < x.priority.spec_rank(),
    ensures
        (a + b).insert(insertion_point(a + b, x.priority) as int, x) == a.push(x) + b,
{
    let s = a + b;
    assert forall|i: int| 0 <= i < a.len() implies s[i].priority.spec_rank() >= x.priority.spec_rank() by {
        assert(s[i] == a[i]);
    }
    if a.len() < s.len() {
        assert(s[a.len() as int] == b[0]);
    }
    lemma_insertion_point_at(s, x.priority, a.len() as int);
    assert(s.insert(a.len() as int, x) =~= a.push(x) + b);
}

/// Every behavior kept by `rank_is(k)` has rank `k`.
proof fn lemma_block_ranks<B>(d: Seq<RankedBehavior<B>>, k: nat)
    ensures
        forall|i: int|
            0 <= i < d.filter(rank_is::<B>(k)).len() ==> (#[trigger] d.filter(
                rank_is::<B>(k),
            )[i]).priority.spec_rank() == k,
{
    broadcast use vstd::seq_lib::group_filter_ensures;

    assert forall|i: int| 0 <= i < d.filter(rank_is::<B>(k)).len() implies (#[trigger] d.filter(
        rank_is::<B>(k),
    )[i]).priority.spec_rank() == k by {
        assert(rank_is::<B>(k)(d.filter(rank_is::<B>(k))[i]));
    }
}

/// Where blocks of ranks 3, 2, 1 and 0 stand in turn, adding a behavior puts
/// it at the end of the block of its own rank.
proof fn lemma_add_to_blocks<B>(
    f3: Seq<RankedBehavior<B>>,
    f2: Seq<RankedBehavior<B>>,
    f1: Seq<RankedBehavior<B>>,
    f0: Seq<RankedBehavior<B>>,
    x: RankedBehavior<B>,
)
    requires
        forall|i: int| 0 <= i < f3.len() ==> (#[trigger] f3[i]).priority.spec_rank() == 3,
        forall|i: int| 0 <= i < f2.len() ==> (#[trigger] f2[i]).priority.spec_rank() == 2,
        forall|i: int| 0 <= i < f1.len() ==> (#[trigger] f1[i]).priority.spec_rank() == 1,
        forall|i: int| 0 <= i < f0.len() ==> (#[trigger] f0[i]).priority.spec_rank() == 0,
    ensures
        ({
            let t = f3 + f2 + f1 + f0;
            let r = x.priority.spec_rank();
            t.insert(insertion_point(t, x.priority) as int, x) == (if r == 3 {
                f3.push(x)
            } else {
                f3
            }) + (if r == 2 {
                f2.push(x)
            } else {
                f2
            }) + (if r == 1 {
                f1.push(x)
            } else {
                f1
            }) + (if r == 0 {
                f0.push(x)
            } else {
                f0
            })
        }),
{
    let t = f3 + f2 + f1 + f0;
    let r = x.priority.spec_rank();
    if r == 3 {
        let lo = f2 + f1 + f0;
        assert(t =~= f3 + lo);
        lemma_point_between(f3, lo, x);
        assert(f3.push(x) + lo =~= f3.push(x) + f2 + f1 + f0);
    } else if r == 2 {
        let hi = f3 + f2;
        let lo = f1 + f0;
        assert(t =~= hi + lo);
        lemma_point_between(hi, lo, x);
        assert(hi.push(x) + lo =~= f3 + f2.push(x) + f1 + f0);
    } else if r == 1 {
        let hi = f3 + f2 + f1;
        assert(t =~= hi + f0);
        lemma_point_between(hi, f0, x);
        assert(hi.push(x) + f0 =~= f3 + f2 + f1.push(x) + f0);
    } else {
        let e = Seq::<RankedBehavior<B>>::empty();
        assert(t =~= t + e);
        lemma_point_between(t, e, x);
        assert(t.push(x) + e =~= f3 + f2 + f1 + f0.push(x));
    }
}

/// Adding behaviors one at a time to an empty engine orders them stably by
/// priority: highest priority first, and behaviors of equal priority in the
/// order they were added.
pub proof fn lemma_adds_sort_stably<B>(s: Seq<RankedBehavior<B>>)
    ensures
        added_in_turn(s) == stably_by_priority(s),
    decreases s.len(),
{
    if s.len() == 0 {
        reveal(Seq::filter);
        assert(stably_by_priority(s) =~= s);
    } else {
        let d = s.drop_last();
        let x = s.last();
        lemma_adds_sort_stably(d);
        let f3 = d.filter(rank_is::<B>(3));
        let f2 = d.filter(rank_is::<B>(2));
        let f1 = d.filter(rank_is::<B>(1));
        let f0 = d.filter(rank_is::<B>(0));
        let t = added_in_turn(d);
        assert(t == f3 + f2 + f1 + f0);
        assert(added_in_turn(s) == t.insert(insertion_point(t, x.priority) as int, x));
        lemma_block_ranks(d, 3);
        lemma_block_ranks(d, 2);
        lemma_block_ranks(d, 1);
        lemma_block_ranks(d, 0);
        lemma_add_to_blocks(f3, f2, f1, f0, x);
        assert(s =~= d.push(x));
        let r = x.priority.spec_rank();
        assert(s.filter(rank_is::<B>(3)) == (if r == 3 { f3.push(x) } else { f3 })) by {
            d.lemma_filter_push(x, rank_is::<B>(3));
        }
        assert(s.filter(rank_is::<B>(2)) == (if r == 2 { f2.push(x) } else { f2 })) by {
            d.lemma_filter_push(x, rank_is::<B>(2));
        }
        assert(s.filter(rank_is::<B>(1)) == (if r == 1 { f1.push(x) } else { f1 })) by {
            d.lemma_filter_push(x, rank_is::<B>(1));
        }
        assert(s.filter(rank_is::<B>(0)) == (if r == 0 { f0.push(x) } else { f0 })) by {
            d.lemma_filter_push(x, rank_is::<B>(0));
        }
    }
}

/// Decision engine that selects the highest-priority behavior that fires.
///
/// Behaviors are kept ordered by non-increasing priority; behaviors of equal
/// priority stay in the order they were added. The caller evaluates them in
/// that order and takes the first that proposes a command.
pub struct BehaviorDecisionEngine<B> {
    behaviors: Vec<RankedBehavior<B>>,
}

impl<B> BehaviorDecisionEngine<B> {
    /// The behaviors in evaluation order.
    pub closed spec fn entries(&self) -> Seq<RankedBehavior<B>> {
        self.behaviors@
    }

    #[verifier::type_invariant]
    closed spec fn ordered(&self) -> bool {
        by_priority(self.behaviors@)
    }

    /// An engine with no behaviors.
    pub fn new() -> (r: Self)
        ensures
            r.entries() == Seq::<RankedBehavior<B>>::empty(),
    {
        BehaviorDecisionEngine { behaviors: Vec::new() }
    }

    /// Add a behavior with its priority. It is placed after every behavior of
    /// the same or higher priority and before every lower one.
    pub fn add_behavior(&mut self, behavior: B, priority: Priority)
        ensures
            final(self).entries() == old(self).entries().insert(
                insertion_point(old(self).entries(), priority) as int,
                RankedBehavior { priority, behavior },
            ),
            by_priority(final(self).entries()),
    {
        proof {
            use_type_invariant(&*self);
        }
        let ghost before = self.behaviors@;
        let p = priority.rank();
        let mut i: usize = 0;
        while i < self.behaviors.len() && self.behaviors[i].priority.rank() >= p
            invariant
                i <= self.behaviors@.len(),
                self.behaviors@ == before,
                p == priority.spec_rank(),
                forall|j: int|
                    0 <= j < i ==> before[j].priority.spec_rank() >= priority.spec_rank(),
            decreases self.behaviors@.len() - i,
        {
            i = i + 1;
        }
        proof {
            lemma_insertion_point_at(before, priority, i as int);
            lemma_insert_keeps_order(before, RankedBehavior { priority, behavior });
        }
        let mut v: Vec<RankedBehavior<B>> = Vec::new();
        std::mem::swap(&mut v, &mut self.behaviors);
        v.insert(i, RankedBehavior { priority, behavior });
        self.behaviors = v;
    }

    /// The number of behaviors.
    pub fn len(&self) -> (n: usize)
        ensures
            n == self.entries().len(),
            by_priority(self.entries()),
    {
        proof {
            use_type_invariant(self);
        }
        self.behaviors.len()
    }

    /// Whether the engine holds no behavior.
    pub fn is_empty(&self) -> (b: bool)
        ensures
            b == (self.entries().len() == 0),
    {
        self.behaviors.len() == 0
    }

    /// The behavior evaluated at position `i`.
    pub fn behavior_at(&self, i: usize) -> (b: &B)
        requires
            i < self.entries().len(),
        ensures
            *b == self.entries()[i as int].behavior,
    {
        &self.behaviors[i].behavior
    }

    /// The priority of the behavior at position `i`.
    pub fn priority_at(&self, i: usize) -> (p: Priority)
        requires
            i < self.entries().len(),
        ensures
            p == self.entries()[i as int].priority,
    {
        self.behaviors[i].priority
    }

    /// The step a tick starts with: evaluate the first behavior, or end
    /// with no command when there is none.
    pub fn first_step(&self) -> (s: TickStep)
        ensures
            s == opening_step(self.entries().len()),
    {
        if self.behaviors.len() == 0 {
            TickStep::Done
        } else {
            TickStep::Evaluate(0)
        }
    }

    /// The step a tick takes once behavior `i` was evaluated: its command is
    /// the tick's if it fired; else the next behavior is evaluated, and after
    /// the last one the tick ends with no command.
    pub fn after_evaluation(&self, i: usize, fired: bool) -> (s: TickStep)
        requires
            i < self.entries().len(),
        ensures
            s == next_step(self.entries().len(), i, fired),
    {
        assert(i < self.behaviors.len());
        if fired {
            TickStep::Fire(i)
        } else if i + 1 < self.behaviors.len() {
            TickStep::Evaluate(i + 1)
        } else {
            TickStep::Done
        }
    }
}

/// A step of the engine's tick.
#[derive(Debug, Clone, Copy, PartialEq, Eq, Structural)]
pub enum TickStep {
    /// Evaluate the behavior at this position.
    Evaluate(usize),
    /// The behavior at this position fired: its command is the tick's.
    Fire(usize),
    /// No behavior fired: the tick has no command.
    Done,
}

/// The first step of a tick over `n` behaviors.
pub open spec fn opening_step(n: nat) -> TickStep {
    if n == 0 {
        TickStep::Done
    } else {
        TickStep::Evaluate(0)
    }
}

/// The step after behavior `i` of `n` was evaluated and did or did not fire.
pub open spec fn next_step(n: nat, i: usize, fired: bool) -> TickStep {
    if fired {
        TickStep::Fire(i)
    } else if i + 1 < n {
        TickStep::Evaluate((i + 1) as usize)
    } else {
        TickStep::Done
    }
}

/// How far a tick over `n` behaviors is from its end at step `s`.
pub open spec fn steps_left(n: nat, s: TickStep) -> nat {
    match s {
        TickStep::Evaluate(i) => if i < n {
            (n - i) as nat
        } else {
            0
        },
        _ => 0,
    }
}

/// The step a tick over `n` behaviors (at most `usize::MAX` of them) ends
/// at, from step `s`, when behavior `j` fires exactly where `fired[j]` holds.
pub open spec fn tick_outcome(n: nat, fired: Seq<bool>, s: TickStep) -> TickStep
    decreases steps_left(n, s),
{
    match s {
        TickStep::Evaluate(i) => if i < n && i < fired.len() && n <= usize::MAX {
            tick_outcome(n, fired, next_step(n, i, fired[i as int]))
        } else {
            TickStep::Done
        },
        _ => s,
    }
}

/// A tick returns the command of the first behavior, in evaluation order,
/// that fires, and no command when none fires.
pub proof fn lemma_tick_fires_first(n: nat, fired: Seq<bool>)
    requires
        fired.len() == n,
        n <= usize::MAX,
    ensures
        match tick_outcome(n, fired, opening_step(n)) {
            TickStep::Fire(k) => k < n && fired[k as int] && forall|j: int|
                0 <= j < k ==> !#[trigger] fired[j],
            TickStep::Done => forall|j: int| 0 <= j < n ==> !#[trigger] fired[j],
            TickStep::Evaluate(_) => false,
        },
{
    if n > 0 {
        lemma_tick_from(n, fired, 0);
    }
}

/// From the evaluation of behavior `i`, with none before it fired, a tick
/// ends at the first behavior from `i` on that fires, or with no command.
proof fn lemma_tick_from(n: nat, fired: Seq<bool>, i: usize)
    requires
        fired.len() == n,
        n <= usize::MAX,
        i < n,
        forall|j: int| 0 <= j < i ==> !#[trigger] fired[j],
    ensures
        match tick_outcome(n, fired, TickStep::Evaluate(i)) {
            TickStep::Fire(k) => k < n && fired[k as int] && forall|j: int|
                0 <= j < k ==> !#[trigger] fired[j],
            TickStep::Done => forall|j: int| 0 <= j < n ==> !#[trigger] fired[j],
            TickStep::Evaluate(_) => false,
        },
    decreases n - i,
{
    if fired[i as int] {
        assert(tick_outcome(n, fired, TickStep::Fire(i)) == TickStep::Fire(i));
    } else if i + 1 < n {
        lemma_tick_from(n, fired, (i + 1) as usize);
    } else {
        assert(tick_outcome(n, fired, TickStep::Done) == TickStep::Done);
    }
}

impl<B> Default for BehaviorDecisionEngine<B> {
    fn default() -> (r: Self)
        ensures
            r.entries() == Seq::<RankedBehavior<B>>::empty(),
    {
        Self::new()
    }
}

/// The built-in behaviors.
#[derive(Debug, Clone, Copy, PartialEq, Eq, Structural)]
pub enum BuiltinBehavior {
    EmergencyHalt,
    ReactiveAvoidance,
    ExecuteTask,
    Idle,
}

impl BehaviorDecisionEngine<BuiltinBehavior> {
    /// The engine with the built-in behaviors, in evaluation order:
    /// emergency halt, reactive avoidance, task execution, idle.
    pub fn with_defaults() -> (r: Self)
        ensures
            r.entries() == seq![
                RankedBehavior { priority: Priority::Critical, behavior: BuiltinBehavior::EmergencyHalt },
                RankedBehavior { priority: Priority::High, behavior: BuiltinBehavior::ReactiveAvoidance },
                RankedBehavior { priority: Priority::Normal, behavior: BuiltinBehavior::ExecuteTask },
                RankedBehavior { priority: Priority::Low, behavior: BuiltinBehavior::Idle },
            ],
    {
        let mut engine = Self::new();
        engine.add_behavior(BuiltinBehavior::EmergencyHalt, EmergencyHalt.priority());
        engine.add_behavior(BuiltinBehavior::ReactiveAvoidance, ReactiveAvoidance.priority());
        engine.add_behavior(BuiltinBehavior::ExecuteTask, ExecuteTask.priority());
        engine.add_behavior(BuiltinBehavior::Idle, Idle.priority());
        proof {
            reveal_with_fuel(insertion_point, 5);
        }
        assert(engine.entries() =~= seq![
            RankedBehavior { priority: Priority::Critical, behavior: BuiltinBehavior::EmergencyHalt },
            RankedBehavior { priority: Priority::High, behavior: BuiltinBehavior::ReactiveAvoidance },
            RankedBehavior { priority: Priority::Normal, behavior: BuiltinBehavior::ExecuteTask },
            RankedBehavior { priority: Priority::Low, behavior: BuiltinBehavior::Idle },
        ]);
        engine
    }
}

/// Halts at `Critical` priority when an obstacle is within halting range.
pub struct EmergencyHalt;

impl EmergencyHalt {
    pub fn name(&self) -> (s: &'static str)
        ensures
            s@ == "EmergencyHalt"@,
    {
        "EmergencyHalt"
    }

    pub fn priority(&self) -> (p: Priority)
        ensures
            p == Priority::Critical,
    {
        Priority::Critical
    }
}

/// Steers away at `High` priority from an obstacle within avoidance range,
/// unless it is already within halting range.
pub struct ReactiveAvoidance;

impl ReactiveAvoidance {
    pub fn name(&self) -> (s: &'static str)
        ensures
            s@ == "ReactiveAvoidance"@,
    {
        "ReactiveAvoidance"
    }

    pub fn priority(&self) -> (p: Priority)
        ensures
            p == Priority::High,
    {
        Priority::High
    }

    /// Whether the behavior fires, given whether an obstacle is within
    /// avoidance range and whether one is within halting range.
    pub fn fires(&self, within_avoidance: bool, within_halt: bool) -> (b: bool)
        ensures
            b == (within_avoidance && !within_halt),
    {
        within_avoidance && !within_halt
    }
}

/// Issues, at `Normal` priority, the action of the first pending task.
pub struct ExecuteTask;

impl ExecuteTask {
    pub fn name(&self) -> (s: &'static str)
        ensures
            s@ == "ExecuteTask"@,
    {
        "ExecuteTask"
    }

    pub fn priority(&self) -> (p: Priority)
        ensures
            p == Priority::Normal,
    {
        Priority::Normal
    }

    /// The action to issue: that of the pending task whose goal ranks
    /// highest (the earliest stored among equals), if it has one.
    pub fn next_action<'a, A>(&self, tasks: &'a [TaskNode<A>], goals: &[Goal]) -> (r: Option<&'a A>)
        ensures
            match r {
                Some(a) => exists|x: int|
                    #[trigger] is_top_pending(tasks@, goals@, x) && tasks@[x].action == Some(*a),
                None => forall|x: int|
                    #[trigger] is_top_pending(tasks@, goals@, x) ==> tasks@[x].action is None,
            },
    {
        let order = pending_order(tasks, goals);
        assert(tasks@.len() == tasks.len());
        if order.len() == 0 {
            proof {
                lemma_empty_order_no_pending(tasks@, goals@, order@);
            }
            return None;
        }
        let first = order[0];
        proof {
            lemma_first_of_order_is_top(tasks@, goals@, order@);
            lemma_top_pending_unique(tasks@, goals@, first as int);
        }
        match &tasks[first].action {
            Some(a) => Some(a),
            None => None,
        }
    }
}

/// There is at most one task to run first.
pub proof fn lemma_top_pending_unique<A>(tasks: Seq<TaskNode<A>>, goals: Seq<Goal>, x: int)
    requires
        is_top_pending(tasks, goals, x),
    ensures
        forall|y: int| #[trigger] is_top_pending(tasks, goals, y) ==> y == x,
{
    assert forall|y: int| #[trigger] is_top_pending(tasks, goals, y) implies y == x by {
        if y != x {
            assert(ranked_before(tasks, goals, x, y));
            assert(ranked_before(tasks, goals, y, x));
        }
    }
}

/// Always fires, at `Low` priority, with a halt: the fallback behavior.
pub struct Idle;

impl Idle {
    pub fn name(&self) -> (s: &'static str)
        ensures
            s@ == "Idle"@,
    {
        "Idle"
    }

    pub fn priority(&self) -> (p: Priority)
        ensures
            p == Priority::Low,
    {
        Priority::Low
    }
}

/// Emergency response: halts at `High` priority when the world's threat
/// level has reached the trigger level.
pub struct EmergencyResponseBehavior {
    trigger_level: ThreatLevel,
}

impl EmergencyResponseBehavior {
    /// The threat level at which the behavior activates.
    pub closed spec fn trigger(&self) -> ThreatLevel {
        self.trigger_level
    }

    /// An emergency response that activates at a confirmed threat.
    pub fn new() -> (r: Self)
        ensures
            r.trigger() == ThreatLevel::Confirmed,
    {
        EmergencyResponseBehavior { trigger_level: ThreatLevel::Confirmed }
    }

    /// An emergency response that activates at the given threat level.
    pub fn with_trigger(trigger_level: ThreatLevel) -> (r: Self)
        ensures
            r.trigger() == trigger_level,
    {
        EmergencyResponseBehavior { trigger_level }
    }

    /// The threat level at which the behavior activates.
    pub fn trigger_level(&self) -> (l: ThreatLevel)
        ensures
            l == self.trigger(),
    {
        self.trigger_level
    }

    pub fn name(&self) -> (s: &'static str)
        ensures
            s@ == "EmergencyResponse"@,
    {
        "EmergencyResponse"
    }

    pub fn priority(&self) -> (p: Priority)
        ensures
            p == Priority::High,
    {
        Priority::High
    }

    /// Whether the behavior fires at the given threat level: when it is at
    /// least the trigger level.
    pub fn responds_to(&self, level: ThreatLevel) -> (b: bool)
        ensures
            b == (level.spec_rank() >= self.trigger().spec_rank()),
    {
        level.rank() >= self.trigger_level.rank()
    }
}

impl Default for EmergencyResponseBehavior {
    fn default() -> (r: Self)
        ensures
            r.trigger() == ThreatLevel::Confirmed,
    {
        Self::new()
    }
}

} // verus!
