//! Goals, the rule-based planner's rules, and locating the JSON plan in a
//! model's answer.
use vstd::prelude::*;

use vstd::string::StrSliceExecFns;

use crate::text::{chars_of, concat_str, contains_seq, contains_str, push_str, spec_lowercase, str_eq, to_lowercase};
use crate::types::{new_uuid_string, BrainError, TaskStatus, Timestamp};

verus! {

/// A high-level goal.
#[derive(Debug, Clone)]
pub struct Goal {
    pub id: String,
    pub description: String,
    pub priority: u8,
    pub created_at: Timestamp,
}

impl Goal {
    /// A goal with a fresh random id, created now.
    pub fn new(description: String, priority: u8) -> (g: Self)
        ensures
            g.description@ == description@,
            g.priority == priority,
    {
        Goal { id: new_uuid_string(), description, priority, created_at: Timestamp::now() }
    }
}

/// Which decomposition the rule-based planner applies to a goal.
#[derive(Debug, Clone, Copy, PartialEq, Eq, Structural)]
pub enum PlanRule {
    /// Plan a path, then execute the movement.
    Movement,
    /// Generate speech with the goal's text.
    Speech,
    /// Halt all motion.
    Halt,
    /// A single task echoing the goal.
    Echo,
}

/// The rule for a goal description, judged on its lowercase form: movement
/// words first, then speech words, then stop words; otherwise echo.
pub open spec fn rule_for_description(description: Seq<char>) -> PlanRule {
    let d = spec_lowercase(description);
    if contains_seq(d, "move"@) || contains_seq(d, "go to"@) || contains_seq(d, "navigate"@) {
        PlanRule::Movement
    } else if contains_seq(d, "say"@) || contains_seq(d, "speak"@) || contains_seq(d, "tell"@) {
        PlanRule::Speech
    } else if contains_seq(d, "stop"@) || contains_seq(d, "halt"@) {
        PlanRule::Halt
    } else {
        PlanRule::Echo
    }
}

/// The keyword rules of goal descriptions, judged case-insensitively:
/// a description mentioning `move`, `go to` or `navigate` is a movement goal;
/// otherwise one mentioning `say`, `speak` or `tell` is a speech goal;
/// otherwise one mentioning `stop` or `halt` is a halt goal; any other is
/// echoed as it is.
pub proof fn lemma_rule_keywords(description: Seq<char>)
    ensures
        contains_seq(spec_lowercase(description), "move"@) ==> rule_for_description(description)
            == PlanRule::Movement,
        contains_seq(spec_lowercase(description), "go to"@) ==> rule_for_description(description)
            == PlanRule::Movement,
        contains_seq(spec_lowercase(description), "navigate"@) ==> rule_for_description(
            description,
        ) == PlanRule::Movement,
        rule_for_description(description) == PlanRule::Movement ==> (contains_seq(
            spec_lowercase(description),
            "move"@,
        ) || contains_seq(spec_lowercase(description), "go to"@) || contains_seq(
            spec_lowercase(description),
            "navigate"@,
        )),
        rule_for_description(description) == PlanRule::Speech <==> (!(contains_seq(
            spec_lowercase(description),
            "move"@,
        ) || contains_seq(spec_lowercase(description), "go to"@) || contains_seq(
            spec_lowercase(description),
            "navigate"@,
        )) && (contains_seq(spec_lowercase(description), "say"@) || contains_seq(
            spec_lowercase(description),
            "speak"@,
        ) || contains_seq(spec_lowercase(description), "tell"@))),
        rule_for_description(description) == PlanRule::Halt <==> (!(contains_seq(
            spec_lowercase(description),
            "move"@,
        ) || contains_seq(spec_lowercase(description), "go to"@) || contains_seq(
            spec_lowercase(description),
            "navigate"@,
        )) && !(contains_seq(spec_lowercase(description), "say"@) || contains_seq(
            spec_lowercase(description),
            "speak"@,
        ) || contains_seq(spec_lowercase(description), "tell"@)) && (contains_seq(
            spec_lowercase(description),
            "stop"@,
        ) || contains_seq(spec_lowercase(description), "halt"@))),
{
}

/// What the rule planner makes of a movement goal, whatever else its
/// description says: plan a path (halting), then execute the movement.
pub proof fn lemma_movement_plan(description: Seq<char>)
    requires
        contains_seq(spec_lowercase(description), "move"@) || contains_seq(
            spec_lowercase(description),
            "go to"@,
        ) || contains_seq(spec_lowercase(description), "navigate"@),
    ensures
        rule_plan(description) == seq![
            ("Plan path"@, Some(PlannedAction::Halt)),
            ("Execute movement"@, Some(PlannedAction::MoveForward)),
        ],
{
    lemma_rule_keywords(description);
}

/// A simple rule-based planner with hardcoded decompositions.
pub struct RulePlanner;

impl RulePlanner {
    pub fn new() -> (p: Self) {
        RulePlanner
    }

    /// The decomposition rule that applies to a goal.
    pub fn rule_for(&self, goal: &Goal) -> (r: PlanRule)
        ensures
            r == rule_for_description(goal.description@),
    {
        let lower = to_lowercase(goal.description.as_str());
        let d = chars_of(lower.as_str());
        if contains_str(&d, "move") || contains_str(&d, "go to") || contains_str(&d, "navigate") {
            PlanRule::Movement
        } else if contains_str(&d, "say") || contains_str(&d, "speak") || contains_str(&d, "tell") {
            PlanRule::Speech
        } else if contains_str(&d, "stop") || contains_str(&d, "halt") {
            PlanRule::Halt
        } else {
            PlanRule::Echo
        }
    }
}

/// The action a rule-planned task carries: halt, a unit step forward along
/// x, or speaking a text.
#[derive(Debug, Clone, PartialEq, Eq)]
pub enum PlannedAction {
    Halt,
    MoveForward,
    Speak(String),
}

/// The description and action of each task the rule planner makes for a goal.
pub open spec fn rule_plan(description: Seq<char>) -> Seq<(Seq<char>, Option<PlannedAction>)> {
    match rule_for_description(description) {
        PlanRule::Movement => seq![
            ("Plan path"@, Some(PlannedAction::Halt)),
            ("Execute movement"@, Some(PlannedAction::MoveForward)),
        ],
        PlanRule::Speech => seq![("Generate speech"@, None)],
        PlanRule::Halt => seq![("Halt all motion"@, Some(PlannedAction::Halt))],
        PlanRule::Echo => seq![(description, None)],
    }
}

impl RulePlanner {
    /// Decompose a goal by its rule: plan a path then move; generate speech
    /// of the goal's text; halt; or one task echoing the goal. Every task is
    /// pending, of the goal, with a fresh id and no dependencies.
    pub fn decompose(&self, goal: &Goal) -> (tasks: Vec<TaskNode<PlannedAction>>)
        ensures
            tasks@.len() == rule_plan(goal.description@).len(),
            forall|i: int|
                0 <= i < tasks@.len() ==> {
                    &&& (#[trigger] tasks@[i]).goal_id@ == goal.id@
                    &&& tasks@[i].description@ == rule_plan(goal.description@)[i].0
                    &&& tasks@[i].status == TaskStatus::Pending
                    &&& tasks@[i].depends_on@.len() == 0
                    &&& (rule_for_description(goal.description@) == PlanRule::Speech ==> (
                    tasks@[i].action matches Some(PlannedAction::Speak(t)) && t@
                        == goal.description@))
                    &&& (rule_for_description(goal.description@) != PlanRule::Speech
                        ==> tasks@[i].action == rule_plan(goal.description@)[i].1)
                },
    {
        let mut tasks: Vec<TaskNode<PlannedAction>> = Vec::new();
        match self.rule_for(goal) {
            PlanRule::Movement => {
                tasks.push(
                    TaskNode::new(goal.id.as_str(), "Plan path".to_owned()).with_action(
                        PlannedAction::Halt,
                    ),
                );
                tasks.push(
                    TaskNode::new(goal.id.as_str(), "Execute movement".to_owned()).with_action(
                        PlannedAction::MoveForward,
                    ),
                );
            },
            PlanRule::Speech => {
                tasks.push(
                    TaskNode::new(goal.id.as_str(), "Generate speech".to_owned()).with_action(
                        PlannedAction::Speak(goal.description.clone()),
                    ),
                );
            },
            PlanRule::Halt => {
                tasks.push(
                    TaskNode::new(goal.id.as_str(), "Halt all motion".to_owned()).with_action(
                        PlannedAction::Halt,
                    ),
                );
            },
            PlanRule::Echo => {
                tasks.push(TaskNode::new(goal.id.as_str(), goal.description.clone()));
            },
        }
        tasks
    }
}

impl Default for RulePlanner {
    fn default() -> (p: Self) {
        Self::new()
    }
}

/// The brace depth after the characters: opening braces minus closing braces.
pub open spec fn brace_depth(s: Seq<char>) -> int
    decreases s.len(),
{
    if s.len() == 0 {
        0
    } else {
        brace_depth(s.drop_last()) + if s.last() == '{' {
            1int
        } else if s.last() == '}' {
            -1int
        } else {
            0int
        }
    }
}

/// Whether `s[start..=end]` is the first balanced brace block from `start`.
pub open spec fn closes_at(s: Seq<char>, start: int, end: int) -> bool {
    &&& start <= end < s.len()
    &&& brace_depth(s.subrange(start, end + 1)) == 0
    &&& forall|k: int| start <= k < end ==> brace_depth(#[trigger] s.subrange(start, k + 1)) != 0
}

/// The position of the first `{`, if any.
pub open spec fn first_open(s: Seq<char>, start: int) -> bool {
    &&& 0 <= start < s.len()
    &&& s[start] == '{'
    &&& forall|k: int| 0 <= k < start ==> s[k] != '{'
}

/// Find the JSON object in a text that may hold prose around it: from the
/// first `{` to the `}` that balances it. `None` when there is no `{`, or
/// it is never balanced.
pub fn extract_json(text: &str) -> (r: Option<&str>)
    ensures
        match r {
            Some(j) => exists|start: int, end: int|
                #[trigger] first_open(text@, start) && #[trigger] closes_at(text@, start, end)
                    && j@ == text@.subrange(start, end + 1),
            None => forall|start: int, end: int|
                #[trigger] first_open(text@, start) ==> !#[trigger] closes_at(text@, start, end),
        },
{
    let v = chars_of(text);
    let n = v.len();
    let mut start: usize = 0;
    while start < n && v[start] != '{'
        invariant
            start <= n == v.len(),
            v@ == text@,
            forall|k: int| 0 <= k < start ==> v@[k] != '{',
        decreases n - start,
    {
        start = start + 1;
    }
    if start == n {
        return None;
    }
    let mut depth: usize = 0;
    let mut i: usize = start;
    while i < n
        invariant
            start <= i <= n == v.len(),
            v@ == text@,
            first_open(v@, start as int),
            depth == brace_depth(v@.subrange(start as int, i as int)),
            depth <= i - start,
            i > start ==> depth > 0,
            forall|k: int|
                start <= k < i ==> brace_depth(#[trigger] v@.subrange(start as int, k + 1)) != 0,
        decreases n - i,
    {
        proof {
            assert(v@.subrange(start as int, i + 1).drop_last() =~= v@.subrange(
                start as int,
                i as int,
            ));
            assert(v@.subrange(start as int, i + 1).last() == v@[i as int]);
        }
        if v[i] == '{' {
            depth = depth + 1;
        } else if v[i] == '}' {
            if i == start {
                assert(v@[start as int] == '{');
            }
            depth = depth - 1;
            if depth == 0 {
                let r = text.substring_char(start, i + 1);
                assert(closes_at(text@, start as int, i as int));
                return Some(r);
            }
        }
        i = i + 1;
    }
    proof {
        assert forall|s: int, e: int| #[trigger] first_open(text@, s) implies !#[trigger] closes_at(
            text@,
            s,
            e,
        ) by {
            if s != start {
                if s < start {
                } else {
                    assert(text@[start as int] == '{');
                }
            }
            if closes_at(text@, s, e) {
                assert(brace_depth(v@.subrange(start as int, e + 1)) != 0);
            }
        }
    }
    None
}

/// A node in a task tree; `A` is the type of the action it carries.
#[derive(Debug, Clone)]
pub struct TaskNode<A> {
    pub id: String,
    pub goal_id: String,
    pub description: String,
    pub status: TaskStatus,
    pub action: Option<A>,
    pub depends_on: Vec<String>,
}

impl<A> TaskNode<A> {
    /// A pending task of the goal, with a fresh random id, no action and no
    /// dependencies.
    pub fn new(goal_id: &str, description: String) -> (t: Self)
        ensures
            t.goal_id@ == goal_id@,
            t.description == description,
            t.status == TaskStatus::Pending,
            t.action is None,
            t.depends_on@.len() == 0,
    {
        TaskNode {
            id: new_uuid_string(),
            goal_id: goal_id.to_owned(),
            description,
            status: TaskStatus::Pending,
            action: None,
            depends_on: Vec::new(),
        }
    }

    /// The same task carrying an action.
    pub fn with_action(self, action: A) -> (t: Self)
        ensures
            t.id == self.id,
            t.goal_id == self.goal_id,
            t.description == self.description,
            t.status == self.status,
            t.action == Some(action),
            t.depends_on == self.depends_on,
    {
        TaskNode { action: Some(action), ..self }
    }
}

/// One subtask of a model's plan, as far as it could be read: its
/// description, if it had a text one, and its dependencies, if it had a
/// list of them, each an index when it was a non-negative integer.
#[derive(Debug, Clone)]
pub struct SubtaskEntry {
    pub description: Option<String>,
    pub depends_on: Option<Vec<Option<u64>>>,
}

/// What a subtask entry holds, as plain values: its description, if it had
/// a text one, and its list of dependencies, if it had one.
pub open spec fn entry_view(e: SubtaskEntry) -> (Option<Seq<char>>, Option<Seq<Option<u64>>>) {
    (
        match e.description {
            Some(d) => Some(d@),
            None => None,
        },
        match e.depends_on {
            Some(ds) => Some(ds@),
            None => None,
        },
    )
}

/// The views of a list of subtask entries.
pub open spec fn entry_views(es: Seq<SubtaskEntry>) -> Seq<(Option<Seq<char>>, Option<Seq<Option<u64>>>)> {
    es.map_values(|e: SubtaskEntry| entry_view(e))
}

/// The description a subtask's task gets: its own, or `Unnamed task`.
pub open spec fn subtask_description(e: (Option<Seq<char>>, Option<Seq<Option<u64>>>)) -> Seq<char> {
    match e.0 {
        Some(d) => d,
        None => "Unnamed task"@,
    }
}

/// The indices among the first `i` tasks that a list of dependencies names,
/// in order; others are dropped.
pub open spec fn earlier_indices(deps: Seq<Option<u64>>, i: nat) -> Seq<nat>
    decreases deps.len(),
{
    if deps.len() == 0 {
        seq![]
    } else {
        let front = earlier_indices(deps.drop_last(), i);
        match deps.last() {
            Some(d) => if d < i {
                front.push(d as nat)
            } else {
                front
            },
            None => front,
        }
    }
}

/// The dependencies of the `i`-th subtask: the earlier ones it names.
pub open spec fn subtask_deps(e: (Option<Seq<char>>, Option<Seq<Option<u64>>>), i: nat) -> Seq<nat> {
    match e.1 {
        Some(ds) => earlier_indices(ds, i),
        None => seq![],
    }
}

/// Whether `nodes` are the tasks of the goal made from the subtasks, in
/// order: each pending, with no action, with the subtask's description, and
/// depending on the ids of the earlier tasks its subtask names.
pub open spec fn tasks_of_subtasks<A>(
    goal_id: Seq<char>,
    entries: Seq<(Option<Seq<char>>, Option<Seq<Option<u64>>>)>,
    nodes: Seq<TaskNode<A>>,
) -> bool {
    &&& nodes.len() == entries.len()
    &&& forall|i: int|
        0 <= i < nodes.len() ==> {
            &&& (#[trigger] nodes[i]).goal_id@ == goal_id
            &&& nodes[i].description@ == subtask_description(entries[i])
            &&& nodes[i].status == TaskStatus::Pending
            &&& nodes[i].action is None
            &&& nodes[i].depends_on@.map_values(|s: String| s@) == subtask_deps(
                entries[i],
                i as nat,
            ).map_values(|d: nat| nodes[d as int].id@)
        }
}

/// The ids of the earlier tasks that a list of dependencies names.
fn dependency_ids<A>(deps: &Vec<Option<u64>>, nodes: &Vec<TaskNode<A>>) -> (ids: Vec<String>)
    ensures
        ids@.map_values(|s: String| s@) == earlier_indices(deps@, nodes@.len()).map_values(
            |d: nat| nodes@[d as int].id@,
        ),
        forall|k: int|
            0 <= k < earlier_indices(deps@, nodes@.len()).len() ==> #[trigger] earlier_indices(
                deps@,
                nodes@.len(),
            )[k] < nodes@.len(),
{
    let mut ids: Vec<String> = Vec::new();
    let mut j: usize = 0;
    while j < deps.len()
        invariant
            j <= deps@.len(),
            ids@.map_values(|s: String| s@) == earlier_indices(deps@.take(j as int), nodes@.len()).map_values(
                |d: nat| nodes@[d as int].id@,
            ),
            forall|k: int|
                0 <= k < earlier_indices(deps@.take(j as int), nodes@.len()).len()
                    ==> #[trigger] earlier_indices(deps@.take(j as int), nodes@.len())[k] < nodes@.len(),
        decreases deps.len() - j,
    {
        let ghost before = ids@;
        proof {
            let pre = deps@.take(j + 1);
            assert(pre.drop_last() =~= deps@.take(j as int));
            assert(pre.last() == deps@[j as int]);
        }
        match deps[j] {
            Some(d) => {
                if d < nodes.len() as u64 {
                    let id = nodes[d as usize].id.clone();
                    ids.push(id);
                    proof {
                        let e = earlier_indices(deps@.take(j as int), nodes@.len());
                        assert(earlier_indices(deps@.take(j + 1), nodes@.len()) == e.push(
                            d as nat,
                        ));
                        assert(ids@.map_values(|s: String| s@) =~= before.map_values(
                            |s: String| s@,
                        ).push(nodes@[d as int].id@));
                        assert(e.push(d as nat).map_values(|x: nat| nodes@[x as int].id@)
                            =~= e.map_values(|x: nat| nodes@[x as int].id@).push(
                            nodes@[d as int].id@,
                        ));
                    }
                }
            },
            None => {},
        }
        proof {
            assert(ids@.map_values(|s: String| s@) =~= earlier_indices(deps@.take(j + 1), nodes@.len()).map_values(
                |d: nat| nodes@[d as int].id@,
            ));
        }
        j = j + 1;
    }
    assert(deps@.take(deps.len() as int) =~= deps@);
    ids
}

/// The indices a list of dependencies names among the first `i` tasks are
/// below `i`.
proof fn lemma_earlier_below(deps: Seq<Option<u64>>, i: nat)
    ensures
        forall|k: int|
            0 <= k < earlier_indices(deps, i).len() ==> #[trigger] earlier_indices(deps, i)[k] < i,
    decreases deps.len(),
{
    if deps.len() > 0 {
        let front = earlier_indices(deps.drop_last(), i);
        lemma_earlier_below(deps.drop_last(), i);
        assert forall|k: int|
            0 <= k < earlier_indices(deps, i).len() implies #[trigger] earlier_indices(deps, i)[k]
            < i by {
            if k < front.len() {
                assert(earlier_indices(deps, i)[k] == front[k]);
            }
        }
    }
}

/// The tasks made from a plan depend only on tasks made before them, so
/// the dependencies never form a cycle.
pub proof fn lemma_dependencies_point_back<A>(
    goal_id: Seq<char>,
    entries: Seq<(Option<Seq<char>>, Option<Seq<Option<u64>>>)>,
    nodes: Seq<TaskNode<A>>,
    i: int,
    k: int,
)
    requires
        tasks_of_subtasks(goal_id, entries, nodes),
        0 <= i < nodes.len(),
        0 <= k < nodes[i].depends_on@.len(),
    ensures
        exists|d: int| 0 <= d < i && #[trigger] nodes[d].id@ == nodes[i].depends_on@[k]@,
{
    let deps = subtask_deps(entries[i], i as nat);
    let ids = nodes[i].depends_on@.map_values(|s: String| s@);
    assert(ids == deps.map_values(|d: nat| nodes[d as int].id@));
    assert(ids[k] == nodes[i].depends_on@[k]@);
    match entries[i].1 {
        Some(ds) => lemma_earlier_below(ds, i as nat),
        None => {},
    }
    let d = deps[k] as int;
    assert(nodes[d].id@ == nodes[i].depends_on@[k]@);
}

/// The tasks of a model's plan for a goal: one pending task per subtask, in
/// order, with the subtask's description (`Unnamed task` when it had none)
/// and depending on the earlier tasks its subtask names by index (other
/// indices are dropped). An empty plan is an error.
pub fn resolve_subtasks<A>(goal_id: &str, entries: &Vec<SubtaskEntry>) -> (r: Result<
    Vec<TaskNode<A>>,
    BrainError,
>)
    ensures
        entries@.len() == 0 ==> (r matches Err(BrainError::Planner(m)) && m@
            == "LLM returned empty subtask list"@),
        entries@.len() > 0 ==> (r matches Ok(nodes) && tasks_of_subtasks(
            goal_id@,
            entry_views(entries@),
            nodes@,
        )),
{
    let ghost views = entry_views(entries@);
    let mut nodes: Vec<TaskNode<A>> = Vec::new();
    let mut i: usize = 0;
    while i < entries.len()
        invariant
            i <= entries@.len(),
            views == entry_views(entries@),
            tasks_of_subtasks(goal_id@, views.take(i as int), nodes@),
        decreases entries.len() - i,
    {
        let e = &entries[i];
        let description = match &e.description {
            Some(d) => d.clone(),
            None => "Unnamed task".to_owned(),
        };
        let mut node: TaskNode<A> = TaskNode::new(goal_id, description);
        match &e.depends_on {
            Some(deps) => {
                node.depends_on = dependency_ids(deps, &nodes);
            },
            None => {},
        }
        let ghost before = nodes@;
        nodes.push(node);
        proof {
            let es = views.take(i + 1);
            assert(es[i as int] == entry_view(entries@[i as int]));
            assert(nodes@[i as int] == node);
            if e.depends_on is None {
                assert(node.depends_on@.map_values(|s: String| s@) =~= seq![]);
                assert(subtask_deps(es[i as int], i as nat).map_values(
                    |d: nat| nodes@[d as int].id@,
                ) =~= seq![]);
            } else {
                let ds = e.depends_on->0@;
                lemma_earlier_below(ds, i as nat);
                assert(es[i as int].1 == Some(ds));
                assert(earlier_indices(ds, i as nat).map_values(|d: nat| nodes@[d as int].id@)
                    =~= earlier_indices(ds, i as nat).map_values(|d: nat| before[d as int].id@));
            }
            assert forall|k: int| 0 <= k < i implies {
                &&& (#[trigger] nodes@[k]).goal_id@ == goal_id@
                &&& nodes@[k].description@ == subtask_description(es[k])
                &&& nodes@[k].status == TaskStatus::Pending
                &&& nodes@[k].action is None
                &&& nodes@[k].depends_on@.map_values(|s: String| s@) == subtask_deps(
                    es[k],
                    k as nat,
                ).map_values(|d: nat| nodes@[d as int].id@)
            } by {
                assert(nodes@[k] == before[k]);
                assert(es[k] == views.take(i as int)[k]);
                let deps = subtask_deps(es[k], k as nat);
                match es[k].1 {
                    Some(ds) => lemma_earlier_below(ds, k as nat),
                    None => {},
                }
                assert(deps.map_values(|d: nat| nodes@[d as int].id@) =~= deps.map_values(
                    |d: nat| before[d as int].id@,
                ));
            }
        }
        i = i + 1;
    }
    assert(views.take(entries.len() as int) =~= views);
    if nodes.len() == 0 {
        return Err(BrainError::Planner("LLM returned empty subtask list".to_owned()));
    }
    Ok(nodes)
}

/// The parts joined with `sep` between them.
pub open spec fn join_with(parts: Seq<Seq<char>>, sep: Seq<char>) -> Seq<char>
    decreases parts.len(),
{
    if parts.len() == 0 {
        seq![]
    } else if parts.len() == 1 {
        parts[0]
    } else {
        join_with(parts.drop_last(), sep) + sep + parts.last()
    }
}

/// The answer format a planning prompt asks for.
pub open spec fn plan_format() -> Seq<char> {
    "Format: {\"subtasks\": [{\"description\": \"...\", \"depends_on\": []}]}\nJSON:"@
}

/// The prompt asking a model to decompose a goal into subtasks.
pub open spec fn decompose_prompt_text(goal: Seq<char>) -> Seq<char> {
    "Decompose this goal into 3-7 ordered subtasks. Return JSON only.\nGoal: "@ + goal + "\n"@
        + plan_format()
}

/// The prompt asking a model for a new plan after some subtasks failed.
pub open spec fn replan_prompt_text(goal: Seq<char>, failed: Seq<Seq<char>>) -> Seq<char> {
    "The following subtasks failed for a goal. Create a revised plan with 3-7 subtasks. Return JSON only.\nGoal: "@
        + goal + "\nFailed tasks: "@ + join_with(failed, ", "@) + "\n"@ + plan_format()
}

/// The prompt asking a model to decompose a goal into subtasks.
pub fn decompose_prompt(goal: &Goal) -> (p: String)
    ensures
        p@ == decompose_prompt_text(goal.description@),
{
    let mut p = "Decompose this goal into 3-7 ordered subtasks. Return JSON only.\nGoal: ".to_owned();
    push_str(&mut p, goal.description.as_str());
    push_str(&mut p, "\n");
    push_str(
        &mut p,
        "Format: {\"subtasks\": [{\"description\": \"...\", \"depends_on\": []}]}\nJSON:",
    );
    p
}

/// The prompt asking a model for a new plan after the given tasks failed.
pub fn replan_prompt<A>(goal: &Goal, failed_tasks: &[TaskNode<A>]) -> (p: String)
    ensures
        p@ == replan_prompt_text(
            goal.description@,
            failed_tasks@.map_values(|t: TaskNode<A>| t.description@),
        ),
{
    let ghost ds = failed_tasks@.map_values(|t: TaskNode<A>| t.description@);
    let mut list = String::new();
    let mut i: usize = 0;
    while i < failed_tasks.len()
        invariant
            i <= failed_tasks@.len(),
            ds == failed_tasks@.map_values(|t: TaskNode<A>| t.description@),
            list@ == join_with(ds.take(i as int), ", "@),
        decreases failed_tasks.len() - i,
    {
        let ghost before = list@;
        if i > 0 {
            push_str(&mut list, ", ");
        }
        push_str(&mut list, failed_tasks[i].description.as_str());
        proof {
            let pre = ds.take(i + 1);
            assert(pre.drop_last() =~= ds.take(i as int));
            assert(pre.last() == failed_tasks@[i as int].description@);
            if i == 0 {
                assert(list@ =~= pre[0]);
            }
        }
        i = i + 1;
    }
    assert(ds.take(failed_tasks.len() as int) =~= ds);
    let mut p =
        "The following subtasks failed for a goal. Create a revised plan with 3-7 subtasks. Return JSON only.\nGoal: ".to_owned();
    push_str(&mut p, goal.description.as_str());
    push_str(&mut p, "\nFailed tasks: ");
    push_str(&mut p, list.as_str());
    push_str(&mut p, "\n");
    push_str(
        &mut p,
        "Format: {\"subtasks\": [{\"description\": \"...\", \"depends_on\": []}]}\nJSON:",
    );
    p
}

/// The JSON object of a model's plan, or the planner error when the answer
/// holds none.
pub fn plan_json(response: &str) -> (r: Result<&str, BrainError>)
    ensures
        match r {
            Ok(j) => exists|start: int, end: int|
                #[trigger] first_open(response@, start) && #[trigger] closes_at(
                    response@,
                    start,
                    end,
                ) && j@ == response@.subrange(start, end + 1),
            Err(e) => (forall|start: int, end: int|
                #[trigger] first_open(response@, start) ==> !#[trigger] closes_at(
                    response@,
                    start,
                    end,
                )) && (e matches BrainError::Planner(m) && m@ == "No JSON found in LLM response"@),
        },
{
    match extract_json(response) {
        Some(j) => Ok(j),
        None => Err(BrainError::Planner("No JSON found in LLM response".to_owned())),
    }
}

/// The JSON object of a model's answer: from the first `{` to the `}` that
/// balances it, if there is one.
pub open spec fn plan_text(s: Seq<char>) -> Option<Seq<char>> {
    if exists|start: int, end: int| first_open(s, start) && closes_at(s, start, end) {
        let (start, end) = choose|start: int, end: int|
            first_open(s, start) && closes_at(s, start, end);
        Some(s.subrange(start, end + 1))
    } else {
        None
    }
}

/// A text has at most one first `{`, and a brace block from it closes at
/// most once.
proof fn lemma_plan_block_unique(s: Seq<char>, start: int, end: int, start2: int, end2: int)
    requires
        first_open(s, start),
        closes_at(s, start, end),
        first_open(s, start2),
        closes_at(s, start2, end2),
    ensures
        start == start2,
        end == end2,
{
    if start < start2 {
        assert(s[start] != '{');
    }
    if start2 < start {
        assert(s[start2] != '{');
    }
    if end < end2 {
        assert(brace_depth(s.subrange(start, end + 1)) != 0);
    }
    if end2 < end {
        assert(brace_depth(s.subrange(start, end2 + 1)) != 0);
    }
}

/// The subtasks of a plan's JSON, as `serde_json` reads it: the parser's
/// message when the text is not JSON, `None` when it has no `subtasks`
/// array, else for each element its `description` if that is a string and
/// its `depends_on` if that is an array, each element as an index when it
/// is a non-negative integer that fits in 64 bits.
pub uninterp spec fn plan_entries(json: Seq<char>) -> Result<
    Option<Seq<(Option<Seq<char>>, Option<Seq<Option<u64>>>)>>,
    Seq<char>,
>;

/// A plan as read, as plain values.
pub open spec fn plan_view(r: Result<Option<Vec<SubtaskEntry>>, String>) -> Result<
    Option<Seq<(Option<Seq<char>>, Option<Seq<Option<u64>>>)>>,
    Seq<char>,
> {
    match r {
        Ok(Some(es)) => Ok(Some(entry_views(es@))),
        Ok(None) => Ok(None),
        Err(m) => Err(m@),
    }
}

/// Reads the subtasks of a plan's JSON with `serde_json::from_str` into a
/// `serde_json::Value`, taking `subtasks` as an array, and of each element
/// `description` as a string and `depends_on` as an array of `u64`s. The
/// contract only names the result (`plan_entries`); a parse error is given
/// by its `Display` text.
#[verifier::external_body]
fn read_plan(json: &str) -> (r: Result<Option<Vec<SubtaskEntry>>, String>)
    ensures
        plan_view(r) == plan_entries(json@),
{
    match serde_json::from_str::<serde_json::Value>(json) {
        Err(e) => Err(e.to_string()),
        Ok(v) => Ok(v["subtasks"].as_array().map(|tasks| tasks.iter().map(|t| SubtaskEntry {
            description: t["description"].as_str().map(|d| d.to_string()),
            depends_on: t["depends_on"].as_array().map(|ds| ds.iter().map(|d| d.as_u64()).collect()),
        }).collect())),
    }
}

/// The tasks of a goal from a plan as read: the parse error, the missing
/// `subtasks` array, or what `resolve_subtasks` makes of the entries.
pub open spec fn plan_outcome<A>(
    goal_id: Seq<char>,
    read: Result<Option<Seq<(Option<Seq<char>>, Option<Seq<Option<u64>>>)>>, Seq<char>>,
    r: Result<Vec<TaskNode<A>>, BrainError>,
) -> bool {
    match read {
        Err(msg) => r matches Err(BrainError::Planner(m)) && m@ == "JSON parse error: "@ + msg,
        Ok(None) => r matches Err(BrainError::Planner(m)) && m@
            == "No 'subtasks' array in response"@,
        Ok(Some(es)) => if es.len() == 0 {
            r matches Err(BrainError::Planner(m)) && m@ == "LLM returned empty subtask list"@
        } else {
            r matches Ok(nodes) && tasks_of_subtasks(goal_id, es, nodes@)
        },
    }
}

/// The tasks of a goal from a plan as read: a parse error is reported with
/// the parser's message, a plan without a `subtasks` array is an error, and
/// the entries are resolved into tasks.
pub fn subtasks_from_plan<A>(goal: &Goal, read: Result<Option<Vec<SubtaskEntry>>, String>) -> (r:
    Result<Vec<TaskNode<A>>, BrainError>)
    ensures
        plan_outcome(goal.id@, plan_view(read), r),
{
    match read {
        Err(msg) => Err(BrainError::Planner(concat_str("JSON parse error: ", msg.as_str()))),
        Ok(None) => Err(BrainError::Planner("No 'subtasks' array in response".to_owned())),
        Ok(Some(entries)) => resolve_subtasks(goal.id.as_str(), &entries),
    }
}

/// Parse a model's answer into the tasks of the goal: the JSON object in
/// it is read as a plan and its subtasks resolved into tasks.
pub fn parse_subtasks<A>(goal: &Goal, response: &str) -> (r: Result<Vec<TaskNode<A>>, BrainError>)
    ensures
        match plan_text(response@) {
            None => r matches Err(BrainError::Planner(m)) && m@ == "No JSON found in LLM response"@,
            Some(json) => plan_outcome(goal.id@, plan_entries(json), r),
        },
{
    match plan_json(response) {
        Err(e) => {
            proof {
                if exists|start: int, end: int|
                    first_open(response@, start) && closes_at(response@, start, end) {
                    let (start, end) = choose|start: int, end: int|
                        first_open(response@, start) && closes_at(response@, start, end);
                    assert(!closes_at(response@, start, end));
                }
            }
            Err(e)
        },
        Ok(json) => {
            proof {
                let (s1, e1) = choose|start: int, end: int|
                    #[trigger] first_open(response@, start) && #[trigger] closes_at(
                        response@,
                        start,
                        end,
                    ) && json@ == response@.subrange(start, end + 1);
                let (s2, e2) = choose|start: int, end: int|
                    first_open(response@, start) && closes_at(response@, start, end);
                lemma_plan_block_unique(response@, s1, e1, s2, e2);
                assert(plan_text(response@) == Some(json@));
            }
            let read = read_plan(json);
            subtasks_from_plan(goal, read)
        },
    }
}

/// The plan to follow: the model's tasks when they could be read, else one
/// task that is the goal itself.
pub fn plan_or_fallback<A>(goal: &Goal, parsed: Result<Vec<TaskNode<A>>, BrainError>) -> (tasks: Vec<
    TaskNode<A>,
>)
    ensures
        match parsed {
            Ok(nodes) => tasks == nodes,
            Err(_) => tasks@.len() == 1 && tasks@[0].goal_id@ == goal.id@ && tasks@[0].description
                == goal.description && tasks@[0].status == TaskStatus::Pending
                && tasks@[0].action is None && tasks@[0].depends_on@.len() == 0,
        },
{
    match parsed {
        Ok(nodes) => nodes,
        Err(_) => {
            let mut tasks: Vec<TaskNode<A>> = Vec::new();
            tasks.push(TaskNode::new(goal.id.as_str(), goal.description.clone()));
            tasks
        },
    }
}

/// Whether a task is pending.
pub open spec fn is_pending<A>(t: TaskNode<A>) -> bool {
    t.status == TaskStatus::Pending
}

/// The priority of the goal with the given id: the first such goal's, or 0
/// when no goal has that id.
pub open spec fn goal_priority(goals: Seq<Goal>, id: Seq<char>) -> nat
    decreases goals.len(),
{
    if goals.len() == 0 {
        0
    } else if goals[0].id@ == id {
        goals[0].priority as nat
    } else {
        goal_priority(goals.drop_first(), id)
    }
}

/// The rank of task `x`: the priority of its goal.
pub open spec fn task_rank<A>(tasks: Seq<TaskNode<A>>, goals: Seq<Goal>, x: int) -> nat {
    goal_priority(goals, tasks[x].goal_id@)
}

/// Task `i` comes before task `j`: its goal ranks higher, or as high and
/// it is stored earlier.
pub open spec fn ranked_before<A>(tasks: Seq<TaskNode<A>>, goals: Seq<Goal>, i: int, j: int) -> bool {
    task_rank(tasks, goals, i) > task_rank(tasks, goals, j) || (task_rank(tasks, goals, i)
        == task_rank(tasks, goals, j) && i < j)
}

/// Whether `order` lists the positions of the pending tasks, each once,
/// sorted by their goal's priority, highest first, ties in stored order.
pub open spec fn is_pending_order<A>(
    tasks: Seq<TaskNode<A>>,
    goals: Seq<Goal>,
    order: Seq<usize>,
) -> bool {
    &&& forall|k: int|
        0 <= k < order.len() ==> (#[trigger] order[k]) < tasks.len() && is_pending(
            tasks[order[k] as int],
        )
    &&& forall|k: int, m: int|
        0 <= k < m < order.len() ==> ranked_before(
            tasks,
            goals,
            #[trigger] order[k] as int,
            #[trigger] order[m] as int,
        )
    &&& forall|x: int|
        0 <= x < tasks.len() && #[trigger] is_pending(tasks[x]) ==> order.contains(x as usize)
}

/// Whether task `x` is the one to run first: pending, and before every
/// other pending task.
pub open spec fn is_top_pending<A>(tasks: Seq<TaskNode<A>>, goals: Seq<Goal>, x: int) -> bool {
    &&& 0 <= x < tasks.len()
    &&& is_pending(tasks[x])
    &&& forall|y: int|
        0 <= y < tasks.len() && y != x && #[trigger] is_pending(tasks[y]) ==> ranked_before(
            tasks,
            goals,
            x,
            y,
        )
}

/// The priority of the goal with the given id (0 when there is none).
fn goal_priority_of(goals: &[Goal], id: &str) -> (p: u8)
    ensures
        p as nat == goal_priority(goals@, id@),
{
    let mut i: usize = 0;
    assert(goals@.skip(0) =~= goals@);
    while i < goals.len()
        invariant
            i <= goals@.len(),
            goal_priority(goals@, id@) == goal_priority(goals@.skip(i as int), id@),
        decreases goals.len() - i,
    {
        proof {
            assert(goals@.skip(i as int)[0] == goals@[i as int]);
            assert(goals@.skip(i as int).drop_first() =~= goals@.skip(i + 1));
        }
        if str_eq(goals[i].id.as_str(), id) {
            return goals[i].priority;
        }
        i = i + 1;
    }
    0
}

/// Inserting a new (larger) position after every entry that ranks at least
/// as high keeps the order sorted.
proof fn lemma_ranked_insert<A>(
    tasks: Seq<TaskNode<A>>,
    goals: Seq<Goal>,
    order: Seq<usize>,
    x: int,
    p: int,
)
    requires
        0 <= p <= order.len(),
        0 <= x < tasks.len(),
        x <= usize::MAX,
        forall|k: int| 0 <= k < order.len() ==> (#[trigger] order[k]) < x,
        forall|k: int, m: int|
            0 <= k < m < order.len() ==> ranked_before(
                tasks,
                goals,
                #[trigger] order[k] as int,
                #[trigger] order[m] as int,
            ),
        forall|k: int|
            0 <= k < p ==> task_rank(tasks, goals, (#[trigger] order[k]) as int) >= task_rank(
                tasks,
                goals,
                x,
            ),
        p < order.len() ==> task_rank(tasks, goals, order[p] as int) < task_rank(tasks, goals, x),
    ensures
        forall|k: int, m: int|
            0 <= k < m < order.insert(p, x as usize).len() ==> ranked_before(
                tasks,
                goals,
                #[trigger] order.insert(p, x as usize)[k] as int,
                #[trigger] order.insert(p, x as usize)[m] as int,
            ),
{
    let r = order.insert(p, x as usize);
    assert forall|k: int, m: int| 0 <= k < m < r.len() implies ranked_before(
        tasks,
        goals,
        #[trigger] r[k] as int,
        #[trigger] r[m] as int,
    ) by {
        if m < p {
            assert(r[k] == order[k] && r[m] == order[m]);
        } else if m == p {
            assert(r[k] == order[k]);
        } else if k < p {
            assert(r[k] == order[k] && r[m] == order[m - 1]);
        } else if k == p {
            assert(r[m] == order[m - 1]);
            assert(ranked_before(tasks, goals, order[p] as int, order[m - 1] as int) || m - 1 == p);
        } else {
            assert(r[k] == order[k - 1] && r[m] == order[m - 1]);
        }
    }
}

/// The positions of the pending tasks, sorted by their goal's priority,
/// highest first; tasks of equally ranked goals keep their stored order.
pub fn pending_order<A>(tasks: &[TaskNode<A>], goals: &[Goal]) -> (order: Vec<usize>)
    ensures
        is_pending_order(tasks@, goals@, order@),
{
    let ghost ts = tasks@;
    let ghost gs = goals@;
    let n = tasks.len();
    let mut ranks: Vec<u8> = Vec::new();
    let mut j: usize = 0;
    while j < n
        invariant
            n == ts.len(),
            ts == tasks@,
            gs == goals@,
            j <= n,
            ranks@.len() == j,
            forall|x: int| 0 <= x < j ==> (#[trigger] ranks@[x]) as nat == task_rank(ts, gs, x),
        decreases n - j,
    {
        let r = goal_priority_of(goals, tasks[j].goal_id.as_str());
        ranks.push(r);
        j = j + 1;
    }
    let mut order: Vec<usize> = Vec::new();
    let mut i: usize = 0;
    while i < n
        invariant
            n == ts.len(),
            ts == tasks@,
            gs == goals@,
            ranks@.len() == n,
            forall|x: int| 0 <= x < n ==> (#[trigger] ranks@[x]) as nat == task_rank(ts, gs, x),
            i <= n,
            forall|k: int|
                0 <= k < order@.len() ==> (#[trigger] order@[k]) < i && is_pending(
                    ts[order@[k] as int],
                ),
            forall|k: int, m: int|
                0 <= k < m < order@.len() ==> ranked_before(
                    ts,
                    gs,
                    #[trigger] order@[k] as int,
                    #[trigger] order@[m] as int,
                ),
            forall|x: int| 0 <= x < i && #[trigger] is_pending(ts[x]) ==> order@.contains(x as usize),
        decreases n - i,
    {
        if tasks[i].status == TaskStatus::Pending {
            let t = ranks[i];
            let mut p: usize = 0;
            let mut scanning = true;
            while scanning && p < order.len()
                invariant
                    p <= order@.len(),
                    n == ts.len(),
                    ranks@.len() == n,
                    forall|x: int| 0 <= x < n ==> (#[trigger] ranks@[x]) as nat == task_rank(ts, gs, x),
                    t as nat == task_rank(ts, gs, i as int),
                    i < n,
                    forall|k: int| 0 <= k < order@.len() ==> (#[trigger] order@[k]) < i,
                    forall|k: int|
                        0 <= k < p ==> task_rank(ts, gs, (#[trigger] order@[k]) as int) >= t,
                    !scanning ==> p < order@.len() && task_rank(ts, gs, order@[p as int] as int)
                        < t,
                decreases order@.len() - p + (if scanning { 1int } else { 0int }),
            {
                let o = order[p];
                assert(o < i);
                assert(ranks@[o as int] as nat == task_rank(ts, gs, o as int));
                if ranks[o] >= t {
                    p = p + 1;
                } else {
                    scanning = false;
                }
            }
            proof {
                lemma_ranked_insert(ts, gs, order@, i as int, p as int);
            }
            let ghost old_order = order@;
            order.insert(p, i);
            proof {
                assert forall|x: int| 0 <= x < i + 1 && #[trigger] is_pending(ts[x]) implies order@.contains(
                    x as usize,
                ) by {
                    if x == i {
                        assert(order@[p as int] == x as usize);
                    } else {
                        let k = choose|k: int| 0 <= k < old_order.len() && old_order[k] == x as usize;
                        if k < p {
                            assert(order@[k] == x as usize);
                        } else {
                            assert(order@[k + 1] == x as usize);
                        }
                    }
                }
                assert forall|k: int| 0 <= k < order@.len() implies (#[trigger] order@[k]) < i + 1
                    && is_pending(ts[order@[k] as int]) by {
                    if k < p {
                        assert(order@[k] == old_order[k]);
                    } else if k > p {
                        assert(order@[k] == old_order[k - 1]);
                    }
                }
            }
        } else {
            proof {
                assert forall|x: int| 0 <= x < i + 1 && #[trigger] is_pending(ts[x]) implies order@.contains(
                    x as usize,
                ) by {
                    if x == i {
                        assert(!is_pending(ts[x]));
                    }
                }
            }
        }
        i = i + 1;
    }
    order
}

/// The pending tasks, sorted by their goal's priority, highest first; tasks
/// of equally ranked goals keep their stored order. A task whose goal is not
/// among `goals` ranks as priority 0.
pub fn pending_tasks<'a, A>(tasks: &'a [TaskNode<A>], goals: &[Goal]) -> (r: Vec<&'a TaskNode<A>>)
    ensures
        exists|order: Seq<usize>|
            #[trigger] is_pending_order(tasks@, goals@, order) && r@.len() == order.len()
                && forall|k: int|
                0 <= k < order.len() ==> *#[trigger] r@[k] == tasks@[order[k] as int],
{
    let order = pending_order(tasks, goals);
    let mut r: Vec<&'a TaskNode<A>> = Vec::new();
    let mut k: usize = 0;
    while k < order.len()
        invariant
            k <= order@.len(),
            r@.len() == k,
            is_pending_order(tasks@, goals@, order@),
            forall|j: int| 0 <= j < k ==> *#[trigger] r@[j] == tasks@[order@[j] as int],
        decreases order.len() - k,
    {
        let idx = order[k];
        assert(idx < tasks@.len());
        r.push(&tasks[idx]);
        k = k + 1;
    }
    r
}

/// The first of a pending order is the task to run first.
pub proof fn lemma_first_of_order_is_top<A>(
    tasks: Seq<TaskNode<A>>,
    goals: Seq<Goal>,
    order: Seq<usize>,
)
    requires
        tasks.len() <= usize::MAX,
        is_pending_order(tasks, goals, order),
        order.len() > 0,
    ensures
        is_top_pending(tasks, goals, order[0] as int),
{
    let x = order[0] as int;
    assert(x < tasks.len() && is_pending(tasks[x]));
    assert forall|y: int|
        0 <= y < tasks.len() && y != x && #[trigger] is_pending(tasks[y]) implies ranked_before(
        tasks,
        goals,
        x,
        y,
    ) by {
        assert(order.contains(y as usize));
        let m = choose|m: int| 0 <= m < order.len() && order[m] == y as usize;
        assert(m != 0);
        assert(ranked_before(tasks, goals, order[0] as int, order[m] as int));
    }
}

/// A pending order is empty exactly when no task is pending.
pub proof fn lemma_empty_order_no_pending<A>(
    tasks: Seq<TaskNode<A>>,
    goals: Seq<Goal>,
    order: Seq<usize>,
)
    requires
        tasks.len() <= usize::MAX,
        is_pending_order(tasks, goals, order),
        order.len() == 0,
    ensures
        forall|x: int| 0 <= x < tasks.len() ==> !is_pending(#[trigger] tasks[x]),
{
    assert forall|x: int| 0 <= x < tasks.len() implies !is_pending(#[trigger] tasks[x]) by {
        if is_pending(tasks[x]) {
            assert(order.contains(x as usize));
        }
    }
}

} // verus!
