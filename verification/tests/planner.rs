use carokia::language::MockBackend;
use carokia::planner::{
    decompose_prompt, parse_subtasks, pending_tasks, plan_json, plan_or_fallback, replan_prompt,
    resolve_subtasks, subtasks_from_plan, Goal, PlanRule, PlannedAction, RulePlanner, SubtaskEntry, TaskNode,
};
use carokia::reasoning::{
    parse_reasoning_steps, step_type_label, ChainOfThoughtReasoner, ReasoningChain, StepType,
};
use carokia::types::{BrainError, TaskStatus};

fn reason(reasoner: &ChainOfThoughtReasoner<MockBackend>, question: &str) -> ReasoningChain {
    let mut session = reasoner.start(question);
    while session.has_budget() {
        let response = reasoner.backend().respond();
        if let Some(chain) = session.absorb(&response) {
            return chain;
        }
    }
    session.finish()
}

fn entry(description: Option<&str>, deps: Option<Vec<Option<u64>>>) -> SubtaskEntry {
    SubtaskEntry { description: description.map(|d| d.to_string()), depends_on: deps }
}

#[test]
fn decompose_movement_goal() {
    let planner = RulePlanner::new();
    let goal = Goal::new("Move to the kitchen".to_string(), 5);
    assert_eq!(planner.rule_for(&goal), PlanRule::Movement);
    let tasks = planner.decompose(&goal);
    assert!(tasks.len() >= 2);
    assert!(tasks.iter().any(|t| t.action.is_some()));
    assert_eq!(tasks[0].description, "Plan path");
    assert_eq!(tasks[1].action, Some(PlannedAction::MoveForward));
    assert_eq!(tasks[1].goal_id, goal.id);
}

#[test]
fn decompose_speech_goal() {
    let planner = RulePlanner::new();
    let goal = Goal::new("Say hello to the user".to_string(), 3);
    let tasks = planner.decompose(&goal);
    assert_eq!(tasks.len(), 1);
    assert_eq!(tasks[0].action, Some(PlannedAction::Speak("Say hello to the user".to_string())));
}

#[test]
fn decompose_unknown_goal() {
    let planner = RulePlanner::new();
    let goal = Goal::new("Do something mysterious".to_string(), 1);
    let tasks = planner.decompose(&goal);
    assert_eq!(tasks.len(), 1);
    assert_eq!(tasks[0].description, "Do something mysterious");
    assert!(tasks[0].action.is_none());
}

#[test]
fn decompose_halt_goal_case_insensitive() {
    let planner = RulePlanner::default();
    let goal = Goal::new("HALT now".to_string(), 9);
    assert_eq!(planner.rule_for(&goal), PlanRule::Halt);
    let tasks = planner.decompose(&goal);
    assert_eq!(tasks.len(), 1);
    assert_eq!(tasks[0].description, "Halt all motion");
    assert_eq!(tasks[0].status, TaskStatus::Pending);
}

#[test]
fn subtasks_resolve_dependencies() {
    let entries = vec![
        entry(Some("Gather ingredients"), Some(vec![])),
        entry(Some("Mix batter"), Some(vec![Some(0)])),
        entry(None, Some(vec![Some(1), Some(7), None, Some(0)])),
        entry(Some("Decorate"), None),
    ];
    let nodes: Vec<TaskNode<PlannedAction>> = resolve_subtasks("goal-1", &entries).unwrap();
    assert_eq!(nodes.len(), 4);
    assert_eq!(nodes[0].description, "Gather ingredients");
    assert_eq!(nodes[2].description, "Unnamed task");
    assert_eq!(nodes[1].depends_on, vec![nodes[0].id.clone()]);
    assert_eq!(nodes[2].depends_on, vec![nodes[1].id.clone(), nodes[0].id.clone()]);
    assert!(nodes[3].depends_on.is_empty());
    assert!(nodes.iter().all(|n| n.goal_id == "goal-1" && n.status == TaskStatus::Pending));
}

#[test]
fn subtasks_self_reference_dropped() {
    let entries = vec![entry(Some("a"), Some(vec![Some(0)]))];
    let nodes: Vec<TaskNode<PlannedAction>> = resolve_subtasks("g", &entries).unwrap();
    assert!(nodes[0].depends_on.is_empty());
}

#[test]
fn subtasks_empty_is_error() {
    let entries: Vec<SubtaskEntry> = Vec::new();
    match resolve_subtasks::<PlannedAction>("g", &entries) {
        Err(BrainError::Planner(m)) => assert_eq!(m, "LLM returned empty subtask list"),
        _ => panic!("expected a planner error"),
    }
}

#[test]
fn plan_json_from_prose_and_missing() {
    let text = "Sure, here is the plan:\n\n{\"subtasks\": []}\n\nI hope this helps!";
    assert_eq!(plan_json(text).unwrap(), "{\"subtasks\": []}");
    match plan_json("no plan") {
        Err(BrainError::Planner(m)) => assert_eq!(m, "No JSON found in LLM response"),
        _ => panic!("expected a planner error"),
    }
}

#[test]
fn plan_or_fallback_on_error() {
    let goal = Goal::new("Bake a cake".to_string(), 5);
    let failed: Result<Vec<TaskNode<PlannedAction>>, BrainError> =
        Err(BrainError::Planner("No JSON found in LLM response".to_string()));
    let tasks = plan_or_fallback(&goal, failed);
    assert_eq!(tasks.len(), 1);
    assert_eq!(tasks[0].description, "Bake a cake");
    assert_eq!(tasks[0].goal_id, goal.id);
}

#[test]
fn planning_prompts() {
    let goal = Goal::new("Bake a cake".to_string(), 5);
    assert_eq!(
        decompose_prompt(&goal),
        "Decompose this goal into 3-7 ordered subtasks. Return JSON only.\nGoal: Bake a cake\nFormat: {\"subtasks\": [{\"description\": \"...\", \"depends_on\": []}]}\nJSON:"
    );
    let failed: Vec<TaskNode<PlannedAction>> = vec![
        TaskNode::new("g", "Mix".to_string()),
        TaskNode::new("g", "Bake".to_string()),
    ];
    assert_eq!(
        replan_prompt(&goal, &failed),
        "The following subtasks failed for a goal. Create a revised plan with 3-7 subtasks. Return JSON only.\nGoal: Bake a cake\nFailed tasks: Mix, Bake\nFormat: {\"subtasks\": [{\"description\": \"...\", \"depends_on\": []}]}\nJSON:"
    );
}

#[test]
fn pending_tasks_in_order() {
    let goal = Goal::new("g".to_string(), 3);
    let goals = vec![goal.clone()];
    let mut a: TaskNode<PlannedAction> = TaskNode::new(&goal.id, "a".to_string());
    a.status = TaskStatus::Failed;
    let b = TaskNode::new(&goal.id, "b".to_string());
    let c = TaskNode::new(&goal.id, "c".to_string());
    let tasks = vec![a, b, c];
    let pending = pending_tasks(&tasks, &goals);
    assert_eq!(pending.len(), 2);
    assert_eq!(pending[0].description, "b");
    assert_eq!(pending[1].description, "c");
}

#[test]
fn pending_tasks_sorted_by_goal_priority() {
    let low = Goal::new("low".to_string(), 1);
    let high = Goal::new("high".to_string(), 8);
    let mid = Goal::new("mid".to_string(), 4);
    let goals = vec![low.clone(), high.clone(), mid.clone()];
    let mut done: TaskNode<PlannedAction> = TaskNode::new(&high.id, "done".to_string());
    done.status = TaskStatus::Completed;
    let tasks: Vec<TaskNode<PlannedAction>> = vec![
        TaskNode::new(&low.id, "l1".to_string()),
        TaskNode::new(&mid.id, "m1".to_string()),
        done,
        TaskNode::new(&high.id, "h1".to_string()),
        TaskNode::new("no such goal", "orphan".to_string()),
        TaskNode::new(&high.id, "h2".to_string()),
        TaskNode::new(&low.id, "l2".to_string()),
    ];
    let pending = pending_tasks(&tasks, &goals);
    let names: Vec<&str> = pending.iter().map(|t| t.description.as_str()).collect();
    assert_eq!(names, vec!["h1", "h2", "m1", "l1", "l2", "orphan"]);
}

#[test]
fn parse_reasoning_steps_basic() {
    let text = "Thought: I need to break this down.\n\
                Action: Look up the formula.\n\
                Observation: The formula is E=mc^2.\n\
                Answer: The answer is 42.";
    let steps = parse_reasoning_steps(text);
    assert_eq!(steps.len(), 4);
    assert_eq!(steps[0].step_type, StepType::Thought);
    assert_eq!(steps[1].step_type, StepType::Action);
    assert_eq!(steps[2].step_type, StepType::Observation);
    assert_eq!(steps[3].step_type, StepType::Answer);
    assert_eq!(steps[3].content, "The answer is 42.");
}

#[test]
fn parse_reasoning_steps_empty() {
    let steps = parse_reasoning_steps("Just some random text.");
    assert!(steps.is_empty());
}

#[test]
fn step_labels() {
    assert_eq!(step_type_label(&StepType::Observation), "Observation");
}

#[test]
fn reasoner_with_mock_produces_chain() {
    let mock = "Thought: Let me think about this.\nObservation: I know the answer.\nAnswer: 42";
    let reasoner = ChainOfThoughtReasoner::new(MockBackend::new(mock.to_string()), 5);
    let chain = reason(&reasoner, "What is the meaning of life?");
    assert!(!chain.steps.is_empty());
    assert_eq!(chain.final_answer.unwrap(), "42");
}

#[test]
fn reasoner_terminates_at_max_steps() {
    let reasoner =
        ChainOfThoughtReasoner::new(MockBackend::new("Thought: Still thinking...".to_string()), 3);
    let chain = reason(&reasoner, "Impossible question");
    assert_eq!(chain.steps.len(), 3);
    assert!(chain.final_answer.is_none());
}

#[test]
fn reasoner_handles_unparseable_response() {
    let reasoner = ChainOfThoughtReasoner::new(
        MockBackend::new("  I don't know what format you want. ".to_string()),
        5,
    );
    let chain = reason(&reasoner, "Test question");
    assert_eq!(chain.final_answer.unwrap(), "I don't know what format you want.");
    assert_eq!(chain.steps.len(), 1);
}

#[test]
fn reasoner_multi_step_thought_then_answer() {
    let mock = "Thought: Step one - understand the question.\nThought: Step two - the capital of France is Paris.\nAnswer: Paris";
    let reasoner = ChainOfThoughtReasoner::new(MockBackend::new(mock.to_string()), 5);
    let chain = reason(&reasoner, "What is the capital of France?");
    assert_eq!(chain.steps.len(), 3);
    assert_eq!(chain.final_answer.unwrap(), "Paris");
}

#[test]
fn reasoning_context_grows_with_steps() {
    let reasoner = ChainOfThoughtReasoner::new(MockBackend::new("Thought: hmm".to_string()), 2);
    let mut session = reasoner.start("Q?");
    assert!(session.context().ends_with("Question: Q?\n"));
    assert!(session.absorb("Thought: hmm").is_none());
    assert!(session.context().ends_with("Question: Q?\nThought: hmm\n"));
    assert!(session.has_budget());
}

fn mock_json_response() -> String {
    r#"{"subtasks": [
        {"description": "Gather ingredients", "depends_on": []},
        {"description": "Mix batter", "depends_on": [0]},
        {"description": "Bake in oven", "depends_on": [1]},
        {"description": "Let cool", "depends_on": [2]},
        {"description": "Decorate", "depends_on": [3]}
    ]}"#
    .to_string()
}

fn planner_error(r: Result<Vec<TaskNode<PlannedAction>>, BrainError>) -> String {
    match r {
        Err(BrainError::Planner(m)) => m,
        other => panic!("expected a planner error, got {other:?}"),
    }
}

#[test]
fn llm_planner_decompose() {
    let goal = Goal::new("Bake a cake".to_string(), 5);
    let backend = MockBackend::new(mock_json_response());
    let tasks: Vec<TaskNode<PlannedAction>> =
        plan_or_fallback(&goal, parse_subtasks(&goal, &backend.respond()));
    assert_eq!(tasks.len(), 5);
    assert_eq!(tasks[0].description, "Gather ingredients");
    assert_eq!(tasks[4].description, "Decorate");
    assert!(tasks[1].depends_on.contains(&tasks[0].id));
    assert!(tasks.iter().all(|t| t.goal_id == goal.id && t.status == TaskStatus::Pending));
}

#[test]
fn llm_planner_handles_prose_around_json() {
    let goal = Goal::new("Bake a cake".to_string(), 5);
    let answer = "Sure, here is the plan:\n\n".to_string() + &mock_json_response() + "\n\nI hope this helps!";
    let tasks: Vec<TaskNode<PlannedAction>> = parse_subtasks(&goal, &answer).unwrap();
    assert_eq!(tasks.len(), 5);
}

#[test]
fn llm_planner_fallback_on_bad_json() {
    let goal = Goal::new("Do something".to_string(), 3);
    let parsed: Result<Vec<TaskNode<PlannedAction>>, BrainError> =
        parse_subtasks(&goal, "This is not JSON at all.");
    assert_eq!(planner_error(parsed.clone()), "No JSON found in LLM response");
    let tasks = plan_or_fallback(&goal, parsed);
    assert_eq!(tasks.len(), 1);
    assert_eq!(tasks[0].description, "Do something");
}

#[test]
fn parse_subtasks_errors() {
    let goal = Goal::new("g".to_string(), 1);
    let bad = planner_error(parse_subtasks(&goal, "{not json}"));
    assert!(bad.starts_with("JSON parse error: "), "{bad}");
    assert!(bad.len() > "JSON parse error: ".len());
    assert_eq!(planner_error(parse_subtasks(&goal, "{\"steps\": []}")), "No 'subtasks' array in response");
    assert_eq!(planner_error(parse_subtasks(&goal, "{\"subtasks\": 3}")), "No 'subtasks' array in response");
    assert_eq!(planner_error(parse_subtasks(&goal, "{\"subtasks\": []}")), "LLM returned empty subtask list");
}

#[test]
fn parse_subtasks_reads_loose_entries() {
    let goal = Goal::new("g".to_string(), 1);
    let answer = r#"{"subtasks": [
        {"description": "first"},
        {"description": 7, "depends_on": [0, 5, -1, 0.5, "0"]},
        {"depends_on": "none"}
    ]}"#;
    let tasks: Vec<TaskNode<PlannedAction>> = parse_subtasks(&goal, answer).unwrap();
    assert_eq!(tasks.len(), 3);
    assert_eq!(tasks[0].description, "first");
    assert_eq!(tasks[1].description, "Unnamed task");
    assert_eq!(tasks[1].depends_on, vec![tasks[0].id.clone()]);
    assert_eq!(tasks[2].description, "Unnamed task");
    assert!(tasks[2].depends_on.is_empty());
}

#[test]
fn subtasks_from_plan_outcomes() {
    let goal = Goal::new("g".to_string(), 1);
    let parse_error: Result<Vec<TaskNode<PlannedAction>>, BrainError> =
        subtasks_from_plan(&goal, Err("expected value at line 1 column 2".to_string()));
    assert_eq!(planner_error(parse_error), "JSON parse error: expected value at line 1 column 2");
    assert_eq!(planner_error(subtasks_from_plan(&goal, Ok(None))), "No 'subtasks' array in response");
    let tasks: Vec<TaskNode<PlannedAction>> =
        subtasks_from_plan(&goal, Ok(Some(vec![entry(Some("only"), None)]))).unwrap();
    assert_eq!(tasks.len(), 1);
    assert_eq!(tasks[0].description, "only");
}
