use carokia::decision::{
    BehaviorDecisionEngine, BuiltinBehavior, EmergencyHalt, EmergencyResponseBehavior,
    ExecuteTask, Idle, ReactiveAvoidance, TickStep,
};
use carokia::events::{trigger_matches, EventDrivenBehavior, EventReaction, EventTrigger, PerceptCue};
use carokia::patrol::PatrolBehavior;
use carokia::planner::{Goal, PlannedAction, TaskNode};
use carokia::threat::ThreatDetectionBehavior;
use carokia::types::{Priority, TaskStatus, ThreatLevel};

fn person(name: Option<&str>) -> PerceptCue {
    PerceptCue::Person { name: name.map(|s| s.to_string()) }
}

fn audio(kind: &str) -> PerceptCue {
    PerceptCue::AudioEvent { kind: kind.to_string() }
}

#[test]
fn trigger_matches_person_detected() {
    let cues = vec![person(Some("Alice"))];
    assert!(trigger_matches(&EventTrigger::PersonDetected, &cues));
}

#[test]
fn trigger_matches_unknown_face() {
    let cues = vec![person(None)];
    assert!(trigger_matches(&EventTrigger::UnknownFaceDetected, &cues));
}

#[test]
fn trigger_does_not_match_known_face_for_unknown() {
    let cues = vec![person(Some("Bob"))];
    assert!(!trigger_matches(&EventTrigger::UnknownFaceDetected, &cues));
}

#[test]
fn trigger_matches_loud_noise() {
    let cues = vec![audio("loud_noise")];
    assert!(trigger_matches(&EventTrigger::LoudNoise, &cues));
}

#[test]
fn trigger_no_match_on_empty_state() {
    let cues: Vec<PerceptCue> = Vec::new();
    assert!(!trigger_matches(&EventTrigger::PersonDetected, &cues));
    assert!(!trigger_matches(&EventTrigger::LoudNoise, &cues));
}

#[test]
fn trigger_matches_custom_event() {
    let cues = vec![audio("doorbell")];
    assert!(trigger_matches(&EventTrigger::Custom("doorbell".into()), &cues));
}

#[test]
fn timer_trigger_matches_nothing() {
    let cues = vec![person(None), audio("timer"), PerceptCue::Other];
    assert!(!trigger_matches(&EventTrigger::TimerElapsed { name: "timer".into() }, &cues));
}

#[test]
fn event_behavior_picks_highest_priority_first_registered() {
    let mut behavior: EventDrivenBehavior<&str> = EventDrivenBehavior::new();
    behavior.add_reaction(EventReaction {
        trigger: EventTrigger::PersonDetected,
        action: "greet",
        priority: Priority::Normal,
    });
    behavior.add_reaction(EventReaction {
        trigger: EventTrigger::UnknownFaceDetected,
        action: "warn",
        priority: Priority::High,
    });
    behavior.add_reaction(EventReaction {
        trigger: EventTrigger::PersonDetected,
        action: "second",
        priority: Priority::High,
    });
    let cues = vec![person(None)];
    let chosen = behavior.evaluate(&cues).unwrap();
    assert_eq!(chosen, 1);
    assert_eq!(behavior.reaction(chosen).action, "warn");
    let known = vec![person(Some("Alice"))];
    assert_eq!(behavior.evaluate(&known), Some(2));
    let none: Vec<PerceptCue> = vec![audio("doorbell")];
    assert_eq!(behavior.evaluate(&none), None);
}

#[test]
fn event_behavior_priority_is_highest_reaction() {
    let mut behavior: EventDrivenBehavior<u8> = EventDrivenBehavior::new();
    assert_eq!(behavior.priority(), Priority::Low);
    behavior.add_reaction(EventReaction {
        trigger: EventTrigger::LoudNoise,
        action: 1,
        priority: Priority::Critical,
    });
    assert_eq!(behavior.priority(), Priority::Critical);
    assert_eq!(behavior.name(), "EventDriven");
}

#[test]
fn engine_orders_by_priority_stably() {
    let mut engine: BehaviorDecisionEngine<&str> = BehaviorDecisionEngine::new();
    engine.add_behavior("idle", Priority::Low);
    engine.add_behavior("task", Priority::Normal);
    engine.add_behavior("halt", Priority::Critical);
    engine.add_behavior("task2", Priority::Normal);
    assert_eq!(engine.len(), 4);
    assert_eq!(*engine.behavior_at(0), "halt");
    assert_eq!(*engine.behavior_at(1), "task");
    assert_eq!(*engine.behavior_at(2), "task2");
    assert_eq!(*engine.behavior_at(3), "idle");
    assert_eq!(engine.priority_at(3), Priority::Low);
}

#[test]
fn engine_with_defaults_order() {
    let engine = BehaviorDecisionEngine::with_defaults();
    assert_eq!(engine.len(), 4);
    assert_eq!(*engine.behavior_at(0), BuiltinBehavior::EmergencyHalt);
    assert_eq!(*engine.behavior_at(1), BuiltinBehavior::ReactiveAvoidance);
    assert_eq!(*engine.behavior_at(2), BuiltinBehavior::ExecuteTask);
    assert_eq!(*engine.behavior_at(3), BuiltinBehavior::Idle);
}

#[test]
fn builtin_behavior_names_and_priorities() {
    assert_eq!(EmergencyHalt.name(), "EmergencyHalt");
    assert_eq!(EmergencyHalt.priority(), Priority::Critical);
    assert_eq!(ReactiveAvoidance.name(), "ReactiveAvoidance");
    assert_eq!(ReactiveAvoidance.priority(), Priority::High);
    assert_eq!(ExecuteTask.priority(), Priority::Normal);
    assert_eq!(Idle.priority(), Priority::Low);
}

#[test]
fn reactive_avoidance_at_medium_distance_only() {
    assert!(ReactiveAvoidance.fires(true, false));
    assert!(!ReactiveAvoidance.fires(true, true));
    assert!(!ReactiveAvoidance.fires(false, false));
}

#[test]
fn execute_task_picks_first_pending() {
    let goal = Goal::new("g".to_string(), 5);
    let goals = vec![goal.clone()];
    let mut done: TaskNode<PlannedAction> = TaskNode::new(&goal.id, "done".to_string());
    done.status = TaskStatus::Completed;
    let first = TaskNode::new(&goal.id, "first".to_string()).with_action(PlannedAction::Halt);
    let second = TaskNode::new(&goal.id, "second".to_string()).with_action(PlannedAction::MoveForward);
    let tasks = vec![done, first, second];
    assert_eq!(ExecuteTask.next_action(&tasks, &goals), Some(&PlannedAction::Halt));
    let no_action: Vec<TaskNode<PlannedAction>> = vec![
        TaskNode::new(&goal.id, "bare".to_string()),
        TaskNode::new(&goal.id, "x".to_string()).with_action(PlannedAction::Halt),
    ];
    assert_eq!(ExecuteTask.next_action(&no_action, &goals), None);
    let empty: Vec<TaskNode<PlannedAction>> = Vec::new();
    assert_eq!(ExecuteTask.next_action(&empty, &goals), None);
}

#[test]
fn execute_task_prefers_the_higher_priority_goal() {
    let low = Goal::new("tidy up".to_string(), 2);
    let high = Goal::new("answer the door".to_string(), 9);
    let goals = vec![low.clone(), high.clone()];
    let tasks = vec![
        TaskNode::new(&low.id, "sweep".to_string()).with_action(PlannedAction::MoveForward),
        TaskNode::new(&high.id, "go to door".to_string()).with_action(PlannedAction::Halt),
    ];
    assert_eq!(ExecuteTask.next_action(&tasks, &goals), Some(&PlannedAction::Halt));
}

#[test]
fn no_threat_no_response() {
    let behavior = EmergencyResponseBehavior::new();
    assert!(!behavior.responds_to(ThreatLevel::NoThreat));
}

#[test]
fn suspicious_no_response_by_default() {
    let behavior = EmergencyResponseBehavior::default();
    assert!(!behavior.responds_to(ThreatLevel::Suspicious));
    assert!(behavior.responds_to(ThreatLevel::Confirmed));
}

#[test]
fn custom_trigger_at_suspicious() {
    let behavior = EmergencyResponseBehavior::with_trigger(ThreatLevel::Suspicious);
    assert!(behavior.responds_to(ThreatLevel::Suspicious));
    assert!(behavior.responds_to(ThreatLevel::Confirmed));
    assert!(!behavior.responds_to(ThreatLevel::NoThreat));
    assert_eq!(behavior.trigger_level(), ThreatLevel::Suspicious);
}

#[test]
fn custom_trigger_none_always_responds() {
    let behavior = EmergencyResponseBehavior::with_trigger(ThreatLevel::NoThreat);
    assert!(behavior.responds_to(ThreatLevel::NoThreat));
}

#[test]
fn unknown_person_close_becomes_suspicious() {
    let mut detector = ThreatDetectionBehavior::new(5.0, 3);
    let alert = detector.observe(true);
    assert_eq!(alert.as_deref(), Some("Caution: Unknown person detected nearby."));
    assert_eq!(detector.threat_level(), ThreatLevel::Suspicious);
    assert_eq!(detector.tick_counter(), 1);
}

#[test]
fn no_person_no_threat() {
    let mut detector = ThreatDetectionBehavior::new(5.0, 3);
    assert_eq!(detector.observe(false), None);
    assert_eq!(detector.threat_level(), ThreatLevel::NoThreat);
    assert_eq!(detector.tick_counter(), 0);
}

#[test]
fn sustained_detection_confirms_threat() {
    let mut detector = ThreatDetectionBehavior::new(5.0, 3);
    detector.observe(true);
    detector.observe(true);
    assert_eq!(detector.threat_level(), ThreatLevel::Suspicious);
    let alert = detector.observe(true).unwrap();
    assert!(alert.contains("confirmed"));
    assert_eq!(detector.threat_level(), ThreatLevel::Confirmed);
}

#[test]
fn counter_decays_without_person() {
    let mut detector = ThreatDetectionBehavior::new(5.0, 3);
    detector.observe(true);
    detector.observe(true);
    assert_eq!(detector.tick_counter(), 2);
    detector.observe(false);
    assert_eq!(detector.tick_counter(), 1);
    assert_eq!(detector.threat_level(), ThreatLevel::Suspicious);
    detector.observe(false);
    assert_eq!(detector.tick_counter(), 0);
    assert_eq!(detector.threat_level(), ThreatLevel::NoThreat);
}

#[test]
fn reset_clears_state() {
    let mut detector = ThreatDetectionBehavior::new(5.0, 1);
    detector.observe(true);
    assert_eq!(detector.threat_level(), ThreatLevel::Confirmed);
    detector.reset();
    assert_eq!(detector.threat_level(), ThreatLevel::NoThreat);
    assert_eq!(detector.tick_counter(), 0);
    assert_eq!(detector.sustained_ticks(), 1);
    assert_eq!(*detector.alert_distance(), 5.0);
    assert_eq!(detector.name(), "ThreatDetection");
    assert_eq!(detector.priority(), Priority::High);
}

#[test]
fn patrol_new_and_target() {
    let patrol = PatrolBehavior::new(vec![(1.0, 2.0), (3.0, 4.0), (5.0, 6.0)], 0.5);
    assert_eq!(*patrol.current_target(), (1.0, 2.0));
    assert_eq!(patrol.current_index(), 0);
    assert_eq!(patrol.waypoint_count(), 3);
}

#[test]
fn patrol_advance_cycles() {
    let mut patrol = PatrolBehavior::new(vec![(1.0, 2.0), (3.0, 4.0)], 0.5);
    assert_eq!(patrol.current_index(), 0);

    patrol.advance();
    assert_eq!(patrol.current_index(), 1);
    assert_eq!(*patrol.current_target(), (3.0, 4.0));

    patrol.advance();
    assert_eq!(patrol.current_index(), 0);
    assert_eq!(*patrol.current_target(), (1.0, 2.0));
}

#[test]
fn patrol_threshold_builder() {
    let patrol = PatrolBehavior::new(vec![(5.0, 5.0)], 0.5).with_threshold(1.0);
    assert_eq!(*patrol.arrival_threshold(), 1.0);
    assert_eq!(patrol.priority(), Priority::Normal);
    assert_eq!(patrol.name(), "PatrolBehavior");
}

#[test]
fn tick_steps_stop_at_first_fired() {
    let engine = BehaviorDecisionEngine::with_defaults();
    assert_eq!(engine.first_step(), TickStep::Evaluate(0));
    assert_eq!(engine.after_evaluation(0, false), TickStep::Evaluate(1));
    assert_eq!(engine.after_evaluation(1, true), TickStep::Fire(1));
    assert_eq!(engine.after_evaluation(3, false), TickStep::Done);
    let empty: BehaviorDecisionEngine<BuiltinBehavior> = BehaviorDecisionEngine::new();
    assert_eq!(empty.first_step(), TickStep::Done);
}
