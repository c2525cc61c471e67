use carokia::events::EventTrigger;
use carokia::face::extract_expression;
use carokia::language::{default_tools, LlmProviderConfig, SystemTts};
use carokia::perception::{extract_objects, FfmpegCamera, VisionConfig};
use carokia::planner::extract_json;
use carokia::types::{ThreatLevel, Timestamp};

#[test]
fn timestamp_now_is_positive() {
    let ts = Timestamp::now();
    assert!(ts.0 > 0);
}

#[test]
fn event_trigger_equality() {
    assert_eq!(EventTrigger::PersonDetected, EventTrigger::PersonDetected);
    assert_ne!(EventTrigger::PersonDetected, EventTrigger::LoudNoise);
    assert_eq!(
        EventTrigger::TimerElapsed { name: "a".into() },
        EventTrigger::TimerElapsed { name: "a".into() }
    );
    assert_ne!(
        EventTrigger::TimerElapsed { name: "a".into() },
        EventTrigger::TimerElapsed { name: "b".into() }
    );
    assert_eq!(
        EventTrigger::Custom("x".into()),
        EventTrigger::Custom("x".into())
    );
}

#[test]
fn threat_level_ordering() {
    assert!(ThreatLevel::NoThreat < ThreatLevel::Suspicious);
    assert!(ThreatLevel::Suspicious < ThreatLevel::Confirmed);
    assert!(ThreatLevel::NoThreat < ThreatLevel::Confirmed);
}

#[test]
fn threat_level_display() {
    assert_eq!(ThreatLevel::NoThreat.label(), "NONE");
    assert_eq!(ThreatLevel::Suspicious.label(), "SUSPICIOUS");
    assert_eq!(ThreatLevel::Confirmed.label(), "CONFIRMED");
}

#[test]
fn threat_level_equality() {
    assert_eq!(ThreatLevel::NoThreat, ThreatLevel::NoThreat);
    assert_ne!(ThreatLevel::NoThreat, ThreatLevel::Confirmed);
}

#[test]
fn default_config_is_ollama() {
    let config = LlmProviderConfig::default();
    assert!(matches!(config, LlmProviderConfig::Ollama { .. }));
}

#[test]
fn list_descriptions_formats_tools() {
    let registry = default_tools();
    let desc = registry.list_descriptions();
    assert!(desc.contains("current_time"));
    assert!(desc.contains("calculator"));
    assert!(desc.contains("shell"));
}

#[test]
fn system_tts_can_be_constructed() {
    let _tts = SystemTts::new();
}

#[test]
fn system_tts_default_works() {
    let _tts = SystemTts::default();
}

#[test]
fn ffmpeg_camera_builder() {
    let cam = FfmpegCamera::new(0)
        .with_resolution(1280, 720)
        .with_input_format("v4l2");
    assert_eq!(cam.width, 1280);
    assert_eq!(cam.height, 720);
    assert_eq!(cam.input_format, "v4l2");
}

#[test]
fn extract_expression_works() {
    assert_eq!(
        extract_expression("Face 1: young adult, Expression: smiling, cheerful"),
        "smiling"
    );
    assert_eq!(
        extract_expression("Face 1: no expression tag here"),
        "unknown"
    );
}

#[test]
fn extract_objects_from_description() {
    let desc = "A room with furniture.\nObjects: chair, table, lamp, window";
    let objects = extract_objects(desc);
    assert_eq!(objects, vec!["chair", "table", "lamp", "window"]);
}

#[test]
fn vision_config_defaults() {
    let config = VisionConfig::default();
    assert_eq!(config.ollama_host, "http://localhost");
    assert_eq!(config.ollama_port, 11434);
    assert_eq!(config.model, "llava");
}

#[test]
fn extract_json_from_prose() {
    let text = "Here is the answer: {\"key\": \"value\"} that's it.";
    let json = extract_json(text).unwrap();
    assert_eq!(json, "{\"key\": \"value\"}");
}

#[test]
fn extract_json_nested() {
    let text = r#"{"outer": {"inner": 1}}"#;
    let json = extract_json(text).unwrap();
    assert_eq!(json, text);
}

#[test]
fn extract_json_none_when_missing() {
    let text = "No JSON here!";
    assert!(extract_json(text).is_none());
}
