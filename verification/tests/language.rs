use carokia::conversation::ConversationManager;
use carokia::language::{
    default_mock_response, default_ollama_host, default_ollama_model, default_ollama_port,
    default_tools, is_allowed_command, search_memories, BuiltinTool, CalculatorTool,
    CurrentTimeTool, LlmProviderConfig, MockBackend, ShellCommandTool, SystemTts, ToolRegistry,
};
use carokia::types::BrainError;

fn chat(mgr: &mut ConversationManager<MockBackend>, message: &str) -> String {
    let _prompt = mgr.begin_chat(message);
    let reply = mgr.backend().respond();
    mgr.finish_chat(&reply);
    reply
}

#[test]
fn mock_backend_returns_canned() {
    let backend = MockBackend::new("Hello, I am a robot.".to_string());
    assert_eq!(backend.respond(), "Hello, I am a robot.");
}

#[test]
fn conversation_manager_tracks_history() {
    let mut mgr = ConversationManager::new(MockBackend::new("Sure thing!".to_string()), 20);
    let reply = chat(&mut mgr, "Do something");
    assert_eq!(reply, "Sure thing!");
    assert_eq!(mgr.history().len(), 2);
    assert_eq!(mgr.history()[0].role, "user");
    assert_eq!(mgr.history()[1].content, "Sure thing!");
}

#[test]
fn conversation_manager_trims_history() {
    let mut mgr = ConversationManager::new(MockBackend::new("ok".to_string()), 4);
    for i in 0..5 {
        chat(&mut mgr, &format!("msg {i}"));
    }
    assert_eq!(mgr.history().len(), 4);
    assert_eq!(mgr.history()[0].content, "msg 3");
    assert_eq!(mgr.history()[3].content, "ok");
}

#[test]
fn conversation_manager_with_system_prompt() {
    let mut mgr = ConversationManager::with_system_prompt(
        MockBackend::new("I am Carokia!".to_string()),
        20,
        "You are a helpful robot.".to_string(),
    );
    let prompt = mgr.begin_chat("Who are you?");
    assert_eq!(prompt, "system: You are a helpful robot.\nuser: Who are you?");
    mgr.finish_chat("I am Carokia!");
    assert_eq!(mgr.history().len(), 2);
    assert_eq!(mgr.system_prompt(), Some("You are a helpful robot."));
}

#[test]
fn conversation_manager_without_system_prompt_has_none() {
    let mgr = ConversationManager::new(MockBackend::new("ok".to_string()), 20);
    assert!(mgr.system_prompt().is_none());
    assert_eq!(mgr.prompt(), "");
}

#[test]
fn conversation_limit_zero_keeps_nothing() {
    let mut mgr = ConversationManager::new(MockBackend::new("ok".to_string()), 0);
    mgr.add_turn("user", "hi");
    assert!(mgr.history().is_empty());
}

#[test]
fn provider_defaults() {
    assert_eq!(default_ollama_host(), "http://localhost");
    assert_eq!(default_ollama_port(), 11434);
    assert_eq!(default_ollama_model(), "gemma3:latest");
    assert_eq!(default_mock_response(), "Mock response");
    match LlmProviderConfig::default() {
        LlmProviderConfig::Ollama { host, port, model } => {
            assert_eq!(host, "http://localhost");
            assert_eq!(port, 11434);
            assert_eq!(model, "gemma3:latest");
        }
        _ => panic!("expected the Ollama provider"),
    }
}

#[test]
fn tts_runs_say() {
    assert_eq!(SystemTts::new().program(), "say");
}

#[test]
fn tool_registry_finds_tool() {
    let registry = default_tools();
    assert_eq!(registry.len(), 3);
    assert_eq!(registry.find("current_time"), Some(&BuiltinTool::CurrentTime));
    assert_eq!(registry.find("calculator"), Some(&BuiltinTool::Calculator));
    assert_eq!(registry.find("shell"), Some(&BuiltinTool::Shell));
    assert!(registry.find("nonexistent").is_none());
}

#[test]
fn tool_registry_execute_not_found() {
    let registry = default_tools();
    match registry.lookup("nonexistent") {
        Err(BrainError::Language(m)) => assert_eq!(m, "Tool not found: nonexistent"),
        _ => panic!("expected a language error"),
    }
}

#[test]
fn tool_registry_first_registration_wins() {
    let mut registry: ToolRegistry<u8> = ToolRegistry::new();
    assert!(registry.is_empty());
    registry.register("t", "first", 1);
    registry.register("t", "second", 2);
    assert_eq!(registry.find("t"), Some(&1));
    assert_eq!(registry.list_descriptions(), "- t: first\n- t: second");
}

#[test]
fn register_extends_listing_and_leaves_other_lookups() {
    let mut registry: ToolRegistry<u8> = ToolRegistry::new();
    registry.register("a", "alpha", 1);
    assert_eq!(registry.list_descriptions(), "- a: alpha");
    let listing = registry.list_descriptions();
    registry.register("b", "beta", 2);
    assert_eq!(registry.list_descriptions(), format!("{listing}\n- b: beta"));
    assert_eq!(registry.find("b"), Some(&2));
    assert_eq!(registry.find("a"), Some(&1));
    assert_eq!(registry.find("c"), None);
}

#[test]
fn list_descriptions_exact() {
    let registry = default_tools();
    assert_eq!(
        registry.list_descriptions(),
        "- current_time: Returns the current date and time\n- calculator: Evaluates simple arithmetic expressions (e.g. '2+2', '10*3-5')\n- shell: Runs allowlisted shell commands: ls, pwd, date, uptime, whoami"
    );
    assert_eq!(CurrentTimeTool.name(), "current_time");
    assert_eq!(CalculatorTool.name(), "calculator");
}

#[test]
fn shell_tool_rejects_disallowed() {
    match ShellCommandTool.command_for("rm -rf /") {
        Err(BrainError::Language(m)) => {
            assert_eq!(m, "Command 'rm' is not allowed. Allowed: ls, pwd, date, uptime, whoami")
        }
        _ => panic!("expected a refusal"),
    }
}

#[test]
fn shell_tool_rejects_empty() {
    match ShellCommandTool.command_for("   ") {
        Err(BrainError::Language(m)) => assert_eq!(m, "Empty command"),
        _ => panic!("expected a refusal"),
    }
}

#[test]
fn shell_tool_runs_allowed() {
    let cmd = ShellCommandTool.command_for("  ls -la\t/tmp ").unwrap();
    assert_eq!(cmd.program, "ls");
    assert_eq!(cmd.args, vec!["-la".to_string(), "/tmp".to_string()]);
    assert!(is_allowed_command("whoami"));
    assert!(!is_allowed_command("sudo"));
}

#[test]
fn memory_search_tool_finds_matches() {
    let memories = vec![
        "The sky is blue".to_string(),
        "Clouds are fluffy".to_string(),
        "The SKY at night".to_string(),
    ];
    let result = search_memories(&memories, "sky");
    assert_eq!(result, "- The sky is blue\n- The SKY at night");
}

#[test]
fn memory_search_tool_no_matches() {
    let memories = vec!["hello world".to_string()];
    assert_eq!(search_memories(&memories, "xyz"), "No matching memories found.");
}
