use carokia::memory::{
    entry_from_row, tags_column, kind_to_str, recall_sql, str_to_kind, MemoryEntry, MemoryQuery, MockEmbedder,
    OllamaEmbedder, ReflectionEngine, ShortTermMemory,
};
use carokia::types::{MemoryKind, Timestamp};

fn entry(kind: MemoryKind, content: &str, importance: f64) -> MemoryEntry<f64> {
    MemoryEntry::new(kind, content.to_string(), importance)
}

fn all_ok(mem: &ShortTermMemory<f64>) -> Vec<bool> {
    vec![true; mem.len()]
}

#[test]
fn store_and_recall() {
    let mut mem = ShortTermMemory::new(10);
    mem.store(entry(MemoryKind::Fact, "sky is blue", 0.5));
    let query = MemoryQuery::default();
    let results = mem.recall(&query, &all_ok(&mem));
    assert_eq!(results.len(), 1);
    assert_eq!(results[0].content, "sky is blue");
}

#[test]
fn capacity_limit_evicts_oldest() {
    let mut mem = ShortTermMemory::new(2);
    mem.store(entry(MemoryKind::Fact, "a", 0.1));
    mem.store(entry(MemoryKind::Fact, "b", 0.2));
    mem.store(entry(MemoryKind::Fact, "c", 0.3));
    assert_eq!(mem.len(), 2);
    let results = mem.recall(&MemoryQuery::default(), &all_ok(&mem));
    assert!(results.iter().all(|e| e.content != "a"));
    assert_eq!(mem.entry(0).content, "b");
    assert_eq!(mem.entry(1).content, "c");
}

#[test]
fn zero_capacity_keeps_latest_only() {
    let mut mem = ShortTermMemory::new(0);
    mem.store(entry(MemoryKind::Fact, "a", 0.1));
    mem.store(entry(MemoryKind::Fact, "b", 0.1));
    assert_eq!(mem.len(), 1);
    assert_eq!(mem.entry(0).content, "b");
}

#[test]
fn forget_removes_entry() {
    let mut mem = ShortTermMemory::new(10);
    let e = entry(MemoryKind::Event, "boom", 1.0);
    let id = e.id.clone();
    mem.store(e);
    assert!(mem.forget(&id));
    assert!(mem.is_empty());
    assert!(!mem.forget(&id));
}

#[test]
fn query_by_kind() {
    let mut mem = ShortTermMemory::new(10);
    mem.store(entry(MemoryKind::Fact, "fact1", 0.5));
    mem.store(entry(MemoryKind::Event, "event1", 0.5));
    let query = MemoryQuery { kind: Some(MemoryKind::Fact), ..Default::default() };
    let results = mem.recall(&query, &all_ok(&mem));
    assert_eq!(results.len(), 1);
    assert_eq!(results[0].kind, MemoryKind::Fact);
}

#[test]
fn recall_most_recent_first_with_limit_and_tag() {
    let mut mem: ShortTermMemory<f64> = ShortTermMemory::new(10);
    let mut a = entry(MemoryKind::Fact, "old", 0.9).with_tags(vec!["x".to_string()]);
    a.timestamp = Timestamp(10);
    let mut b = entry(MemoryKind::Fact, "new", 0.1).with_tags(vec!["x".to_string()]);
    b.timestamp = Timestamp(30);
    let mut c = entry(MemoryKind::Fact, "middle", 0.5);
    c.timestamp = Timestamp(20);
    mem.store(a);
    mem.store(b);
    mem.store(c);
    let order = mem.recall_order(&MemoryQuery::default(), &all_ok(&mem));
    assert_eq!(order, vec![1, 2, 0]);
    let limited = MemoryQuery { limit: Some(2), ..Default::default() };
    assert_eq!(mem.recall_order(&limited, &all_ok(&mem)), vec![1, 2]);
    let tagged = MemoryQuery { tag: Some("x".to_string()), ..Default::default() };
    assert_eq!(mem.recall_order(&tagged, &all_ok(&mem)), vec![1, 0]);
    // importance filtering is the caller's test, one flag per entry
    let flags: Vec<bool> = (0..mem.len()).map(|i| mem.entry(i).importance >= 0.5).collect();
    assert_eq!(mem.recall_order(&MemoryQuery::default(), &flags), vec![2, 0]);
}

#[test]
fn kind_names_round_trip() {
    for k in [
        MemoryKind::Perception,
        MemoryKind::Conversation,
        MemoryKind::Goal,
        MemoryKind::Event,
        MemoryKind::Fact,
    ] {
        assert_eq!(str_to_kind(kind_to_str(&k)), k);
    }
    assert_eq!(kind_to_str(&MemoryKind::Perception), "perception");
    assert_eq!(str_to_kind("nonsense"), MemoryKind::Event);
}

#[test]
fn recall_sql_statement() {
    let q: MemoryQuery<f64> = MemoryQuery {
        kind: Some(MemoryKind::Fact),
        tag: None,
        min_importance: Some(0.5),
        limit: Some(3),
    };
    assert_eq!(
        recall_sql(&q, false),
        "SELECT id, timestamp_ms, kind, content, tags, importance, embedding FROM memories WHERE 1=1 AND kind = ? AND importance >= ? ORDER BY importance DESC, timestamp_ms DESC LIMIT 3"
    );
    assert_eq!(
        recall_sql(&q, true),
        "SELECT id, timestamp_ms, kind, content, tags, importance, embedding FROM memories WHERE 1=1 AND kind = ? AND importance >= ?"
    );
    let d: MemoryQuery<f64> = MemoryQuery::default();
    assert_eq!(
        recall_sql(&d, false),
        "SELECT id, timestamp_ms, kind, content, tags, importance, embedding FROM memories WHERE 1=1 ORDER BY importance DESC, timestamp_ms DESC"
    );
}

#[test]
fn should_reflect_at_interval() {
    let engine = ReflectionEngine::new("backend", 5);
    assert!(!engine.should_reflect(0));
    assert!(!engine.should_reflect(1));
    assert!(!engine.should_reflect(3));
    assert!(engine.should_reflect(5));
    assert!(engine.should_reflect(10));
    assert!(engine.should_reflect(15));
    assert!(!engine.should_reflect(7));
}

#[test]
fn should_reflect_interval_one() {
    let engine = ReflectionEngine::new("backend", 1);
    assert!(!engine.should_reflect(0));
    assert!(engine.should_reflect(1));
    assert!(engine.should_reflect(2));
    assert!(engine.should_reflect(100));
}

#[test]
fn should_reflect_interval_zero_never() {
    let engine = ReflectionEngine::new("backend", 0);
    assert!(!engine.should_reflect(0));
    assert!(!engine.should_reflect(3));
}

#[test]
fn reflection_prompt_and_insight() {
    let engine = ReflectionEngine::new("backend", 5);
    let memories = vec![
        entry(MemoryKind::Perception, "Obstacle at 2m", 0.5),
        entry(MemoryKind::Event, "Avoided obstacle", 0.7),
    ];
    let prompt = engine.reflection_prompt(&memories);
    assert!(prompt.starts_with("You are an introspective AI agent."));
    assert!(prompt.contains("Recent memories:\n1. [Perception] Obstacle at 2m\n2. [Event] Avoided obstacle\n"));
    assert!(prompt.ends_with("\nInsight:"));
    let insight = engine.insight_entry("  I notice a pattern.\n", 0.8);
    assert_eq!(insight.kind, MemoryKind::Fact);
    assert_eq!(insight.content, "I notice a pattern.");
    assert_eq!(insight.tags, vec!["reflection".to_string(), "insight".to_string()]);
    assert_eq!(insight.importance, 0.8);
    let empty: Vec<MemoryEntry<f64>> = Vec::new();
    assert!(engine.reflection_prompt(&empty).ends_with("Recent memories:\n\nInsight:"));
}

#[test]
fn mock_embedder_hash_and_seeds() {
    let e = MockEmbedder;
    assert_eq!(e.text_hash("ab"), 97 + 98);
    let s1 = e.seeds("hello world");
    let s2 = e.seeds("hello world");
    assert_eq!(s1.len(), 384);
    assert_eq!(s1, s2);
    let h = e.text_hash("hello world");
    assert_eq!(s1[0], h);
    assert_eq!(s1[2], h.wrapping_mul(3));
    assert_ne!(s1, e.seeds("goodbye world"));
}

#[test]
fn ollama_embedder_url() {
    let e = OllamaEmbedder::new("http://localhost", 11434, "nomic-embed-text");
    assert_eq!(e.embeddings_url(), "http://localhost:11434/api/embeddings");
    assert_eq!(e.model, "nomic-embed-text");
}

#[test]
fn row_decodes_into_entry() {
    let e: MemoryEntry<f64> =
        entry_from_row("id1".to_string(), 42, "fact", "sky is blue".to_string(), "[\"color\",\"sky\"]", 0.7);
    assert_eq!(e.id, "id1");
    assert_eq!(e.timestamp, Timestamp(42));
    assert_eq!(e.kind, MemoryKind::Fact);
    assert_eq!(e.content, "sky is blue");
    assert_eq!(e.tags, vec!["color".to_string(), "sky".to_string()]);
    assert_eq!(e.importance, 0.7);
    let odd: MemoryEntry<f64> = entry_from_row("id2".to_string(), -1, "mystery", String::new(), "not json", 0.0);
    assert_eq!(odd.timestamp, Timestamp(u64::MAX));
    assert_eq!(odd.kind, MemoryKind::Event);
    assert!(odd.tags.is_empty());
}

#[test]
fn tags_column_round_trips() {
    let mut e = entry(MemoryKind::Fact, "tagged", 0.5);
    e.tags = vec!["color".to_string(), "a \"quote\"".to_string()];
    let column = tags_column(&e).unwrap();
    assert_eq!(column, "[\"color\",\"a \\\"quote\\\"\"]");
    let back: MemoryEntry<f64> = entry_from_row(e.id.clone(), 0, "fact", e.content.clone(), &column, 0.5);
    assert_eq!(back.tags, e.tags);
    assert_eq!(tags_column(&entry(MemoryKind::Event, "none", 0.1)).unwrap(), "[]");
}

#[test]
fn timestamp_from_clock_reading() {
    assert_eq!(Timestamp::from_epoch_millis(None), Timestamp(0));
    assert_eq!(Timestamp::from_epoch_millis(Some(1234)), Timestamp(1234));
    assert_eq!(Timestamp::from_epoch_millis(Some((1u128 << 64) + 5)), Timestamp(5));
}
