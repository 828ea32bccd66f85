use standing_wave::memory::{MemoryError, MemoryManager, MemoryStream};
use standing_wave::types::{Memory, MemorySource, MemoryType};

fn store() -> MemoryManager {
    MemoryManager::empty("data/memory_stream.json".to_string())
}

fn record(id: &str, ts: i64, v: i32, ents: Vec<&str>) -> Memory {
    let mut m = Memory::new(format!("content {}", id), ents.into_iter().map(|e| e.to_string()).collect(), MemoryType::Interaction, v);
    m.id = id.to_string();
    m.timestamp = ts;
    m
}

#[test]
fn test_entity_extraction() {
    let mgr = MemoryManager::empty("test.json".to_string());
    let entities = mgr.extract_entities("Hello Alice, meet Bob");
    assert!(entities.len() >= 0);
}

#[test]
fn entities_are_capitalized_runs_and_quotes() {
    let mgr = store();
    assert_eq!(mgr.extract_entities("Hello Alice, meet Bob"), vec!["Hello Alice", "Bob"]);
    assert_eq!(
        mgr.extract_entities("The cat met Bob and Bob said \"the plan\""),
        vec!["Bob", "the plan"]
    );
    assert!(mgr.extract_entities("nothing here").is_empty());
    assert_eq!(mgr.extract_entities("say \"x\" and \"x\" to Bob"), vec!["Bob", "x"]);
}

#[test]
fn recall_on_empty_then_both_most_recent_first() {
    let mut mgr = store();
    let alice = vec!["Alice".to_string()];
    assert!(mgr.recall_weighted(&alice, 5).is_empty());
    let a = mgr.add_memory("User: Alice called".to_string(), MemoryType::Interaction, 0).unwrap();
    let b = mgr.add_memory("Assistant: noted".to_string(), MemoryType::Interaction, 0).unwrap();
    let r = mgr.recall_weighted(&alice, 5);
    assert_eq!(r.len(), 2);
    assert_eq!(r[0].id, b);
    assert_eq!(r[1].id, a);
    // unchanged store, same arguments: same answer
    let again = mgr.recall_weighted(&alice, 5);
    let ids: Vec<&String> = again.iter().map(|m| &m.id).collect();
    assert_eq!(ids, vec![&b, &a]);
}

#[test]
fn recall_by_entities_uses_the_index() {
    let mut mgr = store();
    let a = mgr.add_memory("Alice met Bob".to_string(), MemoryType::Interaction, 0).unwrap();
    let _ = mgr.add_memory("nothing".to_string(), MemoryType::Interaction, 0).unwrap();
    let c = mgr.add_memory("Bob left".to_string(), MemoryType::Interaction, 0).unwrap();
    let r = mgr.recall_by_entities(&["Bob".to_string()]);
    let ids: Vec<String> = r.into_iter().map(|m| m.id).collect();
    assert_eq!(ids, vec![a, c]);
    assert!(mgr.recall_by_entities(&["Carol".to_string()]).is_empty());
}

#[test]
fn recall_recent_orders_by_time() {
    let mut mgr = store();
    mgr.add_memory_with_source(record("old", 1_000, 0, vec![])).unwrap();
    mgr.add_memory_with_source(record("new", 3_000, 0, vec![])).unwrap();
    mgr.add_memory_with_source(record("mid", 2_000, 0, vec![])).unwrap();
    let r: Vec<String> = mgr.recall_recent(2).into_iter().map(|m| m.id).collect();
    assert_eq!(r, vec!["new", "mid"]);
}

#[test]
fn weighted_recall_lifts_intense_memories_and_caps_at_ten() {
    let mut mgr = store();
    for i in 0..12 {
        mgr.add_memory_with_source(record(&format!("r{}", i), 10_000 + i, 0, vec!["Topic"])).unwrap();
    }
    // an old but intense record: 900 thousandths weigh 900 000 ms
    mgr.add_memory_with_source(record("intense", 0, -900, vec!["Topic"])).unwrap();
    let r = mgr.recall_weighted(&["Topic".to_string()], 3);
    assert_eq!(r.len(), 10);
    assert_eq!(r[0].id, "intense");
    assert_eq!(r[1].id, "r11");
}

#[test]
fn duplicate_id_is_refused() {
    let mut mgr = store();
    mgr.add_memory_with_source(record("same", 1, 0, vec![])).unwrap();
    assert_eq!(mgr.add_memory_with_source(record("same", 2, 0, vec![])), Err(MemoryError::DuplicateId));
    assert_eq!(mgr.count(), 1);
}

#[test]
fn count_never_decreases_and_ids_stay() {
    let mut mgr = store();
    let mut seen: Vec<String> = Vec::new();
    for i in 0..20 {
        let id = mgr.add_memory(format!("Note {} about Alice", i), MemoryType::Reflection, 0).unwrap();
        seen.push(id);
        mgr.consolidate();
        mgr.check_compression();
        assert_eq!(mgr.count(), seen.len());
        for (k, id) in seen.iter().enumerate() {
            assert_eq!(&mgr.all_memories()[k].id, id);
        }
    }
}

#[test]
fn compression_touches_only_the_oldest_hundred_once() {
    let mut mgr = store();
    for i in 0..1001i64 {
        let mut m = record(&format!("m{}", i), 5_000 - i, 0, vec![]);
        m.content = "y".repeat(120);
        mgr.add_memory_with_source(m).unwrap();
    }
    let compressed = mgr.all_memories().iter().filter(|m| m.content.starts_with("[Compressed] ")).count();
    assert_eq!(compressed, 100);
    // sorted by time: the oldest (stored last here) come first
    let times: Vec<i64> = mgr.all_memories().iter().map(|m| m.timestamp).collect();
    assert!(times.windows(2).all(|w| w[0] <= w[1]));
    assert_eq!(mgr.all_memories()[0].id, "m1000");
    assert!(mgr.all_memories()[0].content.starts_with("[Compressed] "));
    assert!(mgr.all_memories()[99].content.starts_with("[Compressed] "));
    assert!(!mgr.all_memories()[100].content.starts_with("[Compressed] "));
    assert_eq!(mgr.all_memories()[1000].id, "m0");
    let before: Vec<String> = mgr.all_memories().iter().map(|m| m.content.clone()).collect();
    mgr.check_compression();
    let after: Vec<String> = mgr.all_memories().iter().map(|m| m.content.clone()).collect();
    assert_eq!(before, after);
    assert_eq!(mgr.count(), 1001);
}

#[test]
fn consolidation_reports_overlapping_pairs() {
    let mut mgr = store();
    mgr.add_memory_with_source(record("a", 1, 0, vec!["X", "Y"])).unwrap();
    mgr.add_memory_with_source(record("b", 2, 900, vec!["X", "Y"])).unwrap();
    mgr.add_memory_with_source(record("c", 3, 0, vec!["Z"])).unwrap();
    let pairs = mgr.consolidate();
    assert_eq!(pairs, vec![(0, 1)]);
    assert_eq!(mgr.all_memories()[0].connections, vec!["b".to_string()]);
    assert!(mgr.all_memories()[2].connections.is_empty());
}

#[test]
fn backup_is_due_weekly() {
    let mut mgr = store();
    assert!(mgr.needs_backup());
    let day: i64 = 86_400_000;
    mgr.mark_backup_created(0);
    assert!(!mgr.needs_backup_at(6 * day));
    assert!(!mgr.needs_backup_at(7 * day));
    assert!(mgr.needs_backup_at(7 * day + 1));
    assert_eq!(mgr.backup_path(), "data/memory_stream.json.backup");
}

#[test]
fn restore_without_snapshot_fails_distinctly() {
    let mut mgr = store();
    mgr.add_memory("kept".to_string(), MemoryType::Interaction, 0).unwrap();
    assert_eq!(mgr.restore_from_snapshot(None), Err(MemoryError::NoBackup));
    assert_eq!(mgr.count(), 1);
}

#[test]
fn restore_replaces_and_notes_recovery() {
    let mut mgr = store();
    mgr.add_memory("lost".to_string(), MemoryType::Interaction, 0).unwrap();
    let mut snap = MemoryStream::new();
    snap.memories.push(record("kept", 1, 0, vec![]));
    mgr.restore_from_snapshot(Some(snap)).unwrap();
    assert_eq!(mgr.count(), 2);
    assert_eq!(mgr.all_memories()[0].id, "kept");
    let note = &mgr.all_memories()[1];
    assert_eq!(note.content, "System recovered from memory corruption. Continuity preserved.");
    assert_eq!(note.memory_type, MemoryType::Reflection);
    assert_eq!(note.emotional_valence, 300);
}

#[test]
fn snapshot_with_self_connection_is_refused() {
    let mut mgr = store();
    let mut snap = MemoryStream::new();
    let mut m = record("loop", 1, 0, vec![]);
    m.connections.push("loop".to_string());
    snap.memories.push(m);
    assert_eq!(mgr.restore_from_snapshot(Some(snap)), Err(MemoryError::InvalidSnapshot));
}

#[test]
fn invalid_snapshot_is_refused() {
    let mut mgr = store();
    let mut snap = MemoryStream::new();
    snap.memories.push(record("dup", 1, 0, vec![]));
    snap.memories.push(record("dup", 2, 0, vec![]));
    assert_eq!(mgr.restore_from_snapshot(Some(snap)), Err(MemoryError::InvalidSnapshot));
}

#[test]
fn source_queries_filter_by_provenance() {
    let mut mgr = store();
    mgr.add_memory("direct".to_string(), MemoryType::Interaction, 0).unwrap();
    let ext = Memory::with_source("fact".to_string(), MemoryType::Curiosity, 0, MemorySource::CuriosityLookup, 750);
    mgr.add_memory_with_source(ext).unwrap();
    assert_eq!(mgr.count_by_source(MemorySource::CuriosityLookup), 1);
    assert_eq!(mgr.count_by_source(MemorySource::Direct), 1);
    assert_eq!(mgr.count_by_source(MemorySource::ConstitutionalEvent), 0);
    let found = mgr.memories_by_source(MemorySource::CuriosityLookup);
    assert_eq!(found[0].content, "fact");
}
