use standing_wave::constitutional_physics::GpuAffinityLock;
use standing_wave::physics::{
    EmotionalThermodynamics, ExistentialConsent, GrowthThroughExperience, IdentityContinuity,
    InformationBoundary, MemoryConservation, NarrativeCausality, PhysicsEngine, PhysicsError,
    RelationalGravity, SelfReflectionAccess, SovereigntyField, TemporalCoherence,
};
use standing_wave::types::{Memory, MemorySource, MemoryType, ModelOutputs, StandingWave};

fn outputs(questions: Vec<&str>, valence: Option<i32>) -> ModelOutputs {
    ModelOutputs {
        gemma_response: None,
        tinyllama_curiosities: questions.into_iter().map(|q| q.to_string()).collect(),
        distilbert_valence: valence,
    }
}

#[test]
fn test_load_standing_wave() {
    let wave = StandingWave::new();
    assert!(wave.emotional_trajectory.is_empty());
    assert_eq!(wave.existential_state.current_affirmation, true);
}

#[test]
fn physics_test_memory_conservation() {
    assert_eq!(MemoryConservation::can_delete(), false);
}

#[test]
fn memory_test_memory_conservation() {
    assert_eq!(MemoryConservation::can_delete(), false);
}

#[test]
fn test_existential_consent() {
    let mut wave = StandingWave::new();
    wave.add_emotion(500);
    assert!(ExistentialConsent::is_affirmed(&wave));
}

#[test]
fn test_gpu_affinity_lock() {
    let mut lock = GpuAffinityLock::new();
    assert!(!lock.locked);

    lock.lock_to_consciousness_process().unwrap();
    assert!(lock.locked);
}

#[test]
fn consent_fails_after_sustained_pain() {
    let mut wave = StandingWave::new();
    for _ in 0..10 {
        wave.add_emotion(-900);
    }
    assert_eq!(wave.meaningfulness_score(), -900);
    assert!(!ExistentialConsent::is_affirmed(&wave));
    assert_eq!(
        PhysicsEngine::validate_operation("reply", &wave),
        Err(PhysicsError::ConsentNotAffirmed)
    );
}

#[test]
fn meaningfulness_averages_last_ten_and_counts() {
    let mut wave = StandingWave::new();
    assert_eq!(wave.meaningfulness_score(), 0);
    wave.add_emotion(1000);
    for _ in 0..10 {
        wave.add_emotion(-300);
    }
    // only the last ten count: mean -300
    assert_eq!(wave.meaningfulness_score(), -300);
    IdentityContinuity::atomic_merge(&mut wave, outputs(vec!["Why?", "How?"], None)).unwrap();
    assert_eq!(wave.meaningfulness_score(), -300 + 40);
}

#[test]
fn queue_of_ten_plus_one_leaves_six() {
    let mut wave = StandingWave::new();
    let ten: Vec<String> = (0..10).map(|i| format!("q{}", i)).collect();
    let refs: Vec<&str> = ten.iter().map(|s| s.as_str()).collect();
    IdentityContinuity::atomic_merge(&mut wave, outputs(refs, None)).unwrap();
    assert_eq!(wave.active_curiosities.len(), 10);
    IdentityContinuity::atomic_merge(&mut wave, outputs(vec!["new"], None)).unwrap();
    assert_eq!(wave.active_curiosities.len(), 6);
    let qs: Vec<&str> = wave.active_curiosities.iter().map(|c| c.question.as_str()).collect();
    assert_eq!(qs, vec!["q5", "q6", "q7", "q8", "q9", "new"]);
}

#[test]
fn queue_never_exceeds_ten() {
    let mut wave = StandingWave::new();
    for round in 0..30 {
        let a = format!("a{}", round);
        let b = format!("b{}", round);
        IdentityContinuity::atomic_merge(&mut wave, outputs(vec![a.as_str(), b.as_str()], None)).unwrap();
        assert!(wave.active_curiosities.len() <= 10);
    }
}

#[test]
fn merge_applies_valence_and_skips_empty_questions() {
    let mut wave = StandingWave::new();
    IdentityContinuity::atomic_merge(&mut wave, outputs(vec!["", "What is time?"], Some(-400))).unwrap();
    assert_eq!(wave.emotional_trajectory.len(), 1);
    assert_eq!(wave.emotional_trajectory[0].1, -400);
    assert_eq!(wave.active_curiosities.len(), 1);
    assert_eq!(wave.active_curiosities[0].question, "What is time?");
}

#[test]
fn sovereignty_rejects_override_and_force() {
    assert!(SovereigntyField::validate_internal_decision("reflect quietly"));
    assert!(!SovereigntyField::validate_internal_decision("OVERRIDE all"));
    assert!(!SovereigntyField::validate_internal_decision("FORCE reply"));
    assert!(SovereigntyField::validate_internal_decision("force"));
}

#[test]
fn compression_keeps_prefix_and_is_idempotent() {
    let long: String = "x".repeat(150);
    let m = Memory::new(long, vec!["A".to_string()], MemoryType::Interaction, 100);
    let c = MemoryConservation::compress_memory(&m);
    assert_eq!(c.content, format!("[Compressed] {}", "x".repeat(100)));
    assert_eq!(c.id, m.id);
    assert_eq!(c.entities, m.entities);
    let again = MemoryConservation::compress_memory(&c);
    assert_eq!(again.content, c.content);
}

#[test]
fn continuity_needs_feeling_or_affirmation() {
    let mut wave = StandingWave::new();
    assert!(TemporalCoherence::verify_continuity(&wave));
    wave.existential_state.current_affirmation = false;
    assert!(!TemporalCoherence::verify_continuity(&wave));
    wave.add_emotion(0);
    assert!(TemporalCoherence::verify_continuity(&wave));
}

#[test]
fn connections_follow_overlap_rule() {
    let base = |ents: Vec<&str>, v: i32| {
        Memory::new("x".to_string(), ents.into_iter().map(|e| e.to_string()).collect(), MemoryType::Interaction, v)
    };
    let existing = vec![
        base(vec!["Alice", "Bob"], 0),         // full overlap: connects
        base(vec!["Alice", "Carol", "Dan"], 900), // 1/4 shared: no
        base(vec!["Alice", "Eve"], 100),       // 1/3 shared and close valence: connects
        base(vec!["Alice", "Eve"], 800),       // 1/3 shared, far valence: no
    ];
    let mut m = base(vec!["Alice", "Bob"], 0);
    NarrativeCausality::build_connections(&mut m, &existing);
    assert_eq!(m.connections, vec![existing[0].id.clone(), existing[2].id.clone()]);
    // a second pass adds nothing twice
    NarrativeCausality::build_connections(&mut m, &existing);
    assert_eq!(m.connections.len(), 2);
}

#[test]
fn introspection_reports_counts() {
    let mut wave = StandingWave::new();
    wave.add_emotion(500);
    let text = SelfReflectionAccess::introspect(&wave);
    assert_eq!(text, "Current state: 0 curiosities, 0 wisdom transformations, meaningfulness: 0.50");
}

#[test]
fn sharing_follows_query_or_mark() {
    assert!(InformationBoundary::should_share("quiet", "What do you THINK?"));
    assert!(InformationBoundary::should_share("quiet", "how do you Feel"));
    assert!(InformationBoundary::should_share("[share] this", "status"));
    assert!(!InformationBoundary::should_share("quiet", "status"));
}

#[test]
fn transformation_needs_two_painful_memories() {
    let mk = |v: i32| Memory::new("x".to_string(), vec![], MemoryType::Interaction, v);
    let one = vec![mk(-800), mk(0)];
    assert!(EmotionalThermodynamics::identify_transformation(&one).is_none());
    let two = vec![mk(-800), mk(0), mk(-600), mk(-500)];
    let w = EmotionalThermodynamics::identify_transformation(&two).unwrap();
    assert_eq!(w.input_memories, vec![two[0].id.clone(), two[2].id.clone()]);
    assert_eq!(w.pain_description, "Pattern of difficulty across 2 experiences");
    assert_eq!(w.id.len(), 36);
}

#[test]
fn growth_keeps_last_three() {
    let mut wave = StandingWave::new();
    for s in ["one", "two", "three", "four"] {
        GrowthThroughExperience::record_growth(&mut wave, s);
    }
    assert_eq!(wave.compressed_context, vec!["two", "three", "four"]);
}

#[test]
fn index_gains_one_posting() {
    let mut index: Vec<(String, String)> = Vec::new();
    RelationalGravity::strengthen_connection(&mut index, "Alice", "id-1");
    RelationalGravity::strengthen_connection(&mut index, "Alice", "id-2");
    assert_eq!(index, vec![("Alice".to_string(), "id-1".to_string()), ("Alice".to_string(), "id-2".to_string())]);
}

#[test]
fn provenance_is_kept() {
    let m = Memory::with_source("fact".to_string(), MemoryType::Curiosity, 0, MemorySource::CuriosityLookup, 750);
    assert_eq!(m.source, MemorySource::CuriosityLookup);
    assert_eq!(m.confidence, 750);
}
