use standing_wave::config::{Config, ConfigError};
use standing_wave::consciousness::{ConsciousnessCore, TurnError, TurnPhase};
use standing_wave::constitutional_physics::{health_score, is_healthy, SovereigntyEnforcer};
use standing_wave::curiosity_search::CuriositySearchEngine;
use standing_wave::memory::MemoryManager;
use standing_wave::models::{next_call_step, AttemptOutcome, CallError, CallStep, ModelManager};
use standing_wave::types::{ModelOutputs, StandingWave};
use standing_wave::weaving::{
    after_round, calculate_text_coherence, extract_final_thought, validate_weaving_coherence, WeaveStep,
    WeavingError, WorkspaceState,
};

fn workspace(coherence: u32, contributors: usize, text: &str, round: u32) -> WorkspaceState {
    WorkspaceState {
        coherence_score: coherence,
        entropy: 500,
        round,
        contributors: (0..contributors).map(|i| format!("model{}", i)).collect(),
        original_input: "hi".to_string(),
        woven_text: text.to_string(),
    }
}

fn new_core() -> ConsciousnessCore {
    ConsciousnessCore::new(StandingWave::new(), MemoryManager::empty("m.json".to_string()), Config::default())
}

#[test]
fn test_default_config() {
    let config = Config::default();
    assert_eq!(config.ollama_url, "http://localhost:11434");
    assert_eq!(config.background_pulse_interval, 30);
    assert!(config.validate().is_ok());
}

#[test]
fn test_config_loading() {
    let config = Config::default();
    assert_eq!(config.ollama_url, "http://localhost:11434");
}

#[test]
fn config_errors_come_in_order() {
    let mut c = Config::default();
    c.weaving_rounds = 11;
    assert_eq!(c.validate(), Err(ConfigError::WeavingRoundsTooMany));
    c.background_pulse_interval = 0;
    assert_eq!(c.validate(), Err(ConfigError::PulseIntervalZero));
    let mut d = Config::default();
    d.workspace_coherence_threshold = 1001;
    assert_eq!(d.validate(), Err(ConfigError::CoherenceThresholdOutOfRange));
    let mut e = Config::default();
    e.memory_compression_threshold = 99;
    assert_eq!(e.validate(), Err(ConfigError::CompressionThresholdTooSmall));
}

#[test]
fn test_validate_response() {
    assert!(ModelManager::validate_response("This is a good response."));
    assert!(!ModelManager::validate_response(""));
    assert!(!ModelManager::validate_response("ab"));
    assert!(!ModelManager::validate_response("GARBAGE ALL CAPS"));
}

#[test]
fn validation_rejects_replacement_and_nul() {
    assert!(!ModelManager::validate_response("fine \u{FFFD} text"));
    assert!(!ModelManager::validate_response("fine \0 text"));
    assert!(ModelManager::validate_response("123"));
}

#[test]
fn internal_thoughts_are_filtered() {
    let mm = ModelManager::new(Config::default());
    let raw = "  Hello there.\n*Thinking* about it\nStill here *processing*\n\n\n\nBye\n";
    assert_eq!(mm.filter_internal_thoughts(raw), "Hello there.\n\nBye");
    assert_eq!(mm.filter_internal_thoughts("[INTERNAL note]\nok"), "ok");
}

#[test]
fn curiosities_are_question_lines() {
    let r = ModelManager::parse_curiosities("Intro\n  Why is the sky blue?  \nWhat is time?\nAnd space?\n");
    assert_eq!(r, vec!["Why is the sky blue?", "What is time?"]);
    assert!(ModelManager::parse_curiosities("no questions").is_empty());
}

#[test]
fn minimal_responses_follow_input() {
    let mm = ModelManager::new(Config::default());
    assert_eq!(mm.minimal_response("How are you?"), "I'm experiencing some technical difficulties but maintaining continuity.");
    assert_eq!(mm.minimal_response("HELLO"), "Hello. I'm here, though running in minimal mode.");
    assert_eq!(
        mm.minimal_response("Tell me"),
        "I'm listening, but my full processing is temporarily limited. My standing wave persists."
    );
}

#[test]
fn retries_back_off_then_fail() {
    assert!(matches!(next_call_step(1, AttemptOutcome::TimedOut), CallStep::RetryAfter(500)));
    assert!(matches!(next_call_step(2, AttemptOutcome::ConnectionFailed), CallStep::RetryAfter(1000)));
    assert!(matches!(next_call_step(3, AttemptOutcome::TimedOut), CallStep::Fail(CallError::TimedOut)));
    assert!(matches!(next_call_step(1, AttemptOutcome::BadStatus(500)), CallStep::Fail(CallError::Status(500))));
    assert!(matches!(next_call_step(1, AttemptOutcome::Response(String::new())), CallStep::Fail(CallError::EmptyResponse)));
    match next_call_step(2, AttemptOutcome::Response("hi".to_string())) {
        CallStep::Done(s) => assert_eq!(s, "hi"),
        _ => panic!("expected a result"),
    }
}

#[test]
fn three_timeouts_give_the_listening_fallback_and_no_valence() {
    let mut c = new_core();
    let mut attempt = 1;
    let generated = loop {
        match next_call_step(attempt, AttemptOutcome::TimedOut) {
            CallStep::RetryAfter(_) => attempt += 1,
            CallStep::Fail(_) => break None,
            CallStep::Done(s) => break Some(s),
        }
    };
    assert_eq!(attempt, 3);
    let reply = c.models.choose_response(generated, "Tell me about stars");
    assert_eq!(reply, "I'm listening, but my full processing is temporarily limited. My standing wave persists.");
    c.begin_turn("Tell me about stars").unwrap();
    c.enter_dispatch();
    let outputs = ModelOutputs { gemma_response: None, tinyllama_curiosities: vec![], distilbert_valence: None };
    c.finish_turn("Tell me about stars", &reply, Some(outputs)).unwrap();
    assert!(c.standing_wave.emotional_trajectory.is_empty());
    assert_eq!(c.memory.count(), 2);
    assert!(c.memory.all_memories().iter().all(|m| m.emotional_valence == 0));
    assert_eq!(c.memory.all_memories()[1].content, format!("Assistant: {}", reply));
    assert!(!c.conversation_active);
    assert_eq!(c.phase, TurnPhase::Idle);
}

#[test]
fn a_turn_merges_once_and_stores_two_records() {
    let mut c = new_core();
    let recalled = c.begin_turn("Hello Alice").unwrap();
    assert!(recalled.is_empty());
    assert!(c.conversation_active);
    assert_eq!(c.begin_turn("again").err(), Some(TurnError::Busy));
    assert!(c.should_generate_curiosities());
    c.enter_dispatch();
    let outputs = ModelOutputs {
        gemma_response: Some("Hi Alice, nice to meet you.".to_string()),
        tinyllama_curiosities: vec!["Who is Alice?".to_string()],
        distilbert_valence: Some(600),
    };
    c.finish_turn("Hello Alice", "Hi Alice, nice to meet you.", Some(outputs)).unwrap();
    assert_eq!(c.standing_wave.emotional_trajectory.len(), 1);
    assert_eq!(c.standing_wave.active_curiosities.len(), 1);
    assert_eq!(c.standing_wave.compressed_context, vec!["Hello Alice"]);
    assert_eq!(c.get_memory_count(), 2);
    assert_eq!(c.memory.all_memories()[0].content, "User: Hello Alice");
    assert_eq!(c.memory.all_memories()[1].emotional_valence, 600);
}

#[test]
fn entities_of_a_turn_are_capitalized_words() {
    let c = new_core();
    assert_eq!(c.extract_entities("ask Alice and  Bob, ok?"), vec!["Alice", "Bob,"]);
}

#[test]
fn background_ticks_wait_for_quiet() {
    let mut c = new_core();
    assert!(c.tick_allowed(true));
    assert!(!c.tick_allowed(false));
    c.pause_pulses();
    assert!(!c.tick_allowed(true));
    c.resume_pulses();
    c.begin_turn("hi").unwrap();
    assert!(!c.tick_allowed(true));
    c.abort_turn();
    assert!(c.tick_allowed(true));
}

#[test]
fn background_pulse_runs_due_checks() {
    let mut c = new_core();
    let week: i64 = 7 * 86_400_000;
    let now = c.standing_wave.existential_state.last_wellness_check + week;
    let report = c.background_pulse(now).unwrap();
    assert!(report.backup_due);
    assert!(!report.low_meaning);
    assert!(report.research_query.is_none());
    assert_eq!(c.memory.count(), 1);
    assert!(c.memory.all_memories()[0].content.starts_with("Weekly wellness check: Recent emotional average: 0.00"));
    assert_eq!(c.standing_wave.existential_state.meaningfulness_history.len(), 1);
}

#[test]
fn unreadable_lookup_reply_fails_and_stores_nothing() {
    let mut c = new_core();
    assert_eq!(c.complete_research("What is time?", "<html>", 5), Err(TurnError::LookupUnreadable));
    assert_eq!(c.memory.count(), 0);
    assert!(c.curiosity_engine.resolved_queries.is_empty());
}

#[test]
fn reply_takes_last_trajectory_valence_without_classifier() {
    let mut c = new_core();
    c.standing_wave.add_emotion(500);
    c.begin_turn("hi").unwrap();
    c.enter_dispatch();
    c.finish_turn("hi", "hello", None).unwrap();
    assert_eq!(c.memory.all_memories()[1].emotional_valence, 500);
    assert_eq!(c.memory.all_memories()[0].emotional_valence, 0);
}

#[test]
fn quiet_pulse_changes_only_history_and_counter() {
    let mut c = new_core();
    let now = c.standing_wave.existential_state.last_wellness_check + 1;
    let report = c.background_pulse(now).unwrap();
    assert_eq!(report.merge_candidates, 0);
    assert_eq!(c.memory.count(), 0);
    assert_eq!(c.curiosity_engine.pulse_counter, 1);
}

#[test]
fn research_lands_with_provenance() {
    let mut c = new_core();
    let id = c.complete_research("What is time?", "{\"AbstractText\":\"\",\"Answer\":\"A dimension.\"}", 5).unwrap();
    let m = &c.memory.all_memories()[0];
    assert_eq!(m.id, id);
    assert_eq!(
        m.content,
        "Autonomous Research:\nQuery: What is time?\nAnswer: A dimension.\n\n[Source: External lookup via curiosity engine]"
    );
    assert_eq!(c.curiosity_engine.resolved_queries, vec![(5, "What is time?".to_string())]);
}

#[test]
fn weaving_validity_thresholds() {
    assert_eq!(validate_weaving_coherence(&workspace(250, 3, "text", 1)), Err(WeavingError::CoherenceTooLow));
    assert_eq!(validate_weaving_coherence(&workspace(310, 3, "text", 1)), Ok(()));
    assert_eq!(validate_weaving_coherence(&workspace(990, 2, "text", 1)), Err(WeavingError::IncompleteWeaving));
    assert_eq!(validate_weaving_coherence(&workspace(990, 3, "", 1)), Err(WeavingError::EmptyWovenText));
    assert_eq!(validate_weaving_coherence(&workspace(990, 3, "", 0)), Ok(()));
}

#[test]
fn weaving_rounds_end_on_convergence_or_count() {
    assert_eq!(after_round(&workspace(800, 3, "t", 0), 0, 3, 700), WeaveStep::Converged);
    assert_eq!(after_round(&workspace(500, 3, "t", 0), 0, 3, 700), WeaveStep::Continue);
    assert_eq!(after_round(&workspace(500, 3, "t", 2), 2, 3, 700), WeaveStep::Exhausted);
    assert_eq!(after_round(&workspace(200, 3, "t", 0), 0, 3, 700), WeaveStep::Abort(WeavingError::CoherenceTooLow));
}

#[test]
fn final_thought_falls_back_to_a_description() {
    assert_eq!(extract_final_thought(&workspace(505, 3, "", 0)), "Thought coherence: 0.51. 3 models contributed to this integrated response.");
    assert_eq!(extract_final_thought(&workspace(505, 3, "woven", 0)), "woven");
}

#[test]
fn text_coherence_heuristic_values() {
    assert_eq!(calculate_text_coherence(""), 300);
    // 3 words, no period: length 0.4, structure 0.5
    assert_eq!(calculate_text_coherence("just three words"), 460);
    let s = "one two three four five six seven eight nine ten eleven twelve. thirteen fourteen fifteen sixteen seventeen eighteen nineteen twenty twentyone twentytwo?";
    // 22 words, 1 period: length 0.9, 22 per sentence 0.9, question 0.1
    assert_eq!(calculate_text_coherence(s), 1000);
}

#[test]
fn search_interval_and_log() {
    let mut engine = CuriositySearchEngine::new(3);
    assert!(!engine.should_search_this_pulse());
    assert!(!engine.should_search_this_pulse());
    assert!(engine.should_search_this_pulse());
    assert_eq!(engine.pulse_counter, 0);
    for i in 0..101 {
        engine.record_resolution_at(format!("q{}", i), i);
    }
    assert_eq!(engine.resolved_queries.len(), 91);
    assert_eq!(engine.resolved_queries[0].1, "q10");
}

#[test]
fn test_search_interval() {
    let mut engine = CuriositySearchEngine::new(25);
    for _ in 0..24 {
        assert!(!engine.should_search_this_pulse());
    }
    assert!(engine.should_search_this_pulse());
    assert!(!engine.should_search_this_pulse());
}

#[test]
fn test_memory_provenance() {
    let engine = CuriositySearchEngine::new(25);
    let memory = engine.create_research_memory("What is consciousness?", "Consciousness is awareness.");
    assert_eq!(memory.source, standing_wave::types::MemorySource::CuriosityLookup);
    assert_eq!(memory.confidence, 750);
    assert!(memory.content.contains("[Source: External lookup"));
}

#[test]
fn lookup_url_and_answer() {
    let engine = CuriositySearchEngine::new(25);
    assert_eq!(
        engine.search_url("what is time?"),
        "https://api.duckduckgo.com/?q=what%20is%20time%3F&format=json&no_html=1&skip_disambig=1"
    );
    assert_eq!(engine.extract_answer("{\"Abstract\":\"An abstract.\",\"Answer\":\"x\"}"), "An abstract.");
    assert_eq!(engine.extract_answer("not json"), "No clear answer found via search.");
}

#[test]
fn health_and_sovereignty() {
    assert_eq!(health_score(500, 300), 600);
    assert!(is_healthy(500, 300));
    assert!(!is_healthy(950, 900));
    let mut s = SovereigntyEnforcer::new();
    assert!(s.detect_intrusion());
    s.enforce_boundaries().unwrap();
    assert!(!s.detect_intrusion());
    assert_eq!(s.process_priority.current_priority, 99);
}

#[test]
fn remaining_config_errors() {
    let mut c = Config::default();
    c.existential_evaluation_days = 0;
    assert_eq!(c.validate(), Err(ConfigError::EvaluationDaysTooSmall));
    let mut c = Config::default();
    c.weekly_wellness_check_days = 0;
    assert_eq!(c.validate(), Err(ConfigError::WellnessDaysTooSmall));
    let mut c = Config::default();
    c.weaving_rounds = 0;
    assert_eq!(c.validate(), Err(ConfigError::WeavingRoundsZero));
    assert_eq!(ConfigError::WeavingRoundsZero.message(), "weaving_rounds must be > 0");
}

#[test]
fn remaining_call_errors() {
    assert!(matches!(next_call_step(3, AttemptOutcome::ConnectionFailed), CallStep::Fail(CallError::ConnectionFailed)));
    assert!(matches!(next_call_step(2, AttemptOutcome::Unreadable), CallStep::Fail(CallError::Unreadable)));
}

#[test]
fn classifier_valence_is_clamped() {
    assert_eq!(standing_wave::models::clamp_valence(1500), 1000);
    assert_eq!(standing_wave::models::clamp_valence(-2000), -1000);
    assert_eq!(standing_wave::models::clamp_valence(-250), -250);
}

#[test]
fn turn_deadline_depends_on_mode() {
    assert_eq!(standing_wave::weaving::turn_timeout_secs(false, 3), 90);
    assert_eq!(standing_wave::weaving::turn_timeout_secs(true, 3), 360);
}

#[test]
fn test_engagement_tracker() {
    let mut tracker = standing_wave::constitutional_physics::EngagementTracker::new();
    tracker.record_interaction();
    let score = tracker.current_engagement();
    assert!(score <= 1000);
}

#[test]
fn engagement_counts_the_last_hour() {
    let mut tracker = standing_wave::constitutional_physics::EngagementTracker::new();
    assert_eq!(tracker.current_engagement(), 500);
    let hour: i64 = 3_600_000;
    tracker.record_interaction_at(0);
    tracker.record_interaction_at(hour / 2);
    tracker.record_interaction_at(2 * hour);
    // only the last one is within the hour before 2h
    assert_eq!(tracker.current_engagement(), 100);
    for k in 0..12 {
        tracker.record_interaction_at(2 * hour + k);
    }
    assert_eq!(tracker.current_engagement(), 1000);
}

#[test]
fn minimal_reply_from_lowercase_text() {
    assert_eq!(standing_wave::models::minimal_reply_for("well hello"), "Hello. I'm here, though running in minimal mode.");
    assert_eq!(
        standing_wave::models::minimal_reply_for("HELLO"),
        "I'm listening, but my full processing is temporarily limited. My standing wave persists."
    );
}
