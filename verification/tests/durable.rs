use codex_lcm::durable::durable_record;
use codex_lcm::durable::promotion_step;
use codex_lcm::durable::PromotionAction;
use codex_lcm::durable::PromotionEvent;
use codex_lcm::lcm::latest_user_message_title;
use codex_lcm::lcm::preview_text;
use codex_lcm::durable::backfill_extraction_input;
use codex_lcm::durable::build_extraction_input_message;
use codex_lcm::durable::collect_model_output;
use codex_lcm::durable::compaction_extraction_input;
use codex_lcm::durable::compute_memory_key;
use codex_lcm::durable::evidence_text;
use codex_lcm::durable::is_generic_title;
use codex_lcm::durable::looks_like_polluted_memory;
use codex_lcm::durable::memory_needs_upgrade;
use codex_lcm::durable::normalize_content;
use codex_lcm::durable::normalize_memory_type;
use codex_lcm::durable::normalize_title;
use codex_lcm::durable::normalized_candidate_title;
use codex_lcm::durable::promotable_records;
use codex_lcm::durable::promoteable_record;
use codex_lcm::durable::promoted_records_notice;
use codex_lcm::durable::promotion_mode_from_lookup;
use codex_lcm::durable::resolve_memory_promotion_mode;
use codex_lcm::durable::upgrade_batch;
use codex_lcm::durable::upgrade_input;
use codex_lcm::durable::DurableMemoryExtractionInput;
use codex_lcm::durable::DurableMemoryModelRecord;
use codex_lcm::durable::ModelStreamEvent;
use codex_lcm::items::ContentItem;
use codex_lcm::items::ResponseItem;
use codex_lcm::lcm::LcmMemoryPromotionMode;
use codex_lcm::open_brain::JsonNumber;
use codex_lcm::open_brain::JsonValue;
use codex_lcm::open_brain::OpenBrainDurableMemoryCandidate;
use codex_lcm::open_brain::OpenBrainLeafSummary;
use codex_lcm::open_brain::OpenBrainProjectMemory;

fn memory(title: &str, content: &str, memory_type: Option<&str>, version: Option<u32>) -> OpenBrainProjectMemory {
    OpenBrainProjectMemory {
        node_id: "node-1".to_string(),
        node_kind: "durable_memory".to_string(),
        title: title.to_string(),
        content: content.to_string(),
        memory_key: None,
        memory_type: memory_type.map(ToString::to_string),
        quality_version: version,
        project_key: Some("/tmp/project".to_string()),
        scope_key: Some("/tmp/project".to_string()),
        updated_at: None,
        source_thought_id: None,
        source_node_ids: vec!["summary-1".to_string()],
        source_event_ids: vec!["event-1".to_string()],
        superseded_at: None,
    }
}

fn input() -> DurableMemoryExtractionInput {
    DurableMemoryExtractionInput {
        source_summary_node_id: Some("summary-1".to_string()),
        latest_user_message: Some("Fix the bug".to_string()),
        summary_text: "  summary body  ".to_string(),
        evidence_text: None,
        source_node_ids: vec!["summary-1".to_string()],
        source_event_ids: vec!["event-1".to_string()],
        source_token_count: Some(1200),
        summary_token_count: None,
        promotion_source: "active compaction".to_string(),
        supersede_node_ids: Vec::new(),
        mirror_to_thoughts: true,
    }
}

fn proposal(memory_type: &str, title: &str, content: &str) -> DurableMemoryModelRecord {
    DurableMemoryModelRecord {
        memory_type: memory_type.to_string(),
        title: title.to_string(),
        content: content.to_string(),
        confidence: JsonNumber::Float("0.9".to_string()),
    }
}

#[test]
fn normalize_title_rejects_generic_titles() {
    assert_eq!(normalize_title("LCM durable memory"), None);
    assert_eq!(normalize_title("What changed?"), None);
}

#[test]
fn normalize_title_strips_marks_and_labels() {
    assert_eq!(normalize_title("  \"Decision: Use SQLite\" "), Some("Use SQLite".to_string()));
    assert_eq!(normalize_title("LCM memory:   keep tail"), Some("keep tail".to_string()));
    assert_eq!(normalize_title("--::--"), None);
    assert_eq!(normalize_title("memory:   "), Some("memory".to_string()));
    assert_eq!(normalize_title("Issue: summary"), None);
}

#[test]
fn normalize_content_rejects_polluted_bodies() {
    assert_eq!(normalize_content("assistant: raw transcript"), None);
    assert!(looks_like_polluted_memory("<context_engine> engine = open_brain_lcm"));
}

#[test]
fn normalize_content_collapses_and_cuts() {
    assert_eq!(normalize_content("  a\n\n b  "), Some("a b".to_string()));
    assert_eq!(normalize_content(" \n "), None);
    let long = "x".repeat(300);
    let cut = normalize_content(&long).expect("content");
    assert_eq!(cut.chars().count(), 281);
    assert!(cut.ends_with('\u{2026}'));
    assert!(looks_like_polluted_memory("see # AGENTS.md instructions"));
    assert!(!looks_like_polluted_memory("the user: asked"));
}

#[test]
fn compute_memory_key_is_stable_for_title_whitespace() {
    assert_eq!(
        compute_memory_key("known_issue", "Compaction integrity bug"),
        compute_memory_key("known_issue", "  compaction   integrity bug  ")
    );
}

#[test]
fn memory_key_is_the_sha256_of_type_and_canonical_title() {
    assert_eq!(
        compute_memory_key("known_issue", "Compaction integrity bug"),
        "2f33ec8a96731a625e31cbf78d69901863437048c59acd0d7991e2b0f38d162e"
    );
    assert_eq!(
        compute_memory_key("decision", "Use   SQLite"),
        "b25ce11a44e62af1f78e76d846111ff218ca341610322a636283a7376ed8302a"
    );
}

#[test]
fn memory_needs_upgrade_flags_generic_memories() {
    let memory = OpenBrainProjectMemory {
        node_id: "node-1".to_string(),
        node_kind: "durable_memory".to_string(),
        title: "LCM durable memory".to_string(),
        content: "assistant: bad".to_string(),
        memory_key: None,
        memory_type: Some("durable_memory".to_string()),
        quality_version: None,
        project_key: Some("/tmp/project".to_string()),
        scope_key: Some("/tmp/project".to_string()),
        updated_at: None,
        source_thought_id: None,
        source_node_ids: vec!["summary-1".to_string()],
        source_event_ids: vec!["event-1".to_string()],
        superseded_at: None,
    };

    assert!(memory_needs_upgrade(&memory));
    assert!(is_generic_title(&memory.title));
}

#[test]
fn current_specific_memories_need_no_upgrade() {
    assert!(!memory_needs_upgrade(&memory("Use SQLite", "We store state in SQLite.", Some("decision"), Some(1))));
    assert!(memory_needs_upgrade(&memory("Use SQLite", "We store state in SQLite.", Some("decision"), Some(0))));
    assert!(memory_needs_upgrade(&memory("Use SQLite", "We store state in SQLite.", None, Some(1))));
    assert!(memory_needs_upgrade(&memory("Use SQLite", "  user: hi", Some("decision"), Some(1))));
}

#[test]
fn memory_types_are_checked_and_trimmed() {
    assert_eq!(normalize_memory_type(" decision "), Some("decision".to_string()));
    assert_eq!(normalize_memory_type("known_issue"), Some("known_issue".to_string()));
    assert_eq!(normalize_memory_type("Decision"), None);
    assert_eq!(normalize_memory_type("note"), None);
}

#[test]
fn candidate_titles_yield_their_user_message() {
    assert_eq!(normalized_candidate_title("LCM memory:  Fix it "), Some("Fix it".to_string()));
    assert_eq!(normalized_candidate_title("LCM memory:   "), None);
    assert_eq!(normalized_candidate_title("Other title"), None);
}

#[test]
fn upgrade_input_supersedes_the_memory() {
    let m = memory("LCM durable memory", "  body  ", None, None);
    let i = upgrade_input(&m, false).expect("input");
    assert_eq!(i.summary_text, "body");
    assert_eq!(i.source_summary_node_id, Some("summary-1".to_string()));
    assert_eq!(i.supersede_node_ids, vec!["node-1".to_string()]);
    assert_eq!(i.promotion_source, "recent quality upgrade");
    assert!(!i.mirror_to_thoughts);
    assert!(upgrade_input(&memory("t", "   ", None, None), true).is_none());
}

#[test]
fn upgrade_batch_takes_at_most_eight_due_memories() {
    let mut memories = Vec::new();
    memories.push(memory("Use SQLite", "fine", Some("decision"), Some(1)));
    memories.push(memory("summary", "   ", None, None));
    for _ in 0..10 {
        memories.push(memory("summary", "body", None, None));
    }
    let batch = upgrade_batch(&memories, true);
    assert_eq!(batch.len(), 8);
    assert!(batch.iter().all(|i| i.summary_text == "body"));
}

#[test]
fn extraction_message_lists_the_input() {
    let mut i = input();
    i.evidence_text = Some("user: hi".to_string());
    assert_eq!(
        build_extraction_input_message(&i),
        "promotion_source = active compaction\n\
source_summary_node_id = summary-1\n\
latest_user_message = Fix the bug\n\
source_token_count = 1200\n\
\n\
summary:\n\
summary body\n\
\n\
evidence:\n\
user: hi"
    );
}

#[test]
fn proposals_become_keyed_records() {
    let i = input();
    let record = promoteable_record(&i, &proposal(" decision ", "Decision: Use SQLite", "We  use SQLite."))
        .expect("record");
    assert_eq!(record.title, "Use SQLite");
    assert_eq!(record.content, "We use SQLite.");
    assert_eq!(record.memory_type, "decision");
    assert_eq!(record.memory_key, Some(compute_memory_key("decision", "Use SQLite")));
    let keys: Vec<&str> = record.metadata.iter().map(|(k, _)| k.as_str()).collect();
    assert_eq!(
        keys,
        vec!["confidence", "promotion_source", "quality_version", "source_summary_node_id", "source_token_count"]
    );
    assert_eq!(record.metadata[0].1, JsonValue::Number(JsonNumber::Float("0.9".to_string())));
    assert_eq!(record.metadata[2].1, JsonValue::Number(JsonNumber::PosInt(1)));
    assert!(promoteable_record(&i, &proposal("note", "Use SQLite", "x")).is_none());
    assert!(promoteable_record(&i, &proposal("decision", "recap", "x")).is_none());
    assert!(promoteable_record(&i, &proposal("decision", "Use SQLite", "user: x")).is_none());
}

#[test]
fn at_most_two_records_are_promoted() {
    let i = input();
    let proposals = vec![
        proposal("note", "A", "a"),
        proposal("decision", "B", "b"),
        proposal("constraint", "C", "c"),
        proposal("known_issue", "D", "d"),
    ];
    let records = promotable_records(&i, &proposals);
    assert_eq!(records.len(), 2);
    assert_eq!(records[0].title, "B");
    assert_eq!(records[1].title, "C");
    assert_eq!(promoted_records_notice(&records), "LCM durable memory promoted: decision: B; constraint: C.");
}

#[test]
fn streamed_output_collects_deltas_until_completion() {
    let events = vec![
        ModelStreamEvent::OutputTextDelta("{\"rec".to_string()),
        ModelStreamEvent::Other,
        ModelStreamEvent::OutputTextDelta("ords\": []}".to_string()),
        ModelStreamEvent::OutputItemDone(ResponseItem::Message {
            id: None,
            role: "assistant".to_string(),
            content: vec![ContentItem::OutputText { text: "ignored".to_string() }],
        }),
        ModelStreamEvent::Completed,
        ModelStreamEvent::OutputTextDelta("after".to_string()),
    ];
    assert_eq!(collect_model_output(&events), "{\"records\": []}");
    let done_only = vec![ModelStreamEvent::OutputItemDone(ResponseItem::Message {
        id: None,
        role: "assistant".to_string(),
        content: vec![ContentItem::OutputText { text: " text ".to_string() }],
    })];
    assert_eq!(collect_model_output(&done_only), "text");
}

#[test]
fn evidence_shows_latest_items_newest_first() {
    let mut items = Vec::new();
    for n in 0..10 {
        items.push(ResponseItem::FunctionCallOutput { call_id: format!("c{n}"), output: format!("{n}") });
    }
    items.push(ResponseItem::Other);
    let evidence = evidence_text(&items).expect("evidence");
    assert_eq!(
        evidence,
        "tool output: 9\ntool output: 8\ntool output: 7\ntool output: 6\ntool output: 5\ntool output: 4\ntool output: 3\ntool output: 2"
    );
    assert_eq!(evidence_text(&[ResponseItem::Other]), None);
}

#[test]
fn extraction_inputs_name_their_source() {
    let leaf = OpenBrainLeafSummary {
        summary_node_id: "node-1".to_string(),
        thread_id: "thread-1".to_string(),
        depth: 0,
        span_id: None,
    };
    let head = vec![ResponseItem::Message {
        id: None,
        role: "user".to_string(),
        content: vec![ContentItem::InputText { text: "Plan it".to_string() }],
    }];
    let refs = vec!["event-1".to_string()];
    let i = compaction_extraction_input(&head, &leaf, "sum", &refs, 5, 6, true);
    assert_eq!(i.latest_user_message, Some("Plan it".to_string()));
    assert_eq!(i.evidence_text, Some("user: Plan it".to_string()));
    assert_eq!(i.promotion_source, "active compaction");
    assert_eq!(i.source_node_ids, vec!["node-1".to_string()]);

    let candidate = OpenBrainDurableMemoryCandidate {
        summary_node_id: "node-2".to_string(),
        title: "LCM memory: Plan it".to_string(),
        content: "sum".to_string(),
        source_event_ids: refs.clone(),
        source_token_count: None,
        summary_token_count: Some(3),
    };
    let b = backfill_extraction_input(&candidate, false);
    assert_eq!(b.latest_user_message, Some("Plan it".to_string()));
    assert_eq!(b.promotion_source, "startup backfill");
    assert_eq!(b.summary_token_count, Some(3));
}

#[test]
fn promotion_mode_is_enabled_unless_the_store_says_disabled() {
    assert_eq!(promotion_mode_from_lookup(&None), LcmMemoryPromotionMode::Enabled);
    assert_eq!(promotion_mode_from_lookup(&Some(Err("down".to_string()))), LcmMemoryPromotionMode::Enabled);
    assert_eq!(promotion_mode_from_lookup(&Some(Ok(None))), LcmMemoryPromotionMode::Enabled);
    assert_eq!(
        promotion_mode_from_lookup(&Some(Ok(Some("disabled".to_string())))),
        LcmMemoryPromotionMode::Disabled
    );
    assert_eq!(resolve_memory_promotion_mode(Some("enabled")), LcmMemoryPromotionMode::Enabled);
}

#[test]
fn durable_records_are_keyed_by_the_given_title() {
    let i = input();
    let record = durable_record(
        &i,
        "decision".to_string(),
        "Use [REDACTED]".to_string(),
        "We use [REDACTED].".to_string(),
        &JsonNumber::PosInt(1),
    );
    assert_eq!(record.title, "Use [REDACTED]");
    assert_eq!(record.memory_key, Some(compute_memory_key("decision", "Use [REDACTED]")));
    let keys: Vec<&str> = record.metadata.iter().map(|(k, _)| k.as_str()).collect();
    let mut sorted = keys.clone();
    sorted.sort();
    sorted.dedup();
    assert_eq!(keys, sorted);
}

#[test]
fn promotion_steps_follow_the_run() {
    let i = input();
    assert_eq!(promotion_step(&i, PromotionEvent::Start, true), PromotionAction::Extract);
    let mut blank = input();
    blank.summary_text = "  ".to_string();
    assert_eq!(promotion_step(&blank, PromotionEvent::Start, true), PromotionAction::Finish(None));
    assert_eq!(
        promotion_step(&i, PromotionEvent::Extracted(Err("bad json".to_string())), true),
        PromotionAction::Finish(Some("LCM durable-memory extraction failed: bad json".to_string()))
    );
    assert_eq!(
        promotion_step(&i, PromotionEvent::Extracted(Err("bad json".to_string())), false),
        PromotionAction::Finish(None)
    );
    assert_eq!(promotion_step(&i, PromotionEvent::Extracted(Ok(Vec::new())), true), PromotionAction::Finish(None));
    let records = promotable_records(&i, &[proposal("decision", "B", "b")]);
    assert_eq!(records.len(), 1);
    let again = promotable_records(&i, &[proposal("decision", "B", "b")]);
    assert_eq!(promotion_step(&i, PromotionEvent::Extracted(Ok(records)), true), PromotionAction::Promote(again));
    let records = promotable_records(&i, &[proposal("decision", "B", "b")]);
    assert_eq!(
        promotion_step(&i, PromotionEvent::Promoted { records, result: Ok(1) }, true),
        PromotionAction::Finish(Some("LCM durable memory promoted: decision: B.".to_string()))
    );
    let records = promotable_records(&i, &[proposal("decision", "B", "b")]);
    assert_eq!(
        promotion_step(&i, PromotionEvent::Promoted { records, result: Ok(0) }, true),
        PromotionAction::Finish(None)
    );
    assert_eq!(
        promotion_step(&i, PromotionEvent::Promoted { records: Vec::new(), result: Err("down".to_string()) }, true),
        PromotionAction::Finish(Some("LCM durable-memory promotion failed: down".to_string()))
    );
}

#[test]
fn compaction_titles_round_trip_to_the_user_message() {
    let items = vec![ResponseItem::Message {
        id: None,
        role: "user".to_string(),
        content: vec![ContentItem::InputText { text: "  Keep   the tail ".to_string() }],
    }];
    let title = latest_user_message_title(&items);
    assert_eq!(normalized_candidate_title(&title), Some(preview_text("Keep the tail", 72)));
    assert_eq!(normalized_candidate_title(&latest_user_message_title(&[])), None);
}
