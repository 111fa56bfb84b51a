use codex_lcm::lcm::CompactionAction;
use codex_lcm::lcm::CompactionEvent;
use codex_lcm::lcm::leaf_promotion_notice;
use codex_lcm::items::ContentItem;
use codex_lcm::items::ResponseItem;
use codex_lcm::items::UserInput;
use codex_lcm::lcm::context_history_message;
use codex_lcm::lcm::history_message;
use codex_lcm::lcm::latest_user_message_text;
use codex_lcm::lcm::latest_user_message_title;
use codex_lcm::lcm::lcm_compacted_item;
use codex_lcm::lcm::lcm_promotion_candidate;
use codex_lcm::lcm::lcm_query;
use codex_lcm::lcm::lcm_replacement_history;
use codex_lcm::lcm::lcm_resolve_memory_promotion_mode;
use codex_lcm::lcm::leaf_summary_record;
use codex_lcm::lcm::packet_items_to_history;
use codex_lcm::lcm::preview_text;
use codex_lcm::lcm::promotion_skipped_notice;
use codex_lcm::lcm::render_history_block;
use codex_lcm::lcm::render_history_item;
use codex_lcm::lcm::render_packet_message;
use codex_lcm::lcm::should_expand_tail_left;
use codex_lcm::lcm::split_history_for_lcm;
use codex_lcm::lcm::LcmMemoryPromotionMode;
use codex_lcm::open_brain::ContextPacket;
use codex_lcm::open_brain::ContextPacketItem;
use codex_lcm::open_brain::ContextPacketItemKind;
use codex_lcm::open_brain::JsonNumber;
use codex_lcm::open_brain::JsonValue;
use codex_lcm::open_brain::OpenBrainDurableMemoryCandidate;
use codex_lcm::open_brain::OpenBrainLeafSummary;

fn message(role: &str, text: &str) -> ResponseItem {
    let content = if role == "user" {
        ContentItem::InputText { text: text.to_string() }
    } else {
        ContentItem::OutputText { text: text.to_string() }
    };
    ResponseItem::Message { id: None, role: role.to_string(), content: vec![content] }
}

fn function_call(call_id: &str) -> ResponseItem {
    ResponseItem::FunctionCall {
        name: "tool".to_string(),
        arguments: "{}".to_string(),
        call_id: call_id.to_string(),
    }
}

fn function_output(call_id: &str) -> ResponseItem {
    ResponseItem::FunctionCallOutput { call_id: call_id.to_string(), output: "ok".to_string() }
}

fn packet(items: Vec<ContextPacketItem>) -> ContextPacket {
    ContextPacket {
        packet_id: "packet-1".to_string(),
        packet_node_id: None,
        session_id: None,
        thread_id: "thread-1".to_string(),
        project_key: None,
        scope_key: None,
        token_budget: 4000,
        items,
    }
}

fn packet_item(kind: ContextPacketItemKind, content: &str, reason: &str) -> ContextPacketItem {
    ContextPacketItem {
        kind,
        content: content.to_string(),
        source_refs: Vec::new(),
        selection_reason: reason.to_string(),
        depth: None,
        src_tok: None,
        desc_tok: None,
    }
}

#[test]
fn split_history_keeps_tool_pairs_in_tail() {
    let items = vec![message("user", "before"), function_call("call-1"), function_output("call-1")];

    let (head, tail) = split_history_for_lcm(&items, 1);
    assert_eq!(head.len(), 1);
    assert_eq!(tail.len(), 2);
    assert!(matches!(tail[0], ResponseItem::FunctionCall { .. }));
    assert!(matches!(tail[1], ResponseItem::FunctionCallOutput { .. }));
}

#[test]
fn split_history_partitions_the_items() {
    let items = vec![message("user", "a"), message("assistant", "b"), message("user", "c")];
    let (head, tail) = split_history_for_lcm(&items, 2);
    assert_eq!(head, vec![message("user", "a")]);
    assert_eq!(tail, vec![message("assistant", "b"), message("user", "c")]);
    let (head, tail) = split_history_for_lcm(&items, 9);
    assert!(head.is_empty());
    assert_eq!(tail.len(), 3);
    let (head, tail) = split_history_for_lcm(&[], 3);
    assert!(head.is_empty() && tail.is_empty());
}

#[test]
fn tail_grows_only_over_a_call_followed_by_its_output() {
    assert!(should_expand_tail_left(Some(&function_call("a")), Some(&function_output("a"))));
    assert!(!should_expand_tail_left(Some(&function_output("a")), Some(&function_output("a"))));
    assert!(!should_expand_tail_left(Some(&function_call("a")), None));
    assert!(!should_expand_tail_left(None, Some(&function_output("a"))));
}

#[test]
fn latest_user_message_title_uses_recent_user_prompt() {
    let items = vec![
        message("user", "Initial task"),
        message("assistant", "Working"),
        message("user", "Capture the project-scoped decision and preserve the context"),
    ];

    assert_eq!(
        latest_user_message_title(&items),
        "LCM memory: Capture the project-scoped decision and preserve the context"
    );
}

#[test]
fn memory_title_falls_back_without_user_text() {
    let items = vec![message("assistant", "Working"), message("user", "   ")];
    assert_eq!(latest_user_message_text(&items), None);
    assert_eq!(latest_user_message_title(&items), "LCM durable memory");
}

#[test]
fn packet_history_replays_as_assistant_markdown() {
    let mut frontier = packet_item(ContextPacketItemKind::GraphFrontier, "**Strong**\n- bullet", "frontier");
    frontier.depth = Some(0);
    frontier.src_tok = Some(100);
    frontier.desc_tok = Some(20);
    let packet = packet(vec![
        frontier,
        packet_item(ContextPacketItemKind::RecentTail, "leave tail alone", "tail"),
    ]);

    let history = packet_items_to_history(&packet);
    assert_eq!(history.len(), 1);
    assert_eq!(
        history[0],
        context_history_message("LCM frontier summary", "**Strong**\n- bullet".to_string(), "frontier")
    );

    let ResponseItem::Message { role, content, .. } = &history[0] else {
        panic!("expected message response item");
    };
    assert_eq!(role, "assistant");
    assert_eq!(
        content,
        &vec![ContentItem::OutputText {
            text: "LCM frontier summary\n**Strong**\n- bullet\n\nReason: frontier".to_string(),
        }]
    );
}

#[test]
fn lcm_memory_promotion_blocks_only_disabled_mode() {
    assert_eq!(lcm_resolve_memory_promotion_mode(Some("disabled")), LcmMemoryPromotionMode::Disabled);
    assert!(!lcm_resolve_memory_promotion_mode(Some("disabled")).allows_promotion());
    assert!(lcm_resolve_memory_promotion_mode(Some("enabled")).allows_promotion());
    assert!(lcm_resolve_memory_promotion_mode(None).allows_promotion());
}

#[test]
fn lcm_memory_promotion_allows_legacy_modes() {
    assert_eq!(
        lcm_resolve_memory_promotion_mode(Some("polluted")),
        LcmMemoryPromotionMode::Legacy("polluted".to_string())
    );
    assert!(lcm_resolve_memory_promotion_mode(Some("polluted")).allows_promotion());
}

#[test]
fn promotion_modes_have_names() {
    assert_eq!(LcmMemoryPromotionMode::Enabled.as_str(), "enabled");
    assert_eq!(LcmMemoryPromotionMode::Disabled.as_str(), "disabled");
    assert_eq!(LcmMemoryPromotionMode::Legacy("x".to_string()).as_str(), "x");
    assert_eq!(
        promotion_skipped_notice(&LcmMemoryPromotionMode::Disabled),
        "LCM durable memory skipped because thread memory mode is disabled."
    );
}

#[test]
fn preview_collapses_whitespace_and_marks_cuts() {
    assert_eq!(preview_text("  a \n b\tc  ", 10), "a b c");
    assert_eq!(preview_text("abcdef", 3), "abc\u{2026}");
    assert_eq!(preview_text("abc", 3), "abc");
    assert_eq!(preview_text("", 3), "");
}

#[test]
fn history_items_render_as_text() {
    assert_eq!(render_history_item(&message("user", " hi ")), Some("user: hi".to_string()));
    assert_eq!(
        render_history_item(&function_call("c")),
        Some("assistant tool call tool: {}".to_string())
    );
    assert_eq!(render_history_item(&function_output("c")), Some("tool output: ok".to_string()));
    let search = ResponseItem::ToolSearchOutput {
        call_id: None,
        status: "completed".to_string(),
        execution: "client".to_string(),
        tools: Vec::new(),
    };
    assert_eq!(render_history_item(&search), Some("tool search completed: client".to_string()));
    assert_eq!(render_history_item(&ResponseItem::Other), None);
    assert_eq!(
        render_history_block(&[message("user", "a"), ResponseItem::Other, function_output("c")]),
        "user: a\n\ntool output: ok"
    );
}

#[test]
fn query_prefers_new_input_then_latest_user_message() {
    let history = vec![message("user", "old question"), message("assistant", "answer")];
    let input = vec![
        UserInput::Text { text: "  first ".to_string() },
        UserInput::Image { image_url: "x".to_string() },
        UserInput::Text { text: "second".to_string() },
    ];
    assert_eq!(lcm_query(&input, &history), Some("first\nsecond".to_string()));
    let blank = vec![UserInput::Text { text: "  ".to_string() }];
    assert_eq!(lcm_query(&blank, &history), Some("old question".to_string()));
    assert_eq!(lcm_query(&[], &[]), None);
}

#[test]
fn packet_message_mentions_the_leaf_summary() {
    let p = packet(Vec::new());
    assert_eq!(render_packet_message(&p, "summary"), "LCM packet packet-1 with leaf summary");
    assert_eq!(render_packet_message(&p, "  "), "LCM packet packet-1");
}

#[test]
fn replacement_history_falls_back_to_the_summary_and_keeps_the_tail() {
    let tail = vec![function_call("c"), function_output("c")];
    let p = packet(vec![packet_item(ContextPacketItemKind::RecentTail, "t", "tail")]);
    let history = lcm_replacement_history(&p, "the summary", &tail);
    assert_eq!(history.len(), 3);
    assert_eq!(
        history[0],
        history_message("LCM leaf summary", "the summary".to_string(), "active compressed history")
    );
    assert_eq!(history[1..].to_vec(), tail);
    let empty = lcm_replacement_history(&p, " ", &tail);
    assert_eq!(empty, tail);
}

#[test]
fn compacted_item_records_the_compaction() {
    let p = packet(Vec::new());
    let leaf = OpenBrainLeafSummary {
        summary_node_id: "node-1".to_string(),
        thread_id: "thread-1".to_string(),
        depth: 0,
        span_id: Some("span-1".to_string()),
    };
    let item = lcm_compacted_item(&p, "s", Vec::new(), Some(&leaf), 10, 0, 2);
    assert_eq!(item.message, "LCM packet packet-1 with leaf summary");
    assert_eq!(item.summary_node_id, Some("node-1".to_string()));
    assert_eq!(item.span_id, Some("span-1".to_string()));
    assert_eq!(item.depth, Some(0));
    assert_eq!(item.src_tok, Some(10));
    assert_eq!(item.desc_tok, None);
    assert_eq!(item.fresh_tail_count, Some(2));
}

#[test]
fn leaf_summaries_are_promoted_whole() {
    let head = vec![message("user", "Ship the parser")];
    let leaf = OpenBrainLeafSummary {
        summary_node_id: "node-1".to_string(),
        thread_id: "thread-1".to_string(),
        depth: 0,
        span_id: None,
    };
    let refs = vec!["event-1".to_string()];
    let candidate = lcm_promotion_candidate(&head, &leaf, "summary text", &refs, 100, 20);
    assert_eq!(
        candidate,
        OpenBrainDurableMemoryCandidate {
            summary_node_id: "node-1".to_string(),
            title: "LCM memory: Ship the parser".to_string(),
            content: "summary text".to_string(),
            source_event_ids: refs.clone(),
            source_token_count: Some(100),
            summary_token_count: Some(20),
        }
    );
    let record = leaf_summary_record(&candidate, "active compaction", true).expect("record");
    assert_eq!(record.memory_type, "lcm_leaf_summary");
    assert_eq!(record.source_node_ids, vec!["node-1".to_string()]);
    assert_eq!(record.memory_key, None);
    let keys: Vec<&str> = record.metadata.iter().map(|(k, _)| k.as_str()).collect();
    assert_eq!(
        keys,
        vec!["memory_kind", "promotion_source", "source_token_count", "summary_node_id", "summary_token_count"]
    );
    assert_eq!(record.metadata[2].1, JsonValue::Number(JsonNumber::PosInt(100)));
    let mut blank = candidate.clone();
    blank.content = "  ".to_string();
    assert!(leaf_summary_record(&blank, "active compaction", true).is_none());
}

#[test]
fn compaction_steps_follow_the_run() {
    let head = vec![message("user", "Ship it")];
    let refs = vec!["event-1".to_string()];
    let step = |head_text: &str, summary: &str, mode: &LcmMemoryPromotionMode, event: CompactionEvent| {
        codex_lcm::lcm::compaction_step(&head, head_text, summary, &refs, 10, 2, mode, event)
    };
    let enabled = LcmMemoryPromotionMode::Enabled;
    assert_eq!(step("user: Ship it", "", &enabled, CompactionEvent::HeadRendered), CompactionAction::Summarize);
    assert_eq!(step("  ", "", &enabled, CompactionEvent::HeadRendered), CompactionAction::AssembleContext);
    assert_eq!(step("x", "sum", &enabled, CompactionEvent::Summarized), CompactionAction::CompactLeaf);
    assert_eq!(step("x", " ", &enabled, CompactionEvent::Summarized), CompactionAction::AssembleContext);
    let leaf = OpenBrainLeafSummary {
        summary_node_id: "node-1".to_string(),
        thread_id: "thread-1".to_string(),
        depth: 0,
        span_id: None,
    };
    let CompactionAction::Promote(candidate) = step("x", "sum", &enabled, CompactionEvent::LeafCompacted(leaf.clone()))
    else {
        panic!("expected a promotion");
    };
    assert_eq!(candidate.title, "LCM memory: Ship it");
    assert_eq!(candidate.source_token_count, Some(10));
    assert_eq!(
        step("x", "sum", &LcmMemoryPromotionMode::Disabled, CompactionEvent::LeafCompacted(leaf)),
        CompactionAction::Notify("LCM durable memory skipped because thread memory mode is disabled.".to_string())
    );
}

#[test]
fn leaf_promotion_notices_depend_on_the_answer() {
    assert_eq!(
        leaf_promotion_notice("node-1", &Ok(1), true),
        Some("LCM durable memory promoted from summary node-1.".to_string())
    );
    assert_eq!(leaf_promotion_notice("node-1", &Ok(0), true), None);
    assert_eq!(leaf_promotion_notice("node-1", &Ok(3), false), None);
    assert_eq!(
        leaf_promotion_notice("node-1", &Err("down".to_string()), true),
        Some("LCM durable-memory promotion failed: down".to_string())
    );
    assert_eq!(leaf_promotion_notice("node-1", &Err("down".to_string()), false), None);
}
