use codex_lcm::items::ContentItem;
use codex_lcm::items::ResponseItem;
use codex_lcm::items::content_items_to_text;
use codex_lcm::open_brain::at_least;
use codex_lcm::open_brain::clamp_context_token_budget;
use codex_lcm::open_brain::default_condensed_min_fanout;
use codex_lcm::open_brain::default_condensed_target_tokens;
use codex_lcm::open_brain::default_fresh_tail_count;
use codex_lcm::open_brain::default_incremental_max_depth;
use codex_lcm::open_brain::default_leaf_chunk_tokens;
use codex_lcm::open_brain::default_leaf_target_tokens;
use codex_lcm::open_brain::default_max_expand_tokens;
use codex_lcm::open_brain::default_new_session_retain_depth;
use codex_lcm::open_brain::derive_project_key;
use codex_lcm::open_brain::discover_git_root;
use codex_lcm::open_brain::graph_json_str;
use codex_lcm::open_brain::graph_json_string_array;
use codex_lcm::open_brain::graph_json_u32;
use codex_lcm::open_brain::latest_unpromoted_summary_candidate_from_graph;
use codex_lcm::open_brain::response_item_id;
use codex_lcm::open_brain::response_item_shape;
use codex_lcm::open_brain::response_item_text;
use codex_lcm::open_brain::source_event_refs_for_items;
use codex_lcm::open_brain::store_env_var_names;
use codex_lcm::open_brain::to_sync_records;
use codex_lcm::open_brain::JsonNumber;
use codex_lcm::open_brain::JsonValue;
use codex_lcm::open_brain::OpenBrainConfig;
use codex_lcm::open_brain::OpenBrainDurableMemoryCandidate;
use codex_lcm::open_brain::OpenBrainGraphStatus;
use codex_lcm::open_brain::OpenBrainGraphView;
use codex_lcm::open_brain::OpenBrainProjectScopeStrategy;
use codex_lcm::open_brain::OpenBrainRuntimeError;
use std::collections::BTreeMap;

fn text(s: &str) -> JsonValue {
    JsonValue::String(s.to_string())
}

fn uint(n: u64) -> JsonValue {
    JsonValue::Number(JsonNumber::PosInt(n))
}

fn object(entries: Vec<(&str, JsonValue)>) -> JsonValue {
    JsonValue::Object(entries.into_iter().map(|(k, v)| (k.to_string(), v)).collect())
}

#[test]
fn default_open_brain_config_is_disabled_and_mirrors_durable_thoughts() {
    let config = OpenBrainConfig::default();
    assert!(!config.enabled);
    assert!(config.mirror_durable_to_thoughts);
    assert_eq!(config.project_scope_strategy, OpenBrainProjectScopeStrategy::GitRootFirst);
}

#[test]
fn default_lcm_settings_match_the_contract() {
    assert_eq!(default_fresh_tail_count(), 64);
    assert_eq!(default_leaf_chunk_tokens(), 20_000);
    assert_eq!(default_leaf_target_tokens(), 1_200);
    assert_eq!(default_condensed_target_tokens(), 2_000);
    assert_eq!(default_condensed_min_fanout(), 4);
    assert_eq!(default_incremental_max_depth(), 1);
    assert_eq!(default_max_expand_tokens(), 4_000);
    assert_eq!(default_new_session_retain_depth(), 2);
}

#[test]
fn content_items_to_text_joins_non_empty_segments() {
    let items = vec![
        ContentItem::InputText { text: "hello".to_string() },
        ContentItem::OutputText { text: String::new() },
        ContentItem::OutputText { text: "world".to_string() },
    ];

    assert_eq!(content_items_to_text(&items), Some("hello\nworld".to_string()));
}

#[test]
fn response_item_text_renders_function_output() {
    let item = ResponseItem::FunctionCallOutput { call_id: "call-1".to_string(), output: "ok".to_string() };

    assert_eq!(response_item_text(&item), Some("ok".to_string()));
    assert_eq!(
        response_item_shape(&item),
        ("function_call_output".to_string(), "tool".to_string(), None, Some("call-1".to_string()))
    );
}

#[test]
fn latest_unpromoted_summary_candidate_prefers_latest_unpromoted_summary() {
    let graph = OpenBrainGraphView {
        thread_id: "thread-1".to_string(),
        project_key: None,
        scope_key: None,
        nodes: vec![
            object(vec![
                ("node_id", text("summary-new")),
                ("node_kind", text("summary_d0")),
                ("title", text("LCM leaf summary")),
                ("content", text("new summary content")),
                ("source_event_ids", JsonValue::Array(vec![text("event-2"), text("event-3")])),
                ("src_tok", uint(42_000)),
                ("desc_tok", uint(1_200)),
            ]),
            object(vec![
                ("node_id", text("summary-old")),
                ("node_kind", text("summary_d0")),
                ("title", text("older summary")),
                ("content", text("old summary content")),
                ("source_event_ids", JsonValue::Array(vec![text("event-1")])),
                ("src_tok", uint(21_000)),
                ("desc_tok", uint(1_000)),
            ]),
        ],
        edges: vec![object(vec![
            ("relationship_type", text("PROMOTES_TO")),
            ("to_node_id", text("summary-old")),
        ])],
        fresh_tail: Vec::new(),
        context_packets: Vec::new(),
        status: Some(OpenBrainGraphStatus {
            fresh_tail_count: 0,
            packet_count: 1,
            latest_packet_id: Some("packet-1".to_string()),
            latest_packet_token_budget: Some(4_000),
            latest_packet_query: Some("Operator console redesign".to_string()),
            node_kind_counts: BTreeMap::new(),
            depth_counts: BTreeMap::new(),
        }),
    };

    let candidate = latest_unpromoted_summary_candidate_from_graph(&graph);

    assert_eq!(
        candidate,
        Some(OpenBrainDurableMemoryCandidate {
            summary_node_id: "summary-new".to_string(),
            title: "Operator console redesign".to_string(),
            content: "new summary content".to_string(),
            source_event_ids: vec!["event-2".to_string(), "event-3".to_string()],
            source_token_count: Some(42_000),
            summary_token_count: Some(1_200),
        })
    );
}

#[test]
fn latest_unpromoted_summary_candidate_returns_none_when_all_summaries_promoted() {
    let graph = OpenBrainGraphView {
        thread_id: "thread-1".to_string(),
        project_key: None,
        scope_key: None,
        nodes: vec![object(vec![
            ("node_id", text("summary-only")),
            ("node_kind", text("summary_d0")),
            ("title", text("LCM leaf summary")),
            ("content", text("summary")),
            ("source_event_ids", JsonValue::Array(vec![text("event-1")])),
            ("src_tok", uint(22_000)),
            ("desc_tok", uint(1_100)),
        ])],
        edges: vec![object(vec![
            ("relationship_type", text("PROMOTES_TO")),
            ("to_node_id", text("summary-only")),
        ])],
        fresh_tail: Vec::new(),
        context_packets: Vec::new(),
        status: None,
    };

    assert_eq!(latest_unpromoted_summary_candidate_from_graph(&graph), None);
}

#[test]
fn graph_fields_are_read_by_the_first_present_key() {
    let node = object(vec![
        ("nodeKind", text("summary_d1plus")),
        ("srcTok", uint(7)),
        ("big", uint(5_000_000_000)),
        ("ids", JsonValue::Array(vec![text("a"), uint(3), text("b")])),
    ]);
    assert_eq!(graph_json_str(&node, &["node_kind", "nodeKind"]), Some("summary_d1plus"));
    assert_eq!(graph_json_u32(&node, &["src_tok", "srcTok"]), Some(7));
    assert_eq!(graph_json_u32(&node, &["big"]), None);
    assert_eq!(graph_json_string_array(&node, &["ids"]), vec!["a".to_string(), "b".to_string()]);
    assert!(graph_json_string_array(&node, &["missing"]).is_empty());
}

#[test]
fn items_get_stable_ids() {
    let items = vec![
        ResponseItem::Message { id: None, role: "user".to_string(), content: Vec::new() },
        ResponseItem::FunctionCallOutput { call_id: "c".to_string(), output: "o".to_string() },
        ResponseItem::Other,
    ];
    assert_eq!(response_item_id(&items[0], 12), "message-12");
    assert_eq!(
        source_event_refs_for_items(&items),
        vec!["message-0".to_string(), "function-output-c".to_string(), "other-2".to_string()]
    );
}

#[test]
fn sync_records_carry_item_text_in_payload() {
    let items = vec![
        ResponseItem::FunctionCallOutput { call_id: "c".to_string(), output: "done".to_string() },
        ResponseItem::Other,
    ];
    let payloads = vec![
        vec![("text".to_string(), text("old")), ("type".to_string(), text("function_call_output"))],
        vec![("type".to_string(), text("other"))],
    ];
    let records = to_sync_records("turn-1", &items, payloads, 99);
    assert_eq!(records.len(), 2);
    assert_eq!(records[0].role, "tool");
    assert_eq!(records[0].item_id, "function-output-c");
    assert_eq!(records[0].turn_id, Some("turn-1".to_string()));
    assert_eq!(records[0].linked_tool_call_id, Some("c".to_string()));
    assert_eq!(records[0].timestamp_ms, 99);
    assert_eq!(
        records[0].payload,
        vec![("type".to_string(), text("function_call_output")), ("text".to_string(), text("done"))]
    );
    assert_eq!(records[0].item_kind, Some("function_call_output".to_string()));
    assert_eq!(records[0].content, Some("done".to_string()));
    assert_eq!(records[1].payload, vec![("type".to_string(), text("other"))]);
    assert_eq!(records[1].item_index, Some(1));
}

#[test]
fn store_variables_default_and_disabled_is_refused() {
    let config = OpenBrainConfig::default();
    assert_eq!(store_env_var_names(&config), Err(OpenBrainRuntimeError::Disabled));
    let mut enabled = OpenBrainConfig::default();
    enabled.enabled = true;
    assert_eq!(
        store_env_var_names(&enabled),
        Ok(("SUPABASE_URL".to_string(), "SUPABASE_SERVICE_ROLE_KEY".to_string()))
    );
    enabled.supabase_url_env = Some("URL_VAR".to_string());
    assert_eq!(store_env_var_names(&enabled).map(|(u, _)| u), Ok("URL_VAR".to_string()));
}

#[test]
fn project_key_prefers_the_git_root() {
    let ancestors = vec![
        ("/repo/sub".to_string(), false),
        ("/repo".to_string(), true),
        ("/".to_string(), false),
    ];
    let root = discover_git_root(&ancestors);
    assert_eq!(root, Some("/repo".to_string()));
    assert_eq!(
        derive_project_key("/repo/sub", OpenBrainProjectScopeStrategy::GitRootFirst, root.as_deref()),
        "/repo"
    );
    assert_eq!(
        derive_project_key("/repo/sub", OpenBrainProjectScopeStrategy::WorkspaceRoot, root.as_deref()),
        "/repo/sub"
    );
    assert_eq!(
        derive_project_key("/tmp/x", OpenBrainProjectScopeStrategy::GitRootFirst, None),
        "/tmp/x"
    );
    assert_eq!(discover_git_root(&[("/a".to_string(), false)]), None);
}

#[test]
fn context_budgets_stay_within_floor_and_cap() {
    assert_eq!(clamp_context_token_budget(5_000, 4_000), 4_000);
    assert_eq!(clamp_context_token_budget(250, 4_000), 256);
    assert_eq!(clamp_context_token_budget(1_000, 4_000), 1_000);
    assert_eq!(at_least(0, 1), 1);
    assert_eq!(at_least(9, 1), 9);
}
