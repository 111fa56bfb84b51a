use codex_lcm::integrity::analyze_history;
use codex_lcm::integrity::compute_protected_tail_split;
use codex_lcm::integrity::family_label;
use codex_lcm::integrity::missing_output_insertions;
use codex_lcm::integrity::orphan_output_indexes;
use codex_lcm::integrity::repair_replacement_history_for_resume;
use codex_lcm::integrity::synthetic_output_for_call;
use codex_lcm::integrity::validate_replacement_history;
use codex_lcm::integrity::CallOutputFamily;
use codex_lcm::integrity::HistoryIntegrityIssue;
use codex_lcm::items::ResponseItem;

fn function_call(call_id: &str) -> ResponseItem {
    ResponseItem::FunctionCall {
        name: "tool".to_string(),
        arguments: "{}".to_string(),
        call_id: call_id.to_string(),
    }
}

fn function_output(call_id: &str) -> ResponseItem {
    ResponseItem::FunctionCallOutput {
        call_id: call_id.to_string(),
        output: "ok".to_string(),
    }
}

fn reasoning() -> ResponseItem {
    ResponseItem::Reasoning {
        id: String::new(),
        summary: Vec::new(),
    }
}

fn user_message() -> ResponseItem {
    ResponseItem::Message {
        id: None,
        role: "user".to_string(),
        content: Vec::new(),
    }
}

#[test]
fn protected_tail_split_keeps_separated_function_call_pairs() {
    let items = vec![
        user_message(),
        function_call("call-1"),
        reasoning(),
        function_output("call-1"),
    ];

    assert_eq!(compute_protected_tail_split(&items, 1), 1);
}

#[test]
fn validate_replacement_history_rejects_orphan_outputs() {
    let issues = validate_replacement_history(&[function_output("call-1")])
        .expect_err("orphan output should be invalid");

    assert_eq!(
        issues,
        vec![HistoryIntegrityIssue::OrphanOutput {
            call_id: "call-1".to_string(),
            family: "function_or_shell",
        }]
    );
}

#[test]
fn repair_replacement_history_for_resume_drops_orphans_and_inserts_missing_outputs() {
    let items = vec![function_call("call-1"), function_output("call-2")];

    let repaired = repair_replacement_history_for_resume(&items);

    assert!(repaired.changed);
    assert_eq!(
        repaired.issues,
        vec![
            HistoryIntegrityIssue::MissingOutput {
                call_id: "call-1".to_string(),
                family: "function_or_shell",
            },
            HistoryIntegrityIssue::OrphanOutput {
                call_id: "call-2".to_string(),
                family: "function_or_shell",
            },
        ]
    );
    assert_eq!(
        repaired.items,
        vec![
            function_call("call-1"),
            ResponseItem::FunctionCallOutput {
                call_id: "call-1".to_string(),
                output: "aborted".to_string(),
            },
        ]
    );
}

#[test]
fn repaired_history_validates() {
    let items = vec![
        function_output("call-0"),
        function_call("call-1"),
        user_message(),
        function_call("call-2"),
        function_output("call-2"),
    ];
    let repaired = repair_replacement_history_for_resume(&items);
    assert!(validate_replacement_history(&repaired.items).is_ok());
}

#[test]
fn valid_history_is_left_unchanged_by_repair() {
    let items = vec![user_message(), function_call("call-1"), function_output("call-1")];
    assert!(validate_replacement_history(&items).is_ok());
    let repaired = repair_replacement_history_for_resume(&items);
    assert!(!repaired.changed);
    assert!(repaired.issues.is_empty());
    assert_eq!(repaired.items, items);
}

#[test]
fn protected_tail_split_is_the_requested_one_when_no_pair_is_cut() {
    let items = vec![user_message(), function_call("call-1"), function_output("call-1"), user_message()];
    assert_eq!(compute_protected_tail_split(&items, 1), 3);
    assert_eq!(compute_protected_tail_split(&items, 0), 4);
    assert_eq!(compute_protected_tail_split(&items, 10), 0);
}

#[test]
fn analysis_lists_missing_and_orphaned_positions() {
    let items = vec![function_call("call-1"), function_output("call-2"), user_message()];
    let analysis = analyze_history(&items);
    assert_eq!(analysis.issues.len(), 2);
    assert_eq!(orphan_output_indexes(&items), vec![1]);
    let missing = missing_output_insertions(&items);
    assert_eq!(missing.len(), 1);
    assert_eq!(missing[0].0, 0);
}

#[test]
fn synthetic_outputs_answer_each_call_family() {
    assert_eq!(
        synthetic_output_for_call(&function_call("c")),
        ResponseItem::FunctionCallOutput { call_id: "c".to_string(), output: "aborted".to_string() }
    );
    let custom = ResponseItem::CustomToolCall {
        call_id: "d".to_string(),
        name: "n".to_string(),
        input: "i".to_string(),
    };
    assert_eq!(
        synthetic_output_for_call(&custom),
        ResponseItem::CustomToolCallOutput { call_id: "d".to_string(), name: None, output: "aborted".to_string() }
    );
}

#[test]
fn family_labels_name_each_family() {
    assert_eq!(family_label(CallOutputFamily::FunctionOrShell), "function_or_shell");
    assert_eq!(family_label(CallOutputFamily::CustomTool), "custom_tool");
    assert_eq!(family_label(CallOutputFamily::ClientToolSearch), "client_tool_search");
}

#[test]
fn repair_puts_each_synthetic_output_right_after_its_call() {
    let items = vec![function_output("call-2"), function_call("call-1")];
    let repaired = repair_replacement_history_for_resume(&items);
    assert!(repaired.changed);
    assert_eq!(
        repaired.issues,
        vec![
            HistoryIntegrityIssue::OrphanOutput {
                call_id: "call-2".to_string(),
                family: "function_or_shell",
            },
            HistoryIntegrityIssue::MissingOutput {
                call_id: "call-1".to_string(),
                family: "function_or_shell",
            },
        ]
    );
    assert_eq!(
        repaired.items,
        vec![
            function_call("call-1"),
            ResponseItem::FunctionCallOutput { call_id: "call-1".to_string(), output: "aborted".to_string() },
        ]
    );

    let items = vec![function_output("call-2"), function_call("call-1"), user_message()];
    let repaired = repair_replacement_history_for_resume(&items);
    assert_eq!(
        repaired.items,
        vec![
            function_call("call-1"),
            ResponseItem::FunctionCallOutput { call_id: "call-1".to_string(), output: "aborted".to_string() },
            user_message(),
        ]
    );
    assert!(validate_replacement_history(&repaired.items).is_ok());
}
