//! The decisions of an LCM compaction: where a history is split into the
//! part that is summarised and the fresh tail kept verbatim, how items
//! render as text, and what takes the place of the summarised part.
use vstd::prelude::*;
use crate::durable::spec_candidate_title;
use crate::items::{
    ContentItem, ContentView, ItemView, ResponseItem, UserInput, content_items_to_text,
    contents_view, copy_items, copy_texts, items_view, opt_text, spec_content_text,
};
use crate::open_brain::{
    CandidateView, ContextPacket, ContextPacketItem, ContextPacketItemKind, MetaValue,
    OpenBrainDurableMemoryCandidate, OpenBrainDurableMemoryRecord, OpenBrainLeafSummary,
    count_entry, expected_keys, key_lt, key_split, keys_ascending, lemma_keys_ascending_from_neighbours,
    lemma_meta_keys_match, metadata_in_key_order, metadata_is, text_entry, value_is,
};
use crate::text::{
    append_str, chars_of, collapse_whitespace, is_ws, lemma_collapse_ends, lemma_trim_nonempty_has_char,
    lemma_trim_of_trimmed, starts_with, concat2, concat3, concat4, collapse_ws, join, join_strings, owned,
    slice_chars, str_eq, string_from_chars, strings_view, trim, trim_bounds, trimmed,
};

verus! {

/// Items that call a tool and expect an output.
pub open spec fn is_call_item(item: ItemView) -> bool {
    ||| item is FunctionCall
    ||| item is CustomToolCall
    ||| item is ToolSearchCall
}

/// Items that answer a tool call.
pub open spec fn is_output_item(item: ItemView) -> bool {
    ||| item is FunctionCallOutput
    ||| item is CustomToolCallOutput
    ||| item is ToolSearchOutput
}

pub open spec fn opt_item_view(o: Option<&ResponseItem>) -> Option<ItemView> {
    match o {
        Some(item) => Some(item@),
        None => None,
    }
}

/// Whether the tail must grow left to keep `left` with `right`: a tool call
/// directly followed by a tool output.
pub open spec fn expands_left(left: Option<ItemView>, right: Option<ItemView>) -> bool {
    match (left, right) {
        (Some(l), Some(r)) => is_call_item(l) && is_output_item(r),
        _ => false,
    }
}

/// Whether the split point must move left past `left` so that a call stays
/// with the output that follows it.
pub fn should_expand_tail_left(left: Option<&ResponseItem>, right: Option<&ResponseItem>) -> (r:
    bool)
    ensures
        r == expands_left(opt_item_view(left), opt_item_view(right)),
{
    match (left, right) {
        (Some(l), Some(r)) => {
            let call = match l {
                ResponseItem::FunctionCall { .. } | ResponseItem::CustomToolCall { .. }
                | ResponseItem::ToolSearchCall { .. } => true,
                _ => false,
            };
            let output = match r {
                ResponseItem::FunctionCallOutput { .. } | ResponseItem::CustomToolCallOutput {
                    ..
                } | ResponseItem::ToolSearchOutput { .. } => true,
                _ => false,
            };
            call && output
        },
        _ => false,
    }
}

/// Where the fresh tail would start if only the count mattered: the last
/// `fresh_tail_count` items (all of them when there are fewer).
pub open spec fn requested_tail_start(items: Seq<ItemView>, fresh_tail_count: nat) -> int {
    if fresh_tail_count < items.len() {
        items.len() - fresh_tail_count
    } else {
        0
    }
}

/// Where a history is split: the requested start of the tail, moved one
/// item left when a tool call there would be cut from the output that
/// follows it.
pub open spec fn lcm_split_point(items: Seq<ItemView>, fresh_tail_count: nat) -> int {
    let start = requested_tail_start(items, fresh_tail_count);
    if 0 < start < items.len() && is_call_item(items[start - 1]) && is_output_item(items[start]) {
        start - 1
    } else {
        start
    }
}

fn item_at(items: &[ResponseItem], i: usize) -> (r: Option<&ResponseItem>)
    ensures
        opt_item_view(r) == if i < items@.len() {
            Some(items@[i as int]@)
        } else {
            None::<ItemView>
        },
{
    if i < items.len() {
        Some(&items[i])
    } else {
        None
    }
}

/// Splits `items` into the part to summarise and the fresh tail.
///
/// The tail holds at least the last `fresh_tail_count` items, and a tool
/// call is never left in the head when its output opens the tail.
pub fn split_history_for_lcm(items: &[ResponseItem], fresh_tail_count: usize) -> (r: (
    Vec<ResponseItem>,
    Vec<ResponseItem>,
))
    ensures
        items_view(r.0@) == items_view(items@).take(
            lcm_split_point(items_view(items@), fresh_tail_count as nat),
        ),
        items_view(r.1@) == items_view(items@).skip(
            lcm_split_point(items_view(items@), fresh_tail_count as nat),
        ),
        items_view(r.0@) + items_view(r.1@) == items_view(items@),
        r.1@.len() >= if fresh_tail_count < items@.len() {
            fresh_tail_count as int
        } else {
            items@.len() as int
        },
        !(r.0@.len() > 0 && r.1@.len() > 0 && is_call_item(r.0@.last()@) && is_output_item(
            r.1@[0]@,
        )),
{
    let ghost iv = items_view(items@);
    if items.len() == 0 {
        let e1: Vec<ResponseItem> = Vec::new();
        let e2: Vec<ResponseItem> = Vec::new();
        assert(items_view(e1@) =~= iv.take(0));
        assert(items_view(e2@) =~= iv.skip(0));
        return (e1, e2);
    }
    let keep: usize = if fresh_tail_count < items.len() {
        fresh_tail_count
    } else {
        items.len()
    };
    let start: usize = items.len() - keep;
    assert(start == requested_tail_start(iv, fresh_tail_count as nat));
    let mut split_at: usize = start;
    while split_at > 0 && should_expand_tail_left(
        item_at(items, split_at - 1),
        item_at(items, split_at),
    )
        invariant
            iv == items_view(items@),
            start == requested_tail_start(iv, fresh_tail_count as nat),
            start <= items@.len(),
            split_at == start || (split_at + 1 == start && start < iv.len() && is_call_item(
                iv[split_at as int],
            ) && is_output_item(iv[start as int])),
        decreases split_at,
    {
        split_at = split_at - 1;
    }
    proof {
        if split_at == start && 0 < start < iv.len() && is_call_item(iv[start - 1])
            && is_output_item(iv[start as int]) {
            assert(expands_left(Some(iv[start - 1]), Some(iv[start as int])));
        }
        if split_at + 1 == start {
            assert(!is_output_item(iv[split_at as int]));
        }
    }
    assert(split_at == lcm_split_point(iv, fresh_tail_count as nat));
    let head = copy_items(items, 0, split_at);
    let tail = copy_items(items, split_at, items.len());
    assert(items_view(items@.subrange(0, split_at as int)) =~= iv.take(split_at as int));
    assert(items_view(items@.subrange(split_at as int, items@.len() as int)) =~= iv.skip(
        split_at as int,
    ));
    assert(iv.take(split_at as int) + iv.skip(split_at as int) =~= iv);
    proof {
        if head@.len() > 0 && tail@.len() > 0 {
            assert(head@.last()@ == items_view(head@)[head@.len() - 1]);
            assert(tail@[0]@ == items_view(tail@)[0]);
        }
    }
    (head, tail)
}

/// The text an item contributes to a rendered history block.
pub open spec fn spec_render_item(item: ItemView) -> Option<Seq<char>> {
    match item {
        ItemView::Message { role, content, .. } => match spec_content_text(content) {
            Some(text) => Some(role + ": "@ + text),
            None => None,
        },
        ItemView::FunctionCall { name, arguments, .. } => Some(
            "assistant tool call "@ + name + ": "@ + arguments,
        ),
        ItemView::FunctionCallOutput { output, .. } => Some("tool output: "@ + output),
        ItemView::CustomToolCall { name, input, .. } => Some(
            "assistant custom tool "@ + name + ": "@ + input,
        ),
        ItemView::CustomToolCallOutput { output, .. } => Some("tool output: "@ + output),
        ItemView::ToolSearchCall { execution, arguments, .. } => Some(
            "assistant tool search "@ + execution + ": "@ + arguments,
        ),
        ItemView::ToolSearchOutput { status, execution, .. } => Some(
            "tool search "@ + status + ": "@ + execution,
        ),
        _ => None,
    }
}

/// The text of one history item, if it has any.
pub fn render_history_item(item: &ResponseItem) -> (r: Option<String>)
    ensures
        opt_text(r) == spec_render_item(item@),
{
    match item {
        ResponseItem::Message { role, content, .. } => match content_items_to_text(
            content.as_slice(),
        ) {
            Some(text) => Some(concat3(role.as_str(), ": ", text.as_str())),
            None => None,
        },
        ResponseItem::FunctionCall { name, arguments, .. } => Some(
            concat4("assistant tool call ", name.as_str(), ": ", arguments.as_str()),
        ),
        ResponseItem::FunctionCallOutput { output, .. } => Some(
            concat2("tool output: ", output.as_str()),
        ),
        ResponseItem::CustomToolCall { name, input, .. } => Some(
            concat4("assistant custom tool ", name.as_str(), ": ", input.as_str()),
        ),
        ResponseItem::CustomToolCallOutput { output, .. } => Some(
            concat2("tool output: ", output.as_str()),
        ),
        ResponseItem::ToolSearchCall { execution, arguments, .. } => Some(
            concat4("assistant tool search ", execution.as_str(), ": ", arguments.as_str()),
        ),
        ResponseItem::ToolSearchOutput { status, execution, .. } => Some(
            concat4("tool search ", status.as_str(), ": ", execution.as_str()),
        ),
        _ => None,
    }
}

/// The texts of the items that render, in order.
pub open spec fn rendered_items(items: Seq<ItemView>) -> Seq<Seq<char>>
    decreases items.len(),
{
    if items.len() == 0 {
        Seq::empty()
    } else {
        rendered_items(items.drop_last()) + match spec_render_item(items.last()) {
            Some(t) => seq![t],
            None => Seq::empty(),
        }
    }
}

/// The rendered items of a history, separated by blank lines.
pub fn render_history_block(items: &[ResponseItem]) -> (r: String)
    ensures
        r@ == join(rendered_items(items_view(items@)), "\n\n"@),
{
    let ghost iv = items_view(items@);
    let mut parts: Vec<String> = Vec::new();
    let mut i: usize = 0;
    while i < items.len()
        invariant
            0 <= i <= items.len(),
            iv == items_view(items@),
            strings_view(parts@) == rendered_items(iv.take(i as int)),
        decreases items.len() - i,
    {
        assert(iv.take(i + 1).drop_last() == iv.take(i as int));
        assert(iv.take(i + 1).last() == items@[i as int]@);
        let ghost before = parts@;
        match render_history_item(&items[i]) {
            Some(t) => {
                parts.push(t);
                assert(strings_view(parts@) == strings_view(before).push(t@));
            },
            None => {},
        }
        i = i + 1;
    }
    assert(iv.take(items.len() as int) == iv);
    let sep = chars_of("\n\n");
    let joined = join_strings(parts.as_slice(), sep.as_slice());
    string_from_chars(joined.as_slice())
}

/// The text of the latest user message that has text.
pub open spec fn latest_user_text(items: Seq<ItemView>) -> Option<Seq<char>>
    decreases items.len(),
{
    if items.len() == 0 {
        None
    } else {
        let here = match items.last() {
            ItemView::Message { role, content, .. } => if role == "user"@ {
                spec_content_text(content)
            } else {
                None
            },
            _ => None,
        };
        match here {
            Some(t) => Some(t),
            None => latest_user_text(items.drop_last()),
        }
    }
}

/// The text of the latest user message that has text.
pub fn latest_user_message_text(items: &[ResponseItem]) -> (r: Option<String>)
    ensures
        opt_text(r) == latest_user_text(items_view(items@)),
{
    let ghost iv = items_view(items@);
    assert(iv.take(items@.len() as int) == iv);
    let mut i: usize = items.len();
    while i > 0
        invariant
            i <= items@.len(),
            iv == items_view(items@),
            latest_user_text(iv) == latest_user_text(iv.take(i as int)),
        decreases i,
    {
        let ghost p = iv.take(i as int);
        assert(p.drop_last() == iv.take(i - 1));
        assert(p.last() == items@[i - 1]@);
        match &items[i - 1] {
            ResponseItem::Message { role, content, .. } => {
                if str_eq(role.as_str(), "user") {
                    let t = content_items_to_text(content.as_slice());
                    if t.is_some() {
                        return t;
                    }
                }
            },
            _ => {},
        }
        i = i - 1;
    }
    None
}

/// The trimmed, non-blank texts of the text inputs, in order.
pub open spec fn input_texts(inputs: Seq<UserInput>) -> Seq<Seq<char>>
    decreases inputs.len(),
{
    if inputs.len() == 0 {
        Seq::empty()
    } else {
        input_texts(inputs.drop_last()) + match inputs.last() {
            UserInput::Text { text } => if trim(text@).len() > 0 {
                seq![trim(text@)]
            } else {
                Seq::empty()
            },
            UserInput::Image { .. } => Seq::empty(),
        }
    }
}

/// The query a context packet is assembled for: the text of the new input,
/// or else the latest user message of the history.
pub open spec fn spec_lcm_query(inputs: Seq<UserInput>, items: Seq<ItemView>) -> Option<Seq<char>> {
    let joined = join(input_texts(inputs), seq!['\n']);
    if trim(joined).len() > 0 {
        Some(joined)
    } else {
        latest_user_text(items)
    }
}

/// The query a context packet is assembled for.
pub fn lcm_query(input: &[UserInput], history_items: &[ResponseItem]) -> (r: Option<String>)
    ensures
        opt_text(r) == spec_lcm_query(input@, items_view(history_items@)),
{
    let mut parts: Vec<String> = Vec::new();
    let mut i: usize = 0;
    while i < input.len()
        invariant
            0 <= i <= input.len(),
            strings_view(parts@) == input_texts(input@.take(i as int)),
        decreases input.len() - i,
    {
        assert(input@.take(i + 1).drop_last() == input@.take(i as int));
        assert(input@.take(i + 1).last() == input@[i as int]);
        let ghost before = parts@;
        match &input[i] {
            UserInput::Text { text } => {
                let c = chars_of(text.as_str());
                let t = trimmed(c.as_slice());
                if t.len() > 0 {
                    parts.push(string_from_chars(t.as_slice()));
                    assert(strings_view(parts@) == strings_view(before).push(t@));
                }
            },
            UserInput::Image { .. } => {},
        }
        i = i + 1;
    }
    assert(input@.take(input@.len() as int) == input@);
    let sep: Vec<char> = vec!['\n'];
    assert(sep@ =~= seq!['\n']);
    let joined = join_strings(parts.as_slice(), sep.as_slice());
    let (a, b) = trim_bounds(joined.as_slice());
    if a < b {
        Some(string_from_chars(joined.as_slice()))
    } else {
        latest_user_message_text(history_items)
    }
}

/// `text` with its whitespace collapsed, cut to `max_chars` characters, an
/// ellipsis marking the cut.
pub open spec fn spec_preview(text: Seq<char>, max_chars: nat) -> Seq<char> {
    let compact = collapse_ws(text);
    if compact.len() > max_chars {
        compact.take(max_chars as int).push('\u{2026}')
    } else {
        compact
    }
}

/// A one-line preview of `text` of at most `max_chars` characters, plus an
/// ellipsis when it was cut.
pub fn preview_text(text: &str, max_chars: usize) -> (r: String)
    ensures
        r@ == spec_preview(text@, max_chars as nat),
{
    let c = chars_of(text);
    let compact = collapse_whitespace(c.as_slice());
    if compact.len() > max_chars {
        let mut p = slice_chars(compact.as_slice(), 0, max_chars);
        p.push('\u{2026}');
        assert(compact@.subrange(0, max_chars as int) == compact@.take(max_chars as int));
        string_from_chars(p.as_slice())
    } else {
        string_from_chars(compact.as_slice())
    }
}

/// The title of the durable memory promoted from a history.
pub open spec fn spec_memory_title(items: Seq<ItemView>) -> Seq<char> {
    match latest_user_text(items) {
        Some(t) => "LCM memory: "@ + spec_preview(t, 72),
        None => "LCM durable memory"@,
    }
}

/// The title of the durable memory promoted from `items`: a preview of the
/// latest user message.
pub fn latest_user_message_title(items: &[ResponseItem]) -> (r: String)
    ensures
        r@ == spec_memory_title(items_view(items@)),
{
    match latest_user_message_text(items) {
        Some(text) => {
            let p = preview_text(text.as_str(), 72);
            concat2("LCM memory: ", p.as_str())
        },
        None => owned("LCM durable memory"),
    }
}

/// Whether a thread lets LCM summaries be promoted to durable memory, as
/// its memory mode says.
#[derive(Clone, Debug, PartialEq, Eq)]
pub enum LcmMemoryPromotionMode {
    Enabled,
    Disabled,
    Legacy(String),
}

/// The name of a promotion mode.
pub open spec fn mode_name(mode: LcmMemoryPromotionMode) -> Seq<char> {
    match mode {
        LcmMemoryPromotionMode::Enabled => "enabled"@,
        LcmMemoryPromotionMode::Disabled => "disabled"@,
        LcmMemoryPromotionMode::Legacy(m) => m@,
    }
}

/// The mode a stored thread memory mode resolves to: `disabled` blocks
/// promotion, `enabled` or no mode allows it, any other name is kept as a
/// legacy mode, which allows it too.
pub open spec fn resolved_mode_is(mode: Option<Seq<char>>, r: LcmMemoryPromotionMode) -> bool {
    match mode {
        None => r is Enabled,
        Some(m) => if m == "disabled"@ {
            r is Disabled
        } else if m == "enabled"@ {
            r is Enabled
        } else {
            r matches LcmMemoryPromotionMode::Legacy(l) && l@ == m
        },
    }
}

pub open spec fn opt_str_view(o: Option<&str>) -> Option<Seq<char>> {
    match o {
        Some(s) => Some(s@),
        None => None,
    }
}

impl LcmMemoryPromotionMode {
    /// Whether summaries may be promoted: in every mode but `Disabled`.
    pub fn allows_promotion(&self) -> (r: bool)
        ensures
            r == !(self is Disabled),
    {
        match self {
            LcmMemoryPromotionMode::Disabled => false,
            _ => true,
        }
    }

    /// The mode's name.
    pub fn as_str(&self) -> (r: &str)
        ensures
            r@ == mode_name(*self),
    {
        match self {
            LcmMemoryPromotionMode::Enabled => "enabled",
            LcmMemoryPromotionMode::Disabled => "disabled",
            LcmMemoryPromotionMode::Legacy(mode) => mode.as_str(),
        }
    }
}

/// The promotion mode for a stored thread memory mode.
pub fn lcm_resolve_memory_promotion_mode(mode: Option<&str>) -> (r: LcmMemoryPromotionMode)
    ensures
        resolved_mode_is(opt_str_view(mode), r),
{
    match mode {
        Some(m) => if str_eq(m, "disabled") {
            LcmMemoryPromotionMode::Disabled
        } else if str_eq(m, "enabled") {
            LcmMemoryPromotionMode::Enabled
        } else {
            LcmMemoryPromotionMode::Legacy(owned(m))
        },
        None => LcmMemoryPromotionMode::Enabled,
    }
}

/// The text of a replayed message: a title line, the content, and the
/// reason it was chosen.
pub open spec fn replay_text(title: Seq<char>, content: Seq<char>, reason: Seq<char>) -> Seq<
    char,
> {
    title + seq!['\n'] + content + "\n\nReason: "@ + reason
}

fn replay_string(title: &str, content: &str, reason: &str) -> (r: String)
    ensures
        r@ == replay_text(title@, content@, reason@),
{
    let mut out = chars_of(title);
    out.push('\n');
    append_str(&mut out, content);
    append_str(&mut out, "\n\nReason: ");
    append_str(&mut out, reason);
    string_from_chars(out.as_slice())
}

/// An assistant message carrying `replay_text(title, content, reason)`.
pub open spec fn assistant_replay(title: Seq<char>, content: Seq<char>, reason: Seq<char>) -> ItemView {
    ItemView::Message {
        id: None,
        role: "assistant"@,
        content: seq![ContentView::OutputText(replay_text(title, content, reason))],
    }
}

/// A user message carrying `replay_text(title, content, reason)`.
pub open spec fn user_replay(title: Seq<char>, content: Seq<char>, reason: Seq<char>) -> ItemView {
    ItemView::Message {
        id: None,
        role: "user"@,
        content: seq![ContentView::InputText(replay_text(title, content, reason))],
    }
}

/// A packet item replayed into the history as an assistant message.
pub fn context_history_message(title: &str, content: String, selection_reason: &str) -> (r:
    ResponseItem)
    ensures
        r@ == assistant_replay(title@, content@, selection_reason@),
{
    let text = replay_string(title, content.as_str(), selection_reason);
    let parts = vec![ContentItem::OutputText { text }];
    assert(contents_view(parts@) =~= seq![ContentView::OutputText(replay_text(title@, content@, selection_reason@))]);
    ResponseItem::Message { id: None, role: owned("assistant"), content: parts }
}

/// The leaf summary replayed into the history as a user message.
pub fn history_message(title: &str, content: String, selection_reason: &str) -> (r: ResponseItem)
    ensures
        r@ == user_replay(title@, content@, selection_reason@),
{
    let text = replay_string(title, content.as_str(), selection_reason);
    let parts = vec![ContentItem::InputText { text }];
    assert(contents_view(parts@) =~= seq![ContentView::InputText(replay_text(title@, content@, selection_reason@))]);
    ResponseItem::Message { id: None, role: owned("user"), content: parts }
}

/// The title a packet item of the given kind is replayed under; the recent
/// tail is not replayed, it is kept verbatim.
pub open spec fn kind_title(kind: ContextPacketItemKind) -> Option<Seq<char>> {
    match kind {
        ContextPacketItemKind::RecentTail => None,
        ContextPacketItemKind::GraphFrontier => Some("LCM frontier summary"@),
        ContextPacketItemKind::DurableMemory => Some("LCM durable memory"@),
        ContextPacketItemKind::ExplicitExpansion => Some("LCM expansion"@),
        ContextPacketItemKind::WorkingMemory => Some("LCM working memory"@),
        ContextPacketItemKind::SystemInstruction => Some("LCM system instruction"@),
    }
}

/// The history a packet's items replay to, in order.
pub open spec fn packet_history(items: Seq<ContextPacketItem>) -> Seq<ItemView>
    decreases items.len(),
{
    if items.len() == 0 {
        Seq::empty()
    } else {
        packet_history(items.drop_last()) + match kind_title(items.last().kind) {
            Some(t) => seq![assistant_replay(t, items.last().content@, items.last().selection_reason@)],
            None => Seq::empty(),
        }
    }
}

fn title_for(kind: ContextPacketItemKind) -> (r: Option<&'static str>)
    ensures
        opt_str_view(r) == kind_title(kind),
{
    match kind {
        ContextPacketItemKind::RecentTail => None,
        ContextPacketItemKind::GraphFrontier => Some("LCM frontier summary"),
        ContextPacketItemKind::DurableMemory => Some("LCM durable memory"),
        ContextPacketItemKind::ExplicitExpansion => Some("LCM expansion"),
        ContextPacketItemKind::WorkingMemory => Some("LCM working memory"),
        ContextPacketItemKind::SystemInstruction => Some("LCM system instruction"),
    }
}

/// The messages a context packet replays into the history: every item but
/// the recent tail, as an assistant message titled by its kind.
pub fn packet_items_to_history(packet: &ContextPacket) -> (r: Vec<ResponseItem>)
    ensures
        items_view(r@) == packet_history(packet.items@),
{
    let items = &packet.items;
    let mut r: Vec<ResponseItem> = Vec::new();
    let mut i: usize = 0;
    while i < items.len()
        invariant
            0 <= i <= items.len(),
            items == &packet.items,
            items_view(r@) == packet_history(items@.take(i as int)),
        decreases items.len() - i,
    {
        assert(items@.take(i + 1).drop_last() == items@.take(i as int));
        assert(items@.take(i + 1).last() == items@[i as int]);
        let item = &items[i];
        match title_for(item.kind) {
            Some(t) => {
                let ghost before = r@;
                let m = context_history_message(t, item.content.clone(), item.selection_reason.as_str());
                r.push(m);
                assert(items_view(r@) == items_view(before).push(m@));
            },
            None => {},
        }
        i = i + 1;
    }
    assert(items@.take(items@.len() as int) == items@);
    r
}

/// The message recorded for a compaction.
pub open spec fn spec_packet_message(packet_id: Seq<char>, summary_text: Seq<char>) -> Seq<char> {
    if trim(summary_text).len() > 0 {
        "LCM packet "@ + packet_id + " with leaf summary"@
    } else {
        "LCM packet "@ + packet_id
    }
}

/// The message recorded for a compaction that assembled `packet`.
pub fn render_packet_message(packet: &ContextPacket, summary_text: &str) -> (r: String)
    ensures
        r@ == spec_packet_message(packet.packet_id@, summary_text@),
{
    let c = chars_of(summary_text);
    let (a, b) = trim_bounds(c.as_slice());
    if a < b {
        concat3("LCM packet ", packet.packet_id.as_str(), " with leaf summary")
    } else {
        concat2("LCM packet ", packet.packet_id.as_str())
    }
}

/// What takes the place of a summarised history: the packet's replayed
/// items or, when it replays none and there is a summary, the summary as a
/// user message; then the fresh tail unchanged.
pub open spec fn spec_replacement_history(
    packet_items: Seq<ContextPacketItem>,
    summary_text: Seq<char>,
    tail: Seq<ItemView>,
) -> Seq<ItemView> {
    let replayed = packet_history(packet_items);
    let compressed = if replayed.len() == 0 && trim(summary_text).len() > 0 {
        seq![user_replay("LCM leaf summary"@, summary_text, "active compressed history"@)]
    } else {
        replayed
    };
    compressed + tail
}

/// The history that replaces a compacted one, given the assembled packet,
/// the leaf summary text and the fresh tail.
///
/// The initial context that some compactions insert before the last user
/// message is not placed here.
pub fn lcm_replacement_history(packet: &ContextPacket, summary_text: &str, tail: &[ResponseItem]) -> (r:
    Vec<ResponseItem>)
    ensures
        items_view(r@) == spec_replacement_history(packet.items@, summary_text@, items_view(tail@)),
{
    let mut history = packet_items_to_history(packet);
    let c = chars_of(summary_text);
    let (a, b) = trim_bounds(c.as_slice());
    if history.len() == 0 && a < b {
        let m = history_message("LCM leaf summary", owned(summary_text), "active compressed history");
        history.push(m);
        assert(items_view(history@) =~= seq![m@]);
    }
    let ghost compressed = items_view(history@);
    let rest = copy_items(tail, 0, tail.len());
    assert(tail@.subrange(0, tail@.len() as int) == tail@);
    let mut i: usize = 0;
    let mut out = history;
    while i < rest.len()
        invariant
            0 <= i <= rest@.len(),
            items_view(rest@) == items_view(tail@),
            items_view(out@) == compressed + items_view(rest@).take(i as int),
        decreases rest.len() - i,
    {
        let ghost before = items_view(out@);
        let x = rest[i].duplicate();
        out.push(x);
        assert(items_view(out@) =~= before.push(x@));
        assert(items_view(rest@).take(i + 1) =~= items_view(rest@).take(i as int).push(rest@[i as int]@));
        i = i + 1;
    }
    assert(items_view(rest@).take(rest@.len() as int) =~= items_view(rest@));
    out
}

/// The record of a compaction kept in the rollout.
#[derive(Debug, PartialEq)]
pub struct CompactedItem {
    pub message: String,
    pub replacement_history: Option<Vec<ResponseItem>>,
    pub summary_node_id: Option<String>,
    pub span_id: Option<String>,
    pub depth: Option<u32>,
    pub src_tok: Option<u32>,
    pub desc_tok: Option<u32>,
    pub fresh_tail_count: Option<u32>,
}

pub open spec fn nonzero(n: u32) -> Option<u32> {
    if n > 0 {
        Some(n)
    } else {
        None
    }
}

/// The record of a compaction that assembled `packet`, replaced the history
/// by `replacement_history` and kept `fresh_tail_count` items verbatim.
pub fn lcm_compacted_item(
    packet: &ContextPacket,
    summary_text: &str,
    replacement_history: Vec<ResponseItem>,
    leaf_summary: Option<&OpenBrainLeafSummary>,
    source_token_count: u32,
    summary_token_count: u32,
    fresh_tail_count: usize,
) -> (r: CompactedItem)
    ensures
        r.message@ == spec_packet_message(packet.packet_id@, summary_text@),
        r.replacement_history == Some(replacement_history),
        opt_text(r.summary_node_id) == match leaf_summary {
            Some(l) => Some(l.summary_node_id@),
            None => None::<Seq<char>>,
        },
        opt_text(r.span_id) == match leaf_summary {
            Some(l) => opt_text(l.span_id),
            None => None::<Seq<char>>,
        },
        r.depth == Some(0u32),
        r.src_tok == nonzero(source_token_count),
        r.desc_tok == nonzero(summary_token_count),
        r.fresh_tail_count == Some(fresh_tail_count as u32),
{
    let (summary_node_id, span_id) = match leaf_summary {
        Some(l) => (Some(l.summary_node_id.clone()), match &l.span_id {
            Some(s) => Some(s.clone()),
            None => None,
        }),
        None => (None, None),
    };
    CompactedItem {
        message: render_packet_message(packet, summary_text),
        replacement_history: Some(replacement_history),
        summary_node_id,
        span_id,
        depth: Some(0),
        src_tok: if source_token_count > 0 {
            Some(source_token_count)
        } else {
            None
        },
        desc_tok: if summary_token_count > 0 {
            Some(summary_token_count)
        } else {
            None
        },
        fresh_tail_count: Some(fresh_tail_count as u32),
    }
}

/// The candidate for durable memory that a compaction's leaf summary
/// yields: titled after the latest user message of the summarised part.
pub fn lcm_promotion_candidate(
    head: &[ResponseItem],
    leaf_summary: &OpenBrainLeafSummary,
    summary_text: &str,
    source_event_refs: &[String],
    source_token_count: u32,
    summary_token_count: u32,
) -> (r: OpenBrainDurableMemoryCandidate)
    ensures
        r@ == (CandidateView {
            summary_node_id: leaf_summary.summary_node_id@,
            title: spec_memory_title(items_view(head@)),
            content: summary_text@,
            source_event_ids: strings_view(source_event_refs@),
            source_token_count: Some(source_token_count),
            summary_token_count: Some(summary_token_count),
        }),
{
    OpenBrainDurableMemoryCandidate {
        summary_node_id: leaf_summary.summary_node_id.clone(),
        title: latest_user_message_title(head),
        content: owned(summary_text),
        source_event_ids: copy_texts(source_event_refs),
        source_token_count: Some(source_token_count),
        summary_token_count: Some(summary_token_count),
    }
}

/// The notice shown when a thread's memory mode blocks promotion.
pub open spec fn spec_skipped_notice(mode: LcmMemoryPromotionMode) -> Seq<char> {
    "LCM durable memory skipped because thread memory mode is "@ + mode_name(mode) + "."@
}

/// The notice shown when a thread's memory mode blocks promotion.
pub fn promotion_skipped_notice(mode: &LcmMemoryPromotionMode) -> (r: String)
    ensures
        r@ == spec_skipped_notice(*mode),
{
    concat3("LCM durable memory skipped because thread memory mode is ", mode.as_str(), ".")
}

/// The metadata of a record promoted whole from a leaf summary, in key
/// order.
pub open spec fn leaf_record_metadata(candidate: CandidateView, promotion_source: Seq<char>) -> Seq<
    (Seq<char>, MetaValue),
> {
    let src: u32 = match candidate.source_token_count {
        Some(n) => n,
        None => 0,
    };
    let desc: u32 = match candidate.summary_token_count {
        Some(n) => n,
        None => 0,
    };
    seq![
        ("memory_kind"@, MetaValue::Text("lcm_leaf_summary"@)),
        ("promotion_source"@, MetaValue::Text(promotion_source)),
        ("source_token_count"@, MetaValue::Count(src as nat)),
        ("summary_node_id"@, MetaValue::Text(candidate.summary_node_id)),
        ("summary_token_count"@, MetaValue::Count(desc as nat)),
    ]
}

/// Whether `r` is the record a leaf summary candidate is promoted to whole:
/// none when its content is blank; else its title and content as they are,
/// typed `lcm_leaf_summary`, sourced from the summary node and its events.
pub open spec fn is_leaf_record(
    candidate: CandidateView,
    promotion_source: Seq<char>,
    mirror_to_thoughts: bool,
    r: Option<OpenBrainDurableMemoryRecord>,
) -> bool {
    match r {
        None => trim(candidate.content).len() == 0,
        Some(rec) => {
            &&& trim(candidate.content).len() > 0
            &&& rec.title@ == candidate.title
            &&& rec.content@ == candidate.content
            &&& rec.memory_type@ == "lcm_leaf_summary"@
            &&& rec.memory_key is None
            &&& strings_view(rec.source_node_ids@) == seq![candidate.summary_node_id]
            &&& strings_view(rec.source_event_ids@) == candidate.source_event_ids
            &&& rec.supersede_node_ids@.len() == 0
            &&& metadata_is(rec.metadata@, leaf_record_metadata(candidate, promotion_source))
            &&& metadata_in_key_order(rec)
            &&& rec.mirror_to_thoughts == mirror_to_thoughts
        },
    }
}

/// The metadata keys of a record promoted from a leaf summary ascend.
proof fn lemma_leaf_metadata_ascending(candidate: CandidateView, promotion_source: Seq<char>)
    ensures
        keys_ascending(expected_keys(leaf_record_metadata(candidate, promotion_source))),
{
    reveal_strlit("memory_kind");
    reveal_strlit("promotion_source");
    reveal_strlit("source_token_count");
    reveal_strlit("summary_node_id");
    reveal_strlit("summary_token_count");
    let m = "memory_kind"@;
    let p = "promotion_source"@;
    let stc = "source_token_count"@;
    let sni = "summary_node_id"@;
    let sum = "summary_token_count"@;
    assert(m.subrange(0, 0) =~= p.subrange(0, 0));
    assert(key_split(m, p, 0));
    assert(p.subrange(0, 0) =~= stc.subrange(0, 0));
    assert(key_split(p, stc, 0));
    assert(stc.subrange(0, 1) =~= sni.subrange(0, 1));
    assert(key_split(stc, sni, 1));
    assert(sni.subrange(0, 8) =~= sum.subrange(0, 8));
    assert(key_split(sni, sum, 8));
    let keys = expected_keys(leaf_record_metadata(candidate, promotion_source));
    assert(keys =~= seq![m, p, stc, sni, sum]);
    assert forall|i: int| 0 <= i < keys.len() - 1 implies key_lt(#[trigger] keys[i], keys[i + 1]) by {
        if i == 0 { assert(key_lt(m, p)); }
        if i == 1 { assert(key_lt(p, stc)); }
        if i == 2 { assert(key_lt(stc, sni)); }
        if i == 3 { assert(key_lt(sni, sum)); }
    }
    lemma_keys_ascending_from_neighbours(keys);
}

/// The record a leaf summary candidate is promoted to whole, if its content
/// is not blank.
pub fn leaf_summary_record(
    candidate: &OpenBrainDurableMemoryCandidate,
    promotion_source: &str,
    mirror_to_thoughts: bool,
) -> (r: Option<OpenBrainDurableMemoryRecord>)
    ensures
        is_leaf_record(candidate@, promotion_source@, mirror_to_thoughts, r),
{
    let c = chars_of(candidate.content.as_str());
    let (a, b) = trim_bounds(c.as_slice());
    if a >= b {
        return None;
    }
    let src: u32 = match candidate.source_token_count {
        Some(n) => n,
        None => 0,
    };
    let desc: u32 = match candidate.summary_token_count {
        Some(n) => n,
        None => 0,
    };
    let ghost expected = leaf_record_metadata(candidate@, promotion_source@);
    let metadata = vec![
        text_entry("memory_kind", owned("lcm_leaf_summary")),
        text_entry("promotion_source", owned(promotion_source)),
        count_entry("source_token_count", src),
        text_entry("summary_node_id", candidate.summary_node_id.clone()),
        count_entry("summary_token_count", desc),
    ];
    assert(metadata_is(metadata@, expected)) by {
        assert forall|i: int| 0 <= i < metadata@.len() implies {
            &&& (#[trigger] metadata@[i]).0@ == expected[i].0
            &&& value_is(metadata@[i].1, expected[i].1)
        } by {
            if i == 0 {
            } else if i == 1 {
            } else if i == 2 {
            } else if i == 3 {
            } else {
            }
        }
    }
    let sources = vec![candidate.summary_node_id.clone()];
    assert(strings_view(sources@) =~= seq![candidate.summary_node_id@]);
    proof {
        lemma_leaf_metadata_ascending(candidate@, promotion_source@);
        lemma_meta_keys_match(metadata@, expected);
    }
    let none: Vec<String> = Vec::new();
    Some(OpenBrainDurableMemoryRecord {
        title: candidate.title.clone(),
        content: candidate.content.clone(),
        memory_type: owned("lcm_leaf_summary"),
        memory_key: None,
        source_node_ids: sources,
        source_event_ids: copy_texts(candidate.source_event_ids.as_slice()),
        supersede_node_ids: none,
        metadata,
        mirror_to_thoughts,
    })
}

/// Only the `disabled` memory mode blocks promotion: every other stored
/// mode, and no mode at all, allows it.
pub proof fn law_only_disabled_blocks_promotion(mode: Option<Seq<char>>, r: LcmMemoryPromotionMode)
    requires
        resolved_mode_is(mode, r),
    ensures
        (r is Disabled) <==> mode == Some("disabled"@),
{
}

/// A preview is at most one character longer than the limit (the
/// ellipsis), and a text whose collapsed form fits is shown whole.
pub proof fn law_preview_is_bounded(text: Seq<char>, max_chars: nat)
    ensures
        spec_preview(text, max_chars).len() <= max_chars + 1,
        collapse_ws(text).len() <= max_chars ==> spec_preview(text, max_chars) == collapse_ws(text),
{
}

/// A compaction keeps its fresh tail verbatim: the replacement history ends
/// with exactly the items after the split point.
pub proof fn law_compaction_keeps_fresh_tail(
    items: Seq<ItemView>,
    fresh_tail_count: nat,
    packet_items: Seq<ContextPacketItem>,
    summary_text: Seq<char>,
)
    ensures
        ({
            let s = lcm_split_point(items, fresh_tail_count);
            let tail = items.skip(s);
            let h = spec_replacement_history(packet_items, summary_text, tail);
            &&& h.len() >= tail.len()
            &&& h.skip(h.len() - tail.len()) == tail
        }),
{
    let s = lcm_split_point(items, fresh_tail_count);
    let tail = items.skip(s);
    let h = spec_replacement_history(packet_items, summary_text, tail);
    assert(h.skip(h.len() - tail.len()) =~= tail);
}

/// The latest user text, when there is one, is not blank.
proof fn lemma_latest_user_text_not_blank(items: Seq<ItemView>)
    ensures
        latest_user_text(items) matches Some(t) ==> trim(t).len() > 0,
    decreases items.len(),
{
    if items.len() > 0 {
        lemma_latest_user_text_not_blank(items.drop_last());
    }
}

/// A preview of a text with a non-whitespace character is not empty and
/// neither starts nor ends with whitespace, so trimming leaves it as it is.
pub proof fn lemma_preview_is_trimmed(text: Seq<char>, max_chars: nat)
    requires
        trim(text).len() > 0,
        max_chars > 0,
    ensures
        spec_preview(text, max_chars).len() > 0,
        trim(spec_preview(text, max_chars)) == spec_preview(text, max_chars),
{
    lemma_trim_nonempty_has_char(text);
    lemma_collapse_ends(text);
    let c = collapse_ws(text);
    let p = spec_preview(text, max_chars);
    if c.len() > max_chars {
        assert(p[0] == c[0]);
        assert(p.last() == '\u{2026}');
        assert(!is_ws('\u{2026}'));
    }
    lemma_trim_of_trimmed(p);
}

/// The user message recovered from the title a compaction gives its
/// durable memory is the 72-character preview of the latest user message:
/// the `LCM memory: ` label is stripped, and the fallback title yields
/// nothing.
pub proof fn law_memory_title_round_trip(items: Seq<ItemView>)
    ensures
        spec_candidate_title(spec_memory_title(items)) == match latest_user_text(items) {
            Some(t) => Some(spec_preview(t, 72)),
            None => None::<Seq<char>>,
        },
{
    reveal_strlit("LCM memory: ");
    reveal_strlit("LCM durable memory");
    let label = "LCM memory: "@;
    match latest_user_text(items) {
        Some(t) => {
            lemma_latest_user_text_not_blank(items);
            lemma_preview_is_trimmed(t, 72);
            let p = spec_preview(t, 72);
            let title = label + p;
            assert(title.subrange(0, label.len() as int) =~= label);
            assert(title.skip(label.len() as int) =~= p);
        },
        None => {
            let title = "LCM durable memory"@;
            assert(title[4] != label[4]);
            assert(!starts_with(title, label)) by {
                if starts_with(title, label) {
                    assert(title.subrange(0, label.len() as int)[4] == title[4]);
                }
            }
        },
    }
}

/// What happened in a compaction run.
#[derive(Debug, PartialEq)]
pub enum CompactionEvent {
    /// The part to summarise has been rendered as text.
    HeadRendered,
    /// The summary of that text is known.
    Summarized,
    /// The store made a leaf summary of it.
    LeafCompacted(OpenBrainLeafSummary),
}

/// What a compaction run does next.
#[derive(Debug, PartialEq)]
pub enum CompactionAction {
    /// Summarise the rendered text.
    Summarize,
    /// Store the summary as a leaf summary.
    CompactLeaf,
    /// Promote the leaf summary to durable memory, then assemble the context.
    Promote(OpenBrainDurableMemoryCandidate),
    /// Show this notice, then assemble the context.
    Notify(String),
    /// Assemble the context packet.
    AssembleContext,
}

/// The next step of a compaction run: blank rendered text is not
/// summarised and a blank summary is not stored (the run goes straight to
/// assembling the context); a stored leaf summary is promoted when the
/// thread's memory mode allows it, else the run says why not.
pub fn compaction_step(
    head: &[ResponseItem],
    head_text: &str,
    summary_text: &str,
    source_event_refs: &[String],
    source_token_count: u32,
    summary_token_count: u32,
    mode: &LcmMemoryPromotionMode,
    event: CompactionEvent,
) -> (r: CompactionAction)
    ensures
        match event {
            CompactionEvent::HeadRendered => if trim(head_text@).len() > 0 {
                r is Summarize
            } else {
                r is AssembleContext
            },
            CompactionEvent::Summarized => if trim(summary_text@).len() > 0 {
                r is CompactLeaf
            } else {
                r is AssembleContext
            },
            CompactionEvent::LeafCompacted(leaf) => if mode is Disabled {
                r matches CompactionAction::Notify(n) && n@ == spec_skipped_notice(*mode)
            } else {
                r matches CompactionAction::Promote(c) && c@ == (CandidateView {
                    summary_node_id: leaf.summary_node_id@,
                    title: spec_memory_title(items_view(head@)),
                    content: summary_text@,
                    source_event_ids: strings_view(source_event_refs@),
                    source_token_count: Some(source_token_count),
                    summary_token_count: Some(summary_token_count),
                })
            },
        },
{
    match event {
        CompactionEvent::HeadRendered => {
            let c = chars_of(head_text);
            let (a, b) = trim_bounds(c.as_slice());
            if a < b {
                CompactionAction::Summarize
            } else {
                CompactionAction::AssembleContext
            }
        },
        CompactionEvent::Summarized => {
            let c = chars_of(summary_text);
            let (a, b) = trim_bounds(c.as_slice());
            if a < b {
                CompactionAction::CompactLeaf
            } else {
                CompactionAction::AssembleContext
            }
        },
        CompactionEvent::LeafCompacted(leaf) => if mode.allows_promotion() {
            CompactionAction::Promote(
                lcm_promotion_candidate(
                    head,
                    &leaf,
                    summary_text,
                    source_event_refs,
                    source_token_count,
                    summary_token_count,
                ),
            )
        } else {
            CompactionAction::Notify(promotion_skipped_notice(mode))
        },
    }
}

/// The notice after a leaf summary was promoted whole.
pub open spec fn spec_leaf_promotion_notice(
    summary_node_id: Seq<char>,
    result: Result<usize, Seq<char>>,
    notify: bool,
) -> Option<Seq<char>> {
    match result {
        Ok(n) => if n > 0 && notify {
            Some("LCM durable memory promoted from summary "@ + summary_node_id + "."@)
        } else {
            None
        },
        Err(e) => if notify {
            Some("LCM durable-memory promotion failed: "@ + e)
        } else {
            None
        },
    }
}

/// The notice to show, if any, once the store has answered the promotion of
/// a leaf summary: how many records it inserted, or why it failed.
pub fn leaf_promotion_notice(summary_node_id: &str, result: &Result<usize, String>, notify: bool) -> (r:
    Option<String>)
    ensures
        opt_text(r) == spec_leaf_promotion_notice(
            summary_node_id@,
            match result {
                Ok(n) => Ok(*n),
                Err(e) => Err(e@),
            },
            notify,
        ),
{
    match result {
        Ok(n) => if *n > 0 && notify {
            Some(concat3("LCM durable memory promoted from summary ", summary_node_id, "."))
        } else {
            None
        },
        Err(e) => if notify {
            Some(concat2("LCM durable-memory promotion failed: ", e.as_str()))
        } else {
            None
        },
    }
}

/// How many packet items are not part of the recent tail.
pub open spec fn non_tail_count(items: Seq<ContextPacketItem>) -> nat
    decreases items.len(),
{
    if items.len() == 0 {
        0
    } else {
        non_tail_count(items.drop_last()) + if items.last().kind == ContextPacketItemKind::RecentTail {
            0nat
        } else {
            1nat
        }
    }
}

/// Every packet item but those of the recent tail is replayed, one
/// assistant message each, in order: the replay of a packet extends the
/// replay of its items but the last by one message titled after the last
/// item's kind (`LCM frontier summary`, `LCM durable memory`, `LCM
/// expansion`, `LCM working memory`, `LCM system instruction`), or by
/// nothing for a recent-tail item.
pub proof fn law_packet_replays_every_non_tail_item(items: Seq<ContextPacketItem>)
    ensures
        packet_history(items).len() == non_tail_count(items),
        items.len() > 0 ==> {
            let last = items.last();
            let before = packet_history(items.drop_last());
            packet_history(items) == match last.kind {
                ContextPacketItemKind::RecentTail => before,
                ContextPacketItemKind::GraphFrontier => before.push(
                    assistant_replay("LCM frontier summary"@, last.content@, last.selection_reason@),
                ),
                ContextPacketItemKind::DurableMemory => before.push(
                    assistant_replay("LCM durable memory"@, last.content@, last.selection_reason@),
                ),
                ContextPacketItemKind::ExplicitExpansion => before.push(
                    assistant_replay("LCM expansion"@, last.content@, last.selection_reason@),
                ),
                ContextPacketItemKind::WorkingMemory => before.push(
                    assistant_replay("LCM working memory"@, last.content@, last.selection_reason@),
                ),
                ContextPacketItemKind::SystemInstruction => before.push(
                    assistant_replay("LCM system instruction"@, last.content@, last.selection_reason@),
                ),
            }
        },
    decreases items.len(),
{
    if items.len() > 0 {
        law_packet_replays_every_non_tail_item(items.drop_last());
        let last = items.last();
        let before = packet_history(items.drop_last());
        match last.kind {
            ContextPacketItemKind::RecentTail => {
                assert(packet_history(items) =~= before);
            },
            _ => {
                assert(packet_history(items) =~= before.push(
                    assistant_replay(kind_title(last.kind).unwrap(), last.content@, last.selection_reason@),
                ));
            },
        }
    }
}

} // verus!
