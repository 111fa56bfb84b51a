//! Integrity of tool-call pairs in a conversation history.
//!
//! Every call (function, local shell, custom tool, client tool search) must
//! be answered by an output with the same call id, and every output must
//! answer a call. The functions here find the calls left unanswered and the
//! orphaned outputs, repair a history by dropping orphans and inserting
//! synthetic `aborted` outputs, and choose a split point for a protected
//! tail that never separates a call from its output.
use vstd::prelude::*;
use crate::items::{ItemView, ResponseItem, copy_items, items_view};
use crate::text::{chars_eq, chars_of, string_from_chars};

verus! {

/// The kind of call/output pair an item belongs to.
#[derive(Clone, Copy, Debug, PartialEq, Eq, Hash, Structural)]
pub enum CallOutputFamily {
    FunctionOrShell,
    CustomTool,
    ClientToolSearch,
}

/// A call id within a family: what links a call to its output.
#[derive(Clone, Debug, PartialEq, Eq, Hash)]
pub struct PairKey {
    pub family: CallOutputFamily,
    pub call_id: String,
}

impl PairKey {
    pub open spec fn key(&self) -> (CallOutputFamily, Seq<char>) {
        (self.family, self.call_id@)
    }
}

pub open spec fn key_view(k: Option<PairKey>) -> Option<(CallOutputFamily, Seq<char>)> {
    match k {
        Some(k) => Some(k.key()),
        None => None,
    }
}

pub open spec fn client_word() -> Seq<char> {
    seq!['c', 'l', 'i', 'e', 'n', 't']
}

pub open spec fn aborted_word() -> Seq<char> {
    seq!['a', 'b', 'o', 'r', 't', 'e', 'd']
}

pub open spec fn completed_word() -> Seq<char> {
    seq!['c', 'o', 'm', 'p', 'l', 'e', 't', 'e', 'd']
}

/// The pair a call item opens: function calls and local shell calls with
/// an id, custom tool calls, and client-executed tool searches with an id.
pub open spec fn spec_call_key(item: ItemView) -> Option<(CallOutputFamily, Seq<char>)> {
    match item {
        ItemView::FunctionCall { call_id, .. } => Some((CallOutputFamily::FunctionOrShell, call_id)),
        ItemView::LocalShellCall { call_id, .. } => match call_id {
            Some(c) => Some((CallOutputFamily::FunctionOrShell, c)),
            None => None,
        },
        ItemView::CustomToolCall { call_id, .. } => Some((CallOutputFamily::CustomTool, call_id)),
        ItemView::ToolSearchCall { call_id, execution, .. } => match call_id {
            Some(c) => if execution == client_word() {
                Some((CallOutputFamily::ClientToolSearch, c))
            } else {
                None
            },
            None => None,
        },
        _ => None,
    }
}

/// The pair an output item answers.
pub open spec fn spec_output_key(item: ItemView) -> Option<(CallOutputFamily, Seq<char>)> {
    match item {
        ItemView::FunctionCallOutput { call_id, .. } => Some(
            (CallOutputFamily::FunctionOrShell, call_id),
        ),
        ItemView::CustomToolCallOutput { call_id, .. } => Some(
            (CallOutputFamily::CustomTool, call_id),
        ),
        ItemView::ToolSearchOutput { call_id, execution, .. } => match call_id {
            Some(c) => if execution == client_word() {
                Some((CallOutputFamily::ClientToolSearch, c))
            } else {
                None
            },
            None => None,
        },
        _ => None,
    }
}

pub open spec fn has_call(items: Seq<ItemView>, k: (CallOutputFamily, Seq<char>)) -> bool {
    exists|j: int| 0 <= j < items.len() && #[trigger] spec_call_key(items[j]) == Some(k)
}

pub open spec fn has_output(items: Seq<ItemView>, k: (CallOutputFamily, Seq<char>)) -> bool {
    exists|j: int| 0 <= j < items.len() && #[trigger] spec_output_key(items[j]) == Some(k)
}

/// Index of the last call of pair `k` among the first `n` items.
pub open spec fn last_call(items: Seq<ItemView>, k: (CallOutputFamily, Seq<char>), n: int) -> Option<
    int,
>
    decreases n,
{
    if n <= 0 {
        None
    } else if spec_call_key(items[n - 1]) == Some(k) {
        Some(n - 1)
    } else {
        last_call(items, k, n - 1)
    }
}

/// Index of the last output of pair `k` among the first `n` items.
pub open spec fn last_output(items: Seq<ItemView>, k: (CallOutputFamily, Seq<char>), n: int) -> Option<
    int,
>
    decreases n,
{
    if n <= 0 {
        None
    } else if spec_output_key(items[n - 1]) == Some(k) {
        Some(n - 1)
    } else {
        last_output(items, k, n - 1)
    }
}

pub open spec fn family_text(f: CallOutputFamily) -> Seq<char> {
    match f {
        CallOutputFamily::FunctionOrShell => seq![
            'f', 'u', 'n', 'c', 't', 'i', 'o', 'n', '_', 'o', 'r', '_', 's', 'h', 'e', 'l', 'l'
        ],
        CallOutputFamily::CustomTool => seq!['c', 'u', 's', 't', 'o', 'm', '_', 't', 'o', 'o', 'l'],
        CallOutputFamily::ClientToolSearch => seq![
            'c', 'l', 'i', 'e', 'n', 't', '_', 't', 'o', 'o', 'l', '_', 's', 'e', 'a', 'r', 'c', 'h'
        ],
    }
}

/// The label a family is reported under.
pub fn family_label(family: CallOutputFamily) -> (r: &'static str)
    ensures
        r@ == family_text(family),
{
    proof {
        reveal_strlit("function_or_shell");
        reveal_strlit("custom_tool");
        reveal_strlit("client_tool_search");
    }
    match family {
        CallOutputFamily::FunctionOrShell => "function_or_shell",
        CallOutputFamily::CustomTool => "custom_tool",
        CallOutputFamily::ClientToolSearch => "client_tool_search",
    }
}

/// A broken pair found in a history.
#[derive(Clone, Debug, PartialEq, Eq)]
pub enum HistoryIntegrityIssue {
    MissingOutput { call_id: String, family: &'static str },
    OrphanOutput { call_id: String, family: &'static str },
}

/// `(is_missing_output, call_id, family_label)`.
pub open spec fn issue_view(i: HistoryIntegrityIssue) -> (bool, Seq<char>, Seq<char>) {
    match i {
        HistoryIntegrityIssue::MissingOutput { call_id, family } => (true, call_id@, family@),
        HistoryIntegrityIssue::OrphanOutput { call_id, family } => (false, call_id@, family@),
    }
}

pub open spec fn issues_view(v: Seq<HistoryIntegrityIssue>) -> Seq<(bool, Seq<char>, Seq<char>)> {
    v.map_values(|i: HistoryIntegrityIssue| issue_view(i))
}

/// The issues item `i` raises: a missing output when it is a call whose
/// pair has no output anywhere, an orphan when it is an output whose pair
/// has no call anywhere.
pub open spec fn item_issues(items: Seq<ItemView>, i: int) -> Seq<(bool, Seq<char>, Seq<char>)> {
    (match spec_call_key(items[i]) {
        Some(k) => if !has_output(items, k) {
            seq![(true, k.1, family_text(k.0))]
        } else {
            Seq::empty()
        },
        None => Seq::empty(),
    }) + (match spec_output_key(items[i]) {
        Some(k) => if !has_call(items, k) {
            seq![(false, k.1, family_text(k.0))]
        } else {
            Seq::empty()
        },
        None => Seq::empty(),
    })
}

/// The issues of the first `n` items, in item order.
pub open spec fn issues_upto(items: Seq<ItemView>, n: int) -> Seq<(bool, Seq<char>, Seq<char>)>
    decreases n,
{
    if n <= 0 {
        Seq::empty()
    } else {
        issues_upto(items, n - 1) + item_issues(items, n - 1)
    }
}

pub open spec fn history_issues(items: Seq<ItemView>) -> Seq<(bool, Seq<char>, Seq<char>)> {
    issues_upto(items, items.len() as int)
}

pub open spec fn is_orphan(items: Seq<ItemView>, i: int) -> bool {
    match spec_output_key(items[i]) {
        Some(k) => !has_call(items, k),
        None => false,
    }
}

pub open spec fn is_missing(items: Seq<ItemView>, i: int) -> bool {
    match spec_call_key(items[i]) {
        Some(k) => !has_output(items, k),
        None => false,
    }
}

/// Indexes of the orphaned outputs among the first `n` items, ascending.
pub open spec fn orphans_upto(items: Seq<ItemView>, n: int) -> Seq<int>
    decreases n,
{
    if n <= 0 {
        Seq::empty()
    } else if is_orphan(items, n - 1) {
        orphans_upto(items, n - 1).push(n - 1)
    } else {
        orphans_upto(items, n - 1)
    }
}

/// The output synthesized for a call that never got one.
pub open spec fn synthetic_output(item: ItemView) -> ItemView {
    match item {
        ItemView::FunctionCall { call_id, .. } => ItemView::FunctionCallOutput {
            call_id,
            output: aborted_word(),
        },
        ItemView::LocalShellCall { call_id, .. } => ItemView::FunctionCallOutput {
            call_id: call_id.unwrap(),
            output: aborted_word(),
        },
        ItemView::CustomToolCall { call_id, .. } => ItemView::CustomToolCallOutput {
            call_id,
            name: None,
            output: aborted_word(),
        },
        ItemView::ToolSearchCall { call_id, .. } => ItemView::ToolSearchOutput {
            call_id,
            status: completed_word(),
            execution: client_word(),
            tools: Seq::empty(),
        },
        _ => item,
    }
}

/// Items an output can be synthesized for.
pub open spec fn synthesizable(item: ItemView) -> bool {
    match item {
        ItemView::FunctionCall { .. } => true,
        ItemView::LocalShellCall { call_id, .. } => call_id is Some,
        ItemView::CustomToolCall { .. } => true,
        ItemView::ToolSearchCall { call_id, .. } => call_id is Some,
        _ => false,
    }
}

/// `(index, output)` for each unanswered call among the first `n` items.
pub open spec fn missing_upto(items: Seq<ItemView>, n: int) -> Seq<(int, ItemView)>
    decreases n,
{
    if n <= 0 {
        Seq::empty()
    } else if is_missing(items, n - 1) {
        missing_upto(items, n - 1).push((n - 1, synthetic_output(items[n - 1])))
    } else {
        missing_upto(items, n - 1)
    }
}

pub proof fn lemma_call_key_synthesizable(item: ItemView)
    requires
        spec_call_key(item) is Some,
    ensures
        synthesizable(item),
        spec_output_key(synthetic_output(item)) == spec_call_key(item),
{
}

fn is_client(execution: &String) -> (r: bool)
    ensures
        r == (execution@ == client_word()),
{
    let a = chars_of(execution.as_str());
    let b = chars_of("client");
    proof {
        reveal_strlit("client");
        assert("client"@ =~= client_word());
    }
    chars_eq(a.as_slice(), b.as_slice())
}

fn call_key(item: &ResponseItem) -> (r: Option<PairKey>)
    ensures
        key_view(r) == spec_call_key(item@),
{
    match item {
        ResponseItem::FunctionCall { call_id, .. } => Some(
            PairKey { family: CallOutputFamily::FunctionOrShell, call_id: call_id.clone() },
        ),
        ResponseItem::LocalShellCall { call_id: Some(call_id), .. } => Some(
            PairKey { family: CallOutputFamily::FunctionOrShell, call_id: call_id.clone() },
        ),
        ResponseItem::CustomToolCall { call_id, .. } => Some(
            PairKey { family: CallOutputFamily::CustomTool, call_id: call_id.clone() },
        ),
        ResponseItem::ToolSearchCall { call_id: Some(call_id), execution, .. } => {
            if is_client(execution) {
                Some(
                    PairKey { family: CallOutputFamily::ClientToolSearch, call_id: call_id.clone() },
                )
            } else {
                None
            }
        },
        _ => None,
    }
}

fn output_key(item: &ResponseItem) -> (r: Option<PairKey>)
    ensures
        key_view(r) == spec_output_key(item@),
{
    match item {
        ResponseItem::FunctionCallOutput { call_id, .. } => Some(
            PairKey { family: CallOutputFamily::FunctionOrShell, call_id: call_id.clone() },
        ),
        ResponseItem::CustomToolCallOutput { call_id, .. } => Some(
            PairKey { family: CallOutputFamily::CustomTool, call_id: call_id.clone() },
        ),
        ResponseItem::ToolSearchOutput { call_id: Some(call_id), execution, .. } => {
            if is_client(execution) {
                Some(
                    PairKey { family: CallOutputFamily::ClientToolSearch, call_id: call_id.clone() },
                )
            } else {
                None
            }
        },
        _ => None,
    }
}

fn word(s: &str) -> (r: String)
    ensures
        r@ == s@,
{
    let cs = chars_of(s);
    string_from_chars(cs.as_slice())
}

/// The output answering `item` with `aborted` (or, for a tool search, an
/// empty completed result).
pub fn synthetic_output_for_call(item: &ResponseItem) -> (r: ResponseItem)
    requires
        synthesizable(item@),
    ensures
        r@ == synthetic_output(item@),
{
    proof {
        reveal_strlit("aborted");
        reveal_strlit("completed");
        reveal_strlit("client");
        assert("aborted"@ =~= aborted_word());
        assert("completed"@ =~= completed_word());
        assert("client"@ =~= client_word());
    }
    match item {
        ResponseItem::FunctionCall { call_id, .. } => ResponseItem::FunctionCallOutput {
            call_id: call_id.clone(),
            output: word("aborted"),
        },
        ResponseItem::LocalShellCall { call_id: Some(call_id), .. } =>
            ResponseItem::FunctionCallOutput { call_id: call_id.clone(), output: word("aborted") },
        ResponseItem::CustomToolCall { call_id, .. } => ResponseItem::CustomToolCallOutput {
            call_id: call_id.clone(),
            name: None,
            output: word("aborted"),
        },
        ResponseItem::ToolSearchCall { call_id: Some(call_id), .. } => {
            let tools: Vec<String> = Vec::new();
            let r = ResponseItem::ToolSearchOutput {
                call_id: Some(call_id.clone()),
                status: word("completed"),
                execution: word("client"),
                tools,
            };
            assert(crate::text::strings_view(tools@) =~= Seq::<Seq<char>>::empty());
            r
        },
        _ => {
            assert(false);
            ResponseItem::Other
        },
    }
}


/// Where the last call and the last output of a pair stand.
#[derive(Clone, Debug)]
pub struct PairPresence {
    pub first_call_index: Option<usize>,
    pub first_output_index: Option<usize>,
}

pub struct PairEntry {
    pub key: PairKey,
    pub presence: PairPresence,
}

/// An output to insert right after the call at `index`.
pub struct MissingOutputInsertion {
    pub index: usize,
    pub item: ResponseItem,
}

pub struct HistoryIntegrityAnalysis {
    pub missing_outputs: Vec<MissingOutputInsertion>,
    pub orphan_output_indexes: Vec<usize>,
    pub issues: Vec<HistoryIntegrityIssue>,
    pub pair_presence: Vec<PairEntry>,
}

pub open spec fn opt_int(o: Option<usize>) -> Option<int> {
    match o {
        Some(i) => Some(i as int),
        None => None,
    }
}

pub open spec fn missing_view(v: Seq<MissingOutputInsertion>) -> Seq<(int, ItemView)> {
    v.map_values(|m: MissingOutputInsertion| (m.index as int, m.item@))
}

pub open spec fn usizes_view(v: Seq<usize>) -> Seq<int> {
    v.map_values(|i: usize| i as int)
}

/// The pair table describes the first `n` items: each entry holds the last
/// call and last output of its pair, and every pair met has an entry.
pub open spec fn presence_describes(
    items: Seq<ItemView>,
    entries: Seq<PairEntry>,
    n: int,
) -> bool {
    &&& forall|a: int, b: int|
        0 <= a < b < entries.len() ==> #[trigger] entries[a].key.key() != #[trigger] entries[b].key.key()
    &&& forall|e: int|
        0 <= e < entries.len() ==> opt_int(#[trigger] entries[e].presence.first_call_index)
            == last_call(items, entries[e].key.key(), n)
    &&& forall|e: int|
        0 <= e < entries.len() ==> opt_int(#[trigger] entries[e].presence.first_output_index)
            == last_output(items, entries[e].key.key(), n)
    &&& forall|j: int|
        0 <= j < n ==> (#[trigger] spec_call_key(items[j]) matches Some(k) ==> exists|e: int|
            0 <= e < entries.len() && #[trigger] entries[e].key.key() == k)
    &&& forall|j: int|
        0 <= j < n ==> (#[trigger] spec_output_key(items[j]) matches Some(k) ==> exists|e: int|
            0 <= e < entries.len() && #[trigger] entries[e].key.key() == k)
}

pub proof fn lemma_last_none_when_absent(items: Seq<ItemView>, k: (CallOutputFamily, Seq<char>), n: int)
    requires
        0 <= n <= items.len(),
        forall|j: int| 0 <= j < n ==> #[trigger] spec_call_key(items[j]) != Some(k),
        forall|j: int| 0 <= j < n ==> #[trigger] spec_output_key(items[j]) != Some(k),
    ensures
        last_call(items, k, n) is None,
        last_output(items, k, n) is None,
    decreases n,
{
    if n > 0 {
        lemma_last_none_when_absent(items, k, n - 1);
    }
}

pub proof fn lemma_last_call_some(items: Seq<ItemView>, k: (CallOutputFamily, Seq<char>), n: int)
    requires
        0 <= n <= items.len(),
    ensures
        last_call(items, k, n) is Some <==> exists|j: int|
            0 <= j < n && #[trigger] spec_call_key(items[j]) == Some(k),
        last_call(items, k, n) matches Some(c) ==> 0 <= c < n && spec_call_key(items[c]) == Some(k),
    decreases n,
{
    if n > 0 {
        lemma_last_call_some(items, k, n - 1);
        if spec_call_key(items[n - 1]) != Some(k) {
            assert forall|j: int| 0 <= j < n && #[trigger] spec_call_key(items[j]) == Some(k)
                implies 0 <= j < n - 1 by {}
        }
    }
}

pub proof fn lemma_last_output_some(items: Seq<ItemView>, k: (CallOutputFamily, Seq<char>), n: int)
    requires
        0 <= n <= items.len(),
    ensures
        last_output(items, k, n) is Some <==> exists|j: int|
            0 <= j < n && #[trigger] spec_output_key(items[j]) == Some(k),
        last_output(items, k, n) matches Some(c) ==> 0 <= c < n && spec_output_key(items[c])
            == Some(k),
    decreases n,
{
    if n > 0 {
        lemma_last_output_some(items, k, n - 1);
        if spec_output_key(items[n - 1]) != Some(k) {
            assert forall|j: int| 0 <= j < n && #[trigger] spec_output_key(items[j]) == Some(k)
                implies 0 <= j < n - 1 by {}
        }
    }
}

fn find_entry(entries: &Vec<PairEntry>, key: &PairKey) -> (r: Option<usize>)
    ensures
        match r {
            Some(e) => e < entries.len() && entries@[e as int].key.key() == key.key(),
            None => forall|e: int| 0 <= e < entries.len() ==> #[trigger] entries@[e].key.key() != key.key(),
        },
{
    let mut e: usize = 0;
    while e < entries.len()
        invariant
            0 <= e <= entries.len(),
            forall|x: int| 0 <= x < e ==> #[trigger] entries@[x].key.key() != key.key(),
        decreases entries.len() - e,
    {
        if entries[e].key.family == key.family && entries[e].key.call_id == key.call_id {
            return Some(e);
        }
        e = e + 1;
    }
    None
}

/// Item `i` is a call (`is_call`) or an output of pair `k`, and not the other.
pub open spec fn item_has_key(item: ItemView, k: (CallOutputFamily, Seq<char>), is_call: bool) -> bool {
    if is_call {
        spec_call_key(item) == Some(k) && spec_output_key(item) is None
    } else {
        spec_output_key(item) == Some(k) && spec_call_key(item) is None
    }
}

/// Updates the pair table with item `i`, which belongs to pair `key`.
fn note_item(entries: &mut Vec<PairEntry>, key: PairKey, i: usize, is_call: bool, Ghost(items): Ghost<Seq<ItemView>>)
    requires
        i < items.len(),
        presence_describes(items, old(entries)@, i as int),
        item_has_key(items[i as int], key.key(), is_call),
    ensures
        presence_describes(items, final(entries)@, i + 1),
{
    let ghost k = key.key();
    let ghost n = i + 1;
    let ghost e0 = entries@;
    match find_entry(entries, &key) {
        Some(e) => {
            let updated = PairEntry {
                key: PairKey { family: entries[e].key.family, call_id: entries[e].key.call_id.clone() },
                presence: if is_call {
                    PairPresence {
                        first_call_index: Some(i),
                        first_output_index: entries[e].presence.first_output_index,
                    }
                } else {
                    PairPresence {
                        first_call_index: entries[e].presence.first_call_index,
                        first_output_index: Some(i),
                    }
                },
            };
            entries.set(e, updated);
            let ghost e1 = entries@;
            proof {
                assert forall|x: int| 0 <= x < e1.len() implies opt_int(#[trigger] e1[x].presence.first_call_index)
                    == last_call(items, e1[x].key.key(), n) && opt_int(e1[x].presence.first_output_index)
                    == last_output(items, e1[x].key.key(), n) by {
                    if x != e {
                        assert(e1[x] == e0[x]);
                        assert(e0[x].key.key() != e0[e as int].key.key());
                    }
                }
                assert forall|a: int, b: int| 0 <= a < b < e1.len() implies #[trigger] e1[a].key.key() != #[trigger] e1[b].key.key() by {
                    assert(e0[a].key.key() != e0[b].key.key());
                }
                assert forall|j: int| 0 <= j < n implies (#[trigger] spec_call_key(items[j]) matches Some(kk) ==> exists|x: int|
                    0 <= x < e1.len() && #[trigger] e1[x].key.key() == kk) by {
                    if let Some(kk) = spec_call_key(items[j]) {
                        if j < i {
                            let x = choose|x: int| 0 <= x < e0.len() && #[trigger] e0[x].key.key() == kk;
                            assert(e1[x].key.key() == kk);
                        } else {
                            assert(e1[e as int].key.key() == kk);
                        }
                    }
                }
                assert forall|j: int| 0 <= j < n implies (#[trigger] spec_output_key(items[j]) matches Some(kk) ==> exists|x: int|
                    0 <= x < e1.len() && #[trigger] e1[x].key.key() == kk) by {
                    if let Some(kk) = spec_output_key(items[j]) {
                        if j < i {
                            let x = choose|x: int| 0 <= x < e0.len() && #[trigger] e0[x].key.key() == kk;
                            assert(e1[x].key.key() == kk);
                        } else {
                            assert(e1[e as int].key.key() == kk);
                        }
                    }
                }
            }
        },
        None => {
            proof {
                assert forall|j: int| 0 <= j < i implies #[trigger] spec_call_key(items[j]) != Some(k) by {
                    if spec_call_key(items[j]) == Some(k) {
                        let x = choose|x: int| 0 <= x < e0.len() && #[trigger] e0[x].key.key() == k;
                        assert(e0[x].key.key() != k);
                    }
                }
                assert forall|j: int| 0 <= j < i implies #[trigger] spec_output_key(items[j]) != Some(k) by {
                    if spec_output_key(items[j]) == Some(k) {
                        let x = choose|x: int| 0 <= x < e0.len() && #[trigger] e0[x].key.key() == k;
                        assert(e0[x].key.key() != k);
                    }
                }
                lemma_last_none_when_absent(items, k, i as int);
            }
            let presence = if is_call {
                PairPresence { first_call_index: Some(i), first_output_index: None }
            } else {
                PairPresence { first_call_index: None, first_output_index: Some(i) }
            };
            entries.push(PairEntry { key, presence });
            let ghost e1 = entries@;
            proof {
                let last = e0.len() as int;
                assert forall|x: int| 0 <= x < e1.len() implies opt_int(#[trigger] e1[x].presence.first_call_index)
                    == last_call(items, e1[x].key.key(), n) && opt_int(e1[x].presence.first_output_index)
                    == last_output(items, e1[x].key.key(), n) by {
                    if x != last {
                        assert(e1[x] == e0[x]);
                    }
                }
                assert forall|a: int, b: int| 0 <= a < b < e1.len() implies #[trigger] e1[a].key.key() != #[trigger] e1[b].key.key() by {
                    if b < last {
                        assert(e0[a].key.key() != e0[b].key.key());
                    } else {
                        assert(e1[a] == e0[a]);
                    }
                }
                assert forall|j: int| 0 <= j < n implies (#[trigger] spec_call_key(items[j]) matches Some(kk) ==> exists|x: int|
                    0 <= x < e1.len() && #[trigger] e1[x].key.key() == kk) by {
                    if let Some(kk) = spec_call_key(items[j]) {
                        if j < i {
                            let x = choose|x: int| 0 <= x < e0.len() && #[trigger] e0[x].key.key() == kk;
                            assert(e1[x].key.key() == kk);
                        } else {
                            assert(e1[last].key.key() == kk);
                        }
                    }
                }
                assert forall|j: int| 0 <= j < n implies (#[trigger] spec_output_key(items[j]) matches Some(kk) ==> exists|x: int|
                    0 <= x < e1.len() && #[trigger] e1[x].key.key() == kk) by {
                    if let Some(kk) = spec_output_key(items[j]) {
                        if j < i {
                            let x = choose|x: int| 0 <= x < e0.len() && #[trigger] e0[x].key.key() == kk;
                            assert(e1[x].key.key() == kk);
                        } else {
                            assert(e1[last].key.key() == kk);
                        }
                    }
                }
            }
        },
    }
}

/// Records, for each pair, where its last call and last output stand.
fn pair_presence(items: &[ResponseItem]) -> (r: Vec<PairEntry>)
    ensures
        presence_describes(items_view(items@), r@, items.len() as int),
{
    let ghost iv = items_view(items@);
    let mut entries: Vec<PairEntry> = Vec::new();
    let mut i: usize = 0;
    while i < items.len()
        invariant
            0 <= i <= items.len(),
            iv == items_view(items@),
            presence_describes(iv, entries@, i as int),
        decreases items.len() - i,
    {
        assert(iv[i as int] == items@[i as int]@);
        let ck = call_key(&items[i]);
        let ok = output_key(&items[i]);
        if let Some(key) = ck {
            note_item(&mut entries, key, i, true, Ghost(iv));
        } else if let Some(key) = ok {
            note_item(&mut entries, key, i, false, Ghost(iv));
        } else {
            let ghost e0 = entries@;
            assert forall|x: int| 0 <= x < e0.len() implies opt_int(#[trigger] e0[x].presence.first_call_index)
                == last_call(iv, e0[x].key.key(), i + 1) && opt_int(e0[x].presence.first_output_index)
                == last_output(iv, e0[x].key.key(), i + 1) by {}
        }
        i = i + 1;
    }
    entries
}


/// Whether pair `k` has its last call or last output at or after `s`.
pub open spec fn touches(items: Seq<ItemView>, k: (CallOutputFamily, Seq<char>), s: int) -> bool {
    ||| (last_call(items, k, items.len() as int) matches Some(c) && c >= s)
    ||| (last_output(items, k, items.len() as int) matches Some(o) && o >= s)
}

/// A tail `items[s..]` is closed when every pair it touches has both its
/// last call and its last output inside it.
pub open spec fn tail_closed(items: Seq<ItemView>, s: int) -> bool {
    forall|k: (CallOutputFamily, Seq<char>)|
        #[trigger] touches(items, k, s) ==> (last_call(items, k, items.len() as int) matches Some(c)
            ==> c >= s) && (last_output(items, k, items.len() as int) matches Some(o) ==> o >= s)
}

/// Where a tail of `requested` items would start: `n - min(requested, n)`.
pub open spec fn requested_split(n: int, requested: int) -> int {
    if requested < n {
        n - requested
    } else {
        0
    }
}

/// The start of the protected tail: the largest index at or before
/// `items.len() - min(requested_fresh_tail_count, items.len())` whose tail
/// does not separate any call from its output.
pub fn compute_protected_tail_split(items: &[ResponseItem], requested_fresh_tail_count: usize) -> (r: usize)
    ensures
        r <= requested_split(items.len() as int, requested_fresh_tail_count as int),
        tail_closed(items_view(items@), r as int),
        forall|s: int|
            0 <= s <= requested_split(items.len() as int, requested_fresh_tail_count as int)
                && #[trigger] tail_closed(items_view(items@), s) ==> s <= r,
{
    let ghost iv = items_view(items@);
    let n = items.len();
    if n == 0 {
        return 0;
    }
    let analysis = analyze_history(items);
    let entries = &analysis.pair_presence;
    let ghost init = requested_split(n as int, requested_fresh_tail_count as int);
    let mut split_at: usize = if requested_fresh_tail_count < n {
        n - requested_fresh_tail_count
    } else {
        0
    };
    loop
        invariant
            n == items.len(),
            iv == items_view(items@),
            iv.len() == n,
            init == requested_split(n as int, requested_fresh_tail_count as int),
            split_at <= init,
            presence_describes(iv, entries@, n as int),
            forall|s: int| 0 <= s <= init && #[trigger] tail_closed(iv, s) ==> s <= split_at,
        decreases split_at,
    {
        let mut expanded = split_at;
        let mut e: usize = 0;
        while e < entries.len()
            invariant
                n == items.len(),
                iv == items_view(items@),
                iv.len() == n,
                split_at <= init,
                expanded <= split_at,
                0 <= e <= entries.len(),
                presence_describes(iv, entries@, n as int),
                forall|s: int| 0 <= s <= init && #[trigger] tail_closed(iv, s) ==> s <= expanded,
                forall|x: int|
                    0 <= x < e && #[trigger] touches(iv, entries@[x].key.key(), split_at as int) ==> (
                    last_call(iv, entries@[x].key.key(), n as int) matches Some(c) ==> c >= expanded)
                        && (last_output(iv, entries@[x].key.key(), n as int) matches Some(o) ==> o
                        >= expanded),
            decreases entries.len() - e,
        {
            let ghost k = entries@[e as int].key.key();
            let fc = entries[e].presence.first_call_index;
            let fo = entries[e].presence.first_output_index;
            assert(opt_int(fc) == last_call(iv, k, n as int));
            assert(opt_int(fo) == last_output(iv, k, n as int));
            let tail_contains_call = match fc {
                Some(idx) => idx >= split_at,
                None => false,
            };
            let tail_contains_output = match fo {
                Some(idx) => idx >= split_at,
                None => false,
            };
            if tail_contains_call || tail_contains_output {
                let ghost before = expanded;
                if let Some(c) = fc {
                    if c < expanded {
                        expanded = c;
                    }
                }
                if let Some(o) = fo {
                    if o < expanded {
                        expanded = o;
                    }
                }
                assert forall|s: int| 0 <= s <= init && #[trigger] tail_closed(iv, s) implies s <= expanded by {
                    assert(s <= split_at);
                    assert(touches(iv, k, s));
                }
            }
            e = e + 1;
        }
        if expanded == split_at {
            assert forall|k: (CallOutputFamily, Seq<char>)| #[trigger] touches(iv, k, split_at as int) implies (
                last_call(iv, k, n as int) matches Some(c) ==> c >= split_at) && (last_output(iv, k, n as int) matches Some(o)
                ==> o >= split_at) by {
                lemma_last_call_some(iv, k, n as int);
                lemma_last_output_some(iv, k, n as int);
                let x: int = if last_call(iv, k, n as int) is Some {
                    let c = last_call(iv, k, n as int).unwrap();
                    assert(spec_call_key(iv[c]) == Some(k));
                    choose|x: int| 0 <= x < entries@.len() && #[trigger] entries@[x].key.key() == k
                } else {
                    let o = last_output(iv, k, n as int).unwrap();
                    assert(spec_output_key(iv[o]) == Some(k));
                    choose|x: int| 0 <= x < entries@.len() && #[trigger] entries@[x].key.key() == k
                };
                assert(touches(iv, entries@[x].key.key(), split_at as int));
            }
            return split_at;
        }
        split_at = expanded;
    }
}

/// Finds the broken pairs of `items`, with the repairs they call for.
pub fn analyze_history(items: &[ResponseItem]) -> (r: HistoryIntegrityAnalysis)
    ensures
        presence_describes(items_view(items@), r.pair_presence@, items.len() as int),
        issues_view(r.issues@) == history_issues(items_view(items@)),
        missing_view(r.missing_outputs@) == missing_upto(
            items_view(items@),
            items.len() as int,
        ),
        usizes_view(r.orphan_output_indexes@) == orphans_upto(
            items_view(items@),
            items.len() as int,
        ),
{
    let ghost iv = items_view(items@);
    let n = items.len();
    let pair_presence = pair_presence(items);
    let mut missing_outputs: Vec<MissingOutputInsertion> = Vec::new();
    let mut orphan_output_indexes: Vec<usize> = Vec::new();
    let mut issues: Vec<HistoryIntegrityIssue> = Vec::new();
    let mut i: usize = 0;
    while i < n
        invariant
            0 <= i <= n,
            n == items.len(),
            iv == items_view(items@),
            iv.len() == n,
            presence_describes(iv, pair_presence@, n as int),
            issues_view(issues@) == issues_upto(iv, i as int),
            missing_view(missing_outputs@) == missing_upto(iv, i as int),
            usizes_view(orphan_output_indexes@) == orphans_upto(iv, i as int),
        decreases n - i,
    {
        assert(iv[i as int] == items@[i as int]@);
        let ghost issues0 = issues_view(issues@);
        let ck = call_key(&items[i]);
        if let Some(key) = ck {
            let ghost k = key.key();
            proof {
                let x = choose|x: int| 0 <= x < pair_presence@.len() && #[trigger] pair_presence@[x].key.key() == k;
                lemma_last_output_some(iv, k, n as int);
            }
            let found = find_entry(&pair_presence, &key);
            let e = found.unwrap();
            if pair_presence[e].presence.first_output_index.is_none() {
                let ghost old_issues = issues@;
                issues.push(HistoryIntegrityIssue::MissingOutput { call_id: key.call_id.clone(), family: family_label(key.family) });
                assert(issues_view(issues@) == issues_view(old_issues).push((true, k.1, family_text(k.0))));
                proof {
                    lemma_call_key_synthesizable(iv[i as int]);
                }
                let ghost old_missing = missing_outputs@;
                missing_outputs.push(MissingOutputInsertion { index: i, item: synthetic_output_for_call(&items[i]) });
                assert(missing_view(missing_outputs@) == missing_view(old_missing).push((i as int, synthetic_output(iv[i as int]))));
            }
        }
        let ghost issues1 = issues_view(issues@);
        let ok = output_key(&items[i]);
        if let Some(key) = ok {
            let ghost k = key.key();
            proof {
                let x = choose|x: int| 0 <= x < pair_presence@.len() && #[trigger] pair_presence@[x].key.key() == k;
                lemma_last_call_some(iv, k, n as int);
            }
            let found = find_entry(&pair_presence, &key);
            let e = found.unwrap();
            if pair_presence[e].presence.first_call_index.is_none() {
                let ghost old_issues = issues@;
                issues.push(HistoryIntegrityIssue::OrphanOutput { call_id: key.call_id.clone(), family: family_label(key.family) });
                assert(issues_view(issues@) == issues_view(old_issues).push((false, k.1, family_text(k.0))));
                let ghost old_orphans = orphan_output_indexes@;
                orphan_output_indexes.push(i);
                assert(usizes_view(orphan_output_indexes@) == usizes_view(old_orphans).push(i as int));
            }
        }
        proof {
            assert(spec_output_key(iv[i as int]) is None || spec_call_key(iv[i as int]) is None);
            assert(issues_view(issues@) =~= issues0 + item_issues(iv, i as int));
        }
        i = i + 1;
    }
    HistoryIntegrityAnalysis { missing_outputs, orphan_output_indexes, issues, pair_presence }
}


/// Checks that every call in a replacement history has its output and
/// every output its call; the issues otherwise, in item order.
pub fn validate_replacement_history(items: &[ResponseItem]) -> (r: Result<(), Vec<HistoryIntegrityIssue>>)
    ensures
        match r {
            Ok(()) => history_issues(items_view(items@)).len() == 0,
            Err(issues) => issues_view(issues@) == history_issues(items_view(items@))
                && issues@.len() > 0,
        },
{
    let issues = analyze_history(items).issues;
    if issues.len() == 0 {
        Ok(())
    } else {
        Err(issues)
    }
}

/// The repair of the first `n` items: each orphaned output dropped, each
/// unanswered call followed directly by its synthetic output, every other
/// item kept, in order.
pub open spec fn repair_upto(items: Seq<ItemView>, n: int) -> Seq<ItemView>
    decreases n,
{
    if n <= 0 {
        Seq::empty()
    } else {
        repair_upto(items, n - 1) + if is_orphan(items, n - 1) {
            Seq::empty()
        } else if is_missing(items, n - 1) {
            seq![items[n - 1], synthetic_output(items[n - 1])]
        } else {
            seq![items[n - 1]]
        }
    }
}

/// The repair of a history: its orphaned outputs dropped, each unanswered
/// call followed directly by its synthetic output, the order otherwise kept.
pub open spec fn repaired_items(items: Seq<ItemView>) -> Seq<ItemView> {
    repair_upto(items, items.len() as int)
}

pub proof fn lemma_orphans_sorted(items: Seq<ItemView>, n: int)
    requires
        0 <= n <= items.len(),
    ensures
        orphans_upto(items, n).len() <= n,
        forall|a: int, b: int|
            0 <= a < b < orphans_upto(items, n).len() ==> #[trigger] orphans_upto(items, n)[a]
                < #[trigger] orphans_upto(items, n)[b],
        forall|a: int|
            0 <= a < orphans_upto(items, n).len() ==> 0 <= #[trigger] orphans_upto(items, n)[a] < n,
    decreases n,
{
    if n > 0 {
        lemma_orphans_sorted(items, n - 1);
    }
}

pub proof fn lemma_missing_sorted(items: Seq<ItemView>, n: int)
    requires
        0 <= n <= items.len(),
    ensures
        missing_upto(items, n).len() <= n,
        forall|a: int, b: int|
            0 <= a < b < missing_upto(items, n).len() ==> #[trigger] missing_upto(items, n)[a].0
                < #[trigger] missing_upto(items, n)[b].0,
        forall|a: int|
            0 <= a < missing_upto(items, n).len() ==> 0 <= #[trigger] missing_upto(items, n)[a].0 < n,
    decreases n,
{
    if n > 0 {
        lemma_missing_sorted(items, n - 1);
    }
}

/// A history with its broken pairs repaired.
#[derive(Clone, Debug, PartialEq)]
pub struct HistoryRepairResult {
    pub items: Vec<ResponseItem>,
    pub issues: Vec<HistoryIntegrityIssue>,
    pub changed: bool,
}

/// Repairs a history before resuming from it: when it has issues, drops the
/// orphaned outputs and puts a synthetic `aborted` output right after each
/// unanswered call; otherwise returns it unchanged. The result validates.
pub fn repair_replacement_history_for_resume(items: &[ResponseItem]) -> (r: HistoryRepairResult)
    ensures
        issues_view(r.issues@) == history_issues(items_view(items@)),
        r.changed == (history_issues(items_view(items@)).len() > 0),
        items_view(r.items@) == repaired_items(items_view(items@)),
        !r.changed ==> items_view(r.items@) == items_view(items@),
        history_issues(items_view(r.items@)).len() == 0,
{
    let ghost iv = items_view(items@);
    let ghost n = items.len() as int;
    proof {
        law_repaired_history_validates(iv);
    }
    let analysis = analyze_history(items);
    if analysis.issues.len() == 0 {
        proof {
            law_repair_keeps_valid_history(iv);
        }
        let copy = copy_items(items, 0, items.len());
        assert(items@.subrange(0, items.len() as int) == items@);
        return HistoryRepairResult { items: copy, issues: Vec::new(), changed: false };
    }
    let ghost orphans = orphans_upto(iv, n);
    let ghost missing = missing_upto(iv, n);
    proof {
        lemma_orphans_sorted(iv, n);
        lemma_orphans_exact(iv, n);
        lemma_missing_sorted(iv, n);
        lemma_missing_entries(iv, n);
    }
    let orphan_idx = &analysis.orphan_output_indexes;
    let missing_out = &analysis.missing_outputs;
    let mut repaired: Vec<ResponseItem> = Vec::new();
    let mut a: usize = 0;
    let mut b: usize = 0;
    let mut i: usize = 0;
    while i < items.len()
        invariant
            iv == items_view(items@),
            n == items@.len(),
            usizes_view(orphan_idx@) == orphans,
            missing_view(missing_out@) == missing,
            orphans == orphans_upto(iv, n),
            missing == missing_upto(iv, n),
            forall|x: int, y: int| 0 <= x < y < orphans.len() ==> #[trigger] orphans[x] < #[trigger] orphans[y],
            forall|x: int| 0 <= x < orphans.len() ==> 0 <= #[trigger] orphans[x] < n,
            forall|j: int| 0 <= j < n ==> (orphans.contains(j) <==> #[trigger] is_orphan(iv, j)),
            forall|x: int, y: int| 0 <= x < y < missing.len() ==> #[trigger] missing[x].0 < #[trigger] missing[y].0,
            forall|m: int| 0 <= m < missing.len() ==> {
                let c = #[trigger] missing[m].0;
                &&& 0 <= c < n
                &&& is_missing(iv, c)
                &&& missing[m].1 == synthetic_output(iv[c])
            },
            forall|c: int| 0 <= c < n && #[trigger] is_missing(iv, c) ==> exists|m: int|
                0 <= m < missing.len() && #[trigger] missing[m].0 == c,
            0 <= i <= n,
            0 <= a <= orphans.len(),
            0 <= b <= missing.len(),
            forall|x: int| 0 <= x < a ==> #[trigger] orphans[x] < i,
            a < orphans.len() ==> orphans[a as int] >= i,
            forall|x: int| 0 <= x < b ==> #[trigger] missing[x].0 < i,
            b < missing.len() ==> missing[b as int].0 >= i,
            items_view(repaired@) == repair_upto(iv, i as int),
        decreases n - i,
    {
        let ghost before = items_view(repaired@);
        let orphan_here = a < orphan_idx.len() && orphan_idx[a] == i;
        proof {
            if is_orphan(iv, i as int) {
                let x = choose|x: int| 0 <= x < orphans.len() && orphans[x] == i;
                if x < a {
                } else if x > a {
                    assert(orphans[a as int] < orphans[x]);
                }
                assert(x == a);
            }
            if orphan_here {
                assert(orphans[a as int] == i);
                assert(orphans.contains(i as int));
            }
        }
        if orphan_here {
            a = a + 1;
        } else {
            repaired.push(items[i].duplicate());
            let missing_here = b < missing_out.len() && missing_out[b].index == i;
            proof {
                if is_missing(iv, i as int) {
                    let x = choose|x: int| 0 <= x < missing.len() && #[trigger] missing[x].0 == i;
                    if x < b {
                    } else if x > b {
                        assert(missing[b as int].0 < missing[x].0);
                    }
                    assert(x == b);
                }
                if missing_here {
                    assert(missing[b as int] == (missing_out@[b as int].index as int, missing_out@[b as int].item@));
                    assert(is_missing(iv, i as int));
                }
            }
            if missing_here {
                let out = missing_out[b].item.duplicate();
                assert(missing[b as int].1 == out@);
                repaired.push(out);
                b = b + 1;
            }
        }
        assert(items_view(repaired@) =~= repair_upto(iv, i + 1));
        i = i + 1;
    }
    HistoryRepairResult { items: repaired, issues: analysis.issues, changed: true }
}

/// `(index, output)` for each call that has no output: the output goes
/// right after the call.
pub fn missing_output_insertions(items: &[ResponseItem]) -> (r: Vec<(usize, ResponseItem)>)
    ensures
        r@.map_values(|p: (usize, ResponseItem)| (p.0 as int, p.1@)) == missing_upto(
            items_view(items@),
            items.len() as int,
        ),
{
    let analysis = analyze_history(items);
    let ghost mv = missing_view(analysis.missing_outputs@);
    let mut r: Vec<(usize, ResponseItem)> = Vec::new();
    for i in 0..analysis.missing_outputs.len()
        invariant
            mv == missing_view(analysis.missing_outputs@),
            r@.map_values(|p: (usize, ResponseItem)| (p.0 as int, p.1@)) == mv.take(i as int),
    {
        let m = &analysis.missing_outputs[i];
        let ghost before = r@;
        r.push((m.index, m.item.duplicate()));
        assert(r@.map_values(|p: (usize, ResponseItem)| (p.0 as int, p.1@)) =~= before.map_values(
            |p: (usize, ResponseItem)| (p.0 as int, p.1@),
        ).push(mv[i as int]));
        assert(mv.take(i + 1) == mv.take(i as int).push(mv[i as int]));
    }
    assert(mv.take(mv.len() as int) == mv);
    r
}

/// Indexes of the outputs whose call is absent, ascending.
pub fn orphan_output_indexes(items: &[ResponseItem]) -> (r: Vec<usize>)
    ensures
        usizes_view(r@) == orphans_upto(items_view(items@), items.len() as int),
{
    analyze_history(items).orphan_output_indexes
}


pub proof fn lemma_no_issues(items: Seq<ItemView>, n: int)
    requires
        0 <= n <= items.len(),
        forall|j: int| 0 <= j < n ==> (#[trigger] spec_call_key(items[j]) matches Some(k) ==> has_output(items, k)),
        forall|j: int| 0 <= j < n ==> (#[trigger] spec_output_key(items[j]) matches Some(k) ==> has_call(items, k)),
    ensures
        issues_upto(items, n).len() == 0,
    decreases n,
{
    if n > 0 {
        lemma_no_issues(items, n - 1);
        assert(item_issues(items, n - 1).len() == 0);
    }
}

pub proof fn lemma_missing_entries(items: Seq<ItemView>, n: int)
    requires
        0 <= n <= items.len(),
    ensures
        forall|m: int| 0 <= m < missing_upto(items, n).len() ==> {
            let c = #[trigger] missing_upto(items, n)[m].0;
            &&& 0 <= c < n
            &&& is_missing(items, c)
            &&& missing_upto(items, n)[m].1 == synthetic_output(items[c])
        },
        forall|c: int| 0 <= c < n && #[trigger] is_missing(items, c) ==> exists|m: int|
            0 <= m < missing_upto(items, n).len() && #[trigger] missing_upto(items, n)[m].0 == c,
    decreases n,
{
    if n > 0 {
        lemma_missing_entries(items, n - 1);
        let prev = missing_upto(items, n - 1);
        let cur = missing_upto(items, n);
        assert forall|c: int| 0 <= c < n && #[trigger] is_missing(items, c) implies exists|m: int|
            0 <= m < cur.len() && #[trigger] cur[m].0 == c by {
            if c == n - 1 {
                assert(cur[cur.len() - 1].0 == c);
            } else {
                let m = choose|m: int| 0 <= m < prev.len() && #[trigger] prev[m].0 == c;
                assert(cur[m] == prev[m]);
            }
        }
    }
}

pub proof fn lemma_orphans_exact(items: Seq<ItemView>, n: int)
    requires
        0 <= n <= items.len(),
    ensures
        forall|j: int| 0 <= j < n ==> (orphans_upto(items, n).contains(j) <==> #[trigger] is_orphan(items, j)),
    decreases n,
{
    if n > 0 {
        lemma_orphans_exact(items, n - 1);
        lemma_orphans_sorted(items, n - 1);
        let prev = orphans_upto(items, n - 1);
        let cur = orphans_upto(items, n);
        assert forall|j: int| 0 <= j < n implies (cur.contains(j) <==> #[trigger] is_orphan(items, j)) by {
            if j < n - 1 {
                if cur.contains(j) {
                    let a = choose|a: int| 0 <= a < cur.len() && cur[a] == j;
                    if a < prev.len() {
                        assert(prev[a] == j);
                    }
                }
                if prev.contains(j) {
                    let a = choose|a: int| 0 <= a < prev.len() && prev[a] == j;
                    assert(cur[a] == j);
                }
            } else {
                if cur.contains(j) && !is_orphan(items, j) {
                    let a = choose|a: int| 0 <= a < cur.len() && cur[a] == j;
                    assert(prev[a] < n - 1);
                }
                if is_orphan(items, j) {
                    assert(cur[cur.len() - 1] == j);
                }
            }
        }
    }
}

/// What the repair of the first `n` items holds: every item that is not an
/// orphaned output, and the synthetic output of every unanswered call; and
/// nothing else.
pub proof fn lemma_repair_contents(items: Seq<ItemView>, n: int)
    requires
        0 <= n <= items.len(),
    ensures
        forall|j: int| 0 <= j < n && !is_orphan(items, j) ==> repair_upto(items, n).contains(
            #[trigger] items[j],
        ),
        forall|j: int| 0 <= j < n && #[trigger] is_missing(items, j) ==> repair_upto(items, n).contains(
            synthetic_output(items[j]),
        ),
        forall|q: int| 0 <= q < repair_upto(items, n).len() ==> exists|j: int|
            0 <= j < n && ((!is_orphan(items, j) && #[trigger] repair_upto(items, n)[q] == items[j]) || (
            is_missing(items, j) && repair_upto(items, n)[q] == synthetic_output(items[j]))),
    decreases n,
{
    if n > 0 {
        lemma_repair_contents(items, n - 1);
        let prev = repair_upto(items, n - 1);
        let cur = repair_upto(items, n);
        let last = n - 1;
        assert(cur.subrange(0, prev.len() as int) =~= prev);
        assert forall|j: int| 0 <= j < n && !is_orphan(items, j) implies cur.contains(#[trigger] items[j]) by {
            if j < last {
                let q = choose|q: int| 0 <= q < prev.len() && prev[q] == items[j];
                assert(cur[q] == prev[q]);
            } else {
                assert(cur[prev.len() as int] == items[j]);
            }
        }
        assert forall|j: int| 0 <= j < n && #[trigger] is_missing(items, j) implies cur.contains(
            synthetic_output(items[j]),
        ) by {
            if j < last {
                let q = choose|q: int| 0 <= q < prev.len() && prev[q] == synthetic_output(items[j]);
                assert(cur[q] == prev[q]);
            } else {
                assert(!is_orphan(items, j));
                assert(cur[prev.len() as int + 1] == synthetic_output(items[j]));
            }
        }
        assert forall|q: int| 0 <= q < cur.len() implies exists|j: int|
            0 <= j < n && ((!is_orphan(items, j) && #[trigger] cur[q] == items[j]) || (is_missing(items, j)
            && cur[q] == synthetic_output(items[j]))) by {
            if q < prev.len() {
                assert(cur[q] == prev[q]);
                let j = choose|j: int|
                    0 <= j < n - 1 && ((!is_orphan(items, j) && #[trigger] prev[q] == items[j]) || (
                    is_missing(items, j) && prev[q] == synthetic_output(items[j])));
                assert(0 <= j < n);
            } else if q == prev.len() {
                assert(cur[q] == items[last]);
            } else {
                assert(cur[q] == synthetic_output(items[last]));
            }
        }
    }
}

/// Repairing a history for resume leaves no broken pair: every call in the
/// repaired history has its output and every output its call, so the
/// repaired history validates.
pub proof fn law_repaired_history_validates(items: Seq<ItemView>)
    ensures
        history_issues(repaired_items(items)).len() == 0,
{
    let n = items.len() as int;
    let r = repaired_items(items);
    lemma_repair_contents(items, n);
    // Calls all survive the repair.
    assert forall|k: (CallOutputFamily, Seq<char>)| has_call(items, k) implies has_call(r, k) by {
        let j = choose|j: int| 0 <= j < n && #[trigger] spec_call_key(items[j]) == Some(k);
        assert(!is_orphan(items, j));
        assert(r.contains(items[j]));
        let q = choose|q: int| 0 <= q < r.len() && r[q] == items[j];
        assert(spec_call_key(r[q]) == Some(k));
    }
    // Outputs of pairs that have a call survive too.
    assert forall|k: (CallOutputFamily, Seq<char>)| has_output(items, k) && has_call(items, k) implies has_output(r, k) by {
        let j = choose|j: int| 0 <= j < n && #[trigger] spec_output_key(items[j]) == Some(k);
        assert(!is_orphan(items, j));
        assert(r.contains(items[j]));
        let q = choose|q: int| 0 <= q < r.len() && r[q] == items[j];
        assert(spec_output_key(r[q]) == Some(k));
    }
    assert forall|q: int| 0 <= q < r.len() implies (#[trigger] spec_call_key(r[q]) matches Some(k) ==> has_output(r, k)) by {
        if let Some(k) = spec_call_key(r[q]) {
            let j = choose|j: int|
                0 <= j < n && ((!is_orphan(items, j) && #[trigger] r[q] == items[j]) || (is_missing(items, j)
                && r[q] == synthetic_output(items[j])));
            if is_missing(items, j) && r[q] == synthetic_output(items[j]) {
                lemma_call_key_synthesizable(items[j]);
                assert(spec_call_key(synthetic_output(items[j])) is None);
            } else {
                assert(has_call(items, k));
                if !has_output(items, k) {
                    assert(is_missing(items, j));
                    lemma_call_key_synthesizable(items[j]);
                    assert(r.contains(synthetic_output(items[j])));
                    let p = choose|p: int| 0 <= p < r.len() && r[p] == synthetic_output(items[j]);
                    assert(spec_output_key(r[p]) == Some(k));
                }
            }
        }
    }
    assert forall|q: int| 0 <= q < r.len() implies (#[trigger] spec_output_key(r[q]) matches Some(k) ==> has_call(r, k)) by {
        if let Some(k) = spec_output_key(r[q]) {
            let j = choose|j: int|
                0 <= j < n && ((!is_orphan(items, j) && #[trigger] r[q] == items[j]) || (is_missing(items, j)
                && r[q] == synthetic_output(items[j])));
            if is_missing(items, j) && r[q] == synthetic_output(items[j]) {
                lemma_call_key_synthesizable(items[j]);
                assert(has_call(items, k));
            } else {
                assert(!is_orphan(items, j));
                assert(has_call(items, k));
            }
        }
    }
    lemma_no_issues(r, r.len() as int);
}

proof fn lemma_no_issues_nothing_to_repair(items: Seq<ItemView>, n: int)
    requires
        0 <= n <= items.len(),
        issues_upto(items, n).len() == 0,
    ensures
        orphans_upto(items, n).len() == 0,
        missing_upto(items, n).len() == 0,
    decreases n,
{
    if n > 0 {
        assert(issues_upto(items, n) == issues_upto(items, n - 1) + item_issues(items, n - 1));
        assert(issues_upto(items, n - 1).len() == 0);
        assert(item_issues(items, n - 1).len() == 0);
        lemma_no_issues_nothing_to_repair(items, n - 1);
        assert(!is_orphan(items, n - 1));
        assert(!is_missing(items, n - 1));
    }
}

proof fn lemma_repair_identity(items: Seq<ItemView>, n: int)
    requires
        0 <= n <= items.len(),
        orphans_upto(items, items.len() as int).len() == 0,
        missing_upto(items, items.len() as int).len() == 0,
    ensures
        repair_upto(items, n) == items.take(n),
    decreases n,
{
    if n > 0 {
        lemma_repair_identity(items, n - 1);
        lemma_orphans_exact(items, items.len() as int);
        lemma_missing_entries(items, items.len() as int);
        let all_o = orphans_upto(items, items.len() as int);
        assert(!all_o.contains(n - 1));
        assert(!is_orphan(items, n - 1));
        if is_missing(items, n - 1) {
            let m = choose|m: int| 0 <= m < missing_upto(items, items.len() as int).len()
                && #[trigger] missing_upto(items, items.len() as int)[m].0 == n - 1;
        }
        assert(items.take(n) =~= items.take(n - 1) + seq![items[n - 1]]);
    }
}

/// A history with no broken pair comes out of the repair unchanged.
pub proof fn law_repair_keeps_valid_history(items: Seq<ItemView>)
    requires
        history_issues(items).len() == 0,
    ensures
        repaired_items(items) == items,
{
    lemma_no_issues_nothing_to_repair(items, items.len() as int);
    lemma_repair_identity(items, items.len() as int);
    assert(items.take(items.len() as int) =~= items);
}

/// A local shell call with id `c` opens the same pair as a function call
/// with that id: a function call output with id `c` answers it, so neither
/// is reported; and when no such output exists the call is unanswered and
/// the repair adds an `aborted` function call output with id `c`.
pub proof fn law_local_shell_calls_pair_with_function_outputs(items: Seq<ItemView>, i: int, c: Seq<char>)
    requires
        0 <= i < items.len(),
        items[i] matches ItemView::LocalShellCall { call_id: Some(id), .. } && id == c,
    ensures
        forall|j: int|
            0 <= j < items.len() && (#[trigger] items[j] matches ItemView::FunctionCallOutput {
                call_id,
                ..
            } && call_id == c) ==> !is_orphan(items, j) && !is_missing(items, i),
        (forall|j: int|
            0 <= j < items.len() ==> !(#[trigger] items[j] matches ItemView::FunctionCallOutput {
                call_id,
                ..
            } && call_id == c)) ==> is_missing(items, i) && repaired_items(items).contains(
            ItemView::FunctionCallOutput { call_id: c, output: "aborted"@ },
        ),
{
    reveal_strlit("aborted");
    let k = (CallOutputFamily::FunctionOrShell, c);
    assert(spec_call_key(items[i]) == Some(k));
    assert forall|j: int|
        0 <= j < items.len() && (#[trigger] items[j] matches ItemView::FunctionCallOutput {
            call_id,
            ..
        } && call_id == c) implies !is_orphan(items, j) && !is_missing(items, i) by {
        assert(spec_output_key(items[j]) == Some(k));
        assert(has_call(items, k));
        assert(has_output(items, k));
    }
    if forall|j: int|
        0 <= j < items.len() ==> !(#[trigger] items[j] matches ItemView::FunctionCallOutput {
            call_id,
            ..
        } && call_id == c) {
        assert(!has_output(items, k)) by {
            if has_output(items, k) {
                let j = choose|j: int| 0 <= j < items.len() && #[trigger] spec_output_key(items[j]) == Some(k);
                assert(items[j] matches ItemView::FunctionCallOutput { call_id, .. } && call_id == c);
            }
        }
        assert(is_missing(items, i));
        lemma_repair_contents(items, items.len() as int);
        assert(aborted_word() =~= "aborted"@);
        assert(synthetic_output(items[i]) == ItemView::FunctionCallOutput { call_id: c, output: "aborted"@ });
    }
}

} // verus!
