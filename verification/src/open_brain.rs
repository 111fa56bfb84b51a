//! The Open Brain store's data model: configuration, context packets,
//! graph records, and the selection of the summary to promote to durable
//! memory.
use vstd::prelude::*;
use crate::items::{
    ItemView, ResponseItem, content_items_to_text, contents_view, items_view, opt_text,
    spec_content_text,
};
use crate::text::{
    append_str, chars_eq, chars_of, owned, str_eq, decimal, join, join_strings, push_decimal, string_from_chars,
    strings_view, strs_view, trim, trim_bounds, trimmed,
};

verus! {

/// Always `true` (the configured default of several switches).
pub fn bool_true() -> (r: bool)
    ensures
        r,
{
    true
}

/// Default number of most recent history items kept verbatim.
pub fn default_fresh_tail_count() -> (r: usize)
    ensures
        r == 64,
{
    64
}

/// Default token size of a history chunk summarized into one leaf.
pub fn default_leaf_chunk_tokens() -> (r: usize)
    ensures
        r == 20_000,
{
    20_000
}

/// Default token target of a leaf summary.
pub fn default_leaf_target_tokens() -> (r: usize)
    ensures
        r == 1_200,
{
    1_200
}

/// Default token target of a condensed summary.
pub fn default_condensed_target_tokens() -> (r: usize)
    ensures
        r == 2_000,
{
    2_000
}

/// Default number of summaries condensed together.
pub fn default_condensed_min_fanout() -> (r: usize)
    ensures
        r == 4,
{
    4
}

/// Default depth of incremental condensation.
pub fn default_incremental_max_depth() -> (r: usize)
    ensures
        r == 1,
{
    1
}

/// Default token budget of an expansion.
pub fn default_max_expand_tokens() -> (r: usize)
    ensures
        r == 4_000,
{
    4_000
}

/// Default summary depth a new session keeps.
pub fn default_new_session_retain_depth() -> (r: usize)
    ensures
        r == 2,
{
    2
}

/// How the project a session belongs to is chosen.
#[derive(Clone, Copy, Debug, PartialEq, Eq, Structural)]
pub enum OpenBrainProjectScopeStrategy {
    GitRootFirst,
    WorkspaceRoot,
}

impl Default for OpenBrainProjectScopeStrategy {
    fn default() -> (r: Self)
        ensures
            r == OpenBrainProjectScopeStrategy::GitRootFirst,
    {
        OpenBrainProjectScopeStrategy::GitRootFirst
    }
}

/// Whether and how the Open Brain store is used.
#[derive(Clone, Debug, PartialEq, Eq)]
pub struct OpenBrainConfig {
    pub enabled: bool,
    pub supabase_url_env: Option<String>,
    pub service_role_key_env: Option<String>,
    pub project_scope_strategy: OpenBrainProjectScopeStrategy,
    pub mirror_durable_to_thoughts: bool,
}

impl Default for OpenBrainConfig {
    fn default() -> (r: Self)
        ensures
            !r.enabled,
            r.supabase_url_env is None,
            r.service_role_key_env is None,
            r.project_scope_strategy == OpenBrainProjectScopeStrategy::GitRootFirst,
            r.mirror_durable_to_thoughts,
    {
        OpenBrainConfig {
            enabled: false,
            supabase_url_env: None,
            service_role_key_env: None,
            project_scope_strategy: OpenBrainProjectScopeStrategy::default(),
            mirror_durable_to_thoughts: true,
        }
    }
}

/// Where the store lives and the key it is reached with.
#[derive(Clone, Debug, PartialEq, Eq)]
pub struct OpenBrainStoreConfig {
    pub supabase_url: String,
    pub service_role_key: String,
}

/// Why an item was put in a context packet.
#[derive(Clone, Copy, Debug, PartialEq, Eq, Structural)]
pub enum ContextPacketItemKind {
    RecentTail,
    GraphFrontier,
    DurableMemory,
    ExplicitExpansion,
    WorkingMemory,
    SystemInstruction,
}

/// How two graph nodes are related.
#[derive(Clone, Copy, Debug, PartialEq, Eq, Structural)]
pub enum OpenBrainRelationship {
    Summarizes,
    Condenses,
    ExpandsTo,
    DerivesFrom,
    Supersedes,
    PromotesTo,
    BelongsToProject,
    ForkedFrom,
}

/// A reference to a stored artifact.
#[derive(Clone, Debug, PartialEq, Eq)]
pub struct OpenBrainArtifactRef {
    pub id: String,
    pub kind: String,
    pub relationship: Option<OpenBrainRelationship>,
}

/// One item of an assembled context packet.
#[derive(Clone, Debug, PartialEq, Eq)]
pub struct ContextPacketItem {
    pub kind: ContextPacketItemKind,
    pub content: String,
    pub source_refs: Vec<OpenBrainArtifactRef>,
    pub selection_reason: String,
    pub depth: Option<u32>,
    pub src_tok: Option<u32>,
    pub desc_tok: Option<u32>,
}

/// The context the store assembles for a thread within a token budget.
#[derive(Clone, Debug, PartialEq, Eq)]
pub struct ContextPacket {
    pub packet_id: String,
    pub packet_node_id: Option<String>,
    pub session_id: Option<String>,
    pub thread_id: String,
    pub project_key: Option<String>,
    pub scope_key: Option<String>,
    pub token_budget: usize,
    pub items: Vec<ContextPacketItem>,
}

/// The kind of a graph node.
#[derive(Clone, Copy, Debug, PartialEq, Eq, Structural)]
pub enum OpenBrainNodeKind {
    RawTurn,
    SummaryD0,
    SummaryD1Plus,
    DurableMemory,
    ContextPacket,
    ExpansionResult,
}

/// What appending rollout items to the store reported.
#[derive(Clone, Debug, PartialEq, Eq)]
pub struct OpenBrainAppendResult {
    pub session_id: String,
    pub thread_id: String,
    pub project_key: Option<String>,
    pub scope_key: Option<String>,
    pub inserted_count: usize,
    pub last_sequence: Option<u64>,
}

/// The leaf summary node a compaction created.
#[derive(Clone, Debug, PartialEq, Eq)]
pub struct OpenBrainLeafSummary {
    pub summary_node_id: String,
    pub thread_id: String,
    pub depth: u32,
    pub span_id: Option<String>,
}

/// Counters of a thread's graph.
#[derive(Clone, Debug, PartialEq)]
pub struct OpenBrainGraphStatus {
    pub fresh_tail_count: usize,
    pub packet_count: usize,
    pub latest_packet_id: Option<String>,
    pub latest_packet_token_budget: Option<usize>,
    pub latest_packet_query: Option<String>,
    pub node_kind_counts: std::collections::BTreeMap<String, usize>,
    pub depth_counts: std::collections::BTreeMap<String, usize>,
}

/// A summary that could be promoted to durable memory.
#[derive(Clone, Debug, PartialEq, Eq)]
pub struct OpenBrainDurableMemoryCandidate {
    pub summary_node_id: String,
    pub title: String,
    pub content: String,
    pub source_event_ids: Vec<String>,
    pub source_token_count: Option<u32>,
    pub summary_token_count: Option<u32>,
}

/// What promoting durable memory reported.
#[derive(Clone, Debug, PartialEq, Eq)]
pub struct OpenBrainPromotionResult {
    pub session_id: String,
    pub thread_id: String,
    pub project_key: Option<String>,
    pub inserted_count: usize,
}


/// A durable memory record to promote into the project's memory.
///
/// `metadata` holds its entries in ascending key order, each key once
/// (`metadata_in_key_order`).
#[derive(Debug, PartialEq)]
pub struct OpenBrainDurableMemoryRecord {
    pub title: String,
    pub content: String,
    pub memory_type: String,
    pub memory_key: Option<String>,
    pub source_node_ids: Vec<String>,
    pub source_event_ids: Vec<String>,
    pub supersede_node_ids: Vec<String>,
    pub metadata: Vec<(String, JsonValue)>,
    pub mirror_to_thoughts: bool,
}

/// Whether a record's metadata keys ascend strictly.
pub open spec fn metadata_in_key_order(record: OpenBrainDurableMemoryRecord) -> bool {
    keys_ascending(meta_keys(record.metadata@))
}

/// A durable memory of a project as the store lists it.
#[derive(Clone, Debug, PartialEq, Eq)]
pub struct OpenBrainProjectMemory {
    pub node_id: String,
    pub node_kind: String,
    pub title: String,
    pub content: String,
    pub memory_key: Option<String>,
    pub memory_type: Option<String>,
    pub quality_version: Option<u32>,
    pub project_key: Option<String>,
    pub scope_key: Option<String>,
    pub updated_at: Option<String>,
    pub source_thought_id: Option<String>,
    pub source_node_ids: Vec<String>,
    pub source_event_ids: Vec<String>,
    pub superseded_at: Option<String>,
}

/// A JSON number: non-negative and negative integers, and other numbers by
/// their JSON text.
#[derive(Clone, Debug, PartialEq)]
pub enum JsonNumber {
    PosInt(u64),
    NegInt(i64),
    Float(String),
}

/// A JSON value as the store returns it for graph records.
#[derive(Debug, PartialEq)]
pub enum JsonValue {
    Null,
    Bool(bool),
    Number(JsonNumber),
    String(String),
    Array(Vec<JsonValue>),
    Object(Vec<(String, JsonValue)>),
}

/// What a metadata entry of a durable record is expected to hold.
pub enum MetaValue {
    Text(Seq<char>),
    Count(nat),
    Number(NumberView),
}

/// The value of a [`JsonNumber`].
pub enum NumberView {
    PosInt(u64),
    NegInt(i64),
    Float(Seq<char>),
}

pub open spec fn number_view(n: JsonNumber) -> NumberView {
    match n {
        JsonNumber::PosInt(k) => NumberView::PosInt(k),
        JsonNumber::NegInt(k) => NumberView::NegInt(k),
        JsonNumber::Float(t) => NumberView::Float(t@),
    }
}

impl JsonNumber {
    /// A copy with the same value.
    pub fn duplicate(&self) -> (r: JsonNumber)
        ensures
            number_view(r) == number_view(*self),
    {
        match self {
            JsonNumber::PosInt(k) => JsonNumber::PosInt(*k),
            JsonNumber::NegInt(k) => JsonNumber::NegInt(*k),
            JsonNumber::Float(t) => JsonNumber::Float(t.clone()),
        }
    }
}

/// Whether `v` holds what `m` describes.
pub open spec fn value_is(v: JsonValue, m: MetaValue) -> bool {
    match m {
        MetaValue::Text(t) => v matches JsonValue::String(s) && s@ == t,
        MetaValue::Count(n) => v matches JsonValue::Number(JsonNumber::PosInt(k)) && k as nat == n,
        MetaValue::Number(x) => v matches JsonValue::Number(y) && number_view(y) == x,
    }
}

/// Whether `meta` holds exactly the `expected` entries, in that order.
pub open spec fn metadata_is(meta: Seq<(String, JsonValue)>, expected: Seq<(Seq<char>, MetaValue)>) -> bool {
    &&& meta.len() == expected.len()
    &&& forall|i: int| 0 <= i < meta.len() ==> {
        &&& (#[trigger] meta[i]).0@ == expected[i].0
        &&& value_is(meta[i].1, expected[i].1)
    }
}

/// Whether `a` sorts strictly before `b`, comparing characters by code
/// point, a proper prefix first (the order of `String` keys in a
/// `BTreeMap`).
pub open spec fn key_lt(a: Seq<char>, b: Seq<char>) -> bool {
    exists|i: int| #[trigger] key_split(a, b, i)
}

/// `a` and `b` agree before `i`, and at `i` either `a` ends while `b` goes
/// on, or `a` has the smaller character.
pub open spec fn key_split(a: Seq<char>, b: Seq<char>, i: int) -> bool {
    &&& 0 <= i <= a.len()
    &&& i <= b.len()
    &&& a.subrange(0, i) == b.subrange(0, i)
    &&& ((i == a.len() && i < b.len()) || (i < a.len() && i < b.len() && (a[i] as u32) < (
        b[i] as u32)))
}

/// Keys in strictly ascending order, so each key occurs once.
pub open spec fn keys_ascending(keys: Seq<Seq<char>>) -> bool {
    forall|i: int, j: int| 0 <= i < j < keys.len() ==> key_lt(#[trigger] keys[i], #[trigger] keys[j])
}

/// The keys of object entries, in order.
pub open spec fn meta_keys(meta: Seq<(String, JsonValue)>) -> Seq<Seq<char>> {
    meta.map_values(|e: (String, JsonValue)| e.0@)
}

/// The keys of expected entries, in order.
pub open spec fn expected_keys(expected: Seq<(Seq<char>, MetaValue)>) -> Seq<Seq<char>> {
    expected.map_values(|e: (Seq<char>, MetaValue)| e.0)
}

/// No key sorts before itself.
pub proof fn lemma_key_lt_irreflexive(a: Seq<char>)
    ensures
        !key_lt(a, a),
{
}

/// The key order is transitive.
pub proof fn lemma_key_lt_transitive(a: Seq<char>, b: Seq<char>, c: Seq<char>)
    requires
        key_lt(a, b),
        key_lt(b, c),
    ensures
        key_lt(a, c),
{
    let i = choose|i: int| #[trigger] key_split(a, b, i);
    let j = choose|j: int| #[trigger] key_split(b, c, j);
    if i < j {
        assert(b.subrange(0, i) == c.subrange(0, j).subrange(0, i));
        assert(c.subrange(0, i) == c.subrange(0, j).subrange(0, i));
        if i < a.len() {
            assert(b[i] == b.subrange(0, j)[i]);
            assert(c[i] == c.subrange(0, j)[i]);
        }
        assert(key_split(a, c, i));
    } else if i == j {
        assert(key_split(a, c, i));
    } else {
        assert(a.subrange(0, j) == a.subrange(0, i).subrange(0, j));
        assert(b.subrange(0, j) == b.subrange(0, i).subrange(0, j));
        assert(a[j] == a.subrange(0, i)[j]);
        assert(b[j] == b.subrange(0, i)[j]);
        assert(key_split(a, c, j));
    }
}

/// Keys each below the next are ascending throughout.
pub proof fn lemma_keys_ascending_from_neighbours(keys: Seq<Seq<char>>)
    requires
        forall|i: int| 0 <= i < keys.len() - 1 ==> key_lt(#[trigger] keys[i], keys[i + 1]),
    ensures
        keys_ascending(keys),
{
    assert forall|i: int, j: int| 0 <= i < j < keys.len() implies key_lt(#[trigger] keys[i], #[trigger] keys[j]) by {
        lemma_neighbour_chain(keys, i, j);
    }
}

proof fn lemma_neighbour_chain(keys: Seq<Seq<char>>, i: int, j: int)
    requires
        forall|k: int| 0 <= k < keys.len() - 1 ==> key_lt(#[trigger] keys[k], keys[k + 1]),
        0 <= i < j < keys.len(),
    ensures
        key_lt(keys[i], keys[j]),
    decreases j - i,
{
    if j > i + 1 {
        lemma_neighbour_chain(keys, i, j - 1);
        assert(key_lt(keys[j - 1], keys[j]));
        lemma_key_lt_transitive(keys[i], keys[j - 1], keys[j]);
    }
}

/// Entries that match the expected ones carry the expected keys.
pub proof fn lemma_meta_keys_match(meta: Seq<(String, JsonValue)>, expected: Seq<(Seq<char>, MetaValue)>)
    requires
        metadata_is(meta, expected),
    ensures
        meta_keys(meta) == expected_keys(expected),
{
    assert forall|i: int| 0 <= i < meta.len() implies meta_keys(meta)[i] == expected_keys(expected)[i] by {
        assert(meta[i].0@ == expected[i].0);
    }
    assert(meta_keys(meta) =~= expected_keys(expected));
}

/// A text entry.
pub fn text_entry(key: &str, value: String) -> (r: (String, JsonValue))
    ensures
        r.0@ == key@,
        value_is(r.1, MetaValue::Text(value@)),
{
    (owned(key), JsonValue::String(value))
}

/// A count entry.
pub fn count_entry(key: &str, value: u32) -> (r: (String, JsonValue))
    ensures
        r.0@ == key@,
        value_is(r.1, MetaValue::Count(value as nat)),
{
    (owned(key), JsonValue::Number(JsonNumber::PosInt(value as u64)))
}

/// A thread's graph as the store reports it.
#[derive(Debug, PartialEq)]
pub struct OpenBrainGraphView {
    pub thread_id: String,
    pub project_key: Option<String>,
    pub scope_key: Option<String>,
    pub nodes: Vec<JsonValue>,
    pub edges: Vec<JsonValue>,
    pub fresh_tail: Vec<JsonValue>,
    pub context_packets: Vec<JsonValue>,
    pub status: Option<OpenBrainGraphStatus>,
}

/// The value of the first field named `key` among `fields[i..]`.
pub open spec fn field_value(fields: Seq<(String, JsonValue)>, key: Seq<char>, i: int) -> Option<JsonValue>
    decreases fields.len() - i,
{
    if i < 0 || i >= fields.len() {
        None
    } else if fields[i].0@ == key {
        Some(fields[i].1)
    } else {
        field_value(fields, key, i + 1)
    }
}

/// `value[key]` for an object, nothing otherwise.
pub open spec fn json_get(value: JsonValue, key: Seq<char>) -> Option<JsonValue> {
    match value {
        JsonValue::Object(fields) => field_value(fields@, key, 0),
        _ => None,
    }
}

pub open spec fn json_str_at(value: JsonValue, key: Seq<char>) -> Option<Seq<char>> {
    match json_get(value, key) {
        Some(JsonValue::String(s)) => Some(s@),
        _ => None,
    }
}

pub open spec fn json_u64_at(value: JsonValue, key: Seq<char>) -> Option<u64> {
    match json_get(value, key) {
        Some(JsonValue::Number(JsonNumber::PosInt(u))) => Some(u),
        _ => None,
    }
}

/// The strings among the elements of `value[key]` when it is an array.
pub open spec fn json_array_at(value: JsonValue, key: Seq<char>) -> Option<Seq<Seq<char>>> {
    match json_get(value, key) {
        Some(JsonValue::Array(items)) => Some(string_elems(items@)),
        _ => None,
    }
}

pub open spec fn string_elems(items: Seq<JsonValue>) -> Seq<Seq<char>>
    decreases items.len(),
{
    if items.len() == 0 {
        Seq::empty()
    } else {
        string_elems(items.drop_last()) + match items.last() {
            JsonValue::String(s) => seq![s@],
            _ => Seq::empty(),
        }
    }
}

/// The string under the first of `keys` that holds one.
pub open spec fn first_json_str(value: JsonValue, keys: Seq<Seq<char>>) -> Option<Seq<char>>
    decreases keys.len(),
{
    if keys.len() == 0 {
        None
    } else {
        match json_str_at(value, keys[0]) {
            Some(s) => Some(s),
            None => first_json_str(value, keys.drop_first()),
        }
    }
}

/// The non-negative integer under the first of `keys` that holds one.
pub open spec fn first_json_u64(value: JsonValue, keys: Seq<Seq<char>>) -> Option<u64>
    decreases keys.len(),
{
    if keys.len() == 0 {
        None
    } else {
        match json_u64_at(value, keys[0]) {
            Some(u) => Some(u),
            None => first_json_u64(value, keys.drop_first()),
        }
    }
}

/// That integer when it fits in a `u32`.
pub open spec fn first_json_u32(value: JsonValue, keys: Seq<Seq<char>>) -> Option<u32> {
    match first_json_u64(value, keys) {
        Some(u) => if u <= u32::MAX {
            Some(u as u32)
        } else {
            None
        },
        None => None,
    }
}

/// The strings of the array under the first of `keys` that holds an array,
/// empty when none does.
pub open spec fn first_json_array(value: JsonValue, keys: Seq<Seq<char>>) -> Seq<Seq<char>>
    decreases keys.len(),
{
    if keys.len() == 0 {
        Seq::empty()
    } else {
        match json_array_at(value, keys[0]) {
            Some(a) => a,
            None => first_json_array(value, keys.drop_first()),
        }
    }
}

fn get_field<'a>(value: &'a JsonValue, key: &str) -> (r: Option<&'a JsonValue>)
    ensures
        match r {
            Some(v) => json_get(*value, key@) == Some(*v),
            None => json_get(*value, key@) is None,
        },
{
    match value {
        JsonValue::Object(fields) => {
            let kc = chars_of(key);
            let mut i: usize = 0;
            while i < fields.len()
                invariant
                    0 <= i <= fields.len(),
                    kc@ == key@,
                    json_get(*value, key@) == field_value(fields@, key@, 0),
                    field_value(fields@, key@, i as int) == field_value(fields@, key@, 0),
                decreases fields.len() - i,
            {
                let name = chars_of(fields[i].0.as_str());
                if chars_eq(name.as_slice(), kc.as_slice()) {
                    return Some(&fields[i].1);
                }
                i = i + 1;
            }
            None
        },
        _ => None,
    }
}

/// The string under the first of `keys` that holds one.
pub fn graph_json_str<'a>(value: &'a JsonValue, keys: &[&str]) -> (r: Option<&'a str>)
    ensures
        match r {
            Some(s) => first_json_str(*value, strs_view(keys@)) == Some(s@),
            None => first_json_str(*value, strs_view(keys@)) is None,
        },
{
    let ghost kv = strs_view(keys@);
    let mut i: usize = 0;
    assert(kv.skip(0) == kv);
    while i < keys.len()
        invariant
            0 <= i <= keys.len(),
            kv == strs_view(keys@),
            first_json_str(*value, kv) == first_json_str(*value, kv.skip(i as int)),
        decreases keys.len() - i,
    {
        let ghost rest = kv.skip(i as int);
        assert(rest[0] == keys@[i as int]@);
        assert(rest.drop_first() == kv.skip(i + 1));
        match get_field(value, keys[i]) {
            Some(JsonValue::String(s)) => {
                return Some(s.as_str());
            },
            _ => {},
        }
        i = i + 1;
    }
    None
}

/// The integer under the first of `keys` that holds a non-negative one,
/// when it fits in a `u32`.
pub fn graph_json_u32(value: &JsonValue, keys: &[&str]) -> (r: Option<u32>)
    ensures
        r == first_json_u32(*value, strs_view(keys@)),
{
    let ghost kv = strs_view(keys@);
    let mut i: usize = 0;
    assert(kv.skip(0) == kv);
    while i < keys.len()
        invariant
            0 <= i <= keys.len(),
            kv == strs_view(keys@),
            first_json_u64(*value, kv) == first_json_u64(*value, kv.skip(i as int)),
        decreases keys.len() - i,
    {
        let ghost rest = kv.skip(i as int);
        assert(rest[0] == keys@[i as int]@);
        assert(rest.drop_first() == kv.skip(i + 1));
        match get_field(value, keys[i]) {
            Some(JsonValue::Number(JsonNumber::PosInt(u))) => {
                let u = *u;
                if u <= 0xffff_ffffu64 {
                    return Some(u as u32);
                } else {
                    return None;
                }
            },
            _ => {},
        }
        i = i + 1;
    }
    None
}

/// The strings of the array under the first of `keys` that holds an array.
pub fn graph_json_string_array(value: &JsonValue, keys: &[&str]) -> (r: Vec<String>)
    ensures
        crate::text::strings_view(r@) == first_json_array(*value, strs_view(keys@)),
{
    let ghost kv = strs_view(keys@);
    let mut i: usize = 0;
    assert(kv.skip(0) == kv);
    while i < keys.len()
        invariant
            0 <= i <= keys.len(),
            kv == strs_view(keys@),
            first_json_array(*value, kv) == first_json_array(*value, kv.skip(i as int)),
        decreases keys.len() - i,
    {
        let ghost rest = kv.skip(i as int);
        assert(rest[0] == keys@[i as int]@);
        assert(rest.drop_first() == kv.skip(i + 1));
        match get_field(value, keys[i]) {
            Some(JsonValue::Array(items)) => {
                let mut out: Vec<String> = Vec::new();
                let mut j: usize = 0;
                while j < items.len()
                    invariant
                        0 <= j <= items.len(),
                        crate::text::strings_view(out@) == string_elems(items@.take(j as int)),
                    decreases items.len() - j,
                {
                    assert(items@.take(j + 1).drop_last() == items@.take(j as int));
                    let ghost before = out@;
                    match &items[j] {
                        JsonValue::String(s) => {
                            out.push(s.clone());
                            assert(crate::text::strings_view(out@) == crate::text::strings_view(before).push(s@));
                        },
                        _ => {},
                    }
                    j = j + 1;
                }
                assert(items@.take(items.len() as int) == items@);
                return out;
            },
            _ => {},
        }
        i = i + 1;
    }
    let out: Vec<String> = Vec::new();
    assert(crate::text::strings_view(out@) =~= Seq::<Seq<char>>::empty());
    out
}


/// The value of an [`OpenBrainDurableMemoryCandidate`].
pub struct CandidateView {
    pub summary_node_id: Seq<char>,
    pub title: Seq<char>,
    pub content: Seq<char>,
    pub source_event_ids: Seq<Seq<char>>,
    pub source_token_count: Option<u32>,
    pub summary_token_count: Option<u32>,
}

impl View for OpenBrainDurableMemoryCandidate {
    type V = CandidateView;

    open spec fn view(&self) -> CandidateView {
        CandidateView {
            summary_node_id: self.summary_node_id@,
            title: self.title@,
            content: self.content@,
            source_event_ids: crate::text::strings_view(self.source_event_ids@),
            source_token_count: self.source_token_count,
            summary_token_count: self.summary_token_count,
        }
    }
}

pub open spec fn candidate_view(c: Option<OpenBrainDurableMemoryCandidate>) -> Option<CandidateView> {
    match c {
        Some(c) => Some(c@),
        None => None,
    }
}

pub open spec fn relationship_keys() -> Seq<Seq<char>> {
    seq!["relationship_type"@, "relationshipType"@]
}

pub open spec fn target_keys() -> Seq<Seq<char>> {
    seq!["to_node_id"@, "toNodeId"@]
}

pub open spec fn kind_keys() -> Seq<Seq<char>> {
    seq!["node_kind"@, "nodeKind"@]
}

pub open spec fn id_keys() -> Seq<Seq<char>> {
    seq!["node_id"@, "id"@]
}

/// Whether `edge` records that node `target` was promoted to durable memory.
pub open spec fn promotes(edge: JsonValue, target: Seq<char>) -> bool {
    &&& first_json_str(edge, relationship_keys()) == Some("PROMOTES_TO"@)
    &&& first_json_str(edge, target_keys()) == Some(target)
}

pub open spec fn is_promoted(graph: OpenBrainGraphView, target: Seq<char>) -> bool {
    exists|i: int| 0 <= i < graph.edges@.len() && #[trigger] promotes(graph.edges@[i], target)
}

/// The trimmed query of the latest context packet, when not blank.
pub open spec fn packet_query(graph: OpenBrainGraphView) -> Option<Seq<char>> {
    match graph.status {
        Some(st) => match st.latest_packet_query {
            Some(q) => if trim(q@).len() > 0 {
                Some(trim(q@))
            } else {
                None
            },
            None => None,
        },
        None => None,
    }
}

/// The candidate a node yields: a leaf or condensed summary with an id, not
/// yet promoted, with non-blank content. Its title is the latest packet
/// query, else its own non-blank title, else `LCM durable memory`.
pub open spec fn node_candidate(graph: OpenBrainGraphView, node: JsonValue) -> Option<CandidateView> {
    match first_json_str(node, kind_keys()) {
        None => None,
        Some(kind) => if kind != "summary_d0"@ && kind != "summary_d1plus"@ {
            None
        } else {
            match first_json_str(node, id_keys()) {
                None => None,
                Some(id) => if is_promoted(graph, id) {
                    None
                } else {
                    match first_json_str(node, seq!["content"@]) {
                        None => None,
                        Some(c) => if trim(c).len() == 0 {
                            None
                        } else {
                            let title = match packet_query(graph) {
                                Some(q) => q,
                                None => match first_json_str(node, seq!["title"@]) {
                                    Some(t) => if trim(t).len() > 0 {
                                        trim(t)
                                    } else {
                                        "LCM durable memory"@
                                    },
                                    None => "LCM durable memory"@,
                                },
                            };
                            Some(
                                CandidateView {
                                    summary_node_id: id,
                                    title,
                                    content: trim(c),
                                    source_event_ids: first_json_array(node, seq!["source_event_ids"@]),
                                    source_token_count: first_json_u32(node, seq!["src_tok"@, "srcTok"@]),
                                    summary_token_count: first_json_u32(
                                        node,
                                        seq!["desc_tok"@, "descTok"@],
                                    ),
                                },
                            )
                        },
                    }
                },
            }
        },
    }
}

/// The candidate of the first node, from `nodes[i]` on, that yields one.
pub open spec fn first_candidate(graph: OpenBrainGraphView, i: int) -> Option<CandidateView>
    decreases graph.nodes@.len() - i,
{
    if i < 0 || i >= graph.nodes@.len() {
        None
    } else {
        match node_candidate(graph, graph.nodes@[i]) {
            Some(c) => Some(c),
            None => first_candidate(graph, i + 1),
        }
    }
}



/// The candidate that `node` yields, given the promoted node ids.
#[verifier::loop_isolation(false)]
fn candidate_of(
    graph: &OpenBrainGraphView,
    node: &JsonValue,
    promoted: &Vec<String>,
    query: &Option<String>,
) -> (r: Option<OpenBrainDurableMemoryCandidate>)
    requires
        forall|t: Seq<char>| crate::text::strings_view(promoted@).contains(t) <==> is_promoted(*graph, t),
        match query {
            Some(q) => packet_query(*graph) == Some(q@),
            None => packet_query(*graph) is None,
        },
    ensures
        candidate_view(r) == node_candidate(*graph, *node),
{
    let kind_keys_arr: [&str; 2] = ["node_kind", "nodeKind"];
    assert(strs_view(kind_keys_arr@) =~= kind_keys());
    let kind = match graph_json_str(node, &kind_keys_arr) {
        Some(k) => k,
        None => return None,
    };
    if !str_eq(kind, "summary_d0") && !str_eq(kind, "summary_d1plus") {
        return None;
    }
    let id_keys_arr: [&str; 2] = ["node_id", "id"];
    assert(strs_view(id_keys_arr@) =~= id_keys());
    let node_id = match graph_json_str(node, &id_keys_arr) {
        Some(id) => id,
        None => return None,
    };
    let idc = chars_of(node_id);
    let mut p: usize = 0;
    while p < promoted.len()
        invariant
            0 <= p <= promoted.len(),
            idc@ == node_id@,
            forall|t: Seq<char>| crate::text::strings_view(promoted@).contains(t) <==> is_promoted(*graph, t),
            forall|x: int| 0 <= x < p ==> promoted@[x]@ != node_id@,
        decreases promoted.len() - p,
    {
        let pc = chars_of(promoted[p].as_str());
        if chars_eq(pc.as_slice(), idc.as_slice()) {
            assert(crate::text::strings_view(promoted@)[p as int] == node_id@);
            assert(crate::text::strings_view(promoted@).contains(node_id@));
            return None;
        }
        p = p + 1;
    }
    assert(!crate::text::strings_view(promoted@).contains(node_id@)) by {
        if crate::text::strings_view(promoted@).contains(node_id@) {
            let x = choose|x: int| 0 <= x < promoted@.len() && crate::text::strings_view(promoted@)[x] == node_id@;
            assert(promoted@[x]@ == node_id@);
        }
    }
    let content_keys: [&str; 1] = ["content"];
    assert(strs_view(content_keys@) =~= seq!["content"@]);
    let content_raw = match graph_json_str(node, &content_keys) {
        Some(c) => c,
        None => return None,
    };
    let cc = chars_of(content_raw);
    let content = trimmed(cc.as_slice());
    if content.len() == 0 {
        return None;
    }
    let title: String = match query {
        Some(q) => q.clone(),
        None => {
            let title_keys: [&str; 1] = ["title"];
            assert(strs_view(title_keys@) =~= seq!["title"@]);
            match graph_json_str(node, &title_keys) {
                Some(t) => {
                    let tc = chars_of(t);
                    let tt = trimmed(tc.as_slice());
                    if tt.len() > 0 {
                        string_from_chars(tt.as_slice())
                    } else {
                        owned("LCM durable memory")
                    }
                },
                None => owned("LCM durable memory"),
            }
        },
    };
    let events_keys: [&str; 1] = ["source_event_ids"];
    assert(strs_view(events_keys@) =~= seq!["source_event_ids"@]);
    let src_keys: [&str; 2] = ["src_tok", "srcTok"];
    assert(strs_view(src_keys@) =~= seq!["src_tok"@, "srcTok"@]);
    let desc_keys: [&str; 2] = ["desc_tok", "descTok"];
    assert(strs_view(desc_keys@) =~= seq!["desc_tok"@, "descTok"@]);
    let r = OpenBrainDurableMemoryCandidate {
        summary_node_id: owned(node_id),
        title,
        content: string_from_chars(content.as_slice()),
        source_event_ids: graph_json_string_array(node, &events_keys),
        source_token_count: graph_json_u32(node, &src_keys),
        summary_token_count: graph_json_u32(node, &desc_keys),
    };
    Some(r)
}

/// The most recent summary not yet promoted to durable memory: the first
/// node (the store lists the newest first) that yields a candidate.
pub fn latest_unpromoted_summary_candidate_from_graph(graph: &OpenBrainGraphView) -> (r: Option<
    OpenBrainDurableMemoryCandidate,
>)
    ensures
        candidate_view(r) == first_candidate(*graph, 0),
{
    let rel_keys_arr: [&str; 2] = ["relationship_type", "relationshipType"];
    assert(strs_view(rel_keys_arr@) =~= relationship_keys());
    let to_keys_arr: [&str; 2] = ["to_node_id", "toNodeId"];
    assert(strs_view(to_keys_arr@) =~= target_keys());
    let mut promoted: Vec<String> = Vec::new();
    let mut e: usize = 0;
    while e < graph.edges.len()
        invariant
            0 <= e <= graph.edges.len(),
            strs_view(rel_keys_arr@) == relationship_keys(),
            strs_view(to_keys_arr@) == target_keys(),
            forall|t: Seq<char>| crate::text::strings_view(promoted@).contains(t) <==> exists|x: int|
                0 <= x < e && #[trigger] promotes(graph.edges@[x], t),
        decreases graph.edges.len() - e,
    {
        let edge = &graph.edges[e];
        let ghost sv0 = crate::text::strings_view(promoted@);
        let rel = graph_json_str(edge, &rel_keys_arr);
        let is_promotion = match rel {
            Some(r) => str_eq(r, "PROMOTES_TO"),
            None => false,
        };
        let mut added = false;
        if is_promotion {
            if let Some(target) = graph_json_str(edge, &to_keys_arr) {
                let ghost before = promoted@;
                promoted.push(owned(target));
                assert(crate::text::strings_view(promoted@) == sv0.push(target@));
                added = true;
                assert(promotes(graph.edges@[e as int], target@));
            }
        }
        let ghost sv = crate::text::strings_view(promoted@);
        proof {
            if !added {
                assert(sv == sv0);
                assert forall|t: Seq<char>| !#[trigger] promotes(graph.edges@[e as int], t) by {}
            }
        }
        assert forall|t: Seq<char>| sv.contains(t) <==> exists|x: int|
            0 <= x < e + 1 && #[trigger] promotes(graph.edges@[x], t) by {
            if sv.contains(t) {
                let y = choose|y: int| 0 <= y < sv.len() && sv[y] == t;
                if y < sv0.len() {
                    assert(sv0[y] == t);
                    assert(sv0.contains(t));
                    let x = choose|x: int| 0 <= x < e && #[trigger] promotes(graph.edges@[x], t);
                    assert(promotes(graph.edges@[x], t));
                } else {
                    assert(promotes(graph.edges@[e as int], t));
                }
            }
            if exists|x: int| 0 <= x < e + 1 && #[trigger] promotes(graph.edges@[x], t) {
                let x = choose|x: int| 0 <= x < e + 1 && #[trigger] promotes(graph.edges@[x], t);
                if x < e {
                    assert(sv0.contains(t));
                    let y = choose|y: int| 0 <= y < sv0.len() && sv0[y] == t;
                    assert(sv[y] == t);
                } else {
                    assert(added);
                    assert(sv[sv0.len() as int] == t);
                }
            }
        }
        e = e + 1;
    }
    let query: Option<String> = match &graph.status {
        Some(st) => match &st.latest_packet_query {
            Some(q) => {
                let qc = chars_of(q.as_str());
                let qt = trimmed(qc.as_slice());
                if qt.len() > 0 {
                    Some(string_from_chars(qt.as_slice()))
                } else {
                    None
                }
            },
            None => None,
        },
        None => None,
    };
    let mut i: usize = 0;
    while i < graph.nodes.len()
        invariant
            0 <= i <= graph.nodes.len(),
            forall|t: Seq<char>| crate::text::strings_view(promoted@).contains(t) <==> is_promoted(*graph, t),
            match query {
                Some(q) => packet_query(*graph) == Some(q@),
                None => packet_query(*graph) is None,
            },
            first_candidate(*graph, i as int) == first_candidate(*graph, 0),
        decreases graph.nodes.len() - i,
    {
        let c = candidate_of(graph, &graph.nodes[i], &promoted, &query);
        if c.is_some() {
            return c;
        }
        i = i + 1;
    }
    None
}


/// The id an item is stored under: its own id or call id where it has one,
/// otherwise a name made of its kind and its position `index`.
pub open spec fn spec_response_item_id(item: ItemView, index: nat) -> Seq<char> {
    match item {
        ItemView::Message { id, .. } => match id {
            Some(id) => id,
            None => "message-"@ + decimal(index),
        },
        ItemView::Reasoning { id, .. } => id,
        ItemView::LocalShellCall { call_id, .. } => match call_id {
            Some(c) => c,
            None => "local-shell-"@ + decimal(index),
        },
        ItemView::FunctionCall { call_id, .. } => call_id,
        ItemView::FunctionCallOutput { call_id, .. } => "function-output-"@ + call_id,
        ItemView::CustomToolCall { call_id, .. } => call_id,
        ItemView::CustomToolCallOutput { call_id, .. } => "custom-tool-output-"@ + call_id,
        ItemView::ToolSearchCall { call_id, .. } => match call_id {
            Some(c) => c,
            None => "tool-search-"@ + decimal(index),
        },
        ItemView::ToolSearchOutput { call_id, .. } => match call_id {
            Some(c) => "tool-search-output-"@ + c,
            None => "tool-search-output-"@ + decimal(index),
        },
        ItemView::WebSearchCall { id, .. } => match id {
            Some(id) => id,
            None => "web-search-"@ + decimal(index),
        },
        ItemView::ImageGenerationCall { id } => id,
        ItemView::GhostSnapshot => "ghost-snapshot-"@ + decimal(index),
        ItemView::Compaction { .. } => "compaction-"@ + decimal(index),
        ItemView::Other => "other-"@ + decimal(index),
    }
}

fn numbered(prefix: &str, index: usize) -> (r: String)
    ensures
        r@ == prefix@ + decimal(index as nat),
{
    let mut out = chars_of(prefix);
    push_decimal(&mut out, index as u64);
    string_from_chars(out.as_slice())
}

fn prefixed(prefix: &str, s: &String) -> (r: String)
    ensures
        r@ == prefix@ + s@,
{
    let mut out = chars_of(prefix);
    append_str(&mut out, s.as_str());
    string_from_chars(out.as_slice())
}

/// The id `item`, at position `index`, is stored under.
pub fn response_item_id(item: &ResponseItem, index: usize) -> (r: String)
    ensures
        r@ == spec_response_item_id(item@, index as nat),
{
    match item {
        ResponseItem::Message { id, .. } => match id {
            Some(id) => id.clone(),
            None => numbered("message-", index),
        },
        ResponseItem::Reasoning { id, .. } => id.clone(),
        ResponseItem::LocalShellCall { call_id, .. } => match call_id {
            Some(c) => c.clone(),
            None => numbered("local-shell-", index),
        },
        ResponseItem::FunctionCall { call_id, .. } => call_id.clone(),
        ResponseItem::FunctionCallOutput { call_id, .. } => prefixed("function-output-", call_id),
        ResponseItem::CustomToolCall { call_id, .. } => call_id.clone(),
        ResponseItem::CustomToolCallOutput { call_id, .. } => prefixed("custom-tool-output-", call_id),
        ResponseItem::ToolSearchCall { call_id, .. } => match call_id {
            Some(c) => c.clone(),
            None => numbered("tool-search-", index),
        },
        ResponseItem::ToolSearchOutput { call_id, .. } => match call_id {
            Some(c) => prefixed("tool-search-output-", c),
            None => numbered("tool-search-output-", index),
        },
        ResponseItem::WebSearchCall { id, .. } => match id {
            Some(id) => id.clone(),
            None => numbered("web-search-", index),
        },
        ResponseItem::ImageGenerationCall { id } => id.clone(),
        ResponseItem::GhostSnapshot => numbered("ghost-snapshot-", index),
        ResponseItem::Compaction { .. } => numbered("compaction-", index),
        ResponseItem::Other => numbered("other-", index),
    }
}

/// The ids the items of a history are stored under, by position.
pub fn source_event_refs_for_items(items: &[ResponseItem]) -> (r: Vec<String>)
    ensures
        r@.len() == items@.len(),
        forall|i: int| 0 <= i < items@.len() ==> #[trigger] r@[i]@ == spec_response_item_id(items@[i]@, i as nat),
{
    let mut r: Vec<String> = Vec::new();
    for i in 0..items.len()
        invariant
            r@.len() == i,
            forall|j: int| 0 <= j < i ==> #[trigger] r@[j]@ == spec_response_item_id(items@[j]@, j as nat),
    {
        r.push(response_item_id(&items[i], i));
    }
    r
}

/// `(item_kind, role, tool_call_id, linked_tool_call_id)` of an item.
pub open spec fn spec_response_item_shape(item: ItemView) -> (Seq<char>, Seq<char>, Option<Seq<char>>, Option<Seq<char>>) {
    match item {
        ItemView::Message { role, .. } => ("message"@, role, None, None),
        ItemView::Reasoning { .. } => ("reasoning"@, "assistant"@, None, None),
        ItemView::LocalShellCall { call_id, .. } => ("local_shell_call"@, "tool"@, call_id, None),
        ItemView::FunctionCall { call_id, .. } => ("function_call"@, "assistant"@, Some(call_id), None),
        ItemView::FunctionCallOutput { call_id, .. } => ("function_call_output"@, "tool"@, None, Some(call_id)),
        ItemView::CustomToolCall { call_id, .. } => ("custom_tool_call"@, "assistant"@, Some(call_id), None),
        ItemView::CustomToolCallOutput { call_id, .. } => ("custom_tool_call_output"@, "tool"@, None, Some(call_id)),
        ItemView::ToolSearchCall { call_id, .. } => ("tool_search_call"@, "assistant"@, call_id, None),
        ItemView::ToolSearchOutput { call_id, .. } => ("tool_search_output"@, "tool"@, None, call_id),
        ItemView::WebSearchCall { .. } => ("web_search_call"@, "assistant"@, None, None),
        ItemView::ImageGenerationCall { .. } => ("image_generation_call"@, "assistant"@, None, None),
        ItemView::GhostSnapshot => ("ghost_snapshot"@, "system"@, None, None),
        ItemView::Compaction { .. } => ("compaction"@, "system"@, None, None),
        ItemView::Other => ("other"@, "unknown"@, None, None),
    }
}


fn copy_opt_string(o: &Option<String>) -> (r: Option<String>)
    ensures
        opt_text(r) == opt_text(*o),
{
    match o {
        Some(s) => Some(s.clone()),
        None => None,
    }
}

/// The kind, the role, and the call ids of an item as the store records
/// them.
pub fn response_item_shape(item: &ResponseItem) -> (r: (String, String, Option<String>, Option<String>))
    ensures
        (r.0@, r.1@, opt_text(r.2), opt_text(r.3)) == spec_response_item_shape(item@),
{
    match item {
        ResponseItem::Message { role, .. } => (owned("message"), role.clone(), None, None),
        ResponseItem::Reasoning { .. } => (owned("reasoning"), owned("assistant"), None, None),
        ResponseItem::LocalShellCall { call_id, .. } => (owned("local_shell_call"), owned("tool"), copy_opt_string(call_id), None),
        ResponseItem::FunctionCall { call_id, .. } => (owned("function_call"), owned("assistant"), Some(call_id.clone()), None),
        ResponseItem::FunctionCallOutput { call_id, .. } => (owned("function_call_output"), owned("tool"), None, Some(call_id.clone())),
        ResponseItem::CustomToolCall { call_id, .. } => (owned("custom_tool_call"), owned("assistant"), Some(call_id.clone()), None),
        ResponseItem::CustomToolCallOutput { call_id, .. } => (owned("custom_tool_call_output"), owned("tool"), None, Some(call_id.clone())),
        ResponseItem::ToolSearchCall { call_id, .. } => (owned("tool_search_call"), owned("assistant"), copy_opt_string(call_id), None),
        ResponseItem::ToolSearchOutput { call_id, .. } => (owned("tool_search_output"), owned("tool"), None, copy_opt_string(call_id)),
        ResponseItem::WebSearchCall { .. } => (owned("web_search_call"), owned("assistant"), None, None),
        ResponseItem::ImageGenerationCall { .. } => (owned("image_generation_call"), owned("assistant"), None, None),
        ResponseItem::GhostSnapshot => (owned("ghost_snapshot"), owned("system"), None, None),
        ResponseItem::Compaction { .. } => (owned("compaction"), owned("system"), None, None),
        ResponseItem::Other => (owned("other"), owned("unknown"), None, None),
    }
}

/// The text the store keeps for an item.
pub open spec fn spec_response_item_text(item: ItemView) -> Option<Seq<char>> {
    match item {
        ItemView::Message { content, .. } => spec_content_text(content),
        ItemView::Reasoning { summary, .. } => {
            let joined = join(summary, seq!['\n']);
            if trim(joined).len() > 0 {
                Some(joined)
            } else {
                None
            }
        },
        ItemView::LocalShellCall { status, action, .. } => Some(
            "local shell "@ + status + ": "@ + action,
        ),
        ItemView::FunctionCall { name, arguments, .. } => Some(
            "function call "@ + name + "("@ + arguments + ")"@,
        ),
        ItemView::FunctionCallOutput { output, .. } => Some(output),
        ItemView::CustomToolCall { call_id, name, input } => Some(
            "custom tool "@ + call_id + " "@ + name + ": "@ + input,
        ),
        ItemView::CustomToolCallOutput { output, .. } => Some(output),
        ItemView::ToolSearchCall { execution, arguments, .. } => Some(
            "tool search "@ + execution + ": "@ + arguments,
        ),
        ItemView::ToolSearchOutput { status, execution, .. } => Some(status + ": "@ + execution),
        ItemView::WebSearchCall { action, .. } => Some("web search: "@ + action),
        ItemView::ImageGenerationCall { .. } => Some("image generation"@),
        ItemView::GhostSnapshot => Some("ghost snapshot"@),
        ItemView::Compaction { encrypted_content } => Some(encrypted_content),
        ItemView::Other => None,
    }
}


/// The text the store keeps for an item.
pub fn response_item_text(item: &ResponseItem) -> (r: Option<String>)
    ensures
        opt_text(r) == spec_response_item_text(item@),
{
    match item {
        ResponseItem::Message { content, .. } => content_items_to_text(content.as_slice()),
        ResponseItem::Reasoning { summary, .. } => {
            let sep: Vec<char> = vec!['\n'];
            assert(sep@ =~= seq!['\n']);
            let joined = join_strings(summary.as_slice(), sep.as_slice());
            let (a, b) = trim_bounds(joined.as_slice());
            if a < b {
                Some(string_from_chars(joined.as_slice()))
            } else {
                None
            }
        },
        ResponseItem::LocalShellCall { status, action, .. } => {
            let mut out = chars_of("local shell ");
            append_str(&mut out, status.as_str());
            append_str(&mut out, ": ");
            append_str(&mut out, action.as_str());
            Some(string_from_chars(out.as_slice()))
        },
        ResponseItem::FunctionCall { name, arguments, .. } => {
            let mut out = chars_of("function call ");
            append_str(&mut out, name.as_str());
            append_str(&mut out, "(");
            append_str(&mut out, arguments.as_str());
            append_str(&mut out, ")");
            Some(string_from_chars(out.as_slice()))
        },
        ResponseItem::FunctionCallOutput { output, .. } => Some(output.clone()),
        ResponseItem::CustomToolCall { call_id, name, input } => {
            let mut out = chars_of("custom tool ");
            append_str(&mut out, call_id.as_str());
            append_str(&mut out, " ");
            append_str(&mut out, name.as_str());
            append_str(&mut out, ": ");
            append_str(&mut out, input.as_str());
            Some(string_from_chars(out.as_slice()))
        },
        ResponseItem::CustomToolCallOutput { output, .. } => Some(output.clone()),
        ResponseItem::ToolSearchCall { execution, arguments, .. } => {
            let mut out = chars_of("tool search ");
            append_str(&mut out, execution.as_str());
            append_str(&mut out, ": ");
            append_str(&mut out, arguments.as_str());
            Some(string_from_chars(out.as_slice()))
        },
        ResponseItem::ToolSearchOutput { status, execution, .. } => {
            let mut out = chars_of(status.as_str());
            append_str(&mut out, ": ");
            append_str(&mut out, execution.as_str());
            Some(string_from_chars(out.as_slice()))
        },
        ResponseItem::WebSearchCall { action, .. } => {
            let mut out = chars_of("web search: ");
            append_str(&mut out, action.as_str());
            Some(string_from_chars(out.as_slice()))
        },
        ResponseItem::ImageGenerationCall { .. } => Some(owned("image generation")),
        ResponseItem::GhostSnapshot => Some(owned("ghost snapshot")),
        ResponseItem::Compaction { encrypted_content } => Some(encrypted_content.clone()),
        ResponseItem::Other => None,
    }
}

/// One rollout item as it is synced to the store.
#[derive(Debug, PartialEq)]
pub struct OpenBrainSyncRecord {
    pub role: String,
    pub item_id: String,
    pub turn_id: Option<String>,
    pub tool_call_id: Option<String>,
    pub linked_tool_call_id: Option<String>,
    pub timestamp_ms: u64,
    pub payload: Vec<(String, JsonValue)>,
    pub item_kind: Option<String>,
    pub content: Option<String>,
    pub item_index: Option<usize>,
}

/// The entries of `entries` whose key is not `key`, in order.
pub open spec fn without_key(entries: Seq<(String, JsonValue)>, key: Seq<char>) -> Seq<(String, JsonValue)>
    decreases entries.len(),
{
    if entries.len() == 0 {
        Seq::empty()
    } else {
        without_key(entries.drop_last(), key) + if entries.last().0@ == key {
            Seq::empty()
        } else {
            seq![entries.last()]
        }
    }
}

/// The payload of a synced item: its serialised fields, with its text, when
/// it has one, under `text` in place of any earlier `text` entry.
pub open spec fn is_sync_payload(
    fields: Seq<(String, JsonValue)>,
    text: Option<Seq<char>>,
    r: Seq<(String, JsonValue)>,
) -> bool {
    match text {
        None => r == fields,
        Some(t) => {
            &&& r.len() > 0
            &&& r.drop_last() == without_key(fields, "text"@)
            &&& r.last().0@ == "text"@
            &&& value_is(r.last().1, MetaValue::Text(t))
        },
    }
}

fn sync_payload(fields: Vec<(String, JsonValue)>, text: &Option<String>) -> (r: Vec<(String, JsonValue)>)
    ensures
        is_sync_payload(fields@, opt_text(*text), r@),
{
    match text {
        None => fields,
        Some(t) => {
            let ghost all = fields@;
            let mut rest = fields;
            let mut out: Vec<(String, JsonValue)> = Vec::new();
            let n: usize = rest.len();
            let mut i: usize = 0;
            while rest.len() > 0
                invariant
                    n == all.len(),
                    i + rest@.len() == all.len(),
                    rest@ == all.skip(i as int),
                    out@ == without_key(all.take(i as int), "text"@),
                decreases rest.len(),
            {
                let ghost r0 = rest@;
                let e = rest.remove(0);
                assert(all.take(i + 1).drop_last() == all.take(i as int));
                assert(all.take(i + 1).last() == e);
                assert(rest@ =~= all.skip(i + 1));
                if !str_eq(e.0.as_str(), "text") {
                    let ghost before = out@;
                    out.push(e);
                    assert(out@ =~= before + seq![e]);
                } else {
                    assert(out@ =~= out@ + Seq::<(String, JsonValue)>::empty());
                }
                i = i + 1;
            }
            assert(all.take(i as int) == all);
            let ghost kept = out@;
            out.push(text_entry("text", t.clone()));
            assert(out@.drop_last() == kept);
            out
        },
    }
}

/// Whether `r` is the synced form of `item`, the `index`-th item of a turn.
pub open spec fn is_sync_record(
    turn_id: Seq<char>,
    item: ItemView,
    index: nat,
    fields: Seq<(String, JsonValue)>,
    timestamp_ms: u64,
    r: OpenBrainSyncRecord,
) -> bool {
    let shape = spec_response_item_shape(item);
    &&& r.role@ == shape.1
    &&& r.item_id@ == spec_response_item_id(item, index)
    &&& opt_text(r.turn_id) == Some(turn_id)
    &&& opt_text(r.tool_call_id) == shape.2
    &&& opt_text(r.linked_tool_call_id) == shape.3
    &&& r.timestamp_ms == timestamp_ms
    &&& is_sync_payload(fields, spec_response_item_text(item), r.payload@)
    &&& opt_text(r.item_kind) == Some(shape.0)
    &&& opt_text(r.content) == spec_response_item_text(item)
    &&& r.item_index == Some(index as usize)
}

/// The records a turn's items are synced as, each with the serialised
/// fields given for it and the time of the sync.
pub fn to_sync_records(
    turn_id: &str,
    items: &[ResponseItem],
    payloads: Vec<Vec<(String, JsonValue)>>,
    timestamp_ms: u64,
) -> (r: Vec<OpenBrainSyncRecord>)
    requires
        payloads@.len() == items@.len(),
    ensures
        r@.len() == items@.len(),
        forall|i: int| 0 <= i < items@.len() ==> is_sync_record(
            turn_id@,
            items@[i]@,
            i as nat,
            payloads@[i]@,
            timestamp_ms,
            #[trigger] r@[i],
        ),
{
    let ghost all = payloads@;
    let mut rest = payloads;
    let mut r: Vec<OpenBrainSyncRecord> = Vec::new();
    let mut i: usize = 0;
    while i < items.len()
        invariant
            all.len() == items@.len(),
            0 <= i <= items@.len(),
            rest@ == all.skip(i as int),
            r@.len() == i,
            forall|j: int| 0 <= j < i ==> is_sync_record(
                turn_id@,
                items@[j]@,
                j as nat,
                all[j]@,
                timestamp_ms,
                #[trigger] r@[j],
            ),
        decreases items.len() - i,
    {
        let fields = rest.remove(0);
        assert(fields == all[i as int]);
        assert(rest@ =~= all.skip(i + 1));
        let item = &items[i];
        let (kind, role, tool_call_id, linked_tool_call_id) = response_item_shape(item);
        let content = response_item_text(item);
        let payload = sync_payload(fields, &content);
        r.push(OpenBrainSyncRecord {
            role,
            item_id: response_item_id(item, i),
            turn_id: Some(owned(turn_id)),
            tool_call_id,
            linked_tool_call_id,
            timestamp_ms,
            payload,
            item_kind: Some(kind),
            content,
            item_index: Some(i),
        });
        i = i + 1;
    }
    r
}

/// Why an Open Brain runtime could not be set up.
#[derive(Debug, PartialEq, Eq)]
pub enum OpenBrainRuntimeError {
    Disabled,
    MissingEnvVar(String),
    Client(String),
}

/// The environment variables that hold the store's URL and key: the
/// configured names or `SUPABASE_URL` and `SUPABASE_SERVICE_ROLE_KEY`;
/// `Disabled` when the store is switched off.
pub fn store_env_var_names(config: &OpenBrainConfig) -> (r: Result<(String, String), OpenBrainRuntimeError>)
    ensures
        !config.enabled <==> r is Err,
        r is Err ==> r == Err::<(String, String), OpenBrainRuntimeError>(OpenBrainRuntimeError::Disabled),
        r matches Ok((url, key)) ==> {
            &&& url@ == match config.supabase_url_env {
                Some(n) => n@,
                None => "SUPABASE_URL"@,
            }
            &&& key@ == match config.service_role_key_env {
                Some(n) => n@,
                None => "SUPABASE_SERVICE_ROLE_KEY"@,
            }
        },
{
    if !config.enabled {
        return Err(OpenBrainRuntimeError::Disabled);
    }
    let url = match &config.supabase_url_env {
        Some(n) => n.clone(),
        None => owned("SUPABASE_URL"),
    };
    let key = match &config.service_role_key_env {
        Some(n) => n.clone(),
        None => owned("SUPABASE_SERVICE_ROLE_KEY"),
    };
    Ok((url, key))
}

/// The project key of a session: its working directory, or under
/// `GitRootFirst` the enclosing git root when there is one.
pub open spec fn spec_project_key(
    cwd: Seq<char>,
    strategy: OpenBrainProjectScopeStrategy,
    git_root: Option<Seq<char>>,
) -> Seq<char> {
    match strategy {
        OpenBrainProjectScopeStrategy::WorkspaceRoot => cwd,
        OpenBrainProjectScopeStrategy::GitRootFirst => match git_root {
            Some(g) => g,
            None => cwd,
        },
    }
}

/// The project key of a session run in `cwd`, given the git root found
/// above it, if any.
pub fn derive_project_key(cwd: &str, strategy: OpenBrainProjectScopeStrategy, git_root: Option<&str>) -> (r:
    String)
    ensures
        r@ == spec_project_key(
            cwd@,
            strategy,
            match git_root {
                Some(g) => Some(g@),
                None => None,
            },
        ),
{
    match strategy {
        OpenBrainProjectScopeStrategy::WorkspaceRoot => owned(cwd),
        OpenBrainProjectScopeStrategy::GitRootFirst => match git_root {
            Some(g) => owned(g),
            None => owned(cwd),
        },
    }
}

/// The first directory, nearest first, that holds a `.git` entry.
pub open spec fn first_marked(ancestors: Seq<(String, bool)>) -> Option<Seq<char>>
    decreases ancestors.len(),
{
    if ancestors.len() == 0 {
        None
    } else if ancestors[0].1 {
        Some(ancestors[0].0@)
    } else {
        first_marked(ancestors.drop_first())
    }
}

/// The git root above a directory, given its ancestors (itself first, then
/// each parent) each with whether it holds a `.git` entry.
pub fn discover_git_root(ancestors: &[(String, bool)]) -> (r: Option<String>)
    ensures
        opt_text(r) == first_marked(ancestors@),
{
    let mut i: usize = 0;
    assert(ancestors@.skip(0) == ancestors@);
    while i < ancestors.len()
        invariant
            0 <= i <= ancestors@.len(),
            first_marked(ancestors@.skip(i as int)) == first_marked(ancestors@),
        decreases ancestors.len() - i,
    {
        assert(ancestors@.skip(i as int)[0] == ancestors@[i as int]);
        assert(ancestors@.skip(i as int).drop_first() == ancestors@.skip(i + 1));
        if ancestors[i].1 {
            return Some(ancestors[i].0.clone());
        }
        i = i + 1;
    }
    None
}

/// The smallest context budget a packet is assembled for.
pub const MIN_CONTEXT_TOKEN_BUDGET: usize = 256;

/// A context budget held within the configured cap and the floor.
pub fn clamp_context_token_budget(contextual_budget: usize, max_expand_tokens: usize) -> (r: usize)
    ensures
        r == if contextual_budget < max_expand_tokens {
            if contextual_budget > MIN_CONTEXT_TOKEN_BUDGET { contextual_budget } else { MIN_CONTEXT_TOKEN_BUDGET }
        } else {
            if max_expand_tokens > MIN_CONTEXT_TOKEN_BUDGET { max_expand_tokens } else { MIN_CONTEXT_TOKEN_BUDGET }
        },
{
    let capped = if contextual_budget < max_expand_tokens {
        contextual_budget
    } else {
        max_expand_tokens
    };
    if capped > MIN_CONTEXT_TOKEN_BUDGET {
        capped
    } else {
        MIN_CONTEXT_TOKEN_BUDGET
    }
}

proof fn lemma_first_candidate_unpromoted(graph: OpenBrainGraphView, i: int)
    ensures
        first_candidate(graph, i) matches Some(c) ==> !is_promoted(graph, c.summary_node_id)
            && c.content.len() > 0,
    decreases graph.nodes@.len() - i,
{
    if 0 <= i < graph.nodes@.len() {
        lemma_first_candidate_unpromoted(graph, i + 1);
    }
}

/// The summary chosen for promotion is never one already promoted, and its
/// content is not empty.
pub proof fn law_candidate_is_unpromoted(graph: OpenBrainGraphView)
    ensures
        first_candidate(graph, 0) matches Some(c) ==> !is_promoted(graph, c.summary_node_id)
            && c.content.len() > 0,
{
    lemma_first_candidate_unpromoted(graph, 0);
}

/// `value`, raised to `floor` when it is below it.
pub fn at_least(value: usize, floor: usize) -> (r: usize)
    ensures
        r == if value < floor { floor } else { value },
{
    if value < floor {
        floor
    } else {
        value
    }
}

/// Leaf and condensed summaries alike are offered for promotion: a node of
/// kind `summary_d0` or `summary_d1plus` with an id that is not promoted
/// and with non-blank content yields the candidate of that id and its
/// trimmed content; a node of any other kind yields none.
pub proof fn law_summary_nodes_are_candidates(graph: OpenBrainGraphView, node: JsonValue)
    ensures
        ({
            let kind = first_json_str(node, kind_keys());
            let id = first_json_str(node, id_keys());
            let content = first_json_str(node, seq!["content"@]);
            (kind == Some("summary_d0"@) || kind == Some("summary_d1plus"@)) && id is Some
                && !is_promoted(graph, id.unwrap()) && content is Some && trim(content.unwrap()).len()
                > 0 ==> (node_candidate(graph, node) matches Some(c) && c.summary_node_id == id.unwrap()
                && c.content == trim(content.unwrap()))
        }),
        !(first_json_str(node, kind_keys()) == Some("summary_d0"@) || first_json_str(
            node,
            kind_keys(),
        ) == Some("summary_d1plus"@)) ==> node_candidate(graph, node) is None,
{
}

/// A synced item carries the id of the pair it opens as its tool call id,
/// and the id of the pair it answers as its linked tool call id; so the
/// record of a call and the record of the output answering it name the
/// same id.
pub proof fn law_sync_shape_links_calls_and_outputs(call: ItemView, output: ItemView)
    ensures
        crate::integrity::spec_call_key(call) is Some ==> spec_response_item_shape(call).2 == Some(
            crate::integrity::spec_call_key(call).unwrap().1,
        ) && spec_response_item_shape(call).3 is None,
        crate::integrity::spec_output_key(output) is Some ==> spec_response_item_shape(output).3
            == Some(crate::integrity::spec_output_key(output).unwrap().1) && spec_response_item_shape(
            output,
        ).2 is None,
        (crate::integrity::spec_call_key(call) is Some && crate::integrity::spec_output_key(output)
            == crate::integrity::spec_call_key(call)) ==> spec_response_item_shape(call).2
            == spec_response_item_shape(output).3,
{
}

/// The synced records of a call and of the output answering it carry the
/// same id: the call's as its tool call id, the output's as its linked tool
/// call id.
pub proof fn law_synced_call_and_output_are_linked(
    turn_id: Seq<char>,
    call: ItemView,
    output: ItemView,
    i: nat,
    j: nat,
    fields_i: Seq<(String, JsonValue)>,
    fields_j: Seq<(String, JsonValue)>,
    timestamp_ms: u64,
    call_record: OpenBrainSyncRecord,
    output_record: OpenBrainSyncRecord,
)
    requires
        is_sync_record(turn_id, call, i, fields_i, timestamp_ms, call_record),
        is_sync_record(turn_id, output, j, fields_j, timestamp_ms, output_record),
        crate::integrity::spec_call_key(call) is Some,
        crate::integrity::spec_output_key(output) == crate::integrity::spec_call_key(call),
    ensures
        opt_text(call_record.tool_call_id) == Some(crate::integrity::spec_call_key(call).unwrap().1),
        opt_text(output_record.linked_tool_call_id) == opt_text(call_record.tool_call_id),
{
    law_sync_shape_links_calls_and_outputs(call, output);
}

} // verus!
