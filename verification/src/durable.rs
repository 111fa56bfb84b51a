//! Durable project memory: which model-proposed records are good enough to
//! keep, how they are normalised and keyed, and which stored memories are
//! due for an upgrade.
use vstd::prelude::*;
use vstd::utf8::encode_utf8;
use sha2::Digest;
use crate::items::{
    ItemView, ResponseItem, content_items_to_text, copy_texts, items_view, opt_text,
    spec_content_text,
};
use crate::lcm::{
    LcmMemoryPromotionMode, latest_user_message_text, latest_user_text, lcm_resolve_memory_promotion_mode, opt_str_view, preview_text,
    render_history_item, resolved_mode_is, spec_preview, spec_render_item,
};
use crate::open_brain::{
    CandidateView, JsonNumber, JsonValue, MetaValue, OpenBrainDurableMemoryCandidate,
    OpenBrainDurableMemoryRecord, OpenBrainLeafSummary, OpenBrainProjectMemory,
    count_entry, expected_keys, key_lt, key_split, keys_ascending, lemma_keys_ascending_from_neighbours,
    lemma_meta_keys_match, metadata_in_key_order, metadata_is, number_view, text_entry, value_is,
};
use crate::text::{
    ascii_lower, chars_contains_seq, chars_eq, chars_of, chars_starts_with, collapse_whitespace,
    append_str, collapse_ws, concat2, concat3, contains_seq, decimal, empty_string, join, join_strings, lower_chars,
    owned, push_all, push_decimal, slice_chars, starts_with, str_eq, string_from_chars, strings_view, trim,
    trim_bounds, trimmed,
};

verus! {

/// The quality version that current durable memories are written with.
pub const DURABLE_MEMORY_QUALITY_VERSION: u32 = 1;

/// The memory types a durable record may have.
pub open spec fn is_memory_type(t: Seq<char>) -> bool {
    ||| t == "decision"@
    ||| t == "constraint"@
    ||| t == "known_issue"@
    ||| t == "implementation_status"@
    ||| t == "operator_preference"@
}

/// The memory type `value` names, trimmed, if it is one of the allowed
/// types.
pub fn normalize_memory_type(value: &str) -> (r: Option<String>)
    ensures
        opt_text(r) == if is_memory_type(trim(value@)) {
            Some(trim(value@))
        } else {
            None::<Seq<char>>
        },
{
    let c = chars_of(value);
    let t = trimmed(c.as_slice());
    let s = string_from_chars(t.as_slice());
    let ts = s.as_str();
    if str_eq(ts, "decision") || str_eq(ts, "constraint") || str_eq(ts, "known_issue") || str_eq(
        ts,
        "implementation_status",
    ) || str_eq(ts, "operator_preference") {
        Some(s)
    } else {
        None
    }
}

/// Titles that say nothing of their memory.
pub open spec fn spec_is_generic_title(title: Seq<char>) -> bool {
    let l = ascii_lower(trim(title));
    ||| l == "durable memory"@
    ||| l == "project durable memory"@
    ||| l == "lcm durable memory"@
    ||| l == "summary"@
    ||| l == "recap"@
    ||| l == "note"@
}

fn lowered_trimmed(s: &str) -> (r: String)
    ensures
        r@ == ascii_lower(trim(s@)),
{
    let c = chars_of(s);
    let t = trimmed(c.as_slice());
    let l = lower_chars(t.as_slice());
    string_from_chars(l.as_slice())
}

/// Whether `title`, trimmed and lowercased, is one of the generic titles.
pub fn is_generic_title(title: &str) -> (r: bool)
    ensures
        r == spec_is_generic_title(title@),
{
    let l = lowered_trimmed(title);
    let ls = l.as_str();
    str_eq(ls, "durable memory") || str_eq(ls, "project durable memory") || str_eq(
        ls,
        "lcm durable memory",
    ) || str_eq(ls, "summary") || str_eq(ls, "recap") || str_eq(ls, "note")
}

/// Content that is a raw transcript line or carries prompt scaffolding.
pub open spec fn spec_looks_polluted(content: Seq<char>) -> bool {
    let l = ascii_lower(content);
    ||| starts_with(l, "assistant:"@)
    ||| starts_with(l, "user:"@)
    ||| contains_seq(l, "<context_engine>"@)
    ||| contains_seq(l, "<permissions instructions>"@)
    ||| contains_seq(l, "# agents.md instructions"@)
}

/// Whether `content` looks like a transcript fragment or prompt wrapper
/// rather than a memory.
pub fn looks_like_polluted_memory(content: &str) -> (r: bool)
    ensures
        r == spec_looks_polluted(content@),
{
    let c = chars_of(content);
    let l = lower_chars(c.as_slice());
    let ls = l.as_slice();
    let p1 = chars_of("assistant:");
    let p2 = chars_of("user:");
    let p3 = chars_of("<context_engine>");
    let p4 = chars_of("<permissions instructions>");
    let p5 = chars_of("# agents.md instructions");
    chars_starts_with(ls, p1.as_slice()) || chars_starts_with(ls, p2.as_slice())
        || chars_contains_seq(ls, p3.as_slice()) || chars_contains_seq(ls, p4.as_slice())
        || chars_contains_seq(ls, p5.as_slice())
}

/// Characters stripped from both ends of a proposed title.
pub open spec fn is_title_mark(c: char) -> bool {
    c == '"' || c == '\'' || c == '-' || c == ':'
}

pub open spec fn strip_marks_start(s: Seq<char>) -> Seq<char>
    decreases s.len(),
{
    if s.len() > 0 && is_title_mark(s[0]) {
        strip_marks_start(s.drop_first())
    } else {
        s
    }
}

pub open spec fn strip_marks_end(s: Seq<char>) -> Seq<char>
    decreases s.len(),
{
    if s.len() > 0 && is_title_mark(s.last()) {
        strip_marks_end(s.drop_last())
    } else {
        s
    }
}

/// `s` with title marks removed from both ends (`str::trim_matches`).
pub open spec fn strip_marks(s: Seq<char>) -> Seq<char> {
    strip_marks_end(strip_marks_start(s))
}

fn is_mark(c: char) -> (r: bool)
    ensures
        r == is_title_mark(c),
{
    c == '"' || c == '\'' || c == '-' || c == ':'
}

fn strip_title_marks(s: &[char]) -> (r: Vec<char>)
    ensures
        r@ == strip_marks(s@),
{
    let mut i: usize = 0;
    assert(s@.subrange(0, s@.len() as int) == s@);
    while i < s.len() && is_mark(s[i])
        invariant
            i <= s.len(),
            strip_marks_start(s@) == strip_marks_start(s@.subrange(i as int, s@.len() as int)),
        decreases s.len() - i,
    {
        assert(s@.subrange(i as int, s@.len() as int).drop_first() == s@.subrange(
            i + 1,
            s@.len() as int,
        ));
        i = i + 1;
    }
    let ghost t = s@.subrange(i as int, s@.len() as int);
    assert(strip_marks_start(s@) == t);
    let mut j: usize = s.len();
    while j > i && is_mark(s[j - 1])
        invariant
            i <= j <= s.len(),
            t == s@.subrange(i as int, s@.len() as int),
            strip_marks_end(t) == strip_marks_end(s@.subrange(i as int, j as int)),
        decreases j,
    {
        assert(s@.subrange(i as int, j as int).drop_last() == s@.subrange(i as int, j - 1));
        j = j - 1;
    }
    assert(t == s@.subrange(i as int, s@.len() as int));
    slice_chars(s, i, j)
}

/// `s` past a leading label (`lcm memory:`, `memory:`, `issue:`,
/// `decision:` or `constraint:`, in any letter case), trimmed; `s` itself
/// when it has none.
pub open spec fn strip_title_label(s: Seq<char>) -> Seq<char> {
    let l = ascii_lower(s);
    if starts_with(l, "lcm memory:"@) {
        trim(s.skip("lcm memory:"@.len() as int))
    } else if starts_with(l, "memory:"@) {
        trim(s.skip("memory:"@.len() as int))
    } else if starts_with(l, "issue:"@) {
        trim(s.skip("issue:"@.len() as int))
    } else if starts_with(l, "decision:"@) {
        trim(s.skip("decision:"@.len() as int))
    } else if starts_with(l, "constraint:"@) {
        trim(s.skip("constraint:"@.len() as int))
    } else {
        s
    }
}

fn skip_label(s: &[char], lowered: &[char], label: &str) -> (r: Option<Vec<char>>)
    requires
        lowered@ == ascii_lower(s@),
    ensures
        match r {
            Some(v) => starts_with(ascii_lower(s@), label@) && v@ == trim(
                s@.skip(label@.len() as int),
            ),
            None => !starts_with(ascii_lower(s@), label@),
        },
{
    let p = chars_of(label);
    if chars_starts_with(lowered, p.as_slice()) {
        let rest = slice_chars(s, p.len(), s.len());
        assert(rest@ == s@.skip(label@.len() as int));
        Some(trimmed(rest.as_slice()))
    } else {
        None
    }
}

fn strip_label(s: &[char]) -> (r: Vec<char>)
    ensures
        r@ == strip_title_label(s@),
{
    let l = lower_chars(s);
    let ls = l.as_slice();
    if let Some(v) = skip_label(s, ls, "lcm memory:") {
        return v;
    }
    if let Some(v) = skip_label(s, ls, "memory:") {
        return v;
    }
    if let Some(v) = skip_label(s, ls, "issue:") {
        return v;
    }
    if let Some(v) = skip_label(s, ls, "decision:") {
        return v;
    }
    if let Some(v) = skip_label(s, ls, "constraint:") {
        return v;
    }
    slice_chars(s, 0, s.len())
}

/// A proposed title made fit to keep: trimmed, stripped of quotes, dashes
/// and colons at its ends and of a leading label; refused when empty, a
/// question or generic; else cut to a 96-character preview.
pub open spec fn spec_normalize_title(title: Seq<char>) -> Option<Seq<char>> {
    let marked = strip_marks(trim(title));
    if marked.len() == 0 {
        None
    } else {
        let t = strip_title_label(marked);
        if t.len() == 0 || t.last() == '?' || spec_is_generic_title(t) {
            None
        } else {
            Some(spec_preview(t, 96))
        }
    }
}

/// The title to keep for a proposed memory, if it is fit to keep.
pub fn normalize_title(title: &str) -> (r: Option<String>)
    ensures
        opt_text(r) == spec_normalize_title(title@),
{
    let c = chars_of(title);
    let t = trimmed(c.as_slice());
    let marked = strip_title_marks(t.as_slice());
    if marked.len() == 0 {
        return None;
    }
    let n = strip_label(marked.as_slice());
    if n.len() == 0 || n[n.len() - 1] == '?' {
        return None;
    }
    let ns = string_from_chars(n.as_slice());
    if is_generic_title(ns.as_str()) {
        return None;
    }
    Some(preview_text(ns.as_str(), 96))
}

/// Proposed content made fit to keep: whitespace collapsed; refused when
/// empty or polluted; else cut to a 280-character preview.
pub open spec fn spec_normalize_content(content: Seq<char>) -> Option<Seq<char>> {
    let n = collapse_ws(content);
    if n.len() == 0 || spec_looks_polluted(n) {
        None
    } else {
        Some(spec_preview(n, 280))
    }
}

/// The content to keep for a proposed memory, if it is fit to keep.
pub fn normalize_content(content: &str) -> (r: Option<String>)
    ensures
        opt_text(r) == spec_normalize_content(content@),
{
    let c = chars_of(content);
    let n = collapse_whitespace(c.as_slice());
    if n.len() == 0 {
        return None;
    }
    let ns = string_from_chars(n.as_slice());
    if looks_like_polluted_memory(ns.as_str()) {
        return None;
    }
    Some(preview_text(ns.as_str(), 280))
}

/// The user message recovered from a stored candidate title: what follows
/// `LCM memory: `, trimmed, when that is not empty.
pub open spec fn spec_candidate_title(title: Seq<char>) -> Option<Seq<char>> {
    if starts_with(title, "LCM memory: "@) {
        let rest = trim(title.skip("LCM memory: "@.len() as int));
        if rest.len() > 0 {
            Some(rest)
        } else {
            None
        }
    } else {
        None
    }
}

/// The user message a stored candidate title was made from, if any.
pub fn normalized_candidate_title(title: &str) -> (r: Option<String>)
    ensures
        opt_text(r) == spec_candidate_title(title@),
{
    let c = chars_of(title);
    let p = chars_of("LCM memory: ");
    if !chars_starts_with(c.as_slice(), p.as_slice()) {
        return None;
    }
    let rest = slice_chars(c.as_slice(), p.len(), c.len());
    assert(rest@ == title@.skip("LCM memory: "@.len() as int));
    let t = trimmed(rest.as_slice());
    if t.len() > 0 {
        Some(string_from_chars(t.as_slice()))
    } else {
        None
    }
}

/// Whether a stored memory predates the current quality version, has no
/// specific type, has a generic title or polluted content.
pub open spec fn spec_needs_upgrade(memory: OpenBrainProjectMemory) -> bool {
    let version: u32 = match memory.quality_version {
        Some(v) => v,
        None => 0,
    };
    ||| version < DURABLE_MEMORY_QUALITY_VERSION
    ||| match memory.memory_type {
        None => true,
        Some(t) => t@ == "lcm_leaf_summary"@ || t@ == "durable_memory"@,
    }
    ||| spec_is_generic_title(memory.title@)
    ||| spec_looks_polluted(trim(memory.content@))
}

/// Whether a stored memory should be extracted again.
pub fn memory_needs_upgrade(memory: &OpenBrainProjectMemory) -> (r: bool)
    ensures
        r == spec_needs_upgrade(*memory),
{
    let version: u32 = match memory.quality_version {
        Some(v) => v,
        None => 0,
    };
    if version < DURABLE_MEMORY_QUALITY_VERSION {
        return true;
    }
    let typed = match &memory.memory_type {
        None => true,
        Some(t) => str_eq(t.as_str(), "lcm_leaf_summary") || str_eq(t.as_str(), "durable_memory"),
    };
    if typed || is_generic_title(memory.title.as_str()) {
        return true;
    }
    let c = chars_of(memory.content.as_str());
    let t = trimmed(c.as_slice());
    let ts = string_from_chars(t.as_slice());
    looks_like_polluted_memory(ts.as_str())
}

/// What a durable-memory extraction is run on.
#[derive(Clone, Debug, PartialEq, Eq)]
pub struct DurableMemoryExtractionInput {
    pub source_summary_node_id: Option<String>,
    pub latest_user_message: Option<String>,
    pub summary_text: String,
    pub evidence_text: Option<String>,
    pub source_node_ids: Vec<String>,
    pub source_event_ids: Vec<String>,
    pub source_token_count: Option<u32>,
    pub summary_token_count: Option<u32>,
    pub promotion_source: String,
    pub supersede_node_ids: Vec<String>,
    pub mirror_to_thoughts: bool,
}

/// The first of `ids`, if any.
pub open spec fn first_id(ids: Seq<Seq<char>>) -> Option<Seq<char>> {
    if ids.len() > 0 {
        Some(ids[0])
    } else {
        None
    }
}

/// The extraction that re-derives a stored memory: run on its trimmed
/// content, from its source nodes and events, superseding it; none when its
/// content is blank.
pub open spec fn is_upgrade_input(
    memory: OpenBrainProjectMemory,
    mirror_to_thoughts: bool,
    r: Option<DurableMemoryExtractionInput>,
) -> bool {
    match r {
        None => trim(memory.content@).len() == 0,
        Some(i) => {
            &&& trim(memory.content@).len() > 0
            &&& opt_text(i.source_summary_node_id) == first_id(strings_view(memory.source_node_ids@))
            &&& i.latest_user_message is None
            &&& i.summary_text@ == trim(memory.content@)
            &&& i.evidence_text is None
            &&& strings_view(i.source_node_ids@) == strings_view(memory.source_node_ids@)
            &&& strings_view(i.source_event_ids@) == strings_view(memory.source_event_ids@)
            &&& i.source_token_count is None
            &&& i.summary_token_count is None
            &&& i.promotion_source@ == "recent quality upgrade"@
            &&& strings_view(i.supersede_node_ids@) == seq![memory.node_id@]
            &&& i.mirror_to_thoughts == mirror_to_thoughts
        },
    }
}

/// The extraction that re-derives `memory`, if its content is not blank.
pub fn upgrade_input(memory: &OpenBrainProjectMemory, mirror_to_thoughts: bool) -> (r: Option<
    DurableMemoryExtractionInput,
>)
    ensures
        is_upgrade_input(*memory, mirror_to_thoughts, r),
{
    let c = chars_of(memory.content.as_str());
    let t = trimmed(c.as_slice());
    if t.len() == 0 {
        return None;
    }
    let first = if memory.source_node_ids.len() > 0 {
        Some(memory.source_node_ids[0].clone())
    } else {
        None
    };
    let supersede = vec![memory.node_id.clone()];
    assert(strings_view(supersede@) =~= seq![memory.node_id@]);
    Some(DurableMemoryExtractionInput {
        source_summary_node_id: first,
        latest_user_message: None,
        summary_text: string_from_chars(t.as_slice()),
        evidence_text: None,
        source_node_ids: copy_texts(memory.source_node_ids.as_slice()),
        source_event_ids: copy_texts(memory.source_event_ids.as_slice()),
        source_token_count: None,
        summary_token_count: None,
        promotion_source: owned("recent quality upgrade"),
        supersede_node_ids: supersede,
        mirror_to_thoughts,
    })
}

/// A `label value` line when there is a value.
pub open spec fn opt_line(label: Seq<char>, value: Option<Seq<char>>) -> Seq<Seq<char>> {
    match value {
        Some(v) => seq![label + v],
        None => Seq::empty(),
    }
}

/// A `label count` line when there is a count.
pub open spec fn opt_count_line(label: Seq<char>, value: Option<u32>) -> Seq<Seq<char>> {
    match value {
        Some(n) => seq![label + decimal(n as nat)],
        None => Seq::empty(),
    }
}

/// The lines of the message an extraction is asked with.
pub open spec fn extraction_lines(input: DurableMemoryExtractionInput) -> Seq<Seq<char>> {
    seq!["promotion_source = "@ + input.promotion_source@] + opt_line(
        "source_summary_node_id = "@,
        opt_text(input.source_summary_node_id),
    ) + opt_line("latest_user_message = "@, opt_text(input.latest_user_message))
        + opt_count_line("source_token_count = "@, input.source_token_count) + opt_count_line(
        "summary_token_count = "@,
        input.summary_token_count,
    ) + seq![Seq::empty(), "summary:"@, trim(input.summary_text@)] + match opt_text(
        input.evidence_text,
    ) {
        Some(e) => seq![Seq::empty(), "evidence:"@, e],
        None => Seq::empty(),
    }
}

fn push_opt_line(lines: &mut Vec<String>, label: &str, value: &Option<String>)
    ensures
        strings_view(final(lines)@) == strings_view(old(lines)@) + opt_line(label@, opt_text(*value)),
{
    let ghost before = strings_view(lines@);
    match value {
        Some(v) => {
            let l = concat2(label, v.as_str());
            lines.push(l);
            assert(strings_view(lines@) =~= before + seq![label@ + v@]);
        },
        None => {
            assert(strings_view(lines@) =~= before + Seq::<Seq<char>>::empty());
        },
    }
}

fn push_count_line(lines: &mut Vec<String>, label: &str, value: Option<u32>)
    ensures
        strings_view(final(lines)@) == strings_view(old(lines)@) + opt_count_line(label@, value),
{
    let ghost before = strings_view(lines@);
    match value {
        Some(n) => {
            let mut out = chars_of(label);
            push_decimal(&mut out, n as u64);
            let l = string_from_chars(out.as_slice());
            lines.push(l);
            assert(strings_view(lines@) =~= before + seq![label@ + decimal(n as nat)]);
        },
        None => {
            assert(strings_view(lines@) =~= before + Seq::<Seq<char>>::empty());
        },
    }
}

fn push_line(lines: &mut Vec<String>, line: String)
    ensures
        strings_view(final(lines)@) == strings_view(old(lines)@) + seq![line@],
{
    let ghost before = strings_view(lines@);
    let ghost l = line@;
    lines.push(line);
    assert(strings_view(lines@) =~= before + seq![l]);
}

/// The message an extraction is asked with: its fields, one per line.
pub fn build_extraction_input_message(input: &DurableMemoryExtractionInput) -> (r: String)
    ensures
        r@ == join(extraction_lines(*input), seq!['\n']),
{
    let mut lines: Vec<String> = Vec::new();
    push_line(&mut lines, concat2("promotion_source = ", input.promotion_source.as_str()));
    push_opt_line(&mut lines, "source_summary_node_id = ", &input.source_summary_node_id);
    push_opt_line(&mut lines, "latest_user_message = ", &input.latest_user_message);
    push_count_line(&mut lines, "source_token_count = ", input.source_token_count);
    push_count_line(&mut lines, "summary_token_count = ", input.summary_token_count);
    let ghost head = strings_view(lines@);
    push_line(&mut lines, empty_string());
    push_line(&mut lines, owned("summary:"));
    let c = chars_of(input.summary_text.as_str());
    let t = trimmed(c.as_slice());
    push_line(&mut lines, string_from_chars(t.as_slice()));
    assert(strings_view(lines@) =~= head + seq![
        Seq::<char>::empty(),
        "summary:"@,
        trim(input.summary_text@),
    ]);
    let ghost body = strings_view(lines@);
    match &input.evidence_text {
        Some(e) => {
            push_line(&mut lines, empty_string());
            push_line(&mut lines, owned("evidence:"));
            push_line(&mut lines, e.clone());
            assert(strings_view(lines@) =~= body + seq![Seq::<char>::empty(), "evidence:"@, e@]);
        },
        None => {
            assert(strings_view(lines@) =~= body + Seq::<Seq<char>>::empty());
        },
    }
    assert(strings_view(lines@) == extraction_lines(*input));
    let sep: Vec<char> = vec!['\n'];
    assert(sep@ =~= seq!['\n']);
    let joined = join_strings(lines.as_slice(), sep.as_slice());
    string_from_chars(joined.as_slice())
}

/// The SHA-256 digest of `data`.
pub uninterp spec fn sha256_of(data: Seq<u8>) -> Seq<u8>;

/// The SHA-256 digest of `data`.
///
/// Trusted: feeds `data` to `sha2::Sha256` in one `Digest::update` and
/// returns `Digest::finalize`; the digest depends on the bytes alone and is
/// 32 bytes long.
#[verifier::external_body]
fn sha256_digest(data: &[u8]) -> (r: Vec<u8>)
    ensures
        r@ == sha256_of(data@),
        r@.len() == 32,
{
    let mut hasher = sha2::Sha256::new();
    hasher.update(data);
    hasher.finalize().to_vec()
}

/// The lowercase hexadecimal digit for `d < 16`.
pub open spec fn hex_digit(d: int) -> char {
    if d < 10 {
        ((d + 48) as u8) as char
    } else {
        ((d + 87) as u8) as char
    }
}

/// `bytes` as lowercase hexadecimal, two digits per byte.
pub open spec fn hex_lower(bytes: Seq<u8>) -> Seq<char>
    decreases bytes.len(),
{
    if bytes.len() == 0 {
        Seq::empty()
    } else {
        hex_lower(bytes.drop_last()) + seq![
            hex_digit(bytes.last() as int / 16),
            hex_digit(bytes.last() as int % 16),
        ]
    }
}

fn hex_char(d: u8) -> (c: char)
    requires
        d < 16,
    ensures
        c == hex_digit(d as int),
{
    if d < 10 {
        let u: u8 = d + 48;
        u as char
    } else {
        let u: u8 = d + 87;
        u as char
    }
}

fn to_hex(bytes: &[u8]) -> (r: Vec<char>)
    ensures
        r@ == hex_lower(bytes@),
        r@.len() == 2 * bytes@.len(),
{
    let mut r: Vec<char> = Vec::new();
    let mut i: usize = 0;
    while i < bytes.len()
        invariant
            0 <= i <= bytes.len(),
            r@ == hex_lower(bytes@.take(i as int)),
            r@.len() == 2 * i,
        decreases bytes.len() - i,
    {
        assert(bytes@.take(i + 1).drop_last() == bytes@.take(i as int));
        let b = bytes[i];
        r.push(hex_char(b / 16));
        r.push(hex_char(b % 16));
        assert(r@ =~= hex_lower(bytes@.take(i as int)) + seq![
            hex_digit(b as int / 16),
            hex_digit(b as int % 16),
        ]);
        i = i + 1;
    }
    assert(bytes@.take(bytes@.len() as int) == bytes@);
    r
}

/// The text a memory key is the digest of: the memory type and the title,
/// lowercased, its words separated by single spaces.
pub open spec fn memory_key_source(memory_type: Seq<char>, title: Seq<char>) -> Seq<char> {
    "durable_memory|"@ + memory_type + "|"@ + collapse_ws(ascii_lower(title))
}

/// The key a durable memory is deduplicated by: the SHA-256 digest of
/// `memory_key_source`'s UTF-8 bytes, in lowercase hexadecimal.
pub open spec fn spec_memory_key(memory_type: Seq<char>, title: Seq<char>) -> Seq<char> {
    hex_lower(sha256_of(encode_utf8(memory_key_source(memory_type, title))))
}

/// The key of a durable memory of the given type and title.
pub fn compute_memory_key(memory_type: &str, title: &str) -> (r: String)
    ensures
        r@ == spec_memory_key(memory_type@, title@),
        r@.len() == 64,
{
    let t = chars_of(title);
    let l = lower_chars(t.as_slice());
    let canonical = collapse_whitespace(l.as_slice());
    let mut src = chars_of("durable_memory|");
    append_str(&mut src, memory_type);
    append_str(&mut src, "|");
    push_all(&mut src, canonical.as_slice());
    let source = string_from_chars(src.as_slice());
    let bytes = source.as_str().as_bytes();
    let digest = sha256_digest(bytes);
    let hex = to_hex(digest.as_slice());
    string_from_chars(hex.as_slice())
}

/// Titles that differ only in letter case and spacing give the same key.
pub proof fn law_memory_key_ignores_case_and_spacing(
    memory_type: Seq<char>,
    a: Seq<char>,
    b: Seq<char>,
)
    requires
        collapse_ws(ascii_lower(a)) == collapse_ws(ascii_lower(b)),
    ensures
        spec_memory_key(memory_type, a) == spec_memory_key(memory_type, b),
{
}

/// The most records one extraction promotes.
pub const MAX_PROMOTED_RECORDS: usize = 2;

/// One record as the extraction model proposes it.
#[derive(Debug, PartialEq)]
pub struct DurableMemoryModelRecord {
    pub memory_type: String,
    pub title: String,
    pub content: String,
    pub confidence: JsonNumber,
}

/// An optional entry.
pub open spec fn opt_entry(key: Seq<char>, value: Option<MetaValue>) -> Seq<(Seq<char>, MetaValue)> {
    match value {
        Some(v) => seq![(key, v)],
        None => Seq::empty(),
    }
}

pub open spec fn opt_text_value(v: Option<Seq<char>>) -> Option<MetaValue> {
    match v {
        Some(t) => Some(MetaValue::Text(t)),
        None => None,
    }
}

pub open spec fn opt_count_value(v: Option<u32>) -> Option<MetaValue> {
    match v {
        Some(n) => Some(MetaValue::Count(n as nat)),
        None => None,
    }
}

/// The metadata of a promoted record, in key order.
pub open spec fn record_metadata(input: DurableMemoryExtractionInput, confidence: JsonNumber) -> Seq<
    (Seq<char>, MetaValue),
> {
    seq![
        ("confidence"@, MetaValue::Number(number_view(confidence))),
        ("promotion_source"@, MetaValue::Text(input.promotion_source@)),
        ("quality_version"@, MetaValue::Count(DURABLE_MEMORY_QUALITY_VERSION as nat)),
    ] + opt_entry("source_summary_node_id"@, opt_text_value(opt_text(input.source_summary_node_id)))
        + opt_entry("source_token_count"@, opt_count_value(input.source_token_count)) + opt_entry(
        "summary_token_count"@,
        opt_count_value(input.summary_token_count),
    )
}

/// The memory type a proposed record keeps, if it is an allowed one.
pub open spec fn spec_memory_type(value: Seq<char>) -> Option<Seq<char>> {
    if is_memory_type(trim(value)) {
        Some(trim(value))
    } else {
        None
    }
}

/// Whether a proposed record survives normalisation.
pub open spec fn is_promotable(record: DurableMemoryModelRecord) -> bool {
    &&& spec_normalize_title(record.title@) is Some
    &&& spec_normalize_content(record.content@) is Some
    &&& spec_memory_type(record.memory_type@) is Some
}

/// Whether `rec` is the durable record of the given memory type, title and
/// content: keyed by type and title, carrying the extraction's sources and
/// metadata, the metadata keys ascending.
pub open spec fn is_durable_record(
    input: DurableMemoryExtractionInput,
    memory_type: Seq<char>,
    title: Seq<char>,
    content: Seq<char>,
    confidence: JsonNumber,
    rec: OpenBrainDurableMemoryRecord,
) -> bool {
    &&& rec.title@ == title
    &&& rec.content@ == content
    &&& rec.memory_type@ == memory_type
    &&& opt_text(rec.memory_key) == Some(spec_memory_key(memory_type, title))
    &&& strings_view(rec.source_node_ids@) == strings_view(input.source_node_ids@)
    &&& strings_view(rec.source_event_ids@) == strings_view(input.source_event_ids@)
    &&& strings_view(rec.supersede_node_ids@) == strings_view(input.supersede_node_ids@)
    &&& metadata_is(rec.metadata@, record_metadata(input, confidence))
    &&& metadata_in_key_order(rec)
    &&& rec.mirror_to_thoughts == input.mirror_to_thoughts
}

/// Whether `r` is what a proposed record promotes to: nothing when its
/// title, content or type is unfit; else the durable record of the
/// normalised type, title and content. Secrets in the title and content are
/// not redacted.
pub open spec fn is_promoted_record(
    input: DurableMemoryExtractionInput,
    record: DurableMemoryModelRecord,
    r: Option<OpenBrainDurableMemoryRecord>,
) -> bool {
    match r {
        None => !is_promotable(record),
        Some(rec) => match (
            spec_normalize_title(record.title@),
            spec_normalize_content(record.content@),
            spec_memory_type(record.memory_type@),
        ) {
            (Some(t), Some(c), Some(m)) => is_durable_record(input, m, t, c, record.confidence, rec),
            _ => false,
        },
    }
}

/// The metadata keys of a promoted record ascend.
proof fn lemma_record_metadata_ascending(input: DurableMemoryExtractionInput, confidence: JsonNumber)
    ensures
        keys_ascending(expected_keys(record_metadata(input, confidence))),
{
    reveal_strlit("confidence");
    reveal_strlit("promotion_source");
    reveal_strlit("quality_version");
    reveal_strlit("source_summary_node_id");
    reveal_strlit("source_token_count");
    reveal_strlit("summary_token_count");
    let c = "confidence"@;
    let p = "promotion_source"@;
    let q = "quality_version"@;
    let ssn = "source_summary_node_id"@;
    let stc = "source_token_count"@;
    let sum = "summary_token_count"@;
    assert(c.subrange(0, 0) =~= p.subrange(0, 0));
    assert(key_split(c, p, 0));
    assert(p.subrange(0, 0) =~= q.subrange(0, 0));
    assert(key_split(p, q, 0));
    assert(q.subrange(0, 0) =~= ssn.subrange(0, 0));
    assert(key_split(q, ssn, 0));
    assert(q.subrange(0, 0) =~= stc.subrange(0, 0));
    assert(key_split(q, stc, 0));
    assert(q.subrange(0, 0) =~= sum.subrange(0, 0));
    assert(key_split(q, sum, 0));
    assert(ssn.subrange(0, 7) =~= stc.subrange(0, 7));
    assert(key_split(ssn, stc, 7));
    assert(ssn.subrange(0, 1) =~= sum.subrange(0, 1));
    assert(key_split(ssn, sum, 1));
    assert(stc.subrange(0, 1) =~= sum.subrange(0, 1));
    assert(key_split(stc, sum, 1));
    let keys = expected_keys(record_metadata(input, confidence));
    if (input.source_summary_node_id is Some) && (input.source_token_count is Some) && (input.summary_token_count is Some) {
        assert(keys =~= seq![c, p, q, ssn, stc, sum]);
        assert forall|i: int| 0 <= i < keys.len() - 1 implies key_lt(#[trigger] keys[i], keys[i + 1]) by {
                if i == 0 { assert(key_lt(c, p)); }
                if i == 1 { assert(key_lt(p, q)); }
                if i == 2 { assert(key_lt(q, ssn)); }
                if i == 3 { assert(key_lt(ssn, stc)); }
                if i == 4 { assert(key_lt(stc, sum)); }
        }
    }
    if (input.source_summary_node_id is Some) && (input.source_token_count is Some) && !(input.summary_token_count is Some) {
        assert(keys =~= seq![c, p, q, ssn, stc]);
        assert forall|i: int| 0 <= i < keys.len() - 1 implies key_lt(#[trigger] keys[i], keys[i + 1]) by {
                if i == 0 { assert(key_lt(c, p)); }
                if i == 1 { assert(key_lt(p, q)); }
                if i == 2 { assert(key_lt(q, ssn)); }
                if i == 3 { assert(key_lt(ssn, stc)); }
        }
    }
    if (input.source_summary_node_id is Some) && !(input.source_token_count is Some) && (input.summary_token_count is Some) {
        assert(keys =~= seq![c, p, q, ssn, sum]);
        assert forall|i: int| 0 <= i < keys.len() - 1 implies key_lt(#[trigger] keys[i], keys[i + 1]) by {
                if i == 0 { assert(key_lt(c, p)); }
                if i == 1 { assert(key_lt(p, q)); }
                if i == 2 { assert(key_lt(q, ssn)); }
                if i == 3 { assert(key_lt(ssn, sum)); }
        }
    }
    if (input.source_summary_node_id is Some) && !(input.source_token_count is Some) && !(input.summary_token_count is Some) {
        assert(keys =~= seq![c, p, q, ssn]);
        assert forall|i: int| 0 <= i < keys.len() - 1 implies key_lt(#[trigger] keys[i], keys[i + 1]) by {
                if i == 0 { assert(key_lt(c, p)); }
                if i == 1 { assert(key_lt(p, q)); }
                if i == 2 { assert(key_lt(q, ssn)); }
        }
    }
    if !(input.source_summary_node_id is Some) && (input.source_token_count is Some) && (input.summary_token_count is Some) {
        assert(keys =~= seq![c, p, q, stc, sum]);
        assert forall|i: int| 0 <= i < keys.len() - 1 implies key_lt(#[trigger] keys[i], keys[i + 1]) by {
                if i == 0 { assert(key_lt(c, p)); }
                if i == 1 { assert(key_lt(p, q)); }
                if i == 2 { assert(key_lt(q, stc)); }
                if i == 3 { assert(key_lt(stc, sum)); }
        }
    }
    if !(input.source_summary_node_id is Some) && (input.source_token_count is Some) && !(input.summary_token_count is Some) {
        assert(keys =~= seq![c, p, q, stc]);
        assert forall|i: int| 0 <= i < keys.len() - 1 implies key_lt(#[trigger] keys[i], keys[i + 1]) by {
                if i == 0 { assert(key_lt(c, p)); }
                if i == 1 { assert(key_lt(p, q)); }
                if i == 2 { assert(key_lt(q, stc)); }
        }
    }
    if !(input.source_summary_node_id is Some) && !(input.source_token_count is Some) && (input.summary_token_count is Some) {
        assert(keys =~= seq![c, p, q, sum]);
        assert forall|i: int| 0 <= i < keys.len() - 1 implies key_lt(#[trigger] keys[i], keys[i + 1]) by {
                if i == 0 { assert(key_lt(c, p)); }
                if i == 1 { assert(key_lt(p, q)); }
                if i == 2 { assert(key_lt(q, sum)); }
        }
    }
    if !(input.source_summary_node_id is Some) && !(input.source_token_count is Some) && !(input.summary_token_count is Some) {
        assert(keys =~= seq![c, p, q]);
        assert forall|i: int| 0 <= i < keys.len() - 1 implies key_lt(#[trigger] keys[i], keys[i + 1]) by {
                if i == 0 { assert(key_lt(c, p)); }
                if i == 1 { assert(key_lt(p, q)); }
        }
    }
    lemma_keys_ascending_from_neighbours(keys);
}

/// The record a proposed record promotes to, if its title, content and type
/// are fit to keep.
///
/// The title and content are not redacted of secrets here: a caller that
/// can redact normalises them with `normalize_title` and `normalize_content`,
/// redacts them, and builds the record with `durable_record`.
pub fn promoteable_record(input: &DurableMemoryExtractionInput, record: &DurableMemoryModelRecord) -> (r:
    Option<OpenBrainDurableMemoryRecord>)
    ensures
        is_promoted_record(*input, *record, r),
{
    let title = match normalize_title(record.title.as_str()) {
        Some(t) => t,
        None => return None,
    };
    let content = match normalize_content(record.content.as_str()) {
        Some(c) => c,
        None => return None,
    };
    let memory_type = match normalize_memory_type(record.memory_type.as_str()) {
        Some(m) => m,
        None => return None,
    };
    Some(durable_record(input, memory_type, title, content, &record.confidence))
}

/// The durable record of a memory type, title and content as they are to be
/// kept (normalised, and redacted by the caller where it can), keyed by the
/// type and this title.
pub fn durable_record(
    input: &DurableMemoryExtractionInput,
    memory_type: String,
    title: String,
    content: String,
    confidence: &JsonNumber,
) -> (r: OpenBrainDurableMemoryRecord)
    ensures
        is_durable_record(*input, memory_type@, title@, content@, *confidence, r),
{
    let memory_key = compute_memory_key(memory_type.as_str(), title.as_str());
    let ghost expected = record_metadata(*input, *confidence);
    let mut metadata: Vec<(String, JsonValue)> = Vec::new();
    metadata.push((owned("confidence"), JsonValue::Number(confidence.duplicate())));
    metadata.push(text_entry("promotion_source", input.promotion_source.clone()));
    metadata.push(count_entry("quality_version", DURABLE_MEMORY_QUALITY_VERSION));
    let ghost fixed = metadata@;
    assert(metadata_is(fixed, expected.take(3)));
    match &input.source_summary_node_id {
        Some(id) => metadata.push(text_entry("source_summary_node_id", id.clone())),
        None => {},
    }
    let ghost n1 = metadata@.len();
    let ghost e1 = expected.take(n1 as int);
    assert(metadata_is(metadata@, e1)) by {
        assert forall|i: int| 0 <= i < metadata@.len() implies {
            &&& (#[trigger] metadata@[i]).0@ == e1[i].0
            &&& value_is(metadata@[i].1, e1[i].1)
        } by {
            if i < 3 {
                assert(metadata@[i] == fixed[i]);
            }
        }
    }
    let ghost before2 = metadata@;
    match input.source_token_count {
        Some(n) => metadata.push(count_entry("source_token_count", n)),
        None => {},
    }
    let ghost n2 = metadata@.len();
    let ghost e2 = expected.take(n2 as int);
    assert(metadata_is(metadata@, e2)) by {
        assert forall|i: int| 0 <= i < metadata@.len() implies {
            &&& (#[trigger] metadata@[i]).0@ == e2[i].0
            &&& value_is(metadata@[i].1, e2[i].1)
        } by {
            if i < before2.len() {
                assert(metadata@[i] == before2[i]);
                assert(e2[i] == e1[i]);
            }
        }
    }
    let ghost before3 = metadata@;
    match input.summary_token_count {
        Some(n) => metadata.push(count_entry("summary_token_count", n)),
        None => {},
    }
    assert(metadata_is(metadata@, expected)) by {
        assert(expected.len() == metadata@.len());
        assert forall|i: int| 0 <= i < metadata@.len() implies {
            &&& (#[trigger] metadata@[i]).0@ == expected[i].0
            &&& value_is(metadata@[i].1, expected[i].1)
        } by {
            if i < before3.len() {
                assert(metadata@[i] == before3[i]);
                assert(expected[i] == e2[i]);
            }
        }
    }
    proof {
        lemma_record_metadata_ascending(*input, *confidence);
        lemma_meta_keys_match(metadata@, expected);
    }
    OpenBrainDurableMemoryRecord {
        title,
        content,
        memory_type,
        memory_key: Some(memory_key),
        source_node_ids: copy_texts(input.source_node_ids.as_slice()),
        source_event_ids: copy_texts(input.source_event_ids.as_slice()),
        supersede_node_ids: copy_texts(input.supersede_node_ids.as_slice()),
        metadata,
        mirror_to_thoughts: input.mirror_to_thoughts,
    }
}

/// The positions of the proposed records that survive normalisation.
pub open spec fn promotable_positions(records: Seq<DurableMemoryModelRecord>) -> Seq<int>
    decreases records.len(),
{
    if records.len() == 0 {
        Seq::empty()
    } else {
        promotable_positions(records.drop_last()) + if is_promotable(records.last()) {
            seq![records.len() - 1]
        } else {
            Seq::empty()
        }
    }
}

/// The records an extraction promotes: the first `MAX_PROMOTED_RECORDS`
/// proposed records that survive normalisation, in order. Proposals below
/// the confidence threshold are left out by the caller.
pub fn promotable_records(input: &DurableMemoryExtractionInput, records: &[DurableMemoryModelRecord]) -> (r:
    Vec<OpenBrainDurableMemoryRecord>)
    ensures
        r@.len() == if promotable_positions(records@).len() < MAX_PROMOTED_RECORDS {
            promotable_positions(records@).len() as int
        } else {
            MAX_PROMOTED_RECORDS as int
        },
        forall|k: int| 0 <= k < r@.len() ==> is_promoted_record(
            *input,
            records@[promotable_positions(records@)[k]],
            Some(#[trigger] r@[k]),
        ),
{
    let mut r: Vec<OpenBrainDurableMemoryRecord> = Vec::new();
    let mut i: usize = 0;
    while i < records.len() && r.len() < MAX_PROMOTED_RECORDS
        invariant
            0 <= i <= records.len(),
            r@.len() <= MAX_PROMOTED_RECORDS,
            r@.len() == promotable_positions(records@.take(i as int)).len(),
            forall|k: int| 0 <= k < r@.len() ==> is_promoted_record(
                *input,
                records@[promotable_positions(records@.take(i as int))[k]],
                Some(#[trigger] r@[k]),
            ),
            forall|k: int| 0 <= k < promotable_positions(records@.take(i as int)).len() ==> 0 <= #[trigger] promotable_positions(records@.take(i as int))[k] < i,
        decreases records.len() - i,
    {
        let ghost p = records@.take(i as int);
        let ghost q = records@.take(i + 1);
        assert(q.drop_last() == p);
        assert(q.last() == records@[i as int]);
        let ghost before = r@;
        match promoteable_record(input, &records[i]) {
            Some(rec) => {
                r.push(rec);
                assert(promotable_positions(q) == promotable_positions(p).push(i as int));
                assert forall|k: int| 0 <= k < r@.len() implies is_promoted_record(
                    *input,
                    records@[promotable_positions(q)[k]],
                    Some(#[trigger] r@[k]),
                ) by {
                    if k < before.len() {
                        assert(r@[k] == before[k]);
                        assert(promotable_positions(q)[k] == promotable_positions(p)[k]);
                    }
                }
            },
            None => {
                assert(promotable_positions(q) =~= promotable_positions(p));
            },
        }
        i = i + 1;
    }
    proof {
        let pi = promotable_positions(records@.take(i as int));
        let full = promotable_positions(records@);
        lemma_positions_prefix(records@, i as int);
        if i < records.len() {
            assert(r@.len() == MAX_PROMOTED_RECORDS);
        } else {
            assert(records@.take(i as int) == records@);
        }
        assert forall|k: int| 0 <= k < r@.len() implies is_promoted_record(
            *input,
            records@[full[k]],
            Some(#[trigger] r@[k]),
        ) by {
            assert(full[k] == pi[k]);
        }
    }
    r
}

proof fn lemma_positions_prefix(records: Seq<DurableMemoryModelRecord>, i: int)
    requires
        0 <= i <= records.len(),
    ensures
        promotable_positions(records.take(i)).len() <= promotable_positions(records).len(),
        forall|k: int| 0 <= k < promotable_positions(records.take(i)).len() ==> #[trigger] promotable_positions(records.take(i))[k] == promotable_positions(records)[k],
    decreases records.len() - i,
{
    if i == records.len() {
        assert(records.take(i) == records);
    } else {
        lemma_positions_prefix(records, i + 1);
        let p = records.take(i);
        let q = records.take(i + 1);
        assert(q.drop_last() == p);
        assert forall|k: int| 0 <= k < promotable_positions(p).len() implies #[trigger] promotable_positions(p)[k] == promotable_positions(records)[k] by {
            assert(promotable_positions(q)[k] == promotable_positions(p)[k]);
        }
    }
}

/// The promotion mode for a stored thread memory mode.
pub fn resolve_memory_promotion_mode(mode: Option<&str>) -> (r: LcmMemoryPromotionMode)
    ensures
        resolved_mode_is(opt_str_view(mode), r),
{
    lcm_resolve_memory_promotion_mode(mode)
}

/// The most stored memories one startup pass upgrades.
pub const MAX_UPGRADE_BATCH: usize = 8;

/// The positions of the stored memories due for an upgrade whose content is
/// not blank.
pub open spec fn upgrade_positions(memories: Seq<OpenBrainProjectMemory>) -> Seq<int>
    decreases memories.len(),
{
    if memories.len() == 0 {
        Seq::empty()
    } else {
        upgrade_positions(memories.drop_last()) + if spec_needs_upgrade(memories.last()) && trim(
            memories.last().content@,
        ).len() > 0 {
            seq![memories.len() - 1]
        } else {
            Seq::empty()
        }
    }
}

proof fn lemma_upgrade_positions_prefix(memories: Seq<OpenBrainProjectMemory>, i: int)
    requires
        0 <= i <= memories.len(),
    ensures
        upgrade_positions(memories.take(i)).len() <= upgrade_positions(memories).len(),
        forall|k: int| 0 <= k < upgrade_positions(memories.take(i)).len() ==> #[trigger] upgrade_positions(memories.take(i))[k] == upgrade_positions(memories)[k],
    decreases memories.len() - i,
{
    if i == memories.len() {
        assert(memories.take(i) == memories);
    } else {
        lemma_upgrade_positions_prefix(memories, i + 1);
        let p = memories.take(i);
        let q = memories.take(i + 1);
        assert(q.drop_last() == p);
        assert forall|k: int| 0 <= k < upgrade_positions(p).len() implies #[trigger] upgrade_positions(p)[k] == upgrade_positions(memories)[k] by {
            assert(upgrade_positions(q)[k] == upgrade_positions(p)[k]);
        }
    }
}

/// The extractions a startup pass runs to upgrade stored memories: one for
/// each of the first `MAX_UPGRADE_BATCH` memories that are due for an
/// upgrade and have content, in order.
pub fn upgrade_batch(memories: &[OpenBrainProjectMemory], mirror_to_thoughts: bool) -> (r: Vec<
    DurableMemoryExtractionInput,
>)
    ensures
        r@.len() == if upgrade_positions(memories@).len() < MAX_UPGRADE_BATCH {
            upgrade_positions(memories@).len() as int
        } else {
            MAX_UPGRADE_BATCH as int
        },
        forall|k: int| 0 <= k < r@.len() ==> is_upgrade_input(
            memories@[upgrade_positions(memories@)[k]],
            mirror_to_thoughts,
            Some(#[trigger] r@[k]),
        ),
{
    let mut r: Vec<DurableMemoryExtractionInput> = Vec::new();
    let mut i: usize = 0;
    while i < memories.len() && r.len() < MAX_UPGRADE_BATCH
        invariant
            0 <= i <= memories.len(),
            r@.len() <= MAX_UPGRADE_BATCH,
            r@.len() == upgrade_positions(memories@.take(i as int)).len(),
            forall|k: int| 0 <= k < r@.len() ==> is_upgrade_input(
                memories@[upgrade_positions(memories@.take(i as int))[k]],
                mirror_to_thoughts,
                Some(#[trigger] r@[k]),
            ),
        decreases memories.len() - i,
    {
        let ghost p = memories@.take(i as int);
        let ghost q = memories@.take(i + 1);
        assert(q.drop_last() == p);
        assert(q.last() == memories@[i as int]);
        let ghost before = r@;
        let due = memory_needs_upgrade(&memories[i]);
        let input = if due {
            upgrade_input(&memories[i], mirror_to_thoughts)
        } else {
            None
        };
        match input {
            Some(x) => {
                r.push(x);
                assert(upgrade_positions(q) == upgrade_positions(p).push(i as int));
                assert forall|k: int| 0 <= k < r@.len() implies is_upgrade_input(
                    memories@[upgrade_positions(q)[k]],
                    mirror_to_thoughts,
                    Some(#[trigger] r@[k]),
                ) by {
                    if k < before.len() {
                        assert(r@[k] == before[k]);
                        assert(upgrade_positions(q)[k] == upgrade_positions(p)[k]);
                    }
                }
            },
            None => {
                assert(upgrade_positions(q) =~= upgrade_positions(p));
            },
        }
        i = i + 1;
    }
    proof {
        let pi = upgrade_positions(memories@.take(i as int));
        let full = upgrade_positions(memories@);
        lemma_upgrade_positions_prefix(memories@, i as int);
        if i == memories.len() {
            assert(memories@.take(i as int) == memories@);
        }
        assert forall|k: int| 0 <= k < r@.len() implies is_upgrade_input(
            memories@[full[k]],
            mirror_to_thoughts,
            Some(#[trigger] r@[k]),
        ) by {
            assert(full[k] == pi[k]);
        }
    }
    r
}

/// The rendered texts of the latest items, newest first, at most `n` of
/// them.
pub open spec fn recent_rendered(items: Seq<ItemView>, n: nat) -> Seq<Seq<char>>
    decreases items.len(),
{
    if items.len() == 0 || n == 0 {
        Seq::empty()
    } else {
        match spec_render_item(items.last()) {
            Some(t) => seq![t] + recent_rendered(items.drop_last(), (n - 1) as nat),
            None => recent_rendered(items.drop_last(), n),
        }
    }
}

/// How many rendered items the evidence of an extraction shows.
pub const EVIDENCE_ITEMS: usize = 8;

/// The evidence shown to an extraction: the rendered texts of the latest
/// `EVIDENCE_ITEMS` items that render, newest first, one per line, trimmed;
/// none when that is blank.
pub open spec fn spec_evidence(items: Seq<ItemView>) -> Option<Seq<char>> {
    let t = trim(join(recent_rendered(items, EVIDENCE_ITEMS as nat), seq!['\n']));
    if t.len() > 0 {
        Some(t)
    } else {
        None
    }
}

/// The evidence shown to an extraction run on `items`.
///
/// The text is returned whole; it is not cut to a token budget here.
pub fn evidence_text(items: &[ResponseItem]) -> (r: Option<String>)
    ensures
        opt_text(r) == spec_evidence(items_view(items@)),
{
    let ghost iv = items_view(items@);
    let mut parts: Vec<String> = Vec::new();
    let mut i: usize = items.len();
    assert(iv.take(items@.len() as int) == iv);
    while i > 0 && parts.len() < EVIDENCE_ITEMS
        invariant
            i <= items@.len(),
            iv == items_view(items@),
            parts@.len() <= EVIDENCE_ITEMS,
            strings_view(parts@) + recent_rendered(iv.take(i as int), (EVIDENCE_ITEMS - parts@.len()) as nat)
                == recent_rendered(iv, EVIDENCE_ITEMS as nat),
        decreases i,
    {
        let ghost p = iv.take(i as int);
        assert(p.drop_last() == iv.take(i - 1));
        assert(p.last() == items@[i - 1]@);
        let ghost before = strings_view(parts@);
        match render_history_item(&items[i - 1]) {
            Some(t) => {
                parts.push(t);
                assert(strings_view(parts@) =~= before + seq![t@]);
                assert(strings_view(parts@) + recent_rendered(iv.take(i - 1), (EVIDENCE_ITEMS - parts@.len()) as nat)
                    =~= before + recent_rendered(p, (EVIDENCE_ITEMS - before.len()) as nat));
            },
            None => {},
        }
        i = i - 1;
    }
    assert(recent_rendered(iv.take(i as int), (EVIDENCE_ITEMS - parts@.len()) as nat) =~= Seq::<Seq<char>>::empty());
    assert(strings_view(parts@) =~= recent_rendered(iv, EVIDENCE_ITEMS as nat));
    let sep: Vec<char> = vec!['\n'];
    assert(sep@ =~= seq!['\n']);
    let joined = join_strings(parts.as_slice(), sep.as_slice());
    let t = trimmed(joined.as_slice());
    if t.len() > 0 {
        Some(string_from_chars(t.as_slice()))
    } else {
        None
    }
}

/// `type: title` of each promoted record, in order.
pub open spec fn promoted_labels(records: Seq<OpenBrainDurableMemoryRecord>) -> Seq<Seq<char>> {
    Seq::new(records.len(), |i: int| records[i].memory_type@ + ": "@ + records[i].title@)
}

/// The notice that lists promoted records.
pub open spec fn spec_promoted_notice(records: Seq<OpenBrainDurableMemoryRecord>) -> Seq<char> {
    "LCM durable memory promoted: "@ + join(promoted_labels(records), "; "@) + "."@
}

/// The notice shown after `records` were promoted.
pub fn promoted_records_notice(records: &[OpenBrainDurableMemoryRecord]) -> (r: String)
    ensures
        r@ == spec_promoted_notice(records@),
{
    let mut labels: Vec<String> = Vec::new();
    let mut i: usize = 0;
    while i < records.len()
        invariant
            0 <= i <= records.len(),
            strings_view(labels@) == promoted_labels(records@.take(i as int)),
        decreases records.len() - i,
    {
        let ghost before = strings_view(labels@);
        let l = concat3(records[i].memory_type.as_str(), ": ", records[i].title.as_str());
        let ghost lv = l@;
        labels.push(l);
        assert(strings_view(labels@) =~= before.push(lv));
        assert forall|k: int| 0 <= k < i + 1 implies #[trigger] strings_view(labels@)[k]
            == promoted_labels(records@.take(i + 1))[k] by {
            if k < i {
                assert(records@.take(i + 1)[k] == records@.take(i as int)[k]);
                assert(before[k] == promoted_labels(records@.take(i as int))[k]);
            }
        }
        assert(strings_view(labels@) =~= promoted_labels(records@.take(i + 1)));
        i = i + 1;
    }
    assert(records@.take(records@.len() as int) == records@);
    let sep = chars_of("; ");
    let joined = join_strings(labels.as_slice(), sep.as_slice());
    let mut out = chars_of("LCM durable memory promoted: ");
    push_all(&mut out, joined.as_slice());
    append_str(&mut out, ".");
    string_from_chars(out.as_slice())
}

/// One event of a model's streamed response.
#[derive(Debug, PartialEq)]
pub enum ModelStreamEvent {
    OutputTextDelta(String),
    OutputItemDone(ResponseItem),
    Completed,
    Other,
}

/// The text a streamed response yields, continuing from `acc`: text deltas
/// are appended; a finished message supplies its text only while nothing
/// has been collected; the stream ends at completion.
pub open spec fn stream_text_from(acc: Seq<char>, events: Seq<ModelStreamEvent>) -> Seq<char>
    decreases events.len(),
{
    if events.len() == 0 {
        acc
    } else {
        match events[0] {
            ModelStreamEvent::OutputTextDelta(d) => stream_text_from(acc + d@, events.drop_first()),
            ModelStreamEvent::OutputItemDone(item) => {
                let next = if acc.len() == 0 {
                    match item@ {
                        ItemView::Message { content, .. } => match spec_content_text(content) {
                            Some(t) => t,
                            None => acc,
                        },
                        _ => acc,
                    }
                } else {
                    acc
                };
                stream_text_from(next, events.drop_first())
            },
            ModelStreamEvent::Completed => acc,
            ModelStreamEvent::Other => stream_text_from(acc, events.drop_first()),
        }
    }
}

/// The text of a model's streamed response.
pub fn collect_model_output(events: &[ModelStreamEvent]) -> (r: String)
    ensures
        r@ == stream_text_from(Seq::empty(), events@),
{
    let mut acc: Vec<char> = Vec::new();
    let mut i: usize = 0;
    assert(events@.skip(0) == events@);
    while i < events.len()
        invariant
            0 <= i <= events.len(),
            stream_text_from(acc@, events@.skip(i as int)) == stream_text_from(Seq::empty(), events@),
        decreases events.len() - i,
    {
        assert(events@.skip(i as int).drop_first() == events@.skip(i + 1));
        assert(events@.skip(i as int)[0] == events@[i as int]);
        match &events[i] {
            ModelStreamEvent::OutputTextDelta(d) => {
                append_str(&mut acc, d.as_str());
            },
            ModelStreamEvent::OutputItemDone(item) => {
                if acc.len() == 0 {
                    match item {
                        ResponseItem::Message { content, .. } => match content_items_to_text(
                            content.as_slice(),
                        ) {
                            Some(t) => {
                                append_str(&mut acc, t.as_str());
                                assert(acc@ =~= t@);
                            },
                            None => {},
                        },
                        _ => {},
                    }
                }
            },
            ModelStreamEvent::Completed => {
                return string_from_chars(acc.as_slice());
            },
            ModelStreamEvent::Other => {},
        }
        i = i + 1;
    }
    string_from_chars(acc.as_slice())
}

/// Whether `r` is the extraction run on a compaction's leaf summary: the
/// summarised items' latest user message and evidence, the summary node as
/// its only source node.
pub open spec fn is_compaction_input(
    head: Seq<ItemView>,
    summary_node_id: Seq<char>,
    summary_text: Seq<char>,
    source_event_ids: Seq<Seq<char>>,
    source_token_count: u32,
    summary_token_count: u32,
    mirror_to_thoughts: bool,
    r: DurableMemoryExtractionInput,
) -> bool {
    &&& opt_text(r.source_summary_node_id) == Some(summary_node_id)
    &&& opt_text(r.latest_user_message) == latest_user_text(head)
    &&& r.summary_text@ == summary_text
    &&& opt_text(r.evidence_text) == spec_evidence(head)
    &&& strings_view(r.source_node_ids@) == seq![summary_node_id]
    &&& strings_view(r.source_event_ids@) == source_event_ids
    &&& r.source_token_count == Some(source_token_count)
    &&& r.summary_token_count == Some(summary_token_count)
    &&& r.promotion_source@ == "active compaction"@
    &&& r.supersede_node_ids@.len() == 0
    &&& r.mirror_to_thoughts == mirror_to_thoughts
}

/// The extraction run on the leaf summary a compaction created.
pub fn compaction_extraction_input(
    head: &[ResponseItem],
    leaf_summary: &OpenBrainLeafSummary,
    summary_text: &str,
    source_event_ids: &[String],
    source_token_count: u32,
    summary_token_count: u32,
    mirror_to_thoughts: bool,
) -> (r: DurableMemoryExtractionInput)
    ensures
        is_compaction_input(
            items_view(head@),
            leaf_summary.summary_node_id@,
            summary_text@,
            strings_view(source_event_ids@),
            source_token_count,
            summary_token_count,
            mirror_to_thoughts,
            r,
        ),
{
    let sources = vec![leaf_summary.summary_node_id.clone()];
    assert(strings_view(sources@) =~= seq![leaf_summary.summary_node_id@]);
    DurableMemoryExtractionInput {
        source_summary_node_id: Some(leaf_summary.summary_node_id.clone()),
        latest_user_message: latest_user_message_text(head),
        summary_text: owned(summary_text),
        evidence_text: evidence_text(head),
        source_node_ids: sources,
        source_event_ids: copy_texts(source_event_ids),
        source_token_count: Some(source_token_count),
        summary_token_count: Some(summary_token_count),
        promotion_source: owned("active compaction"),
        supersede_node_ids: Vec::new(),
        mirror_to_thoughts,
    }
}

/// Whether `r` is the extraction run on a stored summary that was never
/// promoted: its title's user message, its content, the summary node as its
/// only source node.
pub open spec fn is_backfill_input(candidate: CandidateView, mirror_to_thoughts: bool, r: DurableMemoryExtractionInput) -> bool {
    &&& opt_text(r.source_summary_node_id) == Some(candidate.summary_node_id)
    &&& opt_text(r.latest_user_message) == spec_candidate_title(candidate.title)
    &&& r.summary_text@ == candidate.content
    &&& r.evidence_text is None
    &&& strings_view(r.source_node_ids@) == seq![candidate.summary_node_id]
    &&& strings_view(r.source_event_ids@) == candidate.source_event_ids
    &&& r.source_token_count == candidate.source_token_count
    &&& r.summary_token_count == candidate.summary_token_count
    &&& r.promotion_source@ == "startup backfill"@
    &&& r.supersede_node_ids@.len() == 0
    &&& r.mirror_to_thoughts == mirror_to_thoughts
}

/// The extraction run on a stored summary that was never promoted.
pub fn backfill_extraction_input(candidate: &OpenBrainDurableMemoryCandidate, mirror_to_thoughts: bool) -> (r:
    DurableMemoryExtractionInput)
    ensures
        is_backfill_input(candidate@, mirror_to_thoughts, r),
{
    let sources = vec![candidate.summary_node_id.clone()];
    assert(strings_view(sources@) =~= seq![candidate.summary_node_id@]);
    DurableMemoryExtractionInput {
        source_summary_node_id: Some(candidate.summary_node_id.clone()),
        latest_user_message: normalized_candidate_title(candidate.title.as_str()),
        summary_text: candidate.content.clone(),
        evidence_text: None,
        source_node_ids: sources,
        source_event_ids: copy_texts(candidate.source_event_ids.as_slice()),
        source_token_count: candidate.source_token_count,
        summary_token_count: candidate.summary_token_count,
        promotion_source: owned("startup backfill"),
        supersede_node_ids: Vec::new(),
        mirror_to_thoughts,
    }
}

/// The promotion mode of a thread given what the state store answered:
/// promotion is enabled when there is no store or the lookup failed.
pub open spec fn mode_from_lookup_is(lookup: Option<Result<Option<Seq<char>>, Seq<char>>>, r: LcmMemoryPromotionMode) -> bool {
    match lookup {
        Some(Ok(mode)) => resolved_mode_is(mode, r),
        _ => r is Enabled,
    }
}

pub open spec fn lookup_view(lookup: Option<Result<Option<String>, String>>) -> Option<Result<Option<Seq<char>>, Seq<char>>> {
    match lookup {
        None => None,
        Some(Ok(m)) => Some(Ok(opt_text(m))),
        Some(Err(e)) => Some(Err(e@)),
    }
}

/// The promotion mode of a thread from the state store's answer: `None`
/// when there is no store, else the lookup's result.
pub fn promotion_mode_from_lookup(lookup: &Option<Result<Option<String>, String>>) -> (r: LcmMemoryPromotionMode)
    ensures
        mode_from_lookup_is(lookup_view(*lookup), r),
{
    match lookup {
        Some(Ok(mode)) => match mode {
            Some(m) => resolve_memory_promotion_mode(Some(m.as_str())),
            None => resolve_memory_promotion_mode(None),
        },
        _ => LcmMemoryPromotionMode::Enabled,
    }
}

/// What happened in a promotion run.
#[derive(Debug, PartialEq)]
pub enum PromotionEvent {
    /// The run begins.
    Start,
    /// The extraction answered: the records to promote, or why it failed.
    Extracted(Result<Vec<OpenBrainDurableMemoryRecord>, String>),
    /// The store answered the promotion of `records`: how many it inserted,
    /// or why it failed.
    Promoted { records: Vec<OpenBrainDurableMemoryRecord>, result: Result<usize, String> },
}

/// What a promotion run does next.
#[derive(Debug, PartialEq)]
pub enum PromotionAction {
    /// Run the extraction model.
    Extract,
    /// Ask the store to promote these records.
    Promote(Vec<OpenBrainDurableMemoryRecord>),
    /// Stop, showing the notice if there is one.
    Finish(Option<String>),
}

/// The notice a run finishes with, as text.
pub open spec fn finish_notice(r: PromotionAction) -> Option<Option<Seq<char>>> {
    match r {
        PromotionAction::Finish(m) => Some(opt_text(m)),
        _ => None,
    }
}

/// The next step of a promotion run: a blank summary is not extracted from;
/// an extraction that yields nothing stops; records are promoted; and a
/// notice is shown, when `notify` is set, for a failure or for a promotion
/// that inserted something.
pub fn promotion_step(input: &DurableMemoryExtractionInput, event: PromotionEvent, notify: bool) -> (r:
    PromotionAction)
    ensures
        match event {
            PromotionEvent::Start => if trim(input.summary_text@).len() == 0 {
                finish_notice(r) == Some(None::<Seq<char>>)
            } else {
                r is Extract
            },
            PromotionEvent::Extracted(Err(e)) => finish_notice(r) == Some(
                if notify {
                    Some("LCM durable-memory extraction failed: "@ + e@)
                } else {
                    None
                },
            ),
            PromotionEvent::Extracted(Ok(records)) => if records@.len() == 0 {
                finish_notice(r) == Some(None::<Seq<char>>)
            } else {
                r == PromotionAction::Promote(records)
            },
            PromotionEvent::Promoted { records, result } => match result {
                Ok(n) => finish_notice(r) == Some(
                    if n > 0 && notify {
                        Some(spec_promoted_notice(records@))
                    } else {
                        None
                    },
                ),
                Err(e) => finish_notice(r) == Some(
                    if notify {
                        Some("LCM durable-memory promotion failed: "@ + e@)
                    } else {
                        None
                    },
                ),
            },
        },
{
    match event {
        PromotionEvent::Start => {
            let c = chars_of(input.summary_text.as_str());
            let (a, b) = trim_bounds(c.as_slice());
            if a < b {
                PromotionAction::Extract
            } else {
                PromotionAction::Finish(None)
            }
        },
        PromotionEvent::Extracted(Err(e)) => if notify {
            PromotionAction::Finish(Some(concat2("LCM durable-memory extraction failed: ", e.as_str())))
        } else {
            PromotionAction::Finish(None)
        },
        PromotionEvent::Extracted(Ok(records)) => if records.len() == 0 {
            PromotionAction::Finish(None)
        } else {
            PromotionAction::Promote(records)
        },
        PromotionEvent::Promoted { records, result } => match result {
            Ok(n) => if n > 0 && notify {
                PromotionAction::Finish(Some(promoted_records_notice(records.as_slice())))
            } else {
                PromotionAction::Finish(None)
            },
            Err(e) => if notify {
                PromotionAction::Finish(Some(concat2("LCM durable-memory promotion failed: ", e.as_str())))
            } else {
                PromotionAction::Finish(None)
            },
        },
    }
}

/// A normalised title is at most 97 characters long (96 and an ellipsis).
pub proof fn law_normalized_title_is_bounded(title: Seq<char>)
    ensures
        spec_normalize_title(title) matches Some(t) ==> t.len() <= 97,
{
    let marked = strip_marks(trim(title));
    if marked.len() > 0 {
        crate::lcm::law_preview_is_bounded(strip_title_label(marked), 96);
    }
}

/// The memory types kept are exactly the five the extraction is asked for
/// (`decision`, `constraint`, `known_issue`, `implementation_status`,
/// `operator_preference`), after trimming; any other value is refused.
pub proof fn law_memory_types_are_the_five_allowed(value: Seq<char>)
    ensures
        ({
            let t = trim(value);
            let allowed = t == "decision"@ || t == "constraint"@ || t == "known_issue"@ || t
                == "implementation_status"@ || t == "operator_preference"@;
            &&& allowed ==> spec_memory_type(value) == Some(t)
            &&& !allowed ==> spec_memory_type(value) is None
        }),
{
}

} // verus!
