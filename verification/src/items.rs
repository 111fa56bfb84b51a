//! The conversation items the library reasons about: model responses,
//! tool calls and their outputs, as plain values.
use vstd::prelude::*;
use crate::text::{chars_of, join, join_strings, string_from_chars, strings_view, trim, trim_bounds, trimmed};

verus! {

/// One segment of a message.
#[derive(Clone, Debug, PartialEq, Eq)]
pub enum ContentItem {
    InputText { text: String },
    InputImage { image_url: String },
    OutputText { text: String },
}

/// One item of a conversation history.
///
/// Text-valued payloads (tool outputs, shell actions and statuses, web
/// search actions) are held as the text they render to.
#[derive(Clone, Debug, PartialEq, Eq)]
pub enum ResponseItem {
    Message { id: Option<String>, role: String, content: Vec<ContentItem> },
    Reasoning { id: String, summary: Vec<String> },
    LocalShellCall { call_id: Option<String>, status: String, action: String },
    FunctionCall { name: String, arguments: String, call_id: String },
    FunctionCallOutput { call_id: String, output: String },
    CustomToolCall { call_id: String, name: String, input: String },
    CustomToolCallOutput { call_id: String, name: Option<String>, output: String },
    ToolSearchCall { call_id: Option<String>, execution: String, arguments: String },
    ToolSearchOutput { call_id: Option<String>, status: String, execution: String, tools: Vec<String> },
    WebSearchCall { id: Option<String>, action: String },
    ImageGenerationCall { id: String },
    GhostSnapshot,
    Compaction { encrypted_content: String },
    Other,
}

/// One piece of user input to a turn.
#[derive(Clone, Debug, PartialEq, Eq)]
pub enum UserInput {
    Text { text: String },
    Image { image_url: String },
}

/// The mathematical value of a [`ContentItem`].
pub enum ContentView {
    InputText(Seq<char>),
    InputImage(Seq<char>),
    OutputText(Seq<char>),
}

/// The mathematical value of a [`ResponseItem`].
pub enum ItemView {
    Message { id: Option<Seq<char>>, role: Seq<char>, content: Seq<ContentView> },
    Reasoning { id: Seq<char>, summary: Seq<Seq<char>> },
    LocalShellCall { call_id: Option<Seq<char>>, status: Seq<char>, action: Seq<char> },
    FunctionCall { name: Seq<char>, arguments: Seq<char>, call_id: Seq<char> },
    FunctionCallOutput { call_id: Seq<char>, output: Seq<char> },
    CustomToolCall { call_id: Seq<char>, name: Seq<char>, input: Seq<char> },
    CustomToolCallOutput { call_id: Seq<char>, name: Option<Seq<char>>, output: Seq<char> },
    ToolSearchCall { call_id: Option<Seq<char>>, execution: Seq<char>, arguments: Seq<char> },
    ToolSearchOutput {
        call_id: Option<Seq<char>>,
        status: Seq<char>,
        execution: Seq<char>,
        tools: Seq<Seq<char>>,
    },
    WebSearchCall { id: Option<Seq<char>>, action: Seq<char> },
    ImageGenerationCall { id: Seq<char> },
    GhostSnapshot,
    Compaction { encrypted_content: Seq<char> },
    Other,
}

pub open spec fn opt_view(o: Option<String>) -> Option<Seq<char>> {
    match o {
        Some(s) => Some(s@),
        None => None,
    }
}

impl View for ContentItem {
    type V = ContentView;

    open spec fn view(&self) -> ContentView {
        match self {
            ContentItem::InputText { text } => ContentView::InputText(text@),
            ContentItem::InputImage { image_url } => ContentView::InputImage(image_url@),
            ContentItem::OutputText { text } => ContentView::OutputText(text@),
        }
    }
}

pub open spec fn contents_view(v: Seq<ContentItem>) -> Seq<ContentView> {
    v.map_values(|c: ContentItem| c@)
}

impl View for ResponseItem {
    type V = ItemView;

    open spec fn view(&self) -> ItemView {
        match self {
            ResponseItem::Message { id, role, content } => ItemView::Message {
                id: opt_view(*id),
                role: role@,
                content: contents_view(content@),
            },
            ResponseItem::Reasoning { id, summary } => ItemView::Reasoning {
                id: id@,
                summary: strings_view(summary@),
            },
            ResponseItem::LocalShellCall { call_id, status, action } => ItemView::LocalShellCall {
                call_id: opt_view(*call_id),
                status: status@,
                action: action@,
            },
            ResponseItem::FunctionCall { name, arguments, call_id } => ItemView::FunctionCall {
                name: name@,
                arguments: arguments@,
                call_id: call_id@,
            },
            ResponseItem::FunctionCallOutput { call_id, output } => ItemView::FunctionCallOutput {
                call_id: call_id@,
                output: output@,
            },
            ResponseItem::CustomToolCall { call_id, name, input } => ItemView::CustomToolCall {
                call_id: call_id@,
                name: name@,
                input: input@,
            },
            ResponseItem::CustomToolCallOutput { call_id, name, output } =>
                ItemView::CustomToolCallOutput {
                call_id: call_id@,
                name: opt_view(*name),
                output: output@,
            },
            ResponseItem::ToolSearchCall { call_id, execution, arguments } =>
                ItemView::ToolSearchCall {
                call_id: opt_view(*call_id),
                execution: execution@,
                arguments: arguments@,
            },
            ResponseItem::ToolSearchOutput { call_id, status, execution, tools } =>
                ItemView::ToolSearchOutput {
                call_id: opt_view(*call_id),
                status: status@,
                execution: execution@,
                tools: strings_view(tools@),
            },
            ResponseItem::WebSearchCall { id, action } => ItemView::WebSearchCall {
                id: opt_view(*id),
                action: action@,
            },
            ResponseItem::ImageGenerationCall { id } => ItemView::ImageGenerationCall { id: id@ },
            ResponseItem::GhostSnapshot => ItemView::GhostSnapshot,
            ResponseItem::Compaction { encrypted_content } => ItemView::Compaction {
                encrypted_content: encrypted_content@,
            },
            ResponseItem::Other => ItemView::Other,
        }
    }
}

pub open spec fn items_view(v: Seq<ResponseItem>) -> Seq<ItemView> {
    v.map_values(|i: ResponseItem| i@)
}

pub fn copy_opt(o: &Option<String>) -> (r: Option<String>)
    ensures
        opt_view(r) == opt_view(*o),
{
    match o {
        Some(s) => Some(s.clone()),
        None => None,
    }
}

pub fn copy_texts(v: &[String]) -> (r: Vec<String>)
    ensures
        strings_view(r@) == strings_view(v@),
{
    let mut r: Vec<String> = Vec::new();
    for i in 0..v.len()
        invariant
            strings_view(r@) == strings_view(v@.take(i as int)),
    {
        let ghost before = r@;
        r.push(v[i].clone());
        assert(strings_view(r@) == strings_view(before).push(v@[i as int]@));
        assert(v@.take(i + 1) == v@.take(i as int).push(v@[i as int]));
        assert(strings_view(v@.take(i + 1)) =~= strings_view(v@.take(i as int)).push(v@[i as int]@));
    }
    assert(v@.take(v.len() as int) == v@);
    r
}

impl ContentItem {
    /// A copy with the same value.
    pub fn duplicate(&self) -> (r: ContentItem)
        ensures
            r@ == self@,
    {
        match self {
            ContentItem::InputText { text } => ContentItem::InputText { text: text.clone() },
            ContentItem::InputImage { image_url } => ContentItem::InputImage {
                image_url: image_url.clone(),
            },
            ContentItem::OutputText { text } => ContentItem::OutputText { text: text.clone() },
        }
    }
}

pub fn copy_contents(v: &Vec<ContentItem>) -> (r: Vec<ContentItem>)
    ensures
        contents_view(r@) == contents_view(v@),
{
    let mut r: Vec<ContentItem> = Vec::new();
    for i in 0..v.len()
        invariant
            contents_view(r@) == contents_view(v@.take(i as int)),
    {
        let ghost before = r@;
        r.push(v[i].duplicate());
        assert(contents_view(r@) == contents_view(before).push(v@[i as int]@));
        assert(v@.take(i + 1) == v@.take(i as int).push(v@[i as int]));
        assert(contents_view(v@.take(i + 1)) =~= contents_view(v@.take(i as int)).push(
            v@[i as int]@,
        ));
    }
    assert(v@.take(v.len() as int) == v@);
    r
}

impl ResponseItem {
    /// A copy with the same value.
    pub fn duplicate(&self) -> (r: ResponseItem)
        ensures
            r@ == self@,
    {
        match self {
            ResponseItem::Message { id, role, content } => ResponseItem::Message {
                id: copy_opt(id),
                role: role.clone(),
                content: copy_contents(content),
            },
            ResponseItem::Reasoning { id, summary } => ResponseItem::Reasoning {
                id: id.clone(),
                summary: copy_texts(summary.as_slice()),
            },
            ResponseItem::LocalShellCall { call_id, status, action } =>
                ResponseItem::LocalShellCall {
                call_id: copy_opt(call_id),
                status: status.clone(),
                action: action.clone(),
            },
            ResponseItem::FunctionCall { name, arguments, call_id } => ResponseItem::FunctionCall {
                name: name.clone(),
                arguments: arguments.clone(),
                call_id: call_id.clone(),
            },
            ResponseItem::FunctionCallOutput { call_id, output } =>
                ResponseItem::FunctionCallOutput { call_id: call_id.clone(), output: output.clone() },
            ResponseItem::CustomToolCall { call_id, name, input } =>
                ResponseItem::CustomToolCall {
                call_id: call_id.clone(),
                name: name.clone(),
                input: input.clone(),
            },
            ResponseItem::CustomToolCallOutput { call_id, name, output } =>
                ResponseItem::CustomToolCallOutput {
                call_id: call_id.clone(),
                name: copy_opt(name),
                output: output.clone(),
            },
            ResponseItem::ToolSearchCall { call_id, execution, arguments } =>
                ResponseItem::ToolSearchCall {
                call_id: copy_opt(call_id),
                execution: execution.clone(),
                arguments: arguments.clone(),
            },
            ResponseItem::ToolSearchOutput { call_id, status, execution, tools } =>
                ResponseItem::ToolSearchOutput {
                call_id: copy_opt(call_id),
                status: status.clone(),
                execution: execution.clone(),
                tools: copy_texts(tools.as_slice()),
            },
            ResponseItem::WebSearchCall { id, action } => ResponseItem::WebSearchCall {
                id: copy_opt(id),
                action: action.clone(),
            },
            ResponseItem::ImageGenerationCall { id } => ResponseItem::ImageGenerationCall {
                id: id.clone(),
            },
            ResponseItem::GhostSnapshot => ResponseItem::GhostSnapshot,
            ResponseItem::Compaction { encrypted_content } => ResponseItem::Compaction {
                encrypted_content: encrypted_content.clone(),
            },
            ResponseItem::Other => ResponseItem::Other,
        }
    }
}

/// A copy of `v[a..b]`.
pub fn copy_items(v: &[ResponseItem], a: usize, b: usize) -> (r: Vec<ResponseItem>)
    requires
        a <= b <= v.len(),
    ensures
        items_view(r@) == items_view(v@.subrange(a as int, b as int)),
{
    let mut r: Vec<ResponseItem> = Vec::new();
    let mut i: usize = a;
    while i < b
        invariant
            a <= i <= b <= v.len(),
            items_view(r@) == items_view(v@.subrange(a as int, i as int)),
        decreases b - i,
    {
        let ghost before = r@;
        r.push(v[i].duplicate());
        assert(items_view(r@) == items_view(before).push(v@[i as int]@));
        assert(v@.subrange(a as int, i + 1) == v@.subrange(a as int, i as int).push(v@[i as int]));
        assert(items_view(v@.subrange(a as int, i + 1)) =~= items_view(
            v@.subrange(a as int, i as int),
        ).push(v@[i as int]@));
        i = i + 1;
    }
    r
}


/// The non-blank text segments of a message, each trimmed.
pub open spec fn content_texts(cs: Seq<ContentView>) -> Seq<Seq<char>>
    decreases cs.len(),
{
    if cs.len() == 0 {
        Seq::empty()
    } else {
        content_texts(cs.drop_last()) + match cs.last() {
            ContentView::InputText(t) => if trim(t).len() > 0 {
                seq![trim(t)]
            } else {
                Seq::empty()
            },
            ContentView::OutputText(t) => if trim(t).len() > 0 {
                seq![trim(t)]
            } else {
                Seq::empty()
            },
            ContentView::InputImage(_) => Seq::empty(),
        }
    }
}

/// The text of a message: its non-blank text segments, trimmed, one per
/// line; nothing when there is none.
pub open spec fn spec_content_text(cs: Seq<ContentView>) -> Option<Seq<char>> {
    let joined = join(content_texts(cs), seq!['\n']);
    if trim(joined).len() > 0 {
        Some(joined)
    } else {
        None
    }
}

pub open spec fn opt_text(o: Option<String>) -> Option<Seq<char>> {
    match o {
        Some(s) => Some(s@),
        None => None,
    }
}

/// The text of the given message segments.
pub fn content_items_to_text(items: &[ContentItem]) -> (r: Option<String>)
    ensures
        opt_text(r) == spec_content_text(contents_view(items@)),
{
    let ghost cv = contents_view(items@);
    let mut parts: Vec<String> = Vec::new();
    let mut i: usize = 0;
    while i < items.len()
        invariant
            0 <= i <= items.len(),
            cv == contents_view(items@),
            strings_view(parts@) == content_texts(cv.take(i as int)),
        decreases items.len() - i,
    {
        assert(cv.take(i + 1).drop_last() == cv.take(i as int));
        assert(cv.take(i + 1).last() == items@[i as int]@);
        let ghost before = parts@;
        match &items[i] {
            ContentItem::InputText { text } | ContentItem::OutputText { text } => {
                let c = chars_of(text.as_str());
                let t = trimmed(c.as_slice());
                if t.len() > 0 {
                    parts.push(string_from_chars(t.as_slice()));
                    assert(strings_view(parts@) == strings_view(before).push(t@));
                }
            },
            ContentItem::InputImage { .. } => {},
        }
        i = i + 1;
    }
    assert(cv.take(items.len() as int) == cv);
    let sep: Vec<char> = vec!['\n'];
    assert(sep@ =~= seq!['\n']);
    let joined = join_strings(parts.as_slice(), sep.as_slice());
    let (a, b) = trim_bounds(joined.as_slice());
    if a < b {
        Some(string_from_chars(joined.as_slice()))
    } else {
        None
    }
}

} // verus!
