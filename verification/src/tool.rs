//! Tools: descriptors the registry holds, the result of a tool call,
//! and the conversions that turn a typed handler's output into that
//! result.
//!
//! A tool's behaviour is asynchronous user code and runs outside the
//! library; the engine works with the descriptor (name, description,
//! input schema text, annotations) and with the [`CallToolResult`] the
//! run produced.  An argument-parse failure is reported inside the
//! result, never as a protocol error.

use vstd::prelude::*;
use crate::codec::{json_to_string, spec_print};
use crate::json::{
    JsonValue, SpecJson, i64_string, spec_int_chars, view_json, view_json_entries,
    lemma_view_json_entries_push,
};

verus! {

/// Behavioural hints a tool advertises.
#[derive(Debug, PartialEq)]
pub struct ToolAnnotations {
    pub title: Option<String>,
    pub read_only_hint: Option<bool>,
    pub destructive_hint: Option<bool>,
    pub idempotent_hint: Option<bool>,
    pub open_world_hint: Option<bool>,
}

/// Model of the annotations.
#[verifier::ext_equal]
pub ghost struct SpecAnnotations {
    pub title: Option<Seq<char>>,
    pub read_only_hint: Option<bool>,
    pub destructive_hint: Option<bool>,
    pub idempotent_hint: Option<bool>,
    pub open_world_hint: Option<bool>,
}

impl View for ToolAnnotations {
    type V = SpecAnnotations;

    open spec fn view(&self) -> SpecAnnotations {
        SpecAnnotations {
            title: match self.title {
                Some(t) => Some(t@),
                None => None,
            },
            read_only_hint: self.read_only_hint,
            destructive_hint: self.destructive_hint,
            idempotent_hint: self.idempotent_hint,
            open_world_hint: self.open_world_hint,
        }
    }
}

impl ToolAnnotations {
    /// Annotations with no hints set.
    pub fn none() -> (r: ToolAnnotations)
        ensures
            r@ == (SpecAnnotations {
                title: None::<Seq<char>>,
                read_only_hint: None::<bool>,
                destructive_hint: None::<bool>,
                idempotent_hint: None::<bool>,
                open_world_hint: None::<bool>,
            }),
    {
        ToolAnnotations {
            title: None,
            read_only_hint: None,
            destructive_hint: None,
            idempotent_hint: None,
            open_world_hint: None,
        }
    }
}

/// The JSON object entries of annotations: one camel-case key per set
/// hint, in the wire order.
pub open spec fn spec_annotations_entries(a: SpecAnnotations) -> Seq<(Seq<char>, SpecJson)> {
    (match a.destructive_hint {
        Some(b) => seq![("destructiveHint"@, SpecJson::Bool(b))],
        None => Seq::empty(),
    }) + (match a.idempotent_hint {
        Some(b) => seq![("idempotentHint"@, SpecJson::Bool(b))],
        None => Seq::empty(),
    }) + (match a.open_world_hint {
        Some(b) => seq![("openWorldHint"@, SpecJson::Bool(b))],
        None => Seq::empty(),
    }) + (match a.read_only_hint {
        Some(b) => seq![("readOnlyHint"@, SpecJson::Bool(b))],
        None => Seq::empty(),
    }) + (match a.title {
        Some(t) => seq![("title"@, SpecJson::Str(t))],
        None => Seq::empty(),
    })
}

/// The JSON value of annotations.
#[verifier::rlimit(100)]
pub fn annotations_json(a: &ToolAnnotations) -> (r: JsonValue)
    ensures
        r@ == SpecJson::Obj(spec_annotations_entries(a@)),
{
    let mut e: Vec<(String, JsonValue)> = Vec::new();
    proof {
        assert(view_json_entries(e@) =~= Seq::<(Seq<char>, SpecJson)>::empty());
    }
    match &a.destructive_hint {
        Some(b) => {
            let k = String::from_str("destructiveHint");
            proof {
                lemma_view_json_entries_push(e@, k, JsonValue::Bool(*b));
            }
            e.push((k, JsonValue::Bool(*b)));
        },
        None => {},
    }
    match &a.idempotent_hint {
        Some(b) => {
            let k = String::from_str("idempotentHint");
            proof {
                lemma_view_json_entries_push(e@, k, JsonValue::Bool(*b));
            }
            e.push((k, JsonValue::Bool(*b)));
        },
        None => {},
    }
    match &a.open_world_hint {
        Some(b) => {
            let k = String::from_str("openWorldHint");
            proof {
                lemma_view_json_entries_push(e@, k, JsonValue::Bool(*b));
            }
            e.push((k, JsonValue::Bool(*b)));
        },
        None => {},
    }
    match &a.read_only_hint {
        Some(b) => {
            let k = String::from_str("readOnlyHint");
            proof {
                lemma_view_json_entries_push(e@, k, JsonValue::Bool(*b));
            }
            e.push((k, JsonValue::Bool(*b)));
        },
        None => {},
    }
    match &a.title {
        Some(t) => {
            let k = String::from_str("title");
            let v = JsonValue::Str(t.clone());
            proof {
                lemma_view_json_entries_push(e@, k, v);
            }
            e.push((k, v));
        },
        None => {},
    }
    proof {
        assert(view_json_entries(e@) =~~= spec_annotations_entries(a@));
    }
    JsonValue::Obj(e)
}

/// A registry entry: what the engine knows about one tool.
#[derive(Debug, PartialEq)]
pub struct ToolDescriptor {
    /// Unique, non-empty name.
    pub name: String,
    /// Human-readable description.
    pub description: String,
    /// The input schema as JSON text; must parse to a JSON object.
    pub input_schema: String,
    pub annotations: ToolAnnotations,
}

/// Model of a registry entry.
#[verifier::ext_equal]
pub ghost struct SpecTool {
    pub name: Seq<char>,
    pub description: Seq<char>,
    pub input_schema: Seq<char>,
    pub annotations: SpecAnnotations,
}

impl View for ToolDescriptor {
    type V = SpecTool;

    open spec fn view(&self) -> SpecTool {
        SpecTool {
            name: self.name@,
            description: self.description@,
            input_schema: self.input_schema@,
            annotations: self.annotations@,
        }
    }
}

/// Text handed back to the client.
#[derive(Debug, PartialEq)]
pub struct TextContent {
    pub text: String,
}

/// An image handed back to the client, base64 text plus media type.
#[derive(Debug, PartialEq)]
pub struct ImageContent {
    pub data: String,
    pub mime_type: String,
}

/// Audio handed back to the client, base64 text plus media type.
#[derive(Debug, PartialEq)]
pub struct AudioContent {
    pub data: String,
    pub mime_type: String,
}

/// A resource embedded in a tool result.
#[derive(Debug, PartialEq)]
pub struct EmbeddedResource {
    pub resource: JsonValue,
}

/// One piece of a tool result.
#[derive(Debug, PartialEq)]
pub enum CallToolResultContent {
    TextContent(TextContent),
    ImageContent(ImageContent),
    AudioContent(AudioContent),
    EmbeddedResource(EmbeddedResource),
}

/// Model of one piece of a tool result.
#[verifier::ext_equal]
pub ghost enum SpecContent {
    Text(Seq<char>),
    Image(Seq<char>, Seq<char>),
    Audio(Seq<char>, Seq<char>),
    Embedded(SpecJson),
}

impl View for CallToolResultContent {
    type V = SpecContent;

    open spec fn view(&self) -> SpecContent {
        match self {
            CallToolResultContent::TextContent(t) => SpecContent::Text(t.text@),
            CallToolResultContent::ImageContent(i) => SpecContent::Image(i.data@, i.mime_type@),
            CallToolResultContent::AudioContent(a) => SpecContent::Audio(a.data@, a.mime_type@),
            CallToolResultContent::EmbeddedResource(e) => SpecContent::Embedded(view_json(
                e.resource,
            )),
        }
    }
}

/// What a tool call produced.
#[derive(Debug, PartialEq)]
pub struct CallToolResult {
    pub content: Vec<CallToolResultContent>,
    /// Whether the tool itself failed; carried here, never as a
    /// protocol error.
    pub is_error: Option<bool>,
    pub meta: Option<Vec<(String, JsonValue)>>,
    /// Additional object keys that are not part of the schema.
    pub extra: Vec<(String, JsonValue)>,
}

/// Model of a tool result.
#[verifier::ext_equal]
pub ghost struct SpecCallToolResult {
    pub content: Seq<SpecContent>,
    pub is_error: Option<bool>,
    pub meta: Option<Seq<(Seq<char>, SpecJson)>>,
    pub extra: Seq<(Seq<char>, SpecJson)>,
}

/// Model of a content sequence, element by element.
pub open spec fn view_content_seq(items: Seq<CallToolResultContent>) -> Seq<SpecContent>
    decreases items,
{
    if items.len() == 0 {
        Seq::empty()
    } else {
        seq![items[0]@] + view_content_seq(items.drop_first())
    }
}

/// The content view commutes with indexing.
pub proof fn lemma_view_content_seq(items: Seq<CallToolResultContent>)
    ensures
        view_content_seq(items).len() == items.len(),
        forall|i: int| 0 <= i < items.len() ==> view_content_seq(items)[i] == (
        #[trigger] items[i])@,
    decreases items,
{
    if items.len() > 0 {
        lemma_view_content_seq(items.drop_first());
        assert forall|i: int| 0 <= i < items.len() implies view_content_seq(items)[i] == (
        #[trigger] items[i])@ by {
            if i > 0 {
                assert(items.drop_first()[i - 1] == items[i]);
                assert(view_content_seq(items)[i] == view_content_seq(items.drop_first())[i - 1]);
            }
        }
    }
}

impl View for CallToolResult {
    type V = SpecCallToolResult;

    open spec fn view(&self) -> SpecCallToolResult {
        SpecCallToolResult {
            content: view_content_seq(self.content@),
            is_error: self.is_error,
            meta: match self.meta {
                Some(m) => Some(view_json_entries(m@)),
                None => None,
            },
            extra: view_json_entries(self.extra@),
        }
    }
}

impl CallToolResult {
    /// A result carrying one text item, not an error.
    pub fn text(text: String) -> (r: CallToolResult)
        ensures
            r@ == (SpecCallToolResult {
                content: seq![SpecContent::Text(text@)],
                is_error: None::<bool>,
                meta: None::<Seq<(Seq<char>, SpecJson)>>,
                extra: Seq::<(Seq<char>, SpecJson)>::empty(),
            }),
    {
        let mut content: Vec<CallToolResultContent> = Vec::new();
        content.push(CallToolResultContent::TextContent(TextContent { text }));
        let r = CallToolResult { content, is_error: None, meta: None, extra: Vec::new() };
        proof {
            assert(r.content@.drop_first() =~= Seq::<CallToolResultContent>::empty());
            assert(view_content_seq(Seq::<CallToolResultContent>::empty()) == Seq::<
                SpecContent,
            >::empty());
            assert(view_content_seq(r.content@) =~= seq![r.content@[0]@]);
            assert(view_json_entries(r.extra@) =~= Seq::<(Seq<char>, SpecJson)>::empty());
            assert(r@ =~~= SpecCallToolResult {
                content: seq![SpecContent::Text(r.content@[0]->TextContent_0.text@)],
                is_error: None::<bool>,
                meta: None::<Seq<(Seq<char>, SpecJson)>>,
                extra: Seq::<(Seq<char>, SpecJson)>::empty(),
            });
        }
        r
    }
}

/// The result a typed tool reports when its arguments do not parse:
/// one text item `Error: parsing input: <detail>`, marked as a tool
/// error.  This never becomes a protocol-level error reply.
pub fn tool_parse_failure_result(detail: &str) -> (r: CallToolResult)
    ensures
        r@.content == seq![SpecContent::Text("Error: parsing input: "@ + detail@)],
        r@.is_error == Some(true),
        r@.meta is None,
        r@.extra == Seq::<(Seq<char>, SpecJson)>::empty(),
{
    let text = String::from_str("Error: parsing input: ").concat(detail);
    let mut content: Vec<CallToolResultContent> = Vec::new();
    content.push(CallToolResultContent::TextContent(TextContent { text }));
    let r = CallToolResult { content, is_error: Some(true), meta: None, extra: Vec::new() };
    proof {
        assert(r.content@.drop_first() =~= Seq::<CallToolResultContent>::empty());
        assert(view_content_seq(Seq::<CallToolResultContent>::empty()) == Seq::<
            SpecContent,
        >::empty());
        assert(view_content_seq(r.content@) =~= seq![r.content@[0]@]);
        assert(view_json_entries(r.extra@) =~= Seq::<(Seq<char>, SpecJson)>::empty());
        assert(r@.content =~~= seq![SpecContent::Text("Error: parsing input: "@ + detail@)]);
    }
    r
}

/// The wire entries of one content item: a `type` tag, then its fields.
pub open spec fn spec_content_json(c: SpecContent) -> SpecJson {
    match c {
        SpecContent::Text(t) => SpecJson::Obj(
            seq![("type"@, SpecJson::Str("text"@)), ("text"@, SpecJson::Str(t))],
        ),
        SpecContent::Image(d, m) => SpecJson::Obj(
            seq![
                ("type"@, SpecJson::Str("image"@)),
                ("data"@, SpecJson::Str(d)),
                ("mimeType"@, SpecJson::Str(m)),
            ],
        ),
        SpecContent::Audio(d, m) => SpecJson::Obj(
            seq![
                ("type"@, SpecJson::Str("audio"@)),
                ("data"@, SpecJson::Str(d)),
                ("mimeType"@, SpecJson::Str(m)),
            ],
        ),
        SpecContent::Embedded(r) => SpecJson::Obj(
            seq![("type"@, SpecJson::Str("resource"@)), ("resource"@, r)],
        ),
    }
}

/// The JSON values of a content sequence.
pub open spec fn spec_content_list(cs: Seq<SpecContent>) -> Seq<SpecJson>
    decreases cs,
{
    if cs.len() == 0 {
        Seq::empty()
    } else {
        seq![spec_content_json(cs[0])] + spec_content_list(cs.drop_first())
    }
}

/// The result object entries a tool result serializes to.
pub open spec fn spec_call_tool_result_entries(r: SpecCallToolResult) -> Seq<(Seq<char>, SpecJson)> {
    seq![("content"@, SpecJson::Arr(spec_content_list(r.content)))] + (match r.is_error {
        Some(b) => seq![("isError"@, SpecJson::Bool(b))],
        None => Seq::empty(),
    }) + (match r.meta {
        Some(m) => seq![("_meta"@, SpecJson::Obj(m))],
        None => Seq::empty(),
    }) + r.extra
}

/// The JSON value of one content item.
pub fn content_json(c: &CallToolResultContent) -> (r: JsonValue)
    ensures
        r@ == spec_content_json(c@),
{
    let mut e: Vec<(String, JsonValue)> = Vec::new();
    proof {
        assert(view_json_entries(e@) =~= Seq::<(Seq<char>, SpecJson)>::empty());
    }
    match c {
        CallToolResultContent::TextContent(t) => {
            let k1 = String::from_str("type");
            let v1 = JsonValue::Str(String::from_str("text"));
            proof {
                lemma_view_json_entries_push(e@, k1, v1);
            }
            e.push((k1, v1));
            let k2 = String::from_str("text");
            let v2 = JsonValue::Str(t.text.clone());
            proof {
                lemma_view_json_entries_push(e@, k2, v2);
            }
            e.push((k2, v2));
            proof {
                assert(view_json_entries(e@) =~~= spec_content_json(c@)->Obj_0);
            }
            JsonValue::Obj(e)
        },
        CallToolResultContent::ImageContent(im) => {
            let k1 = String::from_str("type");
            let v1 = JsonValue::Str(String::from_str("image"));
            proof {
                lemma_view_json_entries_push(e@, k1, v1);
            }
            e.push((k1, v1));
            let k2 = String::from_str("data");
            let v2 = JsonValue::Str(im.data.clone());
            proof {
                lemma_view_json_entries_push(e@, k2, v2);
            }
            e.push((k2, v2));
            let k3 = String::from_str("mimeType");
            let v3 = JsonValue::Str(im.mime_type.clone());
            proof {
                lemma_view_json_entries_push(e@, k3, v3);
            }
            e.push((k3, v3));
            proof {
                assert(view_json_entries(e@) =~~= spec_content_json(c@)->Obj_0);
            }
            JsonValue::Obj(e)
        },
        CallToolResultContent::AudioContent(au) => {
            let k1 = String::from_str("type");
            let v1 = JsonValue::Str(String::from_str("audio"));
            proof {
                lemma_view_json_entries_push(e@, k1, v1);
            }
            e.push((k1, v1));
            let k2 = String::from_str("data");
            let v2 = JsonValue::Str(au.data.clone());
            proof {
                lemma_view_json_entries_push(e@, k2, v2);
            }
            e.push((k2, v2));
            let k3 = String::from_str("mimeType");
            let v3 = JsonValue::Str(au.mime_type.clone());
            proof {
                lemma_view_json_entries_push(e@, k3, v3);
            }
            e.push((k3, v3));
            proof {
                assert(view_json_entries(e@) =~~= spec_content_json(c@)->Obj_0);
            }
            JsonValue::Obj(e)
        },
        CallToolResultContent::EmbeddedResource(er) => {
            let k1 = String::from_str("type");
            let v1 = JsonValue::Str(String::from_str("resource"));
            proof {
                lemma_view_json_entries_push(e@, k1, v1);
            }
            e.push((k1, v1));
            let k2 = String::from_str("resource");
            let v2 = er.resource.duplicate();
            proof {
                lemma_view_json_entries_push(e@, k2, v2);
            }
            e.push((k2, v2));
            proof {
                assert(view_json_entries(e@) =~~= spec_content_json(c@)->Obj_0);
            }
            JsonValue::Obj(e)
        },
    }
}

/// The result object entries of a tool result.
pub fn call_tool_result_entries(r: &CallToolResult) -> (out: Vec<(String, JsonValue)>)
    ensures
        view_json_entries(out@) == spec_call_tool_result_entries(r@),
{
    proof {
        lemma_view_content_seq(r.content@);
    }
    let n = r.content.len();
    let mut items: Vec<JsonValue> = Vec::new();
    let mut i: usize = 0;
    while i < n
        invariant
            0 <= i <= n,
            n == r.content@.len(),
            view_content_seq(r.content@).len() == n,
            forall|j: int| 0 <= j < n ==> view_content_seq(r.content@)[j] == (
            #[trigger] r.content@[j])@,
            crate::json::view_json_seq(items@) == spec_content_list(
                view_content_seq(r.content@).subrange(0, i as int),
            ),
            items@.len() == i,
        decreases n - i,
    {
        let jv = content_json(&r.content[i]);
        proof {
            crate::json::lemma_view_json_seq_push(items@, jv);
            lemma_content_list_push(
                view_content_seq(r.content@).subrange(0, i as int),
                view_content_seq(r.content@)[i as int],
            );
            assert(view_content_seq(r.content@).subrange(0, i + 1 as int) =~= view_content_seq(
                r.content@,
            ).subrange(0, i as int).push(view_content_seq(r.content@)[i as int]));
        }
        items.push(jv);
        i = i + 1;
    }
    proof {
        assert(view_content_seq(r.content@).subrange(0, n as int) =~= view_content_seq(
            r.content@,
        ));
    }
    let mut e: Vec<(String, JsonValue)> = Vec::new();
    proof {
        assert(view_json_entries(e@) =~= Seq::<(Seq<char>, SpecJson)>::empty());
    }
    let kc = String::from_str("content");
    let vc = JsonValue::Arr(items);
    proof {
        lemma_view_json_entries_push(e@, kc, vc);
    }
    e.push((kc, vc));
    match &r.is_error {
        Some(b) => {
            let k = String::from_str("isError");
            proof {
                lemma_view_json_entries_push(e@, k, JsonValue::Bool(*b));
            }
            e.push((k, JsonValue::Bool(*b)));
        },
        None => {},
    }
    match &r.meta {
        Some(m) => {
            let k = String::from_str("_meta");
            let v = JsonValue::Obj(crate::json::duplicate_entries(m));
            proof {
                lemma_view_json_entries_push(e@, k, v);
            }
            e.push((k, v));
        },
        None => {},
    }
    let ghost pre = view_json_entries(e@);
    let mut j: usize = 0;
    let en = r.extra.len();
    proof {
        crate::json::lemma_view_json_entries(r.extra@);
        assert(pre + view_json_entries(r.extra@).subrange(0, 0) =~= pre);
    }
    while j < en
        invariant
            0 <= j <= en,
            en == r.extra@.len(),
            view_json_entries(r.extra@).len() == en,
            forall|q: int| 0 <= q < en ==> view_json_entries(r.extra@)[q] == (
                (#[trigger] r.extra@[q]).0@,
                view_json(r.extra@[q].1),
            ),
            view_json_entries(e@) == pre + view_json_entries(r.extra@).subrange(0, j as int),
        decreases en - j,
    {
        let k = r.extra[j].0.clone();
        let v = r.extra[j].1.duplicate();
        proof {
            lemma_view_json_entries_push(e@, k, v);
            assert(view_json_entries(r.extra@).subrange(0, j + 1 as int) =~= view_json_entries(
                r.extra@,
            ).subrange(0, j as int).push((r.extra@[j as int].0@, view_json(r.extra@[j as int].1))));
            assert((pre + view_json_entries(r.extra@).subrange(0, j as int)).push(
                (r.extra@[j as int].0@, view_json(r.extra@[j as int].1)),
            ) =~= pre + view_json_entries(r.extra@).subrange(0, j + 1 as int));
        }
        e.push((k, v));
        j = j + 1;
    }
    proof {
        assert(view_json_entries(r.extra@).subrange(0, en as int) =~= view_json_entries(r.extra@));
        assert(view_json_entries(e@) =~~= spec_call_tool_result_entries(r@));
    }
    e
}

/// Appending one content item extends its JSON list by its encoding.
pub proof fn lemma_content_list_push(cs: Seq<SpecContent>, x: SpecContent)
    ensures
        spec_content_list(cs.push(x)) == spec_content_list(cs).push(spec_content_json(x)),
    decreases cs.len(),
{
    if cs.len() == 0 {
        assert(cs.push(x)[0] == x);
        assert(cs.push(x).drop_first() =~= Seq::<SpecContent>::empty());
        assert(spec_content_list(Seq::<SpecContent>::empty()) == Seq::<SpecJson>::empty());
        assert(spec_content_list(cs.push(x)) =~= spec_content_list(cs).push(spec_content_json(x)));
    } else {
        assert(cs.push(x)[0] == cs[0]);
        assert(cs.push(x).drop_first() =~= cs.drop_first().push(x));
        lemma_content_list_push(cs.drop_first(), x);
        assert(spec_content_list(cs.push(x)) =~= spec_content_list(cs).push(spec_content_json(x)));
    }
}


/// The typed-tool execution contract: when the arguments failed to
/// parse, the failure is carried inside the result as a tool error —
/// never as a protocol error; when they parsed, the handler ran and
/// its output converts by its declared conversion.  The handler itself
/// is asynchronous user code and runs outside the library; this takes
/// what that run produced.
pub fn typed_tool_execute<O: IntoToolResult>(run: Result<O, String>) -> (r: CallToolResult)
    ensures
        match run {
            Ok(output) => r@ == output.spec_tool_result(),
            Err(parse_error) => ({
                &&& r@.content == seq![
                    SpecContent::Text("Error: parsing input: "@ + parse_error@),
                ]
                &&& r@.is_error == Some(true)
                &&& r@.meta is None
                &&& r@.extra == Seq::<(Seq<char>, SpecJson)>::empty()
            }),
        },
{
    match run {
        Ok(output) => output.into_tool_result(),
        Err(parse_error) => tool_parse_failure_result(parse_error.as_str()),
    }
}

/// Wraps a value whose display form becomes one text content item.
#[derive(Debug, PartialEq)]
pub struct Text<T>(pub T);

/// Wraps a value whose JSON encoding becomes one text content item.
#[derive(Debug, PartialEq)]
pub struct Json<T>(pub T);

/// Conversion of a typed handler's output into a tool result.
pub trait IntoToolResult: Sized {
    /// The result this value converts to.
    spec fn spec_tool_result(self) -> SpecCallToolResult;

    /// Convert the value.
    fn into_tool_result(self) -> (r: CallToolResult)
        ensures
            r@ == self.spec_tool_result(),
    ;
}

/// One plain text item.
impl IntoToolResult for &str {
    open spec fn spec_tool_result(self) -> SpecCallToolResult {
        SpecCallToolResult {
            content: seq![SpecContent::Text(self@)],
            is_error: None,
            meta: None,
            extra: Seq::empty(),
        }
    }

    fn into_tool_result(self) -> (r: CallToolResult) {
        CallToolResult::text(String::from_str(self))
    }
}

/// One plain text item.
impl IntoToolResult for String {
    open spec fn spec_tool_result(self) -> SpecCallToolResult {
        SpecCallToolResult {
            content: seq![SpecContent::Text(self@)],
            is_error: None,
            meta: None,
            extra: Seq::empty(),
        }
    }

    fn into_tool_result(self) -> (r: CallToolResult) {
        let r = CallToolResult::text(self);
        r
    }
}

/// The decimal spelling of the number, as one text item.
impl IntoToolResult for Text<i64> {
    open spec fn spec_tool_result(self) -> SpecCallToolResult {
        SpecCallToolResult {
            content: seq![SpecContent::Text(spec_int_chars(self.0 as int))],
            is_error: None,
            meta: None,
            extra: Seq::empty(),
        }
    }

    fn into_tool_result(self) -> (r: CallToolResult) {
        CallToolResult::text(i64_string(self.0))
    }
}

/// The string itself, as one text item.
impl IntoToolResult for Text<String> {
    open spec fn spec_tool_result(self) -> SpecCallToolResult {
        SpecCallToolResult {
            content: seq![SpecContent::Text(self.0@)],
            is_error: None,
            meta: None,
            extra: Seq::empty(),
        }
    }

    fn into_tool_result(self) -> (r: CallToolResult) {
        CallToolResult::text(self.0)
    }
}

/// The value's JSON text, as one text item.
impl IntoToolResult for Json<JsonValue> {
    open spec fn spec_tool_result(self) -> SpecCallToolResult {
        SpecCallToolResult {
            content: seq![SpecContent::Text(spec_print(self.0@))],
            is_error: None,
            meta: None,
            extra: Seq::empty(),
        }
    }

    fn into_tool_result(self) -> (r: CallToolResult) {
        CallToolResult::text(json_to_string(&self.0))
    }
}

/// The error arm converts like the success arm; which arm ran is
/// visible only through the converted result itself.
impl<T: IntoToolResult, E: IntoToolResult> IntoToolResult for Result<T, E> {
    open spec fn spec_tool_result(self) -> SpecCallToolResult {
        match self {
            Ok(v) => v.spec_tool_result(),
            Err(e) => e.spec_tool_result(),
        }
    }

    fn into_tool_result(self) -> (r: CallToolResult) {
        match self {
            Ok(v) => v.into_tool_result(),
            Err(e) => e.into_tool_result(),
        }
    }
}

/// `None` converts to an empty result.
impl<T: IntoToolResult> IntoToolResult for Option<T> {
    open spec fn spec_tool_result(self) -> SpecCallToolResult {
        match self {
            Some(v) => v.spec_tool_result(),
            None => SpecCallToolResult {
                content: Seq::empty(),
                is_error: None,
                meta: None,
                extra: Seq::empty(),
            },
        }
    }

    fn into_tool_result(self) -> (r: CallToolResult) {
        match self {
            Some(v) => v.into_tool_result(),
            None => {
                let r = CallToolResult {
                    content: Vec::new(),
                    is_error: None,
                    meta: None,
                    extra: Vec::new(),
                };
                proof {
                    assert(view_content_seq(r.content@) =~= Seq::<SpecContent>::empty());
                    assert(view_json_entries(r.extra@) =~= Seq::<(Seq<char>, SpecJson)>::empty());
                }
                r
            },
        }
    }
}


/// One content item, as it is.
impl IntoToolResult for CallToolResultContent {
    open spec fn spec_tool_result(self) -> SpecCallToolResult {
        SpecCallToolResult {
            content: seq![self@],
            is_error: None,
            meta: None,
            extra: Seq::empty(),
        }
    }

    fn into_tool_result(self) -> (r: CallToolResult) {
        let ghost cv = self@;
        let mut content: Vec<CallToolResultContent> = Vec::new();
        content.push(self);
        let r = CallToolResult { content, is_error: None, meta: None, extra: Vec::new() };
        proof {
            assert(r.content@.drop_first() =~= Seq::<CallToolResultContent>::empty());
            assert(view_content_seq(Seq::<CallToolResultContent>::empty()) == Seq::<
                SpecContent,
            >::empty());
            assert(view_content_seq(r.content@) =~= seq![cv]);
            assert(view_json_entries(r.extra@) =~= Seq::<(Seq<char>, SpecJson)>::empty());
        }
        r
    }
}

/// One text item.
impl IntoToolResult for TextContent {
    open spec fn spec_tool_result(self) -> SpecCallToolResult {
        SpecCallToolResult {
            content: seq![SpecContent::Text(self.text@)],
            is_error: None,
            meta: None,
            extra: Seq::empty(),
        }
    }

    fn into_tool_result(self) -> (r: CallToolResult) {
        CallToolResultContent::TextContent(self).into_tool_result()
    }
}

/// One image item.
impl IntoToolResult for ImageContent {
    open spec fn spec_tool_result(self) -> SpecCallToolResult {
        SpecCallToolResult {
            content: seq![SpecContent::Image(self.data@, self.mime_type@)],
            is_error: None,
            meta: None,
            extra: Seq::empty(),
        }
    }

    fn into_tool_result(self) -> (r: CallToolResult) {
        CallToolResultContent::ImageContent(self).into_tool_result()
    }
}

/// One audio item.
impl IntoToolResult for AudioContent {
    open spec fn spec_tool_result(self) -> SpecCallToolResult {
        SpecCallToolResult {
            content: seq![SpecContent::Audio(self.data@, self.mime_type@)],
            is_error: None,
            meta: None,
            extra: Seq::empty(),
        }
    }

    fn into_tool_result(self) -> (r: CallToolResult) {
        CallToolResultContent::AudioContent(self).into_tool_result()
    }
}

/// One embedded-resource item.
impl IntoToolResult for EmbeddedResource {
    open spec fn spec_tool_result(self) -> SpecCallToolResult {
        SpecCallToolResult {
            content: seq![SpecContent::Embedded(view_json(self.resource))],
            is_error: None,
            meta: None,
            extra: Seq::empty(),
        }
    }

    fn into_tool_result(self) -> (r: CallToolResult) {
        CallToolResultContent::EmbeddedResource(self).into_tool_result()
    }
}

/// The concatenated contents of a converted list.
pub open spec fn spec_list_contents<T: IntoToolResult>(items: Seq<T>) -> Seq<SpecContent>
    decreases items,
{
    if items.len() == 0 {
        Seq::empty()
    } else {
        items[0].spec_tool_result().content + spec_list_contents(items.drop_first())
    }
}

/// Appending one element extends the concatenated contents by its own.
pub proof fn lemma_list_contents_push<T: IntoToolResult>(items: Seq<T>, x: T)
    ensures
        spec_list_contents(items.push(x)) == spec_list_contents(items)
            + x.spec_tool_result().content,
    decreases items.len(),
{
    if items.len() == 0 {
        assert(items.push(x)[0] == x);
        assert(items.push(x).drop_first() =~= Seq::<T>::empty());
        assert(spec_list_contents(Seq::<T>::empty()) == Seq::<SpecContent>::empty());
        assert(spec_list_contents(items.push(x)) =~= spec_list_contents(items)
            + x.spec_tool_result().content);
    } else {
        assert(items.push(x)[0] == items[0]);
        assert(items.push(x).drop_first() =~= items.drop_first().push(x));
        lemma_list_contents_push(items.drop_first(), x);
        assert(spec_list_contents(items.push(x)) =~= spec_list_contents(items)
            + x.spec_tool_result().content);
    }
}

/// The contents of every element, concatenated in order; never an
/// error.
impl<T: IntoToolResult> IntoToolResult for Vec<T> {
    open spec fn spec_tool_result(self) -> SpecCallToolResult {
        SpecCallToolResult {
            content: spec_list_contents(self@),
            is_error: None,
            meta: None,
            extra: Seq::empty(),
        }
    }

    #[verifier::loop_isolation(false)]
    fn into_tool_result(self) -> (r: CallToolResult) {
        let ghost orig = self@;
        let mut remaining = self;
        let mut content: Vec<CallToolResultContent> = Vec::new();
        let ghost mut done: Seq<T> = Seq::empty();
        proof {
            assert(done + remaining@ =~= orig);
            assert(view_content_seq(content@) =~= Seq::<SpecContent>::empty());
            assert(spec_list_contents(Seq::<T>::empty()) == Seq::<SpecContent>::empty());
        }
        while remaining.len() > 0
            invariant
                done + remaining@ == orig,
                view_content_seq(content@) == spec_list_contents(done),
            decreases remaining@.len(),
        {
            let ghost pre_rem = remaining@;
            let item = remaining.remove(0);
            let ghost iv = item;
            let mut converted = item.into_tool_result();
            let ghost pre_content = content@;
            let ghost conv_content = converted.content@;
            content.append(&mut converted.content);
            proof {
                lemma_list_contents_push(done, iv);
                lemma_view_content_concat(pre_content, conv_content);
                assert(view_content_seq(conv_content) =~= iv.spec_tool_result().content) by {
                    lemma_view_content_seq(conv_content);
                    lemma_view_content_seq(Seq::<CallToolResultContent>::empty());
                }
                done = done.push(iv);
                assert(done + remaining@ =~= orig) by {
                    assert(pre_rem[0] == iv);
                    assert(remaining@ =~= pre_rem.drop_first());
                }
            }
        }
        proof {
            assert(done =~= orig);
        }
        let r = CallToolResult { content, is_error: None, meta: None, extra: Vec::new() };
        proof {
            assert(view_json_entries(r.extra@) =~= Seq::<(Seq<char>, SpecJson)>::empty());
        }
        r
    }
}

/// The content view distributes over concatenation.
pub proof fn lemma_view_content_concat(
    a: Seq<CallToolResultContent>,
    b: Seq<CallToolResultContent>,
)
    ensures
        view_content_seq(a + b) == view_content_seq(a) + view_content_seq(b),
{
    lemma_view_content_seq(a + b);
    lemma_view_content_seq(a);
    lemma_view_content_seq(b);
    assert forall|i: int| 0 <= i < (a + b).len() implies view_content_seq(a + b)[i] == (
    view_content_seq(a) + view_content_seq(b))[i] by {
        if i < a.len() {
            assert((a + b)[i] == a[i]);
        } else {
            assert((a + b)[i] == b[i - a.len()]);
        }
    }
    assert(view_content_seq(a + b) =~= view_content_seq(a) + view_content_seq(b));
}

} // verus!
