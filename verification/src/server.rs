//! The server engine: identity, the tool registry, and request routing.
//!
//! Routing is a pure function from the server's state and one request to
//! an outcome: a complete reply, a tool invocation the caller must run,
//! or no reply at all (a late `initialize` is ignored).  Running a tool
//! is asynchronous user code and happens outside the library; its result
//! comes back through [`call_tool_reply`] or [`finish_batch`].

use vstd::prelude::*;
use crate::codec::spec_parse_json;
use crate::json::{JsonValue, SpecJson, obj_get, spec_obj_get, duplicate_entries, view_json_entries};
use crate::mcp::{
    JSONRPCBatchRequest, JSONRPCBatchResponse, JSONRPCNotification, JSONRPCRequest,
    JsonrpcBatchRequestItem, JsonrpcBatchResponseItem, JSONRPCError, JSONRPCResponse,
    JsonrpcErrorError, RequestId, SpecBatchRequestItem, SpecBatchResponseItem, SpecError,
    SpecErrorBody, SpecId, SpecRequest, SpecResponse, spec_item_reply_id, view_req_items,
    view_resp_items,
};
use crate::protocol::{INTERNAL_ERROR, INVALID_PARAMS, METHOD_NOT_FOUND};
use crate::tool::{
    CallToolResult, SpecTool, ToolDescriptor, annotations_json, spec_annotations_entries,
    spec_call_tool_result_entries, call_tool_result_entries,
};

verus! {

/// Model of a sequence of tools, element by element.
pub open spec fn view_tools(tools: Seq<ToolDescriptor>) -> Seq<SpecTool>
    decreases tools,
{
    if tools.len() == 0 {
        Seq::empty()
    } else {
        seq![tools[0]@] + view_tools(tools.drop_first())
    }
}

/// The tool view commutes with indexing.
pub proof fn lemma_view_tools(tools: Seq<ToolDescriptor>)
    ensures
        view_tools(tools).len() == tools.len(),
        forall|i: int| 0 <= i < tools.len() ==> view_tools(tools)[i] == (#[trigger] tools[i])@,
    decreases tools,
{
    if tools.len() > 0 {
        lemma_view_tools(tools.drop_first());
        assert forall|i: int| 0 <= i < tools.len() implies view_tools(tools)[i] == (
        #[trigger] tools[i])@ by {
            if i > 0 {
                assert(tools.drop_first()[i - 1] == tools[i]);
                assert(view_tools(tools)[i] == view_tools(tools.drop_first())[i - 1]);
            }
        }
    }
}

/// A registrable tool: named, and with an input schema that parses to
/// a JSON object.
pub open spec fn tool_wf(t: SpecTool) -> bool {
    &&& t.name.len() > 0
    &&& spec_parse_json(t.input_schema) matches Some(v) && v is Obj
}

/// A well-formed registry: every tool registrable, names unique.
pub open spec fn tools_wf(tools: Seq<SpecTool>) -> bool {
    &&& forall|i: int| 0 <= i < tools.len() ==> tool_wf(#[trigger] tools[i])
    &&& forall|i: int, j: int|
        0 <= i < j < tools.len() ==> (#[trigger] tools[i]).name != (#[trigger] tools[j]).name
}

/// The MCP server: identity, optional instructions, and the tools it
/// exposes, in registration order.
#[derive(Debug)]
pub struct MCPServer {
    pub name: String,
    pub version: String,
    pub instructions: Option<String>,
    pub tools: Vec<ToolDescriptor>,
}

/// Model of the server.
#[verifier::ext_equal]
pub ghost struct SpecServer {
    pub name: Seq<char>,
    pub version: Seq<char>,
    pub instructions: Option<Seq<char>>,
    pub tools: Seq<SpecTool>,
}

impl View for MCPServer {
    type V = SpecServer;

    open spec fn view(&self) -> SpecServer {
        SpecServer {
            name: self.name@,
            version: self.version@,
            instructions: match self.instructions {
                Some(i) => Some(i@),
                None => None,
            },
            tools: view_tools(self.tools@),
        }
    }
}

/// A well-formed server.
pub open spec fn server_wf(s: SpecServer) -> bool {
    tools_wf(s.tools)
}

/// First registered tool with the given name.
pub open spec fn spec_find_tool(tools: Seq<SpecTool>, name: Seq<char>) -> Option<SpecTool>
    decreases tools,
{
    if tools.len() == 0 {
        None
    } else if tools[0].name == name {
        Some(tools[0])
    } else {
        spec_find_tool(tools.drop_first(), name)
    }
}

/// Registration: a duplicate name replaces the earlier entry in place,
/// anything else appends.
pub open spec fn spec_add_tool(tools: Seq<SpecTool>, t: SpecTool) -> Seq<SpecTool>
    decreases tools,
{
    if tools.len() == 0 {
        seq![t]
    } else if tools[0].name == t.name {
        seq![t] + tools.drop_first()
    } else {
        seq![tools[0]] + spec_add_tool(tools.drop_first(), t)
    }
}


/// Registering a list of tools, first to last.
pub open spec fn spec_add_tools(base: Seq<SpecTool>, ts: Seq<SpecTool>) -> Seq<SpecTool>
    decreases ts,
{
    if ts.len() == 0 {
        base
    } else {
        spec_add_tools(spec_add_tool(base, ts[0]), ts.drop_first())
    }
}

/// Registration, characterized by the first matching index: replace
/// there, or append when there is none.
pub proof fn lemma_add_tool_at(tools: Seq<SpecTool>, t: SpecTool, i: int)
    requires
        0 <= i <= tools.len(),
        forall|j: int| 0 <= j < i ==> (#[trigger] tools[j]).name != t.name,
        i < tools.len() ==> tools[i].name == t.name,
    ensures
        i < tools.len() ==> spec_add_tool(tools, t) == tools.update(i, t),
        i == tools.len() ==> spec_add_tool(tools, t) == tools.push(t),
    decreases tools,
{
    if tools.len() == 0 {
        assert(spec_add_tool(tools, t) =~= tools.push(t));
    } else if tools[0].name == t.name {
        assert(i == 0);
        assert(spec_add_tool(tools, t) =~= tools.update(0, t));
    } else {
        assert(i >= 1);
        assert(forall|j: int| 0 <= j < i - 1 ==> (#[trigger] tools.drop_first()[j]).name
            != t.name) by {
            assert(forall|j: int| 0 <= j < tools.drop_first().len() ==> #[trigger] tools.drop_first()[j] == tools[j + 1]);
        }
        lemma_add_tool_at(tools.drop_first(), t, i - 1);
        if i < tools.len() {
            assert(tools.drop_first()[i - 1] == tools[i]);
            assert(spec_add_tool(tools, t) =~= tools.update(i, t));
        } else {
            assert(spec_add_tool(tools, t) =~= tools.push(t));
        }
    }
}

impl MCPServer {
    /// A server with the given identity and no tools.
    pub fn new(name: &str, version: &str) -> (r: MCPServer)
        ensures
            r@.name == name@,
            r@.version == version@,
            r@.instructions is None,
            r@.tools == Seq::<SpecTool>::empty(),
            server_wf(r@),
    {
        let r = MCPServer {
            name: String::from_str(name),
            version: String::from_str(version),
            instructions: None,
            tools: Vec::new(),
        };
        proof {
            assert(view_tools(r.tools@) =~= Seq::<SpecTool>::empty());
        }
        r
    }

    /// Set the instructions sent to the client on `initialize`.
    pub fn with_instructions(self, instructions: &str) -> (r: MCPServer)
        ensures
            r@ == (SpecServer { instructions: Some(instructions@), ..self@ }),
    {
        MCPServer { instructions: Some(String::from_str(instructions)), ..self }
    }

    /// Register a tool; a duplicate name replaces the earlier entry.
    #[verifier::loop_isolation(false)]
    #[verifier::rlimit(100)]
    pub fn add_tool(self, tool: ToolDescriptor) -> (r: MCPServer)
        requires
            tool_wf(tool@),
        ensures
            r@.name == self@.name,
            r@.version == self@.version,
            r@.instructions == self@.instructions,
            r@.tools == spec_add_tool(self@.tools, tool@),
            server_wf(self@) ==> server_wf(r@),
    {
        let MCPServer { name, version, instructions, mut tools } = self;
        let ghost orig = tools@;
        let n = tools.len();
        proof {
            lemma_view_tools(tools@);
        }
        let mut i: usize = 0;
        while i < n
            invariant
                0 <= i <= n,
                tools@ == orig,
                n == tools@.len(),
                view_tools(tools@).len() == n,
                forall|j: int| 0 <= j < n ==> view_tools(tools@)[j] == (#[trigger] tools@[j])@,
                forall|j: int| 0 <= j < i ==> (#[trigger] view_tools(tools@)[j]).name != tool@.name,
            decreases n - i,
        {
            if tools[i].name == tool.name {
                let ghost pre = tools@;
                let ghost old_tools = view_tools(tools@);
                tools[i] = tool;
                proof {
                    lemma_view_tools(tools@);
                    assert(old_tools[i as int] == pre[i as int]@);
                    lemma_add_tool_at(old_tools, tool@, i as int);
                    assert(tools@ == pre.update(i as int, tool));
                    assert forall|j: int| 0 <= j < tools@.len() implies view_tools(tools@)[j]
                        == old_tools.update(i as int, tool@)[j] by {
                        assert(view_tools(tools@)[j] == tools@[j]@);
                        if j == i {
                            assert(tools@[j] == tool);
                        } else {
                            assert(tools@[j] == pre[j]);
                            assert(old_tools[j] == pre[j]@);
                        }
                    }
                    assert(view_tools(tools@) =~= spec_add_tool(old_tools, tool@));
                    if server_wf(SpecServer { name: name@, version: version@, instructions: match instructions { Some(ref q) => Some(q@), None => None }, tools: old_tools }) {
                        let nt = view_tools(tools@);
                        assert forall|a: int| 0 <= a < nt.len() implies tool_wf(
                            #[trigger] nt[a],
                        ) by {
                            if a != i {
                                assert(nt[a] == old_tools[a]);
                            }
                        }
                        assert forall|a: int, b: int| 0 <= a < b < nt.len() implies (
                        #[trigger] nt[a]).name != (#[trigger] nt[b]).name by {
                            assert(nt[i as int].name == old_tools[i as int].name);
                            if a != i {
                                assert(nt[a] == old_tools[a]);
                            }
                            if b != i {
                                assert(nt[b] == old_tools[b]);
                            }
                            assert(old_tools[a].name != old_tools[b].name);
                        }
                    }
                }
                return MCPServer { name, version, instructions, tools };
            }
            i = i + 1;
        }
        let ghost pre = tools@;
        let ghost old_tools = view_tools(tools@);
        tools.push(tool);
        proof {
            lemma_view_tools(tools@);
            lemma_add_tool_at(old_tools, tool@, old_tools.len() as int);
            assert forall|j: int| 0 <= j < tools@.len() implies view_tools(tools@)[j]
                == old_tools.push(tool@)[j] by {
                assert(view_tools(tools@)[j] == tools@[j]@);
                if j < pre.len() {
                    assert(tools@[j] == pre[j]);
                    assert(old_tools[j] == pre[j]@);
                } else {
                    assert(tools@[j] == tool);
                }
            }
            assert(view_tools(tools@) =~= spec_add_tool(old_tools, tool@));
            let nt = view_tools(tools@);
            if tools_wf(old_tools) {
                assert forall|a: int| 0 <= a < nt.len() implies tool_wf(#[trigger] nt[a]) by {
                    if a < old_tools.len() {
                        assert(nt[a] == old_tools[a]);
                    } else {
                        assert(nt[a] == tool@);
                    }
                }
                assert forall|a: int, b: int| 0 <= a < b < nt.len() implies (
                #[trigger] nt[a]).name != (#[trigger] nt[b]).name by {
                    if b < old_tools.len() {
                        assert(nt[a] == old_tools[a]);
                        assert(nt[b] == old_tools[b]);
                    } else {
                        assert(nt[b] == tool@);
                        assert(nt[a] == old_tools[a]);
                    }
                }
            }
        }
        MCPServer { name, version, instructions, tools }
    }


    /// Register every tool of a list, in order: the explicit-list form
    /// of registration for callers that collect their tools elsewhere.
    #[verifier::loop_isolation(false)]
    pub fn with_tools(self, tools: Vec<ToolDescriptor>) -> (r: MCPServer)
        requires
            forall|i: int| 0 <= i < tools@.len() ==> tool_wf((#[trigger] tools@[i])@),
        ensures
            r@.name == self@.name,
            r@.version == self@.version,
            r@.instructions == self@.instructions,
            r@.tools == spec_add_tools(self@.tools, view_tools(tools@)),
            server_wf(self@) ==> server_wf(r@),
    {
        proof {
            lemma_view_tools(tools@);
            assert(view_tools(tools@).subrange(0, tools@.len() as int) =~= view_tools(tools@));
        }
        let ghost all = view_tools(tools@);
        let n = tools.len();
        let mut server = self;
        let mut rest = tools;
        let mut i: usize = 0;
        while i < n
            invariant
                0 <= i <= n,
                rest@.len() == n - i,
                forall|j: int| 0 <= j < rest@.len() ==> #[trigger] rest@[j] == tools@[j + i],
                server@.name == self@.name,
                server@.version == self@.version,
                server@.instructions == self@.instructions,
                spec_add_tools(self@.tools, all) == spec_add_tools(
                    server@.tools,
                    all.subrange(i as int, n as int),
                ),
                server_wf(self@) ==> server_wf(server@),
            decreases n - i,
        {
            let ghost tail = all.subrange(i as int, n as int);
            let t = rest.remove(0);
            proof {
                assert(t == tools@[i as int]);
                assert(tail[0] == t@);
                assert(tail.drop_first() =~= all.subrange(i + 1 as int, n as int));
            }
            server = server.add_tool(t);
            i = i + 1;
        }
        proof {
            assert(all.subrange(n as int, n as int) =~= Seq::<SpecTool>::empty());
        }
        server
    }

    /// Look a tool up by name.
    pub fn get_tool<'a>(&'a self, name: &str) -> (r: Option<&'a ToolDescriptor>)
        ensures
            match r {
                Some(t) => spec_find_tool(self@.tools, name@) == Some(t@),
                None => spec_find_tool(self@.tools, name@) is None,
            },
    {
        proof {
            lemma_view_tools(self.tools@);
            assert(view_tools(self.tools@).subrange(0, self.tools@.len() as int) =~= view_tools(
                self.tools@,
            ));
        }
        let name_owned = String::from_str(name);
        let n = self.tools.len();
        let mut i: usize = 0;
        while i < n
            invariant
                0 <= i <= n,
                n == self.tools@.len(),
                name_owned@ == name@,
                view_tools(self.tools@).len() == n,
                forall|j: int| 0 <= j < n ==> view_tools(self.tools@)[j] == (
                #[trigger] self.tools@[j])@,
                spec_find_tool(self@.tools, name@) == spec_find_tool(
                    view_tools(self.tools@).subrange(i as int, n as int),
                    name@,
                ),
            decreases n - i,
        {
            let ghost tail = view_tools(self.tools@).subrange(i as int, n as int);
            proof {
                assert(tail[0] == self.tools@[i as int]@);
                assert(tail.drop_first() =~= view_tools(self.tools@).subrange(
                    i + 1 as int,
                    n as int,
                ));
            }
            if self.tools[i].name == name_owned {
                return Some(&self.tools[i]);
            }
            i = i + 1;
        }
        proof {
            assert(view_tools(self.tools@).subrange(n as int, n as int) =~= Seq::<
                SpecTool,
            >::empty());
        }
        None
    }

    /// The registered tools, in registration order.
    pub fn list_tools(&self) -> (r: &Vec<ToolDescriptor>)
        ensures
            view_tools(r@) == self@.tools,
    {
        &self.tools
    }

    /// The resources this server serves: none.
    pub fn list_resources(&self) -> (r: Vec<JsonValue>)
        ensures
            r@.len() == 0,
    {
        Vec::new()
    }

    /// The prompts this server serves: none.
    pub fn list_prompts(&self) -> (r: Vec<JsonValue>)
        ensures
            r@.len() == 0,
    {
        Vec::new()
    }
}

/// A tool call the engine has routed and the caller must now run.
#[derive(Debug, PartialEq)]
pub struct ToolInvocation {
    pub id: RequestId,
    pub name: String,
    pub arguments: Vec<(String, JsonValue)>,
}

/// Model of a routed tool call.
#[verifier::ext_equal]
pub ghost struct SpecToolInvocation {
    pub id: SpecId,
    pub name: Seq<char>,
    pub arguments: Seq<(Seq<char>, SpecJson)>,
}

impl View for ToolInvocation {
    type V = SpecToolInvocation;

    open spec fn view(&self) -> SpecToolInvocation {
        SpecToolInvocation {
            id: self.id@,
            name: self.name@,
            arguments: view_json_entries(self.arguments@),
        }
    }
}

/// What routing one request decides.
#[derive(Debug, PartialEq)]
pub enum RequestOutcome {
    /// A complete reply: exactly one response or error, with the
    /// request's own identifier.
    Reply(JsonrpcBatchResponseItem),
    /// Run this tool, then build the reply with [`call_tool_reply`].
    Invoke(ToolInvocation),
    /// No reply at all: an `initialize` after the handshake.
    Ignore,
}

/// Model of a routing decision.
#[verifier::ext_equal]
pub ghost enum SpecOutcome {
    Reply(SpecBatchResponseItem),
    Invoke(SpecToolInvocation),
    Ignore,
}

impl View for RequestOutcome {
    type V = SpecOutcome;

    open spec fn view(&self) -> SpecOutcome {
        match self {
            RequestOutcome::Reply(item) => SpecOutcome::Reply(item@),
            RequestOutcome::Invoke(inv) => SpecOutcome::Invoke(inv@),
            RequestOutcome::Ignore => SpecOutcome::Ignore,
        }
    }
}

/// An error reply with no data and no extra fields.
pub open spec fn spec_error_item(id: SpecId, code: int, message: Seq<char>) -> SpecBatchResponseItem {
    SpecBatchResponseItem::Error(
        SpecError {
            id,
            error: SpecErrorBody { code, message, data: None, extra: Seq::empty() },
            extra: Seq::empty(),
        },
    )
}

/// A response with the given result object and no extra fields.
pub open spec fn spec_response_item(id: SpecId, result: Seq<(Seq<char>, SpecJson)>) -> SpecBatchResponseItem {
    SpecBatchResponseItem::Response(SpecResponse { id, result, extra: Seq::empty() })
}

/// The `tools/list` entry for one tool: its name, description, parsed
/// input schema, and annotations.
pub open spec fn spec_tool_entry(t: SpecTool) -> SpecJson {
    SpecJson::Obj(
        seq![
            ("name"@, SpecJson::Str(t.name)),
            ("description"@, SpecJson::Str(t.description)),
            (
                "inputSchema"@,
                match spec_parse_json(t.input_schema) {
                    Some(v) => v,
                    None => SpecJson::Obj(Seq::empty()),
                },
            ),
            ("annotations"@, SpecJson::Obj(spec_annotations_entries(t.annotations))),
        ],
    )
}

/// The `tools/list` entries, in registry order.
pub open spec fn spec_tools_listing(tools: Seq<SpecTool>) -> Seq<SpecJson>
    decreases tools,
{
    if tools.len() == 0 {
        Seq::empty()
    } else {
        seq![spec_tool_entry(tools[0])] + spec_tools_listing(tools.drop_first())
    }
}

/// How `tools/call` is routed, given the request's parameters.
pub open spec fn spec_route_tool_call(s: SpecServer, r: SpecRequest) -> SpecOutcome {
    match r.params {
        Some(p) => match spec_obj_get(p, "name"@) {
            Some(SpecJson::Str(name)) => match spec_find_tool(s.tools, name) {
                Some(_) => match spec_obj_get(p, "arguments"@) {
                    Some(SpecJson::Obj(a)) => SpecOutcome::Invoke(
                        SpecToolInvocation { id: r.id, name, arguments: a },
                    ),
                    Some(_) => SpecOutcome::Reply(
                        spec_error_item(
                            r.id,
                            INVALID_PARAMS as int,
                            "Invalid params: arguments must be an object"@,
                        ),
                    ),
                    None => SpecOutcome::Invoke(
                        SpecToolInvocation { id: r.id, name, arguments: Seq::empty() },
                    ),
                },
                None => SpecOutcome::Reply(
                    spec_error_item(r.id, INVALID_PARAMS as int, "Tool not found: "@ + name),
                ),
            },
            _ => SpecOutcome::Reply(
                spec_error_item(
                    r.id,
                    INVALID_PARAMS as int,
                    "Invalid params: name must be a string"@,
                ),
            ),
        },
        None => SpecOutcome::Reply(
            spec_error_item(r.id, INVALID_PARAMS as int, "Invalid params: missing params"@),
        ),
    }
}

/// How the engine routes one request after the handshake: the routing
/// table of the protocol.
pub open spec fn spec_handle_request(s: SpecServer, r: SpecRequest) -> SpecOutcome {
    if r.method == "initialize"@ {
        SpecOutcome::Ignore
    } else if r.method == "ping"@ {
        SpecOutcome::Reply(
            spec_response_item(r.id, seq![("message"@, SpecJson::Str("pong"@))]),
        )
    } else if r.method == "tools/list"@ {
        SpecOutcome::Reply(
            spec_response_item(
                r.id,
                seq![("tools"@, SpecJson::Arr(spec_tools_listing(s.tools)))],
            ),
        )
    } else if r.method == "tools/call"@ {
        spec_route_tool_call(s, r)
    } else if r.method == "resources/list"@ {
        SpecOutcome::Reply(
            spec_response_item(r.id, seq![("resources"@, SpecJson::Arr(Seq::empty()))]),
        )
    } else if r.method == "prompts/list"@ {
        SpecOutcome::Reply(
            spec_response_item(r.id, seq![("prompts"@, SpecJson::Arr(Seq::empty()))]),
        )
    } else {
        SpecOutcome::Reply(
            spec_error_item(r.id, METHOD_NOT_FOUND as int, "Method not supported: "@ + r.method),
        )
    }
}

/// Every reply routing produces carries the request's own identifier,
/// and only a late `initialize` produces none.
pub proof fn lemma_reply_id_echo(s: SpecServer, r: SpecRequest)
    ensures
        match spec_handle_request(s, r) {
            SpecOutcome::Reply(item) => match item {
                SpecBatchResponseItem::Response(resp) => resp.id == r.id,
                SpecBatchResponseItem::Error(err) => err.id == r.id,
            },
            SpecOutcome::Invoke(inv) => inv.id == r.id,
            SpecOutcome::Ignore => r.method == "initialize"@,
        },
{
}


/// Exclusive reply: routing one request decides exactly one thing — a
/// single reply, or a single tool call that [`call_tool_reply`] turns
/// into a single response; only a late `initialize` decides nothing,
/// and nothing ever decides two.
pub proof fn lemma_exclusive_reply(s: SpecServer, r: SpecRequest)
    ensures
        r.method == "initialize"@ <==> spec_handle_request(s, r) is Ignore,
        spec_handle_request(s, r) is Reply || spec_handle_request(s, r) is Invoke
            || spec_handle_request(s, r) is Ignore,
{
}

/// An error reply with no data and no extra fields.
fn error_item(id: RequestId, code: i64, message: String) -> (r: JsonrpcBatchResponseItem)
    ensures
        r@ == spec_error_item(id@, code as int, message@),
{
    let r = JsonrpcBatchResponseItem::JSONRPCError(
        JSONRPCError {
            id,
            error: JsonrpcErrorError { code, message, data: None, extra: Vec::new() },
            extra: Vec::new(),
        },
    );
    proof {
        assert(view_json_entries(Seq::<(String, JsonValue)>::empty()) == Seq::<
            (Seq<char>, SpecJson),
        >::empty());
        assert(r@ =~~= spec_error_item(
            r->JSONRPCError_0.id@,
            r->JSONRPCError_0.error.code as int,
            r->JSONRPCError_0.error.message@,
        ));
    }
    r
}

/// A response with the given result object and no extra fields.
fn response_item(id: RequestId, result: Vec<(String, JsonValue)>) -> (r: JsonrpcBatchResponseItem)
    ensures
        r@ == spec_response_item(id@, view_json_entries(result@)),
{
    let ghost res = view_json_entries(result@);
    let r = JsonrpcBatchResponseItem::JSONRPCResponse(
        JSONRPCResponse { id, result, extra: Vec::new() },
    );
    proof {
        assert(view_json_entries(Seq::<(String, JsonValue)>::empty()) == Seq::<
            (Seq<char>, SpecJson),
        >::empty());
        assert(r@ =~~= spec_response_item(r->JSONRPCResponse_0.id@, res));
    }
    r
}


/// The internal-error reply for a request whose handling failed
/// outright (a crashed run), carrying its identifier.
pub fn internal_error_reply(id: RequestId, message: String) -> (r: JsonrpcBatchResponseItem)
    ensures
        r@ == spec_error_item(id@, INTERNAL_ERROR as int, message@),
{
    error_item(id, INTERNAL_ERROR, message)
}

/// The reply that carries a finished tool call's result.  Whatever the
/// result says — including a tool failure with `isError` set — it is a
/// response, never a protocol error.
pub fn call_tool_reply(id: RequestId, result: &CallToolResult) -> (r: JsonrpcBatchResponseItem)
    ensures
        r@ == spec_response_item(id@, spec_call_tool_result_entries(result@)),
        r@ is Response,
{
    let entries = call_tool_result_entries(result);
    response_item(id, entries)
}

impl MCPServer {
    /// Route one request: the dispatch table of §4.4.1, as one pure
    /// decision.
    pub fn handle_request(&self, request: &JSONRPCRequest) -> (outcome: RequestOutcome)
        requires
            server_wf(self@),
        ensures
            outcome@ == spec_handle_request(self@, request@),
    {
        if request.method == String::from_str("initialize") {
            RequestOutcome::Ignore
        } else if request.method == String::from_str("ping") {
            let mut result: Vec<(String, JsonValue)> = Vec::new();
            let k = String::from_str("message");
            let v = JsonValue::Str(String::from_str("pong"));
            proof {
                assert(view_json_entries(result@) =~= Seq::<(Seq<char>, SpecJson)>::empty());
                crate::json::lemma_view_json_entries_push(result@, k, v);
            }
            result.push((k, v));
            let item = response_item(request.id.duplicate(), result);
            proof {
                assert(view_json_entries(result@) =~= seq![
                    ("message"@, SpecJson::Str("pong"@)),
                ]);
            }
            RequestOutcome::Reply(item)
        } else if request.method == String::from_str("tools/list") {
            let listing = self.tools_listing();
            let mut result: Vec<(String, JsonValue)> = Vec::new();
            let k = String::from_str("tools");
            let v = JsonValue::Arr(listing);
            proof {
                assert(view_json_entries(result@) =~= Seq::<(Seq<char>, SpecJson)>::empty());
                crate::json::lemma_view_json_entries_push(result@, k, v);
            }
            result.push((k, v));
            let item = response_item(request.id.duplicate(), result);
            proof {
                assert(view_json_entries(result@) =~= seq![
                    ("tools"@, SpecJson::Arr(spec_tools_listing(self@.tools))),
                ]);
            }
            RequestOutcome::Reply(item)
        } else if request.method == String::from_str("tools/call") {
            self.route_tool_call(request)
        } else if request.method == String::from_str("resources/list") {
            let mut result: Vec<(String, JsonValue)> = Vec::new();
            let k = String::from_str("resources");
            let v = JsonValue::Arr(Vec::new());
            proof {
                assert(view_json_entries(result@) =~= Seq::<(Seq<char>, SpecJson)>::empty());
                crate::json::lemma_view_json_entries_push(result@, k, v);
                assert(crate::json::view_json_seq(Seq::<JsonValue>::empty()) == Seq::<
                    SpecJson,
                >::empty());
            }
            result.push((k, v));
            let item = response_item(request.id.duplicate(), result);
            proof {
                assert(view_json_entries(result@) =~= seq![
                    ("resources"@, SpecJson::Arr(Seq::<SpecJson>::empty())),
                ]);
            }
            RequestOutcome::Reply(item)
        } else if request.method == String::from_str("prompts/list") {
            let mut result: Vec<(String, JsonValue)> = Vec::new();
            let k = String::from_str("prompts");
            let v = JsonValue::Arr(Vec::new());
            proof {
                assert(view_json_entries(result@) =~= Seq::<(Seq<char>, SpecJson)>::empty());
                crate::json::lemma_view_json_entries_push(result@, k, v);
                assert(crate::json::view_json_seq(Seq::<JsonValue>::empty()) == Seq::<
                    SpecJson,
                >::empty());
            }
            result.push((k, v));
            let item = response_item(request.id.duplicate(), result);
            proof {
                assert(view_json_entries(result@) =~= seq![
                    ("prompts"@, SpecJson::Arr(Seq::<SpecJson>::empty())),
                ]);
            }
            RequestOutcome::Reply(item)
        } else {
            let message = String::from_str("Method not supported: ").concat(
                request.method.as_str(),
            );
            RequestOutcome::Reply(error_item(request.id.duplicate(), METHOD_NOT_FOUND, message))
        }
    }

    /// Route a `tools/call` request.
    fn route_tool_call(&self, request: &JSONRPCRequest) -> (outcome: RequestOutcome)
        requires
            server_wf(self@),
        ensures
            outcome@ == spec_route_tool_call(self@, request@),
    {
        let p = match &request.params {
            Some(p) => p,
            None => {
                return RequestOutcome::Reply(
                    error_item(
                        request.id.duplicate(),
                        INVALID_PARAMS,
                        String::from_str("Invalid params: missing params"),
                    ),
                );
            },
        };
        let name = match obj_get(p, "name") {
            Some(JsonValue::Str(n)) => n.clone(),
            _ => {
                return RequestOutcome::Reply(
                    error_item(
                        request.id.duplicate(),
                        INVALID_PARAMS,
                        String::from_str("Invalid params: name must be a string"),
                    ),
                );
            },
        };
        if self.get_tool(name.as_str()).is_none() {
            let message = String::from_str("Tool not found: ").concat(name.as_str());
            return RequestOutcome::Reply(
                error_item(request.id.duplicate(), INVALID_PARAMS, message),
            );
        }
        match obj_get(p, "arguments") {
            Some(JsonValue::Obj(a)) => RequestOutcome::Invoke(
                ToolInvocation {
                    id: request.id.duplicate(),
                    name,
                    arguments: duplicate_entries(a),
                },
            ),
            Some(_) => RequestOutcome::Reply(
                error_item(
                    request.id.duplicate(),
                    INVALID_PARAMS,
                    String::from_str("Invalid params: arguments must be an object"),
                ),
            ),
            None => {
                let inv = ToolInvocation {
                    id: request.id.duplicate(),
                    name,
                    arguments: Vec::new(),
                };
                proof {
                    assert(view_json_entries(inv.arguments@) =~= Seq::<
                        (Seq<char>, SpecJson),
                    >::empty());
                }
                RequestOutcome::Invoke(inv)
            },
        }
    }

    /// The `tools/list` entries, in registry order.
    fn tools_listing(&self) -> (r: Vec<JsonValue>)
        requires
            server_wf(self@),
        ensures
            crate::json::view_json_seq(r@) == spec_tools_listing(self@.tools),
    {
        proof {
            lemma_view_tools(self.tools@);
            lemma_tools_listing_index(self@.tools);
        }
        let n = self.tools.len();
        let mut out: Vec<JsonValue> = Vec::new();
        let mut i: usize = 0;
        while i < n
            invariant
                0 <= i <= n,
                n == self.tools@.len(),
                server_wf(self@),
                view_tools(self.tools@).len() == n,
                forall|j: int| 0 <= j < n ==> view_tools(self.tools@)[j] == (
                #[trigger] self.tools@[j])@,
                spec_tools_listing(self@.tools).len() == n,
                forall|j: int| 0 <= j < n ==> spec_tools_listing(self@.tools)[j] == spec_tool_entry(
                    #[trigger] self@.tools[j],
                ),
                crate::json::view_json_seq(out@) == spec_tools_listing(self@.tools).subrange(
                    0,
                    i as int,
                ),
                out@.len() == i,
            decreases n - i,
        {
            let entry = self.tool_entry_json(i);
            proof {
                crate::json::lemma_view_json_seq_push(out@, entry);
                assert(spec_tools_listing(self@.tools).subrange(0, i + 1 as int)
                    =~= spec_tools_listing(self@.tools).subrange(0, i as int).push(
                    spec_tools_listing(self@.tools)[i as int],
                ));
            }
            out.push(entry);
            i = i + 1;
        }
        proof {
            assert(spec_tools_listing(self@.tools).subrange(0, n as int) =~= spec_tools_listing(
                self@.tools,
            ));
        }
        out
    }

    /// The `tools/list` entry of the tool at `i`.
    fn tool_entry_json(&self, i: usize) -> (r: JsonValue)
        requires
            server_wf(self@),
            i < self.tools@.len(),
            view_tools(self.tools@)[i as int] == self.tools@[i as int]@,
            view_tools(self.tools@).len() == self.tools@.len(),
        ensures
            r@ == spec_tool_entry(self.tools@[i as int]@),
    {
        let t = &self.tools[i];
        proof {
            assert(tool_wf(t@));
        }
        let schema = match crate::codec::parse_json(t.input_schema.as_str()) {
            Some(v) => v,
            None => JsonValue::Obj(Vec::new()),
        };
        let mut e: Vec<(String, JsonValue)> = Vec::new();
        proof {
            assert(view_json_entries(e@) =~= Seq::<(Seq<char>, SpecJson)>::empty());
        }
        let k1 = String::from_str("name");
        let v1 = JsonValue::Str(t.name.clone());
        proof {
            crate::json::lemma_view_json_entries_push(e@, k1, v1);
        }
        e.push((k1, v1));
        let k2 = String::from_str("description");
        let v2 = JsonValue::Str(t.description.clone());
        proof {
            crate::json::lemma_view_json_entries_push(e@, k2, v2);
        }
        e.push((k2, v2));
        let k3 = String::from_str("inputSchema");
        proof {
            crate::json::lemma_view_json_entries_push(e@, k3, schema);
        }
        e.push((k3, schema));
        let k4 = String::from_str("annotations");
        let v4 = annotations_json(&t.annotations);
        proof {
            crate::json::lemma_view_json_entries_push(e@, k4, v4);
        }
        e.push((k4, v4));
        proof {
            assert(view_json_entries(e@) =~~= spec_tool_entry(self.tools@[i as int]@)->Obj_0);
        }
        JsonValue::Obj(e)
    }

    /// Route one notification; every recognized kind is a no-op.
    /// Reports whether the method was a known client notification.
    pub fn handle_notification(&self, notification: &JSONRPCNotification) -> (known: bool)
        ensures
            known == is_client_notification(notification@.method),
    {
        notification.method == String::from_str("notifications/cancelled")
            || notification.method == String::from_str("notifications/initialized")
            || notification.method == String::from_str("notifications/progress")
            || notification.method == String::from_str("notifications/roots/list_changed")
    }
}

/// The notification methods a client may send.
pub open spec fn is_client_notification(method: Seq<char>) -> bool {
    ||| method == "notifications/cancelled"@
    ||| method == "notifications/initialized"@
    ||| method == "notifications/progress"@
    ||| method == "notifications/roots/list_changed"@
}

/// The listing commutes with indexing.
pub proof fn lemma_tools_listing_index(tools: Seq<SpecTool>)
    ensures
        spec_tools_listing(tools).len() == tools.len(),
        forall|i: int| 0 <= i < tools.len() ==> spec_tools_listing(tools)[i] == spec_tool_entry(
            #[trigger] tools[i],
        ),
    decreases tools,
{
    if tools.len() > 0 {
        lemma_tools_listing_index(tools.drop_first());
        assert forall|i: int| 0 <= i < tools.len() implies spec_tools_listing(tools)[i]
            == spec_tool_entry(#[trigger] tools[i]) by {
            if i > 0 {
                assert(tools.drop_first()[i - 1] == tools[i]);
                assert(spec_tools_listing(tools)[i] == spec_tools_listing(tools.drop_first())[i
                    - 1]);
            }
        }
    }
}

/// One entry of a batch plan: a finished reply, or a tool call still
/// to run.
#[derive(Debug, PartialEq)]
pub enum BatchItemPlan {
    Ready(JsonrpcBatchResponseItem),
    NeedsTool(ToolInvocation),
}

/// Model of a batch plan entry.
#[verifier::ext_equal]
pub ghost enum SpecBatchItemPlan {
    Ready(SpecBatchResponseItem),
    NeedsTool(SpecToolInvocation),
}

impl View for BatchItemPlan {
    type V = SpecBatchItemPlan;

    open spec fn view(&self) -> SpecBatchItemPlan {
        match self {
            BatchItemPlan::Ready(item) => SpecBatchItemPlan::Ready(item@),
            BatchItemPlan::NeedsTool(inv) => SpecBatchItemPlan::NeedsTool(inv@),
        }
    }
}

/// Model of a plan, element by element.
pub open spec fn view_plan(plan: Seq<BatchItemPlan>) -> Seq<SpecBatchItemPlan>
    decreases plan,
{
    if plan.len() == 0 {
        Seq::empty()
    } else {
        seq![plan[0]@] + view_plan(plan.drop_first())
    }
}

/// The plan view commutes with indexing.
pub proof fn lemma_view_plan(plan: Seq<BatchItemPlan>)
    ensures
        view_plan(plan).len() == plan.len(),
        forall|i: int| 0 <= i < plan.len() ==> view_plan(plan)[i] == (#[trigger] plan[i])@,
    decreases plan,
{
    if plan.len() > 0 {
        lemma_view_plan(plan.drop_first());
        assert forall|i: int| 0 <= i < plan.len() implies view_plan(plan)[i] == (
        #[trigger] plan[i])@ by {
            if i > 0 {
                assert(plan.drop_first()[i - 1] == plan[i]);
                assert(view_plan(plan)[i] == view_plan(plan.drop_first())[i - 1]);
            }
        }
    }
}

/// What one pending tool call came to: its result, or the report of a
/// run that failed outright (a crashed handler).
pub open spec fn view_run_outcome(r: Result<CallToolResult, String>) -> Result<
    crate::tool::SpecCallToolResult,
    Seq<char>,
> {
    match r {
        Ok(res) => Ok(res@),
        Err(msg) => Err(msg@),
    }
}

/// Model of a sequence of run outcomes, element by element.
pub open spec fn view_results(rs: Seq<Result<CallToolResult, String>>) -> Seq<
    Result<crate::tool::SpecCallToolResult, Seq<char>>,
>
    decreases rs,
{
    if rs.len() == 0 {
        Seq::empty()
    } else {
        seq![view_run_outcome(rs[0])] + view_results(rs.drop_first())
    }
}

/// The outcome view commutes with indexing.
pub proof fn lemma_view_results(rs: Seq<Result<CallToolResult, String>>)
    ensures
        view_results(rs).len() == rs.len(),
        forall|i: int| 0 <= i < rs.len() ==> view_results(rs)[i] == view_run_outcome(
            #[trigger] rs[i],
        ),
    decreases rs,
{
    if rs.len() > 0 {
        lemma_view_results(rs.drop_first());
        assert forall|i: int| 0 <= i < rs.len() implies view_results(rs)[i] == view_run_outcome(
            #[trigger] rs[i],
        ) by {
            if i > 0 {
                assert(rs.drop_first()[i - 1] == rs[i]);
                assert(view_results(rs)[i] == view_results(rs.drop_first())[i - 1]);
            }
        }
    }
}

/// How one batch element is planned: requests route as usual, and
/// notifications and ignored requests contribute nothing.
pub open spec fn spec_plan_item(s: SpecServer, item: SpecBatchRequestItem) -> Seq<
    SpecBatchItemPlan,
> {
    match item {
        SpecBatchRequestItem::Request(r) => match spec_handle_request(s, r) {
            SpecOutcome::Reply(reply) => seq![SpecBatchItemPlan::Ready(reply)],
            SpecOutcome::Invoke(inv) => seq![SpecBatchItemPlan::NeedsTool(inv)],
            SpecOutcome::Ignore => Seq::empty(),
        },
        SpecBatchRequestItem::Notification(_) => Seq::empty(),
    }
}

/// The plan of a whole batch, in order.
pub open spec fn spec_plan_batch(s: SpecServer, items: Seq<SpecBatchRequestItem>) -> Seq<
    SpecBatchItemPlan,
>
    decreases items,
{
    if items.len() == 0 {
        Seq::empty()
    } else {
        spec_plan_item(s, items[0]) + spec_plan_batch(s, items.drop_first())
    }
}

/// Planning distributes over concatenation.
pub proof fn lemma_plan_batch_concat(
    s: SpecServer,
    a: Seq<SpecBatchRequestItem>,
    b: Seq<SpecBatchRequestItem>,
)
    ensures
        spec_plan_batch(s, a + b) == spec_plan_batch(s, a) + spec_plan_batch(s, b),
    decreases a.len(),
{
    if a.len() == 0 {
        assert(a + b =~= b);
        assert(spec_plan_batch(s, a) == Seq::<SpecBatchItemPlan>::empty());
        assert(spec_plan_batch(s, a + b) =~= spec_plan_batch(s, a) + spec_plan_batch(s, b));
    } else {
        assert((a + b)[0] == a[0]);
        assert((a + b).drop_first() =~= a.drop_first() + b);
        lemma_plan_batch_concat(s, a.drop_first(), b);
        assert(spec_plan_batch(s, a + b) =~= spec_plan_batch(s, a) + spec_plan_batch(s, b));
    }
}

/// The number of pending tool calls in a plan.
pub open spec fn spec_count_pending(plan: Seq<SpecBatchItemPlan>) -> nat
    decreases plan,
{
    if plan.len() == 0 {
        0
    } else {
        (match plan[0] {
            SpecBatchItemPlan::NeedsTool(_) => 1 as nat,
            SpecBatchItemPlan::Ready(_) => 0 as nat,
        }) + spec_count_pending(plan.drop_first())
    }
}

/// The number of plan entries that still await a tool run: the number
/// of results `finish_batch` expects.
#[verifier::loop_isolation(false)]
pub fn count_pending(plan: &Vec<BatchItemPlan>) -> (n: usize)
    ensures
        n as nat == spec_count_pending(view_plan(plan@)),
{
    proof {
        lemma_view_plan(plan@);
        assert(view_plan(plan@).subrange(0, plan@.len() as int) =~= view_plan(plan@));
    }
    let m = plan.len();
    let mut n: usize = 0;
    let mut i: usize = 0;
    while i < m
        invariant
            0 <= i <= m,
            n <= i,
            n as nat + spec_count_pending(view_plan(plan@).subrange(i as int, m as int))
                == spec_count_pending(view_plan(plan@)),
        decreases m - i,
    {
        let ghost tail = view_plan(plan@).subrange(i as int, m as int);
        proof {
            assert(tail[0] == view_plan(plan@)[i as int]);
            assert(tail.drop_first() =~= view_plan(plan@).subrange(i + 1 as int, m as int));
        }
        match &plan[i] {
            BatchItemPlan::NeedsTool(_) => {
                n = n + 1;
            },
            BatchItemPlan::Ready(_) => {},
        }
        i = i + 1;
    }
    proof {
        assert(view_plan(plan@).subrange(m as int, m as int) =~= Seq::<SpecBatchItemPlan>::empty());
    }
    n
}

/// The reply one pending entry comes to: its tool's result in a
/// response, or an internal error when the run itself failed.  A tool
/// failure reported inside the result stays a response; only a crashed
/// run becomes a protocol error.
pub open spec fn spec_pending_reply(
    inv: SpecToolInvocation,
    outcome: Result<crate::tool::SpecCallToolResult, Seq<char>>,
) -> SpecBatchResponseItem {
    match outcome {
        Ok(res) => spec_response_item(inv.id, spec_call_tool_result_entries(res)),
        Err(msg) => spec_error_item(inv.id, INTERNAL_ERROR as int, msg),
    }
}

/// The finished replies of a plan: ready entries as they are, pending
/// entries completed with their run outcomes, in order.
pub open spec fn spec_finish_batch(
    plan: Seq<SpecBatchItemPlan>,
    results: Seq<Result<crate::tool::SpecCallToolResult, Seq<char>>>,
) -> Seq<SpecBatchResponseItem>
    decreases plan,
{
    if plan.len() == 0 {
        Seq::empty()
    } else {
        match plan[0] {
            SpecBatchItemPlan::Ready(item) => seq![item] + spec_finish_batch(
                plan.drop_first(),
                results,
            ),
            SpecBatchItemPlan::NeedsTool(inv) => seq![spec_pending_reply(inv, results[0])]
                + spec_finish_batch(plan.drop_first(), results.drop_first()),
        }
    }
}

impl MCPServer {
    /// Plan a batch: route each contained request; notifications get
    /// no reply.
    #[verifier::loop_isolation(false)]
    pub fn plan_batch(&self, batch: &JSONRPCBatchRequest) -> (plan: Vec<BatchItemPlan>)
        requires
            server_wf(self@),
        ensures
            view_plan(plan@) == spec_plan_batch(self@, view_req_items(batch.0@)),
    {
        proof {
            crate::mcp_codec::lemma_view_req_items(batch.0@);
            assert(view_req_items(batch.0@).subrange(0, batch.0@.len() as int) =~= view_req_items(
                batch.0@,
            ));
        }
        let n = batch.0.len();
        let mut out: Vec<BatchItemPlan> = Vec::new();
        proof {
            assert(view_plan(out@) =~= Seq::<SpecBatchItemPlan>::empty());
            assert(view_req_items(batch.0@).subrange(0, 0) =~= Seq::<SpecBatchRequestItem>::empty());
            assert(spec_plan_batch(self@, Seq::<SpecBatchRequestItem>::empty()) == Seq::<
                SpecBatchItemPlan,
            >::empty());
        }
        let mut i: usize = 0;
        while i < n
            invariant
                0 <= i <= n,
                view_plan(out@) == spec_plan_batch(
                    self@,
                    view_req_items(batch.0@).subrange(0, i as int),
                ),
            decreases n - i,
        {
            let ghost prefix = view_req_items(batch.0@).subrange(0, i as int);
            let ghost cur = view_req_items(batch.0@)[i as int];
            proof {
                assert(view_req_items(batch.0@).subrange(0, i + 1 as int) =~= prefix + seq![cur]);
                lemma_plan_batch_concat(self@, prefix, seq![cur]);
                assert(seq![cur].drop_first() =~= Seq::<SpecBatchRequestItem>::empty());
                assert(spec_plan_batch(self@, seq![cur]) =~= spec_plan_item(self@, cur));
            }
            match &batch.0[i] {
                JsonrpcBatchRequestItem::JSONRPCRequest(rq) => {
                    let outcome = self.handle_request(rq);
                    match outcome {
                        RequestOutcome::Reply(item) => {
                            let ghost pre_out = view_plan(out@);
                            let entry = BatchItemPlan::Ready(item);
                            proof {
                                lemma_view_plan_push(out@, entry);
                                assert(pre_out.push(entry@) =~= pre_out + seq![entry@]);
                            }
                            out.push(entry);
                        },
                        RequestOutcome::Invoke(inv) => {
                            let ghost pre_out = view_plan(out@);
                            let entry = BatchItemPlan::NeedsTool(inv);
                            proof {
                                lemma_view_plan_push(out@, entry);
                                assert(pre_out.push(entry@) =~= pre_out + seq![entry@]);
                            }
                            out.push(entry);
                        },
                        RequestOutcome::Ignore => {
                            proof {
                                assert(view_plan(out@) + Seq::<SpecBatchItemPlan>::empty()
                                    =~= view_plan(out@));
                            }
                        },
                    }
                },
                JsonrpcBatchRequestItem::JSONRPCNotification(_) => {
                    proof {
                        assert(view_plan(out@) + Seq::<SpecBatchItemPlan>::empty() =~= view_plan(
                            out@,
                        ));
                    }
                },
            }
            i = i + 1;
        }
        out
    }

    /// Run the notification handler for each notification in a batch.
    pub fn handle_batch_notifications(&self, batch: &JSONRPCBatchRequest) {
        let n = batch.0.len();
        let mut i: usize = 0;
        while i < n
            invariant
                0 <= i <= n,
                n == batch.0@.len(),
            decreases n - i,
        {
            match &batch.0[i] {
                JsonrpcBatchRequestItem::JSONRPCNotification(nn) => {
                    let _ = self.handle_notification(nn);
                },
                JsonrpcBatchRequestItem::JSONRPCRequest(_) => {},
            }
            i = i + 1;
        }
    }
}

/// Appending one entry extends the plan view.
pub proof fn lemma_view_plan_push(plan: Seq<BatchItemPlan>, x: BatchItemPlan)
    ensures
        view_plan(plan.push(x)) == view_plan(plan).push(x@),
{
    lemma_view_plan(plan.push(x));
    lemma_view_plan(plan);
    assert forall|i: int| 0 <= i < plan.push(x).len() implies view_plan(plan.push(x))[i]
        == view_plan(plan).push(x@)[i] by {
        if i < plan.len() {
            assert(plan.push(x)[i] == plan[i]);
        } else {
            assert(plan.push(x)[i] == x);
        }
    }
    assert(view_plan(plan.push(x)) =~= view_plan(plan).push(x@));
}

/// Assemble the batch reply: ready entries as they are, pending ones
/// completed with their run outcomes, in plan order.  A crashed run
/// yields an internal-error reply for that entry alone; the batch as a
/// whole never fails.
#[verifier::loop_isolation(false)]
pub fn finish_batch(plan: &Vec<BatchItemPlan>, results: &Vec<Result<CallToolResult, String>>) -> (resp:
    JSONRPCBatchResponse)
    requires
        spec_count_pending(view_plan(plan@)) == results@.len(),
    ensures
        view_resp_items(resp.0@) == spec_finish_batch(view_plan(plan@), view_results(results@)),
{
    proof {
        lemma_view_plan(plan@);
        lemma_view_results(results@);
        assert(view_plan(plan@).subrange(0, plan@.len() as int) =~= view_plan(plan@));
        assert(view_results(results@).subrange(0, results@.len() as int) =~= view_results(
            results@,
        ));
    }
    let n = plan.len();
    let m = results.len();
    let mut out: Vec<JsonrpcBatchResponseItem> = Vec::new();
    let mut i: usize = 0;
    let mut k: usize = 0;
    proof {
        assert(view_resp_items(out@) =~= Seq::<SpecBatchResponseItem>::empty());
    }
    while i < n
        invariant
            0 <= i <= n,
            0 <= k <= m,
            spec_finish_batch(view_plan(plan@), view_results(results@)) == view_resp_items(out@)
                + spec_finish_batch(
                view_plan(plan@).subrange(i as int, n as int),
                view_results(results@).subrange(k as int, m as int),
            ),
            spec_count_pending(view_plan(plan@).subrange(i as int, n as int)) == m - k,
        decreases n - i,
    {
        let ghost ptail = view_plan(plan@).subrange(i as int, n as int);
        let ghost rtail = view_results(results@).subrange(k as int, m as int);
        proof {
            assert(ptail[0] == plan@[i as int]@);
            assert(ptail.drop_first() =~= view_plan(plan@).subrange(i + 1 as int, n as int));
        }
        match &plan[i] {
            BatchItemPlan::Ready(item) => {
                let ghost pre_out = view_resp_items(out@);
                let copy = duplicate_response_item(item);
                proof {
                    crate::mcp_codec::lemma_view_resp_items(out@.push(copy));
                    crate::mcp_codec::lemma_view_resp_items(out@);
                    assert forall|q: int| 0 <= q < out@.push(copy).len() implies view_resp_items(
                        out@.push(copy),
                    )[q] == pre_out.push(copy@)[q] by {
                        if q < out@.len() {
                            assert(out@.push(copy)[q] == out@[q]);
                        } else {
                            assert(out@.push(copy)[q] == copy);
                        }
                    }
                    assert(view_resp_items(out@.push(copy)) =~= pre_out.push(copy@));
                    assert(pre_out.push(copy@) + spec_finish_batch(ptail.drop_first(), rtail)
                        =~= pre_out + (seq![copy@] + spec_finish_batch(ptail.drop_first(), rtail)));
                }
                out.push(copy);
            },
            BatchItemPlan::NeedsTool(inv) => {
                proof {
                    assert(rtail[0] == view_run_outcome(results@[k as int]));
                    assert(rtail.drop_first() =~= view_results(results@).subrange(
                        k + 1 as int,
                        m as int,
                    ));
                }
                let ghost pre_out = view_resp_items(out@);
                let reply = match &results[k] {
                    Ok(res) => call_tool_reply(inv.id.duplicate(), res),
                    Err(msg) => error_item(inv.id.duplicate(), INTERNAL_ERROR, msg.clone()),
                };
                proof {
                    crate::mcp_codec::lemma_view_resp_items(out@.push(reply));
                    crate::mcp_codec::lemma_view_resp_items(out@);
                    assert forall|q: int| 0 <= q < out@.push(reply).len() implies view_resp_items(
                        out@.push(reply),
                    )[q] == pre_out.push(reply@)[q] by {
                        if q < out@.len() {
                            assert(out@.push(reply)[q] == out@[q]);
                        } else {
                            assert(out@.push(reply)[q] == reply);
                        }
                    }
                    assert(view_resp_items(out@.push(reply)) =~= pre_out.push(reply@));
                    assert(pre_out.push(reply@) + spec_finish_batch(
                        ptail.drop_first(),
                        rtail.drop_first(),
                    ) =~= pre_out + (seq![reply@] + spec_finish_batch(
                        ptail.drop_first(),
                        rtail.drop_first(),
                    )));
                }
                out.push(reply);
                k = k + 1;
            },
        }
        i = i + 1;
    }
    proof {
        assert(view_plan(plan@).subrange(n as int, n as int) =~= Seq::<SpecBatchItemPlan>::empty());
        assert(view_results(results@).subrange(m as int, m as int) =~= Seq::<
            Result<crate::tool::SpecCallToolResult, Seq<char>>,
        >::empty());
        assert(view_resp_items(out@) + Seq::<SpecBatchResponseItem>::empty() =~= view_resp_items(
            out@,
        ));
    }
    JSONRPCBatchResponse(out)
}

/// A copy of a reply item with the same model.
pub fn duplicate_response_item(item: &JsonrpcBatchResponseItem) -> (r: JsonrpcBatchResponseItem)
    ensures
        r@ == item@,
{
    match item {
        JsonrpcBatchResponseItem::JSONRPCResponse(resp) => {
            let r = JsonrpcBatchResponseItem::JSONRPCResponse(
                JSONRPCResponse {
                    id: resp.id.duplicate(),
                    result: duplicate_entries(&resp.result),
                    extra: duplicate_entries(&resp.extra),
                },
            );
            proof {
                assert(r@ =~~= item@);
            }
            r
        },
        JsonrpcBatchResponseItem::JSONRPCError(err) => {
            let data = match &err.error.data {
                Some(d) => Some(d.duplicate()),
                None => None,
            };
            let r = JsonrpcBatchResponseItem::JSONRPCError(
                JSONRPCError {
                    id: err.id.duplicate(),
                    error: JsonrpcErrorError {
                        code: err.error.code,
                        message: err.error.message.clone(),
                        data,
                        extra: duplicate_entries(&err.error.extra),
                    },
                    extra: duplicate_entries(&err.extra),
                },
            );
            proof {
                assert(r@ =~~= item@);
            }
            r
        },
    }
}

/// The identifiers of the requests in a batch, in order.
pub open spec fn spec_request_ids(items: Seq<SpecBatchRequestItem>) -> Seq<SpecId>
    decreases items,
{
    if items.len() == 0 {
        Seq::empty()
    } else {
        (match items[0] {
            SpecBatchRequestItem::Request(r) => seq![r.id],
            SpecBatchRequestItem::Notification(_) => Seq::empty(),
        }) + spec_request_ids(items.drop_first())
    }
}

/// The identifiers of the replies in a batch reply, in order.
pub open spec fn spec_reply_ids(out: Seq<SpecBatchResponseItem>) -> Seq<SpecId>
    decreases out,
{
    if out.len() == 0 {
        Seq::empty()
    } else {
        seq![spec_item_reply_id(out[0])] + spec_reply_ids(out.drop_first())
    }
}

/// Batch closure: a batch whose requests are all post-handshake methods
/// produces exactly one reply per request, carrying the requests'
/// identifiers in order; its notifications produce none.
pub proof fn lemma_batch_closure(
    s: SpecServer,
    items: Seq<SpecBatchRequestItem>,
    results: Seq<Result<crate::tool::SpecCallToolResult, Seq<char>>>,
)
    requires
        spec_count_pending(spec_plan_batch(s, items)) == results.len(),
        forall|i: int| 0 <= i < items.len() ==> match #[trigger] items[i] {
            SpecBatchRequestItem::Request(r) => r.method != "initialize"@,
            SpecBatchRequestItem::Notification(_) => true,
        },
    ensures
        spec_reply_ids(spec_finish_batch(spec_plan_batch(s, items), results)) == spec_request_ids(
            items,
        ),
        spec_finish_batch(spec_plan_batch(s, items), results).len() == spec_request_ids(
            items,
        ).len(),
    decreases items,
{
    lemma_reply_ids_len(spec_finish_batch(spec_plan_batch(s, items), results));
    if items.len() == 0 {
        assert(spec_plan_batch(s, items) == Seq::<SpecBatchItemPlan>::empty());
    } else {
        let rest = items.drop_first();
        assert(forall|i: int| 0 <= i < rest.len() ==> #[trigger] rest[i] == items[i + 1]);
        match items[0] {
            SpecBatchRequestItem::Notification(_) => {
                assert(spec_plan_batch(s, items) =~= spec_plan_batch(s, rest));
                lemma_batch_closure(s, rest, results);
                assert(spec_request_ids(items) =~= spec_request_ids(rest));
            },
            SpecBatchRequestItem::Request(r) => {
                lemma_reply_id_echo(s, r);
                match spec_handle_request(s, r) {
                    SpecOutcome::Ignore => {
                        assert(false);
                    },
                    SpecOutcome::Reply(reply) => {
                        let plan = spec_plan_batch(s, items);
                        assert(plan == seq![SpecBatchItemPlan::Ready(reply)] + spec_plan_batch(
                            s,
                            rest,
                        ));
                        assert(plan.len() > 0);
                        assert(plan[0] == SpecBatchItemPlan::Ready(reply));
                        assert(plan.drop_first() =~= spec_plan_batch(s, rest));
                        lemma_batch_closure(s, rest, results);
                        let fin = spec_finish_batch(plan, results);
                        assert(fin == seq![reply] + spec_finish_batch(
                            spec_plan_batch(s, rest),
                            results,
                        ));
                        assert(fin[0] == reply);
                        assert(fin.drop_first() =~= spec_finish_batch(
                            spec_plan_batch(s, rest),
                            results,
                        ));
                        assert(spec_reply_ids(fin) =~= spec_request_ids(items));
                    },
                    SpecOutcome::Invoke(inv) => {
                        let plan = spec_plan_batch(s, items);
                        assert(plan == seq![SpecBatchItemPlan::NeedsTool(inv)] + spec_plan_batch(
                            s,
                            rest,
                        ));
                        assert(plan.len() > 0);
                        assert(plan[0] == SpecBatchItemPlan::NeedsTool(inv));
                        assert(plan.drop_first() =~= spec_plan_batch(s, rest));
                        assert(results.len() >= 1);
                        lemma_batch_closure(s, rest, results.drop_first());
                        let fin = spec_finish_batch(plan, results);
                        assert(fin == seq![spec_pending_reply(inv, results[0])]
                            + spec_finish_batch(spec_plan_batch(s, rest), results.drop_first()));
                        assert(spec_item_reply_id(spec_pending_reply(inv, results[0])) == inv.id);
                        assert(fin.drop_first() =~= spec_finish_batch(
                            spec_plan_batch(s, rest),
                            results.drop_first(),
                        ));
                        assert(spec_reply_ids(fin) =~= spec_request_ids(items));
                    },
                }
            },
        }
    }
}

/// A reply list has one identifier per reply.
pub proof fn lemma_reply_ids_len(out: Seq<SpecBatchResponseItem>)
    ensures
        spec_reply_ids(out).len() == out.len(),
    decreases out,
{
    if out.len() > 0 {
        lemma_reply_ids_len(out.drop_first());
    }
}

} // verus!
