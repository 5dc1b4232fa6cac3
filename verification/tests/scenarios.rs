//! End-to-end sessions over wire text: handshake, listing, tool calls,
//! tool failures, unknown methods, queueing and batching.

use mmcp::json::{i64_from_str, JsonValue};
use mmcp::mcp::{JsonrpcBatchResponseItem, JSONRPCMessage};
use mmcp::mcp_codec::{parse_message, serialize_message};
use mmcp::server::{
    call_tool_reply, finish_batch, BatchItemPlan, MCPServer, RequestOutcome, ToolInvocation,
};
use mmcp::session::{session_on_message, Session, SessionStep};
use mmcp::tool::{typed_tool_execute, CallToolResult, Text, ToolAnnotations, ToolDescriptor};

fn tool(name: &str, description: &str) -> ToolDescriptor {
    ToolDescriptor {
        name: name.to_string(),
        description: description.to_string(),
        input_schema: "{\"type\":\"object\"}".to_string(),
        annotations: ToolAnnotations::none(),
    }
}

fn demo_server() -> MCPServer {
    MCPServer::new("S", "V")
        .add_tool(tool("add", "add"))
        .add_tool(tool("sub", "sub"))
        .add_tool(tool("noop", "noop"))
}

fn get_int(args: &Vec<(String, JsonValue)>, key: &str) -> Option<i64> {
    for (k, v) in args {
        if k == key {
            if let JsonValue::Num(lex) = v {
                return i64_from_str(lex.as_str());
            }
            return None;
        }
    }
    None
}

fn exec_tool(inv: &ToolInvocation) -> CallToolResult {
    if inv.name == "add" || inv.name == "sub" {
        let run = match (get_int(&inv.arguments, "x"), get_int(&inv.arguments, "y")) {
            (Some(x), Some(y)) => Ok(Text(if inv.name == "add" { x + y } else { x - y })),
            _ => Err("x and y must be integers".to_string()),
        };
        typed_tool_execute(run)
    } else {
        CallToolResult {
            content: Vec::new(),
            is_error: None,
            meta: None,
            extra: Vec::new(),
        }
    }
}

fn serialize_item(item: JsonrpcBatchResponseItem) -> String {
    match item {
        JsonrpcBatchResponseItem::JSONRPCResponse(r) => {
            serialize_message(&JSONRPCMessage::JSONRPCResponse(r))
        }
        JsonrpcBatchResponseItem::JSONRPCError(e) => {
            serialize_message(&JSONRPCMessage::JSONRPCError(e))
        }
    }
}

fn dispatch(server: &MCPServer, m: JSONRPCMessage, out: &mut Vec<String>) {
    match m {
        JSONRPCMessage::JSONRPCRequest(req) => match server.handle_request(&req) {
            RequestOutcome::Reply(item) => out.push(serialize_item(item)),
            RequestOutcome::Invoke(inv) => {
                let result = exec_tool(&inv);
                out.push(serialize_item(call_tool_reply(inv.id, &result)));
            }
            RequestOutcome::Ignore => {}
        },
        JSONRPCMessage::JSONRPCNotification(n) => {
            let _ = server.handle_notification(&n);
        }
        JSONRPCMessage::JSONRPCBatchRequest(b) => {
            server.handle_batch_notifications(&b);
            let plan = server.plan_batch(&b);
            let mut results: Vec<Result<CallToolResult, String>> = Vec::new();
            for p in &plan {
                if let BatchItemPlan::NeedsTool(inv) = p {
                    results.push(Ok(exec_tool(inv)));
                }
            }
            let resp = finish_batch(&plan, &results);
            out.push(serialize_message(&JSONRPCMessage::JSONRPCBatchResponse(
                resp,
            )));
        }
        _ => {}
    }
}

fn feed(server: &MCPServer, session: &mut Session, line: &str) -> Vec<String> {
    let mut out = Vec::new();
    let msg = parse_message(line).expect("line should parse");
    match session_on_message(server, session, msg) {
        SessionStep::Queued => {}
        SessionStep::SendInit(m) => out.push(serialize_message(&m)),
        SessionStep::Replay(ms) => {
            for m in ms {
                dispatch(server, m, &mut out);
            }
        }
        SessionStep::Dispatch(m) => dispatch(server, m, &mut out),
        SessionStep::Fatal(e) => panic!("fatal session error: {}", e),
    }
    out
}

const INIT_LINE: &str = "{\"id\":1,\"jsonrpc\":\"2.0\",\"method\":\"initialize\",\"params\":{\"capabilities\":{},\"clientInfo\":{\"name\":\"t\",\"version\":\"0\"},\"protocolVersion\":\"2025-03-26\"}}";
const INITIALIZED_LINE: &str = "{\"jsonrpc\":\"2.0\",\"method\":\"notifications/initialized\"}";

fn handshake(server: &MCPServer, session: &mut Session) {
    let out = feed(server, session, INIT_LINE);
    assert_eq!(out.len(), 1);
    let out = feed(server, session, INITIALIZED_LINE);
    assert!(out.is_empty());
}

#[test]
fn handshake_emits_initialize_result() {
    let server = demo_server();
    let mut session = Session::new();
    let out = feed(&server, &mut session, INIT_LINE);
    assert_eq!(
        out,
        vec!["{\"id\":1,\"jsonrpc\":\"2.0\",\"result\":{\"capabilities\":{\"prompts\":{\"listChanged\":true},\"resources\":{\"listChanged\":true,\"subscribe\":false},\"tools\":{\"listChanged\":true}},\"protocolVersion\":\"2025-03-26\",\"serverInfo\":{\"name\":\"S\",\"version\":\"V\"}}}"
        .to_string()]
    );
    let out = feed(&server, &mut session, INITIALIZED_LINE);
    assert!(out.is_empty());
}

#[test]
fn tools_list_in_registry_order() {
    let server = demo_server();
    let mut session = Session::new();
    handshake(&server, &mut session);
    let out = feed(
        &server,
        &mut session,
        "{\"id\":2,\"jsonrpc\":\"2.0\",\"method\":\"tools/list\"}",
    );
    assert_eq!(
        out,
        vec!["{\"id\":2,\"jsonrpc\":\"2.0\",\"result\":{\"tools\":[{\"name\":\"add\",\"description\":\"add\",\"inputSchema\":{\"type\":\"object\"},\"annotations\":{}},{\"name\":\"sub\",\"description\":\"sub\",\"inputSchema\":{\"type\":\"object\"},\"annotations\":{}},{\"name\":\"noop\",\"description\":\"noop\",\"inputSchema\":{\"type\":\"object\"},\"annotations\":{}}]}}"
        .to_string()]
    );
}

#[test]
fn tools_list_with_lexicographic_registration() {
    // Registered in lexicographic order, so registration order and a
    // lexicographic listing coincide on this registry.
    let server = MCPServer::new("S", "V")
        .add_tool(tool("add", "add"))
        .add_tool(tool("noop", "noop"))
        .add_tool(tool("sub", "sub"));
    let mut session = Session::new();
    handshake(&server, &mut session);
    let out = feed(
        &server,
        &mut session,
        "{\"id\":2,\"jsonrpc\":\"2.0\",\"method\":\"tools/list\"}",
    );
    assert_eq!(
        out,
        vec!["{\"id\":2,\"jsonrpc\":\"2.0\",\"result\":{\"tools\":[{\"name\":\"add\",\"description\":\"add\",\"inputSchema\":{\"type\":\"object\"},\"annotations\":{}},{\"name\":\"noop\",\"description\":\"noop\",\"inputSchema\":{\"type\":\"object\"},\"annotations\":{}},{\"name\":\"sub\",\"description\":\"sub\",\"inputSchema\":{\"type\":\"object\"},\"annotations\":{}}]}}"
        .to_string()]
    );
}

#[test]
fn tools_call_add_succeeds() {
    let server = demo_server();
    let mut session = Session::new();
    handshake(&server, &mut session);
    let out = feed(
        &server,
        &mut session,
        "{\"id\":3,\"jsonrpc\":\"2.0\",\"method\":\"tools/call\",\"params\":{\"name\":\"add\",\"arguments\":{\"x\":2,\"y\":3}}}",
    );
    assert_eq!(
        out,
        vec![
            "{\"id\":3,\"jsonrpc\":\"2.0\",\"result\":{\"content\":[{\"type\":\"text\",\"text\":\"5\"}]}}"
                .to_string()
        ]
    );
}

#[test]
fn tools_call_unknown_tool_is_invalid_params() {
    let server = demo_server();
    let mut session = Session::new();
    handshake(&server, &mut session);
    let out = feed(
        &server,
        &mut session,
        "{\"id\":4,\"jsonrpc\":\"2.0\",\"method\":\"tools/call\",\"params\":{\"name\":\"nope\"}}",
    );
    assert_eq!(
        out,
        vec![
            "{\"id\":4,\"jsonrpc\":\"2.0\",\"error\":{\"code\":-32602,\"message\":\"Tool not found: nope\"}}"
                .to_string()
        ]
    );
}

#[test]
fn tools_call_bad_arguments_is_tool_error_not_rpc_error() {
    let server = demo_server();
    let mut session = Session::new();
    handshake(&server, &mut session);
    let out = feed(
        &server,
        &mut session,
        "{\"id\":5,\"jsonrpc\":\"2.0\",\"method\":\"tools/call\",\"params\":{\"name\":\"add\",\"arguments\":{\"x\":\"two\",\"y\":3}}}",
    );
    assert_eq!(
        out,
        vec!["{\"id\":5,\"jsonrpc\":\"2.0\",\"result\":{\"content\":[{\"type\":\"text\",\"text\":\"Error: parsing input: x and y must be integers\"}],\"isError\":true}}"
        .to_string()]
    );
}

#[test]
fn unknown_method_is_method_not_found() {
    let server = demo_server();
    let mut session = Session::new();
    handshake(&server, &mut session);
    let out = feed(
        &server,
        &mut session,
        "{\"id\":6,\"jsonrpc\":\"2.0\",\"method\":\"telemetry/ping\"}",
    );
    assert_eq!(
        out,
        vec!["{\"id\":6,\"jsonrpc\":\"2.0\",\"error\":{\"code\":-32601,\"message\":\"Method not supported: telemetry/ping\"}}"
        .to_string()]
    );
}

#[test]
fn ping_replies_pong() {
    let server = demo_server();
    let mut session = Session::new();
    handshake(&server, &mut session);
    let out = feed(
        &server,
        &mut session,
        "{\"id\":7,\"jsonrpc\":\"2.0\",\"method\":\"ping\"}",
    );
    assert_eq!(
        out,
        vec!["{\"id\":7,\"jsonrpc\":\"2.0\",\"result\":{\"message\":\"pong\"}}".to_string()]
    );
}

#[test]
fn resources_and_prompts_list_are_empty() {
    let server = demo_server();
    let mut session = Session::new();
    handshake(&server, &mut session);
    let out = feed(
        &server,
        &mut session,
        "{\"id\":8,\"jsonrpc\":\"2.0\",\"method\":\"resources/list\"}",
    );
    assert_eq!(
        out,
        vec!["{\"id\":8,\"jsonrpc\":\"2.0\",\"result\":{\"resources\":[]}}".to_string()]
    );
    let out = feed(
        &server,
        &mut session,
        "{\"id\":9,\"jsonrpc\":\"2.0\",\"method\":\"prompts/list\"}",
    );
    assert_eq!(
        out,
        vec!["{\"id\":9,\"jsonrpc\":\"2.0\",\"result\":{\"prompts\":[]}}".to_string()]
    );
}

#[test]
fn handshake_queueing_replays_in_arrival_order() {
    let server = demo_server();
    let mut session = Session::new();
    // Two messages race ahead of the handshake.
    assert!(feed(
        &server,
        &mut session,
        "{\"id\":11,\"jsonrpc\":\"2.0\",\"method\":\"ping\"}"
    )
    .is_empty());
    let out = feed(&server, &mut session, INIT_LINE);
    assert_eq!(out.len(), 1);
    assert!(feed(
        &server,
        &mut session,
        "{\"id\":12,\"jsonrpc\":\"2.0\",\"method\":\"telemetry/x\"}"
    )
    .is_empty());
    // Completing the handshake replays both, in order.
    let out = feed(&server, &mut session, INITIALIZED_LINE);
    assert_eq!(
        out,
        vec![
            "{\"id\":11,\"jsonrpc\":\"2.0\",\"result\":{\"message\":\"pong\"}}".to_string(),
            "{\"id\":12,\"jsonrpc\":\"2.0\",\"error\":{\"code\":-32601,\"message\":\"Method not supported: telemetry/x\"}}"
                .to_string(),
        ]
    );
}

#[test]
fn late_initialize_gets_no_reply() {
    let server = demo_server();
    let mut session = Session::new();
    handshake(&server, &mut session);
    let out = feed(&server, &mut session, INIT_LINE);
    assert!(out.is_empty());
}

#[test]
fn batch_produces_one_reply_per_request() {
    let server = demo_server();
    let mut session = Session::new();
    handshake(&server, &mut session);
    // Two requests and one notification: exactly two replies, one
    // batch message, identifiers echoed.
    let out = feed(
        &server,
        &mut session,
        "[{\"id\":21,\"jsonrpc\":\"2.0\",\"method\":\"ping\"},{\"jsonrpc\":\"2.0\",\"method\":\"notifications/progress\"},{\"id\":22,\"jsonrpc\":\"2.0\",\"method\":\"tools/call\",\"params\":{\"name\":\"sub\",\"arguments\":{\"x\":10,\"y\":4}}}]",
    );
    assert_eq!(
        out,
        vec!["[{\"id\":21,\"jsonrpc\":\"2.0\",\"result\":{\"message\":\"pong\"}},{\"id\":22,\"jsonrpc\":\"2.0\",\"result\":{\"content\":[{\"type\":\"text\",\"text\":\"6\"}]}}]"
        .to_string()]
    );
}

#[test]
fn tools_call_without_arguments_gets_empty_object() {
    let server = demo_server();
    let mut session = Session::new();
    handshake(&server, &mut session);
    let out = feed(
        &server,
        &mut session,
        "{\"id\":30,\"jsonrpc\":\"2.0\",\"method\":\"tools/call\",\"params\":{\"name\":\"noop\"}}",
    );
    assert_eq!(
        out,
        vec!["{\"id\":30,\"jsonrpc\":\"2.0\",\"result\":{\"content\":[]}}".to_string()]
    );
}

#[test]
fn bad_protocol_version_is_fatal() {
    let server = demo_server();
    let mut session = Session::new();
    let msg = parse_message(
        "{\"id\":1,\"jsonrpc\":\"2.0\",\"method\":\"initialize\",\"params\":{\"protocolVersion\":\"1.0\"}}",
    )
    .unwrap();
    assert!(matches!(
        session_on_message(&server, &mut session, msg),
        SessionStep::Fatal(_)
    ));
}

#[test]
fn missing_initialize_params_is_fatal() {
    let server = demo_server();
    let mut session = Session::new();
    let msg =
        parse_message("{\"id\":1,\"jsonrpc\":\"2.0\",\"method\":\"initialize\"}").unwrap();
    assert!(matches!(
        session_on_message(&server, &mut session, msg),
        SessionStep::Fatal(_)
    ));
}

#[test]
fn tools_call_with_malformed_params_is_invalid_params() {
    let server = demo_server();
    let mut session = Session::new();
    handshake(&server, &mut session);
    // No params at all.
    let out = feed(
        &server,
        &mut session,
        "{\"id\":40,\"jsonrpc\":\"2.0\",\"method\":\"tools/call\"}",
    );
    assert_eq!(
        out,
        vec![
            "{\"id\":40,\"jsonrpc\":\"2.0\",\"error\":{\"code\":-32602,\"message\":\"Invalid params: missing params\"}}"
                .to_string()
        ]
    );
    // Arguments present but not an object.
    let out = feed(
        &server,
        &mut session,
        "{\"id\":41,\"jsonrpc\":\"2.0\",\"method\":\"tools/call\",\"params\":{\"name\":\"add\",\"arguments\":7}}",
    );
    assert_eq!(
        out,
        vec![
            "{\"id\":41,\"jsonrpc\":\"2.0\",\"error\":{\"code\":-32602,\"message\":\"Invalid params: arguments must be an object\"}}"
                .to_string()
        ]
    );
    // Params present but no tool name.
    let out = feed(
        &server,
        &mut session,
        "{\"id\":42,\"jsonrpc\":\"2.0\",\"method\":\"tools/call\",\"params\":{\"arguments\":{}}}",
    );
    assert_eq!(
        out,
        vec![
            "{\"id\":42,\"jsonrpc\":\"2.0\",\"error\":{\"code\":-32602,\"message\":\"Invalid params: name must be a string\"}}"
                .to_string()
        ]
    );
}

#[test]
fn crashed_tool_run_in_batch_is_internal_error() {
    let server = demo_server();
    let mut session = Session::new();
    handshake(&server, &mut session);
    let msg = parse_message(
        "[{\"id\":50,\"jsonrpc\":\"2.0\",\"method\":\"tools/call\",\"params\":{\"name\":\"add\",\"arguments\":{\"x\":1,\"y\":2}}},{\"id\":51,\"jsonrpc\":\"2.0\",\"method\":\"ping\"}]",
    )
    .unwrap();
    let step = session_on_message(&server, &mut session, msg);
    let batch = match step {
        SessionStep::Dispatch(JSONRPCMessage::JSONRPCBatchRequest(b)) => b,
        _ => panic!("expected a batch to dispatch"),
    };
    let plan = server.plan_batch(&batch);
    // Pretend the one pending tool run crashed.
    let mut results: Vec<Result<CallToolResult, String>> = Vec::new();
    for p in &plan {
        if let BatchItemPlan::NeedsTool(_) = p {
            results.push(Err("tool run failed".to_string()));
        }
    }
    let resp = finish_batch(&plan, &results);
    let line = serialize_message(&JSONRPCMessage::JSONRPCBatchResponse(resp));
    assert_eq!(
        line,
        "[{\"id\":50,\"jsonrpc\":\"2.0\",\"error\":{\"code\":-32603,\"message\":\"tool run failed\"}},{\"id\":51,\"jsonrpc\":\"2.0\",\"result\":{\"message\":\"pong\"}}]"
    );
}
