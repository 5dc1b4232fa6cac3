//! The tool registry, the correlation runtime, the sink builders, and
//! the schema model.

use mmcp::json::JsonValue;
use mmcp::mcp::{JSONRPCMessage, RequestId};
use mmcp::mcp_codec::parse_message;
use mmcp::rpc::{make_notification, make_request, make_response, Command, RPCRuntime};
use mmcp::schema::{extract_ref_name, EnumType, SharedSchema, StringSchema};
use mmcp::server::MCPServer;
use mmcp::tool::{
    typed_tool_execute, CallToolResult, CallToolResultContent, IntoToolResult, Json, Text,
    ToolAnnotations, ToolDescriptor,
};
use mmcp::type_registry::{is_rust_keyword, NewTypeDef, TypeDef, TypeRef, TypeRegistry};

fn tool(name: &str, description: &str) -> ToolDescriptor {
    ToolDescriptor {
        name: name.to_string(),
        description: description.to_string(),
        input_schema: "{\"type\":\"object\"}".to_string(),
        annotations: ToolAnnotations::none(),
    }
}

#[test]
fn duplicate_registration_overwrites_in_place() {
    let server = MCPServer::new("S", "V")
        .add_tool(tool("a", "first"))
        .add_tool(tool("b", "second"))
        .add_tool(tool("a", "third"));
    let tools = server.list_tools();
    assert_eq!(tools.len(), 2);
    assert_eq!(tools[0].name, "a");
    assert_eq!(tools[0].description, "third");
    assert_eq!(tools[1].name, "b");
    assert!(server.get_tool("a").is_some());
    assert!(server.get_tool("missing").is_none());
    assert_eq!(server.list_resources().len(), 0);
    assert_eq!(server.list_prompts().len(), 0);
}

#[test]
fn with_tools_registers_a_whole_list() {
    let server = MCPServer::new("S", "V").with_tools(vec![
        tool("a", "one"),
        tool("b", "two"),
        tool("a", "three"),
    ]);
    let tools = server.list_tools();
    assert_eq!(tools.len(), 2);
    assert_eq!(tools[0].name, "a");
    assert_eq!(tools[0].description, "three");
    assert_eq!(tools[1].name, "b");
}

#[test]
fn correlation_delivers_to_registered_waiter() {
    // The reply arrives in the very step that drains the registration:
    // the waiter still gets it.
    let mut rt = RPCRuntime::new();
    let commands = vec![Command::WaitResponse {
        request_id: RequestId::Int(5),
        waiter: 77,
    }];
    let reply = parse_message("{\"id\":5,\"jsonrpc\":\"2.0\",\"result\":{\"ok\":true}}").unwrap();
    let deliveries = rt.progress(commands, &reply);
    assert_eq!(deliveries.len(), 1);
    assert_eq!(deliveries[0].waiter, 77);
    assert!(deliveries[0].outcome.is_ok());
    // The registration is consumed: a second identical reply delivers
    // to nobody.
    let deliveries = rt.progress(Vec::new(), &reply);
    assert!(deliveries.is_empty());
}

#[test]
fn batch_reply_correlates_each_element() {
    let mut rt = RPCRuntime::new();
    let commands = vec![
        Command::WaitResponse {
            request_id: RequestId::Int(5),
            waiter: 70,
        },
        Command::WaitResponse {
            request_id: RequestId::Int(6),
            waiter: 71,
        },
    ];
    // One batched reply answers both outbound requests, plus one
    // element nobody asked for.
    let reply = parse_message(
        "[{\"id\":6,\"jsonrpc\":\"2.0\",\"error\":{\"code\":-32600,\"message\":\"bad\"}},\
         {\"id\":5,\"jsonrpc\":\"2.0\",\"result\":{\"ok\":true}},\
         {\"id\":9,\"jsonrpc\":\"2.0\",\"result\":{}}]",
    )
    .unwrap();
    assert!(matches!(reply, JSONRPCMessage::JSONRPCBatchResponse(_)));
    let deliveries = rt.progress(commands, &reply);
    assert_eq!(deliveries.len(), 2);
    assert_eq!(deliveries[0].waiter, 71);
    assert!(deliveries[0].outcome.is_err());
    assert_eq!(deliveries[1].waiter, 70);
    assert!(deliveries[1].outcome.is_ok());
    // Both registrations are consumed: replaying the batch delivers to
    // nobody.
    assert!(rt.progress(Vec::new(), &reply).is_empty());
}

#[test]
fn error_reply_delivers_as_err() {
    let mut rt = RPCRuntime::new();
    let commands = vec![Command::WaitResponse {
        request_id: RequestId::Str("q".to_string()),
        waiter: 3,
    }];
    let reply =
        parse_message("{\"id\":\"q\",\"jsonrpc\":\"2.0\",\"error\":{\"code\":-32600,\"message\":\"bad\"}}")
            .unwrap();
    let deliveries = rt.progress(commands, &reply);
    assert_eq!(deliveries.len(), 1);
    assert!(deliveries[0].outcome.is_err());
}

#[test]
fn unrelated_messages_deliver_nothing() {
    let mut rt = RPCRuntime::new();
    let msg = parse_message("{\"id\":1,\"jsonrpc\":\"2.0\",\"method\":\"ping\"}").unwrap();
    assert!(rt.progress(Vec::new(), &msg).is_empty());
    if let JSONRPCMessage::JSONRPCRequest(_) = msg {
    } else {
        panic!("expected a request");
    }
}

#[test]
fn sink_builders_enforce_object_payloads() {
    let obj = JsonValue::Obj(vec![("k".to_string(), JsonValue::Bool(true))]);
    let n = make_notification("notifications/progress", obj).unwrap();
    assert_eq!(n.method, "notifications/progress");
    assert!(n.params.is_some());
    let n = make_notification("notifications/progress", JsonValue::Null).unwrap();
    assert!(n.params.is_none());
    assert!(make_notification("x", JsonValue::Num("1".to_string())).is_err());

    assert!(make_response(RequestId::Int(1), JsonValue::Null).is_err());
    let r = make_response(RequestId::Int(1), JsonValue::Obj(Vec::new())).unwrap();
    assert_eq!(r.result.len(), 0);

    let rq = make_request(RequestId::Int(2), "roots/list", JsonValue::Null).unwrap();
    assert_eq!(rq.method, "roots/list");
}

#[test]
fn ref_names_come_from_the_last_segment() {
    assert_eq!(extract_ref_name("#/definitions/TextContent"), "TextContent");
    assert_eq!(extract_ref_name("Plain"), "Plain");
    assert_eq!(extract_ref_name("a/b/c"), "c");
    assert_eq!(extract_ref_name("trailing/"), "");
}

#[test]
fn string_schemas_map_to_type_refs() {
    let plain = StringSchema::Plain {
        shared: SharedSchema { description: Some("d".to_string()) },
    };
    assert!(matches!(plain.type_ref(), Some(TypeRef::Str)));
    assert_eq!(plain.get_description(), Some("d".to_string()));

    let bytes = StringSchema::Format {
        shared: SharedSchema { description: None },
        format: "byte".to_string(),
    };
    assert!(matches!(bytes.type_ref(), Some(TypeRef::Bytes)));

    let constant = StringSchema::Const {
        shared: SharedSchema { description: None },
        constant: "2.0".to_string(),
    };
    match constant.type_ref() {
        Some(TypeRef::ConstString(c)) => assert_eq!(c, "2.0"),
        _ => panic!("expected a constant string type"),
    }

    let closed = StringSchema::Enum {
        shared: SharedSchema { description: None },
        options: vec!["a".to_string()],
    };
    assert!(closed.type_ref().is_none());

    assert!(matches!(EnumType::Integer.type_ref(), TypeRef::Integer));
}

#[test]
fn registry_iterates_in_registration_order() {
    let mut reg = TypeRegistry::new();
    let def = |name: &str| {
        TypeDef::NewType(NewTypeDef {
            name: name.to_string(),
            description: None,
            inner_type: TypeRef::Str,
            transparent: true,
        })
    };
    reg.register("B".to_string(), def("B1"));
    reg.register("A".to_string(), def("A1"));
    reg.register("B".to_string(), def("B2"));
    let listed = reg.iter();
    // Re-registration keeps the binding's place but lists the name on
    // every registration, under its latest definition.
    assert_eq!(listed.len(), 3);
    assert_eq!(listed[0].0, "B");
    assert_eq!(listed[1].0, "A");
    assert_eq!(listed[2].0, "B");
    match &listed[0].1 {
        TypeDef::NewType(nt) => assert_eq!(nt.name, "B2"),
        _ => panic!("expected the newtype definition"),
    }
    match (&listed[0].1, &listed[2].1) {
        (TypeDef::NewType(a), TypeDef::NewType(b)) => assert_eq!(a.name, b.name),
        _ => panic!("expected newtype definitions"),
    }

    let named = TypeRef::Ref("TextContent".to_string());
    assert_eq!(named.variant_name(), "TextContent");

    assert!(is_rust_keyword("type"));
    assert!(is_rust_keyword("ref"));
    assert!(!is_rust_keyword("name"));
}

#[test]
fn conversions_build_tool_results() {
    let r = vec![Text(1i64), Text(2i64), Text(30i64)].into_tool_result();
    assert_eq!(r.content.len(), 3);
    assert!(matches!(&r.content[2], CallToolResultContent::TextContent(t) if t.text == "30"));
    assert!(r.is_error.is_none());

    let r = Json(JsonValue::Arr(vec![JsonValue::Bool(true)])).into_tool_result();
    assert!(matches!(&r.content[0], CallToolResultContent::TextContent(t) if t.text == "[true]"));

    let r: CallToolResult = None::<Text<String>>.into_tool_result();
    assert!(r.content.is_empty());

    let r = typed_tool_execute::<Text<i64>>(Err("boom".to_string()));
    assert_eq!(r.is_error, Some(true));
    assert!(
        matches!(&r.content[0], CallToolResultContent::TextContent(t) if t.text == "Error: parsing input: boom")
    );

    let r = "hi".into_tool_result();
    assert!(matches!(&r.content[0], CallToolResultContent::TextContent(t) if t.text == "hi"));

    let r: CallToolResult = Ok::<Text<i64>, String>(Text(-7)).into_tool_result();
    assert!(matches!(&r.content[0], CallToolResultContent::TextContent(t) if t.text == "-7"));
}
