//! JSON-RPC wire messages.
//!
//! The six message shapes are plain values over [`JsonValue`]; each keeps
//! the object keys it does not interpret in an `extra` list, in wire
//! order, so that a message survives serialization and parsing unchanged.
//! Encoding to a JSON value and decoding back are specified exactly, and
//! decoding tries the shapes in the same order a tagged-union decoder
//! would: request, notification, batch of requests, response, error,
//! batch of responses.

use vstd::prelude::*;
use crate::json::{
    JsonValue, SpecJson, spec_obj_get, spec_parse_i64, spec_int_chars, json_wf,
    view_json_entries, view_json,
};

verus! {

/// The identifier of a request: an integer or a string.
#[derive(Debug, Clone, PartialEq)]
pub enum RequestId {
    Str(String),
    Int(i64),
}

/// Model of a request identifier.
#[verifier::ext_equal]
pub ghost enum SpecId {
    Str(Seq<char>),
    Int(int),
}

impl View for RequestId {
    type V = SpecId;

    open spec fn view(&self) -> SpecId {
        match self {
            RequestId::Str(s) => SpecId::Str(s@),
            RequestId::Int(v) => SpecId::Int(*v as int),
        }
    }
}

impl RequestId {
    /// A copy with the same model.
    pub fn duplicate(&self) -> (r: RequestId)
        ensures
            r@ == self@,
    {
        match self {
            RequestId::Str(s) => RequestId::Str(s.clone()),
            RequestId::Int(v) => RequestId::Int(*v),
        }
    }
}

/// A request: a method call that expects exactly one reply.
#[derive(Debug, PartialEq)]
pub struct JSONRPCRequest {
    pub id: RequestId,
    pub method: String,
    pub params: Option<Vec<(String, JsonValue)>>,
    /// Additional object keys that are not part of the schema.
    pub extra: Vec<(String, JsonValue)>,
}

/// Model of a request.
#[verifier::ext_equal]
pub ghost struct SpecRequest {
    pub id: SpecId,
    pub method: Seq<char>,
    pub params: Option<Seq<(Seq<char>, SpecJson)>>,
    pub extra: Seq<(Seq<char>, SpecJson)>,
}

impl View for JSONRPCRequest {
    type V = SpecRequest;

    open spec fn view(&self) -> SpecRequest {
        SpecRequest {
            id: self.id@,
            method: self.method@,
            params: match self.params {
                Some(p) => Some(view_json_entries(p@)),
                None => None,
            },
            extra: view_json_entries(self.extra@),
        }
    }
}

/// A notification: a method call that never gets a reply.
#[derive(Debug, PartialEq)]
pub struct JSONRPCNotification {
    pub method: String,
    pub params: Option<Vec<(String, JsonValue)>>,
    /// Additional object keys that are not part of the schema.
    pub extra: Vec<(String, JsonValue)>,
}

/// Model of a notification.
#[verifier::ext_equal]
pub ghost struct SpecNotification {
    pub method: Seq<char>,
    pub params: Option<Seq<(Seq<char>, SpecJson)>>,
    pub extra: Seq<(Seq<char>, SpecJson)>,
}

impl View for JSONRPCNotification {
    type V = SpecNotification;

    open spec fn view(&self) -> SpecNotification {
        SpecNotification {
            method: self.method@,
            params: match self.params {
                Some(p) => Some(view_json_entries(p@)),
                None => None,
            },
            extra: view_json_entries(self.extra@),
        }
    }
}

/// A successful reply, carrying a result object.
#[derive(Debug, PartialEq)]
pub struct JSONRPCResponse {
    pub id: RequestId,
    pub result: Vec<(String, JsonValue)>,
    /// Additional object keys that are not part of the schema.
    pub extra: Vec<(String, JsonValue)>,
}

/// Model of a response.
#[verifier::ext_equal]
pub ghost struct SpecResponse {
    pub id: SpecId,
    pub result: Seq<(Seq<char>, SpecJson)>,
    pub extra: Seq<(Seq<char>, SpecJson)>,
}

impl View for JSONRPCResponse {
    type V = SpecResponse;

    open spec fn view(&self) -> SpecResponse {
        SpecResponse {
            id: self.id@,
            result: view_json_entries(self.result@),
            extra: view_json_entries(self.extra@),
        }
    }
}

/// The error object inside an error reply.
#[derive(Debug, PartialEq)]
pub struct JsonrpcErrorError {
    pub code: i64,
    pub message: String,
    pub data: Option<JsonValue>,
    /// Additional object keys that are not part of the schema.
    pub extra: Vec<(String, JsonValue)>,
}

/// Model of an error object.
#[verifier::ext_equal]
pub ghost struct SpecErrorBody {
    pub code: int,
    pub message: Seq<char>,
    pub data: Option<SpecJson>,
    pub extra: Seq<(Seq<char>, SpecJson)>,
}

impl View for JsonrpcErrorError {
    type V = SpecErrorBody;

    open spec fn view(&self) -> SpecErrorBody {
        SpecErrorBody {
            code: self.code as int,
            message: self.message@,
            data: match self.data {
                Some(d) => Some(view_json(d)),
                None => None,
            },
            extra: view_json_entries(self.extra@),
        }
    }
}

/// An error reply.
#[derive(Debug, PartialEq)]
pub struct JSONRPCError {
    pub id: RequestId,
    pub error: JsonrpcErrorError,
    /// Additional object keys that are not part of the schema.
    pub extra: Vec<(String, JsonValue)>,
}

/// Model of an error reply.
#[verifier::ext_equal]
pub ghost struct SpecError {
    pub id: SpecId,
    pub error: SpecErrorBody,
    pub extra: Seq<(Seq<char>, SpecJson)>,
}

impl View for JSONRPCError {
    type V = SpecError;

    open spec fn view(&self) -> SpecError {
        SpecError { id: self.id@, error: self.error@, extra: view_json_entries(self.extra@) }
    }
}

/// One element of a batched request array.
#[derive(Debug, PartialEq)]
pub enum JsonrpcBatchRequestItem {
    JSONRPCRequest(JSONRPCRequest),
    JSONRPCNotification(JSONRPCNotification),
}

/// Model of a batched request element.
#[verifier::ext_equal]
pub ghost enum SpecBatchRequestItem {
    Request(SpecRequest),
    Notification(SpecNotification),
}

impl View for JsonrpcBatchRequestItem {
    type V = SpecBatchRequestItem;

    open spec fn view(&self) -> SpecBatchRequestItem {
        match self {
            JsonrpcBatchRequestItem::JSONRPCRequest(r) => SpecBatchRequestItem::Request(r@),
            JsonrpcBatchRequestItem::JSONRPCNotification(n) => SpecBatchRequestItem::Notification(
                n@,
            ),
        }
    }
}

/// One element of a batched reply array.
#[derive(Debug, PartialEq)]
pub enum JsonrpcBatchResponseItem {
    JSONRPCResponse(JSONRPCResponse),
    JSONRPCError(JSONRPCError),
}

/// Model of a batched reply element.
#[verifier::ext_equal]
pub ghost enum SpecBatchResponseItem {
    Response(SpecResponse),
    Error(SpecError),
}

impl View for JsonrpcBatchResponseItem {
    type V = SpecBatchResponseItem;

    open spec fn view(&self) -> SpecBatchResponseItem {
        match self {
            JsonrpcBatchResponseItem::JSONRPCResponse(r) => SpecBatchResponseItem::Response(r@),
            JsonrpcBatchResponseItem::JSONRPCError(e) => SpecBatchResponseItem::Error(e@),
        }
    }
}

/// A batch of requests and notifications.
#[derive(Debug, PartialEq)]
pub struct JSONRPCBatchRequest(pub Vec<JsonrpcBatchRequestItem>);

/// A batch of replies.
#[derive(Debug, PartialEq)]
pub struct JSONRPCBatchResponse(pub Vec<JsonrpcBatchResponseItem>);

/// Any JSON-RPC message that can appear on the wire.
#[derive(Debug, PartialEq)]
pub enum JSONRPCMessage {
    JSONRPCRequest(JSONRPCRequest),
    JSONRPCNotification(JSONRPCNotification),
    JSONRPCBatchRequest(JSONRPCBatchRequest),
    JSONRPCResponse(JSONRPCResponse),
    JSONRPCError(JSONRPCError),
    JSONRPCBatchResponse(JSONRPCBatchResponse),
}

/// Model of a message.
#[verifier::ext_equal]
pub ghost enum SpecMessage {
    Request(SpecRequest),
    Notification(SpecNotification),
    BatchRequest(Seq<SpecBatchRequestItem>),
    Response(SpecResponse),
    Error(SpecError),
    BatchResponse(Seq<SpecBatchResponseItem>),
}

/// Model of a sequence of batched request elements.
pub open spec fn view_req_items(items: Seq<JsonrpcBatchRequestItem>) -> Seq<SpecBatchRequestItem>
    decreases items,
{
    if items.len() == 0 {
        Seq::empty()
    } else {
        seq![items[0]@] + view_req_items(items.drop_first())
    }
}

/// Model of a sequence of batched reply elements.
pub open spec fn view_resp_items(items: Seq<JsonrpcBatchResponseItem>) -> Seq<
    SpecBatchResponseItem,
>
    decreases items,
{
    if items.len() == 0 {
        Seq::empty()
    } else {
        seq![items[0]@] + view_resp_items(items.drop_first())
    }
}

/// The identifier a reply carries.
pub open spec fn spec_item_reply_id(item: SpecBatchResponseItem) -> SpecId {
    match item {
        SpecBatchResponseItem::Response(r) => r.id,
        SpecBatchResponseItem::Error(e) => e.id,
    }
}

impl View for JSONRPCMessage {
    type V = SpecMessage;

    open spec fn view(&self) -> SpecMessage {
        match self {
            JSONRPCMessage::JSONRPCRequest(r) => SpecMessage::Request(r@),
            JSONRPCMessage::JSONRPCNotification(n) => SpecMessage::Notification(n@),
            JSONRPCMessage::JSONRPCBatchRequest(b) => SpecMessage::BatchRequest(
                view_req_items(b.0@),
            ),
            JSONRPCMessage::JSONRPCResponse(r) => SpecMessage::Response(r@),
            JSONRPCMessage::JSONRPCError(e) => SpecMessage::Error(e@),
            JSONRPCMessage::JSONRPCBatchResponse(b) => SpecMessage::BatchResponse(
                view_resp_items(b.0@),
            ),
        }
    }
}

/// The `"id"` key.
pub open spec fn kid() -> Seq<char> {
    seq!['i', 'd']
}

/// The `"jsonrpc"` key.
pub open spec fn kjsonrpc() -> Seq<char> {
    seq!['j', 's', 'o', 'n', 'r', 'p', 'c']
}

/// The `"method"` key.
pub open spec fn kmethod() -> Seq<char> {
    seq!['m', 'e', 't', 'h', 'o', 'd']
}

/// The `"params"` key.
pub open spec fn kparams() -> Seq<char> {
    seq!['p', 'a', 'r', 'a', 'm', 's']
}

/// The `"result"` key.
pub open spec fn kresult() -> Seq<char> {
    seq!['r', 'e', 's', 'u', 'l', 't']
}

/// The `"error"` key.
pub open spec fn kerror() -> Seq<char> {
    seq!['e', 'r', 'r', 'o', 'r']
}

/// The `"code"` key.
pub open spec fn kcode() -> Seq<char> {
    seq!['c', 'o', 'd', 'e']
}

/// The `"message"` key.
pub open spec fn kmessage() -> Seq<char> {
    seq!['m', 'e', 's', 's', 'a', 'g', 'e']
}

/// The `"data"` key.
pub open spec fn kdata() -> Seq<char> {
    seq!['d', 'a', 't', 'a']
}

/// The protocol tag every message carries.
pub open spec fn jsonrpc_version() -> Seq<char> {
    seq!['2', '.', '0']
}

/// Keys the message shapes claim for themselves.
pub open spec fn is_reserved_key(k: Seq<char>) -> bool {
    ||| k == kid()
    ||| k == kjsonrpc()
    ||| k == kmethod()
    ||| k == kparams()
    ||| k == kresult()
    ||| k == kerror()
}

/// Keys the error object claims for itself.
pub open spec fn is_body_key(k: Seq<char>) -> bool {
    ||| k == kcode()
    ||| k == kmessage()
    ||| k == kdata()
}

/// The entries whose keys are not reserved, in order.
pub open spec fn strip_reserved(e: Seq<(Seq<char>, SpecJson)>) -> Seq<(Seq<char>, SpecJson)>
    decreases e,
{
    if e.len() == 0 {
        e
    } else if is_reserved_key(e[0].0) {
        strip_reserved(e.drop_first())
    } else {
        seq![e[0]] + strip_reserved(e.drop_first())
    }
}

/// The entries whose keys are not the error object's own, in order.
pub open spec fn strip_body_keys(e: Seq<(Seq<char>, SpecJson)>) -> Seq<(Seq<char>, SpecJson)>
    decreases e,
{
    if e.len() == 0 {
        e
    } else if is_body_key(e[0].0) {
        strip_body_keys(e.drop_first())
    } else {
        seq![e[0]] + strip_body_keys(e.drop_first())
    }
}

/// Every value in the entry list is well formed.
pub open spec fn entries_wf(e: Seq<(Seq<char>, SpecJson)>) -> bool {
    forall|i: int| 0 <= i < e.len() ==> json_wf((#[trigger] e[i]).1)
}

/// A well-formed extra list: well-formed values under unreserved keys.
pub open spec fn extra_wf(e: Seq<(Seq<char>, SpecJson)>) -> bool {
    &&& entries_wf(e)
    &&& forall|i: int| 0 <= i < e.len() ==> !is_reserved_key((#[trigger] e[i]).0)
}

/// A request identifier in range.
pub open spec fn id_wf(id: SpecId) -> bool {
    match id {
        SpecId::Str(_) => true,
        SpecId::Int(v) => -0x8000000000000000 <= v <= 0x7fffffffffffffff,
    }
}

/// A well-formed request.
pub open spec fn request_wf(r: SpecRequest) -> bool {
    &&& id_wf(r.id)
    &&& match r.params {
        Some(p) => entries_wf(p),
        None => true,
    }
    &&& extra_wf(r.extra)
}

/// A well-formed notification.
pub open spec fn notification_wf(n: SpecNotification) -> bool {
    &&& match n.params {
        Some(p) => entries_wf(p),
        None => true,
    }
    &&& extra_wf(n.extra)
}

/// A well-formed response.
pub open spec fn response_wf(r: SpecResponse) -> bool {
    &&& id_wf(r.id)
    &&& entries_wf(r.result)
    &&& extra_wf(r.extra)
}

/// A well-formed error object.
pub open spec fn error_body_wf(b: SpecErrorBody) -> bool {
    &&& -0x8000000000000000 <= b.code <= 0x7fffffffffffffff
    &&& match b.data {
        Some(d) => json_wf(d),
        None => true,
    }
    &&& entries_wf(b.extra)
    &&& forall|i: int| 0 <= i < b.extra.len() ==> !is_body_key((#[trigger] b.extra[i]).0)
}

/// A well-formed error reply.
pub open spec fn error_wf(e: SpecError) -> bool {
    &&& id_wf(e.id)
    &&& error_body_wf(e.error)
    &&& extra_wf(e.extra)
}

/// A well-formed message.  A batch of replies must be non-empty: an
/// empty array reads back as an empty batch of requests.
pub open spec fn msg_wf(m: SpecMessage) -> bool {
    match m {
        SpecMessage::Request(r) => request_wf(r),
        SpecMessage::Notification(n) => notification_wf(n),
        SpecMessage::BatchRequest(items) => forall|i: int|
            0 <= i < items.len() ==> match #[trigger] items[i] {
                SpecBatchRequestItem::Request(r) => request_wf(r),
                SpecBatchRequestItem::Notification(n) => notification_wf(n),
            },
        SpecMessage::Response(r) => response_wf(r),
        SpecMessage::Error(e) => error_wf(e),
        SpecMessage::BatchResponse(items) => items.len() > 0 && forall|i: int|
            0 <= i < items.len() ==> match #[trigger] items[i] {
                SpecBatchResponseItem::Response(r) => response_wf(r),
                SpecBatchResponseItem::Error(e) => error_wf(e),
            },
    }
}

/// The JSON value of an identifier.
pub open spec fn spec_id_json(id: SpecId) -> SpecJson {
    match id {
        SpecId::Str(s) => SpecJson::Str(s),
        SpecId::Int(v) => SpecJson::Num(spec_int_chars(v)),
    }
}

/// The object entries of an encoded request.
pub open spec fn spec_enc_request(r: SpecRequest) -> Seq<(Seq<char>, SpecJson)> {
    seq![
        (kid(), spec_id_json(r.id)),
        (kjsonrpc(), SpecJson::Str(jsonrpc_version())),
        (kmethod(), SpecJson::Str(r.method)),
    ] + (match r.params {
        Some(p) => seq![(kparams(), SpecJson::Obj(p))],
        None => Seq::empty(),
    }) + r.extra
}

/// The object entries of an encoded notification.
pub open spec fn spec_enc_notification(n: SpecNotification) -> Seq<(Seq<char>, SpecJson)> {
    seq![(kjsonrpc(), SpecJson::Str(jsonrpc_version())), (kmethod(), SpecJson::Str(n.method))] + (
    match n.params {
        Some(p) => seq![(kparams(), SpecJson::Obj(p))],
        None => Seq::empty(),
    }) + n.extra
}

/// The object entries of an encoded response.
pub open spec fn spec_enc_response(r: SpecResponse) -> Seq<(Seq<char>, SpecJson)> {
    seq![
        (kid(), spec_id_json(r.id)),
        (kjsonrpc(), SpecJson::Str(jsonrpc_version())),
        (kresult(), SpecJson::Obj(r.result)),
    ] + r.extra
}

/// The object entries of an encoded error object.
pub open spec fn spec_enc_error_body(b: SpecErrorBody) -> Seq<(Seq<char>, SpecJson)> {
    seq![(kcode(), SpecJson::Num(spec_int_chars(b.code))), (kmessage(), SpecJson::Str(b.message))]
        + (match b.data {
        Some(d) => seq![(kdata(), d)],
        None => Seq::empty(),
    }) + b.extra
}

/// The object entries of an encoded error reply.
pub open spec fn spec_enc_error(e: SpecError) -> Seq<(Seq<char>, SpecJson)> {
    seq![
        (kid(), spec_id_json(e.id)),
        (kjsonrpc(), SpecJson::Str(jsonrpc_version())),
        (kerror(), SpecJson::Obj(spec_enc_error_body(e.error))),
    ] + e.extra
}

/// The array elements of an encoded request batch.
pub open spec fn spec_enc_req_items(items: Seq<SpecBatchRequestItem>) -> Seq<SpecJson>
    decreases items,
{
    if items.len() == 0 {
        Seq::empty()
    } else {
        seq![
            match items[0] {
                SpecBatchRequestItem::Request(r) => SpecJson::Obj(spec_enc_request(r)),
                SpecBatchRequestItem::Notification(n) => SpecJson::Obj(spec_enc_notification(n)),
            },
        ] + spec_enc_req_items(items.drop_first())
    }
}

/// The array elements of an encoded reply batch.
pub open spec fn spec_enc_resp_items(items: Seq<SpecBatchResponseItem>) -> Seq<SpecJson>
    decreases items,
{
    if items.len() == 0 {
        Seq::empty()
    } else {
        seq![
            match items[0] {
                SpecBatchResponseItem::Response(r) => SpecJson::Obj(spec_enc_response(r)),
                SpecBatchResponseItem::Error(e) => SpecJson::Obj(spec_enc_error(e)),
            },
        ] + spec_enc_resp_items(items.drop_first())
    }
}

/// The JSON value of a message.
pub open spec fn spec_enc_message(m: SpecMessage) -> SpecJson {
    match m {
        SpecMessage::Request(r) => SpecJson::Obj(spec_enc_request(r)),
        SpecMessage::Notification(n) => SpecJson::Obj(spec_enc_notification(n)),
        SpecMessage::BatchRequest(items) => SpecJson::Arr(spec_enc_req_items(items)),
        SpecMessage::Response(r) => SpecJson::Obj(spec_enc_response(r)),
        SpecMessage::Error(e) => SpecJson::Obj(spec_enc_error(e)),
        SpecMessage::BatchResponse(items) => SpecJson::Arr(spec_enc_resp_items(items)),
    }
}

/// Decode an identifier value.
pub open spec fn spec_dec_id(v: SpecJson) -> Option<SpecId> {
    match v {
        SpecJson::Str(s) => Some(SpecId::Str(s)),
        SpecJson::Num(lex) => match spec_parse_i64(lex) {
            Some(n) => Some(SpecId::Int(n)),
            None => None,
        },
        _ => None,
    }
}

/// Decode a request from object entries.
pub open spec fn spec_dec_request(e: Seq<(Seq<char>, SpecJson)>) -> Option<SpecRequest> {
    if spec_obj_get(e, kjsonrpc()) != Some(SpecJson::Str(jsonrpc_version())) {
        None
    } else {
        match spec_obj_get(e, kid()) {
            Some(idv) => match spec_dec_id(idv) {
                Some(id) => match spec_obj_get(e, kmethod()) {
                    Some(SpecJson::Str(m)) => match spec_obj_get(e, kparams()) {
                        Some(SpecJson::Obj(p)) => Some(
                            SpecRequest {
                                id,
                                method: m,
                                params: Some(p),
                                extra: strip_reserved(e),
                            },
                        ),
                        Some(_) => None,
                        None => Some(
                            SpecRequest { id, method: m, params: None, extra: strip_reserved(e) },
                        ),
                    },
                    _ => None,
                },
                None => None,
            },
            None => None,
        }
    }
}

/// Decode a notification from object entries.
pub open spec fn spec_dec_notification(e: Seq<(Seq<char>, SpecJson)>) -> Option<SpecNotification> {
    if spec_obj_get(e, kjsonrpc()) != Some(SpecJson::Str(jsonrpc_version())) {
        None
    } else {
        match spec_obj_get(e, kmethod()) {
            Some(SpecJson::Str(m)) => match spec_obj_get(e, kparams()) {
                Some(SpecJson::Obj(p)) => Some(
                    SpecNotification { method: m, params: Some(p), extra: strip_reserved(e) },
                ),
                Some(_) => None,
                None => Some(
                    SpecNotification { method: m, params: None, extra: strip_reserved(e) },
                ),
            },
            _ => None,
        }
    }
}

/// Decode a response from object entries.
pub open spec fn spec_dec_response(e: Seq<(Seq<char>, SpecJson)>) -> Option<SpecResponse> {
    if spec_obj_get(e, kjsonrpc()) != Some(SpecJson::Str(jsonrpc_version())) {
        None
    } else {
        match spec_obj_get(e, kid()) {
            Some(idv) => match spec_dec_id(idv) {
                Some(id) => match spec_obj_get(e, kresult()) {
                    Some(SpecJson::Obj(res)) => Some(
                        SpecResponse { id, result: res, extra: strip_reserved(e) },
                    ),
                    _ => None,
                },
                None => None,
            },
            None => None,
        }
    }
}

/// Decode an error object from its entries.
pub open spec fn spec_dec_error_body(b: Seq<(Seq<char>, SpecJson)>) -> Option<SpecErrorBody> {
    match spec_obj_get(b, kcode()) {
        Some(SpecJson::Num(lex)) => match spec_parse_i64(lex) {
            Some(code) => match spec_obj_get(b, kmessage()) {
                Some(SpecJson::Str(msg)) => Some(
                    SpecErrorBody {
                        code,
                        message: msg,
                        data: spec_obj_get(b, kdata()),
                        extra: strip_body_keys(b),
                    },
                ),
                _ => None,
            },
            None => None,
        },
        _ => None,
    }
}

/// Decode an error reply from object entries.
pub open spec fn spec_dec_error(e: Seq<(Seq<char>, SpecJson)>) -> Option<SpecError> {
    if spec_obj_get(e, kjsonrpc()) != Some(SpecJson::Str(jsonrpc_version())) {
        None
    } else {
        match spec_obj_get(e, kid()) {
            Some(idv) => match spec_dec_id(idv) {
                Some(id) => match spec_obj_get(e, kerror()) {
                    Some(SpecJson::Obj(b)) => match spec_dec_error_body(b) {
                        Some(body) => Some(
                            SpecError { id, error: body, extra: strip_reserved(e) },
                        ),
                        None => None,
                    },
                    _ => None,
                },
                None => None,
            },
            None => None,
        }
    }
}

/// Decode the elements of a request batch.
pub open spec fn spec_dec_req_items(items: Seq<SpecJson>) -> Option<Seq<SpecBatchRequestItem>>
    decreases items,
{
    if items.len() == 0 {
        Some(Seq::empty())
    } else {
        match items[0] {
            SpecJson::Obj(e) => {
                let head = match spec_dec_request(e) {
                    Some(r) => Some(SpecBatchRequestItem::Request(r)),
                    None => match spec_dec_notification(e) {
                        Some(n) => Some(SpecBatchRequestItem::Notification(n)),
                        None => None,
                    },
                };
                match head {
                    Some(h) => match spec_dec_req_items(items.drop_first()) {
                        Some(rest) => Some(seq![h] + rest),
                        None => None,
                    },
                    None => None,
                }
            },
            _ => None,
        }
    }
}

/// Decode the elements of a reply batch.
pub open spec fn spec_dec_resp_items(items: Seq<SpecJson>) -> Option<Seq<SpecBatchResponseItem>>
    decreases items,
{
    if items.len() == 0 {
        Some(Seq::empty())
    } else {
        match items[0] {
            SpecJson::Obj(e) => {
                let head = match spec_dec_response(e) {
                    Some(r) => Some(SpecBatchResponseItem::Response(r)),
                    None => match spec_dec_error(e) {
                        Some(x) => Some(SpecBatchResponseItem::Error(x)),
                        None => None,
                    },
                };
                match head {
                    Some(h) => match spec_dec_resp_items(items.drop_first()) {
                        Some(rest) => Some(seq![h] + rest),
                        None => None,
                    },
                    None => None,
                }
            },
            _ => None,
        }
    }
}

/// Decode a message from a JSON value, trying the shapes in the wire
/// decoder's order.
pub open spec fn spec_dec_message(j: SpecJson) -> Option<SpecMessage> {
    match j {
        SpecJson::Obj(e) => match spec_dec_request(e) {
            Some(r) => Some(SpecMessage::Request(r)),
            None => match spec_dec_notification(e) {
                Some(n) => Some(SpecMessage::Notification(n)),
                None => match spec_dec_response(e) {
                    Some(r) => Some(SpecMessage::Response(r)),
                    None => match spec_dec_error(e) {
                        Some(x) => Some(SpecMessage::Error(x)),
                        None => None,
                    },
                },
            },
        },
        SpecJson::Arr(items) => match spec_dec_req_items(items) {
            Some(rs) => Some(SpecMessage::BatchRequest(rs)),
            None => match spec_dec_resp_items(items) {
                Some(rs) => Some(SpecMessage::BatchResponse(rs)),
                None => None,
            },
        },
        _ => None,
    }
}

/// An opaque pagination position.
#[derive(Debug, Clone, PartialEq)]
pub struct Cursor(pub String);

/// The severity levels of the logging capability.
#[derive(Debug, Clone, Copy, PartialEq, Eq, Structural)]
pub enum LoggingLevel {
    Alert,
    Critical,
    Debug,
    Emergency,
    Error,
    Info,
    Notice,
    Warning,
}

impl LoggingLevel {
    /// The wire spelling of a level.
    pub open spec fn spec_str(self) -> Seq<char> {
        match self {
            LoggingLevel::Alert => "alert"@,
            LoggingLevel::Critical => "critical"@,
            LoggingLevel::Debug => "debug"@,
            LoggingLevel::Emergency => "emergency"@,
            LoggingLevel::Error => "error"@,
            LoggingLevel::Info => "info"@,
            LoggingLevel::Notice => "notice"@,
            LoggingLevel::Warning => "warning"@,
        }
    }

    /// Format the level as its wire string.
    pub fn as_str(&self) -> (r: &'static str)
        ensures
            r@ == self.spec_str(),
    {
        match self {
            LoggingLevel::Alert => "alert",
            LoggingLevel::Critical => "critical",
            LoggingLevel::Debug => "debug",
            LoggingLevel::Emergency => "emergency",
            LoggingLevel::Error => "error",
            LoggingLevel::Info => "info",
            LoggingLevel::Notice => "notice",
            LoggingLevel::Warning => "warning",
        }
    }
}

/// A token that correlates progress notifications with a request.
#[derive(Debug, Clone, PartialEq)]
pub enum ProgressToken {
    Str(String),
    Int(i64),
}

/// The sender or recipient of a sampled message.
#[derive(Debug, Clone, Copy, PartialEq, Eq, Structural)]
pub enum Role {
    Assistant,
    User,
}

impl Role {
    /// The wire spelling of a role.
    pub open spec fn spec_str(self) -> Seq<char> {
        match self {
            Role::Assistant => "assistant"@,
            Role::User => "user"@,
        }
    }

    /// Format the role as its wire string.
    pub fn as_str(&self) -> (r: &'static str)
        ensures
            r@ == self.spec_str(),
    {
        match self {
            Role::Assistant => "assistant",
            Role::User => "user",
        }
    }
}

/// How much of the host's context a sampling request asks to include.
#[derive(Debug, Clone, Copy, PartialEq, Eq, Structural)]
pub enum CreateMessageRequestParamsIncludeContext {
    AllServers,
    NoContext,
    ThisServer,
}

impl CreateMessageRequestParamsIncludeContext {
    /// The wire spelling of the choice.
    pub open spec fn spec_str(self) -> Seq<char> {
        match self {
            CreateMessageRequestParamsIncludeContext::AllServers => "allServers"@,
            CreateMessageRequestParamsIncludeContext::NoContext => "none"@,
            CreateMessageRequestParamsIncludeContext::ThisServer => "thisServer"@,
        }
    }

    /// Format the choice as its wire string.
    pub fn as_str(&self) -> (r: &'static str)
        ensures
            r@ == self.spec_str(),
    {
        match self {
            CreateMessageRequestParamsIncludeContext::AllServers => "allServers",
            CreateMessageRequestParamsIncludeContext::NoContext => "none",
            CreateMessageRequestParamsIncludeContext::ThisServer => "thisServer",
        }
    }
}

/// The six reserved keys are pairwise distinct, and distinct from the
/// error object's keys.
pub proof fn lemma_keys_distinct()
    ensures
        kid() != kjsonrpc(),
        kid() != kmethod(),
        kid() != kparams(),
        kid() != kresult(),
        kid() != kerror(),
        kjsonrpc() != kmethod(),
        kjsonrpc() != kparams(),
        kjsonrpc() != kresult(),
        kjsonrpc() != kerror(),
        kmethod() != kparams(),
        kmethod() != kresult(),
        kmethod() != kerror(),
        kparams() != kresult(),
        kparams() != kerror(),
        kresult() != kerror(),
        kcode() != kmessage(),
        kcode() != kdata(),
        kmessage() != kdata(),
{
    assert(kmethod()[0] != kparams()[0]);
    assert(kmethod()[0] != kresult()[0]);
    assert(kparams()[0] != kresult()[0]);
    assert(kjsonrpc()[0] != kmethod()[0]);
    assert(kcode()[0] != kdata()[0]);
}

/// Lookup in a concatenation: the first list wins.
pub proof fn lemma_obj_get_concat(
    a: Seq<(Seq<char>, SpecJson)>,
    b: Seq<(Seq<char>, SpecJson)>,
    key: Seq<char>,
)
    ensures
        spec_obj_get(a + b, key) == match spec_obj_get(a, key) {
            Some(v) => Some(v),
            None => spec_obj_get(b, key),
        },
    decreases a.len(),
{
    if a.len() == 0 {
        assert(a + b =~= b);
    } else {
        assert((a + b)[0] == a[0]);
        assert((a + b).drop_first() =~= a.drop_first() + b);
        lemma_obj_get_concat(a.drop_first(), b, key);
    }
}

/// Lookup misses a list none of whose keys match.
pub proof fn lemma_obj_get_none(a: Seq<(Seq<char>, SpecJson)>, key: Seq<char>)
    requires
        forall|i: int| 0 <= i < a.len() ==> (#[trigger] a[i]).0 != key,
    ensures
        spec_obj_get(a, key) is None,
    decreases a.len(),
{
    if a.len() > 0 {
        assert(forall|i: int| 0 <= i < a.drop_first().len() ==> #[trigger] a.drop_first()[i]
            == a[i + 1]);
        lemma_obj_get_none(a.drop_first(), key);
    }
}

/// Lookup finds the first entry whose key matches.
pub proof fn lemma_obj_get_at(e: Seq<(Seq<char>, SpecJson)>, key: Seq<char>, i: int)
    requires
        0 <= i < e.len(),
        e[i].0 == key,
        forall|j: int| 0 <= j < i ==> (#[trigger] e[j]).0 != key,
    ensures
        spec_obj_get(e, key) == Some(e[i].1),
    decreases e.len(),
{
    if i > 0 {
        assert(forall|j: int| 0 <= j < e.drop_first().len() ==> #[trigger] e.drop_first()[j]
            == e[j + 1]);
        lemma_obj_get_at(e.drop_first(), key, i - 1);
    }
}

/// Stripping distributes over concatenation.
pub proof fn lemma_strip_reserved_concat(
    a: Seq<(Seq<char>, SpecJson)>,
    b: Seq<(Seq<char>, SpecJson)>,
)
    ensures
        strip_reserved(a + b) == strip_reserved(a) + strip_reserved(b),
    decreases a.len(),
{
    if a.len() == 0 {
        assert(a + b =~= b);
        assert(strip_reserved(a) == Seq::<(Seq<char>, SpecJson)>::empty());
        assert(strip_reserved(a + b) =~= strip_reserved(a) + strip_reserved(b));
    } else {
        assert((a + b)[0] == a[0]);
        assert((a + b).drop_first() =~= a.drop_first() + b);
        lemma_strip_reserved_concat(a.drop_first(), b);
        assert(strip_reserved(a + b) =~= strip_reserved(a) + strip_reserved(b));
    }
}

/// Stripping a list of reserved keys leaves nothing.
pub proof fn lemma_strip_reserved_all(a: Seq<(Seq<char>, SpecJson)>)
    requires
        forall|i: int| 0 <= i < a.len() ==> is_reserved_key((#[trigger] a[i]).0),
    ensures
        strip_reserved(a) == Seq::<(Seq<char>, SpecJson)>::empty(),
    decreases a.len(),
{
    if a.len() > 0 {
        assert(forall|i: int| 0 <= i < a.drop_first().len() ==> #[trigger] a.drop_first()[i]
            == a[i + 1]);
        lemma_strip_reserved_all(a.drop_first());
    }
}

/// Stripping a list of unreserved keys changes nothing.
pub proof fn lemma_strip_reserved_none(a: Seq<(Seq<char>, SpecJson)>)
    requires
        forall|i: int| 0 <= i < a.len() ==> !is_reserved_key((#[trigger] a[i]).0),
    ensures
        strip_reserved(a) == a,
    decreases a.len(),
{
    if a.len() > 0 {
        assert(forall|i: int| 0 <= i < a.drop_first().len() ==> #[trigger] a.drop_first()[i]
            == a[i + 1]);
        lemma_strip_reserved_none(a.drop_first());
        assert(strip_reserved(a) =~= a);
    }
}

/// Stripping distributes over concatenation.
pub proof fn lemma_strip_body_concat(
    a: Seq<(Seq<char>, SpecJson)>,
    b: Seq<(Seq<char>, SpecJson)>,
)
    ensures
        strip_body_keys(a + b) == strip_body_keys(a) + strip_body_keys(b),
    decreases a.len(),
{
    if a.len() == 0 {
        assert(a + b =~= b);
        assert(strip_body_keys(a) == Seq::<(Seq<char>, SpecJson)>::empty());
        assert(strip_body_keys(a + b) =~= strip_body_keys(a) + strip_body_keys(b));
    } else {
        assert((a + b)[0] == a[0]);
        assert((a + b).drop_first() =~= a.drop_first() + b);
        lemma_strip_body_concat(a.drop_first(), b);
        assert(strip_body_keys(a + b) =~= strip_body_keys(a) + strip_body_keys(b));
    }
}

/// Stripping a list of the error object's own keys leaves nothing.
pub proof fn lemma_strip_body_all(a: Seq<(Seq<char>, SpecJson)>)
    requires
        forall|i: int| 0 <= i < a.len() ==> is_body_key((#[trigger] a[i]).0),
    ensures
        strip_body_keys(a) == Seq::<(Seq<char>, SpecJson)>::empty(),
    decreases a.len(),
{
    if a.len() > 0 {
        assert(forall|i: int| 0 <= i < a.drop_first().len() ==> #[trigger] a.drop_first()[i]
            == a[i + 1]);
        lemma_strip_body_all(a.drop_first());
    }
}

/// Stripping a list of other keys changes nothing.
pub proof fn lemma_strip_body_none(a: Seq<(Seq<char>, SpecJson)>)
    requires
        forall|i: int| 0 <= i < a.len() ==> !is_body_key((#[trigger] a[i]).0),
    ensures
        strip_body_keys(a) == a,
    decreases a.len(),
{
    if a.len() > 0 {
        assert(forall|i: int| 0 <= i < a.drop_first().len() ==> #[trigger] a.drop_first()[i]
            == a[i + 1]);
        lemma_strip_body_none(a.drop_first());
        assert(strip_body_keys(a) =~= a);
    }
}

/// A well-formed identifier decodes from its own encoding.
pub proof fn lemma_dec_enc_id(id: SpecId)
    requires
        id_wf(id),
    ensures
        spec_dec_id(spec_id_json(id)) == Some(id),
{
    match id {
        SpecId::Str(_) => {},
        SpecId::Int(v) => {
            crate::json::lemma_parse_int_chars(v);
        },
    }
}

/// A well-formed request decodes from its own encoding.
pub proof fn lemma_dec_enc_request(r: SpecRequest)
    requires
        request_wf(r),
    ensures
        spec_dec_request(spec_enc_request(r)) == Some(r),
{
    lemma_keys_distinct();
    let fixed = seq![
        (kid(), spec_id_json(r.id)),
        (kjsonrpc(), SpecJson::Str(jsonrpc_version())),
        (kmethod(), SpecJson::Str(r.method)),
    ];
    let pp = match r.params {
        Some(p) => seq![(kparams(), SpecJson::Obj(p))],
        None => Seq::<(Seq<char>, SpecJson)>::empty(),
    };
    let e = spec_enc_request(r);
    assert(e == fixed + pp + r.extra);
    assert(e[0] == (kid(), spec_id_json(r.id)));
    assert(e[1] == (kjsonrpc(), SpecJson::Str(jsonrpc_version())));
    assert(e[2] == (kmethod(), SpecJson::Str(r.method)));
    assert(forall|j: int| 3 + pp.len() <= j < e.len() ==> #[trigger] e[j] == r.extra[j - 3
        - pp.len()]);
    lemma_obj_get_at(e, kid(), 0);
    lemma_obj_get_at(e, kjsonrpc(), 1);
    lemma_obj_get_at(e, kmethod(), 2);
    lemma_dec_enc_id(r.id);
    match r.params {
        Some(p) => {
            assert(e[3] == (kparams(), SpecJson::Obj(p)));
            lemma_obj_get_at(e, kparams(), 3);
        },
        None => {
            assert(forall|j: int| 0 <= j < e.len() ==> (#[trigger] e[j]).0 != kparams()) by {
                assert(forall|j: int| 3 <= j < e.len() ==> #[trigger] e[j] == r.extra[j - 3]);
            }
            lemma_obj_get_none(e, kparams());
        },
    }
    lemma_strip_reserved_concat(fixed + pp, r.extra);
    lemma_strip_reserved_concat(fixed, pp);
    assert(forall|i: int| 0 <= i < fixed.len() ==> is_reserved_key((#[trigger] fixed[i]).0));
    lemma_strip_reserved_all(fixed);
    assert(forall|i: int| 0 <= i < pp.len() ==> is_reserved_key((#[trigger] pp[i]).0));
    lemma_strip_reserved_all(pp);
    lemma_strip_reserved_none(r.extra);
    assert(strip_reserved(e) =~= r.extra);
    assert(spec_dec_request(e)->0 =~~= r);
}

/// A well-formed notification decodes from its own encoding, and never
/// decodes as a request.
pub proof fn lemma_dec_enc_notification(n: SpecNotification)
    requires
        notification_wf(n),
    ensures
        spec_dec_notification(spec_enc_notification(n)) == Some(n),
        spec_dec_request(spec_enc_notification(n)) is None,
{
    lemma_keys_distinct();
    let fixed = seq![
        (kjsonrpc(), SpecJson::Str(jsonrpc_version())),
        (kmethod(), SpecJson::Str(n.method)),
    ];
    let pp = match n.params {
        Some(p) => seq![(kparams(), SpecJson::Obj(p))],
        None => Seq::<(Seq<char>, SpecJson)>::empty(),
    };
    let e = spec_enc_notification(n);
    assert(e == fixed + pp + n.extra);
    assert(e[0] == (kjsonrpc(), SpecJson::Str(jsonrpc_version())));
    assert(e[1] == (kmethod(), SpecJson::Str(n.method)));
    assert(forall|j: int| 2 + pp.len() <= j < e.len() ==> #[trigger] e[j] == n.extra[j - 2
        - pp.len()]);
    lemma_obj_get_at(e, kjsonrpc(), 0);
    lemma_obj_get_at(e, kmethod(), 1);
    assert(forall|j: int| 0 <= j < e.len() ==> (#[trigger] e[j]).0 != kid()) by {
        assert(forall|j: int| 2 + pp.len() <= j < e.len() ==> #[trigger] e[j] == n.extra[j - 2
            - pp.len()]);
    }
    lemma_obj_get_none(e, kid());
    match n.params {
        Some(p) => {
            assert(e[2] == (kparams(), SpecJson::Obj(p)));
            lemma_obj_get_at(e, kparams(), 2);
        },
        None => {
            assert(forall|j: int| 0 <= j < e.len() ==> (#[trigger] e[j]).0 != kparams()) by {
                assert(forall|j: int| 2 <= j < e.len() ==> #[trigger] e[j] == n.extra[j - 2]);
            }
            lemma_obj_get_none(e, kparams());
        },
    }
    lemma_strip_reserved_concat(fixed + pp, n.extra);
    lemma_strip_reserved_concat(fixed, pp);
    assert(forall|i: int| 0 <= i < fixed.len() ==> is_reserved_key((#[trigger] fixed[i]).0));
    lemma_strip_reserved_all(fixed);
    assert(forall|i: int| 0 <= i < pp.len() ==> is_reserved_key((#[trigger] pp[i]).0));
    lemma_strip_reserved_all(pp);
    lemma_strip_reserved_none(n.extra);
    assert(strip_reserved(e) =~= n.extra);
    assert(spec_dec_notification(e)->0 =~~= n);
}

/// A well-formed response decodes from its own encoding, and never as
/// a request or notification.
pub proof fn lemma_dec_enc_response(r: SpecResponse)
    requires
        response_wf(r),
    ensures
        spec_dec_response(spec_enc_response(r)) == Some(r),
        spec_dec_request(spec_enc_response(r)) is None,
        spec_dec_notification(spec_enc_response(r)) is None,
{
    lemma_keys_distinct();
    let fixed = seq![
        (kid(), spec_id_json(r.id)),
        (kjsonrpc(), SpecJson::Str(jsonrpc_version())),
        (kresult(), SpecJson::Obj(r.result)),
    ];
    let e = spec_enc_response(r);
    assert(e == fixed + r.extra);
    assert(e[0] == (kid(), spec_id_json(r.id)));
    assert(e[1] == (kjsonrpc(), SpecJson::Str(jsonrpc_version())));
    assert(e[2] == (kresult(), SpecJson::Obj(r.result)));
    assert(forall|j: int| 3 <= j < e.len() ==> #[trigger] e[j] == r.extra[j - 3]);
    lemma_obj_get_at(e, kid(), 0);
    lemma_obj_get_at(e, kjsonrpc(), 1);
    lemma_obj_get_at(e, kresult(), 2);
    lemma_dec_enc_id(r.id);
    assert(forall|j: int| 0 <= j < e.len() ==> (#[trigger] e[j]).0 != kmethod()) by {
        assert(forall|j: int| 3 <= j < e.len() ==> #[trigger] e[j] == r.extra[j - 3]);
    }
    lemma_obj_get_none(e, kmethod());
    lemma_strip_reserved_concat(fixed, r.extra);
    assert(forall|i: int| 0 <= i < fixed.len() ==> is_reserved_key((#[trigger] fixed[i]).0));
    lemma_strip_reserved_all(fixed);
    lemma_strip_reserved_none(r.extra);
    assert(strip_reserved(e) =~= r.extra);
    assert(spec_dec_response(e)->0 =~~= r);
}

/// A well-formed error object decodes from its own encoding.
pub proof fn lemma_dec_enc_error_body(b: SpecErrorBody)
    requires
        error_body_wf(b),
    ensures
        spec_dec_error_body(spec_enc_error_body(b)) == Some(b),
{
    lemma_keys_distinct();
    let fixed = seq![
        (kcode(), SpecJson::Num(spec_int_chars(b.code))),
        (kmessage(), SpecJson::Str(b.message)),
    ];
    let dd = match b.data {
        Some(d) => seq![(kdata(), d)],
        None => Seq::<(Seq<char>, SpecJson)>::empty(),
    };
    let e = spec_enc_error_body(b);
    assert(e == fixed + dd + b.extra);
    assert(e[0] == (kcode(), SpecJson::Num(spec_int_chars(b.code))));
    assert(e[1] == (kmessage(), SpecJson::Str(b.message)));
    assert(forall|j: int| 2 + dd.len() <= j < e.len() ==> #[trigger] e[j] == b.extra[j - 2
        - dd.len()]);
    lemma_obj_get_at(e, kcode(), 0);
    lemma_obj_get_at(e, kmessage(), 1);
    crate::json::lemma_parse_int_chars(b.code);
    match b.data {
        Some(d) => {
            assert(e[2] == (kdata(), d));
            lemma_obj_get_at(e, kdata(), 2);
        },
        None => {
            assert(forall|j: int| 0 <= j < e.len() ==> (#[trigger] e[j]).0 != kdata()) by {
                assert(forall|j: int| 2 <= j < e.len() ==> #[trigger] e[j] == b.extra[j - 2]);
            }
            lemma_obj_get_none(e, kdata());
        },
    }
    lemma_strip_body_concat(fixed + dd, b.extra);
    lemma_strip_body_concat(fixed, dd);
    assert(forall|i: int| 0 <= i < fixed.len() ==> is_body_key((#[trigger] fixed[i]).0));
    lemma_strip_body_all(fixed);
    assert(forall|i: int| 0 <= i < dd.len() ==> is_body_key((#[trigger] dd[i]).0));
    lemma_strip_body_all(dd);
    lemma_strip_body_none(b.extra);
    assert(strip_body_keys(e) =~= b.extra);
    assert(spec_dec_error_body(e)->0 =~~= b);
}

/// A well-formed error reply decodes from its own encoding, and never
/// as a request, notification, or response.
pub proof fn lemma_dec_enc_error(x: SpecError)
    requires
        error_wf(x),
    ensures
        spec_dec_error(spec_enc_error(x)) == Some(x),
        spec_dec_request(spec_enc_error(x)) is None,
        spec_dec_notification(spec_enc_error(x)) is None,
        spec_dec_response(spec_enc_error(x)) is None,
{
    lemma_keys_distinct();
    let fixed = seq![
        (kid(), spec_id_json(x.id)),
        (kjsonrpc(), SpecJson::Str(jsonrpc_version())),
        (kerror(), SpecJson::Obj(spec_enc_error_body(x.error))),
    ];
    let e = spec_enc_error(x);
    assert(e == fixed + x.extra);
    assert(e[0] == (kid(), spec_id_json(x.id)));
    assert(e[1] == (kjsonrpc(), SpecJson::Str(jsonrpc_version())));
    assert(e[2] == (kerror(), SpecJson::Obj(spec_enc_error_body(x.error))));
    assert(forall|j: int| 3 <= j < e.len() ==> #[trigger] e[j] == x.extra[j - 3]);
    lemma_obj_get_at(e, kid(), 0);
    lemma_obj_get_at(e, kjsonrpc(), 1);
    lemma_obj_get_at(e, kerror(), 2);
    lemma_dec_enc_id(x.id);
    lemma_dec_enc_error_body(x.error);
    assert(forall|j: int| 0 <= j < e.len() ==> (#[trigger] e[j]).0 != kmethod()) by {
        assert(forall|j: int| 3 <= j < e.len() ==> #[trigger] e[j] == x.extra[j - 3]);
    }
    lemma_obj_get_none(e, kmethod());
    assert(forall|j: int| 0 <= j < e.len() ==> (#[trigger] e[j]).0 != kresult()) by {
        assert(forall|j: int| 3 <= j < e.len() ==> #[trigger] e[j] == x.extra[j - 3]);
    }
    lemma_obj_get_none(e, kresult());
    lemma_strip_reserved_concat(fixed, x.extra);
    assert(forall|i: int| 0 <= i < fixed.len() ==> is_reserved_key((#[trigger] fixed[i]).0));
    lemma_strip_reserved_all(fixed);
    lemma_strip_reserved_none(x.extra);
    assert(strip_reserved(e) =~= x.extra);
    assert(spec_dec_error(e)->0 =~~= x);
}

/// A well-formed batch of requests decodes from its own encoding.
pub proof fn lemma_dec_enc_req_items(items: Seq<SpecBatchRequestItem>)
    requires
        forall|i: int| 0 <= i < items.len() ==> match #[trigger] items[i] {
            SpecBatchRequestItem::Request(r) => request_wf(r),
            SpecBatchRequestItem::Notification(n) => notification_wf(n),
        },
    ensures
        spec_dec_req_items(spec_enc_req_items(items)) == Some(items),
    decreases items,
{
    if items.len() == 0 {
        assert(spec_enc_req_items(items) == Seq::<SpecJson>::empty());
    } else {
        let rest = items.drop_first();
        assert(forall|i: int| 0 <= i < rest.len() ==> #[trigger] rest[i] == items[i + 1]);
        lemma_dec_enc_req_items(rest);
        let enc = spec_enc_req_items(items);
        assert(enc[0] == match items[0] {
            SpecBatchRequestItem::Request(r) => SpecJson::Obj(spec_enc_request(r)),
            SpecBatchRequestItem::Notification(n) => SpecJson::Obj(spec_enc_notification(n)),
        });
        assert(enc.drop_first() =~= spec_enc_req_items(rest));
        match items[0] {
            SpecBatchRequestItem::Request(r) => {
                lemma_dec_enc_request(r);
            },
            SpecBatchRequestItem::Notification(n) => {
                lemma_dec_enc_notification(n);
            },
        }
        assert(spec_dec_req_items(enc)->0 =~= items);
    }
}

/// A well-formed batch of replies decodes from its own encoding, and
/// none of its elements decodes as a request or notification.
pub proof fn lemma_dec_enc_resp_items(items: Seq<SpecBatchResponseItem>)
    requires
        forall|i: int| 0 <= i < items.len() ==> match #[trigger] items[i] {
            SpecBatchResponseItem::Response(r) => response_wf(r),
            SpecBatchResponseItem::Error(e) => error_wf(e),
        },
    ensures
        spec_dec_resp_items(spec_enc_resp_items(items)) == Some(items),
        items.len() > 0 ==> spec_dec_req_items(spec_enc_resp_items(items)) is None,
    decreases items,
{
    if items.len() == 0 {
        assert(spec_enc_resp_items(items) == Seq::<SpecJson>::empty());
    } else {
        let rest = items.drop_first();
        assert(forall|i: int| 0 <= i < rest.len() ==> #[trigger] rest[i] == items[i + 1]);
        lemma_dec_enc_resp_items(rest);
        let enc = spec_enc_resp_items(items);
        assert(enc[0] == match items[0] {
            SpecBatchResponseItem::Response(r) => SpecJson::Obj(spec_enc_response(r)),
            SpecBatchResponseItem::Error(e) => SpecJson::Obj(spec_enc_error(e)),
        });
        assert(enc.drop_first() =~= spec_enc_resp_items(rest));
        match items[0] {
            SpecBatchResponseItem::Response(r) => {
                lemma_dec_enc_response(r);
            },
            SpecBatchResponseItem::Error(e) => {
                lemma_dec_enc_error(e);
            },
        }
        assert(spec_dec_resp_items(enc)->0 =~= items);
    }
}

/// Round trip: a well-formed message decodes from its own encoding,
/// unknown extra fields included.
pub proof fn lemma_message_round_trip(m: SpecMessage)
    requires
        msg_wf(m),
    ensures
        spec_dec_message(spec_enc_message(m)) == Some(m),
{
    match m {
        SpecMessage::Request(r) => {
            lemma_dec_enc_request(r);
        },
        SpecMessage::Notification(n) => {
            lemma_dec_enc_notification(n);
        },
        SpecMessage::Response(r) => {
            lemma_dec_enc_response(r);
        },
        SpecMessage::Error(x) => {
            lemma_dec_enc_error(x);
        },
        SpecMessage::BatchRequest(items) => {
            lemma_dec_enc_req_items(items);
        },
        SpecMessage::BatchResponse(items) => {
            lemma_dec_enc_resp_items(items);
        },
    }
}

/// The encoded identifier of a well-formed identifier is well formed.
pub proof fn lemma_enc_id_wf(id: SpecId)
    requires
        id_wf(id),
    ensures
        json_wf(spec_id_json(id)),
{
    match id {
        SpecId::Str(_) => {},
        SpecId::Int(v) => {
            crate::json::lemma_int_chars_wf(v);
        },
    }
}

/// The encoding of a well-formed request is well-formed JSON.
pub proof fn lemma_enc_request_json_wf(r: SpecRequest)
    requires
        request_wf(r),
    ensures
        json_wf(SpecJson::Obj(spec_enc_request(r))),
{
    lemma_enc_id_wf(r.id);
    let e = spec_enc_request(r);
    let pp: Seq<(Seq<char>, SpecJson)> = match r.params {
        Some(p) => seq![(kparams(), SpecJson::Obj(p))],
        None => Seq::empty(),
    };
    assert forall|i: int| 0 <= i < e.len() implies json_wf((#[trigger] e[i]).1) by {
        if i >= 3 + pp.len() {
            assert(e[i] == r.extra[i - 3 - pp.len()]);
        } else if i == 3 && pp.len() == 1 {
            assert(e[3] == pp[0]);
        }
    }
}

/// The encoding of a well-formed notification is well-formed JSON.
pub proof fn lemma_enc_notification_json_wf(n: SpecNotification)
    requires
        notification_wf(n),
    ensures
        json_wf(SpecJson::Obj(spec_enc_notification(n))),
{
    let e = spec_enc_notification(n);
    let pp: Seq<(Seq<char>, SpecJson)> = match n.params {
        Some(p) => seq![(kparams(), SpecJson::Obj(p))],
        None => Seq::empty(),
    };
    assert forall|i: int| 0 <= i < e.len() implies json_wf((#[trigger] e[i]).1) by {
        if i >= 2 + pp.len() {
            assert(e[i] == n.extra[i - 2 - pp.len()]);
        } else if i == 2 && pp.len() == 1 {
            assert(e[2] == pp[0]);
        }
    }
}

/// The encoding of a well-formed response is well-formed JSON.
pub proof fn lemma_enc_response_json_wf(r: SpecResponse)
    requires
        response_wf(r),
    ensures
        json_wf(SpecJson::Obj(spec_enc_response(r))),
{
    lemma_enc_id_wf(r.id);
    let e = spec_enc_response(r);
    assert forall|i: int| 0 <= i < e.len() implies json_wf((#[trigger] e[i]).1) by {
        if i >= 3 {
            assert(e[i] == r.extra[i - 3]);
        }
    }
}

/// The encoding of a well-formed error reply is well-formed JSON.
pub proof fn lemma_enc_error_json_wf(x: SpecError)
    requires
        error_wf(x),
    ensures
        json_wf(SpecJson::Obj(spec_enc_error(x))),
{
    lemma_enc_id_wf(x.id);
    crate::json::lemma_int_chars_wf(x.error.code);
    let b = spec_enc_error_body(x.error);
    let dd: Seq<(Seq<char>, SpecJson)> = match x.error.data {
        Some(d) => seq![(kdata(), d)],
        None => Seq::empty(),
    };
    assert forall|i: int| 0 <= i < b.len() implies json_wf((#[trigger] b[i]).1) by {
        if i >= 2 + dd.len() {
            assert(b[i] == x.error.extra[i - 2 - dd.len()]);
        } else if i == 2 && dd.len() == 1 {
            assert(b[2] == dd[0]);
        }
    }
    let e = spec_enc_error(x);
    assert forall|i: int| 0 <= i < e.len() implies json_wf((#[trigger] e[i]).1) by {
        if i >= 3 {
            assert(e[i] == x.extra[i - 3]);
        }
    }
}

/// The encoding of a well-formed message is well-formed JSON.
pub proof fn lemma_enc_message_json_wf(m: SpecMessage)
    requires
        msg_wf(m),
    ensures
        json_wf(spec_enc_message(m)),
{
    match m {
        SpecMessage::Request(r) => {
            lemma_enc_request_json_wf(r);
        },
        SpecMessage::Notification(n) => {
            lemma_enc_notification_json_wf(n);
        },
        SpecMessage::Response(r) => {
            lemma_enc_response_json_wf(r);
        },
        SpecMessage::Error(x) => {
            lemma_enc_error_json_wf(x);
        },
        SpecMessage::BatchRequest(items) => {
            lemma_enc_req_items_json_wf(items);
        },
        SpecMessage::BatchResponse(items) => {
            lemma_enc_resp_items_json_wf(items);
        },
    }
}

/// The encoded elements of a well-formed request batch are well formed.
pub proof fn lemma_enc_req_items_json_wf(items: Seq<SpecBatchRequestItem>)
    requires
        forall|i: int| 0 <= i < items.len() ==> match #[trigger] items[i] {
            SpecBatchRequestItem::Request(r) => request_wf(r),
            SpecBatchRequestItem::Notification(n) => notification_wf(n),
        },
    ensures
        forall|i: int| 0 <= i < spec_enc_req_items(items).len() ==> json_wf(
            #[trigger] spec_enc_req_items(items)[i],
        ),
    decreases items,
{
    if items.len() > 0 {
        let rest = items.drop_first();
        assert(forall|i: int| 0 <= i < rest.len() ==> #[trigger] rest[i] == items[i + 1]);
        lemma_enc_req_items_json_wf(rest);
        let enc = spec_enc_req_items(items);
        match items[0] {
            SpecBatchRequestItem::Request(r) => {
                lemma_enc_request_json_wf(r);
            },
            SpecBatchRequestItem::Notification(n) => {
                lemma_enc_notification_json_wf(n);
            },
        }
        assert forall|i: int| 0 <= i < enc.len() implies json_wf(#[trigger] enc[i]) by {
            if i > 0 {
                assert(enc[i] == spec_enc_req_items(rest)[i - 1]);
            }
        }
    }
}

/// The encoded elements of a well-formed reply batch are well formed.
pub proof fn lemma_enc_resp_items_json_wf(items: Seq<SpecBatchResponseItem>)
    requires
        forall|i: int| 0 <= i < items.len() ==> match #[trigger] items[i] {
            SpecBatchResponseItem::Response(r) => response_wf(r),
            SpecBatchResponseItem::Error(e) => error_wf(e),
        },
    ensures
        forall|i: int| 0 <= i < spec_enc_resp_items(items).len() ==> json_wf(
            #[trigger] spec_enc_resp_items(items)[i],
        ),
    decreases items,
{
    if items.len() > 0 {
        let rest = items.drop_first();
        assert(forall|i: int| 0 <= i < rest.len() ==> #[trigger] rest[i] == items[i + 1]);
        lemma_enc_resp_items_json_wf(rest);
        let enc = spec_enc_resp_items(items);
        match items[0] {
            SpecBatchResponseItem::Response(r) => {
                lemma_enc_response_json_wf(r);
            },
            SpecBatchResponseItem::Error(e) => {
                lemma_enc_error_json_wf(e);
            },
        }
        assert forall|i: int| 0 <= i < enc.len() implies json_wf(#[trigger] enc[i]) by {
            if i > 0 {
                assert(enc[i] == spec_enc_resp_items(rest)[i - 1]);
            }
        }
    }
}

} // verus!
