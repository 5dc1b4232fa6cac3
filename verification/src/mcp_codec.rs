//! Building and reading wire messages as JSON values, and the string
//! forms the carrier uses: one line of JSON text per message.

use vstd::prelude::*;
use crate::codec::{json_to_string, parse_json, spec_parse_json, spec_print};
use crate::json::{
    JsonValue, SpecJson, duplicate_entries, i64_from_str, i64_string, lemma_view_json_entries,
    lemma_view_json_entries_push, lemma_view_json_seq, lemma_view_json_seq_push, spec_obj_get,
    obj_get, view_json, view_json_entries, view_json_seq,
};
use crate::mcp::{
    JSONRPCError, JSONRPCMessage, JSONRPCNotification, JSONRPCRequest, JSONRPCResponse,
    JsonrpcBatchRequestItem, JsonrpcBatchResponseItem, RequestId, SpecBatchRequestItem,
    SpecBatchResponseItem, spec_enc_error, spec_enc_error_body, spec_enc_message,
    spec_enc_notification, spec_enc_request, spec_enc_req_items, spec_enc_resp_items,
    spec_enc_response, spec_id_json, view_req_items, view_resp_items, kid, kjsonrpc, kmethod,
    kparams, kresult, kerror, kcode, kmessage, kdata, jsonrpc_version, is_reserved_key,
    is_body_key, strip_reserved, strip_body_keys, spec_dec_id, spec_dec_request,
    spec_dec_notification, spec_dec_response, spec_dec_error_body, spec_dec_error,
    spec_dec_req_items, spec_dec_resp_items, spec_dec_message, JSONRPCBatchRequest, JsonrpcErrorError,
    JSONRPCBatchResponse, SpecMessage,
};

verus! {

/// The JSON value of an identifier.
pub fn id_json(id: &RequestId) -> (r: JsonValue)
    ensures
        r@ == spec_id_json(id@),
{
    match id {
        RequestId::Str(s) => JsonValue::Str(s.clone()),
        RequestId::Int(v) => JsonValue::Num(i64_string(*v)),
    }
}

/// Append copies of `extra`'s entries.
fn append_entries(e: &mut Vec<(String, JsonValue)>, extra: &Vec<(String, JsonValue)>)
    ensures
        view_json_entries(final(e)@) == view_json_entries(old(e)@) + view_json_entries(extra@),
{
    proof {
        lemma_view_json_entries(extra@);
        assert(view_json_entries(e@) + view_json_entries(extra@).subrange(0, 0)
            =~= view_json_entries(e@));
    }
    let n = extra.len();
    let mut i: usize = 0;
    while i < n
        invariant
            0 <= i <= n,
            n == extra@.len(),
            view_json_entries(extra@).len() == n,
            forall|j: int| 0 <= j < n ==> view_json_entries(extra@)[j] == (
                (#[trigger] extra@[j]).0@,
                view_json(extra@[j].1),
            ),
            view_json_entries(e@) == view_json_entries(old(e)@) + view_json_entries(
                extra@,
            ).subrange(0, i as int),
        decreases n - i,
    {
        let k = extra[i].0.clone();
        let v = extra[i].1.duplicate();
        proof {
            lemma_view_json_entries_push(e@, k, v);
            assert(view_json_entries(extra@).subrange(0, i + 1 as int) =~= view_json_entries(
                extra@,
            ).subrange(0, i as int).push((extra@[i as int].0@, view_json(extra@[i as int].1))));
            assert((view_json_entries(old(e)@) + view_json_entries(extra@).subrange(
                0,
                i as int,
            )).push((extra@[i as int].0@, view_json(extra@[i as int].1))) =~= view_json_entries(
                old(e)@,
            ) + view_json_entries(extra@).subrange(0, i + 1 as int));
        }
        e.push((k, v));
        i = i + 1;
    }
    proof {
        assert(view_json_entries(extra@).subrange(0, n as int) =~= view_json_entries(extra@));
    }
}

/// Push one entry under a literal key.
fn push_entry(e: &mut Vec<(String, JsonValue)>, key: &str, v: JsonValue)
    ensures
        view_json_entries(final(e)@) == view_json_entries(old(e)@).push((key@, v@)),
{
    let ghost vv = v@;
    let k = String::from_str(key);
    proof {
        lemma_view_json_entries_push(e@, k, v);
    }
    e.push((k, v));
}

/// The JSON value of a request.
pub fn enc_request(r: &JSONRPCRequest) -> (out: JsonValue)
    ensures
        out@ == SpecJson::Obj(spec_enc_request(r@)),
{
    let mut e: Vec<(String, JsonValue)> = Vec::new();
    proof {
        reveal_strlit("id");
        reveal_strlit("jsonrpc");
        reveal_strlit("2.0");
        reveal_strlit("method");
        reveal_strlit("params");
        assert(view_json_entries(e@) =~= Seq::<(Seq<char>, SpecJson)>::empty());
    }
    push_entry(&mut e, "id", id_json(&r.id));
    push_entry(&mut e, "jsonrpc", JsonValue::Str(String::from_str("2.0")));
    push_entry(&mut e, "method", JsonValue::Str(r.method.clone()));
    match &r.params {
        Some(p) => {
            push_entry(&mut e, "params", JsonValue::Obj(duplicate_entries(p)));
        },
        None => {},
    }
    let ghost pre = view_json_entries(e@);
    append_entries(&mut e, &r.extra);
    proof {
        reveal_strlit("id");
        reveal_strlit("jsonrpc");
        reveal_strlit("2.0");
        reveal_strlit("method");
        reveal_strlit("params");
        assert("id"@ =~= kid());
        assert("jsonrpc"@ =~= kjsonrpc());
        assert("2.0"@ =~= jsonrpc_version());
        assert("method"@ =~= kmethod());
        assert("params"@ =~= kparams());
        assert(view_json_entries(e@) =~~= spec_enc_request(r@));
    }
    JsonValue::Obj(e)
}

/// The JSON value of a notification.
pub fn enc_notification(n: &JSONRPCNotification) -> (out: JsonValue)
    ensures
        out@ == SpecJson::Obj(spec_enc_notification(n@)),
{
    let mut e: Vec<(String, JsonValue)> = Vec::new();
    proof {
        reveal_strlit("jsonrpc");
        reveal_strlit("2.0");
        reveal_strlit("method");
        reveal_strlit("params");
        assert(view_json_entries(e@) =~= Seq::<(Seq<char>, SpecJson)>::empty());
    }
    push_entry(&mut e, "jsonrpc", JsonValue::Str(String::from_str("2.0")));
    push_entry(&mut e, "method", JsonValue::Str(n.method.clone()));
    match &n.params {
        Some(p) => {
            push_entry(&mut e, "params", JsonValue::Obj(duplicate_entries(p)));
        },
        None => {},
    }
    append_entries(&mut e, &n.extra);
    proof {
        reveal_strlit("jsonrpc");
        reveal_strlit("2.0");
        reveal_strlit("method");
        reveal_strlit("params");
        assert("jsonrpc"@ =~= kjsonrpc());
        assert("2.0"@ =~= jsonrpc_version());
        assert("method"@ =~= kmethod());
        assert("params"@ =~= kparams());
        assert(view_json_entries(e@) =~~= spec_enc_notification(n@));
    }
    JsonValue::Obj(e)
}

/// The JSON value of a response.
pub fn enc_response(r: &JSONRPCResponse) -> (out: JsonValue)
    ensures
        out@ == SpecJson::Obj(spec_enc_response(r@)),
{
    let mut e: Vec<(String, JsonValue)> = Vec::new();
    proof {
        reveal_strlit("id");
        reveal_strlit("jsonrpc");
        reveal_strlit("2.0");
        reveal_strlit("result");
        assert(view_json_entries(e@) =~= Seq::<(Seq<char>, SpecJson)>::empty());
    }
    push_entry(&mut e, "id", id_json(&r.id));
    push_entry(&mut e, "jsonrpc", JsonValue::Str(String::from_str("2.0")));
    push_entry(&mut e, "result", JsonValue::Obj(duplicate_entries(&r.result)));
    append_entries(&mut e, &r.extra);
    proof {
        reveal_strlit("id");
        reveal_strlit("jsonrpc");
        reveal_strlit("2.0");
        reveal_strlit("result");
        assert("id"@ =~= kid());
        assert("jsonrpc"@ =~= kjsonrpc());
        assert("2.0"@ =~= jsonrpc_version());
        assert("result"@ =~= kresult());
        assert(view_json_entries(e@) =~~= spec_enc_response(r@));
    }
    JsonValue::Obj(e)
}

/// The JSON value of an error reply.
pub fn enc_error(x: &JSONRPCError) -> (out: JsonValue)
    ensures
        out@ == SpecJson::Obj(spec_enc_error(x@)),
{
    let mut b: Vec<(String, JsonValue)> = Vec::new();
    proof {
        reveal_strlit("id");
        reveal_strlit("jsonrpc");
        reveal_strlit("2.0");
        reveal_strlit("error");
        reveal_strlit("code");
        reveal_strlit("message");
        reveal_strlit("data");
        assert(view_json_entries(b@) =~= Seq::<(Seq<char>, SpecJson)>::empty());
    }
    push_entry(&mut b, "code", JsonValue::Num(i64_string(x.error.code)));
    push_entry(&mut b, "message", JsonValue::Str(x.error.message.clone()));
    match &x.error.data {
        Some(d) => {
            push_entry(&mut b, "data", d.duplicate());
        },
        None => {},
    }
    append_entries(&mut b, &x.error.extra);
    proof {
        reveal_strlit("id");
        reveal_strlit("jsonrpc");
        reveal_strlit("2.0");
        reveal_strlit("error");
        reveal_strlit("code");
        reveal_strlit("message");
        reveal_strlit("data");
        assert("code"@ =~= kcode());
        assert("message"@ =~= kmessage());
        assert("data"@ =~= kdata());
        assert(view_json_entries(b@) =~~= spec_enc_error_body(x.error@));
    }
    let mut e: Vec<(String, JsonValue)> = Vec::new();
    proof {
        assert(view_json_entries(e@) =~= Seq::<(Seq<char>, SpecJson)>::empty());
    }
    push_entry(&mut e, "id", id_json(&x.id));
    push_entry(&mut e, "jsonrpc", JsonValue::Str(String::from_str("2.0")));
    push_entry(&mut e, "error", JsonValue::Obj(b));
    append_entries(&mut e, &x.extra);
    proof {
        reveal_strlit("id");
        reveal_strlit("jsonrpc");
        reveal_strlit("2.0");
        reveal_strlit("error");
        reveal_strlit("code");
        reveal_strlit("message");
        reveal_strlit("data");
        assert("id"@ =~= kid());
        assert("jsonrpc"@ =~= kjsonrpc());
        assert("2.0"@ =~= jsonrpc_version());
        assert("error"@ =~= kerror());
        assert(view_json_entries(e@) =~~= spec_enc_error(x@));
    }
    JsonValue::Obj(e)
}

/// The JSON value of a message.
pub fn enc_message(m: &JSONRPCMessage) -> (out: JsonValue)
    ensures
        out@ == spec_enc_message(m@),
{
    match m {
        JSONRPCMessage::JSONRPCRequest(r) => enc_request(r),
        JSONRPCMessage::JSONRPCNotification(n) => enc_notification(n),
        JSONRPCMessage::JSONRPCResponse(r) => enc_response(r),
        JSONRPCMessage::JSONRPCError(e) => enc_error(e),
        JSONRPCMessage::JSONRPCBatchRequest(b) => {
            proof {
                lemma_view_req_items(b.0@);
            }
            let n = b.0.len();
            let mut items: Vec<JsonValue> = Vec::new();
            let mut i: usize = 0;
            while i < n
                invariant
                    0 <= i <= n,
                    n == b.0@.len(),
                    view_req_items(b.0@).len() == n,
                    forall|j: int| 0 <= j < n ==> view_req_items(b.0@)[j] == (
                    #[trigger] b.0@[j])@,
                    view_json_seq(items@) == spec_enc_req_items(
                        view_req_items(b.0@).subrange(0, i as int),
                    ),
                    items@.len() == i,
                decreases n - i,
            {
                let jv = match &b.0[i] {
                    JsonrpcBatchRequestItem::JSONRPCRequest(r) => enc_request(r),
                    JsonrpcBatchRequestItem::JSONRPCNotification(nn) => enc_notification(nn),
                };
                proof {
                    lemma_view_json_seq_push(items@, jv);
                    lemma_enc_req_items_push(
                        view_req_items(b.0@).subrange(0, i as int),
                        view_req_items(b.0@)[i as int],
                    );
                    assert(view_req_items(b.0@).subrange(0, i + 1 as int) =~= view_req_items(
                        b.0@,
                    ).subrange(0, i as int).push(view_req_items(b.0@)[i as int]));
                }
                items.push(jv);
                i = i + 1;
            }
            proof {
                assert(view_req_items(b.0@).subrange(0, n as int) =~= view_req_items(b.0@));
            }
            JsonValue::Arr(items)
        },
        JSONRPCMessage::JSONRPCBatchResponse(b) => {
            proof {
                lemma_view_resp_items(b.0@);
            }
            let n = b.0.len();
            let mut items: Vec<JsonValue> = Vec::new();
            let mut i: usize = 0;
            while i < n
                invariant
                    0 <= i <= n,
                    n == b.0@.len(),
                    view_resp_items(b.0@).len() == n,
                    forall|j: int| 0 <= j < n ==> view_resp_items(b.0@)[j] == (
                    #[trigger] b.0@[j])@,
                    view_json_seq(items@) == spec_enc_resp_items(
                        view_resp_items(b.0@).subrange(0, i as int),
                    ),
                    items@.len() == i,
                decreases n - i,
            {
                let jv = match &b.0[i] {
                    JsonrpcBatchResponseItem::JSONRPCResponse(r) => enc_response(r),
                    JsonrpcBatchResponseItem::JSONRPCError(e) => enc_error(e),
                };
                proof {
                    lemma_view_json_seq_push(items@, jv);
                    lemma_enc_resp_items_push(
                        view_resp_items(b.0@).subrange(0, i as int),
                        view_resp_items(b.0@)[i as int],
                    );
                    assert(view_resp_items(b.0@).subrange(0, i + 1 as int) =~= view_resp_items(
                        b.0@,
                    ).subrange(0, i as int).push(view_resp_items(b.0@)[i as int]));
                }
                items.push(jv);
                i = i + 1;
            }
            proof {
                assert(view_resp_items(b.0@).subrange(0, n as int) =~= view_resp_items(b.0@));
            }
            JsonValue::Arr(items)
        },
    }
}

/// The item view commutes with indexing.
pub proof fn lemma_view_req_items(items: Seq<JsonrpcBatchRequestItem>)
    ensures
        view_req_items(items).len() == items.len(),
        forall|i: int| 0 <= i < items.len() ==> view_req_items(items)[i] == (
        #[trigger] items[i])@,
    decreases items,
{
    if items.len() > 0 {
        lemma_view_req_items(items.drop_first());
        assert forall|i: int| 0 <= i < items.len() implies view_req_items(items)[i] == (
        #[trigger] items[i])@ by {
            if i > 0 {
                assert(items.drop_first()[i - 1] == items[i]);
                assert(view_req_items(items)[i] == view_req_items(items.drop_first())[i - 1]);
            }
        }
    }
}

/// The item view commutes with indexing.
pub proof fn lemma_view_resp_items(items: Seq<JsonrpcBatchResponseItem>)
    ensures
        view_resp_items(items).len() == items.len(),
        forall|i: int| 0 <= i < items.len() ==> view_resp_items(items)[i] == (
        #[trigger] items[i])@,
    decreases items,
{
    if items.len() > 0 {
        lemma_view_resp_items(items.drop_first());
        assert forall|i: int| 0 <= i < items.len() implies view_resp_items(items)[i] == (
        #[trigger] items[i])@ by {
            if i > 0 {
                assert(items.drop_first()[i - 1] == items[i]);
                assert(view_resp_items(items)[i] == view_resp_items(items.drop_first())[i - 1]);
            }
        }
    }
}

/// Appending one item extends the encoded batch by its encoding.
pub proof fn lemma_enc_req_items_push(items: Seq<SpecBatchRequestItem>, x: SpecBatchRequestItem)
    ensures
        spec_enc_req_items(items.push(x)) == spec_enc_req_items(items).push(
            match x {
                SpecBatchRequestItem::Request(r) => SpecJson::Obj(spec_enc_request(r)),
                SpecBatchRequestItem::Notification(n) => SpecJson::Obj(spec_enc_notification(n)),
            },
        ),
    decreases items.len(),
{
    if items.len() == 0 {
        assert(items.push(x)[0] == x);
        assert(items.push(x).drop_first() =~= Seq::<SpecBatchRequestItem>::empty());
        assert(spec_enc_req_items(Seq::<SpecBatchRequestItem>::empty())
            == Seq::<SpecJson>::empty());
        assert(spec_enc_req_items(items.push(x)) =~= spec_enc_req_items(items).push(
            match x {
                SpecBatchRequestItem::Request(r) => SpecJson::Obj(spec_enc_request(r)),
                SpecBatchRequestItem::Notification(n) => SpecJson::Obj(spec_enc_notification(n)),
            },
        ));
    } else {
        assert(items.push(x)[0] == items[0]);
        assert(items.push(x).drop_first() =~= items.drop_first().push(x));
        lemma_enc_req_items_push(items.drop_first(), x);
        assert(spec_enc_req_items(items.push(x)) =~= spec_enc_req_items(items).push(
            match x {
                SpecBatchRequestItem::Request(r) => SpecJson::Obj(spec_enc_request(r)),
                SpecBatchRequestItem::Notification(n) => SpecJson::Obj(spec_enc_notification(n)),
            },
        ));
    }
}

/// Appending one item extends the encoded batch by its encoding.
pub proof fn lemma_enc_resp_items_push(items: Seq<SpecBatchResponseItem>, x: SpecBatchResponseItem)
    ensures
        spec_enc_resp_items(items.push(x)) == spec_enc_resp_items(items).push(
            match x {
                SpecBatchResponseItem::Response(r) => SpecJson::Obj(spec_enc_response(r)),
                SpecBatchResponseItem::Error(e) => SpecJson::Obj(spec_enc_error(e)),
            },
        ),
    decreases items.len(),
{
    if items.len() == 0 {
        assert(items.push(x)[0] == x);
        assert(items.push(x).drop_first() =~= Seq::<SpecBatchResponseItem>::empty());
        assert(spec_enc_resp_items(Seq::<SpecBatchResponseItem>::empty())
            == Seq::<SpecJson>::empty());
        assert(spec_enc_resp_items(items.push(x)) =~= spec_enc_resp_items(items).push(
            match x {
                SpecBatchResponseItem::Response(r) => SpecJson::Obj(spec_enc_response(r)),
                SpecBatchResponseItem::Error(e) => SpecJson::Obj(spec_enc_error(e)),
            },
        ));
    } else {
        assert(items.push(x)[0] == items[0]);
        assert(items.push(x).drop_first() =~= items.drop_first().push(x));
        lemma_enc_resp_items_push(items.drop_first(), x);
        assert(spec_enc_resp_items(items.push(x)) =~= spec_enc_resp_items(items).push(
            match x {
                SpecBatchResponseItem::Response(r) => SpecJson::Obj(spec_enc_response(r)),
                SpecBatchResponseItem::Error(e) => SpecJson::Obj(spec_enc_error(e)),
            },
        ));
    }
}

/// One line of wire text for a message.
pub fn serialize_message(m: &JSONRPCMessage) -> (r: String)
    ensures
        r@ == spec_print(spec_enc_message(m@)),
{
    let j = enc_message(m);
    json_to_string(&j)
}

/// Whether a key is one the message shapes reserve.
fn is_reserved_exec(k: &String) -> (b: bool)
    ensures
        b == is_reserved_key(k@),
{
    proof {
        reveal_strlit("id");
        reveal_strlit("jsonrpc");
        reveal_strlit("method");
        reveal_strlit("params");
        reveal_strlit("result");
        reveal_strlit("error");
        assert("id"@ =~= kid());
        assert("jsonrpc"@ =~= kjsonrpc());
        assert("method"@ =~= kmethod());
        assert("params"@ =~= kparams());
        assert("result"@ =~= kresult());
        assert("error"@ =~= kerror());
    }
    *k == String::from_str("id") || *k == String::from_str("jsonrpc") || *k == String::from_str(
        "method",
    ) || *k == String::from_str("params") || *k == String::from_str("result")
        || *k == String::from_str("error")
}

/// Whether a key is one the error object reserves.
fn is_body_key_exec(k: &String) -> (b: bool)
    ensures
        b == is_body_key(k@),
{
    proof {
        reveal_strlit("code");
        reveal_strlit("message");
        reveal_strlit("data");
        assert("code"@ =~= kcode());
        assert("message"@ =~= kmessage());
        assert("data"@ =~= kdata());
    }
    *k == String::from_str("code") || *k == String::from_str("message") || *k == String::from_str(
        "data",
    )
}

/// Copies of the entries under unreserved keys, in order.
#[verifier::loop_isolation(false)]
fn strip_reserved_exec(e: &Vec<(String, JsonValue)>) -> (r: Vec<(String, JsonValue)>)
    ensures
        view_json_entries(r@) == strip_reserved(view_json_entries(e@)),
{
    proof {
        lemma_view_json_entries(e@);
        assert(view_json_entries(e@).subrange(0, view_json_entries(e@).len() as int)
            =~= view_json_entries(e@));
    }
    let n = e.len();
    let mut out: Vec<(String, JsonValue)> = Vec::new();
    let mut i: usize = 0;
    while i < n
        invariant
            0 <= i <= n,
            strip_reserved(view_json_entries(e@)) == view_json_entries(out@) + strip_reserved(
                view_json_entries(e@).subrange(i as int, n as int),
            ),
        decreases n - i,
    {
        let ghost tail = view_json_entries(e@).subrange(i as int, n as int);
        proof {
            assert(tail[0] == (e@[i as int].0@, view_json(e@[i as int].1)));
            assert(tail.drop_first() =~= view_json_entries(e@).subrange(i + 1 as int, n as int));
        }
        if is_reserved_exec(&e[i].0) {
        } else {
            let k = e[i].0.clone();
            let v = e[i].1.duplicate();
            proof {
                lemma_view_json_entries_push(out@, k, v);
                assert((view_json_entries(out@) + (seq![tail[0]] + strip_reserved(
                    tail.drop_first(),
                ))) =~= view_json_entries(out@).push(tail[0]) + strip_reserved(tail.drop_first()));
            }
            out.push((k, v));
        }
        i = i + 1;
    }
    proof {
        assert(view_json_entries(e@).subrange(n as int, n as int) =~= Seq::<
            (Seq<char>, SpecJson),
        >::empty());
        assert(view_json_entries(out@) + Seq::<(Seq<char>, SpecJson)>::empty() =~= view_json_entries(
            out@,
        ));
    }
    out
}

/// Copies of the entries under keys the error object does not reserve.
#[verifier::loop_isolation(false)]
fn strip_body_keys_exec(e: &Vec<(String, JsonValue)>) -> (r: Vec<(String, JsonValue)>)
    ensures
        view_json_entries(r@) == strip_body_keys(view_json_entries(e@)),
{
    proof {
        lemma_view_json_entries(e@);
        assert(view_json_entries(e@).subrange(0, view_json_entries(e@).len() as int)
            =~= view_json_entries(e@));
    }
    let n = e.len();
    let mut out: Vec<(String, JsonValue)> = Vec::new();
    let mut i: usize = 0;
    while i < n
        invariant
            0 <= i <= n,
            strip_body_keys(view_json_entries(e@)) == view_json_entries(out@) + strip_body_keys(
                view_json_entries(e@).subrange(i as int, n as int),
            ),
        decreases n - i,
    {
        let ghost tail = view_json_entries(e@).subrange(i as int, n as int);
        proof {
            assert(tail[0] == (e@[i as int].0@, view_json(e@[i as int].1)));
            assert(tail.drop_first() =~= view_json_entries(e@).subrange(i + 1 as int, n as int));
        }
        if is_body_key_exec(&e[i].0) {
        } else {
            let k = e[i].0.clone();
            let v = e[i].1.duplicate();
            proof {
                lemma_view_json_entries_push(out@, k, v);
                assert((view_json_entries(out@) + (seq![tail[0]] + strip_body_keys(
                    tail.drop_first(),
                ))) =~= view_json_entries(out@).push(tail[0]) + strip_body_keys(
                    tail.drop_first(),
                ));
            }
            out.push((k, v));
        }
        i = i + 1;
    }
    proof {
        assert(view_json_entries(e@).subrange(n as int, n as int) =~= Seq::<
            (Seq<char>, SpecJson),
        >::empty());
        assert(view_json_entries(out@) + Seq::<(Seq<char>, SpecJson)>::empty() =~= view_json_entries(
            out@,
        ));
    }
    out
}

/// Whether the entries carry `"jsonrpc": "2.0"`.
fn jsonrpc_ok(e: &Vec<(String, JsonValue)>) -> (b: bool)
    ensures
        b == (spec_obj_get(view_json_entries(e@), kjsonrpc()) == Some(
            SpecJson::Str(jsonrpc_version()),
        )),
{
    proof {
        reveal_strlit("jsonrpc");
        reveal_strlit("2.0");
        assert("jsonrpc"@ =~= kjsonrpc());
        assert("2.0"@ =~= jsonrpc_version());
    }
    match obj_get(e, "jsonrpc") {
        Some(JsonValue::Str(s)) => {
            let b = *s == String::from_str("2.0");
            proof {
                if s@ == jsonrpc_version() {
                    assert(SpecJson::Str(s@) =~= SpecJson::Str(jsonrpc_version()));
                }
            }
            b
        },
        _ => false,
    }
}

/// Decode an identifier value.
pub fn dec_id(v: &JsonValue) -> (r: Option<RequestId>)
    ensures
        match r {
            Some(id) => spec_dec_id(v@) == Some(id@),
            None => spec_dec_id(v@) is None,
        },
{
    match v {
        JsonValue::Str(s) => Some(RequestId::Str(s.clone())),
        JsonValue::Num(lex) => match i64_from_str(lex.as_str()) {
            Some(n) => Some(RequestId::Int(n)),
            None => None,
        },
        _ => None,
    }
}

/// Decode a request from object entries.
pub fn dec_request(e: &Vec<(String, JsonValue)>) -> (r: Option<JSONRPCRequest>)
    ensures
        match r {
            Some(m) => spec_dec_request(view_json_entries(e@)) == Some(m@),
            None => spec_dec_request(view_json_entries(e@)) is None,
        },
{
    proof {
        reveal_strlit("id");
        reveal_strlit("method");
        reveal_strlit("params");
        assert("id"@ =~= kid());
        assert("method"@ =~= kmethod());
        assert("params"@ =~= kparams());
    }
    if !jsonrpc_ok(e) {
        return None;
    }
    let idv = match obj_get(e, "id") {
        Some(v) => v,
        None => {
            return None;
        },
    };
    let id = match dec_id(idv) {
        Some(id) => id,
        None => {
            return None;
        },
    };
    let method = match obj_get(e, "method") {
        Some(JsonValue::Str(m)) => m.clone(),
        _ => {
            return None;
        },
    };
    match obj_get(e, "params") {
        Some(JsonValue::Obj(p)) => Some(
            JSONRPCRequest {
                id,
                method,
                params: Some(duplicate_entries(p)),
                extra: strip_reserved_exec(e),
            },
        ),
        Some(_) => None,
        None => Some(
            JSONRPCRequest { id, method, params: None, extra: strip_reserved_exec(e) },
        ),
    }
}

/// Decode a notification from object entries.
pub fn dec_notification(e: &Vec<(String, JsonValue)>) -> (r: Option<JSONRPCNotification>)
    ensures
        match r {
            Some(m) => spec_dec_notification(view_json_entries(e@)) == Some(m@),
            None => spec_dec_notification(view_json_entries(e@)) is None,
        },
{
    proof {
        reveal_strlit("method");
        reveal_strlit("params");
        assert("method"@ =~= kmethod());
        assert("params"@ =~= kparams());
    }
    if !jsonrpc_ok(e) {
        return None;
    }
    let method = match obj_get(e, "method") {
        Some(JsonValue::Str(m)) => m.clone(),
        _ => {
            return None;
        },
    };
    match obj_get(e, "params") {
        Some(JsonValue::Obj(p)) => Some(
            JSONRPCNotification {
                method,
                params: Some(duplicate_entries(p)),
                extra: strip_reserved_exec(e),
            },
        ),
        Some(_) => None,
        None => Some(
            JSONRPCNotification { method, params: None, extra: strip_reserved_exec(e) },
        ),
    }
}

/// Decode a response from object entries.
pub fn dec_response(e: &Vec<(String, JsonValue)>) -> (r: Option<JSONRPCResponse>)
    ensures
        match r {
            Some(m) => spec_dec_response(view_json_entries(e@)) == Some(m@),
            None => spec_dec_response(view_json_entries(e@)) is None,
        },
{
    proof {
        reveal_strlit("id");
        reveal_strlit("result");
        assert("id"@ =~= kid());
        assert("result"@ =~= kresult());
    }
    if !jsonrpc_ok(e) {
        return None;
    }
    let idv = match obj_get(e, "id") {
        Some(v) => v,
        None => {
            return None;
        },
    };
    let id = match dec_id(idv) {
        Some(id) => id,
        None => {
            return None;
        },
    };
    match obj_get(e, "result") {
        Some(JsonValue::Obj(res)) => Some(
            JSONRPCResponse {
                id,
                result: duplicate_entries(res),
                extra: strip_reserved_exec(e),
            },
        ),
        _ => None,
    }
}

/// Decode an error object from its entries.
pub fn dec_error_body(b: &Vec<(String, JsonValue)>) -> (r: Option<JsonrpcErrorError>)
    ensures
        match r {
            Some(m) => spec_dec_error_body(view_json_entries(b@)) == Some(m@),
            None => spec_dec_error_body(view_json_entries(b@)) is None,
        },
{
    proof {
        reveal_strlit("code");
        reveal_strlit("message");
        reveal_strlit("data");
        assert("code"@ =~= kcode());
        assert("message"@ =~= kmessage());
        assert("data"@ =~= kdata());
    }
    let code = match obj_get(b, "code") {
        Some(JsonValue::Num(lex)) => match i64_from_str(lex.as_str()) {
            Some(c) => c,
            None => {
                return None;
            },
        },
        _ => {
            return None;
        },
    };
    let message = match obj_get(b, "message") {
        Some(JsonValue::Str(m)) => m.clone(),
        _ => {
            return None;
        },
    };
    let data = match obj_get(b, "data") {
        Some(d) => Some(d.duplicate()),
        None => None,
    };
    Some(JsonrpcErrorError { code, message, data, extra: strip_body_keys_exec(b) })
}

/// Decode an error reply from object entries.
pub fn dec_error(e: &Vec<(String, JsonValue)>) -> (r: Option<JSONRPCError>)
    ensures
        match r {
            Some(m) => spec_dec_error(view_json_entries(e@)) == Some(m@),
            None => spec_dec_error(view_json_entries(e@)) is None,
        },
{
    proof {
        reveal_strlit("id");
        reveal_strlit("error");
        assert("id"@ =~= kid());
        assert("error"@ =~= kerror());
    }
    if !jsonrpc_ok(e) {
        return None;
    }
    let idv = match obj_get(e, "id") {
        Some(v) => v,
        None => {
            return None;
        },
    };
    let id = match dec_id(idv) {
        Some(id) => id,
        None => {
            return None;
        },
    };
    match obj_get(e, "error") {
        Some(JsonValue::Obj(b)) => match dec_error_body(b) {
            Some(body) => Some(
                JSONRPCError { id, error: body, extra: strip_reserved_exec(e) },
            ),
            None => None,
        },
        _ => None,
    }
}

/// Decode the elements of a request batch, from index `idx` on.
fn dec_req_items(items: &Vec<JsonValue>, idx: usize) -> (r: Option<Vec<JsonrpcBatchRequestItem>>)
    requires
        idx <= items@.len(),
    ensures
        ({
            let tail = view_json_seq(items@).subrange(idx as int, items@.len() as int);
            match r {
                Some(v) => spec_dec_req_items(tail) == Some(view_req_items(v@)),
                None => spec_dec_req_items(tail) is None,
            }
        }),
    decreases items@.len() - idx,
{
    proof {
        lemma_view_json_seq(items@);
    }
    let ghost tail = view_json_seq(items@).subrange(idx as int, items@.len() as int);
    if idx >= items.len() {
        let out: Vec<JsonrpcBatchRequestItem> = Vec::new();
        proof {
            assert(tail =~= Seq::<SpecJson>::empty());
            assert(view_req_items(out@) =~= Seq::<SpecBatchRequestItem>::empty());
        }
        return Some(out);
    }
    proof {
        assert(tail[0] == view_json(items@[idx as int]));
        assert(tail.drop_first() =~= view_json_seq(items@).subrange(
            idx + 1 as int,
            items@.len() as int,
        ));
    }
    match &items[idx] {
        JsonValue::Obj(e) => {
            let head: JsonrpcBatchRequestItem = match dec_request(e) {
                Some(rq) => JsonrpcBatchRequestItem::JSONRPCRequest(rq),
                None => match dec_notification(e) {
                    Some(nn) => JsonrpcBatchRequestItem::JSONRPCNotification(nn),
                    None => {
                        return None;
                    },
                },
            };
            match dec_req_items(items, idx + 1) {
                Some(mut rest) => {
                    let ghost rtail = rest@;
                    rest.insert(0, head);
                    proof {
                        assert(rest@ =~= seq![head] + rtail);
                        assert(view_req_items(seq![head] + rtail) =~= seq![head@] + view_req_items(
                            rtail,
                        )) by {
                            assert((seq![head] + rtail).len() > 0);
                            assert((seq![head] + rtail)[0] == head);
                            assert((seq![head] + rtail).drop_first() =~= rtail);
                        }
                    }
                    Some(rest)
                },
                None => None,
            }
        },
        _ => None,
    }
}

/// Decode the elements of a reply batch, from index `idx` on.
fn dec_resp_items(items: &Vec<JsonValue>, idx: usize) -> (r: Option<Vec<JsonrpcBatchResponseItem>>)
    requires
        idx <= items@.len(),
    ensures
        ({
            let tail = view_json_seq(items@).subrange(idx as int, items@.len() as int);
            match r {
                Some(v) => spec_dec_resp_items(tail) == Some(view_resp_items(v@)),
                None => spec_dec_resp_items(tail) is None,
            }
        }),
    decreases items@.len() - idx,
{
    proof {
        lemma_view_json_seq(items@);
    }
    let ghost tail = view_json_seq(items@).subrange(idx as int, items@.len() as int);
    if idx >= items.len() {
        let out: Vec<JsonrpcBatchResponseItem> = Vec::new();
        proof {
            assert(tail =~= Seq::<SpecJson>::empty());
            assert(view_resp_items(out@) =~= Seq::<SpecBatchResponseItem>::empty());
        }
        return Some(out);
    }
    proof {
        assert(tail[0] == view_json(items@[idx as int]));
        assert(tail.drop_first() =~= view_json_seq(items@).subrange(
            idx + 1 as int,
            items@.len() as int,
        ));
    }
    match &items[idx] {
        JsonValue::Obj(e) => {
            let head: JsonrpcBatchResponseItem = match dec_response(e) {
                Some(rq) => JsonrpcBatchResponseItem::JSONRPCResponse(rq),
                None => match dec_error(e) {
                    Some(x) => JsonrpcBatchResponseItem::JSONRPCError(x),
                    None => {
                        return None;
                    },
                },
            };
            match dec_resp_items(items, idx + 1) {
                Some(mut rest) => {
                    let ghost rtail = rest@;
                    rest.insert(0, head);
                    proof {
                        assert(rest@ =~= seq![head] + rtail);
                        assert(view_resp_items(seq![head] + rtail) =~= seq![head@]
                            + view_resp_items(rtail)) by {
                            assert((seq![head] + rtail).len() > 0);
                            assert((seq![head] + rtail)[0] == head);
                            assert((seq![head] + rtail).drop_first() =~= rtail);
                        }
                    }
                    Some(rest)
                },
                None => None,
            }
        },
        _ => None,
    }
}

/// Decode a message from a JSON value.
pub fn dec_message(j: &JsonValue) -> (r: Option<JSONRPCMessage>)
    ensures
        match r {
            Some(m) => spec_dec_message(j@) == Some(m@),
            None => spec_dec_message(j@) is None,
        },
{
    match j {
        JsonValue::Obj(e) => {
            if let Some(rq) = dec_request(e) {
                return Some(JSONRPCMessage::JSONRPCRequest(rq));
            }
            if let Some(nn) = dec_notification(e) {
                return Some(JSONRPCMessage::JSONRPCNotification(nn));
            }
            if let Some(rs) = dec_response(e) {
                return Some(JSONRPCMessage::JSONRPCResponse(rs));
            }
            if let Some(x) = dec_error(e) {
                return Some(JSONRPCMessage::JSONRPCError(x));
            }
            None
        },
        JsonValue::Arr(items) => {
            proof {
                lemma_view_json_seq(items@);
                assert(view_json_seq(items@).subrange(0, items@.len() as int) =~= view_json_seq(
                    items@,
                ));
            }
            if let Some(v) = dec_req_items(items, 0) {
                return Some(JSONRPCMessage::JSONRPCBatchRequest(JSONRPCBatchRequest(v)));
            }
            if let Some(v) = dec_resp_items(items, 0) {
                return Some(JSONRPCMessage::JSONRPCBatchResponse(JSONRPCBatchResponse(v)));
            }
            None
        },
        _ => None,
    }
}

/// Parse one line of wire text into a message.
pub fn parse_message(text: &str) -> (r: Option<JSONRPCMessage>)
    ensures
        match r {
            Some(m) => ({
                &&& spec_parse_json(text@) is Some
                &&& spec_dec_message(spec_parse_json(text@)->0) == Some(m@)
            }),
            None => match spec_parse_json(text@) {
                Some(v) => spec_dec_message(v) is None,
                None => true,
            },
        },
{
    match parse_json(text) {
        Some(v) => dec_message(&v),
        None => None,
    }
}

/// Round trip over the wire: the serialized text of any well-formed
/// message — unknown extra fields included — parses back to a JSON
/// value that decodes to exactly that message.  With the contracts of
/// [`serialize_message`] and [`parse_message`], parsing the serialized
/// line always returns the message itself.
pub proof fn lemma_wire_round_trip(m: SpecMessage)
    requires
        crate::mcp::msg_wf(m),
    ensures
        spec_parse_json(spec_print(spec_enc_message(m))) == Some(spec_enc_message(m)),
        spec_dec_message(spec_enc_message(m)) == Some(m),
{
    crate::mcp::lemma_enc_message_json_wf(m);
    crate::codec::lemma_json_round_trip(spec_enc_message(m));
    crate::mcp::lemma_message_round_trip(m);
}

} // verus!
