//! The session lifecycle: the initialization handshake, the queue of
//! early messages, and the hand-off into normal dispatch.
//!
//! A session starts waiting for the `initialize` request, answers it,
//! then waits for the `notifications/initialized` notification.  Every
//! other message that arrives meanwhile is queued in arrival order and
//! replayed, still in that order, the moment the handshake completes —
//! before any newer message is looked at.

use vstd::prelude::*;
use crate::json::{JsonValue, SpecJson, obj_get, spec_obj_get, view_json_entries};
use crate::mcp::{
    JSONRPCMessage, JSONRPCResponse, SpecMessage, SpecRequest, SpecResponse,
};
use crate::protocol::ProtocolVersion;
use crate::server::{MCPServer, SpecServer};

verus! {

/// Where the handshake stands.
#[derive(Debug, Clone, Copy, PartialEq, Eq, Structural)]
pub enum SessionPhase {
    /// Waiting for the `initialize` request.
    Initializing,
    /// `initialize` answered; waiting for `notifications/initialized`.
    AwaitInitialized,
    /// Handshake complete; messages go to the dispatcher.
    Running,
}

/// A session: its phase and the messages queued during the handshake.
#[derive(Debug)]
pub struct Session {
    pub phase: SessionPhase,
    pub queued: Vec<JSONRPCMessage>,
}

/// Model of a sequence of messages, element by element.
pub open spec fn view_messages(ms: Seq<JSONRPCMessage>) -> Seq<SpecMessage>
    decreases ms,
{
    if ms.len() == 0 {
        Seq::empty()
    } else {
        seq![ms[0]@] + view_messages(ms.drop_first())
    }
}

/// The message view commutes with indexing.
pub proof fn lemma_view_messages(ms: Seq<JSONRPCMessage>)
    ensures
        view_messages(ms).len() == ms.len(),
        forall|i: int| 0 <= i < ms.len() ==> view_messages(ms)[i] == (#[trigger] ms[i])@,
    decreases ms,
{
    if ms.len() > 0 {
        lemma_view_messages(ms.drop_first());
        assert forall|i: int| 0 <= i < ms.len() implies view_messages(ms)[i] == (
        #[trigger] ms[i])@ by {
            if i > 0 {
                assert(ms.drop_first()[i - 1] == ms[i]);
                assert(view_messages(ms)[i] == view_messages(ms.drop_first())[i - 1]);
            }
        }
    }
}

/// Appending one message extends the message view.
pub proof fn lemma_view_messages_push(ms: Seq<JSONRPCMessage>, x: JSONRPCMessage)
    ensures
        view_messages(ms.push(x)) == view_messages(ms).push(x@),
{
    lemma_view_messages(ms.push(x));
    lemma_view_messages(ms);
    assert forall|i: int| 0 <= i < ms.push(x).len() implies view_messages(ms.push(x))[i]
        == view_messages(ms).push(x@)[i] by {
        if i < ms.len() {
            assert(ms.push(x)[i] == ms[i]);
        } else {
            assert(ms.push(x)[i] == x);
        }
    }
    assert(view_messages(ms.push(x)) =~= view_messages(ms).push(x@));
}

/// Model of a session.
#[verifier::ext_equal]
pub ghost struct SpecSession {
    pub phase: SessionPhase,
    pub queued: Seq<SpecMessage>,
}

impl View for Session {
    type V = SpecSession;

    open spec fn view(&self) -> SpecSession {
        SpecSession { phase: self.phase, queued: view_messages(self.queued@) }
    }
}

impl Session {
    /// A fresh session, before any message has arrived.
    pub fn new() -> (r: Session)
        ensures
            r@.phase == SessionPhase::Initializing,
            r@.queued == Seq::<SpecMessage>::empty(),
    {
        let r = Session { phase: SessionPhase::Initializing, queued: Vec::new() };
        proof {
            assert(view_messages(r.queued@) =~= Seq::<SpecMessage>::empty());
        }
        r
    }
}

/// What one session step asks the caller to do.
#[derive(Debug)]
pub enum SessionStep {
    /// The message was queued for replay after the handshake.
    Queued,
    /// Send this `initialize` response to the peer.
    SendInit(JSONRPCMessage),
    /// Handshake complete: dispatch these queued messages, in order,
    /// before pumping any further inbound message.
    Replay(Vec<JSONRPCMessage>),
    /// Running phase: dispatch this message normally.
    Dispatch(JSONRPCMessage),
    /// Handshake failure; the session is over.
    Fatal(String),
}

/// Model of a session step.
#[verifier::ext_equal]
pub ghost enum SpecStep {
    Queued,
    SendInit(SpecMessage),
    Replay(Seq<SpecMessage>),
    Dispatch(SpecMessage),
    Fatal,
}

impl View for SessionStep {
    type V = SpecStep;

    open spec fn view(&self) -> SpecStep {
        match self {
            SessionStep::Queued => SpecStep::Queued,
            SessionStep::SendInit(m) => SpecStep::SendInit(m@),
            SessionStep::Replay(ms) => SpecStep::Replay(view_messages(ms@)),
            SessionStep::Dispatch(m) => SpecStep::Dispatch(m@),
            SessionStep::Fatal(_) => SpecStep::Fatal,
        }
    }
}

/// The protocol version an `initialize` request names, if its
/// parameters are well formed.
pub open spec fn spec_init_version(r: SpecRequest) -> Option<ProtocolVersion> {
    match r.params {
        Some(p) => match spec_obj_get(p, "protocolVersion"@) {
            Some(SpecJson::Str(v)) => ProtocolVersion::spec_parse(v),
            _ => None,
        },
        None => None,
    }
}

/// The `initialize` result: fixed capabilities, the configured
/// instructions if any, the negotiated version echoed back, and the
/// server's identity.
pub open spec fn spec_init_result(s: SpecServer, pv: ProtocolVersion) -> Seq<
    (Seq<char>, SpecJson),
> {
    seq![
        (
            "capabilities"@,
            SpecJson::Obj(
                seq![
                    (
                        "prompts"@,
                        SpecJson::Obj(seq![("listChanged"@, SpecJson::Bool(true))]),
                    ),
                    (
                        "resources"@,
                        SpecJson::Obj(
                            seq![
                                ("listChanged"@, SpecJson::Bool(true)),
                                ("subscribe"@, SpecJson::Bool(false)),
                            ],
                        ),
                    ),
                    (
                        "tools"@,
                        SpecJson::Obj(seq![("listChanged"@, SpecJson::Bool(true))]),
                    ),
                ],
            ),
        ),
    ] + (match s.instructions {
        Some(ins) => seq![("instructions"@, SpecJson::Str(ins))],
        None => Seq::empty(),
    }) + seq![
        ("protocolVersion"@, SpecJson::Str(pv.spec_str())),
        (
            "serverInfo"@,
            SpecJson::Obj(
                seq![("name"@, SpecJson::Str(s.name)), ("version"@, SpecJson::Str(s.version))],
            ),
        ),
    ]
}

/// One step of the session state machine.
pub open spec fn spec_session_step(s: SpecServer, sess: SpecSession, m: SpecMessage) -> (
    SpecSession,
    SpecStep,
) {
    match sess.phase {
        SessionPhase::Initializing => {
            if m matches SpecMessage::Request(r) && r.method == "initialize"@ {
                let r = m->Request_0;
                match spec_init_version(r) {
                    Some(pv) => (
                        SpecSession { phase: SessionPhase::AwaitInitialized, ..sess },
                        SpecStep::SendInit(
                            SpecMessage::Response(
                                SpecResponse {
                                    id: r.id,
                                    result: spec_init_result(s, pv),
                                    extra: Seq::empty(),
                                },
                            ),
                        ),
                    ),
                    None => (sess, SpecStep::Fatal),
                }
            } else {
                (SpecSession { queued: sess.queued.push(m), ..sess }, SpecStep::Queued)
            }
        },
        SessionPhase::AwaitInitialized => {
            if m matches SpecMessage::Notification(n) && n.method == "notifications/initialized"@ {
                (
                    SpecSession { phase: SessionPhase::Running, queued: Seq::empty() },
                    SpecStep::Replay(sess.queued),
                )
            } else {
                (SpecSession { queued: sess.queued.push(m), ..sess }, SpecStep::Queued)
            }
        },
        SessionPhase::Running => (sess, SpecStep::Dispatch(m)),
    }
}

/// Handshake queueing: every message the handshake does not itself
/// consume is queued in arrival order, and completing the handshake
/// replays exactly the queue, in that order, with nothing else queued.
pub proof fn lemma_handshake_queueing(s: SpecServer, sess: SpecSession, m: SpecMessage)
    ensures
        ({
            let (sess2, step) = spec_session_step(s, sess, m);
            &&& step is Queued ==> sess2.queued == sess.queued.push(m) && sess2.queued.len()
                == sess.queued.len() + 1
            &&& step is Replay ==> step->Replay_0 == sess.queued && sess2.queued.len() == 0
                && sess2.phase == SessionPhase::Running
            &&& step is Dispatch ==> sess.phase == SessionPhase::Running && step->Dispatch_0 == m
                && sess2 == sess
        }),
{
}

/// Drive the session with one inbound message.
pub fn session_on_message(server: &MCPServer, session: &mut Session, msg: JSONRPCMessage) -> (step:
    SessionStep)
    ensures
        (final(session)@, step@) == spec_session_step(server@, old(session)@, msg@),
{
    match session.phase {
        SessionPhase::Running => SessionStep::Dispatch(msg),
        SessionPhase::Initializing => {
            let is_init = match &msg {
                JSONRPCMessage::JSONRPCRequest(r) => r.method == String::from_str("initialize"),
                _ => false,
            };
            if is_init {
                match &msg {
                    JSONRPCMessage::JSONRPCRequest(r) => {
                        match init_version(r) {
                            Some(pv) => {
                                let result = init_result_entries(server, pv);
                                let ghost res = view_json_entries(result@);
                                let reply = JSONRPCMessage::JSONRPCResponse(
                                    JSONRPCResponse {
                                        id: r.id.duplicate(),
                                        result,
                                        extra: Vec::new(),
                                    },
                                );
                                session.phase = SessionPhase::AwaitInitialized;
                                proof {
                                    assert(view_json_entries(Seq::<
                                        (String, JsonValue),
                                    >::empty()) == Seq::<(Seq<char>, SpecJson)>::empty());
                                    assert(reply@ =~~= SpecMessage::Response(
                                        SpecResponse {
                                            id: r.id@,
                                            result: res,
                                            extra: Seq::empty(),
                                        },
                                    ));
                                }
                                SessionStep::SendInit(reply)
                            },
                            None => SessionStep::Fatal(
                                String::from_str("failed to parse protocol version"),
                            ),
                        }
                    },
                    _ => vstd::pervasive::unreached(),
                }
            } else {
                let ghost pre = view_messages(session.queued@);
                proof {
                    lemma_view_messages_push(session.queued@, msg);
                }
                session.queued.push(msg);
                SessionStep::Queued
            }
        },
        SessionPhase::AwaitInitialized => {
            let is_initialized = match &msg {
                JSONRPCMessage::JSONRPCNotification(n) => n.method == String::from_str(
                    "notifications/initialized",
                ),
                _ => false,
            };
            if is_initialized {
                let mut drained: Vec<JSONRPCMessage> = Vec::new();
                core::mem::swap(&mut drained, &mut session.queued);
                session.phase = SessionPhase::Running;
                proof {
                    assert(view_messages(session.queued@) =~= Seq::<SpecMessage>::empty());
                }
                SessionStep::Replay(drained)
            } else {
                proof {
                    lemma_view_messages_push(session.queued@, msg);
                }
                session.queued.push(msg);
                SessionStep::Queued
            }
        },
    }
}

/// The protocol version an `initialize` request names.
fn init_version(r: &crate::mcp::JSONRPCRequest) -> (pv: Option<ProtocolVersion>)
    ensures
        pv == spec_init_version(r@),
{
    proof {
        reveal_strlit("protocolVersion");
    }
    match &r.params {
        Some(p) => match obj_get(p, "protocolVersion") {
            Some(JsonValue::Str(v)) => ProtocolVersion::parse(v.as_str()),
            _ => None,
        },
        None => None,
    }
}

/// Push one entry under a literal key.
fn push_pair(e: &mut Vec<(String, JsonValue)>, key: &str, v: JsonValue)
    ensures
        view_json_entries(final(e)@) == view_json_entries(old(e)@).push((key@, v@)),
{
    let ghost vv = v@;
    let k = String::from_str(key);
    proof {
        crate::json::lemma_view_json_entries_push(e@, k, v);
    }
    e.push((k, v));
}

/// The `initialize` result entries.
fn init_result_entries(server: &MCPServer, pv: ProtocolVersion) -> (r: Vec<(String, JsonValue)>)
    ensures
        view_json_entries(r@) == spec_init_result(server@, pv),
{
    let mut prompts: Vec<(String, JsonValue)> = Vec::new();
    proof {
        assert(view_json_entries(prompts@) =~= Seq::<(Seq<char>, SpecJson)>::empty());
    }
    push_pair(&mut prompts, "listChanged", JsonValue::Bool(true));
    proof {
        assert(view_json_entries(prompts@) =~= seq![("listChanged"@, SpecJson::Bool(true))]);
    }
    let mut resources: Vec<(String, JsonValue)> = Vec::new();
    proof {
        assert(view_json_entries(resources@) =~= Seq::<(Seq<char>, SpecJson)>::empty());
    }
    push_pair(&mut resources, "listChanged", JsonValue::Bool(true));
    push_pair(&mut resources, "subscribe", JsonValue::Bool(false));
    proof {
        assert(view_json_entries(resources@) =~= seq![
            ("listChanged"@, SpecJson::Bool(true)),
            ("subscribe"@, SpecJson::Bool(false)),
        ]);
    }
    let mut tools_cap: Vec<(String, JsonValue)> = Vec::new();
    proof {
        assert(view_json_entries(tools_cap@) =~= Seq::<(Seq<char>, SpecJson)>::empty());
    }
    push_pair(&mut tools_cap, "listChanged", JsonValue::Bool(true));
    proof {
        assert(view_json_entries(tools_cap@) =~= seq![("listChanged"@, SpecJson::Bool(true))]);
    }
    let mut caps: Vec<(String, JsonValue)> = Vec::new();
    proof {
        assert(view_json_entries(caps@) =~= Seq::<(Seq<char>, SpecJson)>::empty());
    }
    push_pair(&mut caps, "prompts", JsonValue::Obj(prompts));
    push_pair(&mut caps, "resources", JsonValue::Obj(resources));
    push_pair(&mut caps, "tools", JsonValue::Obj(tools_cap));
    proof {
        assert(view_json_entries(caps@) =~~= spec_init_result(server@, pv)[0].1->Obj_0);
    }
    let mut info: Vec<(String, JsonValue)> = Vec::new();
    proof {
        assert(view_json_entries(info@) =~= Seq::<(Seq<char>, SpecJson)>::empty());
    }
    push_pair(&mut info, "name", JsonValue::Str(server.name.clone()));
    push_pair(&mut info, "version", JsonValue::Str(server.version.clone()));
    proof {
        assert(view_json_entries(info@) =~= seq![
            ("name"@, SpecJson::Str(server@.name)),
            ("version"@, SpecJson::Str(server@.version)),
        ]);
    }
    let mut out: Vec<(String, JsonValue)> = Vec::new();
    proof {
        assert(view_json_entries(out@) =~= Seq::<(Seq<char>, SpecJson)>::empty());
    }
    push_pair(&mut out, "capabilities", JsonValue::Obj(caps));
    match &server.instructions {
        Some(ins) => {
            push_pair(&mut out, "instructions", JsonValue::Str(ins.clone()));
        },
        None => {},
    }
    push_pair(&mut out, "protocolVersion", JsonValue::Str(pv.to_version_string()));
    push_pair(&mut out, "serverInfo", JsonValue::Obj(info));
    proof {
        assert(view_json_entries(out@) =~~= spec_init_result(server@, pv));
    }
    out
}

} // verus!
