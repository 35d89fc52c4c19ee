//! Connection bring-up: authentication for inbound connections, the call handshake for outbound
//! sessions.
use vstd::prelude::*;
use vstd::string::StringSliceAdditionalSpecFns;
use crate::error::EslError;
use crate::headers::{HeaderMap, lookup};
use crate::lex::{append, bytes_of};
use crate::correlator::{
    CorrelatorView, DeliveryView, Ticket, spec_dispatch, headers_reply, event_name, channel_data,
    lemma_event_names_differ,
};
use crate::parser::{
    Code, CommandAndApiReplyBody, ReplyBodyView, ReplyView, EventView, content_type_name,
    command_reply_type,
};

verus! {

/// Which side opened the connection.
#[derive(Debug, Clone, Copy, PartialEq, Eq, Structural)]
pub enum EslConnectionType {
    /// This library connected to the switch.
    Inbound,
    /// The switch connected to this library for one call.
    Outbound,
}

/// Where the bring-up stands.
#[derive(Debug, Clone, Copy, PartialEq, Eq, Structural)]
pub enum Stage {
    /// The password was sent.
    Authenticating,
    /// `connect` was sent.
    Connecting,
    /// The event subscription was sent.
    Subscribing,
    /// `myevents` was sent.
    Scoping,
    Ready,
    Failed,
}

/// What the connection does next.
#[derive(Debug)]
pub enum Step {
    /// Send this command and hand its reply back.
    Send(Vec<u8>),
    /// The connection is ready for use.
    Ready,
    /// The bring-up failed.
    Fail(EslError),
}

pub enum StepView {
    Send(Seq<u8>),
    Ready,
    AuthFailed,
    Internal,
    Other,
}

impl View for Step {
    type V = StepView;

    open spec fn view(&self) -> StepView {
        match self {
            Step::Send(b) => StepView::Send(b@),
            Step::Ready => StepView::Ready,
            Step::Fail(EslError::AuthFailed) => StepView::AuthFailed,
            Step::Fail(EslError::InternalError(_)) => StepView::Internal,
            Step::Fail(_) => StepView::Other,
        }
    }
}

pub struct SessionView {
    pub role: EslConnectionType,
    pub stage: Stage,
    pub connected: bool,
    pub connection_info: Option<Seq<(Seq<u8>, Seq<u8>)>>,
    pub call_uuid: Option<Seq<u8>>,
}

pub open spec fn auth_frame(password: Seq<u8>) -> Seq<u8> {
    "auth ".spec_bytes() + password
}

/// The subscription every connection makes: background job results and application completions.
pub open spec fn subscription_frame() -> Seq<u8> {
    "event plain BACKGROUND_JOB CHANNEL_EXECUTE_COMPLETE".spec_bytes()
}

pub open spec fn connect_frame() -> Seq<u8> {
    "connect".spec_bytes()
}

pub open spec fn myevents_frame() -> Seq<u8> {
    "myevents".spec_bytes()
}

pub open spec fn channel_unique_id() -> Seq<u8> {
    "Channel-Unique-ID".spec_bytes()
}

/// The state and first command of a fresh connection.
pub open spec fn spec_start(role: EslConnectionType, password: Seq<u8>) -> (SessionView, StepView) {
    match role {
        EslConnectionType::Inbound => (
            SessionView {
                role,
                stage: Stage::Authenticating,
                connected: false,
                connection_info: None,
                call_uuid: None,
            },
            StepView::Send(auth_frame(password)),
        ),
        EslConnectionType::Outbound => (
            SessionView {
                role,
                stage: Stage::Connecting,
                connected: false,
                connection_info: None,
                call_uuid: None,
            },
            StepView::Send(connect_frame()),
        ),
    }
}

/// The bring-up rule: how the reply to the last command moves the connection on.
pub open spec fn spec_on_reply(s: SessionView, r: ReplyBodyView) -> (SessionView, StepView) {
    match s.stage {
        Stage::Authenticating => if !r.marked {
            (SessionView { stage: Stage::Failed, connected: false, ..s }, StepView::Internal)
        } else if r.code == Code::Success {
            (
                SessionView { stage: Stage::Subscribing, connected: true, ..s },
                StepView::Send(subscription_frame()),
            )
        } else {
            (SessionView { stage: Stage::Failed, connected: false, ..s }, StepView::AuthFailed)
        },
        Stage::Connecting => (
            SessionView { stage: Stage::Subscribing, connection_info: Some(r.headers), ..s },
            StepView::Send(subscription_frame()),
        ),
        Stage::Subscribing => match s.role {
            EslConnectionType::Inbound => (SessionView { stage: Stage::Ready, ..s }, StepView::Ready),
            EslConnectionType::Outbound => (
                SessionView { stage: Stage::Scoping, ..s },
                StepView::Send(myevents_frame()),
            ),
        },
        Stage::Scoping => {
            let id = match s.connection_info {
                Some(h) => lookup(h, channel_unique_id()),
                None => None,
            };
            match id {
                Some(v) => (
                    SessionView { stage: Stage::Ready, call_uuid: Some(v), ..s },
                    StepView::Ready,
                ),
                None => (SessionView { stage: Stage::Failed, ..s }, StepView::Internal),
            }
        },
        _ => (s, StepView::Internal),
    }
}

/// The bring-up of one connection.
#[derive(Debug)]
pub struct Session {
    role: EslConnectionType,
    stage: Stage,
    connected: bool,
    connection_info: Option<HeaderMap>,
    call_uuid: Option<Vec<u8>>,
}

impl View for Session {
    type V = SessionView;

    closed spec fn view(&self) -> SessionView {
        SessionView {
            role: self.role,
            stage: self.stage,
            connected: self.connected,
            connection_info: match self.connection_info {
                Some(h) => Some(h@),
                None => None,
            },
            call_uuid: match self.call_uuid {
                Some(c) => Some(c@),
                None => None,
            },
        }
    }
}

/// Builds `"auth " + password`.
pub fn auth_command(password: &str) -> (r: Vec<u8>)
    ensures
        r@ == auth_frame(password.spec_bytes()),
{
    let mut r: Vec<u8> = Vec::new();
    append(&mut r, "auth ".as_bytes());
    append(&mut r, password.as_bytes());
    r
}

impl Session {
    pub closed spec fn wf(&self) -> bool {
        match self.connection_info {
            Some(h) => h.wf(),
            None => true,
        }
    }

    /// Opens the bring-up: the first command to send.
    pub fn start(role: EslConnectionType, password: &str) -> (r: (Session, Step))
        ensures
            r.0.wf(),
            (r.0@, r.1@) == spec_start(role, password.spec_bytes()),
    {
        match role {
            EslConnectionType::Inbound => {
                let s = Session {
                    role,
                    stage: Stage::Authenticating,
                    connected: false,
                    connection_info: None,
                    call_uuid: None,
                };
                (s, Step::Send(auth_command(password)))
            },
            EslConnectionType::Outbound => {
                let s = Session {
                    role,
                    stage: Stage::Connecting,
                    connected: false,
                    connection_info: None,
                    call_uuid: None,
                };
                (s, Step::Send(bytes_of("connect")))
            },
        }
    }

    /// Takes the reply to the last command sent and says what comes next.
    pub fn on_reply(&mut self, reply: CommandAndApiReplyBody) -> (r: Step)
        requires
            old(self).wf(),
            reply.wf(),
        ensures
            final(self).wf(),
            (final(self)@, r@) == spec_on_reply(old(self)@, reply@),
    {
        match self.stage {
            Stage::Authenticating => {
                if !reply.marked {
                    self.connected = false;
                    self.stage = Stage::Failed;
                    Step::Fail(
                        EslError::InternalError("the password reply has no outcome marker".to_owned()),
                    )
                } else if reply.code == Code::Success {
                    self.connected = true;
                    self.stage = Stage::Subscribing;
                    Step::Send(
                        bytes_of("event plain BACKGROUND_JOB CHANNEL_EXECUTE_COMPLETE"),
                    )
                } else {
                    self.connected = false;
                    self.stage = Stage::Failed;
                    Step::Fail(EslError::AuthFailed)
                }
            },
            Stage::Connecting => {
                self.connection_info = Some(reply.headers);
                self.stage = Stage::Subscribing;
                Step::Send(bytes_of("event plain BACKGROUND_JOB CHANNEL_EXECUTE_COMPLETE"))
            },
            Stage::Subscribing => match self.role {
                EslConnectionType::Inbound => {
                    self.stage = Stage::Ready;
                    Step::Ready
                },
                EslConnectionType::Outbound => {
                    self.stage = Stage::Scoping;
                    Step::Send(bytes_of("myevents"))
                },
            },
            Stage::Scoping => {
                let id = match &self.connection_info {
                    Some(h) => match h.get("Channel-Unique-ID".as_bytes()) {
                        Some(v) => Some(v.clone()),
                        None => None,
                    },
                    None => None,
                };
                match id {
                    Some(v) => {
                        self.call_uuid = Some(v);
                        self.stage = Stage::Ready;
                        Step::Ready
                    },
                    None => {
                        self.stage = Stage::Failed;
                        Step::Fail(
                            EslError::InternalError("Channel-Unique-ID missing from the handshake".to_owned()),
                        )
                    },
                }
            },
            _ => Step::Fail(EslError::InternalError("no handshake in progress".to_owned())),
        }
    }

    /// Whether authentication succeeded.
    pub fn connected(&self) -> (r: bool)
        ensures
            r == self@.connected,
    {
        self.connected
    }

    pub fn stage(&self) -> (r: Stage)
        ensures
            r == self@.stage,
    {
        self.stage
    }

    /// The call identifier of an outbound session, once the handshake is done.
    pub fn call_uuid(&self) -> (r: Option<Vec<u8>>)
        ensures
            r matches Some(c) ==> self@.call_uuid == Some(c@),
            r is None ==> self@.call_uuid is None,
    {
        match &self.call_uuid {
            Some(c) => Some(c.clone()),
            None => None,
        }
    }

    /// The headers of the outbound handshake's `connect` reply.
    pub fn connection_info(&self) -> (r: Option<&HeaderMap>)
        ensures
            r matches Some(h) ==> self@.connection_info == Some(h@),
            r is None ==> self@.connection_info is None,
    {
        match &self.connection_info {
            Some(h) => Some(h),
            None => None,
        }
    }
}

} // verus!

verus! {

/// A `-ERR` reply to the password fails the connection with `AuthFailed`; the reply resolves the
/// one waiter that was pending, so none is left.
pub proof fn lemma_auth_failure(
    password: Seq<u8>,
    t: Ticket,
    jobs: Map<Seq<u8>, Ticket>,
    reply: ReplyBodyView,
)
    requires
        reply.code == Code::Failure,
        reply.marked,
    ensures
        ({
            let waiting = CorrelatorView { pending: seq![t], jobs };
            let (after, d) = spec_dispatch(waiting, ReplyView::CommandAndApiReply(reply));
            let (s, step) = spec_on_reply(spec_start(EslConnectionType::Inbound, password).0, reply);
            &&& d == DeliveryView::Reply(t, reply)
            &&& after.pending.len() == 0
            &&& step == StepView::AuthFailed
            &&& s.stage == Stage::Failed
            &&& !s.connected
        }),
{
    let waiting = CorrelatorView { pending: seq![t], jobs };
    assert(waiting.pending.drop_first() =~= Seq::<Ticket>::empty());
}

/// The outbound handshake: the `connect` reply arrives as a `CHANNEL_DATA` event wrapping a
/// `command/reply`; it resolves the waiting `connect`, and once the subscription and `myevents`
/// are answered the call identifier is the event's `Channel-Unique-ID`.
pub proof fn lemma_outbound_handshake(
    t: Ticket,
    jobs: Map<Seq<u8>, Ticket>,
    e: EventView,
    id: Seq<u8>,
    subscribed: ReplyBodyView,
    scoped: ReplyBodyView,
)
    requires
        lookup(e.headers, event_name()) == Some(channel_data()),
        lookup(e.headers, content_type_name()) == Some(command_reply_type()),
        lookup(e.headers, channel_unique_id()) == Some(id),
    ensures
        ({
            let waiting = CorrelatorView { pending: seq![t], jobs };
            let (after, d) = spec_dispatch(waiting, ReplyView::Event(e));
            let s0 = spec_start(EslConnectionType::Outbound, Seq::empty()).0;
            let (s1, step1) = spec_on_reply(s0, headers_reply(e.headers));
            let (s2, step2) = spec_on_reply(s1, subscribed);
            let (s3, step3) = spec_on_reply(s2, scoped);
            &&& d == DeliveryView::Reply(t, headers_reply(e.headers))
            &&& after.pending.len() == 0
            &&& step1 == StepView::Send(subscription_frame())
            &&& step2 == StepView::Send(myevents_frame())
            &&& step3 == StepView::Ready
            &&& s3.stage == Stage::Ready
            &&& s3.call_uuid == Some(id)
        }),
{
    lemma_event_names_differ();
    let waiting = CorrelatorView { pending: seq![t], jobs };
    assert(waiting.pending.drop_first() =~= Seq::<Ticket>::empty());
}

} // verus!
