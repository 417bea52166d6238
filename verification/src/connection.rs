//! The server's side of one connection.
//!
//! A connection awaits its login, then serves requests, then is closed. It
//! is judged once: a login that is refused closes it, and a connection that
//! serves never awaits a login again. Each message that was read is one step.

use vstd::prelude::*;
use vstd::slice::slice_subrange;
use crate::auth::{
    authenticate, authenticated_token, carried_unchanged, lemma_login_decides, login_outcome,
    login_text, login_token, token_of, zeros, AuthOutcome, Credentials, CredentialsModel,
    LOGIN_CAPACITY,
};
use crate::client::{asks_to_quit, line_action_of, LineActionModel};
use crate::pipeline::{parse_pipeline, pipeline_of, stages, PipelineStage, StageModel};
use crate::text::{lemma_trim_idempotent, starts_with, trim, trim_bytes};

verus! {

/// The most bytes that one request or one answer is read with.
pub const MESSAGE_CAPACITY: usize = 1024;

/// Where a connection stands.
#[derive(Clone, Copy, Debug, PartialEq, Eq, Structural)]
pub enum ConnectionState {
    /// Nothing was read yet: the next message is the login.
    AwaitingLogin,
    /// The login was accepted: each message is a request.
    Serving,
    /// Nothing more is read.
    Closed,
}

/// What the server does after a message, as plain values.
pub enum ServerActionModel {
    Accept { token: Seq<u8> },
    Refuse { token: Seq<u8> },
    Execute { pipeline: Seq<StageModel> },
    Close,
}

/// What the server does after a message.
#[derive(Debug)]
pub enum ServerAction {
    /// Write `token` and read the first request.
    Accept { token: Vec<u8> },
    /// Write `token` and drop the connection.
    Refuse { token: Vec<u8> },
    /// Run `pipeline`, write its answer, and read the next request.
    Execute { pipeline: Vec<PipelineStage> },
    /// Drop the connection without writing.
    Close,
}

impl View for ServerAction {
    type V = ServerActionModel;

    open spec fn view(&self) -> ServerActionModel {
        match *self {
            ServerAction::Accept { token } => ServerActionModel::Accept { token: token@ },
            ServerAction::Refuse { token } => ServerActionModel::Refuse { token: token@ },
            ServerAction::Execute { pipeline } => ServerActionModel::Execute {
                pipeline: stages(pipeline@),
            },
            ServerAction::Close => ServerActionModel::Close,
        }
    }
}

/// The part of a message that is read as a request: its first 1024 bytes.
pub open spec fn request_frame(message: Seq<u8>) -> Seq<u8> {
    if message.len() > 1024 {
        message.subrange(0, 1024)
    } else {
        message
    }
}

/// The most bytes that are read in `state`.
pub open spec fn read_limit_of(state: ConnectionState) -> int {
    match state {
        ConnectionState::AwaitingLogin => 24,
        ConnectionState::Serving => 1024,
        ConnectionState::Closed => 0,
    }
}

/// The state after `message` was read in `state`. A login leads on to
/// `Serving` where it is accepted and to `Closed` where it is not; a request
/// of no bytes, which tells that the peer is gone, closes the connection, and
/// any other leaves it serving.
pub open spec fn next_state(
    state: ConnectionState,
    message: Seq<u8>,
    expected: CredentialsModel,
) -> ConnectionState {
    match state {
        ConnectionState::AwaitingLogin => match login_outcome(message, expected) {
            AuthOutcome::Authenticated => ConnectionState::Serving,
            AuthOutcome::Failed => ConnectionState::Closed,
        },
        ConnectionState::Serving => if message.len() == 0 {
            ConnectionState::Closed
        } else {
            ConnectionState::Serving
        },
        ConnectionState::Closed => ConnectionState::Closed,
    }
}

/// What the server does after `message` was read in `state`.
pub open spec fn action_of(
    state: ConnectionState,
    message: Seq<u8>,
    expected: CredentialsModel,
) -> ServerActionModel {
    match state {
        ConnectionState::AwaitingLogin => match login_outcome(message, expected) {
            AuthOutcome::Authenticated => ServerActionModel::Accept {
                token: token_of(AuthOutcome::Authenticated),
            },
            AuthOutcome::Failed => ServerActionModel::Refuse { token: token_of(AuthOutcome::Failed) },
        },
        ConnectionState::Serving => if message.len() == 0 {
            ServerActionModel::Close
        } else {
            ServerActionModel::Execute { pipeline: pipeline_of(trim(request_frame(message))) }
        },
        ConnectionState::Closed => ServerActionModel::Close,
    }
}

/// The state of a connection after the messages `messages` were read in turn,
/// from `state` on.
pub open spec fn state_after(
    state: ConnectionState,
    messages: Seq<Seq<u8>>,
    expected: CredentialsModel,
) -> ConnectionState
    decreases messages.len(),
{
    if messages.len() == 0 {
        state
    } else {
        state_after(next_state(state, messages[0], expected), messages.drop_first(), expected)
    }
}

/// How far a connection has come: 0 before its login, 1 while it serves, 2
/// once it is closed.
pub open spec fn progress(state: ConnectionState) -> int {
    match state {
        ConnectionState::AwaitingLogin => 0,
        ConnectionState::Serving => 1,
        ConnectionState::Closed => 2,
    }
}

/// A connection never goes back: whatever is read, it does not return to an
/// earlier state. So it is judged at most once, a closed connection stays
/// closed, and after the first message no login is awaited any more.
pub proof fn lemma_never_back(
    state: ConnectionState,
    messages: Seq<Seq<u8>>,
    expected: CredentialsModel,
)
    ensures
        progress(state_after(state, messages, expected)) >= progress(state),
        messages.len() >= 1 ==> state_after(state, messages, expected)
            != ConnectionState::AwaitingLogin,
    decreases messages.len(),
{
    if messages.len() > 0 {
        let next = next_state(state, messages[0], expected);
        lemma_never_back(next, messages.drop_first(), expected);
    }
}

/// Requests are run for an accepted client only: a pipeline is executed just
/// in the state `Serving`, which is reached just by a login that was accepted.
pub proof fn lemma_only_authenticated_execute(
    state: ConnectionState,
    message: Seq<u8>,
    expected: CredentialsModel,
)
    ensures
        action_of(state, message, expected) is Execute ==> state == ConnectionState::Serving,
        state == ConnectionState::AwaitingLogin && next_state(state, message, expected)
            == ConnectionState::Serving ==> login_outcome(message, expected)
            == AuthOutcome::Authenticated,
        state == ConnectionState::AwaitingLogin && login_outcome(message, expected)
            == AuthOutcome::Failed ==> next_state(state, message, expected)
            == ConnectionState::Closed,
{
}

/// After a login that was refused, nothing that the client sends is run.
pub proof fn lemma_refused_runs_nothing(
    login: Seq<u8>,
    later: Seq<Seq<u8>>,
    message: Seq<u8>,
    expected: CredentialsModel,
)
    requires
        login_outcome(login, expected) == AuthOutcome::Failed,
    ensures
        action_of(
            state_after(ConnectionState::AwaitingLogin, seq![login] + later, expected),
            message,
            expected,
        ) == ServerActionModel::Close,
{
    let all = seq![login] + later;
    assert(all[0] == login);
    assert(all.drop_first() =~= later);
    lemma_never_back(ConnectionState::Closed, later, expected);
}

/// The two sides agree on a login: the message that the client makes of the
/// expected credentials, where they can be carried unchanged, is accepted, the
/// connection serves from then on, and the client reads the token that it is
/// sent as acceptance.
pub proof fn lemma_login_round_trip(expected: CredentialsModel)
    requires
        carried_unchanged(expected.username, expected.password),
    ensures
        next_state(
            ConnectionState::AwaitingLogin,
            login_text(expected.username, expected.password),
            expected,
        ) == ConnectionState::Serving,
        action_of(
            ConnectionState::AwaitingLogin,
            login_text(expected.username, expected.password),
            expected,
        ) == (ServerActionModel::Accept { token: authenticated_token() }),
        starts_with(authenticated_token(), authenticated_token()),
{
    let message = login_text(expected.username, expected.password);
    lemma_login_decides(expected.username, expected.password, 0, expected);
    assert(message + zeros(0) =~= message);
    assert(authenticated_token().subrange(0, 13) =~= authenticated_token());
}

/// The two sides agree on a request: what the client sends for a typed line
/// that does not end the session, where it is not empty and fits into one
/// read, is run as the pipeline that the line, without the white space around
/// it, stands for.
pub proof fn lemma_request_round_trip(line: Seq<u8>, expected: CredentialsModel)
    requires
        !asks_to_quit(line),
        0 < trim(line).len() <= 1024,
    ensures
        line_action_of(line) == (LineActionModel::Send { request: trim(line) }),
        action_of(ConnectionState::Serving, trim(line), expected) == (ServerActionModel::Execute {
            pipeline: pipeline_of(trim(line)),
        }),
        next_state(ConnectionState::Serving, trim(line), expected) == ConnectionState::Serving,
{
    lemma_trim_idempotent(line);
}

/// The state of a connection that was just accepted.
pub fn initial_state() -> (state: ConnectionState)
    ensures
        state == ConnectionState::AwaitingLogin,
{
    ConnectionState::AwaitingLogin
}

/// The most bytes to read in `state`.
pub fn read_limit(state: ConnectionState) -> (limit: usize)
    ensures
        limit == read_limit_of(state),
{
    match state {
        ConnectionState::AwaitingLogin => LOGIN_CAPACITY,
        ConnectionState::Serving => MESSAGE_CAPACITY,
        ConnectionState::Closed => 0,
    }
}

/// Reads the bytes of a request as a pipeline: of its first 1024 bytes, what
/// stands between the white space on either side.
pub fn parse_request(message: &[u8]) -> (pipeline: Vec<PipelineStage>)
    ensures
        stages(pipeline@) == pipeline_of(trim(request_frame(message@))),
        pipeline@.len() >= 1,
{
    let n: usize = if message.len() > MESSAGE_CAPACITY {
        MESSAGE_CAPACITY
    } else {
        message.len()
    };
    let frame = slice_subrange(message, 0, n);
    proof {
        assert(frame@ =~= request_frame(message@));
    }
    parse_pipeline(trim_bytes(frame))
}

/// One step of a connection: the state and the action that follow from
/// reading `message` in `state`, with `expected` as the configured
/// credentials.
pub fn on_message(state: ConnectionState, message: &[u8], expected: &Credentials) -> (next: (
    ConnectionState,
    ServerAction,
))
    ensures
        next.0 == next_state(state, message@, expected@),
        next.1@ == action_of(state, message@, expected@),
{
    match state {
        ConnectionState::AwaitingLogin => {
            let outcome = authenticate(message, expected);
            let token = login_token(outcome);
            match outcome {
                AuthOutcome::Authenticated => (
                    ConnectionState::Serving,
                    ServerAction::Accept { token },
                ),
                AuthOutcome::Failed => (ConnectionState::Closed, ServerAction::Refuse { token }),
            }
        },
        ConnectionState::Serving => {
            if message.len() == 0 {
                (ConnectionState::Closed, ServerAction::Close)
            } else {
                let pipeline = parse_request(message);
                (ConnectionState::Serving, ServerAction::Execute { pipeline })
            }
        },
        ConnectionState::Closed => (ConnectionState::Closed, ServerAction::Close),
    }
}

} // verus!
