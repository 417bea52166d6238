//! The client's side of a session: the login it sends, how it reads the
//! verdict, and what it does with each line that the user types.

use vstd::prelude::*;
use crate::auth::{authenticated_token, login_text, Credentials};
use crate::text::{copy_range, ends_with, has_prefix, has_suffix, starts_with, trim, trim_bytes};

verus! {

/// The status with which the client ends after the user's `quit`.
pub const EXIT_AFTER_QUIT: i32 = 0;

/// The status with which the client ends after a login that was refused.
pub const EXIT_AFTER_REFUSAL: i32 = 1;

/// The bytes `quit`. A line that ends with them ends the session; what stands
/// before them does not matter.
pub open spec fn quit_word() -> Seq<u8> {
    seq![0x71u8, 0x75u8, 0x69u8, 0x74u8]
}

/// A typed line ends the session: without the white space around it, it ends
/// with `quit`.
pub open spec fn asks_to_quit(line: Seq<u8>) -> bool {
    ends_with(trim(line), quit_word())
}

/// What the client does with a typed line, as plain values.
pub enum LineActionModel {
    Quit,
    Send { request: Seq<u8> },
}

/// What the client does with a typed line.
#[derive(Debug)]
pub enum LineAction {
    /// Shut the connection down in both directions and end with status 0.
    /// Nothing is sent.
    Quit,
    /// Send `request`, then read one answer.
    Send { request: Vec<u8> },
}

impl View for LineAction {
    type V = LineActionModel;

    open spec fn view(&self) -> LineActionModel {
        match *self {
            LineAction::Quit => LineActionModel::Quit,
            LineAction::Send { request } => LineActionModel::Send { request: request@ },
        }
    }
}

/// What follows from a typed line: the end of the session where the line
/// asks for it, else the line, without the white space around it, as the
/// request to send.
pub open spec fn line_action_of(line: Seq<u8>) -> LineActionModel {
    if asks_to_quit(line) {
        LineActionModel::Quit
    } else {
        LineActionModel::Send { request: trim(line) }
    }
}

/// An answer is shown to the user: it is longer than one byte. The answer for
/// "no output", one space, is not shown.
pub open spec fn is_shown(response: Seq<u8>) -> bool {
    response.len() > 1
}

/// A line that ends with `quit` is never sent: no request comes of it.
pub proof fn lemma_quit_is_not_sent(line: Seq<u8>)
    requires
        ends_with(trim(line), quit_word()),
    ensures
        line_action_of(line) == LineActionModel::Quit,
        !(line_action_of(line) is Send),
{
}

/// The answer for a command without output is not shown, and every other
/// answer for output is shown unless it is a single byte.
pub proof fn lemma_sentinel_is_hidden(output: Seq<u8>)
    ensures
        !is_shown(crate::executor::sentinel()),
        is_shown(crate::executor::output_text(output)) <==> crate::text::trim_end(output).len() > 1,
{
}

/// What the server answers to an accepted login is read as acceptance.
pub proof fn lemma_token_is_accepted()
    ensures
        starts_with(authenticated_token(), authenticated_token()),
        !starts_with(crate::auth::failed_token(), authenticated_token()),
{
    assert(authenticated_token().subrange(0, 13) =~= authenticated_token());
}

/// The login message for `credentials`: the user name, one space, the
/// password. Nothing is added to fill a frame.
pub fn login_request(credentials: &Credentials) -> (message: Vec<u8>)
    ensures
        message@ == login_text(credentials@.username, credentials@.password),
{
    let mut message: Vec<u8> = copy_range(
        credentials.username.as_slice(),
        0,
        credentials.username.len(),
    );
    proof {
        assert(message@ =~= credentials@.username);
    }
    message.push(0x20u8);
    let mut i: usize = 0;
    while i < credentials.password.len()
        invariant
            i <= credentials.password@.len(),
            message@ == credentials@.username + seq![0x20u8] + credentials@.password.subrange(
                0,
                i as int,
            ),
        decreases credentials.password@.len() - i,
    {
        message.push(credentials.password[i]);
        proof {
            assert(message@ =~= credentials@.username + seq![0x20u8]
                + credentials@.password.subrange(0, i + 1));
        }
        i += 1;
    }
    proof {
        assert(credentials@.password.subrange(0, i as int) =~= credentials@.password);
    }
    message
}

/// Tells whether the server's answer to the login accepts it: whether it
/// begins with the bytes `Authenticated`.
pub fn login_accepted(response: &[u8]) -> (accepted: bool)
    ensures
        accepted == starts_with(response@, authenticated_token()),
{
    let token: Vec<u8> = vec![
        0x41u8, 0x75u8, 0x74u8, 0x68u8, 0x65u8, 0x6Eu8, 0x74u8, 0x69u8, 0x63u8, 0x61u8, 0x74u8,
        0x65u8, 0x64u8,
    ];
    proof {
        assert(token@ =~= authenticated_token());
    }
    has_prefix(response, token.as_slice())
}

/// Tells whether a typed line ends the session.
pub fn is_quit(line: &[u8]) -> (quit: bool)
    ensures
        quit == asks_to_quit(line@),
{
    let word: Vec<u8> = vec![0x71u8, 0x75u8, 0x69u8, 0x74u8];
    proof {
        assert(word@ =~= quit_word());
    }
    has_suffix(trim_bytes(line), word.as_slice())
}

/// Decides what to do with a typed line.
pub fn on_line(line: &[u8]) -> (action: LineAction)
    ensures
        action@ == line_action_of(line@),
{
    if is_quit(line) {
        LineAction::Quit
    } else {
        let trimmed = trim_bytes(line);
        let request = copy_range(trimmed, 0, trimmed.len());
        proof {
            assert(request@ =~= trim(line@));
        }
        LineAction::Send { request }
    }
}

/// Tells whether an answer is shown to the user.
pub fn should_display(response: &[u8]) -> (shown: bool)
    ensures
        shown == is_shown(response@),
{
    response.len() > 1
}

} // verus!
