//! The login: one message, judged once against the configured credentials.
//!
//! A login message is the user name, one space and the password. Only its
//! first 24 bytes count. Zero bytes behind the password, as a fixed buffer
//! leaves them, are not part of it.

use vstd::prelude::*;
use vstd::slice::slice_subrange;
use crate::text::{
    bytes_equal, space_width_before, trim_end, trim_end_bytes, trim_nul_end, trim_nul_end_len,
};

verus! {

/// The number of bytes of a login message that are read.
pub const LOGIN_CAPACITY: usize = 24;

/// A user name and a password, as plain values.
pub struct CredentialsModel {
    pub username: Seq<u8>,
    pub password: Seq<u8>,
}

/// A user name and a password, compared byte for byte.
#[derive(Debug)]
pub struct Credentials {
    pub username: Vec<u8>,
    pub password: Vec<u8>,
}

impl View for Credentials {
    type V = CredentialsModel;

    open spec fn view(&self) -> CredentialsModel {
        CredentialsModel { username: self.username@, password: self.password@ }
    }
}

/// How a login ended.
#[derive(Clone, Copy, Debug, PartialEq, Eq, Structural)]
pub enum AuthOutcome {
    Authenticated,
    Failed,
}

/// The bytes `Authenticated`: the answer to a login that was accepted.
pub open spec fn authenticated_token() -> Seq<u8> {
    seq![
        0x41u8, 0x75u8, 0x74u8, 0x68u8, 0x65u8, 0x6Eu8, 0x74u8, 0x69u8, 0x63u8, 0x61u8, 0x74u8,
        0x65u8, 0x64u8,
    ]
}

/// The bytes `Failed`: the answer to a login that was refused.
pub open spec fn failed_token() -> Seq<u8> {
    seq![0x46u8, 0x61u8, 0x69u8, 0x6Cu8, 0x65u8, 0x64u8]
}

/// The token that tells the client of `outcome`.
pub open spec fn token_of(outcome: AuthOutcome) -> Seq<u8> {
    match outcome {
        AuthOutcome::Authenticated => authenticated_token(),
        AuthOutcome::Failed => failed_token(),
    }
}

/// The part of a message that is read as a login: its first 24 bytes.
pub open spec fn login_frame(message: Seq<u8>) -> Seq<u8> {
    if message.len() > 24 {
        message.subrange(0, 24)
    } else {
        message
    }
}

/// The index of the first space of `s` at or after `from`; the length of `s`
/// where there is none.
pub open spec fn first_space(s: Seq<u8>, from: int) -> int
    decreases s.len() - from,
{
    if from < 0 || from >= s.len() {
        s.len() as int
    } else if s[from] == 0x20u8 {
        from
    } else {
        first_space(s, from + 1)
    }
}

/// The user name that a login frame gives: what stands before its first
/// space, without trailing white space.
pub open spec fn claimed_username(frame: Seq<u8>) -> Seq<u8> {
    trim_end(frame.subrange(0, first_space(frame, 0)))
}

/// The password that a login frame with a space gives: what stands behind
/// its first space, without trailing zero bytes.
pub open spec fn claimed_password(frame: Seq<u8>) -> Seq<u8> {
    trim_nul_end(frame.skip(first_space(frame, 0) + 1))
}

/// How the login `message` ends against `expected`: accepted where its frame
/// holds a space and both fields equal the expected ones, refused otherwise.
pub open spec fn login_outcome(message: Seq<u8>, expected: CredentialsModel) -> AuthOutcome {
    let frame = login_frame(message);
    if first_space(frame, 0) < frame.len() && claimed_username(frame) == expected.username
        && claimed_password(frame) == expected.password {
        AuthOutcome::Authenticated
    } else {
        AuthOutcome::Failed
    }
}

/// The login message for a user name and a password.
pub open spec fn login_text(username: Seq<u8>, password: Seq<u8>) -> Seq<u8> {
    username + seq![0x20u8] + password
}

/// `n` zero bytes.
pub open spec fn zeros(n: nat) -> Seq<u8> {
    Seq::new(n, |i: int| 0u8)
}

/// A user name and a password that a login message can carry unchanged: the
/// name holds no space and does not end in white space, the password does not
/// end in a zero byte, and the two fit into a frame with the space between
/// them.
pub open spec fn carried_unchanged(username: Seq<u8>, password: Seq<u8>) -> bool {
    &&& username.len() + 1 + password.len() <= 24
    &&& forall|i: int| 0 <= i < username.len() ==> username[i] != 0x20u8
    &&& space_width_before(username, username.len() as int) == 0
    &&& password.len() == 0 || password.last() != 0u8
}

/// The first space is not before `from`, and no space stands between `from`
/// and it.
pub proof fn lemma_first_space(s: Seq<u8>, from: int)
    requires
        0 <= from <= s.len(),
    ensures
        from <= first_space(s, from) <= s.len(),
        first_space(s, from) < s.len() ==> s[first_space(s, from)] == 0x20u8,
        forall|i: int| from <= i < first_space(s, from) ==> s[i] != 0x20u8,
    decreases s.len() - from,
{
    if from < s.len() && s[from] != 0x20u8 {
        lemma_first_space(s, from + 1);
    }
}

/// Zero bytes behind any string are trimmed away with its own.
pub proof fn lemma_trim_nul_absorbs(s: Seq<u8>, n: nat)
    ensures
        trim_nul_end(s + zeros(n)) == trim_nul_end(s),
    decreases n,
{
    if n == 0 {
        assert(s + zeros(0) =~= s);
    } else {
        let t = s + zeros(n);
        assert(t.last() == 0u8);
        assert(t.drop_last() =~= s + zeros((n - 1) as nat));
        lemma_trim_nul_absorbs(s, (n - 1) as nat);
    }
}

/// The first space of a string is found at the same index when zero bytes
/// follow the string; without a space in it, none is found in either.
pub proof fn lemma_first_space_padded(s: Seq<u8>, n: nat, from: int)
    requires
        0 <= from <= s.len(),
    ensures
        first_space(s, from) < s.len() ==> first_space(s + zeros(n), from) == first_space(s, from),
        first_space(s, from) >= s.len() ==> first_space(s + zeros(n), from) >= (s + zeros(n)).len(),
    decreases s.len() + n - from,
{
    let t = s + zeros(n);
    if from < s.len() {
        assert(t[from] == s[from]);
        if s[from] != 0x20u8 {
            lemma_first_space_padded(s, n, from + 1);
        }
    } else {
        lemma_first_space(t, from);
        let k = first_space(t, from);
        if k < t.len() {
            assert(t[k] == 0u8);
        }
    }
}

/// Zero bytes that fill a frame behind the message do not change the outcome:
/// a login may be judged on the bytes that were read or on the whole buffer
/// that they were read into.
pub proof fn lemma_padding_is_ignored(message: Seq<u8>, padding: nat, expected: CredentialsModel)
    requires
        message.len() + padding <= 24,
    ensures
        login_outcome(message + zeros(padding), expected) == login_outcome(message, expected),
{
    let padded = message + zeros(padding);
    assert(login_frame(padded) == padded);
    assert(login_frame(message) == message);
    lemma_first_space_padded(message, padding, 0);
    lemma_first_space(message, 0);
    let i = first_space(message, 0);
    if i < message.len() {
        assert(padded.subrange(0, i) =~= message.subrange(0, i));
        assert(padded.skip(i + 1) =~= message.skip(i + 1) + zeros(padding));
        lemma_trim_nul_absorbs(message.skip(i + 1), padding);
    }
}

/// A login succeeds exactly when the name and the password sent are the
/// expected ones: whenever they can be carried unchanged, with or without
/// zero bytes filling the rest of the frame, the outcome is `Authenticated`
/// if both match and `Failed` if either differs.
pub proof fn lemma_login_decides(
    username: Seq<u8>,
    password: Seq<u8>,
    padding: nat,
    expected: CredentialsModel,
)
    requires
        carried_unchanged(username, password),
        username.len() + 1 + password.len() + padding <= 24,
    ensures
        login_outcome(login_text(username, password) + zeros(padding), expected) == (if username
            == expected.username && password == expected.password {
            AuthOutcome::Authenticated
        } else {
            AuthOutcome::Failed
        }),
{
    let m = login_text(username, password) + zeros(padding);
    let n = username.len() as int;
    assert(login_frame(m) == m);
    lemma_first_space(m, 0);
    assert(m[n] == 0x20u8);
    assert forall|i: int| 0 <= i < n implies m[i] != 0x20u8 by {
        assert(m[i] == username[i]);
    }
    let k = first_space(m, 0);
    if k < n {
        assert(m[k] == 0x20u8);
    }
    if k > n {
        assert(m[n] != 0x20u8);
    }
    assert(k == n);
    assert(m.subrange(0, n) =~= username);
    crate::text::lemma_trim_end_fixed(username);
    assert(m.skip(n + 1) =~= password + zeros(padding));
    lemma_trim_nul_absorbs(password, padding);
}

/// The index of the first space of `s`, or its length where it holds none.
pub fn find_space(s: &[u8]) -> (i: usize)
    ensures
        i == first_space(s@, 0),
        i <= s@.len(),
{
    let mut i: usize = 0;
    while i < s.len() && s[i] != 0x20u8
        invariant
            i <= s@.len(),
            first_space(s@, 0) == first_space(s@, i as int),
        decreases s@.len() - i,
    {
        i += 1;
    }
    i
}

/// Judges a login message against the expected credentials.
pub fn authenticate(message: &[u8], expected: &Credentials) -> (outcome: AuthOutcome)
    ensures
        outcome == login_outcome(message@, expected@),
{
    let n: usize = if message.len() > LOGIN_CAPACITY {
        LOGIN_CAPACITY
    } else {
        message.len()
    };
    let frame = slice_subrange(message, 0, n);
    proof {
        assert(frame@ =~= login_frame(message@));
    }
    let i: usize = find_space(frame);
    if i >= frame.len() {
        return AuthOutcome::Failed;
    }
    let username = trim_end_bytes(slice_subrange(frame, 0, i));
    let rest = slice_subrange(frame, i + 1, frame.len());
    proof {
        assert(rest@ =~= frame@.skip(i + 1));
    }
    let p: usize = trim_nul_end_len(rest);
    let password = slice_subrange(rest, 0, p);
    if bytes_equal(username, expected.username.as_slice()) && bytes_equal(
        password,
        expected.password.as_slice(),
    ) {
        AuthOutcome::Authenticated
    } else {
        AuthOutcome::Failed
    }
}

/// The token that is written to the client after a login.
pub fn login_token(outcome: AuthOutcome) -> (token: Vec<u8>)
    ensures
        token@ == token_of(outcome),
{
    match outcome {
        AuthOutcome::Authenticated => {
            let token: Vec<u8> = vec![
                0x41u8, 0x75u8, 0x74u8, 0x68u8, 0x65u8, 0x6Eu8, 0x74u8, 0x69u8, 0x63u8, 0x61u8,
                0x74u8, 0x65u8, 0x64u8,
            ];
            proof {
                assert(token@ =~= authenticated_token());
            }
            token
        },
        AuthOutcome::Failed => {
            let token: Vec<u8> = vec![0x46u8, 0x61u8, 0x69u8, 0x6Cu8, 0x65u8, 0x64u8];
            proof {
                assert(token@ =~= failed_token());
            }
            token
        },
    }
}

} // verus!
