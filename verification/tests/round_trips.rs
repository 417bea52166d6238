use remote_shell::auth::{authenticate, AuthOutcome, Credentials};
use remote_shell::client::{login_accepted, login_request, on_line, LineAction};
use remote_shell::connection::{initial_state, on_message, ConnectionState, ServerAction};
use remote_shell::text::trim_bytes;

fn credentials(username: &str, password: &str) -> Credentials {
    Credentials { username: username.as_bytes().to_vec(), password: password.as_bytes().to_vec() }
}

#[test]
fn the_client_login_is_accepted_by_the_server() {
    let expected = credentials("alice", "s3cret!");
    let message = login_request(&expected);
    let (state, action) = on_message(initial_state(), &message, &expected);
    assert_eq!(state, ConnectionState::Serving);
    match action {
        ServerAction::Accept { token } => assert!(login_accepted(&token)),
        other => panic!("unexpected action {:?}", other),
    }
}

#[test]
fn the_client_reads_a_refusal_as_such() {
    let expected = credentials("alice", "s3cret!");
    let message = login_request(&credentials("alice", "guess"));
    let (state, action) = on_message(initial_state(), &message, &expected);
    assert_eq!(state, ConnectionState::Closed);
    match action {
        ServerAction::Refuse { token } => assert!(!login_accepted(&token)),
        other => panic!("unexpected action {:?}", other),
    }
}

#[test]
fn padding_does_not_change_the_outcome() {
    let expected = credentials("alice", "secret");
    for message in [&b"alice secret"[..], b"alice secre", b"alice", b"", b"bob secret", b"alice secret\0"] {
        for padding in 0..=(24 - message.len()) {
            let mut padded = message.to_vec();
            padded.extend(std::iter::repeat(0u8).take(padding));
            assert_eq!(authenticate(&padded, &expected), authenticate(message, &expected));
        }
    }
}

#[test]
fn a_matching_pair_that_cannot_be_carried_is_refused() {
    // a space in the name moves the split
    let spaced = credentials("a b", "c");
    assert_eq!(authenticate(&login_request(&spaced), &spaced), AuthOutcome::Failed);
    // a password that ends in a zero byte loses it
    let zero = credentials("alice", "pw\0");
    assert_eq!(authenticate(&login_request(&zero), &zero), AuthOutcome::Failed);
    // a name that ends in white space loses it
    let tab = credentials("alice\t", "pw");
    assert_eq!(authenticate(&login_request(&tab), &tab), AuthOutcome::Failed);
}

#[test]
fn a_typed_line_is_run_as_the_pipeline_it_stands_for() {
    let expected = credentials("alice", "secret");
    let request = match on_line(b"  cat notes.txt | grep -i todo | wc -l \n") {
        LineAction::Send { request } => request,
        other => panic!("unexpected action {:?}", other),
    };
    let (state, action) = on_message(ConnectionState::Serving, &request, &expected);
    assert_eq!(state, ConnectionState::Serving);
    match action {
        ServerAction::Execute { pipeline } => {
            let programs: Vec<&[u8]> = pipeline.iter().map(|s| s.program.as_slice()).collect();
            assert_eq!(programs, vec![&b"cat"[..], b"grep", b"wc"]);
            assert_eq!(pipeline[1].args, vec![b"-i".to_vec(), b"todo".to_vec()]);
        }
        other => panic!("unexpected action {:?}", other),
    }
}

#[test]
fn trimming_twice_is_trimming_once() {
    for text in [&b"  a b  "[..], b"", b" ", b"\t\nx", b"x\r\n", "\u{a0}y\u{3000}".as_bytes()] {
        let once = trim_bytes(text);
        assert_eq!(trim_bytes(once), once);
    }
}

#[test]
fn a_connection_never_goes_back() {
    let expected = credentials("alice", "secret");
    let rank = |s: ConnectionState| match s {
        ConnectionState::AwaitingLogin => 0,
        ConnectionState::Serving => 1,
        ConnectionState::Closed => 2,
    };
    let scripts: [&[&[u8]]; 4] = [
        &[b"alice secret", b"ls", b"alice secret", b"", b"ls"],
        &[b"alice nope", b"alice secret", b"ls"],
        &[b"", b"alice secret"],
        &[b"alice secret", b"a | b", b" ", b"x"],
    ];
    for script in scripts {
        let mut state = initial_state();
        for message in script {
            let (next, action) = on_message(state, message, &expected);
            assert!(rank(next) >= rank(state));
            assert_ne!(next, ConnectionState::AwaitingLogin);
            if matches!(action, ServerAction::Execute { .. }) {
                assert_eq!(state, ConnectionState::Serving);
            }
            state = next;
        }
    }
}
