use remote_shell::auth::Credentials;
use remote_shell::client::{is_quit, on_line, should_display, LineAction, EXIT_AFTER_QUIT, EXIT_AFTER_REFUSAL};
use remote_shell::connection::{
    initial_state, on_message, parse_request, read_limit, ConnectionState, ServerAction,
    MESSAGE_CAPACITY,
};
use remote_shell::executor::{
    after_spawn, after_wait, error_response, first_step, output_response, StdinSource, Step,
};
use remote_shell::pipeline::parse_pipeline;

fn credentials() -> Credentials {
    Credentials { username: b"alice".to_vec(), password: b"secret".to_vec() }
}

/// Drives the steps of one pipeline with the given outcomes: the index of the
/// first stage that fails to start, if any, and what awaiting the last stage
/// gives. Returns the stages started, the stage awaited, and the answer.
fn drive(
    total: usize,
    failing: Option<usize>,
    waited: Result<Vec<u8>, Vec<u8>>,
) -> (Vec<(usize, StdinSource)>, Option<usize>, Vec<u8>) {
    let mut started = Vec::new();
    let mut awaited = None;
    let mut step = first_step();
    loop {
        match step {
            Step::Spawn { stage, stdin } => {
                started.push((stage, stdin));
                assert!(stage < total);
                let outcome = if failing == Some(stage) { Err(b"No such file or directory".to_vec()) } else { Ok(()) };
                step = after_spawn(total, stage, outcome);
            }
            Step::Wait { stage } => {
                awaited = Some(stage);
                step = Step::Reply { text: after_wait(waited.clone()) };
            }
            Step::Reply { text } => return (started, awaited, text),
        }
    }
}

#[test]
fn output_is_trimmed_at_its_end() {
    assert_eq!(output_response(b"HELLO\n".to_vec()), b"HELLO".to_vec());
    assert_eq!(output_response(b"a\nb\n\n  ".to_vec()), b"a\nb".to_vec());
    assert_eq!(output_response(b"  x".to_vec()), b"  x".to_vec());
    assert_eq!(output_response(b"x".to_vec()), b"x".to_vec());
}

#[test]
fn no_output_gives_the_single_space() {
    assert_eq!(output_response(Vec::new()), b" ".to_vec());
    assert_eq!(output_response(b"\n".to_vec()), b" ".to_vec());
    assert_eq!(output_response(b" \t\r\n".to_vec()), b" ".to_vec());
}

#[test]
fn output_that_is_no_text_is_kept() {
    assert_eq!(output_response(vec![0xFF, 0x00, 0xC3, b'\n']), vec![0xFF, 0x00, 0xC3]);
}

#[test]
fn error_text_wraps_the_description() {
    assert_eq!(
        error_response(b"No such file or directory (os error 2)"),
        b"Error while executing command (No such file or directory (os error 2))".to_vec()
    );
    assert_eq!(error_response(b""), b"Error while executing command ()".to_vec());
}

#[test]
fn the_first_stage_reads_what_the_server_reads() {
    match first_step() {
        Step::Spawn { stage, stdin } => {
            assert_eq!(stage, 0);
            assert_eq!(stdin, StdinSource::Inherited);
        }
        other => panic!("unexpected step {:?}", other),
    }
}

#[test]
fn a_single_stage_is_started_once_and_awaited() {
    let (started, awaited, text) = drive(1, None, Ok(b"hello\n".to_vec()));
    assert_eq!(started, vec![(0, StdinSource::Inherited)]);
    assert_eq!(awaited, Some(0));
    assert_eq!(text, b"hello".to_vec());
}

#[test]
fn echo_hello_through_tr_answers_upper_case() {
    let pipeline = parse_pipeline(b"echo hello | tr a-z A-Z");
    let (started, awaited, text) = drive(pipeline.len(), None, Ok(b"HELLO\n".to_vec()));
    assert_eq!(started, vec![(0, StdinSource::Inherited), (1, StdinSource::PreviousOutput)]);
    assert_eq!(awaited, Some(1));
    assert_eq!(text, b"HELLO".to_vec());
}

#[test]
fn a_command_without_output_answers_the_sentinel() {
    let pipeline = parse_pipeline(b"true");
    let (started, awaited, text) = drive(pipeline.len(), None, Ok(Vec::new()));
    assert_eq!(started.len(), 1);
    assert_eq!(awaited, Some(0));
    assert_eq!(text, b" ".to_vec());
}

#[test]
fn a_first_stage_that_does_not_start_aborts_the_pipeline() {
    let pipeline = parse_pipeline(b"no-such-program-here | wc -l");
    let (started, awaited, text) = drive(pipeline.len(), Some(0), Ok(b"0\n".to_vec()));
    assert_eq!(started, vec![(0, StdinSource::Inherited)]);
    assert_eq!(awaited, None);
    assert_eq!(text, b"Error while executing command (No such file or directory)".to_vec());
}

#[test]
fn a_later_stage_that_does_not_start_aborts_the_pipeline() {
    let (started, awaited, text) = drive(3, Some(1), Ok(b"x".to_vec()));
    assert_eq!(started, vec![(0, StdinSource::Inherited), (1, StdinSource::PreviousOutput)]);
    assert_eq!(awaited, None);
    assert!(text.starts_with(b"Error while executing command ("));
}

#[test]
fn a_failed_wait_answers_an_error_text() {
    let (started, awaited, text) = drive(2, None, Err(b"broken pipe".to_vec()));
    assert_eq!(started.len(), 2);
    assert_eq!(awaited, Some(1));
    assert_eq!(text, b"Error while executing command (broken pipe)".to_vec());
}

#[test]
fn three_stages_are_chained_in_order() {
    let (started, awaited, _) = drive(3, None, Ok(b"x".to_vec()));
    assert_eq!(
        started,
        vec![
            (0, StdinSource::Inherited),
            (1, StdinSource::PreviousOutput),
            (2, StdinSource::PreviousOutput)
        ]
    );
    assert_eq!(awaited, Some(2));
}

#[test]
fn a_connection_starts_by_awaiting_its_login() {
    assert_eq!(initial_state(), ConnectionState::AwaitingLogin);
    assert_eq!(read_limit(ConnectionState::AwaitingLogin), 24);
    assert_eq!(read_limit(ConnectionState::Serving), 1024);
    assert_eq!(read_limit(ConnectionState::Closed), 0);
    assert_eq!(MESSAGE_CAPACITY, 1024);
}

#[test]
fn an_accepted_login_leads_to_serving() {
    let (state, action) = on_message(initial_state(), b"alice secret", &credentials());
    assert_eq!(state, ConnectionState::Serving);
    match action {
        ServerAction::Accept { token } => assert_eq!(token, b"Authenticated".to_vec()),
        other => panic!("unexpected action {:?}", other),
    }
}

#[test]
fn a_refused_login_closes_the_connection() {
    let (state, action) = on_message(initial_state(), b"alice wrong", &credentials());
    assert_eq!(state, ConnectionState::Closed);
    match action {
        ServerAction::Refuse { token } => assert_eq!(token, b"Failed".to_vec()),
        other => panic!("unexpected action {:?}", other),
    }
    let (state, action) = on_message(state, b"ls", &credentials());
    assert_eq!(state, ConnectionState::Closed);
    assert!(matches!(action, ServerAction::Close));
}

#[test]
fn a_request_is_run_and_the_connection_keeps_serving() {
    let (state, action) = on_message(ConnectionState::Serving, b"  echo hello | tr a-z A-Z\n", &credentials());
    assert_eq!(state, ConnectionState::Serving);
    match action {
        ServerAction::Execute { pipeline } => {
            assert_eq!(pipeline.len(), 2);
            assert_eq!(pipeline[0].program, b"echo".to_vec());
            assert_eq!(pipeline[0].args, vec![b"hello".to_vec()]);
            assert_eq!(pipeline[1].program, b"tr".to_vec());
            assert_eq!(pipeline[1].args, vec![b"a-z".to_vec(), b"A-Z".to_vec()]);
        }
        other => panic!("unexpected action {:?}", other),
    }
}

#[test]
fn a_login_is_not_judged_twice() {
    let (state, action) = on_message(ConnectionState::Serving, b"alice secret", &credentials());
    assert_eq!(state, ConnectionState::Serving);
    match action {
        ServerAction::Execute { pipeline } => {
            assert_eq!(pipeline.len(), 1);
            assert_eq!(pipeline[0].program, b"alice".to_vec());
        }
        other => panic!("unexpected action {:?}", other),
    }
}

#[test]
fn an_empty_read_closes_the_connection() {
    let (state, action) = on_message(ConnectionState::Serving, b"", &credentials());
    assert_eq!(state, ConnectionState::Closed);
    assert!(matches!(action, ServerAction::Close));
    // the next connection starts afresh
    let (state, _) = on_message(initial_state(), b"alice secret", &credentials());
    assert_eq!(state, ConnectionState::Serving);
}

#[test]
fn a_request_of_white_space_is_one_empty_stage() {
    let (state, action) = on_message(ConnectionState::Serving, b" \n", &credentials());
    assert_eq!(state, ConnectionState::Serving);
    match action {
        ServerAction::Execute { pipeline } => {
            assert_eq!(pipeline.len(), 1);
            assert!(pipeline[0].program.is_empty());
        }
        other => panic!("unexpected action {:?}", other),
    }
}

#[test]
fn only_the_first_1024_bytes_of_a_request_count() {
    let mut message = vec![b'a'; 1024];
    message.extend_from_slice(b" | b");
    let pipeline = parse_request(&message);
    assert_eq!(pipeline.len(), 1);
    assert_eq!(pipeline[0].program.len(), 1024);
    let mut shorter = vec![b'a'; 1020];
    shorter.extend_from_slice(b" | b");
    let pipeline = parse_request(&shorter);
    assert_eq!(pipeline.len(), 2);
    assert_eq!(pipeline[1].program, b"b".to_vec());
}

#[test]
fn do_quit_ends_the_session_unsent() {
    assert!(is_quit(b"do_quit"));
    assert!(matches!(on_line(b"do_quit"), LineAction::Quit));
    assert!(matches!(on_line(b"do_quit\n"), LineAction::Quit));
}

#[test]
fn quit_is_matched_at_the_end_of_the_line() {
    assert!(is_quit(b"quit"));
    assert!(is_quit(b"  quit \r\n"));
    assert!(is_quit(b"requit"));
    assert!(is_quit(b"echo quit"));
    assert!(!is_quit(b"quit now"));
    assert!(!is_quit(b"qui"));
    assert!(!is_quit(b"QUIT"));
    assert!(!is_quit(b""));
}

#[test]
fn other_lines_are_sent_trimmed() {
    match on_line(b"  ls -l | wc -l \n") {
        LineAction::Send { request } => assert_eq!(request, b"ls -l | wc -l".to_vec()),
        other => panic!("unexpected action {:?}", other),
    }
    match on_line(b"\n") {
        LineAction::Send { request } => assert!(request.is_empty()),
        other => panic!("unexpected action {:?}", other),
    }
}

#[test]
fn the_sentinel_is_not_shown() {
    assert!(!should_display(b" "));
    assert!(!should_display(b""));
    assert!(!should_display(b"x"));
    assert!(should_display(b"ok"));
    assert!(should_display(b"HELLO"));
    assert!(!should_display(&output_response(Vec::new())));
}

#[test]
fn exit_statuses() {
    assert_eq!(EXIT_AFTER_QUIT, 0);
    assert_eq!(EXIT_AFTER_REFUSAL, 1);
}
