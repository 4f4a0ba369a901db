use cricket::croc::{
    binary_name, executable, run_limit, transfer_args, wait_seconds, Direction, Failure, OutputWatch,
    CONNECTION_MESSAGE, FILESYSTEM_MESSAGE, PROTOCOL_MESSAGE, TAIL_BYTES, UNKNOWN_MESSAGE,
};
use cricket::croc::{run_result, RunEnd, TIMED_OUT};
use cricket::version::{check_version, version_gate, CROC_TOO_OLD};

#[test]
fn commands_preserve_croc_connection_defaults_and_secret_privacy() {
    let cases = [
        (
            Direction::Send(vec!["a folder/file.txt".to_string(), "--literal.txt".to_string()]),
            vec![
                "--yes",
                "--disable-clipboard",
                "--ignore-stdin",
                "send",
                "--",
                "a folder/file.txt",
                "--literal.txt",
            ],
        ),
        (
            Direction::Receive("output folder".to_string()),
            vec!["--yes", "--disable-clipboard", "--ignore-stdin", "--out", "output folder"],
        ),
    ];
    for (direction, expected) in cases {
        let args = transfer_args(&direction);
        assert_eq!(args, expected);
        assert!(!args.iter().any(|a| a.contains("test-secret")));
    }
}

#[test]
fn split_output_is_classified_without_exposing_secrets() {
    let output: &[u8] = b"private-code: problem with decoding: decompress message";
    let mut watch = OutputWatch::new();
    for chunk in output.chunks(16) {
        watch.observe(chunk);
    }
    let failure = watch.failure;
    assert!(failure == Failure::Protocol);
    assert!(!failure.message().contains("private-code"));
}

#[test]
fn output_is_classified_by_category() {
    assert_eq!(Failure::inspect("Error: Permission Denied"), Failure::Filesystem);
    assert_eq!(Failure::inspect("could not find sender"), Failure::Connection);
    assert_eq!(Failure::inspect("dial tcp: i/o timed out"), Failure::Connection);
    assert_eq!(Failure::inspect("problem with decoding"), Failure::Protocol);
    assert_eq!(Failure::inspect("something else"), Failure::Unknown);
    assert_eq!(Failure::inspect("permission denied; connection reset"), Failure::Filesystem);
}

#[test]
fn every_failure_has_its_fixed_message() {
    assert_eq!(Failure::Protocol.message(), PROTOCOL_MESSAGE);
    assert_eq!(Failure::Connection.message(), CONNECTION_MESSAGE);
    assert_eq!(Failure::Filesystem.message(), FILESYSTEM_MESSAGE);
    assert_eq!(Failure::Unknown.message(), UNKNOWN_MESSAGE);
}

#[test]
fn protocol_failure_is_not_overwritten_by_later_output() {
    let mut watch = OutputWatch::new();
    watch.observe(b"decompress message\n");
    watch.observe(b"connection reset\n");
    assert_eq!(watch.failure, Failure::Protocol);
    assert_eq!(Failure::Protocol.note(Failure::Connection), Failure::Protocol);
    assert_eq!(Failure::Connection.note(Failure::Unknown), Failure::Connection);
    assert_eq!(Failure::Connection.note(Failure::Filesystem), Failure::Filesystem);
}

#[test]
fn progress_is_reported_and_tail_is_bounded() {
    let mut watch = OutputWatch::new();
    assert!(!watch.observe(b"sending"));
    assert!(watch.observe(b" 12% done"));
    let big = vec![b'x'; 5000];
    watch.observe(&big);
    assert_eq!(watch.tail.len(), TAIL_BYTES);
    assert!(watch.tail.iter().all(|b| *b == b'x'));
}

#[test]
fn invalid_utf8_output_is_still_classified() {
    let mut watch = OutputWatch::new();
    watch.observe(&[0xff, 0xfe, b' ']);
    watch.observe(b"no such host");
    assert_eq!(watch.failure, Failure::Connection);
}

#[test]
fn executable_prefers_bundled_then_development_then_path() {
    assert_eq!(executable(Some("/app/croc".to_string()), Some("/dev/croc".to_string()), false), "/app/croc");
    assert_eq!(executable(None, Some("/dev/croc".to_string()), false), "/dev/croc");
    assert_eq!(executable(None, None, false), "croc");
    assert_eq!(executable(None, None, true), "croc.exe");
    assert_eq!(binary_name(true), "croc.exe");
}

#[test]
fn wait_is_time_left_and_at_least_a_second() {
    assert_eq!(wait_seconds(1000, 400), 600);
    assert_eq!(wait_seconds(1000, 999), 1);
    assert_eq!(wait_seconds(1000, 2000), 1);
}

#[test]
fn versions_from_11_5_3_are_accepted() {
    assert_eq!(version_gate("croc v11.5.3".to_string()), Ok("croc v11.5.3".to_string()));
    assert_eq!(version_gate("croc version v10.4.2".to_string()), Err(CROC_TOO_OLD.to_string()));
    assert_eq!(version_gate("croc v11.5".to_string()), Err(CROC_TOO_OLD.to_string()));
    assert_eq!(version_gate("croc v11.5.3.1".to_string()), Ok("croc v11.5.3.1".to_string()));
    assert_eq!(version_gate("croc v12".to_string()), Ok("croc v12".to_string()));
    assert_eq!(version_gate("croc v11.6.0-beta".to_string()), Ok("croc v11.6.0-beta".to_string()));
    assert_eq!(version_gate("croc v11.5.x".to_string()), Err(CROC_TOO_OLD.to_string()));
    assert_eq!(version_gate("croc +11.+5.+3".to_string()), Ok("croc +11.+5.+3".to_string()));
    assert_eq!(version_gate("".to_string()), Err(CROC_TOO_OLD.to_string()));
    assert_eq!(version_gate("vvv99".to_string()), Ok("vvv99".to_string()));
    assert_eq!(version_gate("croc v99999999999.0.0".to_string()), Err(CROC_TOO_OLD.to_string()));
}

#[test]
fn version_output_is_decoded_and_trimmed() {
    assert_eq!(check_version(b"  croc v11.5.3\n"), Ok("croc v11.5.3".to_string()));
    assert_eq!(check_version(b"croc v9.6.17\n"), Err(CROC_TOO_OLD.to_string()));
    assert_eq!(check_version(b"\xffcroc v11.5.3"), Ok("\u{fffd}croc v11.5.3".to_string()));
}

#[test]
fn a_run_reports_only_fixed_texts() {
    assert_eq!(run_result(RunEnd::Succeeded), Ok(()));
    assert_eq!(run_result(RunEnd::TimedOut), Err(TIMED_OUT.to_string()));
    assert_eq!(run_result(RunEnd::Cancelled), Err(cricket::service::CANCELLED.to_string()));
    assert_eq!(
        run_result(RunEnd::Failed(Some(Failure::Connection), Some(Failure::Protocol))),
        Err(PROTOCOL_MESSAGE.to_string())
    );
    assert_eq!(run_result(RunEnd::Failed(None, None)), Err(UNKNOWN_MESSAGE.to_string()));
}

#[test]
fn progress_gives_a_run_one_more_day() {
    assert_eq!(run_limit(false, 1000, 400), 600);
    assert_eq!(run_limit(false, 1000, 2000), 1);
    assert_eq!(run_limit(true, 1000, 400), 24 * 60 * 60);
    assert_eq!(run_limit(true, 1000, 2000), 24 * 60 * 60);
}
