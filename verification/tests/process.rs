use gdkit::process::{
    classify_error, exit_text, is_stack_frame, last_lines, list_errors, CapturedOutput, Ending,
    Event, GodotProc, LineBuffer, LogLine, OneshotResult, OneshotRun, LINE_BYTE_CAP, LOG_BYTE_CAP,
    LOG_CAP,
};

/// Capture a whole stream, handed over in chunks of the given size.
fn capture(output: &[u8], size: usize) -> CapturedOutput {
    let mut captured = CapturedOutput::new();
    let mut line = LineBuffer::new();
    for chunk in output.chunks(size) {
        captured.take_chunk(&mut line, chunk);
    }
    captured.take_end(line);
    captured
}

fn texts(captured: &CapturedOutput) -> Vec<String> {
    captured.lines.iter().map(|l| l.text.clone()).collect()
}

fn line(text: &str, is_error: bool) -> LogLine {
    LogLine { text: text.to_string(), is_error }
}

#[test]
fn classifies_godot_error_lines() {
    assert!(classify_error("SCRIPT ERROR: Invalid call"));
    assert!(classify_error("ERROR: Condition failed"));
    assert!(classify_error("  ERROR: Indented engine error"));
    assert!(classify_error("  Parse Error: Unexpected token"));
    assert!(!classify_error("Godot Engine v4.7.1.stable"));
    assert!(
        !classify_error("an error occurred"),
        "lowercase prose is not a Godot error line"
    );
    assert!(classify_error("x SHADER ERROR y"));
    assert!(classify_error("USER ERROR: z"));
    assert!(!classify_error("an ERROR in the middle"));
}

#[test]
fn recognizes_stack_frames() {
    assert!(is_stack_frame("   at: _ready (res://main.gd:12)"));
    assert!(is_stack_frame("at: run (res://tests/run.gd:4)"));
    assert!(!is_stack_frame("SCRIPT ERROR: boom"));
    assert!(!is_stack_frame("nothing at: all"));
}

#[test]
fn capture_bounds_the_tail_without_forgetting_earlier_errors() {
    let output = format!("ERROR: first\n{}", "progress\n".repeat(LOG_CAP + 10));
    let captured = capture(output.as_bytes(), 8192);
    assert_eq!(captured.lines.len(), LOG_CAP);
    assert_eq!(captured.errors, 1);
    assert_eq!(captured.dropped, 11);
    assert!(captured.complete());
    assert!(captured.tail(3)[0].text.contains("1 total errors"));
}

#[test]
fn capture_bounds_bytes_and_continues_after_oversized_lines() {
    let output = format!("{}\nERROR: after long line\n", "x".repeat(LINE_BYTE_CAP * 2));
    let mut captured = capture(output.as_bytes(), 8192);
    assert_eq!(captured.truncated, 1);
    assert!(!captured.complete());
    assert_eq!(captured.errors, 1);
    assert!(captured.lines[0].text.len() < LINE_BYTE_CAP + 100);
    for _ in 0..100 {
        captured.push(LogLine { text: "x".repeat(LINE_BYTE_CAP), is_error: false });
    }
    assert!(captured.bytes <= LOG_BYTE_CAP);
    assert!(captured.lines.len() < LOG_CAP);
    assert_eq!(captured.errors, 1);
}

#[test]
fn oneshot_keeps_reading_after_non_utf8_output() {
    let captured = capture(b"before\n\xff\nERROR: after non-UTF-8 output\n", 8192);
    assert_eq!(texts(&captured)[1], "\u{fffd}");
    let res = OneshotResult::of(Some(0), false, &captured);
    assert_eq!(res.exit_code, Some(0));
    assert!(!res.ok(), "an encoding error must not hide a later engine error");
    assert!(res.error_lines().iter().any(|l| l.contains("after non-UTF-8")));
}

#[test]
fn oneshot_deadline_includes_inherited_output_pipes() {
    let mut run = OneshotRun::start(2);
    assert_eq!(run.step(Event::Exited(Some(0))), None);
    assert_eq!(run.step(Event::ReaderEnded), None);
    assert_eq!(run.step(Event::Deadline), Some(Ending::TimedOut));
    let res = run.result(&CapturedOutput::new()).ok().unwrap();
    assert!(res.timed_out, "open output pipes must respect the command deadline");
    assert_eq!(res.exit_code, Some(0), "the direct child already exited");
    assert!(!res.ok());
}

#[test]
fn oneshot_deadline_also_kills_a_running_child() {
    let mut run = OneshotRun::start(2);
    run.step(Event::Deadline);
    let res = run.result(&CapturedOutput::new()).ok().unwrap();
    assert!(res.timed_out);
    assert_eq!(res.exit_code, None);
    assert!(!res.ok());
}

#[test]
fn a_command_is_complete_once_it_has_ended_and_its_output_is_read() {
    let mut run = OneshotRun::start(2);
    assert_eq!(run.step(Event::ReaderEnded), None);
    assert_eq!(run.step(Event::Exited(Some(3))), None);
    assert_eq!(run.step(Event::ReaderEnded), Some(Ending::Complete));
    assert_eq!(run.step(Event::Deadline), Some(Ending::Complete));
    let res = run.result(&CapturedOutput::new()).ok().unwrap();
    assert_eq!((res.exit_code, res.timed_out), (Some(3), false));
    let mut silent = OneshotRun::start(0);
    assert_eq!(silent.step(Event::Exited(Some(0))), Some(Ending::Complete));
    assert!(silent.result(&CapturedOutput::new()).ok().unwrap().ok());
}

#[test]
fn a_command_that_cannot_be_watched_is_an_error() {
    let mut run = OneshotRun::start(1);
    assert_eq!(run.step(Event::WaitFailed), Some(Ending::WaitFailed));
    let e = run.result(&CapturedOutput::new()).err().unwrap();
    assert_eq!(e, "failed to wait for command");
    let mut run = OneshotRun::start(1);
    run.step(Event::Exited(Some(0)));
    assert_eq!(run.step(Event::ReaderFailed), Some(Ending::ReaderFailed));
    let e = run.result(&CapturedOutput::new()).err().unwrap();
    assert_eq!(e, "output capture task failed");
}

#[test]
fn a_reader_that_failed_counts_once_the_process_has_ended() {
    let mut run = OneshotRun::start(2);
    assert_eq!(run.step(Event::ReaderFailed), None);
    assert_eq!(run.step(Event::ReaderEnded), None);
    assert_eq!(run.step(Event::Exited(Some(0))), Some(Ending::ReaderFailed));
    let mut run = OneshotRun::start(2);
    assert_eq!(run.step(Event::ReaderFailed), None);
    assert_eq!(run.step(Event::Deadline), Some(Ending::TimedOut));
    let res = run.result(&CapturedOutput::new()).ok().unwrap();
    assert_eq!((res.exit_code, res.timed_out), (None, true));
}

#[test]
fn chunks_do_not_change_what_is_captured() {
    let output = "one\r\ntwo\n\nERROR: three\nlast".as_bytes();
    let whole = capture(output, output.len());
    assert_eq!(texts(&whole), ["one", "two", "", "ERROR: three", "last"]);
    for size in 1..output.len() {
        let parts = capture(output, size);
        assert_eq!(texts(&parts), texts(&whole));
        assert_eq!(parts.errors, 1);
        assert_eq!(parts.bytes, whole.bytes);
    }
}

#[test]
fn a_line_at_the_limit_is_kept_whole() {
    let full = "x".repeat(LINE_BYTE_CAP);
    let captured = capture(format!("{full}\n").as_bytes(), 1000);
    assert_eq!(captured.truncated, 0);
    assert_eq!(captured.lines[0].text, full);
    let captured = capture(format!("{full}y\n").as_bytes(), 1000);
    assert_eq!(captured.truncated, 1);
    assert_eq!(captured.lines[0].text, format!("{full} [line truncated]"));
}

#[test]
fn the_end_of_the_stream_closes_a_line_that_has_begun() {
    assert!(texts(&capture(b"", 1)).is_empty());
    assert_eq!(texts(&capture(b"a\n", 1)), ["a"]);
    assert_eq!(texts(&capture(b"a", 1)), ["a"]);
    assert_eq!(texts(&capture(b"\n", 1)), [""]);
    assert_eq!(texts(&capture(b"a\r\n\r", 1)), ["a", ""]);
    let mut buffer = LineBuffer::new();
    assert_eq!(buffer.feed(b"ab\ncd"), (3, true));
    assert_eq!(buffer.take_line(), ("ab".to_string(), false));
    assert_eq!(buffer.feed(b"cd"), (2, false));
    assert_eq!(buffer.finish(), Some(("cd".to_string(), false)));
    assert_eq!(LineBuffer::new().finish(), None);
}

#[test]
fn a_failed_read_is_noted_and_counted() {
    let mut captured = CapturedOutput::new();
    captured.push(line("fine", false));
    captured.fail("pipe closed");
    assert!(!captured.complete());
    assert_eq!(captured.errors, 1);
    let tail = captured.tail(1);
    assert_eq!(
        tail[0].text,
        "[capture: 0 earlier lines omitted, 0 oversized lines truncated, 1 total errors, output read failed]"
    );
    assert!(tail[0].is_error);
    assert_eq!(tail[1].text, "output capture failed: pipe closed");
    let res = OneshotResult::of(Some(0), false, &captured);
    assert!(!res.capture_complete);
    assert!(!res.ok());
}

#[test]
fn a_line_over_the_byte_limit_leaves_nothing() {
    let mut captured = CapturedOutput::new();
    captured.push(line("kept", false));
    captured.push(LogLine { text: "x".repeat(LOG_BYTE_CAP + 1), is_error: true });
    assert_eq!(captured.lines.len(), 0);
    assert_eq!(captured.bytes, 0);
    assert_eq!(captured.dropped, 2);
    assert_eq!(captured.errors, 1);
    captured.push(line("next", false));
    assert_eq!(texts(&captured), ["next"]);
}

#[test]
fn a_complete_tail_has_no_notice() {
    let captured = capture(b"a\nb\nc\n", 2);
    let tail: Vec<String> = captured.tail(2).into_iter().map(|l| l.text).collect();
    assert_eq!(tail, ["b", "c"]);
    assert_eq!(captured.tail(9).len(), 3);
}

#[test]
fn a_result_is_clean_only_when_everything_is() {
    let clean = || OneshotResult {
        exit_code: Some(0),
        timed_out: false,
        lines: vec![],
        error_count: 0,
        capture_complete: true,
    };
    assert!(clean().ok());
    assert!(!OneshotResult { exit_code: Some(1), ..clean() }.ok());
    assert!(!OneshotResult { exit_code: None, ..clean() }.ok());
    assert!(!OneshotResult { timed_out: true, ..clean() }.ok());
    assert!(!OneshotResult { error_count: 1, ..clean() }.ok());
    assert!(!OneshotResult { capture_complete: false, ..clean() }.ok());
}

#[test]
fn the_error_listing_is_capped() {
    assert_eq!(list_errors(&[]), "");
    let many: Vec<String> = (0..41).map(|i| format!("e{i}")).collect();
    let out = list_errors(&many);
    assert!(out.starts_with("errors (41):\n  e0\n"));
    assert!(out.ends_with("  e39\n"));
    let lines = [line("a", false), line("b", true)];
    assert_eq!(last_lines(&lines, 1), ["b"]);
    assert_eq!(last_lines(&lines, 5), ["a", "b"]);
}

#[test]
fn exit_codes_are_shown_as_options() {
    assert_eq!(exit_text(Some(-1073741510)), "Some(-1073741510)");
    assert_eq!(exit_text(None), "None");
}

#[test]
fn the_first_observed_exit_code_stays() {
    let mut p = GodotProc::spawn("godot.exe", &["--path".to_string()]);
    assert_eq!(p.argv, ["godot.exe", "--path"]);
    assert_eq!(p.poll_exit(None), None);
    assert_eq!(p.poll_exit(Some(None)), Some(-1));
    assert_eq!(p.poll_exit(Some(Some(3))), Some(-1));
    assert_eq!(p.poll_exit(None), Some(-1));
    let mut p = GodotProc::spawn("godot.exe", &[]);
    p.kill(Some(Some(1)));
    assert_eq!(p.exit_code, Some(1));
    let mut p = GodotProc::spawn("godot.exe", &[]);
    p.kill(None);
    assert_eq!(p.exit_code, None);
}
