use handy::json::JsonMember;
use handy::pull::{
    pull_post_process_model, read_record, read_records, split_lines, Layer, LineOutcome, PullEvent, PullPhase, PullProgress,
    PullReport, PullSession, PullStream, PullVerdict, StreamEnd,
};

fn shown(list: &[PullProgress]) -> Vec<(String, u64, u64)> {
    list.iter().map(|p| (p.status.clone(), p.completed, p.total)).collect()
}

fn streaming() -> PullSession {
    let mut session = PullSession::new("http://localhost:11434".to_string());
    let report = pull_post_process_model(&mut session, PullEvent::Accepted);
    assert!(matches!(report.verdict, PullVerdict::GoOn));
    assert_eq!(session.phase, PullPhase::Streaming);
    session
}

fn chunk(session: &mut PullSession, bytes: &str) -> PullReport {
    pull_post_process_model(session, PullEvent::Chunk { bytes: bytes.as_bytes().to_vec() })
}

fn failure(report: PullReport) -> (String, bool) {
    match report.verdict {
        PullVerdict::Failed { failure } => (failure.error, failure.announced),
        other => panic!("{other:?}"),
    }
}

fn text(name: &str, value: &str) -> JsonMember {
    JsonMember { name: name.to_string(), text: Some(value.to_string()), number: None }
}

fn number(name: &str, value: u64) -> JsonMember {
    JsonMember { name: name.to_string(), text: None, number: Some(value) }
}

const RECORDS: &str = "{\"status\":\"pulling manifest\"}\n\
     {\"status\":\"pulling a\",\"digest\":\"sha256:a\",\"total\":100}\n\
     \n\
     not json\n\
     {\"status\":\"pulling a\",\"digest\":\"sha256:a\",\"total\":100,\"completed\":40}\n\
     {\"status\":\"pulling b\",\"digest\":\"sha256:b\",\"total\":50,\"completed\":10}\n\
     {\"status\":\"pulling a\",\"digest\":\"sha256:a\",\"total\":100,\"completed\":100}\n\
     {\"status\":\"success\"}\n";

fn expected() -> Vec<(String, u64, u64)> {
    [
        ("pulling manifest", 0, 0),
        ("pulling a", 0, 100),
        ("pulling a", 40, 100),
        ("pulling b", 50, 150),
        ("pulling a", 110, 150),
        ("success", 110, 150),
    ]
    .iter()
    .map(|(status, completed, total)| (status.to_string(), *completed, *total))
    .collect()
}

#[test]
fn progress_adds_up_over_the_layers() {
    let mut stream = PullStream::new();
    let batch = stream.feed(RECORDS.as_bytes());
    assert_eq!(shown(&batch.progress), expected());
    assert!(matches!(batch.end, StreamEnd::Open));
    assert!(stream.buffer.is_empty());
    assert_eq!(stream.layers.len(), 2);
}

#[test]
fn chunk_boundaries_do_not_matter() {
    for size in [1, 2, 3, 7, 64, 1000] {
        let mut stream = PullStream::new();
        let mut all = Vec::new();
        for piece in RECORDS.as_bytes().chunks(size) {
            let batch = stream.feed(piece);
            assert!(matches!(batch.end, StreamEnd::Open));
            all.extend(shown(&batch.progress));
        }
        assert_eq!(all, expected(), "chunks of {size}");
    }
}

#[test]
fn incomplete_lines_wait() {
    let mut stream = PullStream::new();
    let batch = stream.feed(b"{\"status\":\"a\"}");
    assert!(batch.progress.is_empty());
    assert_eq!(stream.buffer, b"{\"status\":\"a\"}");
    assert_eq!(shown(&stream.feed(b"\n{").progress), [("a".to_string(), 0, 0)]);
    assert_eq!(stream.buffer, b"{");
}

#[test]
fn odd_records_still_count_as_progress() {
    let mut stream = PullStream::new();
    let lines = b"[1]\n{\"status\":5}\n{\"digest\":\"d\",\"total\":-1}\n{\"error\":7}\n\xff\xfe\n";
    let batch = stream.feed(lines);
    assert_eq!(shown(&batch.progress), vec![(String::new(), 0, 0); 4]);
    assert!(stream.layers.is_empty());
}

#[test]
fn an_error_ends_the_stream() {
    let mut stream = PullStream::new();
    let batch = stream.feed(b"{\"status\":\"a\"}\n{\"error\":\"no such model\"}\n{\"status\":\"b\"}\n");
    assert_eq!(shown(&batch.progress), [("a".to_string(), 0, 0)]);
    assert!(matches!(batch.end, StreamEnd::Failed { error } if error == "no such model"));
}

#[test]
fn sums_that_do_not_fit_end_the_stream() {
    let mut stream = PullStream::new();
    let batch = stream.feed(
        b"{\"digest\":\"a\",\"total\":18446744073709551615}\n{\"digest\":\"b\",\"total\":1}\n",
    );
    assert_eq!(shown(&batch.progress), [(String::new(), 0, u64::MAX)]);
    assert!(matches!(batch.end, StreamEnd::TooLarge));
}

#[test]
fn records_are_read_by_their_members() {
    let mut layers: Vec<Layer> = Vec::new();
    assert!(matches!(read_record(&mut layers, &None), LineOutcome::Skipped));
    let record = Some(vec![text("status", "s"), text("digest", "d"), number("total", 9), number("completed", 4)]);
    match read_record(&mut layers, &record) {
        LineOutcome::Progressed { progress } => {
            assert_eq!((progress.status.as_str(), progress.completed, progress.total), ("s", 4, 9));
        }
        _ => panic!(),
    }
    let again = Some(vec![text("digest", "d"), number("total", 9)]);
    match read_record(&mut layers, &again) {
        LineOutcome::Progressed { progress } => {
            assert_eq!((progress.status.as_str(), progress.completed, progress.total), ("", 0, 9));
        }
        _ => panic!(),
    }
    assert_eq!(layers.len(), 1);
    let error = Some(vec![text("status", "s"), text("error", "e"), text("digest", "x"), number("total", 1)]);
    assert!(matches!(read_record(&mut layers, &error), LineOutcome::Failed { error } if error == "e"));
    assert_eq!(layers.len(), 1);
}

#[test]
fn a_pull_completes_with_its_stream() {
    let mut session = streaming();
    let report = chunk(&mut session, RECORDS);
    assert_eq!(shown(&report.progress), expected());
    assert!(matches!(report.verdict, PullVerdict::GoOn));
    let report = pull_post_process_model(&mut session, PullEvent::Ended);
    assert!(matches!(report.verdict, PullVerdict::Complete));
    assert_eq!(session.phase, PullPhase::Over);
    let report = chunk(&mut session, RECORDS);
    assert!(report.progress.is_empty());
    assert!(matches!(report.verdict, PullVerdict::GoOn));
}

#[test]
fn a_pull_that_is_not_reached_fails_quietly() {
    let mut session = PullSession::new("http://h".to_string());
    let report = pull_post_process_model(
        &mut session,
        PullEvent::Unreachable { detail: "refused".to_string() },
    );
    assert_eq!(failure(report), ("Failed to reach Ollama at http://h: refused".to_string(), false));
    assert_eq!(session.phase, PullPhase::Over);
}

#[test]
fn a_pull_that_is_refused_fails_with_the_status() {
    let mut session = PullSession::new("http://h".to_string());
    let report = pull_post_process_model(
        &mut session,
        PullEvent::Refused { status: "500 Internal Server Error".to_string(), body: "oops".to_string() },
    );
    assert_eq!(
        failure(report),
        ("Ollama returned 500 Internal Server Error: oops".to_string(), true)
    );
}

#[test]
fn a_pull_fails_when_its_stream_does() {
    let mut session = streaming();
    let report =
        pull_post_process_model(&mut session, PullEvent::Broken { detail: "reset".to_string() });
    assert_eq!(failure(report), ("Download stream error: reset".to_string(), true));

    let mut session = streaming();
    let report = chunk(&mut session, "{\"error\":\"disk full\"}\n");
    assert_eq!(failure(report), ("disk full".to_string(), true));
    assert_eq!(session.phase, PullPhase::Over);

    let mut session = streaming();
    chunk(&mut session, "{\"digest\":\"a\",\"total\":18446744073709551615}\n");
    let report = chunk(&mut session, "{\"digest\":\"b\",\"total\":1}\n");
    assert!(matches!(report.verdict, PullVerdict::TooLarge));
    assert_eq!(session.phase, PullPhase::Over);
}

#[test]
fn events_out_of_turn_change_nothing() {
    let mut session = PullSession::new("http://h".to_string());
    let report = chunk(&mut session, RECORDS);
    assert!(report.progress.is_empty());
    assert!(matches!(report.verdict, PullVerdict::GoOn));
    assert_eq!(session.phase, PullPhase::Requested);
}

#[test]
fn bytes_are_parted_at_newlines() {
    let (lines, rest) = split_lines(b"ab\n\ncd\r\ne");
    assert_eq!(lines, [b"ab".to_vec(), Vec::new(), b"cd\r".to_vec()]);
    assert_eq!(rest, b"e");
    let (lines, rest) = split_lines(b"");
    assert!(lines.is_empty() && rest.is_empty());
    let (lines, rest) = split_lines(b"x\n");
    assert_eq!(lines, [b"x".to_vec()]);
    assert!(rest.is_empty());
}

#[test]
fn records_are_read_until_one_ends_the_stream() {
    let mut layers: Vec<Layer> = Vec::new();
    let documents = vec![
        Some(vec![text("status", "a"), text("digest", "d"), number("total", 5), number("completed", 2)]),
        None,
        Some(vec![text("status", "b"), text("digest", "e"), number("total", 7)]),
        Some(vec![text("error", "stop")]),
        Some(vec![text("status", "c")]),
    ];
    let batch = read_records(&mut layers, &documents);
    assert_eq!(shown(&batch.progress), [("a".to_string(), 2, 5), ("b".to_string(), 2, 12)]);
    assert!(matches!(batch.end, StreamEnd::Failed { error } if error == "stop"));
    let batch = read_records(&mut layers, &Vec::new());
    assert!(batch.progress.is_empty());
    assert!(matches!(batch.end, StreamEnd::Open));
}

#[test]
fn lines_without_a_record_change_nothing() {
    let mut padded = String::from("\n");
    for line in RECORDS.lines() {
        padded.push_str(line);
        padded.push_str("\n\nnot json\n");
    }
    padded.push_str("{\"status\":\"unfinished\"}");
    let mut stream = PullStream::new();
    let batch = stream.feed(padded.as_bytes());
    assert_eq!(shown(&batch.progress), expected());
    assert!(matches!(batch.end, StreamEnd::Open));
}

#[test]
fn pulls_depend_on_the_bytes_alone() {
    let bytes = "{\"status\":\"a\"}\n{\"error\":\"stop\"}\n{\"status\":\"b\"}\n";
    for size in [1, 5, 20, 200] {
        let mut session = streaming();
        let mut all = Vec::new();
        let mut errors = Vec::new();
        for piece in bytes.as_bytes().chunks(size) {
            let report =
                pull_post_process_model(&mut session, PullEvent::Chunk { bytes: piece.to_vec() });
            all.extend(shown(&report.progress));
            if let PullVerdict::Failed { failure } = report.verdict {
                errors.push(failure.error);
            }
        }
        assert_eq!(all, [("a".to_string(), 0, 0)]);
        assert_eq!(errors, ["stop"]);
        assert_eq!(session.phase, PullPhase::Over);
    }
}
