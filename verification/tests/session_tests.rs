use wasm_plugins::plugin::{ParseError, ParseYield, ParsedMessage, ParserError, ParserOutput, ParserYield};
use wasm_plugins::session::{ParseCursor, ParseRun};

/// Drives a run over `data` with the parser answers in `answers`, each answer
/// given as (bytes consumed, message) or an error.
fn run_with(data: &[u8], answers: Vec<Result<(usize, Option<&str>), ParserError>>) -> ParseRun {
    let mut run = ParseRun::new(data);
    for answer in answers {
        if run.finished() {
            break;
        }
        let slice = &data[run.start()..];
        let outcome = answer.map(|(used, msg)| ParserOutput {
            remaining: slice.len() - used,
            value: msg.map(|m| ParserYield::Message(m.to_string())),
        });
        run.feed(slice, outcome);
    }
    run
}

#[test]
fn run_advances_by_consumed_bytes_and_stops_at_error() {
    let data = [0u8; 10];
    let run = run_with(
        &data,
        vec![Ok((3, Some("a"))), Ok((4, None)), Ok((3, Some("b"))), Err(ParserError::Eof)],
    );
    assert!(run.finished());
    assert_eq!(run.start(), 10);
    let results = run.into_results();
    assert_eq!(results.len(), 4);
    let consumed: Vec<u64> = results.iter().filter_map(|r| r.as_ref().ok().map(|x| x.consumed)).collect();
    assert_eq!(consumed, vec![3, 4, 3]);
    assert!(matches!(results[3], Err(ParseError::Eof)));
}

#[test]
fn run_with_immediate_error_has_one_result() {
    let data = [1u8, 2, 3];
    let run = run_with(&data, vec![Err(ParserError::Incomplete)]);
    assert!(run.finished());
    assert_eq!(run.start(), 0);
    let results = run.into_results();
    assert_eq!(results.len(), 1);
    assert!(matches!(results[0], Err(ParseError::Incomplete)));
}

#[test]
fn run_is_not_finished_while_parser_succeeds() {
    let data = [0u8; 4];
    let run = run_with(&data, vec![Ok((1, None)), Ok((2, None))]);
    assert!(!run.finished());
    assert_eq!(run.start(), 3);
}

#[test]
fn official_reports_first_error() {
    let data = [1u8, 2, 3];
    let run = run_with(&data, vec![Err(ParserError::Parse("broken".to_string()))]);
    match run.into_official() {
        Err(ParseError::Parse(m)) => assert_eq!(m, "broken"),
        _ => panic!("expected the first error"),
    }
}

#[test]
fn official_drops_the_stopping_error() {
    let data = [0u8; 6];
    let run = run_with(&data, vec![Ok((2, Some("x"))), Ok((4, Some("y"))), Err(ParserError::Eof)]);
    let items = run.into_official().unwrap();
    assert_eq!(items.len(), 2);
    assert_eq!(items[0].consumed, 2);
    assert_eq!(items[1].consumed, 4);
    assert!(matches!(&items[0].value, Some(ParseYield::Message(ParsedMessage::Line(m))) if m == "x"));
    assert!(matches!(&items[1].value, Some(ParseYield::Message(ParsedMessage::Line(m))) if m == "y"));
}

#[test]
fn cursor_reports_each_step() {
    let data = [0u8; 5];
    let mut cursor = ParseCursor::new(&data);
    assert_eq!(cursor.start(), 0);
    let slice = &data[cursor.start()..];
    let r = cursor.advance(slice, Ok(ParserOutput { remaining: 3, value: None }));
    assert_eq!(r.unwrap().consumed, 2);
    assert_eq!(cursor.start(), 2);
    assert!(!cursor.finished());
    let slice = &data[cursor.start()..];
    let r = cursor.advance(slice, Err(ParserError::Eof));
    assert!(matches!(r, Err(ParseError::Eof)));
    assert!(cursor.finished());
    assert_eq!(cursor.start(), 2);
}

#[test]
fn cursor_advance_line_gives_lines_lazily() {
    let data = [0u8; 6];
    let mut cursor = ParseCursor::new(&data);
    let slice = &data[cursor.start()..];
    let first = cursor.advance_line(
        slice,
        Ok(ParserOutput { remaining: 4, value: Some(ParserYield::Message("one".to_string())) }),
    );
    match first {
        Ok(ret) => {
            assert_eq!(ret.consumed, 2);
            assert!(matches!(ret.value, Some(ParseYield::Message(ParsedMessage::Line(m))) if m == "one"));
        }
        Err(_) => panic!("expected a line"),
    }
    assert_eq!(cursor.start(), 2);
    let slice = &data[cursor.start()..];
    let second = cursor.advance_line(slice, Err(ParserError::Incomplete));
    assert!(matches!(second, Err(ParseError::Incomplete)));
    assert!(cursor.finished());
}

#[test]
fn cursor_and_run_report_the_same_sequence() {
    let data = [0u8; 9];
    let answers = || {
        vec![
            Ok((2usize, Some("a"))),
            Ok((0usize, None)),
            Ok((5usize, Some("b"))),
            Err(ParserError::Parse("stop".to_string())),
        ]
    };
    let run = run_with(&data, answers());
    let collected = run.into_results();

    let mut cursor = ParseCursor::new(&data);
    let mut handed_out = Vec::new();
    for answer in answers() {
        let slice = &data[cursor.start()..];
        let outcome = answer.map(|(used, msg)| ParserOutput {
            remaining: slice.len() - used,
            value: msg.map(|m| ParserYield::Message(m.to_string())),
        });
        handed_out.push(cursor.advance(slice, outcome));
        if cursor.finished() {
            break;
        }
    }
    assert_eq!(format!("{:?}", handed_out), format!("{:?}", collected));
    assert_eq!(handed_out.len(), 4);
}
