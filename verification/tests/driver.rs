use streamdata::driver::{Action, Answer, Driver, StreamError};
use streamdata::reader::generic::{EofCondition, ZeroReadEof};
use streamdata::{DecodeError, Decoded, Decoder, State};

/// Frames end with `;`, and a frame that begins with `!` is invalid.
struct Frames;

impl Decoder for Frames {
    type Value = String;
    type Error = String;

    fn decode(&mut self, input: &[u8]) -> Result<Decoded<String>, DecodeError<String>> {
        match input.first() {
            None => Err(DecodeError::NeedMoreData),
            Some(b'!') => Err(DecodeError::Other("bang".to_string())),
            Some(_) => match input.iter().position(|byte| *byte == b';') {
                Some(at) => Ok(Decoded {
                    value: String::from_utf8_lossy(&input[..at]).into_owned(),
                    consumed_bytes: at + 1,
                }),
                None => Err(DecodeError::NeedMoreData),
            },
        }
    }
}

type Failure = StreamError<u32, String, Vec<u8>>;

/// What the consumer of a run sees.
#[derive(Debug, PartialEq, Eq)]
enum Seen {
    Value(String),
    Reading(u32),
    Decoding(String),
    Leftover(Vec<u8>),
}

fn seen(failure: Failure) -> Seen {
    match failure {
        StreamError::Reading(error) => Seen::Reading(error),
        StreamError::Decoding(error) => Seen::Decoding(error),
        StreamError::UndecodedDataLeftUponCompletion { data } => Seen::Leftover(data),
    }
}

/// Runs the driver over a source that gives these answers and then ends.
fn run(answers: Vec<Result<&[u8], u32>>) -> (Vec<Seen>, usize) {
    let mut source = answers.into_iter();
    let mut reads = 0;
    let mut items = Vec::new();
    let mut driver = Driver::new(State::new(Frames, Vec::new()));
    loop {
        let (next, action) = driver.poll::<u32>();
        driver = next;
        match action {
            Action::Yield(value) => items.push(Seen::Value(value)),
            Action::Fail(failure) => items.push(seen(failure)),
            Action::Finish => return (items, reads),
            Action::Read => {
                reads += 1;
                let answer = match source.next() {
                    None => Answer::End,
                    Some(Ok(chunk)) => Answer::Chunk(chunk),
                    Some(Err(error)) => Answer::Failure(error),
                };
                let (next, failure) = driver.handle(answer);
                driver = next;
                if let Some(failure) = failure {
                    items.push(seen(failure));
                }
            }
        }
    }
}

fn value(text: &str) -> Seen {
    Seen::Value(text.to_string())
}

#[test]
fn driver_starts_by_reading() {
    let driver = Driver::new(State::new(Frames, Vec::new()));
    assert!(matches!(driver, Driver::Reading(_)));
    let (driver, action) = driver.poll::<u32>();
    assert!(matches!(action, Action::Read));
    assert!(matches!(driver, Driver::Reading(_)));
}

#[test]
fn driver_yields_what_each_chunk_completes() {
    let (items, reads) = run(vec![Ok(b"a;b"), Ok(b"c;d;"), Ok(b""), Ok(b"e;")]);
    assert_eq!(items, vec![value("a"), value("bc"), value("d"), value("e")]);
    // One read for each chunk and one that finds the end.
    assert_eq!(reads, 5);
}

#[test]
fn driver_finishes_on_an_empty_source() {
    assert_eq!(run(vec![]), (vec![], 1));
}

#[test]
fn driver_reports_the_leftover_at_the_end() {
    let (items, _) = run(vec![Ok(b"a;b"), Ok(b"c")]);
    assert_eq!(items, vec![value("a"), Seen::Leftover(b"bc".to_vec())]);
}

#[test]
fn driver_stops_at_a_decoding_error() {
    let (items, reads) = run(vec![Ok(b"a;!b;c;"), Ok(b"d;")]);
    assert_eq!(items, vec![value("a"), Seen::Decoding("bang".to_string())]);
    assert_eq!(reads, 1);
}

#[test]
fn driver_stops_at_a_reading_error() {
    let (items, reads) = run(vec![Ok(b"a;b"), Err(7), Ok(b";")]);
    assert_eq!(items, vec![value("a"), Seen::Reading(7)]);
    assert_eq!(reads, 2);
}

#[test]
fn driver_goes_through_its_states() {
    let driver = Driver::new(State::new(Frames, Vec::new()));
    let (driver, failure) = driver.handle::<u32>(Answer::Chunk(b"a;"));
    assert!(failure.is_none());
    assert!(matches!(driver, Driver::Draining(_)));
    let (driver, action) = driver.poll::<u32>();
    assert!(matches!(action, Action::Yield(ref text) if text == "a"));
    assert!(matches!(driver, Driver::Draining(_)));
    let (driver, action) = driver.poll::<u32>();
    assert!(matches!(action, Action::Read));
    assert!(matches!(driver, Driver::Reading(_)));
    let (driver, failure) = driver.handle::<u32>(Answer::End);
    assert!(failure.is_none());
    assert!(matches!(driver, Driver::Finished));
    let (driver, action) = driver.poll::<u32>();
    assert!(matches!(action, Action::Finish));
    assert!(matches!(driver, Driver::Finished));
}

#[test]
fn driver_stays_failed() {
    let driver = Driver::new(State::new(Frames, Vec::new()));
    let (driver, failure) = driver.handle(Answer::Failure(3u32));
    assert!(matches!(failure, Some(StreamError::Reading(3))));
    assert!(matches!(driver, Driver::Failed));
    let (driver, failure) = driver.handle::<u32>(Answer::Chunk(b"a;"));
    assert!(failure.is_none());
    assert!(matches!(driver, Driver::Failed));
    let (driver, failure) = driver.handle::<u32>(Answer::End);
    assert!(failure.is_none());
    let (driver, action) = driver.poll::<u32>();
    assert!(matches!(action, Action::Finish));
    assert!(matches!(driver, Driver::Failed));
}

#[test]
fn driver_leaves_aside_an_answer_that_it_did_not_ask_for() {
    let driver = Driver::new(State::new(Frames, Vec::new()));
    let (driver, _) = driver.handle::<u32>(Answer::Chunk(b"a;b"));
    let (driver, failure) = driver.handle::<u32>(Answer::Chunk(b"zz"));
    assert!(failure.is_none());
    let (driver, failure) = driver.handle::<u32>(Answer::End);
    assert!(failure.is_none());
    let (driver, action) = driver.poll::<u32>();
    assert!(matches!(action, Action::Yield(ref text) if text == "a"));
    let (driver, action) = driver.poll::<u32>();
    assert!(matches!(action, Action::Read));
    let (_, failure) = driver.handle::<u32>(Answer::End);
    assert!(matches!(
        failure,
        Some(StreamError::UndecodedDataLeftUponCompletion { ref data }) if data == b"b"
    ));
}

#[test]
fn zero_read_is_the_end() {
    assert!(ZeroReadEof::is_eof(&Ok::<usize, u32>(0)));
    assert!(!ZeroReadEof::is_eof(&Ok::<usize, u32>(1)));
    assert!(!ZeroReadEof::is_eof(&Ok::<usize, u32>(usize::MAX)));
    assert!(!ZeroReadEof::is_eof(&Err::<usize, u32>(0)));
}
