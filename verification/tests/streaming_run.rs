use csv::{ReaderBuilder, StringRecord, Writer};
use csv_join::{join_rows, resolve_key, IndexBuilder, JoinError, JoinStats, Side, StreamJoiner};

/// What a run leaves behind: the text written so far, and how the run ended.
struct Outcome {
    written: String,
    end: Result<JoinStats, JoinError>,
}

/// Runs the join over CSV text as a caller with files would: headers first,
/// then the secondary rows into the index, then the primary rows through the
/// joiner, each merged row written as soon as it is given.
fn run(from: &str, join: &str, key: &str, flexible: bool) -> Outcome {
    let mut sink = Writer::from_writer(Vec::new());
    let end = stream(from, join, key, flexible, &mut sink);
    let written = String::from_utf8(sink.into_inner().unwrap()).unwrap();
    Outcome { written, end }
}

fn stream(
    from: &str,
    join: &str,
    key: &str,
    flexible: bool,
    sink: &mut Writer<Vec<u8>>,
) -> Result<JoinStats, JoinError> {
    let mut from_reader = ReaderBuilder::new()
        .flexible(flexible)
        .from_reader(from.as_bytes());
    let from_header: StringRecord = from_reader.headers().unwrap().clone();
    let from_position = resolve_key(Side::Primary, &from_header, key)?;

    let mut join_reader = ReaderBuilder::new()
        .flexible(flexible)
        .from_reader(join.as_bytes());
    let join_header: StringRecord = join_reader.headers().unwrap().clone();
    let join_position = resolve_key(Side::Secondary, &join_header, key)?;
    let header = join_rows(&from_header, &join_header, join_position);

    let mut builder = IndexBuilder::new(join_position);
    for read in join_reader.records() {
        match read {
            Ok(row) => {
                builder.add(&row);
            }
            Err(cause) => return Err(builder.read_failed(cause)),
        }
    }

    let mut joiner = StreamJoiner::new(builder, from_position);
    if let Err(cause) = sink.write_record(&header) {
        return Err(joiner.write_failed(cause));
    }
    for read in from_reader.records() {
        let row = match read {
            Ok(row) => row,
            Err(cause) => return Err(joiner.read_failed(cause)),
        };
        if let Some(merged) = joiner.join(&row) {
            if let Err(cause) = sink.write_record(&merged) {
                return Err(joiner.write_failed(cause));
            }
        }
    }
    if let Err(cause) = sink.flush() {
        return Err(joiner.write_failed(csv::Error::from(cause)));
    }
    Ok(joiner.finish())
}

#[test]
fn streamed_join_of_people_with_ages() {
    let outcome = run(
        "id,name\n1,Alice\n2,Bob\n3,Carol\n",
        "id,age\n1,30\n2,25\n",
        "id",
        false,
    );
    assert_eq!(outcome.written, "id,name,age\n1,Alice,30\n2,Bob,25\n");
    let stats = outcome.end.unwrap();
    assert_eq!(stats.primary_rows, 3);
    assert_eq!(stats.secondary_rows, 2);
    assert_eq!(stats.secondary_unkeyed, 0);
    assert_eq!(stats.matched, 2);
    assert_eq!(stats.unmatched, 1);
    assert_eq!(stats.primary_unkeyed, 0);
}

#[test]
fn streamed_join_uses_the_last_duplicate() {
    let outcome = run("id,name\n1,Alice\n", "id,age\n1,30\n1,31\n", "id", false);
    assert_eq!(outcome.written, "id,name,age\n1,Alice,31\n");
    assert_eq!(outcome.end.unwrap().matched, 1);
}

#[test]
fn streamed_join_fails_on_the_primary_header_before_anything_is_written() {
    let outcome = run("name,city\nAlice,Berlin\n", "ident,age\n1\n1,2,3\n", "id", false);
    assert_eq!(outcome.written, "");
    match outcome.end {
        Err(JoinError::KeyNotFound { side, key, header }) => {
            assert_eq!(side, Side::Primary);
            assert_eq!(key, "id");
            assert_eq!(header, StringRecord::from(vec!["name", "city"]));
        }
        other => panic!("unexpected end: {:?}", other),
    }
}

#[test]
fn streamed_join_fails_on_the_secondary_header_before_anything_is_written() {
    let outcome = run("id,name\n1,Alice\n", "ident,age\n1,30\n", "id", false);
    assert_eq!(outcome.written, "");
    match outcome.end {
        Err(JoinError::KeyNotFound { side, .. }) => assert_eq!(side, Side::Secondary),
        other => panic!("unexpected end: {:?}", other),
    }
}

#[test]
fn malformed_secondary_row_ends_the_run_before_the_header_is_written() {
    let outcome = run("id,name\n1,Alice\n", "id,age\n1,30\n2\n", "id", false);
    assert_eq!(outcome.written, "");
    match outcome.end {
        Err(JoinError::MalformedRow { side, cause }) => {
            assert_eq!(side, Side::Secondary);
            assert!(matches!(
                cause.kind(),
                csv::ErrorKind::UnequalLengths { .. }
            ));
        }
        other => panic!("unexpected end: {:?}", other),
    }
}

#[test]
fn malformed_primary_row_leaves_the_rows_written_before_it() {
    let outcome = run(
        "id,name\n1,Alice\n2\n3,Carol\n",
        "id,age\n1,30\n3,41\n",
        "id",
        false,
    );
    assert_eq!(outcome.written, "id,name,age\n1,Alice,30\n");
    match outcome.end {
        Err(JoinError::MalformedRow { side, .. }) => assert_eq!(side, Side::Primary),
        other => panic!("unexpected end: {:?}", other),
    }
}

#[test]
fn short_rows_of_a_lenient_reader_are_counted_not_reported() {
    let outcome = run(
        "name,id\nAlice,1\nBob\nCarol,3\n",
        "age,id\n30,1\n25\n41,4\n",
        "id",
        true,
    );
    assert_eq!(outcome.written, "name,id,age\nAlice,1,30\n");
    assert_eq!(
        outcome.end.unwrap(),
        JoinStats {
            primary_rows: 3,
            secondary_rows: 3,
            secondary_unkeyed: 1,
            matched: 1,
            unmatched: 1,
            primary_unkeyed: 1,
        }
    );
}

#[test]
fn streamed_join_without_a_match_writes_the_header_alone() {
    let outcome = run("id,name\n1,Alice\n", "id,age\n2,25\n", "id", false);
    assert_eq!(outcome.written, "id,name,age\n");
    let stats = outcome.end.unwrap();
    assert_eq!(stats.matched, 0);
    assert_eq!(stats.unmatched, 1);
}

#[test]
fn streamed_join_keeps_quoted_fields_whole() {
    let outcome = run(
        "id,name\n1,\"Smith, Alice\"\n",
        "note,id\n\"said \"\"hi\"\"\",1\n",
        "id",
        false,
    );
    assert_eq!(
        outcome.written,
        "id,name,note\n1,\"Smith, Alice\",\"said \"\"hi\"\"\"\n"
    );
    assert_eq!(outcome.end.unwrap().matched, 1);
}

#[test]
fn streamed_join_twice_writes_the_same_bytes() {
    let from = "id,name\n2,Bob\n1,Alice\n2,Bea\n9,Zed\n";
    let join = "id,age\n1,30\n2,25\n1,31\n";
    let first = run(from, join, "id", false);
    let second = run(from, join, "id", false);
    assert_eq!(first.written, "id,name,age\n2,Bob,25\n1,Alice,31\n2,Bea,25\n");
    assert_eq!(first.written.as_bytes(), second.written.as_bytes());
    assert_eq!(first.end.unwrap(), second.end.unwrap());
}
