use yveb::arrows::{Arrow, ArrowKind};
use yveb::song::{parse_number, parse_song, SongParseError};

#[test]
fn parse_number_reads_plain_decimals() {
    assert_eq!(parse_number(&b"0".to_vec()), Some(0));
    assert_eq!(parse_number(&b"123".to_vec()), Some(123));
    assert_eq!(parse_number(&b"007".to_vec()), Some(7));
}

#[test]
fn parse_number_rejects_empty_and_non_digits() {
    assert_eq!(parse_number(&b"".to_vec()), None);
    assert_eq!(parse_number(&b"12a".to_vec()), None);
    assert_eq!(parse_number(&b"-5".to_vec()), None);
    assert_eq!(parse_number(&b" 5".to_vec()), None);
}

#[test]
fn parse_number_accepts_one_leading_plus_sign() {
    assert_eq!(parse_number(&b"+5".to_vec()), Some(5));
    assert_eq!(parse_number(&b"+123".to_vec()), Some(123));
    assert_eq!(parse_number(&b"+".to_vec()), None);
    assert_eq!(parse_number(&b"++1".to_vec()), None);
    assert_eq!(parse_number(&b"1+2".to_vec()), None);
}

#[test]
fn parse_song_accepts_plus_signed_fields() {
    let data = "kind,channel,timing,duration\nS,+3,+1500,\n";
    let song = parse_song(data).expect("chart should parse");
    assert_eq!(
        song.notes,
        vec![Arrow { channel: 3, timing: 1500, kind: ArrowKind::Short }]
    );
}

#[test]
fn parse_number_rejects_overflow() {
    assert_eq!(parse_number(&b"99999999999999999999999999".to_vec()), None);
    let max = format!("{}", usize::MAX);
    assert_eq!(parse_number(&max.as_bytes().to_vec()), Some(usize::MAX));
}

#[test]
fn parse_song_reads_short_and_long_notes() {
    let data = "kind,channel,timing,duration\nS,0,1000,\nL,1,2000,500\nS,2,3000,\n";
    let song = parse_song(data).expect("chart should parse");
    assert_eq!(
        song.notes,
        vec![
            Arrow { channel: 0, timing: 1000, kind: ArrowKind::Short },
            Arrow { channel: 1, timing: 2000, kind: ArrowKind::Long { duration: 500 } },
            Arrow { channel: 2, timing: 3000, kind: ArrowKind::Short },
        ]
    );
}

#[test]
fn parse_song_skips_the_header_record() {
    let data = "kind,channel,timing,duration\n";
    let song = parse_song(data).expect("empty chart should parse");
    assert_eq!(song.notes, vec![]);
}

#[test]
fn parse_song_skips_records_the_reader_rejects() {
    // The middle record has the wrong number of fields, so the reader
    // rejects it and the scan goes on with the next record.
    let data = "kind,channel,timing,duration\nS,0,1000,\nS,5\nL,1,2000,500\n";
    let song = parse_song(data).expect("chart should parse");
    assert_eq!(
        song.notes,
        vec![
            Arrow { channel: 0, timing: 1000, kind: ArrowKind::Short },
            Arrow { channel: 1, timing: 2000, kind: ArrowKind::Long { duration: 500 } },
        ]
    );
}

#[test]
fn parse_song_rejects_an_unknown_kind() {
    let data = "kind,channel,timing,duration\nX,0,1000,\n";
    assert_eq!(parse_song(data), Err(SongParseError::UnknownKind));
}

#[test]
fn parse_song_rejects_an_empty_kind_field() {
    let data = "kind,channel,timing,duration\n,0,1000,\n";
    assert_eq!(parse_song(data), Err(SongParseError::EmptyKind));
}

#[test]
fn parse_song_rejects_a_bad_number() {
    let data = "kind,channel,timing,duration\nS,zero,1000,\n";
    assert_eq!(parse_song(data), Err(SongParseError::BadNumber));
}

#[test]
fn parse_song_rejects_a_long_note_without_duration() {
    let data = "kind,channel,timing,duration\nL,1,2000,\n";
    assert_eq!(parse_song(data), Err(SongParseError::BadNumber));
}

#[test]
fn parse_song_only_checks_the_first_byte_of_the_kind() {
    let data = "kind,channel,timing,duration\nShort,4,250,\n";
    let song = parse_song(data).expect("chart should parse");
    assert_eq!(
        song.notes,
        vec![Arrow { channel: 4, timing: 250, kind: ArrowKind::Short }]
    );
}

#[test]
fn parse_song_rejects_a_short_note_with_too_few_fields() {
    let data = "kind,channel\nS,5\n";
    assert_eq!(parse_song(data), Err(SongParseError::MissingField));
}

#[test]
fn parse_song_rejects_a_long_note_with_too_few_fields() {
    let data = "kind,channel,timing\nL,1,2000\n";
    assert_eq!(parse_song(data), Err(SongParseError::MissingField));
}

#[test]
fn parse_song_reports_the_first_malformed_record() {
    let data = "kind,channel,timing,duration\nX,0,1000,\nS,zero,1000,\n";
    assert_eq!(parse_song(data), Err(SongParseError::UnknownKind));
}
