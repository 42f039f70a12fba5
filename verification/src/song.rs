use vstd::prelude::*;

use crate::arrows::{Arrow, ArrowKind};

verus! {

/// The byte `0`, the least ASCII decimal digit.
pub const ZERO_DIGIT: u8 = 48;

/// The byte `9`, the greatest ASCII decimal digit.
pub const NINE_DIGIT: u8 = 57;

/// The byte `S`, tagging an instantaneous note record.
pub const SHORT_TAG: u8 = 83;

/// The byte `L`, tagging a held note record.
pub const LONG_TAG: u8 = 76;

/// The byte `+`, an optional sign in front of a numeric field.
pub const PLUS_SIGN: u8 = 43;

/// Why a note chart was rejected.
#[derive(Copy, Clone, Debug, PartialEq, Eq, Structural)]
pub enum SongParseError {
    /// A record has no fields, or its first field is empty.
    EmptyKind,
    /// The first field does not start with `S` or `L`.
    UnknownKind,
    /// Too few fields for the note kind named by the first field.
    MissingField,
    /// A numeric field is not a decimal number (one optional leading plus
    /// sign, then digits), or does not fit in `usize`.
    BadNumber,
}

/// The note chart of one song: the notes in file order.
#[derive(Clone, Debug, PartialEq, Eq)]
pub struct SongConfig {
    pub notes: Vec<Arrow>,
}

/// Whether `b` is an ASCII decimal digit.
pub open spec fn is_digit(b: u8) -> bool {
    ZERO_DIGIT <= b <= NINE_DIGIT
}

/// Whether `s` is a well-formed decimal field: nonempty, digits only.
pub open spec fn is_dec(s: Seq<u8>) -> bool {
    s.len() > 0 && forall|i: int| 0 <= i < s.len() ==> is_digit(s[i])
}

/// The number a sequence of decimal digits denotes, most significant first.
pub open spec fn dec_value(s: Seq<u8>) -> nat
    decreases s.len(),
{
    if s.len() == 0 {
        0
    } else {
        (dec_value(s.drop_last()) * 10 + (s.last() - ZERO_DIGIT)) as nat
    }
}

/// The digits of a numeric field: everything after one optional leading
/// plus sign.
pub open spec fn digit_part(s: Seq<u8>) -> Seq<u8> {
    if s.len() > 0 && s[0] == PLUS_SIGN {
        s.drop_first()
    } else {
        s
    }
}

/// Whether `s` denotes a number that a `usize` field can hold: after one
/// optional leading plus sign, digits only, and the value fits.
pub open spec fn is_number_field(s: Seq<u8>) -> bool {
    is_dec(digit_part(s)) && dec_value(digit_part(s)) <= usize::MAX
}

/// The number a numeric field denotes.
pub open spec fn field_value(s: Seq<u8>) -> nat {
    dec_value(digit_part(s))
}

/// Extending a digit string with further digits never shrinks its value:
/// the value of a prefix is at most the value of the whole.
pub proof fn lemma_dec_value_prefix(s: Seq<u8>, i: int)
    requires
        0 <= i <= s.len(),
        forall|j: int| i <= j < s.len() ==> is_digit(s[j]),
    ensures
        dec_value(s.take(i)) <= dec_value(s),
    decreases s.len() - i,
{
    if i < s.len() {
        assert(s.take(i + 1).drop_last() =~= s.take(i));
        assert(s.take(i + 1).last() == s[i]);
        assert(is_digit(s[i]));
        assert(dec_value(s.take(i + 1)) == dec_value(s.take(i)) * 10 + (s[i] - ZERO_DIGIT));
        assert(dec_value(s.take(i)) <= dec_value(s.take(i)) * 10) by (nonlinear_arith);
        lemma_dec_value_prefix(s, i + 1);
    } else {
        assert(s.take(i) =~= s);
    }
}

/// Parses one numeric field: one optional leading plus sign, then decimal
/// digits only, the value fitting in `usize`; anything else is rejected.
pub fn parse_number(field: &Vec<u8>) -> (r: Option<usize>)
    ensures
        r is Some <==> is_number_field(field@),
        r is Some ==> r->Some_0 == field_value(field@),
{
    let offset: usize = if field.len() > 0 && field[0] == PLUS_SIGN {
        1
    } else {
        0
    };
    let ghost ds: Seq<u8> = digit_part(field@);
    proof {
        assert(ds =~= field@.skip(offset as int));
    }
    if field.len() == offset {
        return None;
    }
    let mut acc: usize = 0;
    let mut i: usize = offset;
    while i < field.len()
        invariant
            offset <= 1,
            offset <= i <= field@.len(),
            ds == digit_part(field@),
            ds =~= field@.skip(offset as int),
            ds.len() == field@.len() - offset,
            ds.len() > 0,
            forall|j: int| 0 <= j < i - offset ==> is_digit(ds[j]),
            acc == dec_value(ds.take(i - offset)),
        decreases field@.len() - i,
    {
        let b = field[i];
        proof {
            assert(ds[i - offset] == field@[i as int]);
        }
        if b < ZERO_DIGIT || b > NINE_DIGIT {
            return None;
        }
        let d: usize = (b - ZERO_DIGIT) as usize;
        proof {
            assert(ds.take(i - offset + 1).drop_last() =~= ds.take(i - offset));
            assert(ds.take(i - offset + 1).last() == ds[i - offset]);
        }
        if acc > (usize::MAX - d) / 10 {
            proof {
                assert(dec_value(ds.take(i - offset + 1)) == acc * 10 + d);
                assert(acc * 10 + d > usize::MAX) by (nonlinear_arith)
                    requires
                        acc > (usize::MAX - d) / 10,
                        d < 10,
                ;
                if forall|j: int| 0 <= j < ds.len() ==> is_digit(ds[j]) {
                    lemma_dec_value_prefix(ds, i - offset + 1);
                }
            }
            return None;
        }
        proof {
            assert(acc * 10 + d <= usize::MAX) by (nonlinear_arith)
                requires
                    acc <= (usize::MAX - d) / 10,
                    d < 10,
            ;
        }
        acc = acc * 10 + d;
        i = i + 1;
    }
    proof {
        assert(ds.take(ds.len() as int) =~= ds);
    }
    Some(acc)
}

/// What one chart record means. A record starts with a kind field: `S` takes
/// a channel and a timing, `L` takes a channel, a timing and a duration, all
/// decimal milliseconds or channel indices.
pub open spec fn spec_parse_note(fields: Seq<Seq<u8>>) -> Result<Arrow, SongParseError> {
    if fields.len() == 0 || fields[0].len() == 0 {
        Err(SongParseError::EmptyKind)
    } else if fields[0][0] == SHORT_TAG {
        if fields.len() < 3 {
            Err(SongParseError::MissingField)
        } else if !is_number_field(fields[1]) || !is_number_field(fields[2]) {
            Err(SongParseError::BadNumber)
        } else {
            Ok(
                Arrow {
                    channel: field_value(fields[1]) as usize,
                    timing: field_value(fields[2]) as usize,
                    kind: ArrowKind::Short,
                },
            )
        }
    } else if fields[0][0] == LONG_TAG {
        if fields.len() < 4 {
            Err(SongParseError::MissingField)
        } else if !is_number_field(fields[1]) || !is_number_field(fields[2])
            || !is_number_field(fields[3]) {
            Err(SongParseError::BadNumber)
        } else {
            Ok(
                Arrow {
                    channel: field_value(fields[1]) as usize,
                    timing: field_value(fields[2]) as usize,
                    kind: ArrowKind::Long { duration: field_value(fields[3]) as usize },
                },
            )
        }
    } else {
        Err(SongParseError::UnknownKind)
    }
}

/// Parses one chart record into a note.
pub fn parse_note(fields: &Vec<Vec<u8>>) -> (r: Result<Arrow, SongParseError>)
    ensures
        r == spec_parse_note(fields.deep_view()),
{
    proof {
        assert(forall|i: int|
            0 <= i < fields@.len() ==> fields.deep_view()[i] == #[trigger] fields@[i]@);
    }
    if fields.len() == 0 || fields[0].len() == 0 {
        return Err(SongParseError::EmptyKind);
    }
    let kind = fields[0][0];
    if kind == SHORT_TAG {
        if fields.len() < 3 {
            return Err(SongParseError::MissingField);
        }
        let channel = parse_number(&fields[1]);
        let timing = parse_number(&fields[2]);
        match (channel, timing) {
            (Some(channel), Some(timing)) => Ok(
                Arrow { channel, timing, kind: ArrowKind::Short },
            ),
            _ => Err(SongParseError::BadNumber),
        }
    } else if kind == LONG_TAG {
        if fields.len() < 4 {
            return Err(SongParseError::MissingField);
        }
        let channel = parse_number(&fields[1]);
        let timing = parse_number(&fields[2]);
        let duration = parse_number(&fields[3]);
        match (channel, timing, duration) {
            (Some(channel), Some(timing), Some(duration)) => Ok(
                Arrow { channel, timing, kind: ArrowKind::Long { duration } },
            ),
            _ => Err(SongParseError::BadNumber),
        }
    } else {
        Err(SongParseError::UnknownKind)
    }
}

/// What a whole chart means: records the reader could not split are skipped,
/// the rest are parsed in order, and the first malformed record rejects the
/// chart.
pub open spec fn spec_parse_records(records: Seq<Option<Seq<Seq<u8>>>>) -> Result<
    Seq<Arrow>,
    SongParseError,
>
    decreases records.len(),
{
    if records.len() == 0 {
        Ok(Seq::empty())
    } else {
        match spec_parse_records(records.drop_last()) {
            Err(e) => Err(e),
            Ok(notes) => match records.last() {
                None => Ok(notes),
                Some(fields) => match spec_parse_note(fields) {
                    Ok(note) => Ok(notes.push(note)),
                    Err(e) => Err(e),
                },
            },
        }
    }
}

/// Once a prefix of the records is rejected, the whole chart is rejected
/// with the same error.
proof fn lemma_parse_records_err_persists(records: Seq<Option<Seq<Seq<u8>>>>, i: int)
    requires
        0 <= i <= records.len(),
        spec_parse_records(records.take(i)) is Err,
    ensures
        spec_parse_records(records) == spec_parse_records(records.take(i)),
    decreases records.len() - i,
{
    if i < records.len() {
        assert(records.take(i + 1).drop_last() =~= records.take(i));
        lemma_parse_records_err_persists(records, i + 1);
    } else {
        assert(records.take(i) =~= records);
    }
}

/// Parses the records of one chart into notes, in order. A record the
/// reader could not split (`None`) is skipped; the first malformed record
/// rejects the whole chart with its error.
pub fn parse_records(records: &Vec<Option<Vec<Vec<u8>>>>) -> (r: Result<
    Vec<Arrow>,
    SongParseError,
>)
    ensures
        match r {
            Ok(notes) => spec_parse_records(records.deep_view()) == Ok::<_, SongParseError>(
                notes@,
            ),
            Err(e) => spec_parse_records(records.deep_view()) == Err::<Seq<Arrow>, _>(e),
        },
{
    let mut notes: Vec<Arrow> = Vec::new();
    let mut i: usize = 0;
    proof {
        assert(records.deep_view().take(0) =~= Seq::<Option<Seq<Seq<u8>>>>::empty());
    }
    while i < records.len()
        invariant
            0 <= i <= records@.len(),
            records.deep_view().len() == records@.len(),
            spec_parse_records(records.deep_view().take(i as int)) == Ok::<_, SongParseError>(
                notes@,
            ),
        decreases records@.len() - i,
    {
        proof {
            assert(records.deep_view()[i as int] == records@[i as int].deep_view());
            assert(records.deep_view().take(i + 1).drop_last() =~= records.deep_view().take(
                i as int,
            ));
            assert(records.deep_view().take(i + 1).last() == records.deep_view()[i as int]);
        }
        match &records[i] {
            None => {},
            Some(fields) => {
                match parse_note(fields) {
                    Ok(note) => notes.push(note),
                    Err(e) => {
                        proof {
                            lemma_parse_records_err_persists(records.deep_view(), i + 1);
                        }
                        return Err(e);
                    },
                }
            },
        }
        i = i + 1;
    }
    proof {
        assert(records.deep_view().take(records@.len() as int) =~= records.deep_view());
    }
    Ok(notes)
}

/// The records of `s` as comma-separated-value data: everything after the
/// header record, each record either its fields as byte strings, or `None`
/// where the reader could not read it.
pub uninterp spec fn csv_records_of(s: Seq<char>) -> Seq<Option<Seq<Seq<u8>>>>;

/// Relies on csv::Reader: splits the text into records after a header
/// record, each a list of fields; a record it cannot read becomes `None`.
#[verifier::external_body]
fn split_csv_records(data: &str) -> (r: Vec<Option<Vec<Vec<u8>>>>)
    ensures
        r.deep_view() == csv_records_of(data@),
{
    let mut reader = csv::Reader::from_reader(data.as_bytes());
    let mut out = Vec::new();
    for record in reader.records() {
        match record {
            Ok(fields) => out.push(Some(fields.iter().map(|f| f.as_bytes().to_vec()).collect())),
            Err(_) => out.push(None),
        }
    }
    out
}

/// Reads a whole chart: splits the text into records and parses them into
/// the song's notes, rejecting the chart at its first malformed record.
pub fn parse_song(data: &str) -> (r: Result<SongConfig, SongParseError>)
    ensures
        match r {
            Ok(song) => spec_parse_records(csv_records_of(data@)) == Ok::<_, SongParseError>(
                song.notes@,
            ),
            Err(e) => spec_parse_records(csv_records_of(data@)) == Err::<Seq<Arrow>, _>(e),
        },
{
    let records = split_csv_records(data);
    match parse_records(&records) {
        Ok(notes) => Ok(SongConfig { notes }),
        Err(e) => Err(e),
    }
}

} // verus!
