//! The CSV log: a header of node ids when the file is new, then one row of
//! values per round.
use vstd::prelude::*;
use vstd::string::*;
use crate::clock::{is_rfc3339_utc, utc_now_rfc3339};
use crate::node::NodeValue;

verus! {

/// A field must be quoted when it holds a comma, a quote, a line feed or a
/// carriage return.
pub open spec fn needs_quotes(f: Seq<char>) -> bool {
    exists|i: int| 0 <= i < f.len() && (f[i] == ',' || f[i] == '"' || f[i] == '\n' || f[i] == '\r')
}

/// The characters of `f` with every quote doubled.
pub open spec fn doubled_quotes(f: Seq<char>) -> Seq<char>
    decreases f.len(),
{
    if f.len() == 0 {
        Seq::empty()
    } else {
        doubled_quotes(f.drop_last()) + if f.last() == '"' {
            seq!['"', '"']
        } else {
            seq![f.last()]
        }
    }
}

/// How one field is written: in quotes, its quotes doubled, when it needs
/// quotes, otherwise as it is.
pub open spec fn field_text(f: Seq<char>) -> Seq<char> {
    if needs_quotes(f) {
        seq!['"'] + doubled_quotes(f) + seq!['"']
    } else {
        f
    }
}

/// The fields written one after another, separated by commas.
pub open spec fn joined_fields(fields: Seq<Seq<char>>) -> Seq<char>
    decreases fields.len(),
{
    if fields.len() == 0 {
        Seq::empty()
    } else if fields.len() == 1 {
        field_text(fields[0])
    } else {
        joined_fields(fields.drop_last()) + seq![','] + field_text(fields.last())
    }
}

/// The text of one record: its fields joined by commas, or `""` when that
/// would write nothing at all, then a line feed.
pub open spec fn csv_record_text(fields: Seq<Seq<char>>) -> Seq<char> {
    let body = joined_fields(fields);
    if body.len() == 0 {
        seq!['"', '"', '\n']
    } else {
        body + seq!['\n']
    }
}

/// The bytes that the `csv` crate writes for one record with its default
/// settings (comma delimiter, quote style `Necessary` with doubled quotes,
/// `\n` after the record): the UTF-8 encoding of `csv_record_text`.
pub open spec fn csv_record_bytes(fields: Seq<Seq<char>>) -> Seq<u8> {
    vstd::utf8::encode_utf8(csv_record_text(fields))
}

/// The fields of a record as character sequences.
pub open spec fn field_texts(fields: Seq<String>) -> Seq<Seq<char>> {
    fields.map_values(|f: String| f@)
}

/// Writes `fields` as one record with `csv::Writer` into memory and returns
/// the bytes, or `None` where the writer reports an error.  Trusted: the
/// writer reports none here, since its errors come only from the underlying
/// `io::Write`, which for a `Vec<u8>` does not fail, and from a record whose
/// field count differs from the first record's, which the first record
/// cannot; the bytes are `csv_record_bytes` of the fields, and the record
/// ends with the writer's default terminator, `\n`.
#[verifier::external_body]
fn encode_record(fields: &Vec<String>) -> (r: Option<Vec<u8>>)
    ensures
        r is Some,
        r matches Some(b) ==> b@ == csv_record_bytes(field_texts(fields@)) && b@.len() > 0
            && b@.last() == 10u8,
{
    let mut w = csv::WriterBuilder::new().has_headers(false).from_writer(Vec::new());
    match w.write_record(fields) {
        Ok(()) => w.into_inner().ok(),
        Err(_) => None,
    }
}

/// The header of the log: `timestamp`, then the node ids.
pub open spec fn header_fields(values: Seq<NodeValue>) -> Seq<Seq<char>> {
    seq![seq!['t', 'i', 'm', 'e', 's', 't', 'a', 'm', 'p']] + values.map_values(|v: NodeValue| v.node_id@)
}

/// A row of the log: the time of the round, then the JSON text of each
/// value.
pub open spec fn row_fields(timestamp: Seq<char>, values: Seq<NodeValue>) -> Seq<Seq<char>> {
    seq![timestamp] + values.map_values(|v: NodeValue| v.value@)
}

/// A row has one field per reading after the time, in the order of the
/// readings and so of the header's columns: the `i`-th reading's value text,
/// `null` included, stands in field `i + 1`.
pub proof fn row_has_one_field_per_reading(timestamp: Seq<char>, values: Seq<NodeValue>)
    ensures
        row_fields(timestamp, values).len() == values.len() + 1,
        row_fields(timestamp, values)[0] == timestamp,
        forall|i: int| 0 <= i < values.len() ==> #[trigger] row_fields(timestamp, values)[i + 1] == values[i].value@,
{
}

/// The header has one field per reading after `timestamp`: the `i`-th
/// reading's node id stands in field `i + 1`, above that reading's value.
pub proof fn header_has_one_field_per_reading(values: Seq<NodeValue>)
    ensures
        header_fields(values).len() == values.len() + 1,
        forall|i: int| 0 <= i < values.len() ==> #[trigger] header_fields(values)[i + 1] == values[i].node_id@,
{
}

/// The header record of the log.
pub fn csv_header(values: &Vec<NodeValue>) -> (r: Vec<String>)
    ensures
        field_texts(r@) == header_fields(values@),
{
    let first = "timestamp";
    proof {
        reveal_strlit("timestamp");
        assert(first@ =~= seq!['t', 'i', 'm', 'e', 's', 't', 'a', 'm', 'p']);
    }
    let mut r: Vec<String> = Vec::new();
    r.push(String::from_str(first));
    let mut i: usize = 0;
    while i < values.len()
        invariant
            i <= values.len(),
            field_texts(r@) == header_fields(values@.subrange(0, i as int)),
        decreases values.len() - i,
    {
        let ghost before = r@;
        r.push(values[i].node_id.clone());
        i += 1;
        proof {
            assert(field_texts(r@) =~= field_texts(before).push(values@[i - 1].node_id@));
            assert(header_fields(values@.subrange(0, i as int)) =~= header_fields(
                values@.subrange(0, i - 1),
            ).push(values@[i - 1].node_id@));
        }
    }
    assert(values@.subrange(0, values.len() as int) =~= values@);
    r
}

/// The row record of the log for a round stamped `timestamp`.
pub fn csv_row(timestamp: &String, values: &Vec<NodeValue>) -> (r: Vec<String>)
    ensures
        field_texts(r@) == row_fields(timestamp@, values@),
        r.len() == values.len() + 1,
        r@[0]@ == timestamp@,
        forall|i: int| 0 <= i < values.len() ==> (#[trigger] r@[i + 1])@ == values@[i].value@,
{
    proof {
        row_has_one_field_per_reading(timestamp@, values@);
    }
    let mut r: Vec<String> = Vec::new();
    r.push(timestamp.clone());
    assert(field_texts(r@) =~= row_fields(timestamp@, values@.subrange(0, 0)));
    let mut i: usize = 0;
    while i < values.len()
        invariant
            i <= values.len(),
            field_texts(r@) == row_fields(timestamp@, values@.subrange(0, i as int)),
        decreases values.len() - i,
    {
        let ghost before = r@;
        r.push(values[i].value.clone());
        i += 1;
        proof {
            assert(field_texts(r@) =~= field_texts(before).push(values@[i - 1].value@));
            assert(row_fields(timestamp@, values@.subrange(0, i as int)) =~= row_fields(
                timestamp@,
                values@.subrange(0, i - 1),
            ).push(values@[i - 1].value@));
        }
    }
    assert(values@.subrange(0, values.len() as int) =~= values@);
    proof {
        assert forall|k: int| 0 <= k < values.len() implies (#[trigger] r@[k + 1])@ == values@[k].value@ by {
            assert(field_texts(r@)[k + 1] == r@[k + 1]@);
            assert(row_fields(timestamp@, values@)[k + 1] == values@[k].value@);
        }
        assert(field_texts(r@)[0] == r@[0]@);
    }
    r
}

/// The bytes appended to the log for one round: the header first when the
/// file does not exist yet, then the row.
pub open spec fn log_bytes_spec(file_exists: bool, timestamp: Seq<char>, values: Seq<NodeValue>) -> Seq<u8> {
    if file_exists {
        csv_record_bytes(row_fields(timestamp, values))
    } else {
        csv_record_bytes(header_fields(values)) + csv_record_bytes(row_fields(timestamp, values))
    }
}

/// Each round appends the row; a new file gets the header before it, an
/// existing file never does; every record ends with a line feed.
pub proof fn header_only_for_new_file(timestamp: Seq<char>, values: Seq<NodeValue>)
    ensures
        log_bytes_spec(true, timestamp, values) == csv_record_bytes(row_fields(timestamp, values)),
        log_bytes_spec(false, timestamp, values) == csv_record_bytes(header_fields(values))
            + csv_record_bytes(row_fields(timestamp, values)),
        csv_record_text(row_fields(timestamp, values)).last() == '\n',
        csv_record_text(header_fields(values)).last() == '\n',
{
}

/// The bytes to append to the log for a round stamped `timestamp`; the CSV
/// writer reports no error for records written into memory, so there are
/// always some.
pub fn log_bytes(file_exists: bool, timestamp: &String, values: &Vec<NodeValue>) -> (r: Option<Vec<u8>>)
    ensures
        r is Some,
        r matches Some(b) ==> b@ == log_bytes_spec(file_exists, timestamp@, values@),
{
    let mut out: Vec<u8> = Vec::new();
    if !file_exists {
        let header = csv_header(values);
        match encode_record(&header) {
            Some(mut b) => out.append(&mut b),
            None => return None,
        }
    }
    let row = csv_row(timestamp, values);
    match encode_record(&row) {
        Some(mut b) => {
            out.append(&mut b);
        },
        None => return None,
    }
    assert(out@ =~= log_bytes_spec(file_exists, timestamp@, values@));
    Some(out)
}

/// The bytes to append to the log for this round, stamped with the current
/// time; there are always some.
pub fn log_entry(file_exists: bool, values: &Vec<NodeValue>) -> (r: Option<Vec<u8>>)
    ensures
        r is Some,
        r matches Some(b) ==> exists|t: Seq<char>| is_rfc3339_utc(t) && b@ == log_bytes_spec(file_exists, t, values@),
{
    let now = utc_now_rfc3339();
    log_bytes(file_exists, &now, values)
}

} // verus!
