use crate::lines::strings_view;
use crate::text::spec_join;
use crate::value::{is_string_list, string_items, strings_of, Kind, Value};
use vstd::prelude::*;

verus! {

#[verifier::external_type_specification]
#[verifier::external_body]
pub struct ExCsvError(csv::Error);

/// A character that a field cannot hold unquoted: the delimiter, the quote,
/// a carriage return or a line feed.
pub open spec fn is_special(c: char) -> bool {
    c == ',' || c == '"' || c == '\r' || c == '\n'
}

/// The field holds a character that it cannot hold unquoted.
pub open spec fn needs_quotes(f: Seq<char>) -> bool {
    exists|j: int| 0 <= j < f.len() && is_special(#[trigger] f[j])
}

/// The field with each double quote doubled.
pub open spec fn double_quotes(f: Seq<char>) -> Seq<char>
    decreases f.len(),
{
    if f.len() == 0 {
        seq![]
    } else {
        double_quotes(f.drop_last()) + if f.last() == '"' {
            seq!['"', '"']
        } else {
            seq![f.last()]
        }
    }
}

/// How a field is written: in double quotes, its quotes doubled, where it
/// needs quoting; as it is otherwise.
pub open spec fn field_text(f: Seq<char>) -> Seq<char> {
    if needs_quotes(f) {
        seq!['"'] + double_quotes(f) + seq!['"']
    } else {
        f
    }
}

/// How a record is written, before its line feed: a record with no field,
/// or with one empty field, as `""`; any other as its written fields joined
/// with commas.
pub open spec fn record_text(fields: Seq<Seq<char>>) -> Seq<char> {
    if fields.len() == 0 || (fields.len() == 1 && fields[0].len() == 0) {
        seq!['"', '"']
    } else {
        spec_join(fields.map_values(|f: Seq<char>| field_text(f)), seq![','])
    }
}

/// The bytes that a CSV writer with the default settings (comma, double
/// quote doubled inside quotes, quoting only where needed, line feed) and no
/// header row writes for one record with the given fields.
pub open spec fn csv_record_bytes(fields: Seq<Seq<char>>) -> Seq<u8> {
    vstd::utf8::encode_utf8(record_text(fields)) + seq![10u8]
}

/// The header row of CSV input read with a header row, or `None` where the
/// reader fails on it.
pub uninterp spec fn csv_header_of(input: Seq<u8>) -> Option<Seq<Seq<char>>>;

/// What reading the records of CSV input after its header row yields, in
/// order: the fields of each record, or `None` for a record that fails.
pub uninterp spec fn csv_records_of(input: Seq<u8>) -> Seq<Option<Seq<Seq<char>>>>;

/// The bytes written for several records, one after the other.
pub open spec fn csv_table_bytes(rows: Seq<Seq<Seq<char>>>) -> Seq<u8>
    decreases rows.len(),
{
    if rows.len() == 0 {
        seq![]
    } else {
        csv_table_bytes(rows.drop_last()) + csv_record_bytes(rows.last())
    }
}

/// Records that reading gives back once written: at least one record, all
/// with the same number of fields, at least one, and the first field not
/// starting with a byte order mark (which a reader drops at the start of its
/// input).
pub open spec fn is_readable_table(rows: Seq<Seq<Seq<char>>>) -> bool {
    &&& rows.len() >= 1
    &&& rows[0].len() >= 1
    &&& forall|i: int| 0 <= i < rows.len() ==> (#[trigger] rows[i]).len() == rows[0].len()
    &&& !(rows[0][0].len() > 0 && rows[0][0][0] == '\u{feff}')
}

/// Writing succeeded and gave the bytes of the record `fields`.
pub open spec fn wrote(r: Result<Vec<u8>, csv::Error>, fields: Seq<Seq<char>>) -> bool {
    r matches Ok(b) && b@ == csv_record_bytes(fields)
}

/// A read gave the fields `row`.
pub open spec fn read_as(r: Result<Vec<String>, csv::Error>, row: Seq<Seq<char>>) -> bool {
    r matches Ok(f) && strings_view(f@) == row
}

/// Reads gave the records `rows`, one each, in order.
pub open spec fn all_read_as(rs: Seq<Result<Vec<String>, csv::Error>>, rows: Seq<Seq<Seq<char>>>) -> bool {
    &&& rs.len() == rows.len()
    &&& forall|i: int| 0 <= i < rs.len() ==> read_as(#[trigger] rs[i], rows[i])
}

/// Writes one record with `csv::WriterBuilder` (no header row, the default
/// delimiter, quoting and terminator) into a vector, then flushes.
/// Claimed: it succeeds (writing into a vector cannot fail, and the field
/// count of a first record is never refused), and the bytes are
/// `csv_record_bytes` of the fields: csv-core quotes a field holding a
/// delimiter, a quote, a carriage return or a line feed, doubling its
/// quotes, writes `""` for a record that wrote no byte, and ends the record
/// with a line feed.
#[verifier::external_body]
fn csv_write_record(fields: &Vec<String>) -> (r: Result<Vec<u8>, csv::Error>)
    ensures
        wrote(r, strings_view(fields@)),
{
    let mut buffer: Vec<u8> = Vec::new();
    {
        let mut wtr = csv::WriterBuilder::new().has_headers(false).from_writer(&mut buffer);
        wtr.write_record(fields)?;
        wtr.flush()?;
    }
    Ok(buffer)
}

/// Reads the header row of `input` with `csv::ReaderBuilder` (header row
/// on, default settings) and `Reader::headers`.
/// Claimed: it succeeds exactly where `csv_header_of` is a row, and gives
/// that row; on what the writer wrote for readable records, it gives back
/// the first of them (the writer quotes what the reader would otherwise
/// split or drop, to keep the data intact).
#[verifier::external_body]
fn csv_read_header(input: &Vec<u8>) -> (r: Result<Vec<String>, csv::Error>)
    ensures
        (r is Ok) == (csv_header_of(input@) is Some),
        r matches Ok(h) ==> csv_header_of(input@) == Some(strings_view(h@)),
        forall|rows: Seq<Seq<Seq<char>>>|
            #[trigger] csv_table_bytes(rows) == input@ && is_readable_table(rows) ==> read_as(r, rows[0]),
{
    let mut rdr = csv::ReaderBuilder::new().has_headers(true).from_reader(input.as_slice());
    let header = rdr.headers()?;
    Ok(header.iter().map(String::from).collect())
}

/// Reads every record of `input` after its header row with
/// `csv::ReaderBuilder` (header row on, default settings) and
/// `Reader::records`.
/// Claimed: one result per item of `csv_records_of`, in order, failing
/// exactly where that item is `None`, else holding its fields; on what the
/// writer wrote for readable records, it gives back all but the first of
/// them.
#[verifier::external_body]
fn csv_read_records(input: &Vec<u8>) -> (r: Vec<Result<Vec<String>, csv::Error>>)
    ensures
        forall|rows: Seq<Seq<Seq<char>>>|
            #[trigger] csv_table_bytes(rows) == input@ && is_readable_table(rows) ==> all_read_as(r@, rows.drop_first()),
        r@.len() == csv_records_of(input@).len(),
        forall|i: int|
            0 <= i < r@.len() ==> ((#[trigger] r@[i]) is Ok) == (csv_records_of(input@)[i] is Some),
        forall|i: int|
            0 <= i < r@.len() ==> ((#[trigger] r@[i]) matches Ok(f) ==> csv_records_of(input@)[i]
                == Some(strings_view(f@))),
{
    let mut rdr = csv::ReaderBuilder::new().has_headers(true).from_reader(input.as_slice());
    rdr.records().map(|rec| rec.map(|f| f.iter().map(String::from).collect())).collect()
}

/// The fields of the CSV record for a value: its string items where it is a
/// list, nothing where it is not.
pub open spec fn csv_fields_of(value: Value) -> Option<Seq<Seq<char>>> {
    match value.kind {
        Some(Kind::ListValue(lv)) => Some(string_items(lv.values@)),
        _ => None,
    }
}

/// The fields to write for a value: the strings of a list, in order, other
/// items left out; `None` where the value is not a list.
pub fn csv_fields(value: &Value) -> (r: Option<Vec<String>>)
    ensures
        match r {
            Some(f) => csv_fields_of(*value) == Some(strings_view(f@)),
            None => csv_fields_of(*value) is None,
        },
{
    match &value.kind {
        Some(Kind::ListValue(lv)) => Some(strings_of(&lv.values)),
        _ => None,
    }
}

/// Encodes a value as one CSV record: a list as the record of its strings,
/// which always succeeds; anything else as no bytes at all.
pub fn encode_value_to_csv(value: &Value) -> (r: Result<Vec<u8>, csv::Error>)
    ensures
        csv_fields_of(*value) is None ==> (r matches Ok(b) && b@.len() == 0),
        csv_fields_of(*value) matches Some(f) ==> (r matches Ok(b) && b@ == csv_record_bytes(f)),
{
    match csv_fields(value) {
        Some(fields) => csv_write_record(&fields),
        None => Ok(Vec::new()),
    }
}

/// What decoding one CSV input gave: the header row as a list of strings
/// (unless reading it failed), the records read before the first failure,
/// each as a list of strings, and the failure, if there was one.
pub struct DecodedCsv {
    pub header: Option<Value>,
    pub rows: Vec<Value>,
    pub error: Option<csv::Error>,
}

/// The records before the first failing one.
pub open spec fn records_before_failure(records: Seq<Option<Seq<Seq<char>>>>) -> Seq<
    Seq<Seq<char>>,
>
    decreases records.len(),
{
    if records.len() == 0 {
        seq![]
    } else {
        match records[0] {
            Some(f) => seq![f] + records_before_failure(records.drop_first()),
            None => seq![],
        }
    }
}

/// Some record fails.
pub open spec fn some_record_fails(records: Seq<Option<Seq<Seq<char>>>>) -> bool {
    exists|i: int| 0 <= i < records.len() && records[i] is None
}

/// The records as read, each `None` where it failed.
pub open spec fn record_views(records: Seq<Result<Vec<String>, csv::Error>>) -> Seq<
    Option<Seq<Seq<char>>>,
> {
    records.map_values(
        |r: Result<Vec<String>, csv::Error>|
            match r {
                Ok(f) => Some(strings_view(f@)),
                Err(_) => None,
            },
    )
}

/// `d` is what decoding gives for a header row and records read so.
pub open spec fn decoded_as(
    d: DecodedCsv,
    header: Option<Seq<Seq<char>>>,
    records: Seq<Option<Seq<Seq<char>>>>,
) -> bool {
    match header {
        None => d.header is None && d.rows@.len() == 0 && d.error is Some,
        Some(h) => {
            &&& d.header matches Some(hv) && is_string_list(hv, h)
            &&& d.rows@.len() == records_before_failure(records).len()
            &&& forall|i: int|
                0 <= i < d.rows@.len() ==> is_string_list(
                    #[trigger] d.rows@[i],
                    records_before_failure(records)[i],
                )
            &&& (d.error is Some) == some_record_fails(records)
        },
    }
}

proof fn lemma_records_before_failure_prefix(records: Seq<Option<Seq<Seq<char>>>>, k: int)
    requires
        0 <= k <= records.len(),
        forall|i: int| 0 <= i < k ==> records[i] is Some,
    ensures
        records_before_failure(records).len() >= k,
        forall|i: int| 0 <= i < k ==> records[i] == Some(records_before_failure(records)[i]),
        k < records.len() && records[k] is None ==> records_before_failure(records).len() == k,
        k == records.len() ==> records_before_failure(records).len() == k,
    decreases k,
{
    if k > 0 {
        lemma_records_before_failure_prefix(records.drop_first(), k - 1);
        assert forall|i: int| 0 <= i < k implies records[i] == Some(
            records_before_failure(records)[i],
        ) by {
            if i > 0 {
                assert(records.drop_first()[i - 1] == records[i]);
            }
        }
    }
}

/// Decodes a header row and records, as read: the header, then each record
/// up to the first failure, which ends the decoding.
pub fn decode_csv_rows(
    header: Result<Vec<String>, csv::Error>,
    records: Vec<Result<Vec<String>, csv::Error>>,
) -> (r: DecodedCsv)
    ensures
        decoded_as(
            r,
            match header {
                Ok(h) => Some(strings_view(h@)),
                Err(_) => None,
            },
            record_views(records@),
        ),
{
    let h = match header {
        Ok(h) => h,
        Err(e) => {
            return DecodedCsv { header: None, rows: Vec::new(), error: Some(e) };
        },
    };
    let ghost rv = record_views(records@);
    let ghost hv = strings_view(h@);
    assert(match header {
        Ok(h) => Some(strings_view(h@)),
        Err(_) => None,
    } == Some(hv));
    let header_value = Value::string_list(h);
    let mut rows: Vec<Value> = Vec::new();
    let mut error: Option<csv::Error> = None;
    let total = records.len();
    let ghost n = total as int;
    let mut pending = records;
    let mut ordered: Vec<Result<Vec<String>, csv::Error>> = Vec::new();
    while pending.len() > 0
        invariant
            rv == record_views(pending@ + ordered@.reverse()),
            rv.len() == n,
        decreases pending@.len(),
    {
        let ghost before = pending@;
        let item = pending.pop().unwrap();
        assert(before =~= pending@.push(item));
        assert(pending@.push(item) + ordered@.reverse() =~= pending@ + ordered@.push(item).reverse());
        ordered.push(item);
    }
    assert(pending@ + ordered@.reverse() =~= ordered@.reverse());
    assert forall|k: int| 0 <= k < ordered@.len() implies (match #[trigger] ordered@[k] {
        Ok(f) => Some(strings_view(f@)),
        Err(_) => None::<Seq<Seq<char>>>,
    }) == rv[n - 1 - k] by {
        assert(ordered@.reverse()[n - 1 - k] == ordered@[k]);
    }
    let mut i: usize = 0;
    while ordered.len() > 0
        invariant
            rv.len() == n,
            i + ordered@.len() == n,
            forall|k: int|
                0 <= k < ordered@.len() ==> (match #[trigger] ordered@[k] {
                    Ok(f) => Some(strings_view(f@)),
                    Err(_) => None::<Seq<Seq<char>>>,
                }) == rv[n - 1 - k],
            forall|k: int| 0 <= k < i ==> rv[k] is Some,
            rows@.len() == i,
            forall|k: int| 0 <= k < i ==> is_string_list(#[trigger] rows@[k], rv[k]->Some_0),
            error is None,
            n <= usize::MAX,
            is_string_list(header_value, hv),
            rv == record_views(records@),
            match header {
                Ok(h) => Some(strings_view(h@)),
                Err(_) => None,
            } == Some(hv),
        decreases ordered@.len(),
    {
        let ghost last = ordered@.len() - 1;
        let item = ordered.pop().unwrap();
        assert(rv[i as int] == match item {
            Ok(f) => Some(strings_view(f@)),
            Err(_) => None::<Seq<Seq<char>>>,
        });
        match item {
            Ok(f) => {
                rows.push(Value::string_list(f));
                i = i + 1;
            },
            Err(e) => {
                error = Some(e);
                proof {
                    assert(rv[i as int] is None);
                    lemma_records_before_failure_prefix(rv, i as int);
                    assert(some_record_fails(rv));
                }
                return DecodedCsv { header: Some(header_value), rows, error };
            },
        }
    }
    proof {
        lemma_records_before_failure_prefix(rv, i as int);
        assert(!some_record_fails(rv));
    }
    DecodedCsv { header: Some(header_value), rows, error }
}

/// Decodes CSV input with a header row: the header as a list of strings,
/// then each record as a list of strings, up to the first record that fails.
///
/// Decoding what was written for readable records gives them back: the
/// first as the header, the others as the rows, and no error.
pub fn decode_csv(input: &Vec<u8>) -> (r: DecodedCsv)
    ensures
        decoded_as(r, csv_header_of(input@), csv_records_of(input@)),
        forall|rows: Seq<Seq<Seq<char>>>|
            #[trigger] csv_table_bytes(rows) == input@ && is_readable_table(rows) ==> decodes_to(
                r,
                rows,
            ),
{
    let header = csv_read_header(input);
    if header.is_err() {
        return decode_csv_rows(header, Vec::new());
    }
    let ghost hv = match &header {
        Ok(h) => strings_view(h@),
        Err(_) => seq![],
    };
    let records = csv_read_records(input);
    proof {
        assert(record_views(records@) =~= csv_records_of(input@));
    }
    let ghost rs = records@;
    let r = decode_csv_rows(header, records);
    proof {
        assert forall|rows: Seq<Seq<Seq<char>>>|
            #[trigger] csv_table_bytes(rows) == input@ && is_readable_table(
                rows,
            ) implies decodes_to(r, rows) by {
            let rv = record_views(rs);
            assert(hv == rows[0]);
            assert(all_read_as(rs, rows.drop_first()));
            assert(rs.len() + 1 == rows.len());
            assert forall|i: int| 0 <= i < rv.len() implies rv[i] is Some by {
                assert(read_as(rs[i], rows.drop_first()[i]));
            }
            lemma_records_before_failure_prefix(rv, rv.len() as int);
            assert forall|i: int| 0 <= i < r.rows@.len() implies is_string_list(
                #[trigger] r.rows@[i],
                rows[i + 1],
            ) by {
                assert(read_as(rs[i], rows.drop_first()[i]));
                assert(rows.drop_first()[i] == rows[i + 1]);
                assert(rv[i] == Some(records_before_failure(rv)[i]));
            }
            if some_record_fails(rv) {
                let j = choose|j: int| 0 <= j < rv.len() && rv[j] is None;
                assert(rv[j] is Some);
            }
        }
    }
    r
}

/// `d` holds the given records: the first as its header, the others as its
/// rows, and no error.
pub open spec fn decodes_to(d: DecodedCsv, rows: Seq<Seq<Seq<char>>>) -> bool {
    &&& d.header matches Some(hv) && is_string_list(hv, rows[0])
    &&& d.rows@.len() + 1 == rows.len()
    &&& forall|i: int| 0 <= i < d.rows@.len() ==> is_string_list(#[trigger] d.rows@[i], rows[i + 1])
    &&& d.error is None
}

} // verus!
