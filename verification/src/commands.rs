use vstd::prelude::*;
use crate::numfmt::{all_digits, decimal, decimal_string, digits_value, lemma_decimal_reads_back};
use crate::sizes::{bytes_to_string, size_text};
use mongodb::bson::Document;

verus! {

#[verifier::external_type_specification]
#[verifier::external_body]
pub struct ExJsonValue(serde_json::Value);

#[verifier::external_type_specification]
#[verifier::external_body]
pub struct ExDocument(Document);

/// A number that the server reports in collection statistics, as far as it matters here.
#[derive(Debug, Clone, Copy, PartialEq, Eq, Structural)]
pub enum StatValue {
    Int32(i32),
    Int64(i64),
    /// A value of any other kind.
    Other,
}

/// The statistic as a 64-bit integer: present and of an integer kind.
pub open spec fn stat_number(v: Option<StatValue>) -> Option<i64> {
    match v {
        Some(StatValue::Int32(n)) => Some(n as i64),
        Some(StatValue::Int64(n)) => Some(n),
        _ => None,
    }
}

/// Reads a statistic as a 64-bit integer; sizes may be reported as 32- or 64-bit integers.
pub fn stat_as_i64(v: Option<StatValue>) -> (r: Option<i64>)
    ensures
        r == stat_number(v),
{
    match v {
        Some(StatValue::Int32(n)) => Some(n as i64),
        Some(StatValue::Int64(n)) => Some(n),
        _ => None,
    }
}

/// Reads the `storageSize` and `size` statistics of a collection, in that order, and
/// returns them as `(storage_size, size)`, or the message about the first that is missing
/// or not numeric.
pub fn read_stat_sizes(storage_size: Option<StatValue>, size: Option<StatValue>) -> (r: Result<(i64, i64), String>)
    ensures
        stat_number(storage_size) is None ==> (r matches Err(m) && m@
            == "storageSize missing or not numeric"@),
        stat_number(storage_size) is Some && stat_number(size) is None ==> (r matches Err(m) && m@
            == "size missing or not numeric"@),
        stat_number(storage_size) is Some && stat_number(size) is Some ==> r == Ok::<(i64, i64), String>(
            (stat_number(storage_size).unwrap(), stat_number(size).unwrap()),
        ),
{
    proof {
        reveal_strlit("storageSize missing or not numeric");
        reveal_strlit("size missing or not numeric");
    }
    let st = match stat_as_i64(storage_size) {
        Some(n) => n,
        None => return Err("storageSize missing or not numeric".to_owned()),
    };
    let sz = match stat_as_i64(size) {
        Some(n) => n,
        None => return Err("size missing or not numeric".to_owned()),
    };
    Ok((st, sz))
}

/// One row of the collection details table.
#[derive(Debug)]
pub struct DetailRow {
    /// Name of the collection.
    pub name: String,
    /// Number of documents.
    pub count: u64,
    /// Size of the documents, in a human-readable unit.
    pub size: String,
    /// Space the collection takes on disk, in a human-readable unit.
    pub storage_size: String,
}

impl DetailRow {
    /// The row of a collection, with its sizes in bytes written in human-readable units.
    pub fn new(name: &str, count: u64, size: i64, storage_size: i64) -> (row: Self)
        ensures
            row.name@ == name@,
            row.count == count,
            row.size@ == size_text(size as int),
            row.storage_size@ == size_text(storage_size as int),
    {
        DetailRow {
            name: name.to_owned(),
            count,
            size: bytes_to_string(size),
            storage_size: bytes_to_string(storage_size),
        }
    }
}

/// The `i`-th line (from 0) of a numbered list: `  {i + 1}) {item}`.
pub open spec fn numbered_line(i: nat, item: Seq<char>) -> Seq<char> {
    "  "@ + decimal(i + 1) + ") "@ + item
}

/// The lines that list the names, numbered from 1.
pub fn numbered_lines(names: &Vec<String>) -> (lines: Vec<String>)
    ensures
        lines@.len() == names@.len(),
        forall|i: int| 0 <= i < names@.len() ==> #[trigger] lines@[i]@ == numbered_line(i as nat, names@[i]@),
{
    proof {
        reveal_strlit("  ");
        reveal_strlit(") ");
    }
    let mut lines: Vec<String> = Vec::new();
    let mut i: usize = 0;
    while i < names.len()
        invariant
            i <= names@.len(),
            lines@.len() == i,
            forall|j: int| 0 <= j < i ==> #[trigger] lines@[j]@ == numbered_line(j as nat, names@[j]@),
        decreases names@.len() - i,
    {
        let mut line = "  ".to_owned();
        let number = decimal_string((i as u128) + 1);
        line.append(number.as_str());
        line.append(") ");
        line.append(names[i].as_str());
        assert(line@ =~= numbered_line(i as nat, names@[i as int]@));
        lines.push(line);
        i = i + 1;
    }
    lines
}

/// What `list-collections` prints: the numbered names, or a note that the database has none.
pub fn collection_listing(dbname: &str, names: &Vec<String>) -> (lines: Vec<String>)
    ensures
        names@.len() == 0 ==> lines@.len() == 1 && lines@[0]@ == "No collections in "@ + dbname@,
        names@.len() > 0 ==> lines@.len() == names@.len() && (forall|i: int|
            0 <= i < names@.len() ==> #[trigger] lines@[i]@ == numbered_line(i as nat, names@[i]@)),
{
    if names.len() == 0 {
        let mut line = "No collections in ".to_owned();
        line.append(dbname);
        proof {
            reveal_strlit("No collections in ");
        }
        let mut lines: Vec<String> = Vec::new();
        lines.push(line);
        lines
    } else {
        numbered_lines(names)
    }
}

/// The note printed when no document of a collection was found (`filtered`: with a filter).
pub open spec fn no_documents_text(dbname: Seq<char>, collname: Seq<char>, filtered: bool) -> Seq<char> {
    "No documents in "@ + dbname + "."@ + collname + (if filtered {
        " matched the filter"@
    } else {
        Seq::<char>::empty()
    })
}

/// What `example` and `example-filtered` print when no document was found.
pub fn no_documents_message(dbname: &str, collname: &str, filtered: bool) -> (m: String)
    ensures
        m@ == no_documents_text(dbname@, collname@, filtered),
{
    let mut m = "No documents in ".to_owned();
    m.append(dbname);
    m.append(".");
    m.append(collname);
    if filtered {
        m.append(" matched the filter");
    }
    proof {
        reveal_strlit("No documents in ");
        reveal_strlit(".");
        reveal_strlit(" matched the filter");
    }
    assert(m@ =~= no_documents_text(dbname@, collname@, filtered));
    m
}

/// What `serde_json::from_str::<serde_json::Value>` gives for a text: the parsed value, or
/// the display text of the error when the text is not JSON.
pub uninterp spec fn json_parse(text: Seq<char>) -> Result<serde_json::Value, Seq<char>>;

/// What `mongodb::bson::to_document` gives for a JSON value: the document, or the display
/// text of the error when the value cannot be one.
pub uninterp spec fn bson_document(v: serde_json::Value) -> Result<Document, Seq<char>>;

/// Calls `serde_json::from_str::<serde_json::Value>`. Claimed: the outcome is `json_parse`
/// of the text, with the error taken by its display text.
#[verifier::external_body]
fn parse_json(text: &str) -> (r: Result<serde_json::Value, String>)
    ensures
        r matches Ok(v) ==> json_parse(text@) == (Ok::<serde_json::Value, Seq<char>>(v)),
        r matches Err(m) ==> json_parse(text@) == (Err::<serde_json::Value, Seq<char>>(m@)),
{
    match serde_json::from_str::<serde_json::Value>(text) {
        Ok(v) => Ok(v),
        Err(e) => Err(e.to_string()),
    }
}

/// Calls `mongodb::bson::to_document` on a JSON value. Claimed: the outcome is
/// `bson_document` of the value, with the error taken by its display text.
#[verifier::external_body]
fn json_to_document(v: &serde_json::Value) -> (r: Result<Document, String>)
    ensures
        r matches Ok(d) ==> bson_document(*v) == (Ok::<Document, Seq<char>>(d)),
        r matches Err(m) ==> bson_document(*v) == (Err::<Document, Seq<char>>(m@)),
{
    match mongodb::bson::to_document(v) {
        Ok(d) => Ok(d),
        Err(e) => Err(e.to_string()),
    }
}

/// The message for a filter that is not JSON.
pub open spec fn parse_failure_text(error: Seq<char>, filter: Seq<char>) -> Seq<char> {
    "Failed to parse JSON string: "@ + error + "; Filter string: "@ + filter
}

/// The message for a JSON value that is not a BSON document.
pub open spec fn conversion_failure_text(error: Seq<char>) -> Seq<char> {
    "Failed to convert JSON Value to BSON Document: "@ + error
}

/// What the conversion of a parsed filter into a document answers: the document, or the
/// conversion error with its explanation.
pub fn conversion_result(r: Result<Document, String>) -> (out: Result<Document, String>)
    ensures
        r is Ok ==> out == r,
        r matches Err(e) ==> (out matches Err(m) && m@ == conversion_failure_text(e@)),
{
    match r {
        Ok(d) => Ok(d),
        Err(e) => {
            let mut m = "Failed to convert JSON Value to BSON Document: ".to_owned();
            m.append(e.as_str());
            proof {
                reveal_strlit("Failed to convert JSON Value to BSON Document: ");
            }
            Err(m)
        },
    }
}

/// What a filter written in JSON becomes: the document that its parsed value converts to,
/// or the message that explains why it is not JSON or not a document.
pub open spec fn filter_document(text: Seq<char>) -> Result<Document, Seq<char>> {
    match json_parse(text) {
        Err(e) => Err(parse_failure_text(e, text)),
        Ok(v) => match bson_document(v) {
            Ok(d) => Ok(d),
            Err(e) => Err(conversion_failure_text(e)),
        },
    }
}

/// Turns a filter written in JSON into a BSON document.
pub fn string_to_bson_doc(s: &str) -> (r: Result<Document, String>)
    ensures
        r matches Ok(d) ==> filter_document(s@) == (Ok::<Document, Seq<char>>(d)),
        r matches Err(m) ==> filter_document(s@) == (Err::<Document, Seq<char>>(m@)),
{
    let value = match parse_json(s) {
        Ok(v) => v,
        Err(e) => {
            let mut m = "Failed to parse JSON string: ".to_owned();
            m.append(e.as_str());
            m.append("; Filter string: ");
            m.append(s);
            proof {
                reveal_strlit("Failed to parse JSON string: ");
                reveal_strlit("; Filter string: ");
            }
            assert(m@ =~= parse_failure_text(e@, s@));
            return Err(m);
        },
    };
    conversion_result(json_to_document(&value))
}

/// Line `i` of a numbered list is two spaces, the number `i + 1` in decimal digits, `) `
/// and the item: the digits, read back as a decimal integer, give `i + 1`.
pub proof fn lemma_numbered_line_reads_back(i: nat, item: Seq<char>)
    ensures
        exists|d: Seq<char>|
            all_digits(d) && digits_value(d) == i + 1 && numbered_line(i, item) == "  "@ + d
                + ") "@ + item,
{
    lemma_decimal_reads_back(i + 1);
    let d = decimal(i + 1);
    assert(all_digits(d) && digits_value(d) == i + 1 && numbered_line(i, item) == "  "@ + d
        + ") "@ + item);
}

/// A filter is turned into exactly what the outside calls give: the document that
/// `to_document` makes of the value that `from_str` parsed, or the explained error of
/// whichever call failed. Two texts that parse to the same value give the same outcome.
pub proof fn lemma_filter_follows_outside_calls(t: Seq<char>, t2: Seq<char>)
    ensures
        match json_parse(t) {
            Ok(v) => match bson_document(v) {
                Ok(d) => filter_document(t) == (Ok::<Document, Seq<char>>(d)),
                Err(e) => filter_document(t) == (Err::<Document, Seq<char>>(conversion_failure_text(e))),
            },
            Err(e) => filter_document(t) == (Err::<Document, Seq<char>>(parse_failure_text(e, t))),
        },
        json_parse(t) is Ok && json_parse(t2) == json_parse(t) ==> filter_document(t2) == filter_document(t),
{
}

} // verus!
