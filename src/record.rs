//! Rows of the reference table: accession, accession with version, taxonomic
//! identifier and gene identifier.
use crate::number::{field_number, parse_number};
use vstd::prelude::*;
use vstd::utf8::encode_utf8;

verus! {

/// One row of the reference table.
#[derive(Debug, PartialEq, Eq)]
pub struct Record {
    pub accession: String,
    pub accession_version: String,
    pub taxid: u64,
    pub gid: u64,
}

/// Why a row of the reference table was refused.
#[derive(Debug, Clone, Copy, PartialEq, Eq, Structural)]
pub enum RecordError {
    /// The row does not hold exactly four fields.
    FieldCount { found: usize },
    /// The third field is not an unsigned identifier.
    InvalidTaxid,
    /// The fourth field is not an unsigned identifier.
    InvalidGid,
}

/// The number of fields in a row.
pub const ROW_FIELDS: usize = 4;

/// What a row with the fields `f` reads as.
pub open spec fn row_ok(f: Seq<Seq<char>>, r: Record) -> bool {
    &&& f.len() == ROW_FIELDS
    &&& r.accession@ == f[0]
    &&& r.accession_version@ == f[1]
    &&& field_number(encode_utf8(f[2])) == Some(r.taxid)
    &&& field_number(encode_utf8(f[3])) == Some(r.gid)
}

/// The error for a row with the fields `f`, if it is refused.
pub open spec fn row_error(f: Seq<Seq<char>>) -> Option<RecordError> {
    if f.len() != ROW_FIELDS {
        Some(RecordError::FieldCount { found: f.len() as usize })
    } else if field_number(encode_utf8(f[2])) is None {
        Some(RecordError::InvalidTaxid)
    } else if field_number(encode_utf8(f[3])) is None {
        Some(RecordError::InvalidGid)
    } else {
        None
    }
}

/// Reads a row from its fields.
pub fn parse_fields(fields: &Vec<String>) -> (r: Result<Record, RecordError>)
    ensures
        match r {
            Ok(rec) => row_error(fields@.map_values(|s: String| s@)) is None && row_ok(
                fields@.map_values(|s: String| s@),
                rec,
            ),
            Err(e) => row_error(fields@.map_values(|s: String| s@)) == Some(e),
        },
{
    let ghost f = fields@.map_values(|s: String| s@);
    if fields.len() != ROW_FIELDS {
        return Err(RecordError::FieldCount { found: fields.len() });
    }
    let taxid = match parse_number(fields[2].as_str()) {
        Some(n) => n,
        None => {
            return Err(RecordError::InvalidTaxid);
        },
    };
    let gid = match parse_number(fields[3].as_str()) {
        Some(n) => n,
        None => {
            return Err(RecordError::InvalidGid);
        },
    };
    Ok(
        Record {
            accession: fields[0].clone(),
            accession_version: fields[1].clone(),
            taxid,
            gid,
        },
    )
}

#[verifier::external_type_specification]
#[verifier::external_body]
pub struct ExStringRecord(csv::StringRecord);

/// The fields of a row read by the csv reader.
pub uninterp spec fn fields_of(r: csv::StringRecord) -> Seq<Seq<char>>;

/// Relies on `csv::StringRecord::len`: the number of fields in the row.
#[verifier::external_body]
fn field_count(r: &csv::StringRecord) -> (n: usize)
    ensures
        n == fields_of(*r).len(),
{
    r.len()
}

/// Relies on `csv::StringRecord::get`: the field at index `i`, or `None`
/// past the last one.
#[verifier::external_body]
fn field_at(r: &csv::StringRecord, i: usize) -> (f: Option<String>)
    ensures
        i < fields_of(*r).len() ==> f is Some && f->0@ == fields_of(*r)[i as int],
        i >= fields_of(*r).len() ==> f is None,
{
    r.get(i).map(String::from)
}

/// Reads a row of the reference table as the csv reader split it.
pub fn parse_record(row: &csv::StringRecord) -> (r: Result<Record, RecordError>)
    ensures
        match r {
            Ok(rec) => row_error(fields_of(*row)) is None && row_ok(fields_of(*row), rec),
            Err(e) => row_error(fields_of(*row)) == Some(e),
        },
{
    let n = field_count(row);
    let mut fields: Vec<String> = Vec::new();
    let mut i: usize = 0;
    while i < n
        invariant
            n == fields_of(*row).len(),
            i <= n,
            fields@.len() == i,
            forall|k: int| 0 <= k < i ==> #[trigger] fields@[k]@ == fields_of(*row)[k],
        decreases n - i,
    {
        match field_at(row, i) {
            Some(f) => fields.push(f),
            None => {},
        }
        i = i + 1;
    }
    proof {
        assert(fields@.map_values(|s: String| s@) =~= fields_of(*row));
    }
    parse_fields(&fields)
}

} // verus!
