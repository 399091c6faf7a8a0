//! Reading entries from delimited text.

use vstd::prelude::*;
use vstd::utf8::encode_utf8;
use crate::entry::Entry;
use crate::error::TreeError;
use crate::hashing::keccak256_digest;

verus! {

/// The csv crate's error, carried from the reader to where it is mapped to a
/// failure of this library.
#[verifier::external_type_specification]
#[verifier::external_body]
pub struct ExCsvError(csv::Error);

/// What the csv crate reads from a byte string with its default settings: for
/// each record after the header row its first field, if it has one; nothing
/// where the crate reports an error.
pub uninterp spec fn csv_first_fields(source: Seq<u8>) -> Option<Seq<Option<Seq<char>>>>;

/// The fields as text.
pub open spec fn field_texts(fields: Seq<Option<String>>) -> Seq<Option<Seq<char>>> {
    Seq::new(
        fields.len(),
        |i: int|
            match fields[i] {
                Some(field) => Some(field@),
                None => None,
            },
    )
}

/// Calls `csv::ReaderBuilder::new().from_reader` on the bytes and walks the
/// reader's `records`, taking `get(0)` of each. Trusted: the outcome is a
/// function of the bytes alone.
#[verifier::external_body]
fn read_first_fields(source: &[u8]) -> (r: Result<Vec<Option<String>>, csv::Error>)
    ensures
        match r {
            Ok(fields) => csv_first_fields(source@) == Some(field_texts(fields@)),
            Err(_) => csv_first_fields(source@) is None,
        },
{
    let mut reader = csv::ReaderBuilder::new().from_reader(source);
    let mut fields = Vec::new();
    for record in reader.records() {
        fields.push(record?.get(0).map(|field| field.to_string()));
    }
    Ok(fields)
}

/// Whether `entries` are the entries made of the given identifiers, in order.
pub open spec fn are_entries_of(entries: Seq<Entry>, fields: Seq<Option<Seq<char>>>) -> bool {
    &&& entries.len() == fields.len()
    &&& forall|i: int|
        0 <= i < entries.len() ==> {
            &&& fields[i] == Some((#[trigger] entries[i]).text())
            &&& entries[i].digest() == keccak256_digest(encode_utf8(entries[i].text()))
        }
}

/// Whether `r` is what the first fields of a record source give: an entry for
/// each, or a failure where a record has no first field.
pub open spec fn is_outcome_of_fields(
    r: Result<Vec<Entry>, TreeError>,
    fields: Seq<Option<Seq<char>>>,
) -> bool {
    match r {
        Ok(entries) => are_entries_of(entries@, fields),
        Err(e) => e == TreeError::MissingDataColumn && exists|i: int|
            0 <= i < fields.len() && #[trigger] fields[i] is None,
    }
}

/// Makes one entry for each first field.
pub fn entries_from_fields(fields: &Vec<Option<String>>) -> (r: Result<Vec<Entry>, TreeError>)
    ensures
        is_outcome_of_fields(r, field_texts(fields@)),
{
    let mut entries: Vec<Entry> = Vec::new();
    let mut i: usize = 0;
    while i < fields.len()
        invariant
            i <= fields@.len(),
            are_entries_of(entries@, field_texts(fields@).subrange(0, i as int)),
        decreases fields@.len() - i,
    {
        match &fields[i] {
            Some(field) => {
                let entry = Entry::new(field.clone());
                entries.push(entry);
            },
            None => {
                assert(field_texts(fields@)[i as int] is None);
                return Err(TreeError::MissingDataColumn);
            },
        }
        i += 1;
    }
    assert(field_texts(fields@).subrange(0, i as int) =~= field_texts(fields@));
    Ok(entries)
}

/// Reads the entries of a record source: one for the first column of each
/// record after the header row.
pub fn parse_csv_to_entries(source: &[u8]) -> (r: Result<Vec<Entry>, TreeError>)
    ensures
        match csv_first_fields(source@) {
            Some(fields) => is_outcome_of_fields(r, fields),
            None => r == Err::<Vec<Entry>, TreeError>(TreeError::Ingestion),
        },
{
    match read_first_fields(source) {
        Ok(fields) => entries_from_fields(&fields),
        Err(_) => Err(TreeError::Ingestion),
    }
}

} // verus!
