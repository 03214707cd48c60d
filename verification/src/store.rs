//! Schema handling for the tabular record files.
//!
//! The delimited-file mechanics (reading, splitting, writing) live with
//! the caller; this module holds what is decidable about the data alone:
//! locating a named column in a header, and converting between a record
//! and a row of cells under the record schema.  An absent optional field
//! is stored as an empty cell, so a present-but-empty text field and an
//! absent one share one representation.

use crate::errors::LoadError;
use crate::index::cell_views;
use crate::numbers::{dec_digits, digits_val, id_digits, parse_id, u64_to_string};
use crate::record::{opt_view, Reviewer, ReviewerV};
use vstd::prelude::*;
use vstd::string::{StrSliceExecFns, StringExecFns};

verus! {

/// The position of the first header cell equal to `name`.
pub open spec fn col_of(h: Seq<Seq<char>>, name: Seq<char>) -> Option<int>
    decreases h.len(),
{
    if h.len() == 0 {
        None
    } else if h[0] == name {
        Some(0int)
    } else {
        match col_of(h.skip(1), name) {
            Some(i) => Some(i + 1),
            None => None,
        }
    }
}

/// What `col_of` finds is the leftmost match; what it misses is absent.
pub proof fn lemma_col_of(h: Seq<Seq<char>>, name: Seq<char>)
    ensures
        match col_of(h, name) {
            Some(i) => 0 <= i < h.len() && h[i] == name && forall|j: int|
                0 <= j < i ==> h[j] != name,
            None => forall|j: int| 0 <= j < h.len() ==> h[j] != name,
        },
    decreases h.len(),
{
    if h.len() > 0 && h[0] != name {
        lemma_col_of(h.skip(1), name);
        match col_of(h.skip(1), name) {
            Some(i) => {
                assert(h[i + 1] == h.skip(1)[i]);
                assert forall|j: int| 0 <= j < i + 1 implies h[j] != name by {
                    if j > 0 {
                        assert(h[j] == h.skip(1)[j - 1]);
                    }
                }
            },
            None => {
                assert forall|j: int| 0 <= j < h.len() implies h[j] != name by {
                    if j > 0 {
                        assert(h[j] == h.skip(1)[j - 1]);
                    }
                }
            },
        }
    }
}

/// Finds the position of the column named `name` in the header row.
pub fn column_index(headers: &Vec<String>, name: &str) -> (r: Option<usize>)
    ensures
        match r {
            Some(i) => col_of(cell_views(headers@), name@) == Some(i as int),
            None => col_of(cell_views(headers@), name@) is None,
        },
{
    let ghost h = cell_views(headers@);
    let needle = String::from_str(name);
    let mut i: usize = 0;
    while i < headers.len()
        invariant
            h == cell_views(headers@),
            h.len() == headers@.len(),
            needle@ == name@,
            i <= headers@.len(),
            forall|j: int| 0 <= j < i ==> h[j] != name@,
        decreases headers@.len() - i,
    {
        if headers[i] == needle {
            proof {
                assert(h[i as int] == name@);
                lemma_col_of(h, name@);
                match col_of(h, name@) {
                    Some(w) => {
                        assert(w <= i);
                        assert(w == i);
                    },
                    None => {
                        assert(false);
                    },
                }
            }
            return Some(i);
        }
        i += 1;
    }
    proof {
        lemma_col_of(h, name@);
    }
    None
}

/// The cell text of an optional field: the text, or an empty cell.
pub open spec fn cell_of(o: Option<Seq<char>>) -> Seq<char> {
    match o {
        None => Seq::empty(),
        Some(s) => s,
    }
}

/// The row of a record under the schema: the paper id in decimal, then
/// the five text fields in order, absent ones as empty cells.
pub open spec fn row_spec(r: ReviewerV) -> Seq<Seq<char>> {
    seq![
        dec_digits(r.paper_id as nat),
        cell_of(r.raw_name),
        cell_of(r.first_name),
        cell_of(r.last_name),
        cell_of(r.institution),
        cell_of(r.email),
    ]
}

/// Clones an optional string into its cell text.
fn cell_string(o: &Option<String>) -> (r: String)
    ensures
        r@ == cell_of(opt_view(*o)),
{
    match o {
        None => String::new(),
        Some(s) => s.clone(),
    }
}

/// Serializes one record to its row of cells.
pub fn record_to_row(r: &Reviewer) -> (row: Vec<String>)
    ensures
        cell_views(row@) == row_spec(r@),
{
    let mut row: Vec<String> = Vec::new();
    row.push(u64_to_string(r.paper_id));
    row.push(cell_string(&r.raw_name));
    row.push(cell_string(&r.first_name));
    row.push(cell_string(&r.last_name));
    row.push(cell_string(&r.institution));
    row.push(cell_string(&r.email));
    proof {
        assert(cell_views(row@) =~= row_spec(r@));
    }
    row
}

/// An optional field as read back from a row: the cell under the named
/// column, if that column exists and the cell is non-empty.
pub open spec fn field_from_row(h: Seq<Seq<char>>, row: Seq<Seq<char>>, name: Seq<char>) -> Option<
    Seq<char>,
> {
    match col_of(h, name) {
        None => None,
        Some(ci) => if 0 <= ci < row.len() && row[ci].len() > 0 {
            Some(row[ci])
        } else {
            None
        },
    }
}

/// The record read from one row under the given header: the paper-id
/// column must exist and hold a number, the row must be as wide as the
/// header, and each text field comes from its column when present.
pub open spec fn record_from_row_spec(h: Seq<Seq<char>>, row: Seq<Seq<char>>) -> Result<
    ReviewerV,
    LoadError,
> {
    match col_of(h, "paper_id"@) {
        None => Err(LoadError::SchemaError),
        Some(pi) => if row.len() != h.len() {
            Err(LoadError::ParseError)
        } else if !(id_digits(row[pi]).len() > 0 && crate::numbers::all_digits(
            id_digits(row[pi]),
        ) && digits_val(id_digits(row[pi])) <= u64::MAX) {
            Err(LoadError::ParseError)
        } else {
            Ok(
                ReviewerV {
                    paper_id: digits_val(id_digits(row[pi])) as u64,
                    raw_name: field_from_row(h, row, "raw_name"@),
                    first_name: field_from_row(h, row, "first_name"@),
                    last_name: field_from_row(h, row, "last_name"@),
                    institution: field_from_row(h, row, "institution"@),
                    email: field_from_row(h, row, "email"@),
                },
            )
        },
    }
}

/// Reads one optional field out of a row.
fn field_cell(headers: &Vec<String>, row: &Vec<String>, name: &str) -> (r: Option<String>)
    requires
        row@.len() == headers@.len(),
    ensures
        opt_view(r) == field_from_row(cell_views(headers@), cell_views(row@), name@),
{
    let ghost h = cell_views(headers@);
    match column_index(headers, name) {
        None => None,
        Some(ci) => {
            proof {
                lemma_col_of(h, name@);
            }
            let cell = &row[ci];
            if cell.as_str().unicode_len() > 0 {
                Some(cell.clone())
            } else {
                None
            }
        },
    }
}

/// Deserializes one row under the given header into a record.
pub fn row_to_record(headers: &Vec<String>, row: &Vec<String>) -> (r: Result<Reviewer, LoadError>)
    ensures
        match r {
            Ok(rec) => record_from_row_spec(cell_views(headers@), cell_views(row@)) == Ok::<
                _,
                LoadError,
            >(rec@),
            Err(e) => record_from_row_spec(cell_views(headers@), cell_views(row@)) == Err::<
                ReviewerV,
                _,
            >(e),
        },
{
    let ghost h = cell_views(headers@);
    let ghost rv = cell_views(row@);
    let pi = match column_index(headers, "paper_id") {
        Some(pi) => pi,
        None => {
            return Err(LoadError::SchemaError);
        },
    };
    proof {
        lemma_col_of(h, "paper_id"@);
    }
    if row.len() != headers.len() {
        return Err(LoadError::ParseError);
    }
    let id = match parse_id(row[pi].as_str()) {
        Some(id) => id,
        None => {
            return Err(LoadError::ParseError);
        },
    };
    let rec = Reviewer {
        paper_id: id,
        raw_name: field_cell(headers, row, "raw_name"),
        first_name: field_cell(headers, row, "first_name"),
        last_name: field_cell(headers, row, "last_name"),
        institution: field_cell(headers, row, "institution"),
        email: field_cell(headers, row, "email"),
    };
    Ok(rec)
}

/// The header row of the record schema, in field order.
pub open spec fn schema_headers() -> Seq<Seq<char>> {
    seq![
        "paper_id"@,
        "raw_name"@,
        "first_name"@,
        "last_name"@,
        "institution"@,
        "email"@,
    ]
}

/// Whether a record survives the cell representation unchanged: every
/// present text field is non-empty (an empty one would read back as
/// absent, since absence is stored as an empty cell).
pub open spec fn storable(r: ReviewerV) -> bool {
    &&& (r.raw_name matches Some(s) ==> s.len() > 0)
    &&& (r.first_name matches Some(s) ==> s.len() > 0)
    &&& (r.last_name matches Some(s) ==> s.len() > 0)
    &&& (r.institution matches Some(s) ==> s.len() > 0)
    &&& (r.email matches Some(s) ==> s.len() > 0)
}

/// Locates one schema column by elimination: the header holds the name
/// at `i` and nowhere else, so the leftmost match is `i`.
proof fn lemma_schema_col(name: Seq<char>, i: int)
    requires
        0 <= i < schema_headers().len(),
        schema_headers()[i] == name,
        forall|j: int| 0 <= j < schema_headers().len() && j != i ==> schema_headers()[j] != name,
    ensures
        col_of(schema_headers(), name) == Some(i),
{
    let h = schema_headers();
    lemma_col_of(h, name);
    match col_of(h, name) {
        Some(w) => {
            assert(w == i);
        },
        None => {
            assert(h[i] == name);
        },
    }
}

/// Round trip through the file representation: a storable record written
/// as a row under the schema header reads back as itself.
pub proof fn lemma_row_round_trip(r: ReviewerV)
    requires
        storable(r),
    ensures
        record_from_row_spec(schema_headers(), row_spec(r)) == Ok::<_, LoadError>(r),
{
    reveal_strlit("paper_id");
    reveal_strlit("raw_name");
    reveal_strlit("first_name");
    reveal_strlit("last_name");
    reveal_strlit("institution");
    reveal_strlit("email");
    let h = schema_headers();
    let row = row_spec(r);
    // the six field names start with six distinct characters
    assert("paper_id"@[0] == 'p');
    assert("raw_name"@[0] == 'r');
    assert("first_name"@[0] == 'f');
    assert("last_name"@[0] == 'l');
    assert("institution"@[0] == 'i');
    assert("email"@[0] == 'e');
    lemma_schema_col("paper_id"@, 0);
    lemma_schema_col("raw_name"@, 1);
    lemma_schema_col("first_name"@, 2);
    lemma_schema_col("last_name"@, 3);
    lemma_schema_col("institution"@, 4);
    lemma_schema_col("email"@, 5);
    crate::numbers::lemma_dec_digits_val(r.paper_id as nat);
    assert(id_digits(row[0]) == row[0]) by {
        assert(crate::numbers::is_digit(row[0][0]));
    }
    assert(record_from_row_spec(h, row)->Ok_0 == r);
}

} // verus!
