//! The submission index: paper id to flattened submission row.
//!
//! Each auxiliary submission row contributes one entry keyed by the
//! number in its paper-id column, the value being the whole row joined by
//! commas.  A later row with the same id overwrites an earlier one; a row
//! too short to have the id column is skipped; a non-numeric id is an
//! error.

use crate::errors::LoadError;
use crate::numbers::{all_digits, digits_val, id_digits, parse_id};
use crate::record::{views, Reviewer, ReviewerV};
use std::collections::HashMap;
use vstd::prelude::*;
use vstd::string::{StrSliceExecFns, StringExecFns};

verus! {

broadcast use vstd::std_specs::hash::group_hash_axioms;

/// The views of one row's cells.
pub open spec fn cell_views(row: Seq<String>) -> Seq<Seq<char>> {
    row.map_values(|c: String| c@)
}

/// A whole row joined into one line by commas.
pub open spec fn joined_row(row: Seq<Seq<char>>) -> Seq<char>
    decreases row.len(),
{
    if row.len() == 0 {
        Seq::empty()
    } else if row.len() == 1 {
        row[0]
    } else {
        joined_row(row.drop_last()) + seq![','] + row.last()
    }
}

/// Whether a cell is a well-formed paper id: an optional leading plus
/// sign, then a non-empty digit string whose value fits in the id type.
pub open spec fn id_cell_ok(cell: Seq<char>) -> bool {
    id_digits(cell).len() > 0 && all_digits(id_digits(cell)) && digits_val(id_digits(cell))
        <= u64::MAX
}

/// The index built from the given rows, later rows overwriting earlier
/// ones; or the error for the first non-numeric id cell.
pub open spec fn index_spec(rows: Seq<Seq<Seq<char>>>, idx: int) -> Result<
    Map<u64, Seq<char>>,
    LoadError,
>
    decreases rows.len(),
{
    if rows.len() == 0 {
        Ok(Map::empty())
    } else {
        match index_spec(rows.drop_last(), idx) {
            Err(e) => Err(e),
            Ok(m) => {
                let row = rows.last();
                if idx >= row.len() {
                    Ok(m)
                } else if id_cell_ok(row[idx]) {
                    Ok(m.insert(digits_val(id_digits(row[idx])) as u64, joined_row(row)))
                } else {
                    Err(LoadError::ParseError)
                }
            },
        }
    }
}

/// The views of a table of rows.
pub open spec fn table_views(rows: Seq<Vec<String>>) -> Seq<Seq<Seq<char>>> {
    rows.map_values(|r: Vec<String>| cell_views(r@))
}

/// The model of an index value: the map with its values viewed.
pub open spec fn index_view(m: Map<u64, String>) -> Map<u64, Seq<char>> {
    m.map_values(|v: String| v@)
}

/// Joins a row's cells into one line with comma separators.
fn join_row(row: &Vec<String>) -> (r: String)
    ensures
        r@ == joined_row(cell_views(row@)),
{
    let ghost cv = cell_views(row@);
    let mut out = String::new();
    let mut i: usize = 0;
    proof {
        assert(cv.take(0) =~= Seq::<Seq<char>>::empty());
    }
    while i < row.len()
        invariant
            cv == cell_views(row@),
            cv.len() == row@.len(),
            i <= row@.len(),
            out@ == joined_row(cv.take(i as int)),
        decreases row@.len() - i,
    {
        if i > 0 {
            out.push(',');
        }
        out.append(row[i].as_str());
        proof {
            let t = cv.take(i as int + 1);
            assert(t.drop_last() =~= cv.take(i as int));
            assert(t.last() == cv[i as int]);
            if i == 0 {
                assert(out@ =~= joined_row(t));
            } else {
                assert(out@ =~= joined_row(cv.take(i as int)) + seq![','] + cv[i as int]);
            }
        }
        i += 1;
    }
    proof {
        assert(cv.take(cv.len() as int) =~= cv);
    }
    out
}

/// Builds the submission index from a table of rows, taking the paper id
/// from the column at `idx` in each row.
pub fn build_submission_index(rows: &Vec<Vec<String>>, idx: usize) -> (r: Result<
    HashMap<u64, String>,
    LoadError,
>)
    ensures
        match r {
            Ok(m) => index_spec(table_views(rows@), idx as int) == Ok::<_, LoadError>(
                index_view(m@),
            ),
            Err(e) => index_spec(table_views(rows@), idx as int) == Err::<
                Map<u64, Seq<char>>,
                _,
            >(e),
        },
{
    let ghost tv = table_views(rows@);
    let mut m: HashMap<u64, String> = HashMap::new();
    let mut i: usize = 0;
    proof {
        assert(tv.take(0) =~= Seq::<Seq<Seq<char>>>::empty());
        assert(index_view(m@) =~= Map::<u64, Seq<char>>::empty());
    }
    while i < rows.len()
        invariant
            tv == table_views(rows@),
            tv.len() == rows@.len(),
            i <= rows@.len(),
            index_spec(tv.take(i as int), idx as int) == Ok::<_, LoadError>(index_view(m@)),
        decreases rows@.len() - i,
    {
        let ghost t = tv.take(i as int + 1);
        proof {
            assert(t.drop_last() =~= tv.take(i as int));
            assert(t.last() == tv[i as int]);
        }
        let row = &rows[i];
        if idx < row.len() {
            match parse_id(row[idx].as_str()) {
                Some(id) => {
                    let line = join_row(row);
                    m.insert(id, line);
                    proof {
                        assert(id_cell_ok(tv[i as int][idx as int]));
                        assert(digits_val(id_digits(tv[i as int][idx as int])) == id as int);
                        assert(index_view(m@) =~= index_spec(
                            tv.take(i as int),
                            idx as int,
                        )->Ok_0.insert(id, joined_row(tv[i as int])));
                    }
                },
                None => {
                    proof {
                        assert(!id_cell_ok(tv[i as int][idx as int]));
                        assert(index_spec(t, idx as int) == Err::<Map<u64, Seq<char>>, _>(
                            LoadError::ParseError,
                        ));
                        assert(index_spec(tv, idx as int) == Err::<Map<u64, Seq<char>>, _>(
                            LoadError::ParseError,
                        )) by {
                            lemma_index_spec_err(tv, idx as int, i as int);
                        }
                    }
                    return Err(LoadError::ParseError);
                },
            }
        }
        i += 1;
    }
    proof {
        assert(tv.take(tv.len() as int) =~= tv);
    }
    Ok(m)
}

/// Once a prefix of the table fails, the whole table fails the same way.
proof fn lemma_index_spec_err(rows: Seq<Seq<Seq<char>>>, idx: int, i: int)
    requires
        0 <= i < rows.len(),
        index_spec(rows.take(i + 1), idx) is Err,
    ensures
        index_spec(rows, idx) == index_spec(rows.take(i + 1), idx),
    decreases rows.len() - i,
{
    if i + 1 < rows.len() {
        let t = rows.take(i + 2);
        assert(t.drop_last() =~= rows.take(i + 1));
        lemma_index_spec_err(rows, idx, i + 1);
    } else {
        assert(rows.take(i + 1) =~= rows);
    }
}

/// The context block of a batch: the indexed rows of the batch's paper
/// ids, in batch order, ids without an entry skipped, joined by newlines.
pub open spec fn context_spec(batch: Seq<ReviewerV>, m: Map<u64, Seq<char>>) -> Seq<char>
    decreases batch.len(),
{
    if batch.len() == 0 {
        Seq::empty()
    } else {
        let pre = context_spec(batch.drop_last(), m);
        if m.contains_key(batch.last().paper_id) {
            if any_found(batch.drop_last(), m) {
                pre + seq!['\n'] + m[batch.last().paper_id]
            } else {
                m[batch.last().paper_id]
            }
        } else {
            pre
        }
    }
}

/// Whether any record of the batch has an entry in the index.
pub open spec fn any_found(batch: Seq<ReviewerV>, m: Map<u64, Seq<char>>) -> bool {
    exists|k: int| 0 <= k < batch.len() && m.contains_key(#[trigger] batch[k].paper_id)
}

/// A batch with no indexed id has an empty context block.
proof fn lemma_context_none_found(batch: Seq<ReviewerV>, m: Map<u64, Seq<char>>)
    requires
        !any_found(batch, m),
    ensures
        context_spec(batch, m) == Seq::<char>::empty(),
    decreases batch.len(),
{
    if batch.len() > 0 {
        assert(!m.contains_key(batch.last().paper_id)) by {
            assert(batch[batch.len() - 1] == batch.last());
        }
        assert(!any_found(batch.drop_last(), m)) by {
            if any_found(batch.drop_last(), m) {
                let k = choose|k: int|
                    0 <= k < batch.drop_last().len() && m.contains_key(
                        #[trigger] batch.drop_last()[k].paper_id,
                    );
                assert(m.contains_key(batch[k].paper_id));
            }
        }
        lemma_context_none_found(batch.drop_last(), m);
    }
}

/// Collects the context block for one batch of records.
pub fn batch_context(batch: &Vec<Reviewer>, index: &HashMap<u64, String>) -> (r: String)
    ensures
        r@ == context_spec(views(batch@), index_view(index@)),
{
    let ghost bv = views(batch@);
    let ghost mv = index_view(index@);
    let mut out = String::new();
    let mut found = false;
    let mut i: usize = 0;
    proof {
        assert(bv.take(0) =~= Seq::<ReviewerV>::empty());
    }
    while i < batch.len()
        invariant
            bv == views(batch@),
            bv.len() == batch@.len(),
            mv == index_view(index@),
            i <= batch@.len(),
            out@ == context_spec(bv.take(i as int), mv),
            found == any_found(bv.take(i as int), mv),
        decreases batch@.len() - i,
    {
        let ghost t = bv.take(i as int + 1);
        proof {
            assert(t.drop_last() =~= bv.take(i as int));
            assert(t.last() == bv[i as int]);
        }
        let id = batch[i].paper_id;
        match index.get(&id) {
            Some(line) => {
                proof {
                    assert(mv.contains_key(id));
                    assert(line@ == mv[id]);
                }
                if found {
                    out.push('\n');
                }
                out.append(line.as_str());
                found = true;
                proof {
                    assert(any_found(t, mv)) by {
                        assert(t[t.len() - 1].paper_id == id);
                    }
                    if !any_found(bv.take(i as int), mv) {
                        lemma_context_none_found(bv.take(i as int), mv);
                    }
                    assert(out@ == context_spec(t, mv));
                }
            },
            None => {
                proof {
                    assert(!mv.contains_key(id));
                    assert(any_found(t, mv) == any_found(bv.take(i as int), mv)) by {
                        if any_found(t, mv) {
                            let k = choose|k: int|
                                0 <= k < t.len() && mv.contains_key(#[trigger] t[k].paper_id);
                            if k < t.len() - 1 {
                                assert(mv.contains_key(bv.take(i as int)[k].paper_id));
                            }
                        }
                    }
                }
            },
        }
        i += 1;
    }
    proof {
        assert(bv.take(bv.len() as int) =~= bv);
    }
    out
}

} // verus!
