//! The databases that rows can be read from, and what their cursors
//! share.

pub mod mysql;
pub mod postgres;

use vstd::prelude::*;
use vstd::string::StringExecFns;
use crate::definitions::{ConversionError, ValueView};

verus! {

/// Whether a cursor is exhausted after a pull: it is once a pull found no
/// row, and stays so.
pub open spec fn exhausted_after(exhausted: bool, fetched: nat) -> bool {
    exhausted || fetched == 0
}

/// What a pull gives where `fetched` rows were fetched for it and
/// `converted` is their canonical form: nothing once the cursor is
/// exhausted or where no row was fetched; a refusal where more rows were
/// fetched than a batch may hold; else the converted rows, or the failure
/// of the first row that has no canonical form.
pub open spec fn pulled(
    exhausted: bool,
    batch_size: u64,
    fetched: nat,
    converted: Result<Seq<Seq<ValueView>>, ConversionError>,
) -> Result<Option<Seq<Seq<ValueView>>>, ConversionError> {
    if exhausted || fetched == 0 {
        Ok(None)
    } else if fetched > batch_size {
        Err(ConversionError::TooManyRows)
    } else {
        match converted {
            Ok(rows) => Ok(Some(rows)),
            Err(e) => Err(e),
        }
    }
}

/// The number of rows to fetch for a pull: none once the cursor is
/// exhausted, else as many as a batch may hold, as far as they can be
/// counted.
pub open spec fn rows_to_fetch(exhausted: bool, batch_size: u64) -> int {
    if exhausted {
        0
    } else if batch_size <= usize::MAX {
        batch_size as int
    } else {
        usize::MAX as int
    }
}

/// The query that counts the rows of another query.
pub open spec fn count_query_of(query: Seq<char>) -> Seq<char> {
    "select count(*) from ("@ + query + ") q"@
}

/// The query that counts the rows of another query: the query wrapped
/// into `select count(*) from (..) q`.
pub fn wrap_for_count(query: &str) -> (r: String)
    ensures
        r@ == count_query_of(query@),
{
    let mut text = String::from_str("select count(*) from (");
    text.append(query);
    text.append(") q");
    text
}

} // verus!
