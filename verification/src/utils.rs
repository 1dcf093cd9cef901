//! How a failed query is reported.

use vstd::prelude::*;
use vstd::string::StringExecFns;
use crate::text::{occurs_at, occurs_in};

verus! {

/// The exit code of the tool after a failed connection or query.
pub const FAILURE_EXIT_CODE: i32 = 1;

/// The report of a failed query: a heading, the text of the query as it
/// was sent, and what the server answered.
pub open spec fn query_error_report(query: Seq<char>, error: Seq<char>) -> Seq<char> {
    "Error while running the query:\n"@ + query + "\n"@ + error
}

/// The report of a failed query holds the text of the query.
pub proof fn lemma_report_holds_query(query: Seq<char>, error: Seq<char>)
    ensures
        occurs_in(query, query_error_report(query, error)),
{
    let head = "Error while running the query:\n"@;
    let report = query_error_report(query, error);
    assert(report.subrange(head.len() as int, head.len() as int + query.len() as int) =~= query);
    assert(occurs_at(query, report, head.len() as int));
}

/// The report of a failed query.
pub fn report_query_error(query: &str, error: &str) -> (r: String)
    ensures
        r@ == query_error_report(query@, error@),
        occurs_in(query@, r@),
{
    let mut report = String::from_str("Error while running the query:\n");
    report.append(query);
    report.append("\n");
    report.append(error);
    proof {
        lemma_report_holds_query(query@, error@);
    }
    report
}

/// Why the tool stops: what it tells the user and the code it exits with.
#[derive(Clone, Debug, PartialEq, Eq)]
pub struct Failure {
    pub message: String,
    pub exit_code: i32,
}

/// The end of the tool after a failed query: the report of the query, and
/// exit code 1.
pub fn query_failure(query: &str, error: &str) -> (r: Failure)
    ensures
        r.message@ == query_error_report(query@, error@),
        occurs_in(query@, r.message@),
        r.exit_code == FAILURE_EXIT_CODE,
{
    Failure { message: report_query_error(query, error), exit_code: FAILURE_EXIT_CODE }
}

} // verus!
