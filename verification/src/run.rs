//! The single success/failure decision of a run: what a response of a
//! given status and body turns into.

use vstd::prelude::*;

use crate::csvout;
use crate::json;
use crate::model::RunError;

verus! {

/// View of a processing result.
pub open spec fn result_view(r: Result<Option<Vec<u8>>, RunError>) -> Result<
    Option<Seq<u8>>,
    RunError,
> {
    match r {
        Ok(None) => Ok(None),
        Ok(Some(v)) => Ok(Some(v@)),
        Err(e) => Err(e),
    }
}

/// What processing a response must yield: nothing for a non-200 status;
/// for a 200 status, the rendered report, or the error that the body has
/// earned.
pub open spec fn expected_outcome(status: u16, body: Seq<u8>) -> Result<Option<Seq<u8>>, RunError> {
    if status != 200 {
        Ok(None)
    } else {
        match json::json_envelope(body) {
            None => Err(RunError::MalformedResponse),
            Some(e) => match csvout::csv_report(e) {
                None => Err(RunError::MissingUsdQuote),
                Some(v) => Ok(Some(v)),
            },
        }
    }
}

/// Turns one HTTP response into the bytes of the CSV report.
///
/// A non-200 status yields `Ok(None)`: no report is produced and no error
/// is raised. For a 200 status, a body that does not match the documented
/// schema yields `MalformedResponse`; a body in which some currency lacks
/// the settlement-currency quote yields `MissingUsdQuote`; any other body
/// yields the report.
pub fn process_response(status: u16, body: &Vec<u8>) -> (r: Result<Option<Vec<u8>>, RunError>)
    ensures
        result_view(r) == expected_outcome(status, body@),
        status != 200 ==> r == Ok::<Option<Vec<u8>>, RunError>(None),
{
    if status != 200 {
        return Ok(None);
    }
    let env = match json::parse_envelope(body) {
        None => return Err(RunError::MalformedResponse),
        Some(e) => e,
    };
    match csvout::write_csv(&env) {
        None => Err(RunError::MissingUsdQuote),
        Some(v) => Ok(Some(v)),
    }
}

} // verus!
