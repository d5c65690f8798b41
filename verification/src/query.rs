//! The decisions around a range query: the query window, and the
//! classification of what came back. The request itself is I/O and
//! lives outside the library.

use vstd::prelude::*;

verus! {

/// Why a fetched result is unusable: the response was not a range
/// matrix, or the matrix held no series.
#[derive(Clone, Copy, PartialEq, Eq, Structural, Debug)]
pub enum FetchError {
    NotMatrix,
    EmptyResult,
}

impl FetchError {
    /// The user-visible description of the error.
    pub fn message(&self) -> (m: String)
        ensures
            self is NotMatrix ==> m@ == "range vector not found"@,
            self is EmptyResult ==> m@ == "empty result"@,
    {
        let mut s = String::new();
        match self {
            FetchError::NotMatrix => {
                s.append("range vector not found");
                proof {
                    assert(s@ =~= "range vector not found"@);
                }
            },
            FetchError::EmptyResult => {
                s.append("empty result");
                proof {
                    assert(s@ =~= "empty result"@);
                }
            },
        }
        s
    }
}

/// The window of a range query issued now: it starts the lookback
/// duration (in minutes) before `now_s` and ends at `now_s`, both in
/// whole seconds.
pub fn query_window(now_s: i64, duration_minutes: u8) -> (w: (i64, i64))
    requires
        now_s as int - 15300 >= i64::MIN,
    ensures
        w.0 == now_s - duration_minutes as int * 60,
        w.1 == now_s,
{
    (now_s - (duration_minutes as i64) * 60, now_s)
}

/// Classifies a fetched response: usable exactly when it was a matrix
/// with at least one series; otherwise the reason.
pub fn check_result(matrix_found: bool, series_count: usize) -> (r: Result<(), FetchError>)
    ensures
        r is Ok <==> matrix_found && series_count > 0,
        !matrix_found ==> (r matches Err(e) && e is NotMatrix),
        matrix_found && series_count == 0 ==> (r matches Err(e) && e is EmptyResult),
{
    if !matrix_found {
        Err(FetchError::NotMatrix)
    } else if series_count == 0 {
        Err(FetchError::EmptyResult)
    } else {
        Ok(())
    }
}

} // verus!
