//! Results of building a user-defined function.
use vstd::prelude::*;

verus! {

/// The outcome of compiling a user-defined function: its errors, and on
/// success its name and where the built library lives.
#[derive(Clone, Debug, PartialEq, Eq)]
pub struct UdfResp {
    pub errors: Vec<String>,
    pub name: Option<String>,
    pub url: Option<String>,
}

impl UdfResp {
    /// A response carrying one error message and nothing else.
    pub fn from_error(message: String) -> (r: Self)
        ensures
            r.errors@ == seq![message],
            r.name is None,
            r.url is None,
    {
        UdfResp { errors: vec![message], name: None, url: None }
    }
}

} // verus!
