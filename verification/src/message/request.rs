//! The kinds of request a `Request` carries.
use vstd::prelude::*;

use crate::message::{AppendRequest, VoteRequest};

verus! {

/// What a `Request` asks for.
#[derive(Clone, Debug, PartialEq, Eq)]
pub enum Requests {
    Vote(VoteRequest),
    Append(AppendRequest),
}

} // verus!
