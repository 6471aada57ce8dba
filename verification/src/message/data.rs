//! The kinds of message a `Data` envelope carries.
use vstd::prelude::*;

use crate::message::{AppendRequest, Response, VoteRequest};

verus! {

/// What a `Data` envelope holds.
#[derive(Clone, Debug, PartialEq, Eq)]
pub enum MsgType {
    Vote(VoteRequest),
    Append(AppendRequest),
    Response(Response),
}

} // verus!
