//! Requests handed to the background worker.

use vstd::prelude::*;

verus! {

#[derive(Clone, Debug)]
pub enum AsyncJobRequest {
    Prompt(String),
}

} // verus!
