//! The request record that the admission layer hands to the scheduler.

use crate::engine::types::{Priority, RequestId};
use vstd::prelude::*;

verus! {

/// Where a request stands in its life.
#[derive(Debug, Clone, Copy, PartialEq, Eq, Structural)]
pub enum RequestStatus {
    /// Admitted, not yet processed.
    Waiting,
    /// Being processed, in prefill or in decode.
    Running,
    /// Ended by itself; its resources are released.
    Finished,
    /// Ended by the driver; its resources are released.
    Aborted,
}

/// Parameters of generation that the scheduler keeps.
#[derive(Debug, Clone, Copy)]
pub struct GenerationParams {
    /// Largest number of tokens to generate.
    pub max_tokens: usize,
}

/// A request as the admission layer hands it over.
#[derive(Debug, Clone)]
pub struct EngineCoreRequest {
    /// Caller-chosen unique name.
    pub id: RequestId,
    /// A larger value is served first under the priority policy.
    pub priority: Priority,
    /// Reading of a monotonic clock at arrival.
    pub arrival_time: u64,
    /// The tokens of the prompt.
    pub prompt_tokens: Vec<u32>,
    pub params: GenerationParams,
}

impl EngineCoreRequest {
    /// A request with the given prompt.
    pub fn new(
        id: RequestId,
        priority: Priority,
        arrival_time: u64,
        prompt_tokens: Vec<u32>,
        max_tokens: usize,
    ) -> (request: Self)
        ensures
            request.id == id,
            request.priority == priority,
            request.arrival_time == arrival_time,
            request.prompt_tokens == prompt_tokens,
            request.params.max_tokens == max_tokens,
    {
        EngineCoreRequest {
            id,
            priority,
            arrival_time,
            prompt_tokens,
            params: GenerationParams { max_tokens },
        }
    }

    /// Length of the prompt in tokens.
    pub fn num_prompt_tokens(&self) -> (n: usize)
        ensures
            n == self.prompt_tokens@.len(),
    {
        self.prompt_tokens.len()
    }
}

} // verus!
