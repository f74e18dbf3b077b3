//! Wire-facing request and batch records.

use vstd::prelude::*;

verus! {

/// Sampling knobs carried with a request.
///
/// The continuous-valued knobs (`temperature`, `top_p`, `typical_p`,
/// `repetition_penalty`) travel as the raw bit patterns of their 32-bit wire
/// encoding. The scheduler never interprets any of these fields: it only
/// forwards them, unchanged, to the execution backend.
#[derive(Clone, Copy)]
pub struct NextTokenChooserParameters {
    pub temperature: u32,
    pub top_k: u32,
    pub top_p: u32,
    pub typical_p: u32,
    pub do_sample: bool,
    pub seed: u64,
    pub repetition_penalty: u32,
    pub watermark: bool,
}

/// Criteria that stop generation for one request. Carried through unchanged.
pub struct StoppingCriteriaParameters {
    pub ignore_eos_token: bool,
    pub max_new_tokens: u32,
    pub stop_sequences: Vec<String>,
}

/// Field-for-field agreement between two stop-criteria values; the stop
/// sequences are compared as the sequences of strings they hold.
pub open spec fn stopping_eq(a: StoppingCriteriaParameters, b: StoppingCriteriaParameters) -> bool {
    &&& a.ignore_eos_token == b.ignore_eos_token
    &&& a.max_new_tokens == b.max_new_tokens
    &&& a.stop_sequences@ == b.stop_sequences@
}

impl Clone for StoppingCriteriaParameters {
    fn clone(&self) -> (r: Self)
        ensures
            stopping_eq(r, *self),
    {
        let stop_sequences = self.stop_sequences.clone();
        proof {
            assert forall|i: int| 0 <= i < self.stop_sequences@.len() implies stop_sequences@[i]
                == self.stop_sequences@[i] by {
                assert(cloned::<String>(self.stop_sequences@[i], stop_sequences@[i]));
            }
            assert(stop_sequences@ =~= self.stop_sequences@);
        }
        StoppingCriteriaParameters {
            ignore_eos_token: self.ignore_eos_token,
            max_new_tokens: self.max_new_tokens,
            stop_sequences,
        }
    }
}

/// An already-validated generation request: input text, truncation length,
/// sampling parameters and stopping criteria. Never mutated after creation.
pub struct ValidGenerateRequest {
    pub inputs: String,
    pub truncate: u32,
    pub parameters: NextTokenChooserParameters,
    pub stopping_parameters: StoppingCriteriaParameters,
}

/// The immutable snapshot of a request handed to the execution backend,
/// carrying the entry id assigned at append time.
pub struct Request {
    pub id: u64,
    pub inputs: String,
    pub truncate: u32,
    pub parameters: Option<NextTokenChooserParameters>,
    pub stopping_parameters: Option<StoppingCriteriaParameters>,
}

/// `req` is the snapshot of the validated request `v` under entry id `id`.
pub open spec fn request_matches(req: Request, id: u64, v: ValidGenerateRequest) -> bool {
    &&& req.id == id
    &&& req.inputs == v.inputs
    &&& req.truncate == v.truncate
    &&& req.parameters == Some(v.parameters)
    &&& req.stopping_parameters matches Some(s) && stopping_eq(s, v.stopping_parameters)
}

/// An ordered group of requests dispatched together to the execution backend.
/// `size` equals the number of requests.
pub struct Batch {
    pub id: u64,
    pub requests: Vec<Request>,
    pub size: u32,
}

} // verus!
