//! What the pool answers to a submission, and what follows from it.

use vstd::prelude::*;

verus! {

/// The pool's answer to a submission.
#[derive(Debug)]
pub struct SubmissionResponse {
    pub success: bool,
    pub digest: Vec<u8>,
    pub message: String,
}

/// The answer was a refusal: the connection to the pool is to be made anew.
#[derive(Debug)]
pub struct VerificationFailed {
    pub reason: String,
}

impl VerificationFailed {
    /// The message that is shown.
    pub open spec fn message_text(self) -> Seq<char> {
        "Verification failed, forcing reconnection: "@ + self.reason@
    }

    /// The message that is shown.
    pub fn message(&self) -> (r: String)
        ensures
            r@ == self.message_text(),
    {
        "Verification failed, forcing reconnection: ".to_owned().concat(self.reason.as_str())
    }
}

/// Whether `r` is what follows from the pool's answer.
pub open spec fn answers(response: SubmissionResponse, r: Result<(), VerificationFailed>) -> bool {
    match r {
        Ok(_) => response.success,
        Err(e) => !response.success && e.reason@ == response.message@,
    }
}

/// Takes the pool's answers.
#[derive(Debug, Clone, Copy)]
pub struct NockPoolSubmissionResponseHandler {}

impl NockPoolSubmissionResponseHandler {
    pub fn new() -> (r: Self)
        ensures
            r == (NockPoolSubmissionResponseHandler {  }),
    {
        NockPoolSubmissionResponseHandler {  }
    }

    /// A refused proof is an error, which makes the client reconnect.
    pub fn handle_verification_failure(&self, response: &SubmissionResponse) -> (r: Result<
        (),
        VerificationFailed,
    >)
        ensures
            r matches Err(e) && e.reason@ == response.message@,
    {
        Err(VerificationFailed { reason: response.message.clone() })
    }

    /// An accepted proof needs nothing more.
    pub fn handle_verification_success(&self, response: &SubmissionResponse) -> (r: Result<
        (),
        VerificationFailed,
    >)
        ensures
            r is Ok,
    {
        Ok(())
    }

    /// Takes an answer: an error, with the pool's message, if and only if the
    /// proof was refused.
    pub fn handle(&self, response: SubmissionResponse) -> (r: Result<(), VerificationFailed>)
        ensures
            answers(response, r),
    {
        if !response.success {
            self.handle_verification_failure(&response)
        } else {
            self.handle_verification_success(&response)
        }
    }
}

/// A refused proof, and only a refused one, is an error, whose message tells
/// that the connection is made anew and ends with the pool's reason.
pub proof fn lemma_refusal_forces_reconnection(
    response: SubmissionResponse,
    r: Result<(), VerificationFailed>,
)
    requires
        answers(response, r),
    ensures
        r is Err <==> !response.success,
        r is Err ==> r->Err_0.message_text() == "Verification failed, forcing reconnection: "@
            + response.message@,
{
}

} // verus!
