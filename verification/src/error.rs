//! What can go wrong between the board and `bd`.

use vstd::prelude::*;
use vstd::string::StringExecFns;

verus! {

/// Why a request to `bd` failed.
#[derive(Debug)]
pub enum BdError {
    /// `bd` could not be started.
    Spawn {
        /// The arguments, with a space between each two.
        args: String,
        /// What the system said.
        cause: String,
    },
    /// `bd` ended with a failure.
    Failed {
        /// The arguments, with a space between each two.
        args: String,
        /// What `bd` wrote to its error output, trimmed.
        stderr: String,
    },
    /// The reply is no list of issues.
    List {
        /// What the decoder said.
        cause: String,
    },
    /// The reply is no JSON document.
    Document {
        /// What the parser said.
        cause: String,
    },
    /// Something else went wrong, in a write that does more than ask `bd`.
    Other {
        /// What to say about it.
        message: String,
    },
}

/// The message of an error.
pub open spec fn message_of(e: BdError) -> Seq<char> {
    match e {
        BdError::Spawn { args, cause } => "failed to spawn bd "@ + args@,
        BdError::Failed { args, stderr } => "bd "@ + args@ + ": "@ + stderr@,
        BdError::List { cause } => "parsing bd --json output"@,
        BdError::Document { cause } => cause@,
        BdError::Other { message } => message@,
    }
}

impl BdError {
    /// The message to show.
    pub fn message(&self) -> (r: String)
        ensures
            r@ == message_of(*self),
            *self matches BdError::Spawn { args, cause: _ } ==> r@ == "failed to spawn bd "@ + args@,
            *self matches BdError::Failed { args, stderr } ==> r@ == "bd "@ + args@ + ": "@
                + stderr@,
            *self is List ==> r@ == "parsing bd --json output"@,
            *self matches BdError::Document { cause } ==> r@ == cause@,
            *self matches BdError::Other { message } ==> r@ == message@,
    {
        match self {
            BdError::Spawn { args, cause: _ } => {
                let mut r = "failed to spawn bd ".to_owned();
                r.append(args.as_str());
                r
            },
            BdError::Failed { args, stderr } => {
                let mut r = "bd ".to_owned();
                r.append(args.as_str());
                r.append(": ");
                r.append(stderr.as_str());
                r
            },
            BdError::List { cause: _ } => "parsing bd --json output".to_owned(),
            BdError::Document { cause } => cause.clone(),
            BdError::Other { message } => message.clone(),
        }
    }
}

/// Law: what goes wrong is told in full. A failed start names the arguments, a
/// failed run names them and then says what `bd` said, a bad list is told the
/// same whatever its cause, and a bad document or anything else speaks for
/// itself.
pub proof fn law_messages(args: String, stderr: String, cause: String, message: String)
    ensures
        message_of(BdError::Spawn { args, cause }) == "failed to spawn bd "@ + args@,
        message_of(BdError::Failed { args, stderr }) == "bd "@ + args@ + ": "@ + stderr@,
        message_of(BdError::List { cause }) == "parsing bd --json output"@,
        message_of(BdError::Document { cause }) == cause@,
        message_of(BdError::Other { message }) == message@,
{
}

} // verus!
