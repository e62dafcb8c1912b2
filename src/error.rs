//! Why a run stopped.
use vstd::prelude::*;
use vstd::string::StringExecFns;

verus! {

/// The failures that end a run, each with the system's reason.
#[derive(Debug)]
pub enum RunError {
    /// The input path could not be opened for reading.
    InputOpen { path: String, reason: String },
    /// The output path could not be created or truncated.
    OutputOpen { path: String, reason: String },
    /// A read or a write failed while streaming.
    Io { reason: String },
}

impl RunError {
    /// The text reported for this failure: the path, a colon and a space,
    /// then the reason, where a path is involved; the reason alone otherwise.
    pub open spec fn spec_message(&self) -> Seq<char> {
        match self {
            RunError::InputOpen { path, reason } => path@ + ": "@ + reason@,
            RunError::OutputOpen { path, reason } => path@ + ": "@ + reason@,
            RunError::Io { reason } => reason@,
        }
    }

    /// The text reported for this failure.
    pub fn message(&self) -> (r: String)
        ensures
            r@ == self.spec_message(),
    {
        match self {
            RunError::InputOpen { path, reason } | RunError::OutputOpen { path, reason } => {
                let mut m = path.clone();
                m.append(": ");
                m.append(reason.as_str());
                m
            },
            RunError::Io { reason } => reason.clone(),
        }
    }
}

} // verus!
