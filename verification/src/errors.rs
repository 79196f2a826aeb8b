use vstd::prelude::*;

verus! {

/// The failures the classifier can report.
#[derive(Clone, Copy, Debug, PartialEq, Eq, Structural)]
pub enum Error {
    /// The model bytes could not be parsed, or the graph could not be
    /// compiled into a runnable plan.  Fatal at startup.
    Initialization,
    /// The input bytes are not a decodable image.  Recoverable per request.
    Decode,
    /// The inference run itself failed.  Recoverable per request.
    Execution,
    /// Classification was requested before the model was set up.  A
    /// deployment bug, not bad input.
    Uninitialized,
}

impl Error {
    /// The description `message` returns for each variant.
    pub open spec fn spec_message(self) -> Seq<char> {
        match self {
            Error::Initialization => "model bytes could not be loaded or compiled"@,
            Error::Decode => "input bytes are not a decodable image"@,
            Error::Execution => "inference run failed"@,
            Error::Uninitialized => "classifier used before setup"@,
        }
    }

    /// A short description, for callers that report failures as text.
    pub fn message(&self) -> (r: String)
        ensures
            r@ == self.spec_message(),
    {
        match self {
            Error::Initialization => "model bytes could not be loaded or compiled".to_owned(),
            Error::Decode => "input bytes are not a decodable image".to_owned(),
            Error::Execution => "inference run failed".to_owned(),
            Error::Uninitialized => "classifier used before setup".to_owned(),
        }
    }
}

} // verus!
