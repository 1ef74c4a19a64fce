use vstd::prelude::*;
use vstd::string::StringExecFns;

verus! {

/// Why an operation on the ledger or the blob store did not succeed.
#[derive(Debug, Clone, Copy, PartialEq, Eq, Structural)]
pub enum SubmError {
    /// No blob is stored under the requested hash.
    FileNotFound,
    /// The store could not take or hash the data.
    GenericError,
    /// The caller's data breaks a declared constraint; nothing was recorded.
    ValidationError,
    /// A submission was recorded, but not all of its attachments were.
    PartialWrite,
}

impl SubmError {
    /// The text that names each error.
    pub open spec fn name_spec(self) -> Seq<char> {
        match self {
            SubmError::FileNotFound => "FileNotFound"@,
            SubmError::GenericError => "GenericError"@,
            SubmError::ValidationError => "ValidationError"@,
            SubmError::PartialWrite => "PartialWrite"@,
        }
    }

    /// The error's name as text: the variant's identifier.
    pub fn name(&self) -> (text: String)
        ensures
            text@ == self.name_spec(),
    {
        match self {
            SubmError::FileNotFound => String::from_str("FileNotFound"),
            SubmError::GenericError => String::from_str("GenericError"),
            SubmError::ValidationError => String::from_str("ValidationError"),
            SubmError::PartialWrite => String::from_str("PartialWrite"),
        }
    }
}

} // verus!
