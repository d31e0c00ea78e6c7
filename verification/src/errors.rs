//! The pipeline's terminal failures.

use vstd::prelude::*;
use vstd::string::*;

verus! {

/// Why a clone run aborts.  Every stage surfaces its failure as one of
/// these; no stage retries.
#[derive(Debug, Clone, Copy, PartialEq, Eq, Structural)]
pub enum CloneError {
    /// The fetch resolved to zero or several contract entries.
    MetadataNotSingle,
    /// The fetched contract is written for an unsupported compiler dialect.
    VyperNotSupported,
    /// The reported compiler version is not `major.minor.patch`.
    BadCompilerVersion,
    /// The project's canonical source directory is missing.
    MissingSourceDir,
    /// The project's canonical library directory is missing.
    MissingLibDir,
    /// A move's destination already exists.
    DestinationExists,
    /// A staged entry that must be flattened is not a directory.
    EntryNotDirectory,
    /// The exported remappings file is already present.
    RemappingsFileExists,
    /// The explorer settings ask compilation to stop after a phase.
    StopAfterSet,
    /// A configuration key path does not exist in the document.
    UnknownConfigKey,
    /// No compiled artifact carries the target contract name.
    ContractNotFound,
    /// Several files define a contract with the target name.
    AmbiguousContract,
    /// The matched artifact has no storage layout payload.
    StorageLayoutMissing,
}

/// The reason text of each failure.
pub open spec fn message_spec(e: CloneError) -> Seq<char> {
    match e {
        CloneError::MetadataNotSingle => "contract not found or ill-formed"@,
        CloneError::VyperNotSupported => "Vyper contracts are not supported"@,
        CloneError::BadCompilerVersion => "malformed compiler version"@,
        CloneError::MissingSourceDir => "`src` directory must exists"@,
        CloneError::MissingLibDir => "`lib` directory must exists"@,
        CloneError::DestinationExists => "destination already exists"@,
        CloneError::EntryNotDirectory => "staged entry is not a directory"@,
        CloneError::RemappingsFileExists => "remappings.txt already exists, please remove it first"@,
        CloneError::StopAfterSet => "stop_after should be None"@,
        CloneError::UnknownConfigKey => "cannot find the key"@,
        CloneError::ContractNotFound => "contract not found"@,
        CloneError::AmbiguousContract => "multiple contracts with the same name found"@,
        CloneError::StorageLayoutMissing => "storage layout not found"@,
    }
}

impl CloneError {
    /// A human-readable reason, phrased as the failure is reported.
    pub fn message(&self) -> (r: String)
        ensures
            r@ == message_spec(*self),
    {
        match self {
            CloneError::MetadataNotSingle => "contract not found or ill-formed".to_owned(),
            CloneError::VyperNotSupported => "Vyper contracts are not supported".to_owned(),
            CloneError::BadCompilerVersion => "malformed compiler version".to_owned(),
            CloneError::MissingSourceDir => "`src` directory must exists".to_owned(),
            CloneError::MissingLibDir => "`lib` directory must exists".to_owned(),
            CloneError::DestinationExists => "destination already exists".to_owned(),
            CloneError::EntryNotDirectory => "staged entry is not a directory".to_owned(),
            CloneError::RemappingsFileExists => {
                "remappings.txt already exists, please remove it first".to_owned()
            },
            CloneError::StopAfterSet => "stop_after should be None".to_owned(),
            CloneError::UnknownConfigKey => "cannot find the key".to_owned(),
            CloneError::ContractNotFound => "contract not found".to_owned(),
            CloneError::AmbiguousContract => {
                "multiple contracts with the same name found".to_owned()
            },
            CloneError::StorageLayoutMissing => "storage layout not found".to_owned(),
        }
    }
}

} // verus!
