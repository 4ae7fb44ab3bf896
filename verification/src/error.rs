//! What can go wrong, at start-up and while a request is answered.

use vstd::prelude::*;

verus! {

/// The failures of the library.
#[derive(Clone, Copy, Debug, PartialEq, Eq, Structural)]
pub enum Error {
    /// A specification was registered under the empty name.
    InvalidName,
    /// The registry was changed after it had been finalized.
    AlreadyFinalized,
    /// No specification was registered.
    EmptyRegistry,
    /// The configured default names a specification that is not registered.
    UnknownDefaultSpec,
    /// A path climbs above the root of the bundle, or disguises that it does.
    InvalidPath,
    /// The index document of the bundle lacks the placeholder.
    BundleCorrupt,
}

/// When a failure is met, and what it means for the host.
#[derive(Clone, Copy, Debug, PartialEq, Eq, Structural)]
pub enum ErrorClass {
    /// Met at start-up; the host must not start serving.
    Configuration,
    /// Met while a request is answered, and answered as a missing asset.
    Request,
    /// The bundle and the resolver do not belong together; answered as a server error.
    Integrity,
}

impl Error {
    /// The class of a failure.
    pub open spec fn class_of(self) -> ErrorClass {
        match self {
            Error::InvalidName => ErrorClass::Configuration,
            Error::AlreadyFinalized => ErrorClass::Configuration,
            Error::EmptyRegistry => ErrorClass::Configuration,
            Error::UnknownDefaultSpec => ErrorClass::Configuration,
            Error::InvalidPath => ErrorClass::Request,
            Error::BundleCorrupt => ErrorClass::Integrity,
        }
    }

    /// The class of this failure.
    pub fn class(&self) -> (r: ErrorClass)
        ensures
            r == self.class_of(),
    {
        match self {
            Error::InvalidName => ErrorClass::Configuration,
            Error::AlreadyFinalized => ErrorClass::Configuration,
            Error::EmptyRegistry => ErrorClass::Configuration,
            Error::UnknownDefaultSpec => ErrorClass::Configuration,
            Error::InvalidPath => ErrorClass::Request,
            Error::BundleCorrupt => ErrorClass::Integrity,
        }
    }

    /// The text that describes a failure.
    pub open spec fn text_of(self) -> Seq<char> {
        match self {
            Error::InvalidName => "a specification needs a name that is not empty"@,
            Error::AlreadyFinalized => "the registry is finalized and takes no further specification"@,
            Error::EmptyRegistry => "no specification is registered"@,
            Error::UnknownDefaultSpec => "the default specification is not registered"@,
            Error::InvalidPath => "the path leaves the asset bundle"@,
            Error::BundleCorrupt => "the index document of the asset bundle has no placeholder"@,
        }
    }

    /// A description of this failure for a human reader.
    pub fn message(&self) -> (r: &'static str)
        ensures
            r@ == self.text_of(),
    {
        match self {
            Error::InvalidName => "a specification needs a name that is not empty",
            Error::AlreadyFinalized => "the registry is finalized and takes no further specification",
            Error::EmptyRegistry => "no specification is registered",
            Error::UnknownDefaultSpec => "the default specification is not registered",
            Error::InvalidPath => "the path leaves the asset bundle",
            Error::BundleCorrupt => "the index document of the asset bundle has no placeholder",
        }
    }
}

} // verus!
