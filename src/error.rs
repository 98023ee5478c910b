use vstd::prelude::*;

verus! {

/// The failures that the log, the archive and the cache can report.
#[derive(Debug, Clone, Copy, PartialEq, Eq, Structural)]
pub enum Error {
    /// A filesystem or compression stream failure.
    Io,
    /// A failure of the key/value transport.
    CacheIo,
    /// The archive header is truncated or carries the wrong signature.
    DecodeArchiveHeader,
    /// A byte run is not a well-formed record.
    RecordDecode,
    /// A single record or byte run is larger than a chunk can hold.
    RecordTooLarge,
}

/// The text that describes each failure.
pub open spec fn error_text(e: Error) -> Seq<char> {
    match e {
        Error::Io => "i/o failure"@,
        Error::CacheIo => "cache transport failure"@,
        Error::DecodeArchiveHeader => "invalid archive header"@,
        Error::RecordDecode => "malformed record"@,
        Error::RecordTooLarge => "record larger than a chunk"@,
    }
}

impl Error {
    /// A human-readable description of the failure.
    pub fn message(&self) -> (r: String)
        ensures
            r@ == error_text(*self),
    {
        match self {
            Error::Io => "i/o failure".to_owned(),
            Error::CacheIo => "cache transport failure".to_owned(),
            Error::DecodeArchiveHeader => "invalid archive header".to_owned(),
            Error::RecordDecode => "malformed record".to_owned(),
            Error::RecordTooLarge => "record larger than a chunk".to_owned(),
        }
    }
}

} // verus!
