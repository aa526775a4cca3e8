use vstd::prelude::*;

verus! {

/// Why an ingestion step, or the whole refresh, did not succeed.
#[derive(Clone, Copy, Debug, PartialEq, Eq, Structural)]
pub enum Error {
    /// A refresh of an existing source was asked for a source without id.
    NoSourceId,
    /// The source has no URL or file path.
    MissingUrl,
    /// The source has no user name (for a portal: no MAC address).
    MissingUsername,
    /// The source has no password.
    MissingPassword,
    /// The source's URL could not be parsed.
    InvalidUrl,
    /// The line after a channel's metadata line is empty.
    EmptyUrlLine,
    /// A channel block has no line that could serve as its URL.
    MissingUrlLine,
    /// No name could be found for a channel.
    NoName,
    /// A stream record carries no stream id.
    MissingStreamId,
    /// A media type that has no playback path.
    InvalidStreamType,
    /// The source kind is not one that can be refreshed.
    InvalidSourceType,
    /// An upstream request or its payload failed.
    Upstream,
    /// Every content type of an Xtream panel failed.
    TooManyFailures,
    /// The source was not found in the catalog.
    SourceNotFound,
    /// The catalog has run out of row ids.
    IdsExhausted,
    /// The text is not a valid number.
    InvalidNumber,
    /// A text field is not valid base64 or not valid UTF-8.
    InvalidText,
    /// A time could not be read or shown.
    InvalidTime,
}

impl Error {
    /// A human-readable description of the error.
    pub fn message(&self) -> (r: String) {
        let s = match self {
            Error::NoSourceId => "no source id",
            Error::MissingUrl => "missing url",
            Error::MissingUsername => "missing username",
            Error::MissingPassword => "missing password",
            Error::InvalidUrl => "invalid url",
            Error::EmptyUrlLine => "second line is empty",
            Error::MissingUrlLine => "missing last line",
            Error::NoName => "couldn't find name from name or id",
            Error::MissingStreamId => "missing stream id",
            Error::InvalidStreamType => "invalid stream type",
            Error::InvalidSourceType => "invalid source type",
            Error::Upstream => "upstream request failed",
            Error::TooManyFailures => "too many Xtream requests failed",
            Error::SourceNotFound => "source not found",
            Error::IdsExhausted => "no row ids left",
            Error::InvalidNumber => "invalid number",
            Error::InvalidText => "invalid text",
            Error::InvalidTime => "invalid time",
        };
        s.to_owned()
    }
}

} // verus!
