//! The ways in which reading package metadata can fail.

use vstd::prelude::*;

verus! {

/// Why a piece of metadata was refused.
#[derive(Clone, Copy, Debug, PartialEq, Eq, Structural)]
pub enum Error {
    /// A paragraph line that holds no `key:`.
    ExpectedKey,
    /// A field that was asked for as a single line has some other number of lines.
    NotOneLine,
    /// A field that is required is absent.
    MissingField,
    /// Bytes that are not UTF-8.
    InvalidUtf8,
    /// A dependency relation that does not follow the grammar.
    BadDependency,
    /// Text left over after a complete dependency list.
    TrailingData,
    /// An architecture, kernel or cpu name that is not known.
    UnknownArch,
    /// A maintainer list that does not follow the `name <email>` grammar.
    BadIdentity,
    /// A `\` escape inside a name that is not supported.
    BadEscape,
    /// A priority name that is not known.
    UnknownPriority,
    /// A source format name that is not known.
    UnknownFormat,
    /// A yes/no field holding something else.
    BadYesNo,
    /// A number that does not parse.
    BadNumber,
    /// A checksum line without exactly three parts.
    BadChecksumLine,
    /// A hex checksum that does not decode, or has the wrong length.
    BadChecksum,
    /// A checksum listed for a file that is not listed.
    OrphanChecksum,
    /// A package list line with fewer than four parts.
    ShortPackageListLine,
    /// A sources list line without a type, url or suite.
    IncompleteSourcesLine,
    /// A url-form release without a `#` before its suite.
    MissingSuite,
    /// A url-form release that names no component.
    NoComponents,
    /// A line of the older sources list form that does not follow it.
    MalformedSourcesLine,
    /// A sources list line whose type is not `deb`, `deb-src` or `debs`.
    UnsupportedSourceType,
    /// A date that does not parse.
    BadDate,
    /// A release file without SHA256 sums.
    MissingSha256,
    /// A listing that the release file does not name.
    ListingNotFound,
    /// A url that does not parse or join.
    BadUrl,
    /// Downloaded data that does not decompress as gzip.
    BadGzip,
    /// Downloaded data whose checksum differs from the expected one.
    ChecksumMismatch,
    /// A source paragraph whose `Files:` names no `.dsc`.
    MissingDsc,
    /// A `Files:` line without a file name.
    BadFilesLine,
    /// A signed document that carries no signature.
    NoSignatures,
    /// A signature that does not verify.
    InvalidSignature,
}

} // verus!
