//! The library's error type.

use vstd::prelude::*;

verus! {

/// Every way in which a check of the library can refuse its input.
#[derive(Clone, Debug, PartialEq, Eq, Structural)]
pub enum BotError {
    /// A catalog entry is outside the official-dataset scope of the city domain.
    UnexpectedScope,
    /// A catalog entry carries an identifier that is not of the form `xxxx-xxxx`.
    InvalidDatasetId,
    /// A dataset identifier given on the command line is not of the form `xxxx-xxxx`.
    ExpectedSocrataId,
    /// A creation timestamp is not RFC 3339.
    InvalidTimestamp,
    /// A catalog page is larger than the safety limit.
    PageTooLarge,
    /// The catalog answered with warnings.
    CatalogWarnings,
    /// A scan was asked to set the baseline, but there already is one.
    BaselineExists,
    /// A scan was asked to announce, but no baseline exists yet.
    NotInitialized,
    /// A page reported a catalog size outside the accepted range.
    UnexpectedCatalogSize,
    /// The reported catalog size changed between pages.
    CatalogChanged,
    /// A page came back empty before the reported size was reached.
    CatalogEndedEarly,
    /// More datasets arrived than the catalog reported.
    PaginationMismatch,
    /// One scan saw the same identifier twice.
    DuplicateId,
    /// A checksum manifest line does not have two fields.
    UnexpectedManifest,
    /// A checksum manifest holds something other than 64 lowercase hex digits.
    InvalidSha256,
    /// A checksum manifest names an unknown asset, or one asset twice.
    UnexpectedAssetName,
    /// A checksum manifest has no line for the bot executable.
    MissingBotChecksum,
    /// A download went over its size limit.
    DownloadLimitExceeded,
    /// The latest release is a draft, a prerelease, or not a build tag.
    IneligibleRelease,
    /// A release lacks an asset, or lists it under an unexpected URL.
    MissingAsset,
    /// A downloaded executable does not match its checksum.
    ChecksumMismatch,
    /// An installed release directory holds an executable with another checksum.
    UnexpectedReleaseContent,
    /// The database's integrity check did not answer `ok`.
    IntegrityCheckFailed,
    /// No scheduled run lies within the last eight days.
    NoScheduledRun,
    /// A scheduled time of day is not a time of day, or its day is out of range.
    InvalidSchedule,
    /// A scheduled local time does not map to exactly one instant.
    AmbiguousSchedule,
    /// The last successful scan is older than the last scheduled run.
    ScanOverdue,
    /// A pending announcement is older than the last scheduled run.
    PendingSurvived,
    /// A text that should be a URL is not one.
    InvalidUrl,
    /// The catalog has no official dataset with the requested identifier.
    DatasetNotFound,
    /// The server refused to store the post.
    PublicationFailed,
    /// The personal data server is not an HTTPS origin.
    PdsNotHttpsOrigin,
    /// A record already stored under the key differs from the pending post.
    ExistingRecordMismatch,
    /// A record lookup failed for a reason other than absence.
    LookupFailed,
    /// A reply lacks the record URI.
    MissingUri,
    /// An upload returned no blob.
    MissingBlob,
    /// The post text does not contain the dataset link.
    MissingLink,
    /// The post text is over the UTF-8 byte limit.
    PostTooLong,
    /// The metadata panel does not fit on one card.
    MetadataTooLarge,
    /// The description needs more than four cards.
    TooManyCards,
    /// An encoded card is over the image size limit.
    CardTooLarge,
    /// The card image could not be encoded.
    ImageEncoding,
    /// The description could not be read as HTML.
    DescriptionUnreadable,
    /// The description holds an HTML table, which cards do not lay out.
    TableInDescription,
}

} // verus!
