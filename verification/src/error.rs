//! What can go wrong.

use vstd::prelude::*;

verus! {

/// The error type of the `ignition-config` crate, carried to the caller as it is.
#[verifier::external_type_specification]
#[verifier::external_body]
pub struct ExIgnitionConfigError(ignition_config::Error);

/// The reasons for which an operation is refused.
#[derive(Debug)]
pub enum LiveError {
    /// An input file could not be read.
    ReadFile { path: String, reason: String },
    /// A path has no final component to name a file by.
    MissingFilename { path: String },
    /// The image holds nothing at a path.
    NotFound { path: String },
    /// A path of the image is a directory where a file is needed.
    NotAFile { path: String },
    /// A path of the image is a file where a directory is needed.
    NotADirectory { path: String },
    /// A region does not lie within the image file.
    ReadRegion { offset: u64, length: usize },
    /// The contents of a region are not as long as the region.
    RegionLength { expected: usize, found: usize },
    /// A region begins before the end of the one ahead of it.
    RegionOverlap { offset: u64, cursor: u64 },
    /// The description of the karg embed areas could not be decoded.
    ParseKargInfo { reason: String },
    /// The description of the karg embed areas could not be encoded.
    SerializeKargInfo { reason: String },
    /// The new description of the karg embed areas does not fit in its file.
    KargInfoTooLarge { needed: usize, file_length: u32 },
    /// The description claims karg embed areas above the size limit.
    KargSizeTooLarge { size: usize },
    /// The system area gives a karg embed area length that memory cannot hold.
    KargLengthUnusable { value: u64 },
    /// The system area claims karg embed areas above the size limit.
    KargLengthTooLarge { length: usize },
    /// A karg embed area is described as lying behind every position of a file.
    KargOffsetUnusable { relative: u64 },
    /// The default kargs are larger than the karg embed areas.
    DefaultKargsTooLarge { needed: usize, available: usize },
    /// The image has no karg embed areas: it is old or corrupted.
    KargAreasMissing,
    /// The image announces karg embed areas, but none is listed.
    KargAreasCorrupted,
    /// A karg embed area is not valid UTF-8.
    KargAreaEncoding,
    /// Two karg embed areas hold different kargs.
    KargsMismatch { first: String, offset: u64, other: String },
    /// The kargs do not fit in the karg embed areas.
    KargsTooLarge { needed: usize, available: usize },
    /// The edit of the kargs was rejected.
    EditKargs { reason: String },
    /// An initramfs could not be decoded.
    DecodeInitrd { reason: String },
    /// An initramfs could not be encoded.
    EncodeInitrd { reason: String },
    /// The compressed initramfs does not fit in its embed area.
    InitrdTooLarge { needed: usize, available: usize },
    /// The image already has an embedded Ignition config.
    IgnitionPresent,
    /// The image has no embedded Ignition config.
    NoIgnition,
    /// The initramfs holds no Ignition config.
    IgnitionNotInArchive,
    /// The image already has embedded network settings.
    NetworkPresent,
    /// There are no embedded network settings.
    NoNetwork,
    /// Two keyfiles have the same name.
    DuplicateKeyfile { name: String },
    /// The customisation already has a keyfile of that name.
    KeyfileRepeated { name: String },
    /// The ISO image is already customised.
    AlreadyCustomized,
    /// The input initramfs is already customised.
    InputAlreadyCustomized,
    /// The input is not a CoreOS live initramfs image.
    NotLiveInitrd,
    /// The OS features could not be decoded.
    ParseFeatures { reason: String },
    /// The OS image does not support customising network settings.
    NetworkUnsupported,
    /// The OS image does not support customising installer configuration.
    InstallerConfigUnsupported,
    /// An installer config could not be decoded.
    ParseInstallerConfig { path: String, reason: String },
    /// The installer config could not be encoded.
    SerializeInstallerConfig { reason: String },
    /// An Ignition config could not be decoded.
    ParseIgnition { path: String, error: ignition_config::Error },
    /// A user-supplied Ignition config could not be encoded.
    SerializeUserIgnition { error: ignition_config::Error },
    /// An Ignition config does not take a directive.
    AddDirective { reason: String },
    /// An Ignition config of the user cannot be merged.
    MergeIgnition { path: String, reason: String },
    /// An Ignition config could not be encoded.
    SerializeIgnition { reason: String },
    /// A minimal image cannot be extracted from one with an Ignition config.
    MinimalIgnitionPresent,
    /// A minimal image cannot be extracted from one with non-default kargs.
    MinimalKargsChanged,
    /// A minimal image cannot be extracted from one with network settings.
    MinimalNetworkPresent,
    /// The full image holds no files.
    NoFilesInFullIso,
    /// The minimal image holds no files.
    NoFilesInMinimalIso,
    /// A packed minimal image does not fit in its file.
    MinisoTooLarge { needed: usize, file_length: u32 },
    /// The minimal image does not name the live image that it boots.
    LiveisoKargMissing,
    /// A URL holds white space.
    UrlHasWhitespace { url: String },
    /// The minimal image does not describe its karg embed areas.
    KargInfoMissing,
}

/// An error with its texts as sequences of characters. Errors of outside
/// crates are left out.
pub enum Refusal {
    ReadFile { path: Seq<char>, reason: Seq<char> },
    MissingFilename { path: Seq<char> },
    NotFound { path: Seq<char> },
    NotAFile { path: Seq<char> },
    NotADirectory { path: Seq<char> },
    ReadRegion { offset: u64, length: usize },
    RegionLength { expected: usize, found: usize },
    RegionOverlap { offset: u64, cursor: u64 },
    ParseKargInfo { reason: Seq<char> },
    SerializeKargInfo { reason: Seq<char> },
    KargInfoTooLarge { needed: usize, file_length: u32 },
    KargSizeTooLarge { size: usize },
    KargLengthUnusable { value: u64 },
    KargLengthTooLarge { length: usize },
    KargOffsetUnusable { relative: u64 },
    DefaultKargsTooLarge { needed: usize, available: usize },
    KargAreasMissing,
    KargAreasCorrupted,
    KargAreaEncoding,
    KargsMismatch { first: Seq<char>, offset: u64, other: Seq<char> },
    KargsTooLarge { needed: usize, available: usize },
    EditKargs { reason: Seq<char> },
    DecodeInitrd { reason: Seq<char> },
    EncodeInitrd { reason: Seq<char> },
    InitrdTooLarge { needed: usize, available: usize },
    IgnitionPresent,
    NoIgnition,
    IgnitionNotInArchive,
    NetworkPresent,
    NoNetwork,
    DuplicateKeyfile { name: Seq<char> },
    KeyfileRepeated { name: Seq<char> },
    AlreadyCustomized,
    InputAlreadyCustomized,
    NotLiveInitrd,
    ParseFeatures { reason: Seq<char> },
    NetworkUnsupported,
    InstallerConfigUnsupported,
    ParseInstallerConfig { path: Seq<char>, reason: Seq<char> },
    SerializeInstallerConfig { reason: Seq<char> },
    ParseIgnition { path: Seq<char> },
    SerializeUserIgnition,
    AddDirective { reason: Seq<char> },
    MergeIgnition { path: Seq<char>, reason: Seq<char> },
    SerializeIgnition { reason: Seq<char> },
    MinimalIgnitionPresent,
    MinimalKargsChanged,
    MinimalNetworkPresent,
    NoFilesInFullIso,
    NoFilesInMinimalIso,
    MinisoTooLarge { needed: usize, file_length: u32 },
    LiveisoKargMissing,
    UrlHasWhitespace { url: Seq<char> },
    KargInfoMissing,
}

impl View for LiveError {
    type V = Refusal;

    open spec fn view(&self) -> Refusal {
        match *self {
            LiveError::ReadFile { path, reason } => Refusal::ReadFile {
                path: path@,
                reason: reason@,
            },
            LiveError::MissingFilename { path } => Refusal::MissingFilename { path: path@ },
            LiveError::NotFound { path } => Refusal::NotFound { path: path@ },
            LiveError::NotAFile { path } => Refusal::NotAFile { path: path@ },
            LiveError::NotADirectory { path } => Refusal::NotADirectory { path: path@ },
            LiveError::ReadRegion { offset, length } => Refusal::ReadRegion { offset, length },
            LiveError::RegionLength { expected, found } => Refusal::RegionLength {
                expected,
                found,
            },
            LiveError::RegionOverlap { offset, cursor } => Refusal::RegionOverlap {
                offset,
                cursor,
            },
            LiveError::ParseKargInfo { reason } => Refusal::ParseKargInfo { reason: reason@ },
            LiveError::SerializeKargInfo { reason } => Refusal::SerializeKargInfo {
                reason: reason@,
            },
            LiveError::KargInfoTooLarge { needed, file_length } => Refusal::KargInfoTooLarge {
                needed,
                file_length,
            },
            LiveError::KargSizeTooLarge { size } => Refusal::KargSizeTooLarge { size },
            LiveError::KargLengthUnusable { value } => Refusal::KargLengthUnusable { value },
            LiveError::KargLengthTooLarge { length } => Refusal::KargLengthTooLarge { length },
            LiveError::KargOffsetUnusable { relative } => Refusal::KargOffsetUnusable { relative },
            LiveError::DefaultKargsTooLarge { needed, available } => Refusal::DefaultKargsTooLarge {
                needed,
                available,
            },
            LiveError::KargAreasMissing => Refusal::KargAreasMissing,
            LiveError::KargAreasCorrupted => Refusal::KargAreasCorrupted,
            LiveError::KargAreaEncoding => Refusal::KargAreaEncoding,
            LiveError::KargsMismatch { first, offset, other } => Refusal::KargsMismatch {
                first: first@,
                offset,
                other: other@,
            },
            LiveError::KargsTooLarge { needed, available } => Refusal::KargsTooLarge {
                needed,
                available,
            },
            LiveError::EditKargs { reason } => Refusal::EditKargs { reason: reason@ },
            LiveError::DecodeInitrd { reason } => Refusal::DecodeInitrd { reason: reason@ },
            LiveError::EncodeInitrd { reason } => Refusal::EncodeInitrd { reason: reason@ },
            LiveError::InitrdTooLarge { needed, available } => Refusal::InitrdTooLarge {
                needed,
                available,
            },
            LiveError::IgnitionPresent => Refusal::IgnitionPresent,
            LiveError::NoIgnition => Refusal::NoIgnition,
            LiveError::IgnitionNotInArchive => Refusal::IgnitionNotInArchive,
            LiveError::NetworkPresent => Refusal::NetworkPresent,
            LiveError::NoNetwork => Refusal::NoNetwork,
            LiveError::DuplicateKeyfile { name } => Refusal::DuplicateKeyfile { name: name@ },
            LiveError::KeyfileRepeated { name } => Refusal::KeyfileRepeated { name: name@ },
            LiveError::AlreadyCustomized => Refusal::AlreadyCustomized,
            LiveError::InputAlreadyCustomized => Refusal::InputAlreadyCustomized,
            LiveError::NotLiveInitrd => Refusal::NotLiveInitrd,
            LiveError::ParseFeatures { reason } => Refusal::ParseFeatures { reason: reason@ },
            LiveError::NetworkUnsupported => Refusal::NetworkUnsupported,
            LiveError::InstallerConfigUnsupported => Refusal::InstallerConfigUnsupported,
            LiveError::ParseInstallerConfig { path, reason } => Refusal::ParseInstallerConfig {
                path: path@,
                reason: reason@,
            },
            LiveError::SerializeInstallerConfig { reason } => Refusal::SerializeInstallerConfig {
                reason: reason@,
            },
            LiveError::ParseIgnition { path, .. } => Refusal::ParseIgnition { path: path@ },
            LiveError::SerializeUserIgnition { .. } => Refusal::SerializeUserIgnition,
            LiveError::AddDirective { reason } => Refusal::AddDirective { reason: reason@ },
            LiveError::MergeIgnition { path, reason } => Refusal::MergeIgnition {
                path: path@,
                reason: reason@,
            },
            LiveError::SerializeIgnition { reason } => Refusal::SerializeIgnition {
                reason: reason@,
            },
            LiveError::MinimalIgnitionPresent => Refusal::MinimalIgnitionPresent,
            LiveError::MinimalKargsChanged => Refusal::MinimalKargsChanged,
            LiveError::MinimalNetworkPresent => Refusal::MinimalNetworkPresent,
            LiveError::NoFilesInFullIso => Refusal::NoFilesInFullIso,
            LiveError::NoFilesInMinimalIso => Refusal::NoFilesInMinimalIso,
            LiveError::MinisoTooLarge { needed, file_length } => Refusal::MinisoTooLarge {
                needed,
                file_length,
            },
            LiveError::LiveisoKargMissing => Refusal::LiveisoKargMissing,
            LiveError::UrlHasWhitespace { url } => Refusal::UrlHasWhitespace { url: url@ },
            LiveError::KargInfoMissing => Refusal::KargInfoMissing,
        }
    }
}

/// The outcome of an operation with the views of its result and error.
pub open spec fn outcome<T: View>(r: Result<T, LiveError>) -> Result<T::V, Refusal> {
    match r {
        Ok(t) => Ok(t@),
        Err(e) => Err(e@),
    }
}

/// The outcome of an operation that may have nothing to give.
pub open spec fn optional_outcome<T: View>(r: Result<Option<T>, LiveError>) -> Result<
    Option<T::V>,
    Refusal,
> {
    match r {
        Ok(Some(t)) => Ok(Some(t@)),
        Ok(None) => Ok(None),
        Err(e) => Err(e@),
    }
}

} // verus!
