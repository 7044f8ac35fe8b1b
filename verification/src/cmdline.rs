//! The parameters of the commands.

use crate::customize::CommonCustomizeConfig;
use vstd::prelude::*;

verus! {

/// Parameters of `iso embed`.
#[derive(Debug)]
pub struct IsoEmbedConfig {
    pub force: bool,
    pub config: Option<String>,
    pub output: Option<String>,
    pub input: String,
}

/// Parameters of `iso show`.
#[derive(Debug)]
pub struct IsoShowConfig {
    pub input: String,
}

/// Parameters of `iso remove`.
#[derive(Debug)]
pub struct IsoRemoveConfig {
    pub output: Option<String>,
    pub input: String,
}

/// Parameters of `iso ignition embed`.
#[derive(Debug)]
pub struct IsoIgnitionEmbedConfig {
    /// Overwrite an existing Ignition config.
    pub force: bool,
    /// The Ignition config to embed; standard input by default.
    pub ignition_file: Option<String>,
    /// The image to write; the input by default.
    pub output: Option<String>,
    /// The image to read.
    pub input: String,
}

/// Parameters of `iso ignition show`.
#[derive(Debug)]
pub struct IsoIgnitionShowConfig {
    pub input: String,
    /// Show where the embed area lies instead.
    pub header: bool,
}

/// Parameters of `iso ignition remove`.
#[derive(Debug)]
pub struct IsoIgnitionRemoveConfig {
    pub output: Option<String>,
    pub input: String,
}

/// Parameters of `iso network embed`.
#[derive(Debug)]
pub struct IsoNetworkEmbedConfig {
    /// The keyfiles to embed.
    pub keyfile: Vec<String>,
    /// Overwrite existing network settings.
    pub force: bool,
    pub output: Option<String>,
    pub input: String,
}

/// Parameters of `iso network extract`.
#[derive(Debug)]
pub struct IsoNetworkExtractConfig {
    /// The directory to extract to; standard output by default.
    pub directory: Option<String>,
    pub input: String,
}

/// Parameters of `iso network remove`.
#[derive(Debug)]
pub struct IsoNetworkRemoveConfig {
    pub output: Option<String>,
    pub input: String,
}

/// Parameters of `pxe ignition wrap`.
#[derive(Debug)]
pub struct PxeIgnitionWrapConfig {
    pub ignition_file: Option<String>,
    pub output: Option<String>,
}

/// Parameters of `pxe ignition unwrap`.
#[derive(Debug)]
pub struct PxeIgnitionUnwrapConfig {
    pub input: Option<String>,
}

/// Parameters of `pxe network wrap`.
#[derive(Debug)]
pub struct PxeNetworkWrapConfig {
    pub keyfile: Vec<String>,
    pub output: Option<String>,
}

/// Parameters of `pxe network unwrap`.
#[derive(Debug)]
pub struct PxeNetworkUnwrapConfig {
    pub directory: Option<String>,
    pub input: Option<String>,
}

/// Parameters of `iso kargs modify`.
#[derive(Debug)]
pub struct IsoKargsModifyConfig {
    pub append: Vec<String>,
    pub delete: Vec<String>,
    pub replace: Vec<String>,
    pub output: Option<String>,
    pub input: String,
}

/// Parameters of `iso kargs reset`.
#[derive(Debug)]
pub struct IsoKargsResetConfig {
    pub output: Option<String>,
    pub input: String,
}

/// Parameters of `iso kargs show`.
#[derive(Debug)]
pub struct IsoKargsShowConfig {
    /// Show the kargs that the image was built with.
    pub default: bool,
    /// Show where the karg embed areas lie instead.
    pub header: bool,
    pub input: String,
}

/// Parameters of `iso customize`.
#[derive(Debug)]
pub struct IsoCustomizeConfig {
    pub common: CommonCustomizeConfig,
    pub live_karg_append: Vec<String>,
    pub live_karg_delete: Vec<String>,
    pub live_karg_replace: Vec<String>,
    /// Overwrite existing customisations.
    pub force: bool,
    pub output: Option<String>,
    pub input: String,
}

/// Parameters of `iso reset`.
#[derive(Debug)]
pub struct IsoResetConfig {
    pub output: Option<String>,
    pub input: String,
}

/// Parameters of `pxe customize`.
#[derive(Debug)]
pub struct PxeCustomizeConfig {
    pub common: CommonCustomizeConfig,
    /// The initramfs to write; `-` is standard output.
    pub output: String,
    pub input: String,
}

/// Parameters of `iso inspect`.
#[derive(Debug)]
pub struct IsoInspectConfig {
    pub input: String,
}

/// Parameters of `iso extract pxe`.
#[derive(Debug)]
pub struct IsoExtractPxeConfig {
    pub input: String,
    pub output_dir: String,
}

/// Parameters of `iso extract minimal-iso`.
#[derive(Debug)]
pub struct IsoExtractMinimalIsoConfig {
    pub input: String,
    /// The minimal image to write; `-` is standard output.
    pub output: String,
    /// Where to put the root file system.
    pub output_rootfs: Option<String>,
    /// Where the minimal image is to fetch the root file system from.
    pub rootfs_url: Option<String>,
}

/// Parameters of `iso extract pack-minimal-iso`.
#[derive(Debug)]
pub struct IsoExtractPackMinimalIsoConfig {
    pub full: String,
    pub minimal: String,
    /// Delete the minimal image once it is packed.
    pub consume: bool,
}

} // verus!
