//! The commands on the initramfs of a network boot.

use crate::cmdline::PxeCustomizeConfig;
use crate::customize;
use crate::customize::{InstallConfig, Notice, NoticeView, OsFeatures};
use crate::customize_commands;
use crate::customize_commands::{INITRD_FEATURES_PATH, INITRD_LIVE_STAMP_PATH};
use crate::error;
use crate::error::{LiveError, Refusal};
use crate::glob::GlobMatcher;
use crate::ignition::{Directive, Ignition};
use crate::initrd;
use crate::initrd::{Initrd, Member};
use crate::input;
use crate::input::InputFile;
use crate::iso_config;
use crate::iso_config::INITRD_IGNITION_PATH;
use crate::network;
use crate::network::{Extraction, ExtractionView};
use crate::text;
use vstd::prelude::*;
use vstd::string::*;

verus! {

/// How an initramfs is encoded.
pub open spec fn initrd_encoded<E: Fn(&Initrd) -> Result<Vec<u8>, String>>(
    files: Map<Seq<char>, Seq<u8>>,
    encode: E,
    r: Result<Seq<u8>, Refusal>,
) -> bool {
    exists|initrd: &Initrd, out: Result<Vec<u8>, String>|
        {
            &&& initrd@ == files
            &&& #[trigger] call_ensures(encode, (initrd,), out)
            &&& r == match out {
                Ok(bytes) => Ok(bytes@),
                Err(reason) => Err(Refusal::EncodeInitrd { reason: reason@ }),
            }
        }
}

/// Encodes an initramfs.
pub fn encode_initrd<E: Fn(&Initrd) -> Result<Vec<u8>, String>>(files: &Initrd, encode: &E) -> (r: Result<
    Vec<u8>,
    LiveError,
>)
    requires
        forall|initrd: &Initrd| call_requires(*encode, (initrd,)),
    ensures
        initrd_encoded(files@, *encode, error::outcome(r)),
{
    match encode(files) {
        Ok(bytes) => Ok(bytes),
        Err(reason) => Err(LiveError::EncodeInitrd { reason }),
    }
}

/// How those files of an initramfs are read that match one of the patterns.
pub open spec fn initrd_filtered<U: Fn(&[u8]) -> Result<Vec<Member>, String>>(
    archive: Seq<u8>,
    patterns: Seq<Seq<char>>,
    unpack: U,
    r: Result<Map<Seq<char>, Seq<u8>>, Refusal>,
) -> bool {
    exists|bytes: &[u8], out: Result<Vec<Member>, String>|
        {
            &&& bytes@ == archive
            &&& #[trigger] call_ensures(unpack, (bytes,), out)
            &&& r == match out {
                Ok(members) => Ok(
                    initrd::matching_files(initrd::files_by_path(members@), patterns),
                ),
                Err(reason) => Err(Refusal::DecodeInitrd { reason: reason@ }),
            }
        }
}

/// Reads those files of an initramfs that match one of the patterns.
pub fn read_filtered<U: Fn(&[u8]) -> Result<Vec<Member>, String>>(
    archive: &[u8],
    filter: &GlobMatcher,
    unpack: &U,
) -> (r: Result<Initrd, LiveError>)
    requires
        forall|bytes: &[u8]| call_requires(*unpack, (bytes,)),
    ensures
        initrd_filtered(archive@, filter@, *unpack, error::outcome(r)),
{
    match unpack(archive) {
        Ok(members) => Ok(Initrd::from_members_filtered(members, filter)),
        Err(reason) => Err(LiveError::DecodeInitrd { reason }),
    }
}

/// The initramfs with an Ignition config alone.
pub open spec fn wrapped_ignition(ignition: Seq<u8>) -> Map<Seq<char>, Seq<u8>> {
    Map::empty().insert(INITRD_IGNITION_PATH@, ignition)
}

/// `pxe ignition wrap`: the initramfs that holds the Ignition config.
pub fn pxe_ignition_wrap<E: Fn(&Initrd) -> Result<Vec<u8>, String>>(
    ignition: Vec<u8>,
    encode: &E,
) -> (r: Result<Vec<u8>, LiveError>)
    requires
        forall|initrd: &Initrd| call_requires(*encode, (initrd,)),
    ensures
        initrd_encoded(wrapped_ignition(ignition@), *encode, error::outcome(r)),
{
    let mut files = Initrd::default();
    files.add(INITRD_IGNITION_PATH, ignition);
    encode_initrd(&files, encode)
}

/// The Ignition config of an initramfs.
pub open spec fn unwrapped_ignition(files: Map<Seq<char>, Seq<u8>>) -> Result<Seq<u8>, Refusal> {
    if files.contains_key(INITRD_IGNITION_PATH@) {
        Ok(files[INITRD_IGNITION_PATH@])
    } else {
        Err(Refusal::IgnitionNotInArchive)
    }
}

/// The Ignition config of an initramfs.
pub fn unwrap_ignition(files: &Initrd) -> (r: Result<Vec<u8>, LiveError>)
    ensures
        error::outcome(r) == unwrapped_ignition(files@),
{
    match files.get(INITRD_IGNITION_PATH) {
        Some(found) => {
            let mut data: Vec<u8> = Vec::new();
            data.extend_from_slice(found);
            assert(data@ =~= found@);
            Ok(data)
        },
        None => Err(LiveError::IgnitionNotInArchive),
    }
}

/// The matcher for the path of an Ignition config.
pub fn ignition_matcher() -> (r: GlobMatcher)
    ensures
        r@ == seq![INITRD_IGNITION_PATH@],
{
    let mut patterns: Vec<String> = Vec::new();
    patterns.push(INITRD_IGNITION_PATH.to_owned());
    assert(text::texts(patterns@) =~= seq![INITRD_IGNITION_PATH@]);
    GlobMatcher::new(patterns)
}

/// `pxe ignition unwrap`: the Ignition config that an initramfs holds.
pub fn pxe_ignition_unwrap<U: Fn(&[u8]) -> Result<Vec<Member>, String>>(
    archive: &[u8],
    unpack: &U,
) -> (r: Result<Vec<u8>, LiveError>)
    requires
        forall|bytes: &[u8]| call_requires(*unpack, (bytes,)),
    ensures
        exists|files: Result<Map<Seq<char>, Seq<u8>>, Refusal>| #[trigger]
            initrd_filtered(archive@, seq![INITRD_IGNITION_PATH@], *unpack, files)
                && error::outcome(r) == match files {
                Ok(files) => unwrapped_ignition(files),
                Err(e) => Err(e),
            },
{
    let read = read_filtered(archive, &ignition_matcher(), unpack);
    assert(initrd_filtered(
        archive@,
        seq![INITRD_IGNITION_PATH@],
        *unpack,
        error::outcome(read),
    ));
    match read {
        Ok(files) => unwrap_ignition(&files),
        Err(e) => Err(e),
    }
}

/// The initramfs with keyfiles alone.
pub fn network_initrd(keyfiles: &Vec<InputFile>) -> (r: Result<Initrd, LiveError>)
    ensures
        error::outcome(r) == wrapped_network(input::input_views(keyfiles@)),
{
    let mut files = Initrd::default();
    match network::initrd_network_embed(&mut files, keyfiles) {
        Ok(()) => Ok(files),
        Err(e) => Err(e),
    }
}

/// The initramfs with keyfiles alone.
pub open spec fn wrapped_network(keyfiles: Seq<input::InputView>) -> Result<
    Map<Seq<char>, Seq<u8>>,
    Refusal,
> {
    match network::keyfiles_added(Map::empty(), keyfiles) {
        (files, None) => Ok(files),
        (_, Some(e)) => Err(e),
    }
}

/// `pxe network wrap`: the initramfs that holds the keyfiles.
pub fn pxe_network_wrap<E: Fn(&Initrd) -> Result<Vec<u8>, String>>(
    keyfiles: &Vec<InputFile>,
    encode: &E,
) -> (r: Result<Vec<u8>, LiveError>)
    requires
        forall|initrd: &Initrd| call_requires(*encode, (initrd,)),
    ensures
        match wrapped_network(input::input_views(keyfiles@)) {
            Ok(files) => initrd_encoded(files, *encode, error::outcome(r)),
            Err(e) => error::outcome(r) == Err::<Seq<u8>, Refusal>(e),
        },
{
    match network_initrd(keyfiles) {
        Ok(files) => encode_initrd(&files, encode),
        Err(e) => Err(e),
    }
}

/// `pxe network unwrap`: the network settings that an initramfs holds.
pub fn pxe_network_unwrap<U: Fn(&[u8]) -> Result<Vec<Member>, String>>(
    archive: &[u8],
    unpack: &U,
) -> (r: Result<Extraction, LiveError>)
    requires
        forall|bytes: &[u8]| call_requires(*unpack, (bytes,)),
    ensures
        exists|files: Result<Map<Seq<char>, Seq<u8>>, Refusal>| #[trigger]
            initrd_filtered(archive@, seq![iso_config::network_pattern()], *unpack, files)
                && match files {
                Ok(files) => network::network_extracted(files, error::outcome(r)),
                Err(e) => error::outcome(r) == Err::<ExtractionView, Refusal>(e),
            },
{
    let read = read_filtered(archive, &iso_config::network_matcher(), unpack);
    assert(initrd_filtered(
        archive@,
        seq![iso_config::network_pattern()],
        *unpack,
        error::outcome(read),
    ));
    match read {
        Ok(files) => network::initrd_network_extract(&files),
        Err(e) => Err(e),
    }
}

/// The patterns of the files that count in an initramfs that is to be
/// customised.
pub open spec fn base_patterns() -> Seq<Seq<char>> {
    seq![
        INITRD_LIVE_STAMP_PATH@,
        INITRD_FEATURES_PATH@,
        INITRD_IGNITION_PATH@,
        iso_config::network_pattern(),
    ]
}

/// The matcher for the files that count in an initramfs that is to be
/// customised.
pub fn base_matcher() -> (r: GlobMatcher)
    ensures
        r@ == base_patterns(),
{
    let mut patterns: Vec<String> = Vec::new();
    patterns.push(INITRD_LIVE_STAMP_PATH.to_owned());
    patterns.push(INITRD_FEATURES_PATH.to_owned());
    patterns.push(INITRD_IGNITION_PATH.to_owned());
    patterns.push(text::joined(iso_config::INITRD_NETWORK_DIR, "/*"));
    assert(text::texts(patterns@) =~= base_patterns());
    GlobMatcher::new(patterns)
}

/// Why an initramfs is not to be customised: it is not that of a live system, or
/// it already is.
pub open spec fn base_refused(files: Map<Seq<char>, Seq<u8>>) -> Option<Refusal> {
    if !files.contains_key(INITRD_LIVE_STAMP_PATH@) {
        Some(Refusal::NotLiveInitrd)
    } else if files.contains_key(INITRD_IGNITION_PATH@) || iso_config::has_network(files) {
        Some(Refusal::InputAlreadyCustomized)
    } else {
        None
    }
}

/// Checks that an initramfs is one of a live system that is not customised.
pub fn check_base(files: &Initrd) -> (r: Result<(), LiveError>)
    ensures
        match r {
            Ok(()) => base_refused(files@) is None,
            Err(e) => base_refused(files@) == Some(e@),
        },
{
    if files.get(INITRD_LIVE_STAMP_PATH).is_none() {
        return Err(LiveError::NotLiveInitrd);
    }
    if files.get(INITRD_IGNITION_PATH).is_some() || !iso_config::find_network(files).is_empty() {
        return Err(LiveError::InputAlreadyCustomized);
    }
    Ok(())
}

/// How the features of the OS of an initramfs are read.
pub open spec fn initrd_features<F: Fn(&[u8]) -> Result<OsFeatures, String>>(
    files: Map<Seq<char>, Seq<u8>>,
    parse: F,
    r: Result<OsFeatures, Refusal>,
) -> bool {
    if files.contains_key(INITRD_FEATURES_PATH@) {
        customize_commands::features_parsed(files[INITRD_FEATURES_PATH@], parse, r)
    } else {
        r == Ok::<OsFeatures, Refusal>(customize_commands::no_features())
    }
}

/// Reads the features of the OS of an initramfs.
pub fn read_features<F: Fn(&[u8]) -> Result<OsFeatures, String>>(files: &Initrd, parse: &F) -> (r: Result<
    OsFeatures,
    LiveError,
>)
    requires
        forall|bytes: &[u8]| call_requires(*parse, (bytes,)),
    ensures
        initrd_features(files@, *parse, customize_commands::features_outcome(r)),
{
    match files.get(INITRD_FEATURES_PATH) {
        Some(json) => customize_commands::parse_features(json, parse),
        None => Ok(OsFeatures::default()),
    }
}

/// How the addition to an initramfs is made, once the features of its OS are
/// known.
pub open spec fn addition_made<
    A: Fn(&Ignition, &Directive) -> Result<(), String>,
    B: Fn(&Ignition) -> Result<Vec<u8>, String>,
    Y: Fn(&InstallConfig) -> Result<Vec<u8>, String>,
    E: Fn(&Initrd) -> Result<Vec<u8>, String>,
>(
    config: PxeCustomizeConfig,
    features: OsFeatures,
    accept: A,
    to_bytes: B,
    to_yaml: Y,
    encode: E,
    issued: Seq<NoticeView>,
    r: Result<Seq<u8>, Refusal>,
) -> bool {
    exists|files: Result<Map<Seq<char>, Seq<u8>>, Refusal>| #[trigger]
        customize_commands::live_initrd_made(
            config.common@,
            features,
            accept,
            to_bytes,
            to_yaml,
            issued,
            files,
        ) && match files {
            Err(e) => r == Err::<Seq<u8>, Refusal>(e),
            Ok(files) => initrd_encoded(files, encode, r),
        }
}

/// How the addition to an initramfs is made, once its files are known.
pub open spec fn base_customized<
    F: Fn(&[u8]) -> Result<OsFeatures, String>,
    A: Fn(&Ignition, &Directive) -> Result<(), String>,
    B: Fn(&Ignition) -> Result<Vec<u8>, String>,
    Y: Fn(&InstallConfig) -> Result<Vec<u8>, String>,
    E: Fn(&Initrd) -> Result<Vec<u8>, String>,
>(
    config: PxeCustomizeConfig,
    base: Map<Seq<char>, Seq<u8>>,
    parse_features: F,
    accept: A,
    to_bytes: B,
    to_yaml: Y,
    encode: E,
    issued: Seq<NoticeView>,
    r: Result<Seq<u8>, Refusal>,
) -> bool {
    match base_refused(base) {
        Some(e) => issued.len() == 0 && r == Err::<Seq<u8>, Refusal>(e),
        None => exists|features: Result<OsFeatures, Refusal>| #[trigger]
            initrd_features(base, parse_features, features) && match features {
                Err(e) => issued.len() == 0 && r == Err::<Seq<u8>, Refusal>(e),
                Ok(features) => addition_made(
                    config,
                    features,
                    accept,
                    to_bytes,
                    to_yaml,
                    encode,
                    issued,
                    r,
                ),
            },
    }
}

/// How the addition to an initramfs is made.
pub open spec fn archive_customized<
    U: Fn(&[u8]) -> Result<Vec<Member>, String>,
    F: Fn(&[u8]) -> Result<OsFeatures, String>,
    A: Fn(&Ignition, &Directive) -> Result<(), String>,
    B: Fn(&Ignition) -> Result<Vec<u8>, String>,
    Y: Fn(&InstallConfig) -> Result<Vec<u8>, String>,
    E: Fn(&Initrd) -> Result<Vec<u8>, String>,
>(
    config: PxeCustomizeConfig,
    archive: Seq<u8>,
    unpack: U,
    parse_features: F,
    accept: A,
    to_bytes: B,
    to_yaml: Y,
    encode: E,
    issued: Seq<NoticeView>,
    r: Result<Seq<u8>, Refusal>,
) -> bool {
    exists|base: Result<Map<Seq<char>, Seq<u8>>, Refusal>| #[trigger]
        initrd_filtered(archive, base_patterns(), unpack, base) && match base {
            Err(e) => issued.len() == 0 && r == Err::<Seq<u8>, Refusal>(e),
            Ok(base) => base_customized(
                config,
                base,
                parse_features,
                accept,
                to_bytes,
                to_yaml,
                encode,
                issued,
                r,
            ),
        }
}

/// The addition to an initramfs, once its files are known.
pub fn customize_base<
    F: Fn(&[u8]) -> Result<OsFeatures, String>,
    A: Fn(&Ignition, &Directive) -> Result<(), String>,
    B: Fn(&Ignition) -> Result<Vec<u8>, String>,
    Y: Fn(&InstallConfig) -> Result<Vec<u8>, String>,
    E: Fn(&Initrd) -> Result<Vec<u8>, String>,
>(
    config: &PxeCustomizeConfig,
    base: &Initrd,
    parse_features: &F,
    accept: &A,
    to_bytes: &B,
    to_yaml: &Y,
    encode: &E,
    notices: &mut Vec<Notice>,
) -> (r: Result<Vec<u8>, LiveError>)
    requires
        config.common.installer_config@.len() < u32::MAX,
        forall|bytes: &[u8]| call_requires(*parse_features, (bytes,)),
        forall|c: &Ignition, d: &Directive| call_requires(*accept, (c, d)),
        forall|config: &Ignition| call_requires(*to_bytes, (config,)),
        forall|config: &InstallConfig| call_requires(*to_yaml, (config,)),
        forall|initrd: &Initrd| call_requires(*encode, (initrd,)),
    ensures
        exists|issued: Seq<NoticeView>|
            customize::notice_views(final(notices)@) == customize::notice_views(old(notices)@)
                + issued && #[trigger] base_customized(
                *config,
                base@,
                *parse_features,
                *accept,
                *to_bytes,
                *to_yaml,
                *encode,
                issued,
                error::outcome(r),
            ),
{
    let ghost none = Seq::<NoticeView>::empty();
    assert(customize::notice_views(notices@) =~= customize::notice_views(notices@) + none);
    match check_base(base) {
        Ok(()) => {},
        Err(e) => {
            assert(base_customized(
                *config,
                base@,
                *parse_features,
                *accept,
                *to_bytes,
                *to_yaml,
                *encode,
                none,
                Err(e@),
            ));
            return Err(e);
        },
    }
    let features_read = read_features(base, parse_features);
    let ghost features_seen = customize_commands::features_outcome(features_read);
    assert(initrd_features(base@, *parse_features, features_seen));
    let features = match features_read {
        Ok(features) => features,
        Err(e) => {
            assert(base_customized(
                *config,
                base@,
                *parse_features,
                *accept,
                *to_bytes,
                *to_yaml,
                *encode,
                none,
                Err(e@),
            ));
            return Err(e);
        },
    };
    let ghost before = customize::notice_views(notices@);
    let made = customize_commands::live_initrd(
        &config.common,
        features,
        accept,
        to_bytes,
        to_yaml,
        notices,
    );
    let ghost files = error::outcome(made);
    let ghost issued = choose|issued: Seq<NoticeView>|
        customize::notice_views(notices@) == before + issued
            && #[trigger] customize_commands::live_initrd_made(
            config.common@,
            features,
            *accept,
            *to_bytes,
            *to_yaml,
            issued,
            files,
        );
    assert(customize_commands::live_initrd_made(
        config.common@,
        features,
        *accept,
        *to_bytes,
        *to_yaml,
        issued,
        files,
    ));
    let r = match made {
        Ok(initrd) => encode_initrd(&initrd, encode),
        Err(e) => Err(e),
    };
    assert(addition_made(
        *config,
        features,
        *accept,
        *to_bytes,
        *to_yaml,
        *encode,
        issued,
        error::outcome(r),
    ));
    assert(base_customized(
        *config,
        base@,
        *parse_features,
        *accept,
        *to_bytes,
        *to_yaml,
        *encode,
        issued,
        error::outcome(r),
    ));
    r
}

/// `pxe customize`: what is to be appended to the initramfs.
pub fn pxe_customize<
    U: Fn(&[u8]) -> Result<Vec<Member>, String>,
    F: Fn(&[u8]) -> Result<OsFeatures, String>,
    A: Fn(&Ignition, &Directive) -> Result<(), String>,
    B: Fn(&Ignition) -> Result<Vec<u8>, String>,
    Y: Fn(&InstallConfig) -> Result<Vec<u8>, String>,
    E: Fn(&Initrd) -> Result<Vec<u8>, String>,
>(
    config: &PxeCustomizeConfig,
    archive: &[u8],
    unpack: &U,
    parse_features: &F,
    accept: &A,
    to_bytes: &B,
    to_yaml: &Y,
    encode: &E,
    notices: &mut Vec<Notice>,
) -> (r: Result<Vec<u8>, LiveError>)
    requires
        config.common.installer_config@.len() < u32::MAX,
        forall|bytes: &[u8]| call_requires(*unpack, (bytes,)),
        forall|bytes: &[u8]| call_requires(*parse_features, (bytes,)),
        forall|c: &Ignition, d: &Directive| call_requires(*accept, (c, d)),
        forall|config: &Ignition| call_requires(*to_bytes, (config,)),
        forall|config: &InstallConfig| call_requires(*to_yaml, (config,)),
        forall|initrd: &Initrd| call_requires(*encode, (initrd,)),
    ensures
        exists|issued: Seq<NoticeView>|
            customize::notice_views(final(notices)@) == customize::notice_views(old(notices)@)
                + issued && #[trigger] archive_customized(
                *config,
                archive@,
                *unpack,
                *parse_features,
                *accept,
                *to_bytes,
                *to_yaml,
                *encode,
                issued,
                error::outcome(r),
            ),
{
    let ghost none = Seq::<NoticeView>::empty();
    let ghost before = customize::notice_views(notices@);
    assert(before =~= before + none);
    let read = read_filtered(archive, &base_matcher(), unpack);
    let ghost read_outcome = error::outcome(read);
    assert(initrd_filtered(archive@, base_patterns(), *unpack, read_outcome));
    let base = match read {
        Ok(base) => base,
        Err(e) => {
            assert(archive_customized(
                *config,
                archive@,
                *unpack,
                *parse_features,
                *accept,
                *to_bytes,
                *to_yaml,
                *encode,
                none,
                Err(e@),
            ));
            return Err(e);
        },
    };
    let r = customize_base(config, &base, parse_features, accept, to_bytes, to_yaml, encode, notices);
    let ghost issued = choose|issued: Seq<NoticeView>|
        customize::notice_views(notices@) == before + issued && #[trigger] base_customized(
            *config,
            base@,
            *parse_features,
            *accept,
            *to_bytes,
            *to_yaml,
            *encode,
            issued,
            error::outcome(r),
        );
    assert(archive_customized(
        *config,
        archive@,
        *unpack,
        *parse_features,
        *accept,
        *to_bytes,
        *to_yaml,
        *encode,
        issued,
        error::outcome(r),
    ));
    r
}

} // verus!
