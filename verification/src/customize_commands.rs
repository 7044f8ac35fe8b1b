//! The commands that customise a live image as a whole.

use crate::cmdline::IsoCustomizeConfig;
use crate::compose;
use crate::customize;
use crate::customize::{
    CommonCustomizeConfig, CommonView, InstallConfig, LiveInitrd, Notice, NoticeView, OsFeatures,
    Progress,
};
use crate::editor;
use crate::editor::{EditView, KargsEditor};
use crate::error;
use crate::error::{LiveError, Refusal};
use crate::ignition::{Directive, Ignition};
use crate::initrd::Initrd;
use crate::iso;
use crate::iso::{IsoFs, IsoView};
use crate::iso_config;
use crate::iso_config::{ConfigView, IsoConfig, INITRD_IGNITION_PATH};
use crate::kargs::KargEmbedInfo;
use crate::text;
use vstd::prelude::*;
use vstd::string::*;

verus! {

/// The file of an ISO image that lists the features of its OS.
pub const ISO_FEATURES_PATH: &'static str = "COREOS/FEATURES.JSO";

/// The file of a live initramfs that lists the features of its OS.
pub const INITRD_FEATURES_PATH: &'static str = "etc/coreos/features.json";

/// The file that marks the initramfs of a live system.
pub const INITRD_LIVE_STAMP_PATH: &'static str = "etc/coreos-live-initramfs";

/// The features of an OS that lists none.
pub open spec fn no_features() -> OsFeatures {
    OsFeatures { installer_config: false, live_initrd_network: false }
}

/// How a list of features is read.
pub open spec fn features_parsed<F: Fn(&[u8]) -> Result<OsFeatures, String>>(
    json: Seq<u8>,
    parse: F,
    r: Result<OsFeatures, Refusal>,
) -> bool {
    exists|bytes: &[u8], out: Result<OsFeatures, String>|
        {
            &&& bytes@ == json
            &&& #[trigger] call_ensures(parse, (bytes,), out)
            &&& r == match out {
                Ok(features) => Ok(features),
                Err(reason) => Err(Refusal::ParseFeatures { reason: reason@ }),
            }
        }
}

/// How the features of the OS of an image are read: an image without a list has
/// none.
pub open spec fn image_features<F: Fn(&[u8]) -> Result<OsFeatures, String>>(
    image: IsoView,
    parse: F,
    r: Result<OsFeatures, Refusal>,
) -> bool {
    match iso::file_at(image.entries, ISO_FEATURES_PATH@) {
        Err(Refusal::NotFound { .. }) => r == Ok::<OsFeatures, Refusal>(no_features()),
        Err(e) => r == Err::<OsFeatures, Refusal>(e),
        Ok(file) => features_parsed(iso::file_bytes(image.file, file), parse, r),
    }
}

/// The outcome of reading features.
pub open spec fn features_outcome(r: Result<OsFeatures, LiveError>) -> Result<OsFeatures, Refusal> {
    match r {
        Ok(features) => Ok(features),
        Err(e) => Err(e@),
    }
}

pub fn parse_features<F: Fn(&[u8]) -> Result<OsFeatures, String>>(bytes: &[u8], parse: &F) -> (r: Result<
    OsFeatures,
    LiveError,
>)
    requires
        forall|bytes: &[u8]| call_requires(*parse, (bytes,)),
    ensures
        features_parsed(bytes@, *parse, features_outcome(r)),
{
    match parse(bytes) {
        Ok(features) => Ok(features),
        Err(reason) => Err(LiveError::ParseFeatures { reason }),
    }
}

/// Reads the features of the OS of an image.
pub fn iso_features<F: Fn(&[u8]) -> Result<OsFeatures, String>>(image: &IsoFs, parse: &F) -> (r: Result<
    OsFeatures,
    LiveError,
>)
    requires
        forall|bytes: &[u8]| call_requires(*parse, (bytes,)),
    ensures
        image_features(image@, *parse, features_outcome(r)),
{
    match image.get_file(ISO_FEATURES_PATH) {
        Ok(file) => parse_features(image.read_file(&file), parse),
        Err(LiveError::NotFound { .. }) => Ok(OsFeatures::default()),
        Err(e) => Err(e),
    }
}

/// Why an image is not to be customised: it already is, unless that is forced.
pub open spec fn customized_already(config: ConfigView, force: bool) -> Option<Refusal> {
    let files = config.initrd.files;
    if force {
        None
    } else if files.contains_key(INITRD_IGNITION_PATH@) || iso_config::has_network(files) {
        Some(Refusal::AlreadyCustomized)
    } else {
        match config.kargs {
            None => Some(Refusal::KargAreasMissing),
            Some(areas) => if areas.args != areas.default {
                Some(Refusal::AlreadyCustomized)
            } else {
                None
            },
        }
    }
}

/// The initramfs that the common customisations make, and what the user is told
/// on the way. An Ignition config for the destination system is refused at once or
/// not at all.
pub open spec fn live_initrd_made<
    A: Fn(&Ignition, &Directive) -> Result<(), String>,
    B: Fn(&Ignition) -> Result<Vec<u8>, String>,
    Y: Fn(&InstallConfig) -> Result<Vec<u8>, String>,
>(
    common: CommonView,
    features: OsFeatures,
    accept: A,
    to_bytes: B,
    to_yaml: Y,
    issued: Seq<NoticeView>,
    r: Result<Map<Seq<char>, Seq<u8>>, Refusal>,
) -> bool {
    &&& r != Err::<Map<Seq<char>, Seq<u8>>, Refusal>(Refusal::SerializeUserIgnition)
    &&& exists|p: Progress|
        {
            &&& #[trigger] customize::common_applied(
                customize::untouched(features),
                common,
                accept,
                p,
            )
            &&& issued == p.live.notices
            &&& match p.refusal {
                Some(e) => r == Err::<Map<Seq<char>, Seq<u8>>, Refusal>(e),
                None => compose::made_initrd(
                    customize::told(p.live),
                    accept,
                    to_bytes,
                    to_yaml,
                    r,
                ),
            }
        }
}

/// How the kargs that an image was built with are edited.
pub open spec fn default_kargs_edited<K: Fn(&KargsEditor, &str) -> Result<String, String>>(
    config: ConfigView,
    editor: EditView,
    edit: K,
    r: Result<ConfigView, Refusal>,
) -> bool {
    match config.kargs {
        None => r == Err::<ConfigView, Refusal>(Refusal::KargAreasMissing),
        Some(areas) => exists|kargs: Result<Seq<char>, Refusal>| #[trigger]
            editor::edited(editor, areas.default, edit, kargs) && r == match kargs {
                Ok(kargs) => config.with_kargs(kargs),
                Err(e) => Err(e),
            },
    }
}

/// The edit that the parameters of `iso customize` ask for.
pub open spec fn live_edit(config: IsoCustomizeConfig) -> EditView {
    EditView {
        append: text::texts(config.live_karg_append@),
        replace: text::texts(config.live_karg_replace@),
        delete: text::texts(config.live_karg_delete@),
    }
}

/// Makes the initramfs that the common customisations ask for.
pub fn live_initrd<
    A: Fn(&Ignition, &Directive) -> Result<(), String>,
    B: Fn(&Ignition) -> Result<Vec<u8>, String>,
    Y: Fn(&InstallConfig) -> Result<Vec<u8>, String>,
>(
    common: &CommonCustomizeConfig,
    features: OsFeatures,
    accept: &A,
    to_bytes: &B,
    to_yaml: &Y,
    notices: &mut Vec<Notice>,
) -> (r: Result<Initrd, LiveError>)
    requires
        features.installer_config ==> common.installer_config@.len() < u32::MAX,
        forall|c: &Ignition, d: &Directive| call_requires(*accept, (c, d)),
        forall|config: &Ignition| call_requires(*to_bytes, (config,)),
        forall|config: &InstallConfig| call_requires(*to_yaml, (config,)),
    ensures
        exists|issued: Seq<NoticeView>|
            customize::notice_views(final(notices)@) == customize::notice_views(old(notices)@)
                + issued && #[trigger] live_initrd_made(
                common@,
                features,
                *accept,
                *to_bytes,
                *to_yaml,
                issued,
                error::outcome(r),
            ),
{
    let ghost before = customize::notice_views(notices@);
    let applied = LiveInitrd::from_common(common, features, accept, notices);
    let ghost p = choose|p: Progress|
        {
            &&& #[trigger] customize::common_applied(
                customize::untouched(features),
                common@,
                *accept,
                p,
            )
            &&& customize::notice_views(notices@) == before + p.live.notices
            &&& match applied {
                Ok(live) => p.refusal is None && live@ == customize::told(p.live),
                Err(e) => p.refusal == Some(e@),
            }
        };
    let ghost issued = p.live.notices;
    let r = match applied {
        Ok(live) => live.into_initrd(accept, to_bytes, to_yaml),
        Err(e) => Err(e),
    };
    assert(live_initrd_made(
        common@,
        features,
        *accept,
        *to_bytes,
        *to_yaml,
        issued,
        error::outcome(r),
    ));
    r
}

impl IsoConfig {
    /// Checks that the image is not customised already, unless that is forced.
    pub fn check_pristine(&self, force: bool) -> (r: Result<(), LiveError>)
        ensures
            match r {
                Ok(()) => customized_already(self@, force) is None,
                Err(e) => customized_already(self@, force) == Some(e@),
            },
    {
        if force {
            return Ok(());
        }
        if self.have_ignition() || self.have_network() {
            return Err(LiveError::AlreadyCustomized);
        }
        match (self.kargs(), self.kargs_default()) {
            (Ok(kargs), Ok(default)) => if text::same_text(kargs, default) {
                Ok(())
            } else {
                Err(LiveError::AlreadyCustomized)
            },
            (Err(e), _) => Err(e),
            (_, Err(e)) => Err(e),
        }
    }

    /// Sets the edited form of the kargs that the image was built with.
    pub fn modify_default_kargs<K: Fn(&KargsEditor, &str) -> Result<String, String>>(
        &mut self,
        editor: &KargsEditor,
        edit: &K,
    ) -> (r: Result<(), LiveError>)
        requires
            forall|editor: &KargsEditor, kargs: &str| call_requires(*edit, (editor, kargs)),
        ensures
            match r {
                Ok(()) => default_kargs_edited(old(self)@, editor@, *edit, Ok(final(self)@)),
                Err(e) => default_kargs_edited(old(self)@, editor@, *edit, Err(e@))
                    && final(self)@ == old(self)@,
            },
            old(self)@.wf() ==> final(self)@.wf(),
    {
        let edited = match self.kargs_default() {
            Ok(kargs) => editor.apply_to(kargs, edit),
            Err(e) => {
                return Err(e);
            },
        };
        assert(editor::edited(editor@, self@.kargs->0.default, *edit, error::outcome(edited)));
        match edited {
            Ok(kargs) => self.set_kargs(kargs.as_str()),
            Err(e) => Err(e),
        }
    }
}

/// How an image is customised once its customisation and features are known.
pub open spec fn config_customized<
    A: Fn(&Ignition, &Directive) -> Result<(), String>,
    B: Fn(&Ignition) -> Result<Vec<u8>, String>,
    Y: Fn(&InstallConfig) -> Result<Vec<u8>, String>,
    K: Fn(&KargsEditor, &str) -> Result<String, String>,
>(
    config: IsoCustomizeConfig,
    iso: ConfigView,
    features: OsFeatures,
    accept: A,
    to_bytes: B,
    to_yaml: Y,
    edit: K,
    issued: Seq<NoticeView>,
    r: Result<ConfigView, Refusal>,
) -> bool {
    exists|files: Result<Map<Seq<char>, Seq<u8>>, Refusal>| #[trigger]
        live_initrd_made(config.common@, features, accept, to_bytes, to_yaml, issued, files) && match files {
            Ok(files) => default_kargs_edited(iso.with_files(files), live_edit(config), edit, r),
            Err(e) => r == Err::<ConfigView, Refusal>(e),
        }
}

/// How an image is customised.
pub open spec fn image_customized<
    D: Fn(&[u8]) -> Result<Initrd, String>,
    P: Fn(&[u8]) -> Result<KargEmbedInfo, String>,
    F: Fn(&[u8]) -> Result<OsFeatures, String>,
    A: Fn(&Ignition, &Directive) -> Result<(), String>,
    B: Fn(&Ignition) -> Result<Vec<u8>, String>,
    Y: Fn(&InstallConfig) -> Result<Vec<u8>, String>,
    K: Fn(&KargsEditor, &str) -> Result<String, String>,
>(
    config: IsoCustomizeConfig,
    image: IsoView,
    decode: D,
    parse: P,
    parse_features: F,
    accept: A,
    to_bytes: B,
    to_yaml: Y,
    edit: K,
    issued: Seq<NoticeView>,
    r: Result<ConfigView, Refusal>,
) -> bool {
    exists|read: Result<ConfigView, Refusal>| #[trigger]
        iso_config::config_read(image, decode, parse, read) && match read {
            Err(e) => issued.len() == 0 && r == Err::<ConfigView, Refusal>(e),
            Ok(iso) => match customized_already(iso, config.force) {
                Some(e) => issued.len() == 0 && r == Err::<ConfigView, Refusal>(e),
                None => exists|features: Result<OsFeatures, Refusal>| #[trigger]
                    image_features(image, parse_features, features) && match features {
                        Err(e) => issued.len() == 0 && r == Err::<ConfigView, Refusal>(e),
                        Ok(features) => config_customized(
                            config,
                            iso,
                            features,
                            accept,
                            to_bytes,
                            to_yaml,
                            edit,
                            issued,
                            r,
                        ),
                    },
            },
        }
}

/// `iso customize`: the customisation that the parameters ask for.
pub fn iso_customize<
    D: Fn(&[u8]) -> Result<Initrd, String>,
    P: Fn(&[u8]) -> Result<KargEmbedInfo, String>,
    F: Fn(&[u8]) -> Result<OsFeatures, String>,
    A: Fn(&Ignition, &Directive) -> Result<(), String>,
    B: Fn(&Ignition) -> Result<Vec<u8>, String>,
    Y: Fn(&InstallConfig) -> Result<Vec<u8>, String>,
    K: Fn(&KargsEditor, &str) -> Result<String, String>,
>(
    config: &IsoCustomizeConfig,
    image: &IsoFs,
    decode: &D,
    parse: &P,
    parse_features: &F,
    accept: &A,
    to_bytes: &B,
    to_yaml: &Y,
    edit: &K,
    notices: &mut Vec<Notice>,
) -> (r: Result<IsoConfig, LiveError>)
    requires
        config.common.installer_config@.len() < u32::MAX,
        forall|bytes: &[u8]| call_requires(*decode, (bytes,)),
        forall|bytes: &[u8]| call_requires(*parse, (bytes,)),
        forall|bytes: &[u8]| call_requires(*parse_features, (bytes,)),
        forall|c: &Ignition, d: &Directive| call_requires(*accept, (c, d)),
        forall|config: &Ignition| call_requires(*to_bytes, (config,)),
        forall|config: &InstallConfig| call_requires(*to_yaml, (config,)),
        forall|editor: &KargsEditor, kargs: &str| call_requires(*edit, (editor, kargs)),
    ensures
        exists|issued: Seq<NoticeView>|
            customize::notice_views(final(notices)@) == customize::notice_views(old(notices)@)
                + issued && #[trigger] image_customized(
                *config,
                image@,
                *decode,
                *parse,
                *parse_features,
                *accept,
                *to_bytes,
                *to_yaml,
                *edit,
                issued,
                error::outcome(r),
            ),
        r matches Ok(iso) ==> iso@.wf(),
{
    let ghost none = Seq::<NoticeView>::empty();
    assert(customize::notice_views(notices@) =~= customize::notice_views(notices@) + none);
    let read = IsoConfig::for_iso(image, decode, parse);
    let ghost read_outcome = error::outcome(read);
    assert(iso_config::config_read(image@, *decode, *parse, read_outcome));
    let mut iso = match read {
        Ok(iso) => iso,
        Err(e) => {
            assert(image_customized(
                *config,
                image@,
                *decode,
                *parse,
                *parse_features,
                *accept,
                *to_bytes,
                *to_yaml,
                *edit,
                none,
                Err(e@),
            ));
            return Err(e);
        },
    };
    let ghost found = iso@;
    match iso.check_pristine(config.force) {
        Ok(()) => {},
        Err(e) => {
            assert(image_customized(
                *config,
                image@,
                *decode,
                *parse,
                *parse_features,
                *accept,
                *to_bytes,
                *to_yaml,
                *edit,
                none,
                Err(e@),
            ));
            return Err(e);
        },
    }
    let features_read = iso_features(image, parse_features);
    let ghost features_seen = features_outcome(features_read);
    assert(image_features(image@, *parse_features, features_seen));
    let features = match features_read {
        Ok(features) => features,
        Err(e) => {
            assert(image_customized(
                *config,
                image@,
                *decode,
                *parse,
                *parse_features,
                *accept,
                *to_bytes,
                *to_yaml,
                *edit,
                none,
                Err(e@),
            ));
            return Err(e);
        },
    };
    let ghost before = customize::notice_views(notices@);
    let made = live_initrd(&config.common, features, accept, to_bytes, to_yaml, notices);
    let ghost files = error::outcome(made);
    let ghost issued = choose|issued: Seq<NoticeView>|
        customize::notice_views(notices@) == before + issued && #[trigger] live_initrd_made(
            config.common@,
            features,
            *accept,
            *to_bytes,
            *to_yaml,
            issued,
            files,
        );
    assert(live_initrd_made(config.common@, features, *accept, *to_bytes, *to_yaml, issued, files));
    let initrd = match made {
        Ok(initrd) => initrd,
        Err(e) => {
            assert(config_customized(
                *config,
                found,
                features,
                *accept,
                *to_bytes,
                *to_yaml,
                *edit,
                issued,
                Err(e@),
            ));
            assert(image_customized(
                *config,
                image@,
                *decode,
                *parse,
                *parse_features,
                *accept,
                *to_bytes,
                *to_yaml,
                *edit,
                issued,
                Err(e@),
            ));
            return Err(e);
        },
    };
    *iso.initrd_mut() = initrd;
    let editor = KargsEditor::new().append(&config.live_karg_append).replace(
        &config.live_karg_replace,
    ).delete(&config.live_karg_delete);
    assert(editor@ =~= live_edit(*config));
    let r = match iso.modify_default_kargs(&editor, edit) {
        Ok(()) => Ok(iso),
        Err(e) => Err(e),
    };
    assert(config_customized(
        *config,
        found,
        features,
        *accept,
        *to_bytes,
        *to_yaml,
        *edit,
        issued,
        error::outcome(r),
    ));
    assert(image_customized(
        *config,
        image@,
        *decode,
        *parse,
        *parse_features,
        *accept,
        *to_bytes,
        *to_yaml,
        *edit,
        issued,
        error::outcome(r),
    ));
    r
}

} // verus!
