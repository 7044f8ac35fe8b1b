//! The commands on ISO images: what each makes of an image.

use crate::cmdline::{
    IsoEmbedConfig, IsoIgnitionEmbedConfig, IsoIgnitionRemoveConfig, IsoIgnitionShowConfig,
    IsoKargsModifyConfig, IsoKargsShowConfig, IsoNetworkEmbedConfig, IsoRemoveConfig, IsoShowConfig,
};
use crate::editor;
use crate::editor::{EditView, KargsEditor};
use crate::error;
use crate::error::{LiveError, Refusal};
use crate::initrd::Initrd;
use crate::input;
use crate::input::{InputFile, InputView};
use crate::iso::{IsoFs, IsoView};
use crate::iso_config;
use crate::iso_config::{ConfigView, IsoConfig, INITRD_IGNITION_PATH};
use crate::kargs::{AreasView, KargEmbedAreas, KargEmbedInfo};
use crate::network;
use crate::network::Extraction;
use crate::text;
use vstd::prelude::*;
use vstd::string::*;

verus! {

/// The command that `iso embed` stands for.
pub fn iso_embed(config: IsoEmbedConfig) -> (r: IsoIgnitionEmbedConfig)
    ensures
        r == (IsoIgnitionEmbedConfig {
            force: config.force,
            ignition_file: config.config,
            output: config.output,
            input: config.input,
        }),
{
    IsoIgnitionEmbedConfig {
        force: config.force,
        ignition_file: config.config,
        output: config.output,
        input: config.input,
    }
}

/// The command that `iso show` stands for.
pub fn iso_show(config: IsoShowConfig) -> (r: IsoIgnitionShowConfig)
    ensures
        r == (IsoIgnitionShowConfig { input: config.input, header: false }),
{
    IsoIgnitionShowConfig { input: config.input, header: false }
}

/// The command that `iso remove` stands for.
pub fn iso_remove(config: IsoRemoveConfig) -> (r: IsoIgnitionRemoveConfig)
    ensures
        r == (IsoIgnitionRemoveConfig { output: config.output, input: config.input }),
{
    IsoIgnitionRemoveConfig { output: config.output, input: config.input }
}

/// How a command changes an image: it reads the customisation, and changes it.
pub open spec fn image_changed<
    D: Fn(&[u8]) -> Result<Initrd, String>,
    P: Fn(&[u8]) -> Result<KargEmbedInfo, String>,
>(
    image: IsoView,
    decode: D,
    parse: P,
    change: spec_fn(ConfigView) -> Result<ConfigView, Refusal>,
    r: Result<ConfigView, Refusal>,
) -> bool {
    exists|read: Result<ConfigView, Refusal>| #[trigger]
        iso_config::config_read(image, decode, parse, read) && r == match read {
            Ok(config) => change(config),
            Err(e) => Err(e),
        }
}

/// A customisation with an Ignition config embedded.
pub open spec fn ignition_embedded(config: ConfigView, ignition: Seq<u8>, force: bool) -> Result<
    ConfigView,
    Refusal,
> {
    if !force && config.initrd.files.contains_key(INITRD_IGNITION_PATH@) {
        Err(Refusal::IgnitionPresent)
    } else {
        Ok(config.with_files(config.initrd.files.insert(INITRD_IGNITION_PATH@, ignition)))
    }
}

/// A customisation without an Ignition config.
pub open spec fn ignition_removed(config: ConfigView) -> ConfigView {
    config.with_files(config.initrd.files.remove(INITRD_IGNITION_PATH@))
}

/// The Ignition config of a customisation.
pub open spec fn ignition_shown(config: ConfigView) -> Result<Seq<u8>, Refusal> {
    if config.initrd.files.contains_key(INITRD_IGNITION_PATH@) {
        Ok(config.initrd.files[INITRD_IGNITION_PATH@])
    } else {
        Err(Refusal::NoIgnition)
    }
}

/// A customisation with network settings embedded, in place of those that it
/// has.
pub open spec fn network_embedded(
    config: ConfigView,
    keyfiles: Seq<InputView>,
    force: bool,
) -> Result<ConfigView, Refusal> {
    let files = config.initrd.files;
    if !force && iso_config::has_network(files) {
        Err(Refusal::NetworkPresent)
    } else {
        match network::keyfiles_added(iso_config::without_network(files), keyfiles) {
            (files, None) => Ok(config.with_files(files)),
            (_, Some(e)) => Err(e),
        }
    }
}

/// A customisation without network settings.
pub open spec fn network_removed(config: ConfigView) -> ConfigView {
    config.with_files(iso_config::without_network(config.initrd.files))
}

/// A customisation with the kargs that the image was built with.
pub open spec fn kargs_restored(config: ConfigView) -> Result<ConfigView, Refusal> {
    match config.kargs {
        Some(areas) => config.with_kargs(areas.default),
        None => Err(Refusal::KargAreasMissing),
    }
}

/// A customisation without files and with the kargs that the image was built
/// with.
pub open spec fn all_restored(config: ConfigView) -> Result<ConfigView, Refusal> {
    kargs_restored(config.with_files(Map::empty()))
}

/// How the kargs of a customisation are edited.
pub open spec fn kargs_edited<K: Fn(&KargsEditor, &str) -> Result<String, String>>(
    config: ConfigView,
    editor: EditView,
    edit: K,
    r: Result<ConfigView, Refusal>,
) -> bool {
    match config.kargs {
        None => r == Err::<ConfigView, Refusal>(Refusal::KargAreasMissing),
        Some(areas) => exists|kargs: Result<Seq<char>, Refusal>| #[trigger]
            editor::edited(editor, areas.args, edit, kargs) && r == match kargs {
                Ok(kargs) => config.with_kargs(kargs),
                Err(e) => Err(e),
            },
    }
}

/// The edit that the parameters of `iso kargs modify` ask for.
pub open spec fn modify_edit(config: IsoKargsModifyConfig) -> EditView {
    EditView {
        append: text::texts(config.append@),
        replace: text::texts(config.replace@),
        delete: text::texts(config.delete@),
    }
}

/// The outcome of changing a customisation in place.
pub open spec fn changed(
    expected: Result<ConfigView, Refusal>,
    after: ConfigView,
    r: Result<(), LiveError>,
) -> bool {
    match r {
        Ok(()) => expected == Ok::<ConfigView, Refusal>(after),
        Err(e) => expected == Err::<ConfigView, Refusal>(e@),
    }
}

impl IsoConfig {
    /// Embeds an Ignition config.
    pub fn embed_ignition(&mut self, ignition: Vec<u8>, force: bool) -> (r: Result<(), LiveError>)
        ensures
            changed(ignition_embedded(old(self)@, ignition@, force), final(self)@, r),
            r is Err ==> final(self)@ == old(self)@,
            old(self)@.wf() ==> final(self)@.wf(),
    {
        if !force && self.have_ignition() {
            return Err(LiveError::IgnitionPresent);
        }
        self.initrd_mut().add(INITRD_IGNITION_PATH, ignition);
        Ok(())
    }

    /// Takes the Ignition config away.
    pub fn remove_ignition(&mut self)
        ensures
            final(self)@ == ignition_removed(old(self)@),
            old(self)@.wf() ==> final(self)@.wf(),
    {
        self.initrd_mut().remove(INITRD_IGNITION_PATH);
    }

    /// The Ignition config.
    pub fn ignition(&self) -> (r: Result<&[u8], LiveError>)
        ensures
            match r {
                Ok(data) => ignition_shown(self@) == Ok::<Seq<u8>, Refusal>(data@),
                Err(e) => ignition_shown(self@) == Err::<Seq<u8>, Refusal>(e@),
            },
    {
        match self.initrd().get(INITRD_IGNITION_PATH) {
            Some(data) => Ok(data),
            None => Err(LiveError::NoIgnition),
        }
    }

    /// Embeds network settings, in place of those that there are.
    pub fn embed_network(&mut self, keyfiles: &Vec<InputFile>, force: bool) -> (r: Result<
        (),
        LiveError,
    >)
        ensures
            changed(
                network_embedded(old(self)@, input::input_views(keyfiles@), force),
                final(self)@,
                r,
            ),
            final(self)@ == (if !force && iso_config::has_network(old(self)@.initrd.files) {
                old(self)@
            } else {
                old(self)@.with_files(
                    network::keyfiles_added(
                        iso_config::without_network(old(self)@.initrd.files),
                        input::input_views(keyfiles@),
                    ).0,
                )
            }),
            old(self)@.wf() ==> final(self)@.wf(),
    {
        if !force && self.have_network() {
            return Err(LiveError::NetworkPresent);
        }
        self.remove_network();
        network::initrd_network_embed(self.initrd_mut(), keyfiles)
    }

    /// Sets the kargs that the image was built with.
    pub fn reset_kargs(&mut self) -> (r: Result<(), LiveError>)
        ensures
            changed(kargs_restored(old(self)@), final(self)@, r),
            r is Err ==> final(self)@ == old(self)@,
            old(self)@.wf() ==> final(self)@.wf(),
    {
        let kargs = match self.kargs_default() {
            Ok(kargs) => kargs.to_owned(),
            Err(e) => {
                return Err(e);
            },
        };
        self.set_kargs(kargs.as_str())
    }

    /// Takes all files away and sets the kargs that the image was built with.
    pub fn reset(&mut self) -> (r: Result<(), LiveError>)
        ensures
            changed(all_restored(old(self)@), final(self)@, r),
            r is Err ==> final(self)@ == old(self)@.with_files(Map::empty()),
            old(self)@.wf() ==> final(self)@.wf(),
    {
        *self.initrd_mut() = Initrd::default();
        self.reset_kargs()
    }
}

/// `iso ignition embed`: the customisation with the Ignition config.
pub fn iso_ignition_embed<
    D: Fn(&[u8]) -> Result<Initrd, String>,
    P: Fn(&[u8]) -> Result<KargEmbedInfo, String>,
>(
    config: &IsoIgnitionEmbedConfig,
    ignition: Vec<u8>,
    image: &IsoFs,
    decode: &D,
    parse: &P,
) -> (r: Result<IsoConfig, LiveError>)
    requires
        forall|bytes: &[u8]| call_requires(*decode, (bytes,)),
        forall|bytes: &[u8]| call_requires(*parse, (bytes,)),
    ensures
        image_changed(
            image@,
            *decode,
            *parse,
            |v: ConfigView| ignition_embedded(v, ignition@, config.force),
            error::outcome(r),
        ),
        r matches Ok(iso) ==> iso@.wf(),
{
    let read = IsoConfig::for_iso(image, decode, parse);
    assert(iso_config::config_read(image@, *decode, *parse, error::outcome(read)));
    let mut iso = match read {
        Ok(iso) => iso,
        Err(e) => {
            return Err(e);
        },
    };
    match iso.embed_ignition(ignition, config.force) {
        Ok(()) => Ok(iso),
        Err(e) => Err(e),
    }
}

/// `iso ignition remove`: the customisation without an Ignition config.
pub fn iso_ignition_remove<
    D: Fn(&[u8]) -> Result<Initrd, String>,
    P: Fn(&[u8]) -> Result<KargEmbedInfo, String>,
>(image: &IsoFs, decode: &D, parse: &P) -> (r: Result<IsoConfig, LiveError>)
    requires
        forall|bytes: &[u8]| call_requires(*decode, (bytes,)),
        forall|bytes: &[u8]| call_requires(*parse, (bytes,)),
    ensures
        image_changed(
            image@,
            *decode,
            *parse,
            |v: ConfigView| Ok(ignition_removed(v)),
            error::outcome(r),
        ),
        r matches Ok(iso) ==> iso@.wf(),
{
    let read = IsoConfig::for_iso(image, decode, parse);
    assert(iso_config::config_read(image@, *decode, *parse, error::outcome(read)));
    let mut iso = match read {
        Ok(iso) => iso,
        Err(e) => {
            return Err(e);
        },
    };
    iso.remove_ignition();
    Ok(iso)
}

/// `iso network embed`: the customisation with the network settings.
pub fn iso_network_embed<
    D: Fn(&[u8]) -> Result<Initrd, String>,
    P: Fn(&[u8]) -> Result<KargEmbedInfo, String>,
>(
    config: &IsoNetworkEmbedConfig,
    keyfiles: &Vec<InputFile>,
    image: &IsoFs,
    decode: &D,
    parse: &P,
) -> (r: Result<IsoConfig, LiveError>)
    requires
        forall|bytes: &[u8]| call_requires(*decode, (bytes,)),
        forall|bytes: &[u8]| call_requires(*parse, (bytes,)),
    ensures
        image_changed(
            image@,
            *decode,
            *parse,
            |v: ConfigView| network_embedded(v, input::input_views(keyfiles@), config.force),
            error::outcome(r),
        ),
        r matches Ok(iso) ==> iso@.wf(),
{
    let read = IsoConfig::for_iso(image, decode, parse);
    assert(iso_config::config_read(image@, *decode, *parse, error::outcome(read)));
    let mut iso = match read {
        Ok(iso) => iso,
        Err(e) => {
            return Err(e);
        },
    };
    match iso.embed_network(keyfiles, config.force) {
        Ok(()) => Ok(iso),
        Err(e) => Err(e),
    }
}

/// `iso network remove`: the customisation without network settings.
pub fn iso_network_remove<
    D: Fn(&[u8]) -> Result<Initrd, String>,
    P: Fn(&[u8]) -> Result<KargEmbedInfo, String>,
>(image: &IsoFs, decode: &D, parse: &P) -> (r: Result<IsoConfig, LiveError>)
    requires
        forall|bytes: &[u8]| call_requires(*decode, (bytes,)),
        forall|bytes: &[u8]| call_requires(*parse, (bytes,)),
    ensures
        image_changed(
            image@,
            *decode,
            *parse,
            |v: ConfigView| Ok(network_removed(v)),
            error::outcome(r),
        ),
        r matches Ok(iso) ==> iso@.wf(),
{
    let read = IsoConfig::for_iso(image, decode, parse);
    assert(iso_config::config_read(image@, *decode, *parse, error::outcome(read)));
    let mut iso = match read {
        Ok(iso) => iso,
        Err(e) => {
            return Err(e);
        },
    };
    iso.remove_network();
    Ok(iso)
}

/// `iso kargs reset`: the customisation with the kargs that the image was built with.
pub fn iso_kargs_reset<
    D: Fn(&[u8]) -> Result<Initrd, String>,
    P: Fn(&[u8]) -> Result<KargEmbedInfo, String>,
>(image: &IsoFs, decode: &D, parse: &P) -> (r: Result<IsoConfig, LiveError>)
    requires
        forall|bytes: &[u8]| call_requires(*decode, (bytes,)),
        forall|bytes: &[u8]| call_requires(*parse, (bytes,)),
    ensures
        image_changed(
            image@,
            *decode,
            *parse,
            |v: ConfigView| kargs_restored(v),
            error::outcome(r),
        ),
        r matches Ok(iso) ==> iso@.wf(),
{
    let read = IsoConfig::for_iso(image, decode, parse);
    assert(iso_config::config_read(image@, *decode, *parse, error::outcome(read)));
    let mut iso = match read {
        Ok(iso) => iso,
        Err(e) => {
            return Err(e);
        },
    };
    match iso.reset_kargs() {
        Ok(()) => Ok(iso),
        Err(e) => Err(e),
    }
}

/// `iso reset`: no files, and the kargs that the image was built with.
pub fn iso_reset<
    D: Fn(&[u8]) -> Result<Initrd, String>,
    P: Fn(&[u8]) -> Result<KargEmbedInfo, String>,
>(image: &IsoFs, decode: &D, parse: &P) -> (r: Result<IsoConfig, LiveError>)
    requires
        forall|bytes: &[u8]| call_requires(*decode, (bytes,)),
        forall|bytes: &[u8]| call_requires(*parse, (bytes,)),
    ensures
        image_changed(
            image@,
            *decode,
            *parse,
            |v: ConfigView| all_restored(v),
            error::outcome(r),
        ),
        r matches Ok(iso) ==> iso@.wf(),
{
    let read = IsoConfig::for_iso(image, decode, parse);
    assert(iso_config::config_read(image@, *decode, *parse, error::outcome(read)));
    let mut iso = match read {
        Ok(iso) => iso,
        Err(e) => {
            return Err(e);
        },
    };
    match iso.reset() {
        Ok(()) => Ok(iso),
        Err(e) => Err(e),
    }
}

impl IsoConfig {
    /// Edits the kargs.
    pub fn modify_kargs<K: Fn(&KargsEditor, &str) -> Result<String, String>>(
        &mut self,
        editor: &KargsEditor,
        edit: &K,
    ) -> (r: Result<(), LiveError>)
        requires
            forall|editor: &KargsEditor, kargs: &str| call_requires(*edit, (editor, kargs)),
        ensures
            match r {
                Ok(()) => kargs_edited(old(self)@, editor@, *edit, Ok(final(self)@)),
                Err(e) => kargs_edited(old(self)@, editor@, *edit, Err(e@)) && final(self)@
                    == old(self)@,
            },
            old(self)@.wf() ==> final(self)@.wf(),
    {
        let edited = match self.kargs() {
            Ok(kargs) => editor.apply_to(kargs, edit),
            Err(e) => {
                return Err(e);
            },
        };
        assert(editor::edited(editor@, self@.kargs->0.args, *edit, error::outcome(edited)));
        match edited {
            Ok(kargs) => self.set_kargs(kargs.as_str()),
            Err(e) => Err(e),
        }
    }
}

/// `iso kargs modify`: the customisation with edited kargs.
pub fn iso_kargs_modify<
    D: Fn(&[u8]) -> Result<Initrd, String>,
    P: Fn(&[u8]) -> Result<KargEmbedInfo, String>,
    K: Fn(&KargsEditor, &str) -> Result<String, String>,
>(config: &IsoKargsModifyConfig, image: &IsoFs, decode: &D, parse: &P, edit: &K) -> (r: Result<
    IsoConfig,
    LiveError,
>)
    requires
        forall|bytes: &[u8]| call_requires(*decode, (bytes,)),
        forall|bytes: &[u8]| call_requires(*parse, (bytes,)),
        forall|editor: &KargsEditor, kargs: &str| call_requires(*edit, (editor, kargs)),
    ensures
        exists|read: Result<ConfigView, Refusal>| #[trigger]
            iso_config::config_read(image@, *decode, *parse, read) && match read {
                Ok(iso) => kargs_edited(iso, modify_edit(*config), *edit, error::outcome(r)),
                Err(e) => error::outcome(r) == Err::<ConfigView, Refusal>(e),
            },
        r matches Ok(iso) ==> iso@.wf(),
{
    let read = IsoConfig::for_iso(image, decode, parse);
    assert(iso_config::config_read(image@, *decode, *parse, error::outcome(read)));
    let mut iso = match read {
        Ok(iso) => iso,
        Err(e) => {
            return Err(e);
        },
    };
    let editor = KargsEditor::new().append(&config.append).replace(&config.replace).delete(
        &config.delete,
    );
    assert(editor@ =~= modify_edit(*config));
    match iso.modify_kargs(&editor, edit) {
        Ok(()) => Ok(iso),
        Err(e) => Err(e),
    }
}

/// What `iso ignition show` shows.
#[derive(Debug)]
pub enum IgnitionShown {
    /// Where the embed area lies.
    Header { offset: u64, length: usize },
    /// The Ignition config.
    Config { data: Vec<u8> },
}

/// What is shown, with the config as a sequence.
pub enum IgnitionShownView {
    Header { offset: u64, length: usize },
    Config { data: Seq<u8> },
}

impl View for IgnitionShown {
    type V = IgnitionShownView;

    open spec fn view(&self) -> IgnitionShownView {
        match *self {
            IgnitionShown::Header { offset, length } => IgnitionShownView::Header {
                offset,
                length,
            },
            IgnitionShown::Config { data } => IgnitionShownView::Config { data: data@ },
        }
    }
}

/// What `iso ignition show` shows of a customisation.
pub open spec fn ignition_view(config: ConfigView, header: bool) -> Result<
    IgnitionShownView,
    Refusal,
> {
    if header {
        Ok(
            IgnitionShownView::Header {
                offset: config.initrd.region.offset,
                length: config.initrd.region.length,
            },
        )
    } else {
        match ignition_shown(config) {
            Ok(data) => Ok(IgnitionShownView::Config { data }),
            Err(e) => Err(e),
        }
    }
}

impl IsoConfig {
    /// What `iso ignition show` shows.
    pub fn show_ignition(&self, header: bool) -> (r: Result<IgnitionShown, LiveError>)
        ensures
            error::outcome(r) == ignition_view(self@, header),
    {
        if header {
            return Ok(
                IgnitionShown::Header {
                    offset: self.initrd.region.offset,
                    length: self.initrd.region.length,
                },
            );
        }
        match self.ignition() {
            Ok(found) => {
                let mut data: Vec<u8> = Vec::new();
                data.extend_from_slice(found);
                assert(data@ =~= found@);
                Ok(IgnitionShown::Config { data })
            },
            Err(e) => Err(e),
        }
    }
}

/// `iso ignition show`: the Ignition config, or where the embed area lies.
pub fn iso_ignition_show<
    D: Fn(&[u8]) -> Result<Initrd, String>,
    P: Fn(&[u8]) -> Result<KargEmbedInfo, String>,
>(config: &IsoIgnitionShowConfig, image: &IsoFs, decode: &D, parse: &P) -> (r: Result<
    IgnitionShown,
    LiveError,
>)
    requires
        forall|bytes: &[u8]| call_requires(*decode, (bytes,)),
        forall|bytes: &[u8]| call_requires(*parse, (bytes,)),
    ensures
        exists|read: Result<ConfigView, Refusal>| #[trigger]
            iso_config::config_read(image@, *decode, *parse, read) && error::outcome(r)
                == match read {
                Ok(iso) => ignition_view(iso, config.header),
                Err(e) => Err(e),
            },
{
    let read = IsoConfig::for_iso(image, decode, parse);
    assert(iso_config::config_read(image@, *decode, *parse, error::outcome(read)));
    let iso = match read {
        Ok(iso) => iso,
        Err(e) => {
            return Err(e);
        },
    };
    iso.show_ignition(config.header)
}

/// `iso network extract`: the network settings.
pub fn iso_network_extract<
    D: Fn(&[u8]) -> Result<Initrd, String>,
    P: Fn(&[u8]) -> Result<KargEmbedInfo, String>,
>(image: &IsoFs, decode: &D, parse: &P) -> (r: Result<Extraction, LiveError>)
    requires
        forall|bytes: &[u8]| call_requires(*decode, (bytes,)),
        forall|bytes: &[u8]| call_requires(*parse, (bytes,)),
    ensures
        exists|read: Result<ConfigView, Refusal>| #[trigger]
            iso_config::config_read(image@, *decode, *parse, read) && match read {
                Ok(iso) => network::network_extracted(iso.initrd.files, error::outcome(r)),
                Err(e) => error::outcome(r) == Err::<network::ExtractionView, Refusal>(e),
            },
{
    let read = IsoConfig::for_iso(image, decode, parse);
    assert(iso_config::config_read(image@, *decode, *parse, error::outcome(read)));
    let iso = match read {
        Ok(iso) => iso,
        Err(e) => {
            return Err(e);
        },
    };
    network::initrd_network_extract(iso.initrd())
}

/// What `iso kargs show` shows.
#[derive(Debug)]
pub enum KargsShown {
    /// Where the karg embed areas lie, if there are any.
    Header { areas: Option<KargEmbedAreas> },
    /// Kargs.
    Kargs { kargs: String },
}

/// What is shown, with its parts as views.
pub enum KargsShownView {
    Header { areas: Option<AreasView> },
    Kargs { kargs: Seq<char> },
}

impl View for KargsShown {
    type V = KargsShownView;

    open spec fn view(&self) -> KargsShownView {
        match *self {
            KargsShown::Header { areas } => KargsShownView::Header {
                areas: iso_config::optional_areas(areas),
            },
            KargsShown::Kargs { kargs } => KargsShownView::Kargs { kargs: kargs@ },
        }
    }
}

/// What `iso kargs show` shows of a customisation.
pub open spec fn kargs_view(config: ConfigView, header: bool, default: bool) -> Result<
    KargsShownView,
    Refusal,
> {
    if header {
        Ok(KargsShownView::Header { areas: config.kargs })
    } else {
        match config.kargs {
            None => Err(Refusal::KargAreasMissing),
            Some(areas) => Ok(
                KargsShownView::Kargs {
                    kargs: if default {
                        areas.default
                    } else {
                        areas.args
                    },
                },
            ),
        }
    }
}

impl IsoConfig {
    /// What `iso kargs show` shows.
    pub fn show_kargs(self, header: bool, default: bool) -> (r: Result<KargsShown, LiveError>)
        ensures
            error::outcome(r) == kargs_view(self@, header, default),
    {
        if header {
            return Ok(KargsShown::Header { areas: self.kargs });
        }
        let kargs = if default {
            self.kargs_default()
        } else {
            self.kargs()
        };
        match kargs {
            Ok(kargs) => Ok(KargsShown::Kargs { kargs: kargs.to_owned() }),
            Err(e) => Err(e),
        }
    }
}

/// `iso kargs show`: the kargs, or where the karg embed areas lie.
pub fn iso_kargs_show<
    D: Fn(&[u8]) -> Result<Initrd, String>,
    P: Fn(&[u8]) -> Result<KargEmbedInfo, String>,
>(config: &IsoKargsShowConfig, image: &IsoFs, decode: &D, parse: &P) -> (r: Result<
    KargsShown,
    LiveError,
>)
    requires
        forall|bytes: &[u8]| call_requires(*decode, (bytes,)),
        forall|bytes: &[u8]| call_requires(*parse, (bytes,)),
    ensures
        exists|read: Result<ConfigView, Refusal>| #[trigger]
            iso_config::config_read(image@, *decode, *parse, read) && error::outcome(r)
                == match read {
                Ok(iso) => kargs_view(iso, config.header, config.default),
                Err(e) => Err(e),
            },
{
    let read = IsoConfig::for_iso(image, decode, parse);
    assert(iso_config::config_read(image@, *decode, *parse, error::outcome(read)));
    let iso = match read {
        Ok(iso) => iso,
        Err(e) => {
            return Err(e);
        },
    };
    iso.show_kargs(config.header, config.default)
}

} // verus!
