//! The customisation of a live system, and of the system that it installs.

use crate::error::{LiveError, Refusal};
use crate::hook;
use crate::hook::Hook;
use crate::ignition;
use crate::ignition::{Directive, DirectiveView, Ignition};
use crate::initrd::Initrd;
use crate::input;
use crate::input::{InputFile, InputView};
use crate::iso_config;
use crate::series;
use crate::text;
use vstd::prelude::*;
use vstd::string::*;

verus! {

/// What an OS image is able to do with a customisation.
#[derive(Clone, Copy, Debug, PartialEq, Eq, Structural)]
pub struct OsFeatures {
    /// The installer reads config files from `/etc/coreos/installer.d`.
    pub installer_config: bool,
    /// The live initramfs reads keyfiles from `/etc/coreos-firstboot-network`.
    pub live_initrd_network: bool,
}

impl Default for OsFeatures {
    fn default() -> (r: OsFeatures)
        ensures
            !r.installer_config,
            !r.live_initrd_network,
    {
        OsFeatures { installer_config: false, live_initrd_network: false }
    }
}

/// The parameters that are handed to the installer.
#[derive(Debug)]
pub struct InstallConfig {
    pub dest_device: Option<String>,
    pub append_karg: Vec<String>,
    pub delete_karg: Vec<String>,
    pub ignition_file: Option<String>,
    pub copy_network: bool,
}

/// Installer parameters with their texts as sequences.
#[verifier::ext_equal]
pub struct InstallView {
    pub dest_device: Option<Seq<char>>,
    pub append_karg: Seq<Seq<char>>,
    pub delete_karg: Seq<Seq<char>>,
    pub ignition_file: Option<Seq<char>>,
    pub copy_network: bool,
}

/// The view of a text that may be absent.
pub open spec fn optional_text(s: Option<String>) -> Option<Seq<char>> {
    match s {
        Some(s) => Some(s@),
        None => None,
    }
}

impl View for InstallConfig {
    type V = InstallView;

    open spec fn view(&self) -> InstallView {
        InstallView {
            dest_device: optional_text(self.dest_device),
            append_karg: text::texts(self.append_karg@),
            delete_karg: text::texts(self.delete_karg@),
            ignition_file: optional_text(self.ignition_file),
            copy_network: self.copy_network,
        }
    }
}

/// Installer parameters of which none is set.
pub open spec fn no_parameters() -> InstallView {
    InstallView {
        dest_device: None,
        append_karg: Seq::empty(),
        delete_karg: Seq::empty(),
        ignition_file: None,
        copy_network: false,
    }
}

impl Default for InstallConfig {
    fn default() -> (r: InstallConfig)
        ensures
            r@ == no_parameters(),
    {
        let r = InstallConfig {
            dest_device: None,
            append_karg: Vec::new(),
            delete_karg: Vec::new(),
            ignition_file: None,
            copy_network: false,
        };
        assert(r@ =~= no_parameters());
        r
    }
}

/// Something that the user should be told.
#[derive(Debug)]
pub enum Notice {
    /// The boot media will overwrite a device without asking.
    Overwrite { device: String },
    /// The parser of a config has a warning.
    ConfigWarning { path: String, warning: String },
}

/// A notice with its texts as sequences.
pub enum NoticeView {
    Overwrite { device: Seq<char> },
    ConfigWarning { path: Seq<char>, warning: Seq<char> },
}

impl View for Notice {
    type V = NoticeView;

    open spec fn view(&self) -> NoticeView {
        match *self {
            Notice::Overwrite { device } => NoticeView::Overwrite { device: device@ },
            Notice::ConfigWarning { path, warning } => NoticeView::ConfigWarning {
                path: path@,
                warning: warning@,
            },
        }
    }
}

/// The views of a list of notices.
pub open spec fn notice_views(v: Seq<Notice>) -> Seq<NoticeView> {
    v.map_values(|n: Notice| n@)
}

/// The notices for the warnings of a parser.
pub open spec fn warning_notices(path: Seq<char>, warnings: Seq<Seq<char>>) -> Seq<NoticeView> {
    Seq::new(
        warnings.len(),
        |i: int| NoticeView::ConfigWarning { path, warning: warnings[i] },
    )
}

/// The contents of each byte string of a list.
pub open spec fn byte_views(v: Seq<Vec<u8>>) -> Seq<Seq<u8>> {
    v.map_values(|b: Vec<u8>| b@)
}

/// A customisation on the way to an initramfs for the live system.
#[derive(Debug)]
pub struct LiveInitrd {
    /// What the OS image is able to do.
    pub features: OsFeatures,
    /// The initramfs for the live system.
    pub initrd: Initrd,
    /// The Ignition config for the live system.
    pub live: Ignition,
    /// The Ignition config for the destination system.
    pub dest: Option<Ignition>,
    /// The sources of the user's Ignition configs for the destination system,
    /// which are merged into its config or become it.
    pub user_dest: Vec<Vec<u8>>,
    /// Our own parameters for the installer, without the configs of the user.
    pub installer: Option<InstallConfig>,
    /// Whether the installer is to copy network settings, if it runs.
    pub installer_copy_network: bool,
    /// Certificate authorities for the destination system, if it has an Ignition
    /// config.
    pub dest_ca: Vec<Vec<u8>>,
    /// The number that begins the name of the next installer config.
    pub installer_serial: u32,
    /// What the user should be told.
    pub notices: Vec<Notice>,
}

/// A customisation with its parts as views.
#[verifier::ext_equal]
pub struct LiveView {
    pub features: OsFeatures,
    pub files: Map<Seq<char>, Seq<u8>>,
    pub live: Seq<DirectiveView>,
    pub dest: Option<Seq<DirectiveView>>,
    pub user_dest: Seq<Seq<u8>>,
    pub installer: Option<InstallView>,
    pub installer_copy_network: bool,
    pub dest_ca: Seq<Seq<u8>>,
    pub installer_serial: u32,
    pub notices: Seq<NoticeView>,
}

/// The view of an Ignition config that may be absent.
pub open spec fn optional_ignition(v: Option<Ignition>) -> Option<Seq<DirectiveView>> {
    match v {
        Some(v) => Some(v@),
        None => None,
    }
}

/// The view of installer parameters that may be absent.
pub open spec fn optional_install(v: Option<InstallConfig>) -> Option<InstallView> {
    match v {
        Some(v) => Some(v@),
        None => None,
    }
}

impl View for LiveInitrd {
    type V = LiveView;

    open spec fn view(&self) -> LiveView {
        LiveView {
            features: self.features,
            files: self.initrd@,
            live: self.live@,
            dest: optional_ignition(self.dest),
            user_dest: byte_views(self.user_dest@),
            installer: optional_install(self.installer),
            installer_copy_network: self.installer_copy_network,
            dest_ca: byte_views(self.dest_ca@),
            installer_serial: self.installer_serial,
            notices: notice_views(self.notices@),
        }
    }
}

impl LiveView {
    /// Whether there is a number left for one more installer config, if the OS
    /// takes any.
    pub open spec fn has_room(self) -> bool {
        self.features.installer_config ==> self.installer_serial < u32::MAX
    }

    /// Whether no Ignition config has been named to the installer.
    pub open spec fn names_no_config(self) -> bool {
        self.installer matches Some(installer) ==> installer.ignition_file is None
    }

    /// Whether the parser accepts each Ignition config of the user for the
    /// destination system.
    pub open spec fn dest_accepted(self) -> bool {
        forall|i: int|
            0 <= i < self.user_dest.len() ==> ignition::ignition_warnings(
                #[trigger] self.user_dest[i],
            ) is Some
    }
}

/// A customisation that asks for nothing.
pub open spec fn untouched(features: OsFeatures) -> LiveView {
    LiveView {
        features,
        files: Map::empty(),
        live: Seq::empty(),
        dest: None,
        user_dest: Seq::empty(),
        installer: None,
        installer_copy_network: false,
        dest_ca: Seq::empty(),
        installer_serial: 0,
        notices: Seq::empty(),
    }
}

/// The installer parameters of a customisation, which are made if there are none.
pub open spec fn parameters(installer: Option<InstallView>) -> InstallView {
    match installer {
        Some(installer) => installer,
        None => no_parameters(),
    }
}

/// The outcome of a step: the customisation that it leads to, or an error and no
/// change.
pub open spec fn stepped(
    before: LiveView,
    expected: Result<LiveView, Refusal>,
    after: LiveView,
    r: Result<(), LiveError>,
) -> bool {
    match r {
        Ok(()) => expected == Ok::<LiveView, Refusal>(after),
        Err(e) => expected == Err::<LiveView, Refusal>(e@) && after == before,
    }
}

/// How far a series of steps got: the customisation so far, and the error that
/// ended the series, if any.
#[verifier::ext_equal]
pub struct Progress {
    pub live: LiveView,
    pub refusal: Option<Refusal>,
}

impl Progress {
    /// The progress after a further step.
    pub open spec fn and_step(self, next: Result<LiveView, Refusal>) -> Progress {
        match (self.refusal, next) {
            (Some(_), _) => self,
            (None, Ok(live)) => Progress { live, refusal: None },
            (None, Err(e)) => Progress { refusal: Some(e), ..self },
        }
    }

    /// The customisation, unless there was an error.
    pub open spec fn outcome(self) -> Result<LiveView, Refusal> {
        match self.refusal {
            Some(e) => Err(e),
            None => Ok(self.live),
        }
    }
}

/// The progress to a customisation, without an error.
pub open spec fn reached(live: LiveView) -> Progress {
    Progress { live, refusal: None }
}

/// The progress to a customisation and an error there.
pub open spec fn refused(live: LiveView, e: Refusal) -> Progress {
    Progress { live, refusal: Some(e) }
}

/// How far a function got that changes a customisation.
pub open spec fn attained(after: LiveView, r: Result<(), LiveError>) -> Progress {
    match r {
        Ok(()) => reached(after),
        Err(e) => refused(after, e@),
    }
}

/// How a directive is added to the Ignition config for the live system.
pub open spec fn live_extended<A: Fn(&Ignition, &Directive) -> Result<(), String>>(
    v: LiveView,
    directive: DirectiveView,
    accept: A,
    p: Progress,
) -> bool {
    exists|live: Result<Seq<DirectiveView>, Seq<char>>| #[trigger]
        ignition::directive_added(v.live, directive, accept, live) && p == match live {
            Ok(live) => reached(LiveView { live, ..v }),
            Err(reason) => refused(v, Refusal::AddDirective { reason }),
        }
}

/// Adding an Ignition config of the user for the destination system.
pub open spec fn dest_ignition_step(v: LiveView, file: InputView) -> Result<LiveView, Refusal> {
    match file.bytes() {
        Err(e) => Err(e),
        Ok(data) => match ignition::ignition_warnings(data) {
            None => Err(Refusal::ParseIgnition { path: file.path }),
            Some(warnings) => Ok(
                LiveView {
                    user_dest: v.user_dest.push(data),
                    notices: v.notices + warning_notices(file.path, warnings),
                    ..v
                },
            ),
        },
    }
}

/// Setting the device to install to.
pub open spec fn dest_device_step(v: LiveView, device: Seq<char>) -> LiveView {
    LiveView {
        installer: Some(
            InstallView { dest_device: Some(device), ..parameters(v.installer) },
        ),
        notices: v.notices.push(NoticeView::Overwrite { device }),
        ..v
    }
}

/// Adding a karg of the destination system.
pub open spec fn dest_karg_append_step(v: LiveView, arg: Seq<char>) -> LiveView {
    LiveView {
        installer: Some(
            InstallView {
                append_karg: parameters(v.installer).append_karg.push(arg),
                ..parameters(v.installer)
            },
        ),
        ..v
    }
}

/// Deleting a karg of the destination system.
pub open spec fn dest_karg_delete_step(v: LiveView, arg: Seq<char>) -> LiveView {
    LiveView {
        installer: Some(
            InstallView {
                delete_karg: parameters(v.installer).delete_karg.push(arg),
                ..parameters(v.installer)
            },
        ),
        ..v
    }
}

/// Adding network settings.
pub open spec fn network_keyfile_step(v: LiveView, file: InputView) -> Result<LiveView, Refusal> {
    if !v.features.live_initrd_network {
        Err(Refusal::NetworkUnsupported)
    } else {
        match (file.bytes(), input::named(file.path)) {
            (Err(e), _) => Err(e),
            (_, Err(e)) => Err(e),
            (Ok(data), Ok(name)) => if v.files.contains_key(iso_config::keyfile_path(name)) {
                Err(Refusal::KeyfileRepeated { name })
            } else {
                Ok(
                    LiveView {
                        files: v.files.insert(iso_config::keyfile_path(name), data),
                        installer_copy_network: true,
                        ..v
                    },
                )
            },
        }
    }
}

/// Adding a certificate authority.
pub open spec fn ignition_ca_step<A: Fn(&Ignition, &Directive) -> Result<(), String>>(
    v: LiveView,
    file: InputView,
    accept: A,
    p: Progress,
) -> bool {
    match file.bytes() {
        Err(e) => p == refused(v, e),
        Ok(data) => exists|added: Progress| #[trigger]
            live_extended(v, DirectiveView::Ca { certificate: data }, accept, added) && p
                == added.and_step(
                Ok(LiveView { dest_ca: v.dest_ca.push(data), ..added.live }),
            ),
    }
}

/// Adding a script that runs before or after the installation.
pub open spec fn install_hook_step<A: Fn(&Ignition, &Directive) -> Result<(), String>>(
    v: LiveView,
    hook: Hook,
    file: InputView,
    accept: A,
    p: Progress,
) -> bool {
    match (file.bytes(), input::named(file.path)) {
        (Err(e), _) => p == refused(v, e),
        (_, Err(e)) => p == refused(v, e),
        (Ok(data), Ok(name)) => exists|script: Progress| #[trigger]
            live_extended(
                v,
                DirectiveView::File { path: hook::hook_script_path(hook, name), data, mode: 0o700 },
                accept,
                script,
            ) && if script.refusal is Some {
                p == script
            } else {
                live_extended(
                    script.live,
                    DirectiveView::Unit {
                        name: hook::hook_unit_name(hook, name),
                        contents: hook::hook_unit(hook, name),
                        enabled: true,
                    },
                    accept,
                    p,
                )
            },
    }
}

/// Where the installer config of a number and a name is put.
pub open spec fn installer_config_path(serial: u32, name: Seq<char>) -> Seq<char> {
    "/etc/coreos/installer.d/"@ + text::zero_padded(text::decimal(serial as nat), 4) + "-"@ + name
}

/// Adding an installer config of a name.
pub open spec fn installer_config_bytes_step<A: Fn(&Ignition, &Directive) -> Result<(), String>>(
    v: LiveView,
    name: Seq<char>,
    data: Seq<u8>,
    accept: A,
    p: Progress,
) -> bool {
    if !v.features.installer_config {
        p == refused(v, Refusal::InstallerConfigUnsupported)
    } else {
        exists|added: Progress| #[trigger]
            live_extended(
                v,
                DirectiveView::File {
                    path: installer_config_path(v.installer_serial, name),
                    data,
                    mode: 0o600,
                },
                accept,
                added,
            ) && p == added.and_step(
                Ok(
                    LiveView {
                        installer_serial: (v.installer_serial + 1) as u32,
                        ..added.live
                    },
                ),
            )
    }
}

/// Adding an Ignition config of the user for the live system. The user is told of
/// the warnings also if the config cannot be merged.
pub open spec fn live_config_step<A: Fn(&Ignition, &Directive) -> Result<(), String>>(
    v: LiveView,
    file: InputView,
    accept: A,
    p: Progress,
) -> bool {
    match file.bytes() {
        Err(e) => p == refused(v, e),
        Ok(data) => match ignition::ignition_warnings(data) {
            None => p == refused(v, Refusal::ParseIgnition { path: file.path }),
            Some(warnings) => exists|live: Result<Seq<DirectiveView>, Seq<char>>| #[trigger]
                ignition::directive_added(
                    v.live,
                    DirectiveView::Merge { source: data },
                    accept,
                    live,
                ) && p == {
                    let noted = LiveView {
                        notices: v.notices + warning_notices(file.path, warnings),
                        ..v
                    };
                    match live {
                        Ok(live) => reached(LiveView { live, ..noted }),
                        Err(reason) => refused(
                            noted,
                            Refusal::MergeIgnition { path: file.path, reason },
                        ),
                    }
                },
        },
    }
}

/// Adds the notices for the warnings of a parser.
fn note_warnings(notices: &mut Vec<Notice>, path: &str, warnings: Vec<String>)
    ensures
        notice_views(final(notices)@) == notice_views(old(notices)@) + warning_notices(
            path@,
            text::texts(warnings@),
        ),
{
    let ghost before = notice_views(notices@);
    let ghost all = warning_notices(path@, text::texts(warnings@));
    let mut i: usize = 0;
    assert(notice_views(notices@) =~= before + all.take(0));
    while i < warnings.len()
        invariant
            i <= warnings.len(),
            all == warning_notices(path@, text::texts(warnings@)),
            notice_views(notices@) == before + all.take(i as int),
        decreases warnings.len() - i,
    {
        let ghost sofar = notice_views(notices@);
        notices.push(
            Notice::ConfigWarning { path: path.to_owned(), warning: warnings[i].clone() },
        );
        assert(notice_views(notices@) =~= sofar.push(all[i as int]));
        assert(all.take(i + 1) =~= all.take(i as int).push(all[i as int]));
        assert(notice_views(notices@) =~= before + all.take(i + 1));
        i = i + 1;
    }
    assert(all.take(i as int) =~= all);
}

/// Whether an outcome is that of adding a directive.
pub open spec fn is_taken(added: Result<(), String>, r: Result<(), LiveError>) -> bool {
    match (added, r) {
        (Ok(()), Ok(())) => true,
        (Err(reason), Err(e)) => e@ == (Refusal::AddDirective { reason: reason@ }),
        _ => false,
    }
}

/// The outcome of adding a directive, with the error of a customisation.
pub(crate) fn taken(added: Result<(), String>) -> (r: Result<(), LiveError>)
    ensures
        is_taken(added, r),
{
    match added {
        Ok(()) => Ok(()),
        Err(reason) => Err(LiveError::AddDirective { reason }),
    }
}

/// A directive that has been added to the Ignition config for the live system
/// extends the customisation.
pub(crate) proof fn lemma_extended<A: Fn(&Ignition, &Directive) -> Result<(), String>>(
    before: LiveView,
    directive: DirectiveView,
    accept: A,
    after: LiveView,
    added: Result<(), String>,
    r: Result<(), LiveError>,
)
    requires
        ignition::directive_added(
            before.live,
            directive,
            accept,
            ignition::adding_outcome(after.live, added),
        ),
        added is Err ==> after.live == before.live,
        after == (LiveView { live: after.live, ..before }),
        is_taken(added, r),
    ensures
        live_extended(before, directive, accept, attained(after, r)),
{
}

/// A copy of bytes.
pub(crate) fn copied(bytes: &Vec<u8>) -> (r: Vec<u8>)
    ensures
        r@ == bytes@,
{
    let r = bytes.clone();
    assert(r@ =~= bytes@);
    r
}

impl LiveInitrd {
    /// A customisation that asks for nothing.
    pub fn new(features: OsFeatures) -> (r: LiveInitrd)
        ensures
            r@ == untouched(features),
    {
        let r = LiveInitrd {
            features,
            initrd: Initrd::default(),
            live: Ignition::default(),
            dest: None,
            user_dest: Vec::new(),
            installer: None,
            installer_copy_network: false,
            dest_ca: Vec::new(),
            installer_serial: 0,
            notices: Vec::new(),
        };
        assert(r@ =~= untouched(features));
        r
    }

    /// Adds an Ignition config of the user for the destination system.
    pub fn dest_ignition(&mut self, file: &InputFile) -> (r: Result<(), LiveError>)
        ensures
            stepped(old(self)@, dest_ignition_step(old(self)@, file@), final(self)@, r),
    {
        let data = match file.bytes() {
            Ok(data) => data,
            Err(e) => {
                return Err(e);
            },
        };
        match ignition::parse_ignition(data.as_slice()) {
            Err(error) => Err(LiveError::ParseIgnition { path: file.path.clone(), error }),
            Ok(warnings) => {
                note_warnings(&mut self.notices, file.path.as_str(), warnings);
                let ghost bytes = data@;
                self.user_dest.push(data);
                assert(self@.user_dest =~= old(self)@.user_dest.push(bytes));
                Ok(())
            },
        }
    }

    /// The installer parameters, which are made if there are none.
    pub(crate) fn take_installer(&mut self) -> (r: InstallConfig)
        ensures
            r@ == parameters(old(self)@.installer),
            final(self)@ == (LiveView { installer: None, ..old(self)@ }),
    {
        match self.installer.take() {
            Some(installer) => installer,
            None => InstallConfig::default(),
        }
    }

    /// Sets the device to install to.
    pub fn dest_device(&mut self, device: &str)
        ensures
            final(self)@ == dest_device_step(old(self)@, device@),
    {
        self.notices.push(Notice::Overwrite { device: device.to_owned() });
        assert(self@.notices =~= old(self)@.notices.push(
            NoticeView::Overwrite { device: device@ },
        ));
        let mut installer = self.take_installer();
        installer.dest_device = Some(device.to_owned());
        self.installer = Some(installer);
        assert(self@ =~= dest_device_step(old(self)@, device@));
    }

    /// Adds a karg of the destination system.
    pub fn dest_karg_append(&mut self, arg: &str)
        ensures
            final(self)@ == dest_karg_append_step(old(self)@, arg@),
    {
        let mut installer = self.take_installer();
        let ghost before = installer@;
        installer.append_karg.push(arg.to_owned());
        assert(installer@.append_karg =~= before.append_karg.push(arg@));
        self.installer = Some(installer);
        assert(self@ =~= dest_karg_append_step(old(self)@, arg@));
    }

    /// Deletes a karg of the destination system.
    pub fn dest_karg_delete(&mut self, arg: &str)
        ensures
            final(self)@ == dest_karg_delete_step(old(self)@, arg@),
    {
        let mut installer = self.take_installer();
        let ghost before = installer@;
        installer.delete_karg.push(arg.to_owned());
        assert(installer@.delete_karg =~= before.delete_karg.push(arg@));
        self.installer = Some(installer);
        assert(self@ =~= dest_karg_delete_step(old(self)@, arg@));
    }

    /// Adds network settings.
    pub fn network_keyfile(&mut self, file: &InputFile) -> (r: Result<(), LiveError>)
        ensures
            stepped(old(self)@, network_keyfile_step(old(self)@, file@), final(self)@, r),
    {
        if !self.features.live_initrd_network {
            return Err(LiveError::NetworkUnsupported);
        }
        let data = match file.bytes() {
            Ok(data) => data,
            Err(e) => {
                return Err(e);
            },
        };
        let name = match input::filename(file.path.as_str()) {
            Ok(name) => name,
            Err(e) => {
                return Err(e);
            },
        };
        let path = iso_config::keyfile_path_text(name.as_str());
        if self.initrd.get(path.as_str()).is_some() {
            return Err(LiveError::KeyfileRepeated { name });
        }
        self.initrd.add(path.as_str(), data);
        self.installer_copy_network = true;
        Ok(())
    }

    /// Adds a certificate authority.
    pub fn ignition_ca<A: Fn(&Ignition, &Directive) -> Result<(), String>>(
        &mut self,
        file: &InputFile,
        accept: &A,
    ) -> (r: Result<(), LiveError>)
        requires
            forall|c: &Ignition, d: &Directive| call_requires(*accept, (c, d)),
        ensures
            ignition_ca_step(old(self)@, file@, *accept, attained(final(self)@, r)),
    {
        let data = match file.bytes() {
            Ok(data) => data,
            Err(e) => {
                return Err(e);
            },
        };
        let ghost bytes = data@;
        let out = self.live.add_ca(copied(&data), accept);
        let ghost verdict = out;
        let added = taken(out);
        proof {
            let ca = DirectiveView::Ca { certificate: bytes };
            lemma_extended(old(self)@, ca, *accept, self@, verdict, added);
        }
        match added {
            Ok(()) => {},
            Err(e) => {
                return Err(e);
            },
        }
        self.dest_ca.push(data);
        assert(self@.dest_ca =~= old(self)@.dest_ca.push(bytes));
        Ok(())
    }

    /// Adds a script that runs before the installation.
    pub fn pre_install<A: Fn(&Ignition, &Directive) -> Result<(), String>>(
        &mut self,
        file: &InputFile,
        accept: &A,
    ) -> (r: Result<(), LiveError>)
        requires
            forall|c: &Ignition, d: &Directive| call_requires(*accept, (c, d)),
        ensures
            install_hook_step(old(self)@, Hook::Pre, file@, *accept, attained(final(self)@, r)),
    {
        self.install_hook(file, Hook::Pre, accept)
    }

    /// Adds a script that runs after the installation.
    pub fn post_install<A: Fn(&Ignition, &Directive) -> Result<(), String>>(
        &mut self,
        file: &InputFile,
        accept: &A,
    ) -> (r: Result<(), LiveError>)
        requires
            forall|c: &Ignition, d: &Directive| call_requires(*accept, (c, d)),
        ensures
            install_hook_step(old(self)@, Hook::Post, file@, *accept, attained(final(self)@, r)),
    {
        self.install_hook(file, Hook::Post, accept)
    }

    /// Adds a script that runs before or after the installation.
    pub fn install_hook<A: Fn(&Ignition, &Directive) -> Result<(), String>>(
        &mut self,
        file: &InputFile,
        hook: Hook,
        accept: &A,
    ) -> (r: Result<(), LiveError>)
        requires
            forall|c: &Ignition, d: &Directive| call_requires(*accept, (c, d)),
        ensures
            install_hook_step(old(self)@, hook, file@, *accept, attained(final(self)@, r)),
    {
        let data = match file.bytes() {
            Ok(data) => data,
            Err(e) => {
                return Err(e);
            },
        };
        let name = match input::filename(file.path.as_str()) {
            Ok(name) => name,
            Err(e) => {
                return Err(e);
            },
        };
        let ghost bytes = data@;
        let path = hook.script_path(name.as_str());
        let out = self.live.add_file(path, data, 0o700, accept);
        let ghost verdict = out;
        let added = taken(out);
        proof {
            let script = DirectiveView::File {
                path: hook::hook_script_path(hook, name@),
                data: bytes,
                mode: 0o700,
            };
            lemma_extended(old(self)@, script, *accept, self@, verdict, added);
        }
        match added {
            Ok(()) => {},
            Err(e) => {
                return Err(e);
            },
        }
        let ghost before = self@;
        let unit_name = hook.unit_name(name.as_str());
        let out = self.live.add_unit(unit_name, hook.unit(name.as_str()), true, accept);
        let ghost verdict = out;
        let added = taken(out);
        proof {
            let unit = DirectiveView::Unit {
                name: hook::hook_unit_name(hook, name@),
                contents: hook::hook_unit(hook, name@),
                enabled: true,
            };
            lemma_extended(before, unit, *accept, self@, verdict, added);
        }
        added
    }

    /// Adds an installer config of a name.
    pub fn installer_config_bytes<A: Fn(&Ignition, &Directive) -> Result<(), String>>(
        &mut self,
        name: &str,
        data: Vec<u8>,
        accept: &A,
    ) -> (r: Result<(), LiveError>)
        requires
            old(self)@.has_room(),
            forall|c: &Ignition, d: &Directive| call_requires(*accept, (c, d)),
        ensures
            installer_config_bytes_step(
                old(self)@,
                name@,
                data@,
                *accept,
                attained(final(self)@, r),
            ),
    {
        if !self.features.installer_config {
            return Err(LiveError::InstallerConfigUnsupported);
        }
        let mut path = text::joined(
            "/etc/coreos/installer.d/",
            text::four_digits(self.installer_serial).as_str(),
        );
        path.append("-");
        path.append(name);
        let ghost view = DirectiveView::File { path: path@, data: data@, mode: 0o600 };
        let out = self.live.add_file(path, data, 0o600, accept);
        let ghost verdict = out;
        let added = taken(out);
        proof {
            lemma_extended(old(self)@, view, *accept, self@, verdict, added);
        }
        match added {
            Ok(()) => {},
            Err(e) => {
                return Err(e);
            },
        }
        self.installer_serial = self.installer_serial + 1;
        Ok(())
    }

    /// Adds an Ignition config of the user for the live system.
    pub fn live_config<A: Fn(&Ignition, &Directive) -> Result<(), String>>(
        &mut self,
        file: &InputFile,
        accept: &A,
    ) -> (r: Result<(), LiveError>)
        requires
            forall|c: &Ignition, d: &Directive| call_requires(*accept, (c, d)),
        ensures
            live_config_step(old(self)@, file@, *accept, attained(final(self)@, r)),
    {
        let data = match file.bytes() {
            Ok(data) => data,
            Err(e) => {
                return Err(e);
            },
        };
        let ghost bytes = data@;
        match ignition::parse_ignition(data.as_slice()) {
            Err(error) => Err(LiveError::ParseIgnition { path: file.path.clone(), error }),
            Ok(warnings) => {
                note_warnings(&mut self.notices, file.path.as_str(), warnings);
                let merged = self.live.merge_config(data, accept);
                assert(ignition::directive_added(
                    old(self)@.live,
                    DirectiveView::Merge { source: bytes },
                    *accept,
                    ignition::adding_outcome(self@.live, merged),
                ));
                match merged {
                    Ok(()) => Ok(()),
                    Err(reason) => Err(
                        LiveError::MergeIgnition { path: file.path.clone(), reason },
                    ),
                }
            },
        }
    }
}

/// An installer config of the user.
#[derive(Debug)]
pub struct InstallerFile {
    pub file: InputFile,
    /// Whether the file was parsed as an installer config, or why not.
    pub parsed: Result<(), String>,
}

/// An installer config with its texts as sequences.
pub struct InstallerFileView {
    pub file: InputView,
    pub parsed: Result<(), Seq<char>>,
}

impl View for InstallerFile {
    type V = InstallerFileView;

    open spec fn view(&self) -> InstallerFileView {
        InstallerFileView {
            file: self.file@,
            parsed: match self.parsed {
                Ok(()) => Ok(()),
                Err(reason) => Err(reason@),
            },
        }
    }
}

impl InstallerFileView {
    /// Whether the file was read and parsed, and its path ends in a name.
    pub open spec fn is_usable(self) -> bool {
        self.file.bytes() is Ok && self.parsed is Ok && input::named(self.file.path) is Ok
    }
}

/// The views of a list of installer configs.
pub open spec fn installer_file_views(v: Seq<InstallerFile>) -> Seq<InstallerFileView> {
    v.map_values(|f: InstallerFile| f@)
}

/// Adding an installer config of the user.
pub open spec fn installer_config_step<A: Fn(&Ignition, &Directive) -> Result<(), String>>(
    v: LiveView,
    config: InstallerFileView,
    accept: A,
    p: Progress,
) -> bool {
    match (config.file.bytes(), config.parsed, input::named(config.file.path)) {
        (Err(e), _, _) => p == refused(v, e),
        (_, Err(reason), _) => p == refused(
            v,
            Refusal::ParseInstallerConfig { path: config.file.path, reason },
        ),
        (_, _, Err(e)) => p == refused(v, e),
        (Ok(data), Ok(()), Ok(name)) => installer_config_bytes_step(v, name, data, accept, p),
    }
}

/// The customisations that are common to all kinds of live images.
#[derive(Debug)]
pub struct CommonCustomizeConfig {
    pub dest_ignition: Vec<InputFile>,
    pub dest_device: Option<String>,
    pub dest_karg_append: Vec<String>,
    pub dest_karg_delete: Vec<String>,
    pub network_keyfile: Vec<InputFile>,
    pub ignition_ca: Vec<InputFile>,
    pub pre_install: Vec<InputFile>,
    pub post_install: Vec<InputFile>,
    pub installer_config: Vec<InstallerFile>,
    pub live_ignition: Vec<InputFile>,
}

/// The common customisations with their parts as sequences.
pub struct CommonView {
    pub dest_ignition: Seq<InputView>,
    pub dest_device: Option<Seq<char>>,
    pub dest_karg_append: Seq<Seq<char>>,
    pub dest_karg_delete: Seq<Seq<char>>,
    pub network_keyfile: Seq<InputView>,
    pub ignition_ca: Seq<InputView>,
    pub pre_install: Seq<InputView>,
    pub post_install: Seq<InputView>,
    pub installer_config: Seq<InstallerFileView>,
    pub live_ignition: Seq<InputView>,
}

impl View for CommonCustomizeConfig {
    type V = CommonView;

    open spec fn view(&self) -> CommonView {
        CommonView {
            dest_ignition: input::input_views(self.dest_ignition@),
            dest_device: optional_text(self.dest_device),
            dest_karg_append: text::texts(self.dest_karg_append@),
            dest_karg_delete: text::texts(self.dest_karg_delete@),
            network_keyfile: input::input_views(self.network_keyfile@),
            ignition_ca: input::input_views(self.ignition_ca@),
            pre_install: input::input_views(self.pre_install@),
            post_install: input::input_views(self.post_install@),
            installer_config: installer_file_views(self.installer_config@),
            live_ignition: input::input_views(self.live_ignition@),
        }
    }
}

/// What is done with an input file.
#[derive(Clone, Copy, Debug, PartialEq, Eq, Structural)]
pub enum FileUse {
    DestIgnition,
    NetworkKeyfile,
    IgnitionCa,
    PreInstall,
    PostInstall,
    LiveIgnition,
}

/// Using an input file.
pub open spec fn file_step<A: Fn(&Ignition, &Directive) -> Result<(), String>>(
    u: FileUse,
    v: LiveView,
    file: InputView,
    accept: A,
    p: Progress,
) -> bool {
    match u {
        FileUse::DestIgnition => p == reached(v).and_step(dest_ignition_step(v, file)),
        FileUse::NetworkKeyfile => p == reached(v).and_step(network_keyfile_step(v, file)),
        FileUse::IgnitionCa => ignition_ca_step(v, file, accept, p),
        FileUse::PreInstall => install_hook_step(v, Hook::Pre, file, accept, p),
        FileUse::PostInstall => install_hook_step(v, Hook::Post, file, accept, p),
        FileUse::LiveIgnition => live_config_step(v, file, accept, p),
    }
}

/// The step of using an input file, if there was no error before.
pub open spec fn next_file<A: Fn(&Ignition, &Directive) -> Result<(), String>>(
    u: FileUse,
    accept: A,
) -> spec_fn(Progress, InputView, Progress) -> bool {
    |before: Progress, file: InputView, after: Progress|
        if before.refusal is Some {
            after == before
        } else {
            file_step(u, before.live, file, accept, after)
        }
}

/// Using a list of input files from a given progress on, one after the other, up to
/// the first error.
pub open spec fn files_used<A: Fn(&Ignition, &Directive) -> Result<(), String>>(
    u: FileUse,
    start: Progress,
    files: Seq<InputView>,
    accept: A,
    p: Progress,
) -> bool {
    series::leads(start, files, next_file(u, accept), p)
}

/// The step of adding an installer config of the user, if there was no error
/// before.
pub open spec fn next_config<A: Fn(&Ignition, &Directive) -> Result<(), String>>(
    accept: A,
) -> spec_fn(Progress, InstallerFileView, Progress) -> bool {
    |before: Progress, config: InstallerFileView, after: Progress|
        if before.refusal is Some {
            after == before
        } else {
            installer_config_step(before.live, config, accept, after)
        }
}

/// Adding a list of installer configs of the user from a given progress on, one
/// after the other, up to the first error.
pub open spec fn configs_used<A: Fn(&Ignition, &Directive) -> Result<(), String>>(
    start: Progress,
    configs: Seq<InstallerFileView>,
    accept: A,
    p: Progress,
) -> bool {
    series::leads(start, configs, next_config(accept), p)
}

/// Adding a list of kargs of the destination system.
pub open spec fn kargs_appended(v: LiveView, args: Seq<Seq<char>>) -> LiveView
    decreases args.len(),
{
    if args.len() == 0 {
        v
    } else {
        dest_karg_append_step(kargs_appended(v, args.drop_last()), args.last())
    }
}

/// Deleting a list of kargs of the destination system.
pub open spec fn kargs_deleted(v: LiveView, args: Seq<Seq<char>>) -> LiveView
    decreases args.len(),
{
    if args.len() == 0 {
        v
    } else {
        dest_karg_delete_step(kargs_deleted(v, args.drop_last()), args.last())
    }
}

/// Setting the parameters of the installer.
pub open spec fn parameters_set(v: LiveView, common: CommonView) -> LiveView {
    let with_device = match common.dest_device {
        Some(device) => dest_device_step(v, device),
        None => v,
    };
    kargs_deleted(kargs_appended(with_device, common.dest_karg_append), common.dest_karg_delete)
}

/// How far the common customisations got after each kind of them.
pub struct Stages {
    pub dest: Progress,
    pub network: Progress,
    pub ca: Progress,
    pub pre: Progress,
    pub post: Progress,
    pub installer: Progress,
    pub live: Progress,
}

/// How the common customisations are applied to a customisation, kind by kind.
pub open spec fn goes_through<A: Fn(&Ignition, &Directive) -> Result<(), String>>(
    v: LiveView,
    common: CommonView,
    accept: A,
    s: Stages,
) -> bool {
    let set = s.dest.and_step(Ok(parameters_set(s.dest.live, common)));
    &&& files_used(FileUse::DestIgnition, reached(v), common.dest_ignition, accept, s.dest)
    &&& files_used(FileUse::NetworkKeyfile, set, common.network_keyfile, accept, s.network)
    &&& files_used(FileUse::IgnitionCa, s.network, common.ignition_ca, accept, s.ca)
    &&& files_used(FileUse::PreInstall, s.ca, common.pre_install, accept, s.pre)
    &&& files_used(FileUse::PostInstall, s.pre, common.post_install, accept, s.post)
    &&& configs_used(s.post, common.installer_config, accept, s.installer)
    &&& files_used(FileUse::LiveIgnition, s.installer, common.live_ignition, accept, s.live)
}

/// How far the common customisations get from a given customisation.
pub open spec fn common_applied<A: Fn(&Ignition, &Directive) -> Result<(), String>>(
    v: LiveView,
    common: CommonView,
    accept: A,
    p: Progress,
) -> bool {
    exists|s: Stages| #[trigger] goes_through(v, common, accept, s) && p == s.live
}

/// A series that has ended stays as it is.
proof fn lemma_stopping<A: Fn(&Ignition, &Directive) -> Result<(), String>>(accept: A, p: Progress)
    requires
        p.refusal is Some,
    ensures
        forall|u: FileUse, files: Seq<InputView>| #[trigger] files_used(u, p, files, accept, p),
        forall|configs: Seq<InstallerFileView>| #[trigger] configs_used(p, configs, accept, p),
{
    assert forall|u: FileUse, files: Seq<InputView>| #[trigger]
        files_used(u, p, files, accept, p) by {
        series::lemma_no_steps(p, files.take(0), next_file(u, accept), p);
        series::lemma_stay(p, files, next_file(u, accept), 0, p);
    }
    assert forall|configs: Seq<InstallerFileView>| #[trigger]
        configs_used(p, configs, accept, p) by {
        series::lemma_no_steps(p, configs.take(0), next_config(accept), p);
        series::lemma_stay(p, configs, next_config(accept), 0, p);
    }
}

/// Whether the features of the OS are the same, no Ignition config has been named
/// to the installer, if none had been, and the parser accepts each config for the
/// destination system, if it had accepted each.
pub open spec fn keeps_setting(before: LiveView, after: LiveView) -> bool {
    &&& after.features == before.features
    &&& before.names_no_config() ==> after.names_no_config()
    &&& before.dest_accepted() ==> after.dest_accepted()
}

impl LiveInitrd {
    /// Uses an input file.
    pub fn use_file<A: Fn(&Ignition, &Directive) -> Result<(), String>>(
        &mut self,
        u: FileUse,
        file: &InputFile,
        accept: &A,
    ) -> (r: Result<(), LiveError>)
        requires
            forall|c: &Ignition, d: &Directive| call_requires(*accept, (c, d)),
        ensures
            file_step(u, old(self)@, file@, *accept, attained(final(self)@, r)),
            final(self)@.installer_serial == old(self)@.installer_serial,
            keeps_setting(old(self)@, final(self)@),
            r matches Err(e) ==> !(e@ is SerializeUserIgnition),
    {
        match u {
            FileUse::DestIgnition => self.dest_ignition(file),
            FileUse::NetworkKeyfile => self.network_keyfile(file),
            FileUse::IgnitionCa => self.ignition_ca(file, accept),
            FileUse::PreInstall => self.pre_install(file, accept),
            FileUse::PostInstall => self.post_install(file, accept),
            FileUse::LiveIgnition => self.live_config(file, accept),
        }
    }

    /// Uses a list of input files, one after the other.
    fn use_files<A: Fn(&Ignition, &Directive) -> Result<(), String>>(
        &mut self,
        u: FileUse,
        files: &Vec<InputFile>,
        accept: &A,
    ) -> (r: Result<(), LiveError>)
        requires
            forall|c: &Ignition, d: &Directive| call_requires(*accept, (c, d)),
        ensures
            files_used(
                u,
                reached(old(self)@),
                input::input_views(files@),
                *accept,
                attained(final(self)@, r),
            ),
            final(self)@.installer_serial == old(self)@.installer_serial,
            keeps_setting(old(self)@, final(self)@),
            r matches Err(e) ==> !(e@ is SerializeUserIgnition),
    {
        let ghost start = reached(self@);
        let ghost all = input::input_views(files@);
        let ghost next = next_file(u, *accept);
        let mut i: usize = 0;
        proof {
            series::lemma_no_steps(start, all.take(0), next, start);
        }
        while i < files.len()
            invariant
                i <= files.len(),
                all == input::input_views(files@),
                next == next_file(u, *accept),
                series::leads(start, all.take(i as int), next, reached(self@)),
                self@.installer_serial == old(self)@.installer_serial,
                keeps_setting(old(self)@, self@),
                start == reached(old(self)@),
                forall|c: &Ignition, d: &Directive| call_requires(*accept, (c, d)),
            decreases files.len() - i,
        {
            let ghost before = reached(self@);
            let r = self.use_file(u, &files[i], accept);
            proof {
                let p = attained(self@, r);
                assert(next(before, all[i as int], p));
                series::lemma_step(start, all, next, i as int, before, p);
                if r is Err {
                    series::lemma_stay(start, all, next, i + 1, p);
                }
            }
            match r {
                Ok(()) => {},
                Err(e) => {
                    return Err(e);
                },
            }
            i = i + 1;
        }
        assert(all.take(i as int) =~= all);
        Ok(())
    }

    /// Adds an installer config of the user.
    pub fn installer_config<A: Fn(&Ignition, &Directive) -> Result<(), String>>(
        &mut self,
        config: &InstallerFile,
        accept: &A,
    ) -> (r: Result<(), LiveError>)
        requires
            config@.is_usable() ==> old(self)@.has_room(),
            forall|c: &Ignition, d: &Directive| call_requires(*accept, (c, d)),
        ensures
            installer_config_step(old(self)@, config@, *accept, attained(final(self)@, r)),
    {
        let data = match config.file.bytes() {
            Ok(data) => data,
            Err(e) => {
                return Err(e);
            },
        };
        match &config.parsed {
            Ok(()) => {},
            Err(reason) => {
                return Err(
                    LiveError::ParseInstallerConfig {
                        path: config.file.path.clone(),
                        reason: reason.clone(),
                    },
                );
            },
        }
        match input::filename(config.file.path.as_str()) {
            Ok(name) => self.installer_config_bytes(name.as_str(), data, accept),
            Err(e) => Err(e),
        }
    }

    /// Adds a list of installer configs of the user, one after the other.
    fn use_configs<A: Fn(&Ignition, &Directive) -> Result<(), String>>(
        &mut self,
        configs: &Vec<InstallerFile>,
        accept: &A,
    ) -> (r: Result<(), LiveError>)
        requires
            old(self)@.features.installer_config ==> old(self)@.installer_serial + configs@.len()
                <= u32::MAX,
            forall|c: &Ignition, d: &Directive| call_requires(*accept, (c, d)),
        ensures
            configs_used(
                reached(old(self)@),
                installer_file_views(configs@),
                *accept,
                attained(final(self)@, r),
            ),
            final(self)@.installer_serial <= old(self)@.installer_serial + configs@.len(),
            keeps_setting(old(self)@, final(self)@),
            r matches Err(e) ==> !(e@ is SerializeUserIgnition),
    {
        let ghost start = reached(self@);
        let ghost all = installer_file_views(configs@);
        let ghost next = next_config(*accept);
        let mut i: usize = 0;
        proof {
            series::lemma_no_steps(start, all.take(0), next, start);
        }
        while i < configs.len()
            invariant
                i <= configs.len(),
                all == installer_file_views(configs@),
                next == next_config(*accept),
                series::leads(start, all.take(i as int), next, reached(self@)),
                old(self)@.features.installer_config ==> old(self)@.installer_serial
                    + configs@.len() <= u32::MAX,
                self@.installer_serial <= old(self)@.installer_serial + i,
                keeps_setting(old(self)@, self@),
                start == reached(old(self)@),
                forall|c: &Ignition, d: &Directive| call_requires(*accept, (c, d)),
            decreases configs.len() - i,
        {
            let ghost before = reached(self@);
            let r = self.installer_config(&configs[i], accept);
            proof {
                let p = attained(self@, r);
                assert(next(before, all[i as int], p));
                series::lemma_step(start, all, next, i as int, before, p);
                if r is Err {
                    series::lemma_stay(start, all, next, i + 1, p);
                }
            }
            match r {
                Ok(()) => {},
                Err(e) => {
                    return Err(e);
                },
            }
            i = i + 1;
        }
        assert(all.take(i as int) =~= all);
        Ok(())
    }

    /// Sets the parameters of the installer.
    fn set_parameters(&mut self, common: &CommonCustomizeConfig)
        ensures
            final(self)@ == parameters_set(old(self)@, common@),
            final(self)@.installer_serial == old(self)@.installer_serial,
            keeps_setting(old(self)@, final(self)@),
    {
        if let Some(device) = &common.dest_device {
            self.dest_device(device.as_str());
        }
        let ghost with_device = self@;
        let ghost append = text::texts(common.dest_karg_append@);
        let mut i: usize = 0;
        assert(append.take(0) =~= Seq::<Seq<char>>::empty());
        while i < common.dest_karg_append.len()
            invariant
                i <= common.dest_karg_append.len(),
                append == text::texts(common.dest_karg_append@),
                self@ == kargs_appended(with_device, append.take(i as int)),
                self@.installer_serial == old(self)@.installer_serial,
                keeps_setting(old(self)@, self@),
            decreases common.dest_karg_append.len() - i,
        {
            assert(append.take(i + 1).drop_last() =~= append.take(i as int));
            assert(append.take(i + 1).last() == common.dest_karg_append@[i as int]@);
            self.dest_karg_append(common.dest_karg_append[i].as_str());
            i = i + 1;
        }
        assert(append.take(i as int) =~= append);
        let ghost with_append = self@;
        let ghost delete = text::texts(common.dest_karg_delete@);
        let mut j: usize = 0;
        assert(delete.take(0) =~= Seq::<Seq<char>>::empty());
        while j < common.dest_karg_delete.len()
            invariant
                j <= common.dest_karg_delete.len(),
                delete == text::texts(common.dest_karg_delete@),
                self@ == kargs_deleted(with_append, delete.take(j as int)),
                self@.installer_serial == old(self)@.installer_serial,
                keeps_setting(old(self)@, self@),
            decreases common.dest_karg_delete.len() - j,
        {
            assert(delete.take(j + 1).drop_last() =~= delete.take(j as int));
            assert(delete.take(j + 1).last() == common.dest_karg_delete@[j as int]@);
            self.dest_karg_delete(common.dest_karg_delete[j].as_str());
            j = j + 1;
        }
        assert(delete.take(j as int) =~= delete);
    }

    /// Applies the common customisations, up to the first that is refused.
    pub fn apply_common<A: Fn(&Ignition, &Directive) -> Result<(), String>>(
        &mut self,
        common: &CommonCustomizeConfig,
        accept: &A,
    ) -> (r: Result<(), LiveError>)
        requires
            old(self)@.features.installer_config ==> old(self)@.installer_serial
                + common.installer_config@.len() <= u32::MAX,
            forall|c: &Ignition, d: &Directive| call_requires(*accept, (c, d)),
        ensures
            common_applied(old(self)@, common@, *accept, attained(final(self)@, r)),
            final(self)@.installer_serial <= old(self)@.installer_serial
                + common.installer_config@.len(),
            keeps_setting(old(self)@, final(self)@),
            r matches Err(e) ==> !(e@ is SerializeUserIgnition),
    {
        let ghost start = self@;
        match self.use_files(FileUse::DestIgnition, &common.dest_ignition, accept) {
            Ok(()) => {},
            Err(e) => {
                proof {
                    let stop = refused(self@, e@);
                    lemma_stopping(*accept, stop);
                    assert(goes_through(
                        start,
                        common@,
                        *accept,
                        Stages {
                            dest: stop,
                            network: stop,
                            ca: stop,
                            pre: stop,
                            post: stop,
                            installer: stop,
                            live: stop,
                        },
                    ));
                }
                return Err(e);
            },
        }
        let ghost dest = reached(self@);
        self.set_parameters(common);
        match self.use_files(FileUse::NetworkKeyfile, &common.network_keyfile, accept) {
            Ok(()) => {},
            Err(e) => {
                proof {
                    let stop = refused(self@, e@);
                    lemma_stopping(*accept, stop);
                    assert(goes_through(
                        start,
                        common@,
                        *accept,
                        Stages {
                            dest,
                            network: stop,
                            ca: stop,
                            pre: stop,
                            post: stop,
                            installer: stop,
                            live: stop,
                        },
                    ));
                }
                return Err(e);
            },
        }
        let ghost network = reached(self@);
        match self.use_files(FileUse::IgnitionCa, &common.ignition_ca, accept) {
            Ok(()) => {},
            Err(e) => {
                proof {
                    let stop = refused(self@, e@);
                    lemma_stopping(*accept, stop);
                    assert(goes_through(
                        start,
                        common@,
                        *accept,
                        Stages {
                            dest,
                            network,
                            ca: stop,
                            pre: stop,
                            post: stop,
                            installer: stop,
                            live: stop,
                        },
                    ));
                }
                return Err(e);
            },
        }
        let ghost ca = reached(self@);
        match self.use_files(FileUse::PreInstall, &common.pre_install, accept) {
            Ok(()) => {},
            Err(e) => {
                proof {
                    let stop = refused(self@, e@);
                    lemma_stopping(*accept, stop);
                    assert(goes_through(
                        start,
                        common@,
                        *accept,
                        Stages {
                            dest,
                            network,
                            ca,
                            pre: stop,
                            post: stop,
                            installer: stop,
                            live: stop,
                        },
                    ));
                }
                return Err(e);
            },
        }
        let ghost pre = reached(self@);
        match self.use_files(FileUse::PostInstall, &common.post_install, accept) {
            Ok(()) => {},
            Err(e) => {
                proof {
                    let stop = refused(self@, e@);
                    lemma_stopping(*accept, stop);
                    assert(goes_through(
                        start,
                        common@,
                        *accept,
                        Stages { dest, network, ca, pre, post: stop, installer: stop, live: stop },
                    ));
                }
                return Err(e);
            },
        }
        let ghost post = reached(self@);
        match self.use_configs(&common.installer_config, accept) {
            Ok(()) => {},
            Err(e) => {
                proof {
                    let stop = refused(self@, e@);
                    lemma_stopping(*accept, stop);
                    assert(goes_through(
                        start,
                        common@,
                        *accept,
                        Stages { dest, network, ca, pre, post, installer: stop, live: stop },
                    ));
                }
                return Err(e);
            },
        }
        let ghost installer = reached(self@);
        let r = self.use_files(FileUse::LiveIgnition, &common.live_ignition, accept);
        proof {
            let live = attained(self@, r);
            assert(goes_through(
                start,
                common@,
                *accept,
                Stages { dest, network, ca, pre, post, installer, live },
            ));
        }
        r
    }

    /// The customisation that the common customisations make. What the user
    /// should be told is added to `notices`, also if a customisation is refused.
    pub fn from_common<A: Fn(&Ignition, &Directive) -> Result<(), String>>(
        common: &CommonCustomizeConfig,
        features: OsFeatures,
        accept: &A,
        notices: &mut Vec<Notice>,
    ) -> (r: Result<LiveInitrd, LiveError>)
        requires
            features.installer_config ==> common.installer_config@.len() <= u32::MAX,
            forall|c: &Ignition, d: &Directive| call_requires(*accept, (c, d)),
        ensures
            exists|p: Progress|
                {
                    &&& #[trigger] common_applied(untouched(features), common@, *accept, p)
                    &&& notice_views(final(notices)@) == notice_views(old(notices)@)
                        + p.live.notices
                    &&& match r {
                        Ok(live) => p.refusal is None && live@ == told(p.live),
                        Err(e) => p.refusal == Some(e@),
                    }
                },
            r matches Ok(live) ==> {
                &&& live@.features == features
                &&& live@.names_no_config()
                &&& live@.dest_accepted()
                &&& live@.installer_serial <= common.installer_config@.len()
            },
            r matches Err(e) ==> !(e@ is SerializeUserIgnition),
    {
        let mut live = LiveInitrd::new(features);
        let applied = live.apply_common(common, accept);
        let ghost p = attained(live@, applied);
        assert(common_applied(untouched(features), common@, *accept, p));
        let ghost before = notice_views(notices@);
        let ghost issued = live@.notices;
        notices.append(&mut live.notices);
        assert(notice_views(notices@) =~= before + issued);
        assert(live@.notices =~= Seq::<NoticeView>::empty());
        match applied {
            Ok(()) => Ok(live),
            Err(e) => Err(e),
        }
    }
}

/// A customisation of which the user has been told everything.
pub open spec fn told(v: LiveView) -> LiveView {
    LiveView { notices: Seq::empty(), ..v }
}

} // verus!
