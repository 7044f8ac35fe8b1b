//! Making the initramfs of a live system from a customisation.

use crate::customize;
use crate::customize::{InstallConfig, InstallView, LiveInitrd, LiveView, Progress};
use crate::error;
use crate::error::{LiveError, Refusal};
use crate::ignition;
use crate::ignition::{Directive, DirectiveView, Ignition};
use crate::initrd::Initrd;
use crate::iso_config::INITRD_IGNITION_PATH;
use vstd::prelude::*;
use vstd::string::*;

verus! {

/// The Ignition config that the destination system gets.
#[derive(Debug)]
pub enum DestDocument {
    /// The one config of the user, by its source.
    User { source: Vec<u8> },
    /// A config of ours, and what is to be added to it.
    Own { config: Ignition, additions: Vec<Directive> },
}

/// A config of the destination system with its parts as sequences.
pub enum DestView {
    User { source: Seq<u8> },
    Own { config: Seq<DirectiveView>, additions: Seq<DirectiveView> },
}

impl View for DestDocument {
    type V = DestView;

    open spec fn view(&self) -> DestView {
        match *self {
            DestDocument::User { source } => DestView::User { source: source@ },
            DestDocument::Own { config, additions } => DestView::Own {
                config: config@,
                additions: ignition::directive_views(additions@),
            },
        }
    }
}

/// The view of a config of the destination system that may be absent.
pub open spec fn optional_dest(v: Option<DestDocument>) -> Option<DestView> {
    match v {
        Some(v) => Some(v@),
        None => None,
    }
}

/// The directives for a list of certificate authorities.
pub open spec fn ca_directives(certificates: Seq<Seq<u8>>) -> Seq<DirectiveView> {
    certificates.map_values(|certificate: Seq<u8>| DirectiveView::Ca { certificate })
}

/// The directives for a list of configs to be merged.
pub open spec fn merge_directives(sources: Seq<Seq<u8>>) -> Seq<DirectiveView> {
    sources.map_values(|source: Seq<u8>| DirectiveView::Merge { source })
}

/// The directives of a config, which has none if it is absent.
pub open spec fn directives(config: Option<Seq<DirectiveView>>) -> Seq<DirectiveView> {
    match config {
        Some(config) => config,
        None => Seq::empty(),
    }
}

/// The Ignition config that the destination system gets, if any: the user's own,
/// if it is the only one and there is nothing to add to it, and otherwise one of
/// ours, to which the certificate authorities are added and then the configs of the
/// user to be merged.
pub open spec fn dest_document(v: LiveView) -> Option<DestView> {
    if v.dest is None && v.user_dest.len() == 0 {
        None
    } else if v.dest is None && v.dest_ca.len() == 0 && v.user_dest.len() == 1 {
        Some(DestView::User { source: v.user_dest[0] })
    } else {
        Some(
            DestView::Own {
                config: directives(v.dest),
                additions: ca_directives(v.dest_ca) + merge_directives(v.user_dest),
            },
        )
    }
}

/// Where the live system holds the Ignition config of the destination system.
pub const DEST_IGNITION_PATH: &'static str = "/etc/coreos/dest.ign";

/// How the Ignition config of the destination system is put into the live system
/// and named to the installer.
pub open spec fn dest_embedded<A: Fn(&Ignition, &Directive) -> Result<(), String>>(
    v: LiveView,
    data: Seq<u8>,
    accept: A,
    r: Result<LiveView, Refusal>,
) -> bool {
    exists|added: Progress| #[trigger]
        customize::live_extended(
            v,
            DirectiveView::File { path: DEST_IGNITION_PATH@, data, mode: 0o600 },
            accept,
            added,
        ) && r == match added.outcome() {
            Ok(live) => Ok(
                LiveView {
                    installer: Some(
                        InstallView {
                            ignition_file: Some(DEST_IGNITION_PATH@),
                            ..customize::parameters(v.installer)
                        },
                    ),
                    ..live
                },
            ),
            Err(e) => Err(e),
        }
}

/// The parameters that the installer gets, if any: it copies network settings if
/// there are some and it runs.
pub open spec fn final_parameters(v: LiveView) -> Option<InstallView> {
    if v.installer_copy_network && (v.installer_serial > 0 || v.installer is Some) {
        Some(InstallView { copy_network: true, ..customize::parameters(v.installer) })
    } else {
        v.installer
    }
}

/// The name of the installer config for our own parameters.
pub const CUSTOMIZE_CONFIG_NAME: &'static str = "customize.yaml";

/// The outcome of writing an Ignition config of ours.
pub open spec fn encoding_outcome(out: Result<Vec<u8>, String>) -> Result<Seq<u8>, Refusal> {
    match out {
        Ok(bytes) => Ok(bytes@),
        Err(reason) => Err(Refusal::SerializeIgnition { reason: reason@ }),
    }
}

/// How an Ignition config of ours is written.
pub open spec fn ignition_encoded<B: Fn(&Ignition) -> Result<Vec<u8>, String>>(
    directives: Seq<DirectiveView>,
    to_bytes: B,
    r: Result<Seq<u8>, Refusal>,
) -> bool {
    exists|config: &Ignition, out: Result<Vec<u8>, String>|
        {
            &&& config@ == directives
            &&& #[trigger] call_ensures(to_bytes, (config,), out)
            &&& r == encoding_outcome(out)
        }
}

/// How a config of ours for the destination system is written: once all has been
/// added to it.
pub open spec fn own_encoded<
    A: Fn(&Ignition, &Directive) -> Result<(), String>,
    B: Fn(&Ignition) -> Result<Vec<u8>, String>,
>(
    config: Seq<DirectiveView>,
    additions: Seq<DirectiveView>,
    accept: A,
    to_bytes: B,
    r: Result<Seq<u8>, Refusal>,
) -> bool {
    exists|complete: Result<Seq<DirectiveView>, Seq<char>>| #[trigger]
        ignition::directives_added(config, additions, accept, complete) && match complete {
            Ok(directives) => ignition_encoded(directives, to_bytes, r),
            Err(reason) => r == Err::<Seq<u8>, Refusal>(Refusal::AddDirective { reason }),
        }
}

/// How the Ignition config of the destination system is written: that of the
/// user as JSON with a line feed, and that of ours once all has been added to it.
pub open spec fn dest_encoded<
    A: Fn(&Ignition, &Directive) -> Result<(), String>,
    B: Fn(&Ignition) -> Result<Vec<u8>, String>,
>(document: DestView, accept: A, to_bytes: B, r: Result<Seq<u8>, Refusal>) -> bool {
    match document {
        DestView::User { source } => r == match ignition::ignition_json(source) {
            Some(json) => Ok(json.push(10)),
            None => Err(Refusal::SerializeUserIgnition),
        },
        DestView::Own { config, additions } => own_encoded(config, additions, accept, to_bytes, r),
    }
}

/// How the Ignition config of the destination system, if there is one, is put into
/// the live system.
pub open spec fn with_dest<
    A: Fn(&Ignition, &Directive) -> Result<(), String>,
    B: Fn(&Ignition) -> Result<Vec<u8>, String>,
>(v: LiveView, accept: A, to_bytes: B, r: Result<LiveView, Refusal>) -> bool {
    match dest_document(v) {
        None => r == Ok::<LiveView, Refusal>(v),
        Some(document) => exists|data: Result<Seq<u8>, Refusal>| #[trigger]
            dest_encoded(document, accept, to_bytes, data) && match data {
                Ok(data) => dest_embedded(v, data, accept, r),
                Err(e) => r == Err::<LiveView, Refusal>(e),
            },
    }
}

/// How encoded parameters of the installer are put into the live system.
pub open spec fn parameters_added<A: Fn(&Ignition, &Directive) -> Result<(), String>>(
    v: LiveView,
    yaml: Result<Vec<u8>, String>,
    accept: A,
    r: Result<LiveView, Refusal>,
) -> bool {
    match yaml {
        Ok(yaml) => exists|p: Progress| #[trigger]
            customize::installer_config_bytes_step(
                v,
                CUSTOMIZE_CONFIG_NAME@,
                yaml@,
                accept,
                p,
            ) && r == p.outcome(),
        Err(reason) => r == Err::<LiveView, Refusal>(
            Refusal::SerializeInstallerConfig { reason: reason@ },
        ),
    }
}

/// How the parameters of the installer, if there are any, are put into the live
/// system.
pub open spec fn with_installer<
    A: Fn(&Ignition, &Directive) -> Result<(), String>,
    Y: Fn(&InstallConfig) -> Result<Vec<u8>, String>,
>(v: LiveView, accept: A, to_yaml: Y, r: Result<LiveView, Refusal>) -> bool {
    let rest = LiveView { installer: None, ..v };
    match final_parameters(v) {
        None => r == Ok::<LiveView, Refusal>(rest),
        Some(parameters) => exists|config: &InstallConfig, out: Result<Vec<u8>, String>|
            {
                &&& config@ == parameters
                &&& #[trigger] call_ensures(to_yaml, (config,), out)
                &&& parameters_added(rest, out, accept, r)
            },
    }
}

/// How the Ignition config of the live system is put into its initramfs.
pub open spec fn with_live<B: Fn(&Ignition) -> Result<Vec<u8>, String>>(
    v: LiveView,
    to_bytes: B,
    r: Result<Map<Seq<char>, Seq<u8>>, Refusal>,
) -> bool {
    exists|data: Result<Seq<u8>, Refusal>| #[trigger]
        ignition_encoded(v.live, to_bytes, data) && r == match data {
            Ok(data) => Ok(v.files.insert(INITRD_IGNITION_PATH@, data)),
            Err(e) => Err(e),
        }
}

/// How a customisation becomes an initramfs.
pub open spec fn made_initrd<
    A: Fn(&Ignition, &Directive) -> Result<(), String>,
    B: Fn(&Ignition) -> Result<Vec<u8>, String>,
    Y: Fn(&InstallConfig) -> Result<Vec<u8>, String>,
>(
    v: LiveView,
    accept: A,
    to_bytes: B,
    to_yaml: Y,
    r: Result<Map<Seq<char>, Seq<u8>>, Refusal>,
) -> bool {
    exists|dest: Result<LiveView, Refusal>| #[trigger]
        with_dest(v, accept, to_bytes, dest) && match dest {
            Err(e) => r == Err::<Map<Seq<char>, Seq<u8>>, Refusal>(e),
            Ok(dest) => exists|installer: Result<LiveView, Refusal>| #[trigger]
                with_installer(dest, accept, to_yaml, installer) && match installer {
                    Err(e) => r == Err::<Map<Seq<char>, Seq<u8>>, Refusal>(e),
                    Ok(installer) => with_live(installer, to_bytes, r),
                },
        }
}

/// Whether a customisation can become an initramfs: where there is an Ignition
/// config for the destination system, none has been named to the installer yet;
/// and where the installer gets parameters, there is a number left for them.
pub open spec fn can_be_made(v: LiveView) -> bool {
    &&& dest_document(v) is Some ==> v.names_no_config()
    &&& dest_document(v) is Some || final_parameters(v) is Some ==> v.has_room()
}

impl LiveInitrd {
    /// The Ignition config that the destination system gets, if any.
    pub fn dest_document(&self) -> (r: Option<DestDocument>)
        ensures
            optional_dest(r) == dest_document(self@),
    {
        if self.dest.is_none() && self.user_dest.is_empty() {
            return None;
        }
        if self.dest.is_none() && self.dest_ca.is_empty() && self.user_dest.len() == 1 {
            let source = customize::copied(&self.user_dest[0]);
            assert(source@ == self@.user_dest[0]);
            return Some(DestDocument::User { source });
        }
        let config = match &self.dest {
            Some(dest) => dest.clone(),
            None => Ignition::default(),
        };
        let ghost cas = ca_directives(self@.dest_ca);
        let ghost merges = merge_directives(self@.user_dest);
        let mut additions: Vec<Directive> = Vec::new();
        let mut i: usize = 0;
        assert(ignition::directive_views(additions@) =~= cas.take(0));
        while i < self.dest_ca.len()
            invariant
                i <= self.dest_ca.len(),
                cas == ca_directives(self@.dest_ca),
                ignition::directive_views(additions@) == cas.take(i as int),
            decreases self.dest_ca.len() - i,
        {
            let ghost before = ignition::directive_views(additions@);
            additions.push(Directive::Ca { certificate: customize::copied(&self.dest_ca[i]) });
            assert(ignition::directive_views(additions@) =~= before.push(cas[i as int]));
            assert(cas.take(i + 1) =~= cas.take(i as int).push(cas[i as int]));
            i = i + 1;
        }
        assert(cas.take(i as int) =~= cas);
        let mut j: usize = 0;
        assert(ignition::directive_views(additions@) =~= cas + merges.take(0));
        while j < self.user_dest.len()
            invariant
                j <= self.user_dest.len(),
                merges == merge_directives(self@.user_dest),
                ignition::directive_views(additions@) == cas + merges.take(j as int),
            decreases self.user_dest.len() - j,
        {
            let ghost before = ignition::directive_views(additions@);
            additions.push(Directive::Merge { source: customize::copied(&self.user_dest[j]) });
            assert(ignition::directive_views(additions@) =~= before.push(merges[j as int]));
            assert(merges.take(j + 1) =~= merges.take(j as int).push(merges[j as int]));
            assert(before.push(merges[j as int]) =~= cas + merges.take(j + 1));
            j = j + 1;
        }
        assert(merges.take(j as int) =~= merges);
        Some(DestDocument::Own { config, additions })
    }

    /// Puts the Ignition config of the destination system into the live system
    /// and names it to the installer.
    pub fn embed_dest<A: Fn(&Ignition, &Directive) -> Result<(), String>>(
        &mut self,
        data: Vec<u8>,
        accept: &A,
    ) -> (r: Result<(), LiveError>)
        requires
            forall|c: &Ignition, d: &Directive| call_requires(*accept, (c, d)),
        ensures
            match r {
                Ok(()) => dest_embedded(old(self)@, data@, *accept, Ok(final(self)@)),
                Err(e) => dest_embedded(old(self)@, data@, *accept, Err(e@)),
            },
            r matches Err(e) ==> e@ is AddDirective,
    {
        let ghost bytes = data@;
        let out = self.live.add_file(DEST_IGNITION_PATH.to_owned(), data, 0o600, accept);
        let ghost verdict = out;
        let added = customize::taken(out);
        proof {
            customize::lemma_extended(
                old(self)@,
                DirectiveView::File { path: DEST_IGNITION_PATH@, data: bytes, mode: 0o600 },
                *accept,
                self@,
                verdict,
                added,
            );
        }
        match added {
            Ok(()) => {},
            Err(e) => {
                return Err(e);
            },
        }
        let mut installer = self.take_installer();
        installer.ignition_file = Some(DEST_IGNITION_PATH.to_owned());
        self.installer = Some(installer);
        Ok(())
    }

    /// Takes the parameters that the installer gets, if any.
    pub fn final_installer(&mut self) -> (r: Option<InstallConfig>)
        ensures
            customize::optional_install(r) == final_parameters(old(self)@),
            final(self)@ == (LiveView { installer: None, ..old(self)@ }),
    {
        if self.installer_copy_network && (self.installer_serial > 0 || self.installer.is_some()) {
            let mut installer = self.take_installer();
            installer.copy_network = true;
            Some(installer)
        } else {
            self.installer.take()
        }
    }

    /// The initramfs of the live system, given the encoded Ignition config.
    pub fn finish(self, live: Vec<u8>) -> (r: Initrd)
        ensures
            r@ == self@.files.insert(INITRD_IGNITION_PATH@, live@),
    {
        let mut initrd = self.initrd;
        initrd.add(INITRD_IGNITION_PATH, live);
        initrd
    }

    /// The bytes of the Ignition config of the destination system.
    fn dest_bytes<
        A: Fn(&Ignition, &Directive) -> Result<(), String>,
        B: Fn(&Ignition) -> Result<Vec<u8>, String>,
    >(document: DestDocument, accept: &A, to_bytes: &B) -> (r: Result<Vec<u8>, LiveError>)
        requires
            forall|c: &Ignition, d: &Directive| call_requires(*accept, (c, d)),
            forall|config: &Ignition| call_requires(*to_bytes, (config,)),
        ensures
            dest_encoded(document@, *accept, *to_bytes, error::outcome(r)),
            r matches Err(e) ==> e@ is SerializeUserIgnition ==> (document@ matches DestView::User {
                source,
            } && ignition::ignition_warnings(source) is None),
    {
        let ghost view = document@;
        match document {
            DestDocument::User { source } => match ignition::rewrite_ignition(source.as_slice()) {
                Ok(json) => {
                    let mut data: Vec<u8> = json;
                    data.push(10);
                    Ok(data)
                },
                Err(error) => Err(LiveError::SerializeUserIgnition { error }),
            },
            DestDocument::Own { config, additions } => {
                let mut config = config;
                let ghost start = config@;
                let ghost all = ignition::directive_views(additions@);
                assert(view == (DestView::Own { config: start, additions: all }));
                let added = config.add_all(&additions, accept);
                let ghost complete = ignition::adding_outcome(config@, added);
                assert(ignition::directives_added(start, all, *accept, complete));
                match added {
                    Ok(()) => {},
                    Err(reason) => {
                        let e = LiveError::AddDirective { reason };
                        assert(own_encoded(start, all, *accept, *to_bytes, Err(e@)));
                        return Err(e);
                    },
                }
                let out = to_bytes(&config);
                assert(ignition_encoded(config@, *to_bytes, encoding_outcome(out)));
                assert(own_encoded(start, all, *accept, *to_bytes, encoding_outcome(out)));
                match out {
                    Ok(data) => Ok(data),
                    Err(reason) => Err(LiveError::SerializeIgnition { reason }),
                }
            },
        }
    }

    /// Puts the Ignition config of the destination system, if there is one, into
    /// the live system.
    fn add_dest<
        A: Fn(&Ignition, &Directive) -> Result<(), String>,
        B: Fn(&Ignition) -> Result<Vec<u8>, String>,
    >(&mut self, accept: &A, to_bytes: &B) -> (r: Result<(), LiveError>)
        requires
            forall|c: &Ignition, d: &Directive| call_requires(*accept, (c, d)),
            forall|config: &Ignition| call_requires(*to_bytes, (config,)),
        ensures
            match r {
                Ok(()) => with_dest(old(self)@, *accept, *to_bytes, Ok(final(self)@)),
                Err(e) => with_dest(old(self)@, *accept, *to_bytes, Err(e@)),
            },
            r matches Err(e) ==> e@ is SerializeUserIgnition ==> !old(self)@.dest_accepted(),
    {
        match self.dest_document() {
            None => Ok(()),
            Some(document) => {
                let ghost view = document@;
                let data = LiveInitrd::dest_bytes(document, accept, to_bytes);
                let ghost outcome = error::outcome(data);
                assert(dest_encoded(view, *accept, *to_bytes, outcome));
                match data {
                    Ok(data) => self.embed_dest(data, accept),
                    Err(e) => Err(e),
                }
            },
        }
    }

    /// Puts the parameters of the installer, if there are any, into the live
    /// system.
    fn add_installer<
        A: Fn(&Ignition, &Directive) -> Result<(), String>,
        Y: Fn(&InstallConfig) -> Result<Vec<u8>, String>,
    >(&mut self, accept: &A, to_yaml: &Y) -> (r: Result<(), LiveError>)
        requires
            final_parameters(old(self)@) is Some ==> old(self)@.has_room(),
            forall|c: &Ignition, d: &Directive| call_requires(*accept, (c, d)),
            forall|config: &InstallConfig| call_requires(*to_yaml, (config,)),
        ensures
            match r {
                Ok(()) => with_installer(old(self)@, *accept, *to_yaml, Ok(final(self)@)),
                Err(e) => with_installer(old(self)@, *accept, *to_yaml, Err(e@)),
            },
            r matches Err(e) ==> !(e@ is SerializeUserIgnition),
    {
        match self.final_installer() {
            None => Ok(()),
            Some(config) => {
                let ghost rest = self@;
                let out = to_yaml(&config);
                let ghost yaml = out;
                let r = match out {
                    Ok(yaml) => self.installer_config_bytes(CUSTOMIZE_CONFIG_NAME, yaml, accept),
                    Err(reason) => Err(LiveError::SerializeInstallerConfig { reason }),
                };
                assert(parameters_added(
                    rest,
                    yaml,
                    *accept,
                    match r {
                        Ok(()) => Ok(self@),
                        Err(e) => Err(e@),
                    },
                )) by {
                    if yaml is Ok {
                        assert(customize::installer_config_bytes_step(
                            rest,
                            CUSTOMIZE_CONFIG_NAME@,
                            yaml->Ok_0@,
                            *accept,
                            customize::attained(self@, r),
                        ));
                    }
                }
                r
            },
        }
    }

    /// Makes the initramfs of the live system. Where the parser accepts the configs
    /// of the user for the destination system, none is refused here.
    pub fn into_initrd<
        A: Fn(&Ignition, &Directive) -> Result<(), String>,
        B: Fn(&Ignition) -> Result<Vec<u8>, String>,
        Y: Fn(&InstallConfig) -> Result<Vec<u8>, String>,
    >(self, accept: &A, to_bytes: &B, to_yaml: &Y) -> (r: Result<Initrd, LiveError>)
        requires
            can_be_made(self@),
            forall|c: &Ignition, d: &Directive| call_requires(*accept, (c, d)),
            forall|config: &Ignition| call_requires(*to_bytes, (config,)),
            forall|config: &InstallConfig| call_requires(*to_yaml, (config,)),
        ensures
            made_initrd(self@, *accept, *to_bytes, *to_yaml, error::outcome(r)),
            r matches Err(e) ==> e@ is SerializeUserIgnition ==> !self@.dest_accepted(),
    {
        let mut live = self;
        let ghost start = live@;
        match live.add_dest(accept, to_bytes) {
            Ok(()) => {},
            Err(e) => {
                assert(with_dest(start, *accept, *to_bytes, Err(e@)));
                return Err(e);
            },
        }
        let ghost dest = live@;
        assert(with_dest(start, *accept, *to_bytes, Ok(dest)));
        match live.add_installer(accept, to_yaml) {
            Ok(()) => {},
            Err(e) => {
                assert(with_installer(dest, *accept, *to_yaml, Err(e@)));
                return Err(e);
            },
        }
        let ghost installer = live@;
        assert(with_installer(dest, *accept, *to_yaml, Ok(installer)));
        let out = to_bytes(&live.live);
        assert(ignition_encoded(installer.live, *to_bytes, encoding_outcome(out)));
        match out {
            Ok(bytes) => Ok(live.finish(bytes)),
            Err(reason) => Err(LiveError::SerializeIgnition { reason }),
        }
    }
}

} // verus!
