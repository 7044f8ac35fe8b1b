//! Ignition configs: parsing those of the user, and the directives of our own.

use crate::series;
use crate::text;
use vstd::prelude::*;
use vstd::string::*;

verus! {

/// What the parser of Ignition configs has to say of a config: the texts of its
/// warnings, in order, or `None` if the config is refused.
pub uninterp spec fn ignition_warnings(source: Seq<u8>) -> Option<Seq<Seq<char>>>;

/// The JSON that a parsed Ignition config is written as, or `None` if the config
/// is refused or cannot be written.
pub uninterp spec fn ignition_json(source: Seq<u8>) -> Option<Seq<u8>>;

/// The outcome of parsing, without the error.
pub open spec fn warning_texts(r: Result<Vec<String>, ignition_config::Error>) -> Option<
    Seq<Seq<char>>,
> {
    match r {
        Ok(warnings) => Some(text::texts(warnings@)),
        Err(_) => None,
    }
}

/// The outcome of rewriting, without the error.
pub open spec fn json_bytes(r: Result<Vec<u8>, ignition_config::Error>) -> Option<Seq<u8>> {
    match r {
        Ok(json) => Some(json@),
        Err(_) => None,
    }
}

/// Parses an Ignition config for its warnings.
///
/// `Config::parse_slice` of the `ignition-config` crate refuses a config or
/// gives its warnings, each turned into its text here; both depend on the bytes
/// alone.
#[verifier::external_body]
pub(crate) fn parse_ignition(source: &[u8]) -> (r: Result<Vec<String>, ignition_config::Error>)
    ensures
        warning_texts(r) == ignition_warnings(source@),
{
    let (_, warnings) = ignition_config::Config::parse_slice(source)?;
    Ok(warnings.iter().map(|warning| warning.to_string()).collect())
}

/// Parses an Ignition config and writes it as JSON again.
///
/// `serde_json::to_vec`, on what `Config::parse_slice` of the `ignition-config`
/// crate makes of the bytes: the outcome depends on the bytes alone. A config that
/// the parser accepts is written without an error: it is made of texts, numbers,
/// truth values, lists and structs of these. What the JSON looks like is left
/// open.
#[verifier::external_body]
pub(crate) fn rewrite_ignition(source: &[u8]) -> (r: Result<Vec<u8>, ignition_config::Error>)
    ensures
        json_bytes(r) == ignition_json(source@),
        ignition_warnings(source@) is Some ==> r is Ok,
{
    let (config, _) = ignition_config::Config::parse_slice(source)?;
    Ok(serde_json::to_vec(&config)?)
}

/// One thing that an Ignition config of ours asks for.
#[derive(Debug)]
pub enum Directive {
    /// To trust a certificate authority.
    Ca { certificate: Vec<u8> },
    /// To write a file.
    File { path: String, data: Vec<u8>, mode: u32 },
    /// To add a systemd unit.
    Unit { name: String, contents: String, enabled: bool },
    /// To merge another Ignition config, given by its source.
    Merge { source: Vec<u8> },
}

/// A directive with its parts as sequences.
pub enum DirectiveView {
    Ca { certificate: Seq<u8> },
    File { path: Seq<char>, data: Seq<u8>, mode: u32 },
    Unit { name: Seq<char>, contents: Seq<char>, enabled: bool },
    Merge { source: Seq<u8> },
}

impl View for Directive {
    type V = DirectiveView;

    open spec fn view(&self) -> DirectiveView {
        match *self {
            Directive::Ca { certificate } => DirectiveView::Ca { certificate: certificate@ },
            Directive::File { path, data, mode } => DirectiveView::File {
                path: path@,
                data: data@,
                mode,
            },
            Directive::Unit { name, contents, enabled } => DirectiveView::Unit {
                name: name@,
                contents: contents@,
                enabled,
            },
            Directive::Merge { source } => DirectiveView::Merge { source: source@ },
        }
    }
}

/// The views of a list of directives.
pub open spec fn directive_views(v: Seq<Directive>) -> Seq<DirectiveView> {
    v.map_values(|d: Directive| d@)
}

/// An Ignition config of ours: its directives, in order.
#[derive(Debug)]
pub struct Ignition {
    pub directives: Vec<Directive>,
}

impl View for Ignition {
    type V = Seq<DirectiveView>;

    open spec fn view(&self) -> Seq<DirectiveView> {
        directive_views(self.directives@)
    }
}

impl Default for Ignition {
    fn default() -> (r: Ignition)
        ensures
            r@ == Seq::<DirectiveView>::empty(),
    {
        let r = Ignition { directives: Vec::new() };
        assert(r@ =~= Seq::<DirectiveView>::empty());
        r
    }
}

impl Clone for Directive {
    fn clone(&self) -> (r: Directive)
        ensures
            r@ == self@,
    {
        match self {
            Directive::Ca { certificate } => {
                let certificate_copy = certificate.clone();
                assert(certificate_copy@ =~= certificate@);
                Directive::Ca { certificate: certificate_copy }
            },
            Directive::File { path, data, mode } => {
                let data_copy = data.clone();
                assert(data_copy@ =~= data@);
                Directive::File { path: path.clone(), data: data_copy, mode: *mode }
            },
            Directive::Unit { name, contents, enabled } => Directive::Unit {
                name: name.clone(),
                contents: contents.clone(),
                enabled: *enabled,
            },
            Directive::Merge { source } => {
                let source_copy = source.clone();
                assert(source_copy@ =~= source@);
                Directive::Merge { source: source_copy }
            },
        }
    }
}

impl Clone for Ignition {
    fn clone(&self) -> (r: Ignition)
        ensures
            r@ == self@,
    {
        let mut directives: Vec<Directive> = Vec::new();
        let mut i: usize = 0;
        assert(directive_views(directives@) =~= self@.take(0));
        while i < self.directives.len()
            invariant
                i <= self.directives.len(),
                directive_views(directives@) == self@.take(i as int),
            decreases self.directives.len() - i,
        {
            let ghost before = directive_views(directives@);
            directives.push(self.directives[i].clone());
            assert(directive_views(directives@) =~= before.push(self@[i as int]));
            assert(self@.take(i + 1) =~= self@.take(i as int).push(self@[i as int]));
            i = i + 1;
        }
        assert(self@.take(i as int) =~= self@);
        Ignition { directives }
    }
}

/// The outcome of adding to a config: the config then, or the reason why not.
pub open spec fn adding_outcome(after: Seq<DirectiveView>, r: Result<(), String>) -> Result<
    Seq<DirectiveView>,
    Seq<char>,
> {
    match r {
        Ok(()) => Ok(after),
        Err(reason) => Err(reason@),
    }
}

/// How a directive is added to a config: it comes last, unless `accept` has a
/// reason why the config does not take it.
pub open spec fn directive_added<A: Fn(&Ignition, &Directive) -> Result<(), String>>(
    config: Seq<DirectiveView>,
    directive: DirectiveView,
    accept: A,
    r: Result<Seq<DirectiveView>, Seq<char>>,
) -> bool {
    exists|c: &Ignition, d: &Directive, out: Result<(), String>|
        {
            &&& c@ == config
            &&& d@ == directive
            &&& #[trigger] call_ensures(accept, (c, d), out)
            &&& r == adding_outcome(config.push(directive), out)
        }
}

/// The step of adding a directive to a config, if none has been refused before.
pub open spec fn adding_step<A: Fn(&Ignition, &Directive) -> Result<(), String>>(
    accept: A,
) -> spec_fn(
    Result<Seq<DirectiveView>, Seq<char>>,
    DirectiveView,
    Result<Seq<DirectiveView>, Seq<char>>,
) -> bool {
    |
        before: Result<Seq<DirectiveView>, Seq<char>>,
        directive: DirectiveView,
        after: Result<Seq<DirectiveView>, Seq<char>>,
    |
        match before {
            Err(_) => after == before,
            Ok(config) => directive_added(config, directive, accept, after),
        }
}

/// How a list of directives is added to a config, up to the first that it does not
/// take.
pub open spec fn directives_added<A: Fn(&Ignition, &Directive) -> Result<(), String>>(
    config: Seq<DirectiveView>,
    directives: Seq<DirectiveView>,
    accept: A,
    r: Result<Seq<DirectiveView>, Seq<char>>,
) -> bool {
    series::leads(
        Ok::<Seq<DirectiveView>, Seq<char>>(config),
        directives,
        adding_step(accept),
        r,
    )
}

impl Ignition {
    /// Adds a directive, if `accept` has no reason why the config does not take it.
    fn add<A: Fn(&Ignition, &Directive) -> Result<(), String>>(
        &mut self,
        directive: Directive,
        accept: &A,
    ) -> (r: Result<(), String>)
        requires
            forall|c: &Ignition, d: &Directive| call_requires(*accept, (c, d)),
        ensures
            directive_added(old(self)@, directive@, *accept, adding_outcome(final(self)@, r)),
            r is Err ==> final(self)@ == old(self)@,
    {
        let ghost before = self@;
        let ghost view = directive@;
        let out = accept(&*self, &directive);
        match out {
            Ok(()) => {
                self.directives.push(directive);
                assert(self@ =~= before.push(view));
                Ok(())
            },
            Err(reason) => Err(reason),
        }
    }

    /// Adds a list of directives, up to the first that the config does not take.
    pub fn add_all<A: Fn(&Ignition, &Directive) -> Result<(), String>>(
        &mut self,
        directives: &Vec<Directive>,
        accept: &A,
    ) -> (r: Result<(), String>)
        requires
            forall|c: &Ignition, d: &Directive| call_requires(*accept, (c, d)),
        ensures
            directives_added(
                old(self)@,
                directive_views(directives@),
                *accept,
                adding_outcome(final(self)@, r),
            ),
    {
        let ghost start = Ok::<Seq<DirectiveView>, Seq<char>>(self@);
        let ghost all = directive_views(directives@);
        let ghost next = adding_step(*accept);
        let mut i: usize = 0;
        proof {
            series::lemma_no_steps(start, all.take(0), next, start);
        }
        while i < directives.len()
            invariant
                i <= directives.len(),
                all == directive_views(directives@),
                next == adding_step(*accept),
                start == Ok::<Seq<DirectiveView>, Seq<char>>(old(self)@),
                series::leads(start, all.take(i as int), next, Ok(self@)),
                forall|c: &Ignition, d: &Directive| call_requires(*accept, (c, d)),
            decreases directives.len() - i,
        {
            let ghost before = Ok::<Seq<DirectiveView>, Seq<char>>(self@);
            let r = self.add(directives[i].clone(), accept);
            proof {
                let outcome = adding_outcome(self@, r);
                assert(next(before, all[i as int], outcome));
                series::lemma_step(start, all, next, i as int, before, outcome);
                if r is Err {
                    series::lemma_stay(start, all, next, i + 1, outcome);
                }
            }
            match r {
                Ok(()) => {},
                Err(reason) => {
                    return Err(reason);
                },
            }
            i = i + 1;
        }
        assert(all.take(i as int) =~= all);
        Ok(())
    }

    /// Trusts a certificate authority.
    pub fn add_ca<A: Fn(&Ignition, &Directive) -> Result<(), String>>(
        &mut self,
        certificate: Vec<u8>,
        accept: &A,
    ) -> (r: Result<(), String>)
        requires
            forall|c: &Ignition, d: &Directive| call_requires(*accept, (c, d)),
        ensures
            directive_added(
                old(self)@,
                (DirectiveView::Ca { certificate: certificate@ }),
                *accept,
                adding_outcome(final(self)@, r),
            ),
            r is Err ==> final(self)@ == old(self)@,
    {
        self.add(Directive::Ca { certificate }, accept)
    }

    /// Adds a file.
    pub fn add_file<A: Fn(&Ignition, &Directive) -> Result<(), String>>(
        &mut self,
        path: String,
        data: Vec<u8>,
        mode: u32,
        accept: &A,
    ) -> (r: Result<(), String>)
        requires
            forall|c: &Ignition, d: &Directive| call_requires(*accept, (c, d)),
        ensures
            directive_added(
                old(self)@,
                (DirectiveView::File { path: path@, data: data@, mode }),
                *accept,
                adding_outcome(final(self)@, r),
            ),
            r is Err ==> final(self)@ == old(self)@,
    {
        self.add(Directive::File { path, data, mode }, accept)
    }

    /// Adds a systemd unit.
    pub fn add_unit<A: Fn(&Ignition, &Directive) -> Result<(), String>>(
        &mut self,
        name: String,
        contents: String,
        enabled: bool,
        accept: &A,
    ) -> (r: Result<(), String>)
        requires
            forall|c: &Ignition, d: &Directive| call_requires(*accept, (c, d)),
        ensures
            directive_added(
                old(self)@,
                (DirectiveView::Unit { name: name@, contents: contents@, enabled }),
                *accept,
                adding_outcome(final(self)@, r),
            ),
            r is Err ==> final(self)@ == old(self)@,
    {
        self.add(Directive::Unit { name, contents, enabled }, accept)
    }

    /// Merges another config.
    pub fn merge_config<A: Fn(&Ignition, &Directive) -> Result<(), String>>(
        &mut self,
        source: Vec<u8>,
        accept: &A,
    ) -> (r: Result<(), String>)
        requires
            forall|c: &Ignition, d: &Directive| call_requires(*accept, (c, d)),
        ensures
            directive_added(
                old(self)@,
                (DirectiveView::Merge { source: source@ }),
                *accept,
                adding_outcome(final(self)@, r),
            ),
            r is Err ==> final(self)@ == old(self)@,
    {
        self.add(Directive::Merge { source }, accept)
    }
}

} // verus!
