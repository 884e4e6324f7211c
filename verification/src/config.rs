//! The configuration: which event providers there are, of which kind, and where their
//! events are kept.

use vstd::prelude::*;
use crate::text::same_text;

verus! {

/// The mathematical value of a provider's configuration.
pub struct ProviderConfigView {
    pub name: Seq<char>,
    pub kind: Seq<char>,
    pub resource: Seq<char>,
}

/// One event provider of the configuration: its name, its kind (`text`, `csv`,
/// `sqlite` or `web`) and its resource (a file name or a URL).
#[derive(Debug)]
pub struct ProviderConfig {
    name: String,
    kind: String,
    resource: String,
}

impl View for ProviderConfig {
    type V = ProviderConfigView;

    closed spec fn view(&self) -> ProviderConfigView {
        ProviderConfigView { name: self.name@, kind: self.kind@, resource: self.resource@ }
    }
}

/// The kinds of event provider.
#[derive(Debug, Clone, Copy, PartialEq, Eq, Structural)]
pub enum ProviderKind {
    Text,
    Csv,
    Sqlite,
    Web,
}

/// The provider kind that a configured kind name selects.
pub open spec fn provider_kind_of(kind: Seq<char>) -> Option<ProviderKind> {
    if kind == seq!['t', 'e', 'x', 't'] {
        Some(ProviderKind::Text)
    } else if kind == seq!['c', 's', 'v'] {
        Some(ProviderKind::Csv)
    } else if kind == seq!['s', 'q', 'l', 'i', 't', 'e'] {
        Some(ProviderKind::Sqlite)
    } else if kind == seq!['w', 'e', 'b'] {
        Some(ProviderKind::Web)
    } else {
        None
    }
}

impl ProviderConfig {
    pub fn new(name: String, kind: String, resource: String) -> (r: ProviderConfig)
        ensures
            r@ == (ProviderConfigView { name: name@, kind: kind@, resource: resource@ }),
    {
        ProviderConfig { name, kind, resource }
    }

    pub fn name(&self) -> (r: &str)
        ensures
            r@ == self@.name,
    {
        self.name.as_str()
    }

    pub fn kind(&self) -> (r: &str)
        ensures
            r@ == self@.kind,
    {
        self.kind.as_str()
    }

    pub fn resource(&self) -> (r: &str)
        ensures
            r@ == self@.resource,
    {
        self.resource.as_str()
    }

    /// The kind of provider this configuration asks for, if the kind name is known.
    pub fn provider_kind(&self) -> (r: Option<ProviderKind>)
        ensures
            r == provider_kind_of(self@.kind),
    {
        proof {
            reveal_strlit("text");
            reveal_strlit("csv");
            reveal_strlit("sqlite");
            reveal_strlit("web");
            assert("text"@ =~= seq!['t', 'e', 'x', 't']);
            assert("csv"@ =~= seq!['c', 's', 'v']);
            assert("sqlite"@ =~= seq!['s', 'q', 'l', 'i', 't', 'e']);
            assert("web"@ =~= seq!['w', 'e', 'b']);
        }
        let kind = self.kind.as_str();
        if same_text(kind, "text") {
            Some(ProviderKind::Text)
        } else if same_text(kind, "csv") {
            Some(ProviderKind::Csv)
        } else if same_text(kind, "sqlite") {
            Some(ProviderKind::Sqlite)
        } else if same_text(kind, "web") {
            Some(ProviderKind::Web)
        } else {
            None
        }
    }
}

/// The configuration: the list of event providers.
#[derive(Debug)]
pub struct Config {
    providers: Vec<ProviderConfig>,
}

impl View for Config {
    type V = Seq<ProviderConfigView>;

    closed spec fn view(&self) -> Seq<ProviderConfigView> {
        self.providers@.map_values(|p: ProviderConfig| p@)
    }
}

impl Config {
    pub fn new(providers: Vec<ProviderConfig>) -> (r: Config)
        ensures
            r@ == providers@.map_values(|p: ProviderConfig| p@),
    {
        Config { providers }
    }

    pub fn providers(&self) -> (r: &Vec<ProviderConfig>)
        ensures
            r@.map_values(|p: ProviderConfig| p@) == self@,
    {
        &self.providers
    }
}

} // verus!
