//! What a run is told from outside: which parts of the registry to leave
//! out, and which server to talk to.

use vstd::prelude::*;

verus! {

/// What to leave out of a run, besides what is always left out: the
/// namespaces that one of the patterns `ns` matches, the symbols that
/// `symbols` names, and the symbols that carry one of the `tags`.
#[derive(Clone, Debug, PartialEq, Eq)]
pub struct ExcludeConfig {
    pub ns: Option<Vec<String>>,
    pub symbols: Option<Vec<String>>,
    pub tags: Option<Vec<String>>,
}

/// How to reach one server instance.
#[derive(Clone, Debug, PartialEq, Eq)]
pub struct BoxConfig {
    pub key: String,
    pub url: String,
    pub client: String,
    pub secret: String,
    pub tags: Option<Vec<String>>,
}

impl ExcludeConfig {
    /// A configuration that leaves nothing out.
    pub fn none() -> (r: Self)
        ensures
            r.ns is None,
            r.symbols is None,
            r.tags is None,
    {
        ExcludeConfig { ns: None, symbols: None, tags: None }
    }
}

} // verus!
