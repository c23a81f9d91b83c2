//! The catalog: which namespaces are loaded, and which of their symbols
//! are resolved.

use vstd::prelude::*;
use vstd::string::StringExecFns;
use regex::RegexSet;
use crate::config::ExcludeConfig;
use crate::reader::{append_texts, contains_text};
use crate::text::{text_eq, texts, Text};

verus! {

/// Declares `regex::RegexSet`, a compiled set of regular expressions.
/// Nothing is known of what is inside it; see [`set_matches`].
#[verifier::external_type_specification]
#[verifier::external_body]
pub struct ExRegexSet(regex::RegexSet);

/// Declares `regex::Error`, the reason why a pattern did not compile.
#[verifier::external_type_specification]
#[verifier::external_body]
pub struct ExRegexError(regex::Error);

/// Whether every one of `patterns` is a regular expression that
/// `RegexSet::new` compiles.
pub uninterp spec fn patterns_compile(patterns: Seq<Seq<char>>) -> bool;

/// Whether the set that `RegexSet::new` makes of `patterns` has a pattern
/// that matches somewhere in `haystack`.
pub uninterp spec fn pattern_matches(patterns: Seq<Seq<char>>, haystack: Seq<char>) -> bool;

/// Whether a compiled set has a pattern that matches somewhere in
/// `haystack`: what `RegexSet::is_match` answers.
pub uninterp spec fn set_matches(set: regex::RegexSet, haystack: Seq<char>) -> bool;

/// Calls `RegexSet::new`. Trusted: whether it succeeds depends on the
/// patterns alone, and what the set it gives matches depends on the
/// patterns alone. Nothing is said of sets that were made in another way.
#[verifier::external_body]
fn compile_patterns(patterns: &Vec<String>) -> (r: Result<RegexSet, regex::Error>)
    ensures
        r is Ok == patterns_compile(texts(patterns@)),
        r matches Ok(set) ==> forall|h: Seq<char>| #[trigger]
            set_matches(set, h) == pattern_matches(texts(patterns@), h),
{
    RegexSet::new(patterns)
}

/// Calls `RegexSet::is_match`. Trusted: the answer depends on the set and
/// the haystack alone; it is named by [`set_matches`].
#[verifier::external_body]
fn set_is_match(set: &RegexSet, haystack: &str) -> (r: bool)
    ensures
        r == set_matches(*set, haystack@),
{
    set.is_match(haystack)
}

/// Why the catalog could not be filtered.
#[derive(Clone, Copy, Debug, PartialEq, Eq, Structural)]
pub enum CatalogError {
    /// The patterns for the namespaces that are never loaded do not compile.
    Patterns,
}

/// The patterns of the namespaces that are never loaded.
pub open spec fn namespace_patterns() -> Seq<Text> {
    seq![
        "^zenbox"@,
        "^lisp"@,
        "aidbox.metrics"@,
        "aidbox.ftr"@,
        "fhir$"@,
        "^zen$"@,
        "^zen.fhir"@,
        "\\.value-set\\."@,
        "\\.search\\."@,
        "^aidbox.sdc"@,
        "^aidbox.notebooks"@,
        "^aidbox.mock"@,
        "^aidbox.product"@,
        "^aidbox.pg"@,
    ]
}

/// The symbols that are never resolved.
pub open spec fn excluded_symbols() -> Seq<Text> {
    seq![
        "aidbox/Configuration"@,
        "aidbox/ftr"@,
        "aidbox/ftr-source"@,
        "aidbox/config"@,
        "aidbox/devbox-config"@,
        "aidbox/http"@,
        "aidbox/nested-schema"@,
        "aidbox/seed"@,
        "aidbox/service"@,
        "aidbox/system"@,
        "aidbox.rest.v1/base-op"@,
        "aidbox.rest.acl/base-operation"@,
        "aidbox.rest.acl/sql-params"@,
        "aidbox.rest.acl/filter-expression"@,
        "aidbox.rest/.api-op"@,
        "aidbox.rest/op"@,
    ]
}

/// The texts of an optional list; none where there is no list.
pub open spec fn listed(o: Option<Vec<String>>) -> Seq<Text> {
    match o {
        Some(v) => texts(v@),
        None => Seq::empty(),
    }
}

/// Whether an entry of the user takes a namespace away: as a pattern it
/// matches somewhere in the namespace; an entry that is no pattern takes
/// away the namespace that it names letter by letter.
pub open spec fn entry_matches(entry: Text, ns: Text) -> bool {
    if patterns_compile(seq![entry]) {
        pattern_matches(seq![entry], ns)
    } else {
        entry == ns
    }
}

/// Whether one of the entries of the user takes the namespace away.
pub open spec fn user_matches(user: Seq<Text>, ns: Text) -> bool {
    exists|j: int| 0 <= j < user.len() && entry_matches(#[trigger] user[j], ns)
}

/// Whether a namespace is loaded: no pattern of the namespaces that never
/// are matches it, and no pattern of the user.
pub open spec fn namespace_kept(ns: Text, user: Seq<Text>) -> bool {
    !pattern_matches(namespace_patterns(), ns) && !user_matches(user, ns)
}

/// Which of the namespaces are left out.
pub open spec fn exclusions(namespaces: Seq<Text>, user: Seq<Text>) -> Seq<bool> {
    Seq::new(namespaces.len(), |i: int| !namespace_kept(namespaces[i], user))
}

/// The names that are not marked as left out, in order.
pub open spec fn kept_by(names: Seq<Text>, excluded: Seq<bool>) -> Seq<Text>
    decreases names.len(),
{
    if names.len() == 0 {
        Seq::empty()
    } else {
        let front = kept_by(names.drop_last(), excluded.drop_last());
        if excluded.last() {
            front
        } else {
            front.push(names.last())
        }
    }
}

/// The namespaces that are loaded, in order.
pub open spec fn kept_namespaces(namespaces: Seq<Text>, user: Seq<Text>) -> Seq<Text> {
    kept_by(namespaces, exclusions(namespaces, user))
}

/// The full name of a symbol of a namespace.
pub open spec fn qualified(ns: Text, name: Text) -> Text {
    ns + "/"@ + name
}

/// Whether a symbol is resolved: it is none of the symbols that never are,
/// and the user does not name it.
pub open spec fn symbol_kept(symbol: Text, user: Seq<Text>) -> bool {
    !excluded_symbols().contains(symbol) && !user.contains(symbol)
}

/// The symbols of the namespace `ns` that are resolved, by their full
/// names and in order.
pub open spec fn kept_symbols(ns: Text, names: Seq<Text>, user: Seq<Text>) -> Seq<Text>
    decreases names.len(),
{
    if names.len() == 0 {
        Seq::empty()
    } else {
        let front = kept_symbols(ns, names.drop_last(), user);
        if symbol_kept(qualified(ns, names.last()), user) {
            front.push(qualified(ns, names.last()))
        } else {
            front
        }
    }
}

/// What the registry lists of one namespace: its name and the names of
/// its symbols.
pub struct Listing {
    pub namespace: String,
    pub names: Vec<String>,
}

/// A listing as a namespace and its names.
pub open spec fn listing_model(l: Listing) -> (Text, Seq<Text>) {
    (l.namespace@, texts(l.names@))
}

/// Listings as namespaces with their names.
pub open spec fn listing_models(ls: Seq<Listing>) -> Seq<(Text, Seq<Text>)> {
    ls.map_values(|l: Listing| listing_model(l))
}

/// The symbols of the listed namespaces that are resolved, namespace after
/// namespace, each in the order of its listing.
pub open spec fn listed_symbols(listings: Seq<(Text, Seq<Text>)>, user: Seq<Text>) -> Seq<Text>
    decreases listings.len(),
{
    if listings.len() == 0 {
        Seq::empty()
    } else {
        let entry = listings.last();
        listed_symbols(listings.drop_last(), user) + kept_symbols(entry.0, entry.1, user)
    }
}

/// The catalog of a registry that lists `namespaces` and, of a namespace
/// `n`, the names `names_of(n)`: the resolved symbols of the namespaces that
/// are loaded.
pub open spec fn catalog(
    namespaces: Seq<Text>,
    names_of: spec_fn(Text) -> Seq<Text>,
    user_namespaces: Seq<Text>,
    user_symbols: Seq<Text>,
) -> Seq<Text> {
    listed_symbols(
        kept_namespaces(namespaces, user_namespaces).map_values(|n: Text| (n, names_of(n))),
        user_symbols,
    )
}

/// Whether `a` is `b` with some of its entries left out: the entries of `a`
/// are entries of `b`, in the same order.
pub open spec fn embeds(a: Seq<Text>, b: Seq<Text>) -> bool
    decreases b.len(),
{
    if a.len() == 0 {
        true
    } else if b.len() == 0 {
        false
    } else {
        (a.last() == b.last() && embeds(a.drop_last(), b.drop_last())) || embeds(a, b.drop_last())
    }
}

/// A copy of an optional list; empty where there is no list.
pub fn list_of(o: &Option<Vec<String>>) -> (r: Vec<String>)
    ensures
        texts(r@) == listed(*o),
{
    match o {
        Some(v) => crate::schema::copy_texts(v),
        None => {
            let none: Vec<String> = Vec::new();
            assert(texts(none@) =~= Seq::<Text>::empty());
            none
        },
    }
}

/// The patterns of the namespaces that are never loaded.
pub fn builtin_namespace_patterns() -> (r: Vec<String>)
    ensures
        texts(r@) == namespace_patterns(),
{
    let mut v: Vec<String> = Vec::new();
    v.push(String::from_str("^zenbox"));
    v.push(String::from_str("^lisp"));
    v.push(String::from_str("aidbox.metrics"));
    v.push(String::from_str("aidbox.ftr"));
    v.push(String::from_str("fhir$"));
    v.push(String::from_str("^zen$"));
    v.push(String::from_str("^zen.fhir"));
    v.push(String::from_str("\\.value-set\\."));
    v.push(String::from_str("\\.search\\."));
    v.push(String::from_str("^aidbox.sdc"));
    v.push(String::from_str("^aidbox.notebooks"));
    v.push(String::from_str("^aidbox.mock"));
    v.push(String::from_str("^aidbox.product"));
    v.push(String::from_str("^aidbox.pg"));
    assert(texts(v@) =~= namespace_patterns());
    v
}

/// The symbols that are never resolved.
pub fn builtin_excluded_symbols() -> (r: Vec<String>)
    ensures
        texts(r@) == excluded_symbols(),
{
    let mut v: Vec<String> = Vec::new();
    v.push(String::from_str("aidbox/Configuration"));
    v.push(String::from_str("aidbox/ftr"));
    v.push(String::from_str("aidbox/ftr-source"));
    v.push(String::from_str("aidbox/config"));
    v.push(String::from_str("aidbox/devbox-config"));
    v.push(String::from_str("aidbox/http"));
    v.push(String::from_str("aidbox/nested-schema"));
    v.push(String::from_str("aidbox/seed"));
    v.push(String::from_str("aidbox/service"));
    v.push(String::from_str("aidbox/system"));
    v.push(String::from_str("aidbox.rest.v1/base-op"));
    v.push(String::from_str("aidbox.rest.acl/base-operation"));
    v.push(String::from_str("aidbox.rest.acl/sql-params"));
    v.push(String::from_str("aidbox.rest.acl/filter-expression"));
    v.push(String::from_str("aidbox.rest/.api-op"));
    v.push(String::from_str("aidbox.rest/op"));
    assert(texts(v@) =~= excluded_symbols());
    v
}

/// The names that are not marked as left out, in order.
pub fn keep_unmarked(names: &Vec<String>, excluded: &Vec<bool>) -> (r: Vec<String>)
    requires
        names.len() == excluded.len(),
    ensures
        texts(r@) == kept_by(texts(names@), excluded@),
{
    let mut out: Vec<String> = Vec::new();
    let mut i: usize = 0;
    assert(texts(names@).take(0) =~= Seq::<Text>::empty());
    assert(texts(out@) =~= Seq::<Text>::empty());
    while i < names.len()
        invariant
            i <= names.len(),
            names.len() == excluded.len(),
            texts(out@) == kept_by(texts(names@).take(i as int), excluded@.take(i as int)),
        decreases names.len() - i,
    {
        let ghost upto = texts(names@).take(i + 1);
        assert(upto.drop_last() =~= texts(names@).take(i as int));
        assert(upto.last() == names@[i as int]@);
        assert(excluded@.take(i + 1).drop_last() =~= excluded@.take(i as int));
        if !excluded[i] {
            let ghost before = out@;
            out.push(names[i].clone());
            assert(texts(out@) =~= texts(before).push(names@[i as int]@));
        }
        i = i + 1;
    }
    assert(texts(names@).take(i as int) =~= texts(names@));
    assert(excluded@.take(i as int) =~= excluded@);
    out
}

/// Which of the names a compiled set matches.
fn mark_matches(set: &RegexSet, names: &Vec<String>) -> (r: Vec<bool>)
    ensures
        r@.len() == names@.len(),
        forall|i: int| 0 <= i < r@.len() ==> r@[i] == set_matches(*set, names@[i]@),
{
    let mut marks: Vec<bool> = Vec::new();
    let mut i: usize = 0;
    while i < names.len()
        invariant
            i <= names.len(),
            marks@.len() == i,
            forall|k: int| 0 <= k < i ==> marks@[k] == set_matches(*set, names@[k]@),
        decreases names.len() - i,
    {
        marks.push(set_is_match(set, names[i].as_str()));
        i = i + 1;
    }
    marks
}

/// Which of the namespaces an entry of the user takes away.
fn mark_entry(entry: &String, namespaces: &Vec<String>) -> (r: Vec<bool>)
    ensures
        r@.len() == namespaces@.len(),
        forall|i: int| 0 <= i < r@.len() ==> r@[i] == entry_matches(entry@, namespaces@[i]@),
{
    let mut one: Vec<String> = Vec::new();
    one.push(entry.clone());
    assert(texts(one@) =~= seq![entry@]);
    match compile_patterns(&one) {
        Ok(set) => mark_matches(&set, namespaces),
        Err(_) => {
            let mut marks: Vec<bool> = Vec::new();
            let mut i: usize = 0;
            while i < namespaces.len()
                invariant
                    i <= namespaces.len(),
                    marks@.len() == i,
                    forall|k: int| 0 <= k < i ==> marks@[k] == (entry@ == namespaces@[k]@),
                decreases namespaces.len() - i,
            {
                marks.push(text_eq(entry.as_str(), namespaces[i].as_str()));
                i = i + 1;
            }
            marks
        },
    }
}

/// Which of the namespaces one of the entries of the user takes away.
fn mark_user_matches(user: &Vec<String>, namespaces: &Vec<String>) -> (r: Vec<bool>)
    ensures
        r@.len() == namespaces@.len(),
        forall|i: int|
            0 <= i < r@.len() ==> r@[i] == user_matches(texts(user@), namespaces@[i]@),
{
    let mut marks: Vec<bool> = Vec::new();
    let mut i: usize = 0;
    while i < namespaces.len()
        invariant
            i <= namespaces.len(),
            marks@.len() == i,
            forall|k: int| 0 <= k < i ==> !marks@[k],
        decreases namespaces.len() - i,
    {
        marks.push(false);
        i = i + 1;
    }
    let mut j: usize = 0;
    while j < user.len()
        invariant
            j <= user.len(),
            marks@.len() == namespaces@.len(),
            forall|i: int|
                0 <= i < marks@.len() ==> marks@[i] == (exists|e: int|
                    0 <= e < j && entry_matches(#[trigger] texts(user@)[e], namespaces@[i]@)),
        decreases user.len() - j,
    {
        let by_entry = mark_entry(&user[j], namespaces);
        let ghost before = marks@;
        let mut merged: Vec<bool> = Vec::new();
        let mut i: usize = 0;
        while i < namespaces.len()
            invariant
                i <= namespaces.len(),
                marks@.len() == namespaces@.len(),
                by_entry@.len() == namespaces@.len(),
                merged@.len() == i,
                forall|k: int| 0 <= k < i ==> merged@[k] == (marks@[k] || by_entry@[k]),
            decreases namespaces.len() - i,
        {
            merged.push(marks[i] || by_entry[i]);
            i = i + 1;
        }
        marks = merged;
        proof {
            assert forall|i: int| 0 <= i < marks@.len() implies marks@[i] == (exists|e: int|
                0 <= e < j + 1 && entry_matches(
                    #[trigger] texts(user@)[e],
                    namespaces@[i]@,
                )) by {
                let ns = namespaces@[i]@;
                if before[i] {
                    let e = choose|e: int|
                        0 <= e < j && entry_matches(#[trigger] texts(user@)[e], ns);
                    assert(0 <= e < j + 1 && entry_matches(texts(user@)[e], ns));
                }
                if by_entry@[i] {
                    assert(entry_matches(texts(user@)[j as int], ns));
                }
                if exists|e: int| 0 <= e < j + 1 && entry_matches(#[trigger] texts(user@)[e], ns) {
                    let e = choose|e: int|
                        0 <= e < j + 1 && entry_matches(#[trigger] texts(user@)[e], ns);
                    if e < j {
                        assert(before[i]);
                    } else {
                        assert(by_entry@[i]);
                    }
                }
            }
        }
        j = j + 1;
    }
    marks
}

/// The namespaces that are loaded: those that no pattern of the namespaces
/// that never are matches and no entry of the user takes away, in the
/// order in which the registry lists them. What the user excludes cannot
/// make it fail: the only failure is that the patterns of the namespaces
/// that are never loaded do not compile.
pub fn filter_namespaces(namespaces: &Vec<String>, exclude: &ExcludeConfig) -> (r: Result<
    Vec<String>,
    CatalogError,
>)
    ensures
        r is Ok == patterns_compile(namespace_patterns()),
        r matches Ok(kept) ==> texts(kept@) == kept_namespaces(
            texts(namespaces@),
            listed(exclude.ns),
        ),
        r matches Err(e) ==> e == CatalogError::Patterns,
{
    let patterns = builtin_namespace_patterns();
    let never = match compile_patterns(&patterns) {
        Ok(set) => mark_matches(&set, namespaces),
        Err(_) => {
            return Err(CatalogError::Patterns);
        },
    };
    let user = list_of(&exclude.ns);
    let by_user = mark_user_matches(&user, namespaces);
    let mut excluded: Vec<bool> = Vec::new();
    let mut i: usize = 0;
    while i < namespaces.len()
        invariant
            i <= namespaces.len(),
            never@.len() == namespaces@.len(),
            by_user@.len() == namespaces@.len(),
            excluded@.len() == i,
            forall|k: int| 0 <= k < i ==> excluded@[k] == (never@[k] || by_user@[k]),
        decreases namespaces.len() - i,
    {
        excluded.push(never[i] || by_user[i]);
        i = i + 1;
    }
    assert(excluded@ =~= exclusions(texts(namespaces@), listed(exclude.ns)));
    Ok(keep_unmarked(namespaces, &excluded))
}

/// The symbols of the namespace `ns` that are resolved: the full names,
/// in the order in which the registry lists them, of those that are none of
/// the symbols that never are and that the user does not name.
pub fn namespace_symbols(ns: &str, names: &Vec<String>, exclude: &ExcludeConfig) -> (r: Vec<
    String,
>)
    ensures
        texts(r@) == kept_symbols(ns@, texts(names@), listed(exclude.symbols)),
{
    let always = builtin_excluded_symbols();
    let user = list_of(&exclude.symbols);
    let mut out: Vec<String> = Vec::new();
    let mut i: usize = 0;
    assert(texts(names@).take(0) =~= Seq::<Text>::empty());
    assert(texts(out@) =~= Seq::<Text>::empty());
    while i < names.len()
        invariant
            i <= names.len(),
            texts(always@) == excluded_symbols(),
            texts(user@) == listed(exclude.symbols),
            texts(out@) == kept_symbols(ns@, texts(names@).take(i as int), listed(exclude.symbols)),
        decreases names.len() - i,
    {
        let ghost upto = texts(names@).take(i + 1);
        assert(upto.drop_last() =~= texts(names@).take(i as int));
        assert(upto.last() == names@[i as int]@);
        let mut symbol = String::from_str(ns);
        symbol.append("/");
        symbol.append(names[i].as_str());
        if !contains_text(&always, symbol.as_str()) && !contains_text(&user, symbol.as_str()) {
            let ghost before = out@;
            out.push(symbol);
            assert(texts(out@) =~= texts(before).push(qualified(ns@, names@[i as int]@)));
        }
        i = i + 1;
    }
    assert(texts(names@).take(i as int) =~= texts(names@));
    out
}

/// The catalog of the listed namespaces: for each listing in turn, the
/// symbols of its namespace that are resolved.
pub fn catalog_symbols(listings: &Vec<Listing>, exclude: &ExcludeConfig) -> (r: Vec<String>)
    ensures
        texts(r@) == listed_symbols(listing_models(listings@), listed(exclude.symbols)),
{
    let ghost all = listing_models(listings@);
    let ghost user = listed(exclude.symbols);
    let mut out: Vec<String> = Vec::new();
    let mut i: usize = 0;
    assert(texts(out@) =~= Seq::<Text>::empty());
    assert(all.take(0) =~= Seq::<(Text, Seq<Text>)>::empty());
    while i < listings.len()
        invariant
            i <= listings.len(),
            all == listing_models(listings@),
            user == listed(exclude.symbols),
            texts(out@) == listed_symbols(all.take(i as int), user),
        decreases listings.len() - i,
    {
        let ghost upto = all.take(i + 1);
        assert(upto.drop_last() =~= all.take(i as int));
        assert(upto.last() == listing_model(listings@[i as int]));
        let entry = &listings[i];
        append_texts(&mut out, namespace_symbols(entry.namespace.as_str(), &entry.names, exclude));
        i = i + 1;
    }
    assert(all.take(i as int) =~= all);
    out
}

/// The catalog that was kept from an earlier run, if it can be used: a list
/// that is not empty is taken as it is.
pub fn kept_catalog(persisted: Option<Vec<String>>) -> (r: Option<Vec<String>>)
    ensures
        r == match persisted {
            Some(list) => if list@.len() > 0 {
                Some(list)
            } else {
                None
            },
            None => None,
        },
{
    match persisted {
        Some(list) => if list.len() > 0 {
            Some(list)
        } else {
            None
        },
        None => None,
    }
}

/// Marking more names as left out leaves no more names, and no other
/// names.
pub proof fn lemma_kept_by_fewer(names: Seq<Text>, more: Seq<bool>, fewer: Seq<bool>)
    requires
        more.len() == names.len(),
        fewer.len() == names.len(),
        forall|i: int| 0 <= i < names.len() ==> (fewer[i] ==> more[i]),
    ensures
        kept_by(names, more).len() <= kept_by(names, fewer).len() <= names.len(),
        forall|t: Text| #[trigger]
            kept_by(names, more).contains(t) ==> kept_by(names, fewer).contains(t)
                && names.contains(t),
    decreases names.len(),
{
    if names.len() > 0 {
        let front = names.drop_last();
        lemma_kept_by_fewer(front, more.drop_last(), fewer.drop_last());
        let a = kept_by(names, more);
        let a_front = kept_by(front, more.drop_last());
        let b = kept_by(names, fewer);
        let b_front = kept_by(front, fewer.drop_last());
        assert forall|t: Text| #[trigger] a.contains(t) implies b.contains(t) && names.contains(
            t,
        ) by {
            let p = choose|p: int| 0 <= p < a.len() && a[p] == t;
            if p < a_front.len() {
                assert(a_front[p] == t);
                assert(a_front.contains(t));
                let k = choose|k: int| 0 <= k < front.len() && front[k] == t;
                assert(names[k] == t);
                let q = choose|q: int| 0 <= q < b_front.len() && b_front[q] == t;
                assert(b[q] == t);
            } else {
                assert(t == names.last());
                assert(names[names.len() - 1] == t);
                assert(b[b_front.len() as int] == t);
            }
        }
    }
}

/// Excluding never adds to the catalog: the namespaces that are loaded are
/// among those listed and no more than them, whatever the user excludes, and
/// what the user excludes takes away from what would be loaded without it.
pub proof fn lemma_namespaces_reduced(namespaces: Seq<Text>, user: Seq<Text>)
    ensures
        kept_namespaces(namespaces, user).len() <= kept_namespaces(
            namespaces,
            Seq::empty(),
        ).len() <= namespaces.len(),
        forall|t: Text| #[trigger]
            kept_namespaces(namespaces, user).contains(t) ==> namespaces.contains(t)
                && kept_namespaces(namespaces, Seq::empty()).contains(t),
{
    lemma_kept_by_fewer(
        namespaces,
        exclusions(namespaces, user),
        exclusions(namespaces, Seq::empty()),
    );
}

/// Patterns of the user that match none of the namespaces change nothing:
/// the namespaces that are loaded are those that are loaded without them.
pub proof fn lemma_unmatched_patterns(namespaces: Seq<Text>, user: Seq<Text>)
    requires
        forall|i: int| 0 <= i < namespaces.len() ==> !user_matches(user, #[trigger] namespaces[i]),
    ensures
        kept_namespaces(namespaces, user) == kept_namespaces(namespaces, Seq::empty()),
{
    assert(exclusions(namespaces, user) =~= exclusions(namespaces, Seq::empty()));
}

/// Excluding never adds to the catalog: the symbols of a namespace that are
/// resolved are no more than the namespace has, whatever the user excludes,
/// and none of them is one that the user excludes.
pub proof fn lemma_symbols_reduced(ns: Text, names: Seq<Text>, user: Seq<Text>)
    ensures
        kept_symbols(ns, names, user).len() <= kept_symbols(ns, names, Seq::empty()).len()
            <= names.len(),
        forall|t: Text| #[trigger]
            kept_symbols(ns, names, user).contains(t) ==> !user.contains(t)
                && !excluded_symbols().contains(t),
    decreases names.len(),
{
    if names.len() > 0 {
        let front = names.drop_last();
        lemma_symbols_reduced(ns, front, user);
        let kept = kept_symbols(ns, names, user);
        let kept_front = kept_symbols(ns, front, user);
        assert forall|t: Text| #[trigger] kept.contains(t) implies !user.contains(t)
            && !excluded_symbols().contains(t) by {
            let p = choose|p: int| 0 <= p < kept.len() && kept[p] == t;
            if p < kept_front.len() {
                assert(kept_front[p] == t);
                assert(kept_front.contains(t));
            }
        }
    }
}

/// Leaving entries out shortens: what is embedded is no longer.
pub proof fn lemma_embeds_shorter(a: Seq<Text>, b: Seq<Text>)
    requires
        embeds(a, b),
    ensures
        a.len() <= b.len(),
    decreases b.len(),
{
    if a.len() > 0 {
        if a.last() == b.last() && embeds(a.drop_last(), b.drop_last()) {
            lemma_embeds_shorter(a.drop_last(), b.drop_last());
        } else {
            lemma_embeds_shorter(a, b.drop_last());
        }
    }
}

/// What is embedded in a list is embedded in the list with more behind it.
pub proof fn lemma_embeds_longer(a: Seq<Text>, b: Seq<Text>, more: Seq<Text>)
    requires
        embeds(a, b),
    ensures
        embeds(a, b + more),
    decreases more.len(),
{
    if more.len() == 0 {
        assert(b + more =~= b);
    } else {
        lemma_embeds_longer(a, b, more.drop_last());
        assert((b + more).drop_last() =~= b + more.drop_last());
    }
}

/// Two embedded lists, one behind the other, are embedded in the two lists
/// that hold them, one behind the other.
pub proof fn lemma_embeds_joined(a: Seq<Text>, b: Seq<Text>, c: Seq<Text>, d: Seq<Text>)
    requires
        embeds(a, b),
        embeds(c, d),
    ensures
        embeds(a + c, b + d),
    decreases d.len(),
{
    if c.len() == 0 {
        assert(a + c =~= a);
        lemma_embeds_longer(a, b, d);
    } else {
        assert((b + d).drop_last() =~= b + d.drop_last());
        assert((a + c).drop_last() =~= a + c.drop_last());
        assert((a + c).last() == c.last());
        assert((b + d).last() == d.last());
        if c.last() == d.last() && embeds(c.drop_last(), d.drop_last()) {
            lemma_embeds_joined(a, b, c.drop_last(), d.drop_last());
        } else {
            lemma_embeds_joined(a, b, c, d.drop_last());
        }
    }
}

/// The symbols of a namespace that are resolved are, in their order, among
/// those that are resolved where the user excludes no symbol.
pub proof fn lemma_symbols_embedded(ns: Text, names: Seq<Text>, user: Seq<Text>)
    ensures
        embeds(kept_symbols(ns, names, user), kept_symbols(ns, names, Seq::empty())),
    decreases names.len(),
{
    if names.len() > 0 {
        let front = names.drop_last();
        let symbol = qualified(ns, names.last());
        lemma_symbols_embedded(ns, front, user);
        let with_user = kept_symbols(ns, front, user);
        let without = kept_symbols(ns, front, Seq::empty());
        assert(!Seq::<Text>::empty().contains(symbol));
        if symbol_kept(symbol, Seq::empty()) {
            assert(without.push(symbol).drop_last() =~= without);
            if symbol_kept(symbol, user) {
                assert(with_user.push(symbol).drop_last() =~= with_user);
            }
        }
    }
}

/// Excluding takes entries out of the catalog and changes nothing else:
/// whatever namespaces and symbols the user excludes, the catalog is the
/// catalog of a user who excludes nothing with some of its symbols left
/// out, the others in their order, and so it is no longer.
pub proof fn lemma_catalog_reduced(
    namespaces: Seq<Text>,
    names_of: spec_fn(Text) -> Seq<Text>,
    user_namespaces: Seq<Text>,
    user_symbols: Seq<Text>,
)
    ensures
        embeds(
            catalog(namespaces, names_of, user_namespaces, user_symbols),
            catalog(namespaces, names_of, Seq::empty(), Seq::empty()),
        ),
        catalog(namespaces, names_of, user_namespaces, user_symbols).len() <= catalog(
            namespaces,
            names_of,
            Seq::empty(),
            Seq::empty(),
        ).len(),
    decreases namespaces.len(),
{
    let none = Seq::<Text>::empty();
    let entry_of = |n: Text| (n, names_of(n));
    if namespaces.len() > 0 {
        let front = namespaces.drop_last();
        let ns = namespaces.last();
        lemma_catalog_reduced(front, names_of, user_namespaces, user_symbols);
        lemma_symbols_embedded(ns, names_of(ns), user_symbols);
        assert(exclusions(namespaces, user_namespaces).drop_last() =~= exclusions(
            front,
            user_namespaces,
        ));
        assert(exclusions(namespaces, none).drop_last() =~= exclusions(front, none));
        let with_user = kept_namespaces(front, user_namespaces);
        let without = kept_namespaces(front, none);
        assert(!user_matches(none, ns));
        if namespace_kept(ns, none) {
            assert(without.push(ns).map_values(entry_of).drop_last() =~= without.map_values(
                entry_of,
            ));
            if namespace_kept(ns, user_namespaces) {
                assert(with_user.push(ns).map_values(entry_of).drop_last()
                    =~= with_user.map_values(entry_of));
                lemma_embeds_joined(
                    catalog(front, names_of, user_namespaces, user_symbols),
                    catalog(front, names_of, none, none),
                    kept_symbols(ns, names_of(ns), user_symbols),
                    kept_symbols(ns, names_of(ns), none),
                );
            } else {
                lemma_embeds_longer(
                    catalog(front, names_of, user_namespaces, user_symbols),
                    catalog(front, names_of, none, none),
                    kept_symbols(ns, names_of(ns), none),
                );
            }
        }
    }
    lemma_embeds_shorter(
        catalog(namespaces, names_of, user_namespaces, user_symbols),
        catalog(namespaces, names_of, none, none),
    );
}

} // verus!
