//! A pass over the catalog: resolving symbol after symbol in catalog
//! order, and folding the types they give into one table by name.

use vstd::prelude::*;
use crate::cache::Cache;
use crate::common::{merge_element, merge_elements};
use crate::config::ExcludeConfig;
use crate::map::{first_index, lemma_first_index, TextMap};
use crate::reader::{diagnostics, Diagnostic, DiagnosticModel, Halt, HaltModel};
use crate::schema::{opt_text, Element, ElementModel};
use crate::symbol::{symbol_read, symbol_spec};
use crate::text::{texts, Text};

verus! {

/// The type that one symbol gave.
#[derive(Clone, Debug, PartialEq, Eq)]
pub struct ReadSchemaResponse {
    pub symbol: String,
    pub name: String,
    pub element: Element,
}

/// What a [`ReadSchemaResponse`] stands for.
pub struct ResponseModel {
    pub symbol: Text,
    pub name: Text,
    pub element: ElementModel,
}

impl View for ReadSchemaResponse {
    type V = ResponseModel;

    open spec fn view(&self) -> ResponseModel {
        ResponseModel { symbol: self.symbol@, name: self.name@, element: self.element@ }
    }
}

/// What a list of responses stands for.
pub open spec fn responses(v: Seq<ReadSchemaResponse>) -> Seq<ResponseModel> {
    Seq::new(v.len(), |i: int| v[i]@)
}

/// How far a pass over the symbols came.
#[derive(Debug)]
pub struct ReadProgress {
    /// The types of the symbols that were dealt with, in catalog order.
    pub responses: Vec<ReadSchemaResponse>,
    /// The shapes that were resolved to the opaque field.
    pub diagnostics: Vec<Diagnostic>,
    /// The index of the first symbol that was not dealt with.
    pub next: usize,
    /// What the cache lacks for the symbol at `next`, where the pass
    /// stopped before the end.
    pub halt: Option<Halt>,
}

/// What a [`ReadProgress`] stands for.
pub struct ProgressModel {
    pub responses: Seq<ResponseModel>,
    pub diagnostics: Seq<DiagnosticModel>,
    pub next: int,
    pub halt: Option<HaltModel>,
}

impl View for ReadProgress {
    type V = ProgressModel;

    open spec fn view(&self) -> ProgressModel {
        ProgressModel {
            responses: responses(self.responses@),
            diagnostics: diagnostics(self.diagnostics@),
            next: self.next as int,
            halt: match self.halt {
                Some(h) => Some(h@),
                None => None,
            },
        }
    }
}

/// How far a pass comes that starts at the symbol `from` and has `n`
/// symbols in view. Symbols are dealt with in order. A symbol that gives a
/// type adds a response; one that gives none, or whose definition is
/// malformed, is passed over. The pass stops at the first symbol for which
/// the cache lacks something, and says what.
pub open spec fn read_upto(
    cache: Cache,
    symbols: Seq<Text>,
    from: int,
    n: int,
    include_profile: Option<Text>,
    exclude: ExcludeConfig,
) -> ProgressModel
    decreases n - from,
{
    if n <= from {
        ProgressModel { responses: Seq::empty(), diagnostics: Seq::empty(), next: from, halt: None }
    } else {
        let prev = read_upto(cache, symbols, from, n - 1, include_profile, exclude);
        if prev.halt is Some {
            prev
        } else {
            match symbol_spec(cache, symbols[n - 1], include_profile, exclude) {
                Ok((Some((name, e)), found)) => ProgressModel {
                    responses: prev.responses.push(
                        ResponseModel { symbol: symbols[n - 1], name, element: e },
                    ),
                    diagnostics: prev.diagnostics + found,
                    next: n,
                    halt: None,
                },
                Ok((None, found)) => ProgressModel {
                    responses: prev.responses,
                    diagnostics: prev.diagnostics + found,
                    next: n,
                    halt: None,
                },
                Err(HaltModel::Malformed(_)) => ProgressModel {
                    responses: prev.responses,
                    diagnostics: prev.diagnostics,
                    next: n,
                    halt: None,
                },
                Err(h) => ProgressModel {
                    responses: prev.responses,
                    diagnostics: prev.diagnostics,
                    next: n - 1,
                    halt: Some(h),
                },
            }
        }
    }
}

/// A pass that has stopped stays where it stopped.
pub proof fn lemma_read_stopped(
    cache: Cache,
    symbols: Seq<Text>,
    from: int,
    n: int,
    m: int,
    include_profile: Option<Text>,
    exclude: ExcludeConfig,
)
    requires
        from <= n <= m,
        read_upto(cache, symbols, from, n, include_profile, exclude).halt is Some,
    ensures
        read_upto(cache, symbols, from, m, include_profile, exclude) == read_upto(
            cache,
            symbols,
            from,
            n,
            include_profile,
            exclude,
        ),
    decreases m - n,
{
    if n < m {
        lemma_read_stopped(cache, symbols, from, n, m - 1, include_profile, exclude);
    }
}

/// Resolves the symbols from index `from` on, in order, from what the
/// cache holds. Where the pass stops before the end, `halt` says what the
/// cache lacks for the symbol at `next`: with that in the cache the pass
/// goes on from `next`, and without it from the symbol after.
pub fn read_schema(
    symbols: &Vec<String>,
    from: usize,
    cache: &Cache,
    include_profile: &Option<String>,
    exclude: &ExcludeConfig,
) -> (r: ReadProgress)
    requires
        from <= symbols.len(),
    ensures
        r@ == read_upto(
            *cache,
            texts(symbols@),
            from as int,
            symbols.len() as int,
            opt_text(*include_profile),
            *exclude,
        ),
        from <= r.next <= symbols.len(),
        r.halt is None ==> r.next == symbols.len(),
        r.halt is Some ==> r.next < symbols.len() && !(r.halt->0 is Malformed),
{
    let mut out: Vec<ReadSchemaResponse> = Vec::new();
    let mut found: Vec<Diagnostic> = Vec::new();
    let mut i: usize = from;
    assert(responses(out@) =~= Seq::<ResponseModel>::empty());
    assert(diagnostics(found@) =~= Seq::<DiagnosticModel>::empty());
    while i < symbols.len()
        invariant
            from <= i <= symbols.len(),
            read_upto(
                *cache,
                texts(symbols@),
                from as int,
                i as int,
                opt_text(*include_profile),
                *exclude,
            ) == (ProgressModel {
                responses: responses(out@),
                diagnostics: diagnostics(found@),
                next: i as int,
                halt: None,
            }),
        decreases symbols.len() - i,
    {
        let ghost before = out@;
        let ghost found_before = found@;
        match symbol_read(cache, symbols[i].as_str(), include_profile, exclude) {
            Ok((Some(w), more)) => {
                out.push(
                    ReadSchemaResponse {
                        symbol: symbols[i].clone(),
                        name: w.name,
                        element: w.element,
                    },
                );
                let mut more = more;
                let ghost added = more@;
                found.append(&mut more);
                assert(diagnostics(found@) =~= diagnostics(found_before) + diagnostics(added));
                assert(responses(out@) =~= responses(before).push(out@.last()@));
            },
            Ok((None, more)) => {
                let mut more = more;
                let ghost added = more@;
                found.append(&mut more);
                assert(diagnostics(found@) =~= diagnostics(found_before) + diagnostics(added));
            },
            Err(Halt::Malformed(_)) => {},
            Err(h) => {
                let r = ReadProgress { responses: out, diagnostics: found, next: i, halt: Some(h) };
                proof {
                    assert(read_upto(
                        *cache,
                        texts(symbols@),
                        from as int,
                        i + 1,
                        opt_text(*include_profile),
                        *exclude,
                    ) == r@);
                    lemma_read_stopped(
                        *cache,
                        texts(symbols@),
                        from as int,
                        i + 1,
                        symbols.len() as int,
                        opt_text(*include_profile),
                        *exclude,
                    );
                }
                return r;
            },
        }
        i = i + 1;
    }
    ReadProgress { responses: out, diagnostics: found, next: i, halt: None }
}

/// Where a pass goes on after it stopped at the symbol `next` of `count`
/// symbols for want of something: at that symbol where what was lacking
/// could be fetched, and at the symbol after it where it could not, so
/// that the symbol is passed over.
pub fn resume_from(next: usize, count: usize, fetched: bool) -> (r: usize)
    requires
        next < count,
    ensures
        fetched ==> r == next,
        !fetched ==> r == next + 1,
        next <= r <= count,
{
    if fetched {
        next
    } else {
        next + 1
    }
}

/// The primitive that the responses give for the type `name`: the scalar
/// alias of the first response of that name that is a scalar alias.
pub open spec fn first_primitive(rs: Seq<ResponseModel>, name: Text) -> Option<Text>
    decreases rs.len(),
{
    if rs.len() == 0 {
        None
    } else {
        match first_primitive(rs.drop_last(), name) {
            Some(p) => Some(p),
            None => if rs.last().name == name {
                rs.last().element.plain
            } else {
                None
            },
        }
    }
}

/// Notes the primitives that a pass gave: for every response that is a
/// scalar alias, the primitive it is an alias of, under the name of its
/// type. A primitive that is noted for a type stays.
pub fn note_primitives(cache: &mut Cache, types: &Vec<ReadSchemaResponse>)
    ensures
        final(cache).schema == old(cache).schema,
        final(cache).confirms == old(cache).confirms,
        final(cache).value_sets == old(cache).value_sets,
        forall|k: Text|
            opt_text(#[trigger] final(cache).primitives.lookup(k)) == match old(
                cache,
            ).primitives.lookup(k) {
                Some(kept) => Some(kept@),
                None => first_primitive(responses(types@), k),
            },
{
    let mut i: usize = 0;
    assert(responses(types@).take(0) =~= Seq::<ResponseModel>::empty());
    while i < types.len()
        invariant
            i <= types.len(),
            cache.schema == old(cache).schema,
            cache.confirms == old(cache).confirms,
            cache.value_sets == old(cache).value_sets,
            forall|k: Text|
                opt_text(#[trigger] cache.primitives.lookup(k)) == match old(
                    cache,
                ).primitives.lookup(k) {
                    Some(kept) => Some(kept@),
                    None => first_primitive(responses(types@).take(i as int), k),
                },
        decreases types.len() - i,
    {
        let ghost upto = responses(types@).take(i + 1);
        let ghost mid = *cache;
        assert(upto.drop_last() =~= responses(types@).take(i as int));
        assert(upto.last() == types@[i as int]@);
        match &types[i].element.plain {
            Some(primitive) => {
                cache.put_primitive(types[i].name.clone(), primitive.clone());
            },
            None => {},
        }
        proof {
            assert forall|k: Text|
                opt_text(#[trigger] cache.primitives.lookup(k)) == match old(
                    cache,
                ).primitives.lookup(k) {
                    Some(kept) => Some(kept@),
                    None => first_primitive(upto, k),
                } by {
                assert(opt_text(mid.primitives.lookup(k)) == match old(cache).primitives.lookup(
                    k,
                ) {
                    Some(kept) => Some(kept@),
                    None => first_primitive(upto.drop_last(), k),
                });
            }
        }
        i = i + 1;
    }
    assert(responses(types@).take(i as int) =~= responses(types@));
}

/// What a table of types stands for: its entries in order.
pub open spec fn table_model(t: TextMap<Element>) -> Seq<(Text, ElementModel)> {
    Seq::new(t.entries@.len(), |i: int| (t.entries@[i].0@, t.entries@[i].1@))
}

/// The names of a table, in order.
pub open spec fn table_names(t: Seq<(Text, ElementModel)>) -> Seq<Text> {
    Seq::new(t.len(), |i: int| t[i].0)
}

/// The table with one more type: merged onto the type that has the name
/// already, or at the end where the name is new.
pub open spec fn table_add(t: Seq<(Text, ElementModel)>, name: Text, e: ElementModel) -> Seq<
    (Text, ElementModel),
> {
    match first_index(table_names(t), name) {
        Some(i) => t.update(i, (name, merge_element(t[i].1, e))),
        None => t.push((name, e)),
    }
}

/// The table with the types of the responses added one after another.
pub open spec fn table_fold(t: Seq<(Text, ElementModel)>, rs: Seq<ResponseModel>) -> Seq<
    (Text, ElementModel),
>
    decreases rs.len(),
{
    if rs.len() == 0 {
        t
    } else {
        table_add(table_fold(t, rs.drop_last()), rs.last().name, rs.last().element)
    }
}

/// Two symbols that give types of one name give one entry of the table:
/// the merge of the two types, the second as the later.
pub proof fn lemma_one_name_one_entry(first: ResponseModel, second: ResponseModel)
    requires
        first.name == second.name,
    ensures
        table_fold(Seq::empty(), seq![first, second]) == seq![
            (first.name, merge_element(first.element, second.element)),
        ],
{
    let both = seq![first, second];
    let one = both.drop_last();
    assert(one =~= seq![first]);
    assert(one.drop_last() =~= Seq::<ResponseModel>::empty());
    let empty = Seq::<(Text, ElementModel)>::empty();
    assert(table_names(empty) =~= Seq::<Text>::empty());
    assert(one.last() == first);
    assert(table_fold(empty, one.drop_last()) == empty);
    assert(first_index(table_names(empty), first.name) is None);
    assert(table_add(empty, first.name, first.element) =~= seq![(first.name, first.element)]);
    let t1 = table_fold(empty, one);
    assert(t1 =~= seq![(first.name, first.element)]);
    assert(table_names(t1) =~= seq![first.name]);
    crate::map::lemma_is_first(table_names(t1), second.name, 0);
    assert(table_fold(empty, both) =~= seq![
        (first.name, merge_element(first.element, second.element)),
    ]);
}

/// The type that a resolution gave, if it gave one.
pub open spec fn type_given(r: crate::symbol::TypeResult) -> Option<(Text, ElementModel)> {
    match r {
        Ok((t, found)) => t,
        Err(_) => None,
    }
}

/// The name of the type that a resolution gave, if it gave one.
pub open spec fn name_given(r: crate::symbol::TypeResult) -> Option<Text> {
    match type_given(r) {
        Some(t) => Some(t.0),
        None => None,
    }
}

/// Two symbols that give types of one name give one type: where each of
/// two symbols gives a type and the two types have one name, a pass over
/// the two symbols comes to its end with their two types, and the table
/// made of the pass has the one entry of that name, which holds the merge
/// of the two types, the second as the later.
pub proof fn lemma_two_symbols_one_type(
    cache: Cache,
    first: Text,
    second: Text,
    include_profile: Option<Text>,
    exclude: ExcludeConfig,
)
    requires
        name_given(symbol_spec(cache, first, include_profile, exclude)) is Some,
        name_given(symbol_spec(cache, first, include_profile, exclude)) == name_given(
            symbol_spec(cache, second, include_profile, exclude),
        ),
    ensures
        ({
            let a = type_given(symbol_spec(cache, first, include_profile, exclude))->0;
            let b = type_given(symbol_spec(cache, second, include_profile, exclude))->0;
            let pass = read_upto(cache, seq![first, second], 0, 2, include_profile, exclude);
            &&& pass.halt is None
            &&& pass.next == 2
            &&& pass.responses == seq![
                ResponseModel { symbol: first, name: a.0, element: a.1 },
                ResponseModel { symbol: second, name: b.0, element: b.1 },
            ]
            &&& table_fold(Seq::empty(), pass.responses) == seq![
                (a.0, merge_element(a.1, b.1)),
            ]
        }),
{
    let symbols = seq![first, second];
    let a = type_given(symbol_spec(cache, first, include_profile, exclude))->0;
    let b = type_given(symbol_spec(cache, second, include_profile, exclude))->0;
    let p0 = read_upto(cache, symbols, 0, 0, include_profile, exclude);
    let p1 = read_upto(cache, symbols, 0, 1, include_profile, exclude);
    let p2 = read_upto(cache, symbols, 0, 2, include_profile, exclude);
    assert(symbols[0] == first && symbols[1] == second);
    assert(p0.halt is None);
    let r1 = ResponseModel { symbol: first, name: a.0, element: a.1 };
    let r2 = ResponseModel { symbol: second, name: b.0, element: b.1 };
    assert(p1.halt is None && p1.responses =~= seq![r1]);
    assert(p2.responses =~= seq![r1, r2]);
    lemma_one_name_one_entry(r1, r2);
}

/// Puts a type into the table under its name. A type that is already
/// there under that name is merged with it, the new one as the later.
pub fn add_type(table: &mut TextMap<Element>, name: String, element: Element)
    ensures
        table_model(*final(table)) == table_add(table_model(*old(table)), name@, element@),
        old(table).wf() ==> final(table).wf(),
{
    let ghost before = *table;
    proof {
        assert(table_names(table_model(before)) =~= before.keys());
        lemma_first_index(before.keys(), name@);
    }
    match table.position(name.as_str()) {
        Some(i) => {
            let merged = merge_elements(&table.entries[i].1, &element);
            table.entries.set(i, (name, merged));
        },
        None => {
            table.entries.push((name, element));
        },
    }
    assert(table_model(*table) =~= table_add(table_model(before), name@, element@));
    proof {
        match first_index(before.keys(), name@) {
            Some(i) => {
                assert(table.keys() =~= before.keys());
            },
            None => {
                assert(table.keys() =~= before.keys().push(name@));
            },
        }
    }
}

/// Folds the types that a pass gave into a table, in the order in which
/// they came.
pub fn generate(table: &mut TextMap<Element>, types: Vec<ReadSchemaResponse>)
    ensures
        table_model(*final(table)) == table_fold(table_model(*old(table)), responses(types@)),
        old(table).wf() ==> final(table).wf(),
{
    let mut i: usize = 0;
    assert(responses(types@).take(0) =~= Seq::<ResponseModel>::empty());
    while i < types.len()
        invariant
            i <= types.len(),
            old(table).wf() ==> table.wf(),
            table_model(*table) == table_fold(
                table_model(*old(table)),
                responses(types@).take(i as int),
            ),
        decreases types.len() - i,
    {
        let ghost upto = responses(types@).take(i + 1);
        assert(upto.drop_last() =~= responses(types@).take(i as int));
        assert(upto.last() == types@[i as int]@);
        let name = types[i].name.clone();
        let element = types[i].element.duplicate();
        add_type(table, name, element);
        i = i + 1;
    }
    assert(responses(types@).take(i as int) =~= responses(types@));
}

} // verus!
