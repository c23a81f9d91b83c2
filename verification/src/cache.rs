//! What one resolution pass has learned from the registry so far: raw
//! definitions, value-sets, output names and primitives, each under the
//! symbol or name it belongs to.

use vstd::prelude::*;
use vstd::string::StringExecFns;
use crate::helpers::{get_name, name_of};
use crate::map::{first_index, kept_or_added, TextMap};
use crate::text::{texts, Text};
use crate::value::Value;

verus! {

/// The memory of a resolution pass. Nothing is ever taken out of it, and a
/// symbol that has an entry keeps the entry it has.
#[derive(Debug)]
pub struct Cache {
    /// Output name of a primitive type, by type name.
    pub primitives: TextMap<String>,
    /// Output name of a symbol that types inherit from, by symbol.
    pub confirms: TextMap<String>,
    /// Codes of a value-set, by symbol.
    pub value_sets: TextMap<Vec<String>>,
    /// Raw definition, by symbol.
    pub schema: TextMap<Value>,
}

/// Whether a definition is a polymorphic capability rather than a type.
pub open spec fn is_polymorphic(definition: Value) -> bool {
    definition.member("fhir/polymorphic"@) is Some
}

/// What is known of the output name of a symbol.
pub enum Naming {
    /// The symbol names a type, under this name.
    Named(Text),
    /// The symbol is a polymorphic capability, which is no type and has no
    /// name.
    Unnamed,
    /// The definition of the symbol has no readable name.
    Unreadable,
    /// The cache has neither a name nor a definition for the symbol.
    Unknown,
}

/// What a definition says of the output name of its symbol.
pub open spec fn definition_naming(definition: Value) -> Naming {
    if is_polymorphic(definition) {
        Naming::Unnamed
    } else {
        match name_of(definition) {
            Some(n) => Naming::Named(n),
            None => Naming::Unreadable,
        }
    }
}

/// What noted names and definitions together say of the output name of
/// `symbol`: the name noted for it, else what its definition says.
pub open spec fn naming_in(confirms: TextMap<String>, schema: TextMap<Value>, symbol: Text)
    -> Naming {
    match confirms.lookup(symbol) {
        Some(n) => Naming::Named(n@),
        None => match schema.lookup(symbol) {
            None => Naming::Unknown,
            Some(definition) => definition_naming(definition),
        },
    }
}

impl Cache {
    /// A cache that knows nothing.
    pub fn new() -> (r: Self)
        ensures
            r.primitives.entries@.len() == 0,
            r.confirms.entries@.len() == 0,
            r.value_sets.entries@.len() == 0,
            r.schema.entries@.len() == 0,
    {
        Cache {
            primitives: TextMap::new(),
            confirms: TextMap::new(),
            value_sets: TextMap::new(),
            schema: TextMap::new(),
        }
    }

    /// The raw definition of `symbol`, if it is known.
    pub fn definition(&self, symbol: &str) -> (r: Option<&Value>)
        ensures
            match r {
                Some(v) => self.schema.lookup(symbol@) == Some(*v),
                None => self.schema.lookup(symbol@) is None,
            },
    {
        self.schema.get(symbol)
    }

    /// The codes of the value-set `symbol`, if they are known.
    pub fn value_set(&self, symbol: &str) -> (r: Option<&Vec<String>>)
        ensures
            match r {
                Some(v) => self.value_sets.lookup(symbol@) == Some(*v),
                None => self.value_sets.lookup(symbol@) is None,
            },
    {
        self.value_sets.get(symbol)
    }

    /// What the cache knows of the output name of `symbol`: the name noted
    /// for it, else what its definition says.
    pub open spec fn naming(self, symbol: Text) -> Naming {
        naming_in(self.confirms, self.schema, symbol)
    }

    /// Takes in the raw definition of `symbol`. A definition that is already
    /// known stays. Nothing else changes; no name is noted before a
    /// resolution asks for it.
    pub fn put_definition(&mut self, symbol: String, definition: Value)
        ensures
            final(self).schema.entries@ == kept_or_added(old(self).schema, symbol, definition),
            final(self).schema.lookup(symbol@) == match old(self).schema.lookup(symbol@) {
                Some(kept) => Some(kept),
                None => Some(definition),
            },
            forall|k: Text| k != symbol@ ==> final(self).schema.lookup(k) == old(
                self,
            ).schema.lookup(k),
            final(self).value_sets == old(self).value_sets,
            final(self).primitives == old(self).primitives,
            final(self).confirms == old(self).confirms,
    {
        self.schema.insert_if_absent(symbol, definition);
    }

    /// Whether the cache can note a name for `symbol`: none is noted, and
    /// the definition of the symbol is known and names a type.
    pub open spec fn can_note(self, symbol: Text) -> bool {
        &&& self.confirms.lookup(symbol) is None
        &&& self.schema.lookup(symbol) matches Some(d)
        &&& definition_naming(d) is Named
    }

    /// What noting the names of `symbols` makes of a cache: definitions,
    /// value-sets and primitives are as before; a name is noted for what
    /// had one and for every one of the symbols that the cache can note;
    /// noted names stay; and every symbol is named as before.
    pub open spec fn noted(self, after: Cache, symbols: Seq<Text>) -> bool {
        &&& after.schema == self.schema
        &&& after.value_sets == self.value_sets
        &&& after.primitives == self.primitives
        &&& forall|k: Text|
            (#[trigger] after.confirms.lookup(k)) is Some <==> (self.confirms.lookup(k) is Some
                || (symbols.contains(k) && self.can_note(k)))
        &&& forall|k: Text|
            self.confirms.lookup(k) is Some ==> #[trigger] after.confirms.lookup(k)
                == self.confirms.lookup(k)
        &&& forall|k: Text| #[trigger] after.naming(k) == self.naming(k)
    }

    /// Notes the output name of `symbol`, where none is noted and the
    /// definition of the symbol is known and names a type.
    pub fn note_name(&mut self, symbol: &str)
        ensures
            old(self).noted(*final(self), seq![symbol@]),
    {
        let ghost before = *self;
        proof {
            before.schema.lemma_lookup(symbol@);
        }
        if self.confirms.contains_key(symbol) {
            assert(seq![symbol@][0] == symbol@);
            return ;
        }
        let name = match self.schema.get(symbol) {
            Some(definition) => if definition.has("fhir/polymorphic") {
                None
            } else {
                get_name(definition)
            },
            None => None,
        };
        match name {
            Some(n) => {
                self.confirms.insert_if_absent(String::from_str(symbol), n);
                assert(seq![symbol@][0] == symbol@);
            },
            None => {},
        }
    }

    /// Notes the output names of `symbols`, each where none is noted and
    /// the definition of the symbol is known and names a type.
    pub fn note_names(&mut self, symbols: &Vec<String>)
        ensures
            old(self).noted(*final(self), texts(symbols@)),
    {
        let ghost before = *self;
        let mut i: usize = 0;
        assert(texts(symbols@).take(0) =~= Seq::<Text>::empty());
        while i < symbols.len()
            invariant
                i <= symbols.len(),
                before.noted(*self, texts(symbols@).take(i as int)),
            decreases symbols.len() - i,
        {
            let ghost mid = *self;
            let ghost upto = texts(symbols@).take(i + 1);
            let ghost sofar = texts(symbols@).take(i as int);
            self.note_name(symbols[i].as_str());
            proof {
                let s = symbols@[i as int]@;
                assert(upto =~= sofar.push(s));
                assert(seq![s][0] == s);
                assert(seq![s].contains(s));
                assert forall|k: Text|
                    (#[trigger] self.confirms.lookup(k)) is Some <==> (before.confirms.lookup(k)
                        is Some || (upto.contains(k) && before.can_note(k))) by {
                    assert(mid.naming(k) == before.naming(k));
                    if upto.contains(k) {
                        let j = choose|j: int| 0 <= j < upto.len() && upto[j] == k;
                        if j < sofar.len() {
                            assert(sofar[j] == k);
                            assert(sofar.contains(k));
                        } else {
                            assert(k == s);
                        }
                    }
                    if sofar.contains(k) {
                        let j = choose|j: int| 0 <= j < sofar.len() && sofar[j] == k;
                        assert(upto[j] == k);
                    }
                    if k == s {
                        assert(upto[i as int] == s);
                    } else {
                        assert(!seq![s].contains(k));
                    }
                }
                assert forall|k: Text| #[trigger] self.naming(k) == before.naming(k) by {
                    assert(mid.naming(k) == before.naming(k));
                }
            }
            i = i + 1;
        }
        assert(texts(symbols@).take(i as int) =~= texts(symbols@));
    }

    /// Takes in the codes of the value-set `symbol`. Codes that are already
    /// known stay.
    pub fn put_value_set(&mut self, symbol: String, codes: Vec<String>)
        ensures
            final(self).value_sets.entries@ == kept_or_added(old(self).value_sets, symbol, codes),
            final(self).value_sets.lookup(symbol@) == match old(self).value_sets.lookup(symbol@) {
                Some(kept) => Some(kept),
                None => Some(codes),
            },
            forall|k: Text| k != symbol@ ==> final(self).value_sets.lookup(k) == old(
                self,
            ).value_sets.lookup(k),
            final(self).schema == old(self).schema,
            final(self).confirms == old(self).confirms,
            final(self).primitives == old(self).primitives,
    {
        self.value_sets.insert_if_absent(symbol, codes);
    }

    /// Notes the output name of a primitive type, unless one is noted for
    /// that type already.
    pub fn put_primitive(&mut self, name: String, primitive: String)
        ensures
            final(self).primitives.entries@ == kept_or_added(old(self).primitives, name, primitive),
            final(self).primitives.lookup(name@) == match old(self).primitives.lookup(name@) {
                Some(kept) => Some(kept),
                None => Some(primitive),
            },
            forall|k: Text| k != name@ ==> final(self).primitives.lookup(k) == old(
                self,
            ).primitives.lookup(k),
            final(self).schema == old(self).schema,
            final(self).confirms == old(self).confirms,
            final(self).value_sets == old(self).value_sets,
    {
        self.primitives.insert_if_absent(name, primitive);
    }

    /// A cache made of what was kept from an earlier pass: each of the four
    /// maps is as it was kept.
    pub fn restore(
        primitives: TextMap<String>,
        confirms: TextMap<String>,
        value_sets: TextMap<Vec<String>>,
        schema: TextMap<Value>,
    ) -> (r: Self)
        ensures
            r.primitives == primitives,
            r.confirms == confirms,
            r.value_sets == value_sets,
            r.schema == schema,
    {
        Cache { primitives, confirms, value_sets, schema }
    }
}

/// The size of one file of a cache.
#[derive(Clone, Debug, PartialEq, Eq)]
pub struct InstanceItemStat {
    pub path: String,
    pub size: u64,
}

/// The sizes of the files of a cache and their sum.
#[derive(Clone, Debug, PartialEq, Eq)]
pub struct CacheInstanceStat {
    pub total: u64,
    pub items: Vec<InstanceItemStat>,
}

/// The sum of the sizes.
pub open spec fn total_size(items: Seq<InstanceItemStat>) -> int
    decreases items.len(),
{
    if items.len() == 0 {
        0
    } else {
        total_size(items.drop_last()) + items.last().size
    }
}

/// The sum of sizes grows with the number of items.
pub proof fn lemma_total_size_grows(items: Seq<InstanceItemStat>, n: int)
    requires
        0 <= n <= items.len(),
    ensures
        0 <= total_size(items.take(n)) <= total_size(items),
    decreases items.len() - n,
{
    if n < items.len() {
        let next = items.take(n + 1);
        assert(next.drop_last() =~= items.take(n));
        lemma_total_size_grows(items, n + 1);
        lemma_total_size_nonnegative(items.take(n));
    } else {
        assert(items.take(n) =~= items);
        lemma_total_size_nonnegative(items);
    }
}

/// A sum of sizes is not negative.
pub proof fn lemma_total_size_nonnegative(items: Seq<InstanceItemStat>)
    ensures
        0 <= total_size(items),
    decreases items.len(),
{
    if items.len() > 0 {
        lemma_total_size_nonnegative(items.drop_last());
    }
}

/// The statistics of a cache from the sizes of its files; none where the
/// sum of the sizes is more than a `u64` holds.
pub fn instance_stat(items: Vec<InstanceItemStat>) -> (r: Option<CacheInstanceStat>)
    ensures
        match r {
            Some(stat) => stat.items == items && stat.total == total_size(items@),
            None => total_size(items@) > u64::MAX,
        },
{
    let mut total: u64 = 0;
    let mut i: usize = 0;
    assert(items@.take(0) =~= Seq::<InstanceItemStat>::empty());
    while i < items.len()
        invariant
            i <= items.len(),
            total == total_size(items@.take(i as int)),
        decreases items.len() - i,
    {
        let ghost upto = items@.take(i + 1);
        assert(upto.drop_last() =~= items@.take(i as int));
        assert(upto.last() == items@[i as int]);
        match total.checked_add(items[i].size) {
            Some(sum) => {
                total = sum;
            },
            None => {
                proof {
                    lemma_total_size_grows(items@, i + 1);
                }
                return None;
            },
        }
        i = i + 1;
    }
    assert(items@.take(i as int) =~= items@);
    Some(CacheInstanceStat { total, items })
}

} // verus!
