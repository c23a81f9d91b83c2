//! The type tree: fields, named types, and what they stand for.

use vstd::prelude::*;
use crate::map::TextMap;
use crate::text::{text_eq, texts, Text};

verus! {

/// One field of a composite type.
#[derive(Debug, PartialEq, Eq)]
pub struct ElementSchema {
    pub extends: Option<Vec<String>>,
    pub is_array: bool,
    pub is_reference: bool,
    pub require: bool,
    pub description: Option<String>,
    pub sub_type: Option<TextMap<ElementSchema>>,
    pub plain_type: Option<String>,
    pub values: Option<Vec<String>>,
}

/// One named output type.
#[derive(Clone, Debug, PartialEq, Eq)]
pub struct Element {
    pub is_rpc: bool,
    pub rpc_method: Option<String>,
    pub description: Option<String>,
    pub profile: bool,
    pub extends: Option<Vec<String>>,
    pub plain: Option<String>,
    pub schema: Option<TextMap<ElementSchema>>,
    pub values: Option<Vec<String>>,
}

/// A type together with the name it is emitted under.
#[derive(Clone, Debug, PartialEq, Eq)]
pub struct ElementWrapper {
    pub name: String,
    pub element: Element,
}

/// What an [`ElementSchema`] stands for.
#[verifier::ext_equal]
pub struct FieldModel {
    pub extends: Option<Seq<Text>>,
    pub is_array: bool,
    pub is_reference: bool,
    pub require: bool,
    pub description: Option<Text>,
    pub sub_type: Option<Seq<(Text, FieldModel)>>,
    pub plain_type: Option<Text>,
    pub values: Option<Seq<Text>>,
}

/// What a map of fields stands for: its entries in order.
pub type FieldsModel = Seq<(Text, FieldModel)>;

/// What an [`Element`] stands for.
#[verifier::ext_equal]
pub struct ElementModel {
    pub is_rpc: bool,
    pub rpc_method: Option<Text>,
    pub description: Option<Text>,
    pub profile: bool,
    pub extends: Option<Seq<Text>>,
    pub plain: Option<Text>,
    pub schema: Option<FieldsModel>,
    pub values: Option<Seq<Text>>,
}

/// The text of an optional string.
pub open spec fn opt_text(o: Option<String>) -> Option<Text> {
    match o {
        Some(s) => Some(s@),
        None => None,
    }
}

/// The texts of an optional list of strings.
pub open spec fn opt_texts(o: Option<Vec<String>>) -> Option<Seq<Text>> {
    match o {
        Some(v) => Some(texts(v@)),
        None => None,
    }
}

/// What a field stands for.
pub open spec fn field_model(e: ElementSchema) -> FieldModel
    decreases e,
{
    FieldModel {
        extends: opt_texts(e.extends),
        is_array: e.is_array,
        is_reference: e.is_reference,
        require: e.require,
        description: opt_text(e.description),
        sub_type: match e.sub_type {
            Some(m) => Some(
                Seq::new(
                    m.entries@.len(),
                    |i: int|
                        if 0 <= i < m.entries@.len() {
                            (m.entries@[i].0@, field_model(m.entries@[i].1))
                        } else {
                            arbitrary()
                        },
                ),
            ),
            None => None,
        },
        plain_type: opt_text(e.plain_type),
        values: opt_texts(e.values),
    }
}

/// What a map of fields stands for.
pub open spec fn fields_model(m: TextMap<ElementSchema>) -> FieldsModel {
    Seq::new(m.entries@.len(), |i: int| (m.entries@[i].0@, field_model(m.entries@[i].1)))
}

/// What an optional map of fields stands for.
pub open spec fn opt_fields(o: Option<TextMap<ElementSchema>>) -> Option<FieldsModel> {
    match o {
        Some(m) => Some(fields_model(m)),
        None => None,
    }
}

/// Whether a field is in order: it does not have both a scalar type and
/// nested fields, and its nested fields are in order.
pub open spec fn field_wf(f: FieldModel) -> bool
    decreases f,
{
    &&& !(f.sub_type is Some && f.plain_type is Some)
    &&& match f.sub_type {
        Some(m) => fields_wf(m),
        None => true,
    }
}

/// Whether a map of fields is in order: no key occurs twice, and every
/// field is in order.
pub open spec fn fields_wf(m: FieldsModel) -> bool
    decreases m,
{
    &&& crate::map::distinct(model_keys(m))
    &&& forall|i: int| 0 <= i < m.len() ==> field_wf(#[trigger] m[i].1)
}

/// Whether no map of fields, nested however deep, has a key twice.
pub open spec fn keys_distinct(m: FieldsModel) -> bool
    decreases m,
{
    &&& crate::map::distinct(model_keys(m))
    &&& forall|i: int|
        0 <= i < m.len() ==> match (#[trigger] m[i]).1.sub_type {
            Some(s) => keys_distinct(s),
            None => true,
        }
}

/// Fields that are in order have no key twice.
pub proof fn lemma_wf_keys_distinct(m: FieldsModel)
    requires
        fields_wf(m),
    ensures
        keys_distinct(m),
    decreases m,
{
    assert forall|i: int| 0 <= i < m.len() implies match (#[trigger] m[i]).1.sub_type {
        Some(s) => keys_distinct(s),
        None => true,
    } by {
        assert(field_wf(m[i].1));
        match m[i].1.sub_type {
            Some(s) => {
                lemma_wf_keys_distinct(s);
            },
            None => {},
        }
    }
}

/// Whether a type is in order: it is a remote call with its method, a
/// scalar alias, an enumeration or a map of fields, and not two of them;
/// and its fields are in order.
pub open spec fn element_wf(e: ElementModel) -> bool {
    &&& e.is_rpc ==> e.rpc_method is Some && e.plain is None && e.values is None
    &&& e.plain is Some ==> e.schema is None && e.values is None
    &&& e.values is Some ==> e.schema is None
    &&& element_fields_wf(e)
}

/// Whether the fields of a type are in order, where it has fields.
pub open spec fn element_fields_wf(e: ElementModel) -> bool {
    match e.schema {
        Some(m) => fields_wf(m),
        None => true,
    }
}

/// The keys of a model of fields, in order.
pub open spec fn model_keys(m: FieldsModel) -> Seq<Text> {
    Seq::new(m.len(), |i: int| m[i].0)
}

impl View for ElementSchema {
    type V = FieldModel;

    open spec fn view(&self) -> FieldModel {
        field_model(*self)
    }
}

impl View for Element {
    type V = ElementModel;

    open spec fn view(&self) -> ElementModel {
        ElementModel {
            is_rpc: self.is_rpc,
            rpc_method: opt_text(self.rpc_method),
            description: opt_text(self.description),
            profile: self.profile,
            extends: opt_texts(self.extends),
            plain: opt_text(self.plain),
            schema: opt_fields(self.schema),
            values: opt_texts(self.values),
        }
    }
}

/// The nested fields of a field are the model of its map.
pub proof fn lemma_sub_type_model(e: ElementSchema)
    ensures
        e@.sub_type == opt_fields(e.sub_type),
        e@.extends == opt_texts(e.extends),
        e@.values == opt_texts(e.values),
        e@.description == opt_text(e.description),
        e@.plain_type == opt_text(e.plain_type),
        e@.is_array == e.is_array,
        e@.is_reference == e.is_reference,
        e@.require == e.require,
{
    match e.sub_type {
        Some(m) => {
            assert(e@.sub_type->0 =~= fields_model(m));
        },
        None => {},
    }
}

/// The keys of a map's model are the map's keys.
pub proof fn lemma_model_keys(m: TextMap<ElementSchema>)
    ensures
        model_keys(fields_model(m)) == m.keys(),
{
    assert(model_keys(fields_model(m)) =~= m.keys());
}

impl Clone for ElementSchema {
    fn clone(&self) -> (r: Self)
        ensures
            r@ == self@,
    {
        self.duplicate()
    }
}

impl ElementWrapper {
    /// Pairs a type with its name.
    pub fn new(name: String, element: Element) -> (r: Self)
        ensures
            r.name == name,
            r.element == element,
    {
        Self { name, element }
    }
}

impl ElementSchema {
    /// The field with nothing declared: not an array, not a reference, not
    /// required, and every optional part absent.
    pub open spec fn blank_model() -> FieldModel {
        FieldModel {
            extends: None,
            is_array: false,
            is_reference: false,
            require: false,
            description: None,
            sub_type: None,
            plain_type: None,
            values: None,
        }
    }

    /// A field with nothing declared.
    pub fn blank() -> (r: Self)
        ensures
            r@ == Self::blank_model(),
    {
        let r = ElementSchema {
            extends: None,
            is_array: false,
            is_reference: false,
            require: false,
            description: None,
            sub_type: None,
            plain_type: None,
            values: None,
        };
        proof {
            lemma_sub_type_model(r);
        }
        r
    }

    /// A copy that stands for the same field.
    pub fn duplicate(&self) -> (r: Self)
        ensures
            r@ == self@,
        decreases self,
    {
        let sub_type = match &self.sub_type {
            Some(m) => Some(duplicate_fields(m)),
            None => None,
        };
        let r = ElementSchema {
            extends: copy_opt_texts(&self.extends),
            is_array: self.is_array,
            is_reference: self.is_reference,
            require: self.require,
            description: copy_opt_text(&self.description),
            sub_type,
            plain_type: copy_opt_text(&self.plain_type),
            values: copy_opt_texts(&self.values),
        };
        proof {
            lemma_sub_type_model(r);
            lemma_sub_type_model(*self);
        }
        r
    }

    /// Whether two fields stand for the same thing.
    pub fn same_as(&self, other: &Self) -> (r: bool)
        ensures
            r == (self@ == other@),
        decreases self,
    {
        proof {
            lemma_sub_type_model(*self);
            lemma_sub_type_model(*other);
        }
        let subs = match (&self.sub_type, &other.sub_type) {
            (Some(a), Some(b)) => same_fields(a, b),
            (None, None) => true,
            _ => false,
        };
        subs && self.is_array == other.is_array && self.is_reference == other.is_reference
            && self.require == other.require && same_opt_texts(&self.extends, &other.extends)
            && same_opt_text(&self.description, &other.description) && same_opt_text(
            &self.plain_type,
            &other.plain_type,
        ) && same_opt_texts(&self.values, &other.values)
    }
}

impl Element {
    /// A copy that stands for the same type.
    pub fn duplicate(&self) -> (r: Self)
        ensures
            r@ == self@,
    {
        let schema = match &self.schema {
            Some(m) => Some(duplicate_fields(m)),
            None => None,
        };
        Element {
            is_rpc: self.is_rpc,
            rpc_method: copy_opt_text(&self.rpc_method),
            description: copy_opt_text(&self.description),
            profile: self.profile,
            extends: copy_opt_texts(&self.extends),
            plain: copy_opt_text(&self.plain),
            schema,
            values: copy_opt_texts(&self.values),
        }
    }
}

/// A copy of a map of fields that stands for the same entries.
pub fn duplicate_fields(m: &TextMap<ElementSchema>) -> (r: TextMap<ElementSchema>)
    ensures
        fields_model(r) == fields_model(*m),
        r.keys() == m.keys(),
    decreases m,
{
    let mut entries: Vec<(String, ElementSchema)> = Vec::new();
    let mut i: usize = 0;
    while i < m.entries.len()
        invariant
            i <= m.entries@.len(),
            entries@.len() == i,
            forall|j: int|
                0 <= j < i ==> entries@[j].0@ == m.entries@[j].0@ && entries@[j].1@
                    == m.entries@[j].1@,
        decreases m.entries@.len() - i,
    {
        let key = m.entries[i].0.clone();
        let value = m.entries[i].1.duplicate();
        entries.push((key, value));
        i = i + 1;
    }
    let r = TextMap { entries };
    assert(fields_model(r) =~= fields_model(*m));
    assert(r.keys() =~= m.keys());
    r
}

/// Whether two maps of fields stand for the same entries in the same order.
pub fn same_fields(a: &TextMap<ElementSchema>, b: &TextMap<ElementSchema>) -> (r: bool)
    ensures
        r == (fields_model(*a) == fields_model(*b)),
    decreases a,
{
    if a.entries.len() != b.entries.len() {
        assert(fields_model(*a).len() != fields_model(*b).len());
        return false;
    }
    let mut i: usize = 0;
    while i < a.entries.len()
        invariant
            i <= a.entries@.len(),
            a.entries@.len() == b.entries@.len(),
            forall|j: int| 0 <= j < i ==> fields_model(*a)[j] == fields_model(*b)[j],
        decreases a.entries@.len() - i,
    {
        let same = text_eq(a.entries[i].0.as_str(), b.entries[i].0.as_str())
            && a.entries[i].1.same_as(&b.entries[i].1);
        if !same {
            assert(fields_model(*a)[i as int] != fields_model(*b)[i as int]);
            return false;
        }
        i = i + 1;
    }
    assert(fields_model(*a) =~= fields_model(*b));
    true
}

/// A copy of a list of strings.
pub fn copy_texts(v: &Vec<String>) -> (r: Vec<String>)
    ensures
        texts(r@) == texts(v@),
{
    let mut out: Vec<String> = Vec::new();
    let mut i: usize = 0;
    while i < v.len()
        invariant
            i <= v.len(),
            out@.len() == i,
            forall|j: int| 0 <= j < i ==> out@[j]@ == v@[j]@,
        decreases v.len() - i,
    {
        out.push(v[i].clone());
        i = i + 1;
    }
    assert(texts(out@) =~= texts(v@));
    out
}

/// A copy of an optional string.
pub fn copy_opt_text(o: &Option<String>) -> (r: Option<String>)
    ensures
        opt_text(r) == opt_text(*o),
{
    match o {
        Some(s) => Some(s.clone()),
        None => None,
    }
}

/// A copy of an optional list of strings.
pub fn copy_opt_texts(o: &Option<Vec<String>>) -> (r: Option<Vec<String>>)
    ensures
        opt_texts(r) == opt_texts(*o),
{
    match o {
        Some(v) => Some(copy_texts(v)),
        None => None,
    }
}

/// Whether two lists hold the same texts in the same order.
pub fn same_texts(a: &Vec<String>, b: &Vec<String>) -> (r: bool)
    ensures
        r == (texts(a@) == texts(b@)),
{
    if a.len() != b.len() {
        assert(texts(a@).len() != texts(b@).len());
        return false;
    }
    let mut i: usize = 0;
    while i < a.len()
        invariant
            i <= a.len(),
            a.len() == b.len(),
            forall|j: int| 0 <= j < i ==> a@[j]@ == b@[j]@,
        decreases a.len() - i,
    {
        if !text_eq(a[i].as_str(), b[i].as_str()) {
            assert(texts(a@)[i as int] != texts(b@)[i as int]);
            return false;
        }
        i = i + 1;
    }
    assert(texts(a@) =~= texts(b@));
    true
}

/// Whether two optional strings hold the same text.
pub fn same_opt_text(a: &Option<String>, b: &Option<String>) -> (r: bool)
    ensures
        r == (opt_text(*a) == opt_text(*b)),
{
    match (a, b) {
        (Some(x), Some(y)) => text_eq(x.as_str(), y.as_str()),
        (None, None) => true,
        _ => false,
    }
}

/// Whether two optional lists hold the same texts.
pub fn same_opt_texts(a: &Option<Vec<String>>, b: &Option<Vec<String>>) -> (r: bool)
    ensures
        r == (opt_texts(*a) == opt_texts(*b)),
{
    match (a, b) {
        (Some(x), Some(y)) => same_texts(x, y),
        (None, None) => true,
        _ => false,
    }
}

} // verus!
