//! Merging: what becomes of two field maps, or two types, that meet under
//! one name.

use vstd::prelude::*;
use itertools::Itertools;
use crate::map::{distinct, first_index, lemma_distinct_first, lemma_first_index, TextMap};
use crate::schema::{
    copy_opt_text, copy_opt_texts, copy_texts, duplicate_fields, element_fields_wf, field_wf,
    fields_model, fields_wf, keys_distinct, lemma_model_keys,
    lemma_sub_type_model, model_keys, opt_texts, Element, ElementModel, ElementSchema,
    FieldModel, FieldsModel,
};
use crate::text::{texts, Text};

verus! {

/// `s` without repetitions: of equal texts the first stays, and what stays
/// keeps its order.
pub open spec fn unique_spec(s: Seq<Text>) -> Seq<Text>
    decreases s.len(),
{
    if s.len() == 0 {
        s
    } else {
        let front = unique_spec(s.drop_last());
        if front.contains(s.last()) {
            front
        } else {
            front.push(s.last())
        }
    }
}

/// Runs the list through `Itertools::unique`. Trusted: the adaptor yields
/// the items in their order and drops each item that an earlier one equals,
/// which is [`unique_spec`].
#[verifier::external_body]
fn unique(items: Vec<String>) -> (r: Vec<String>)
    ensures
        texts(r@) == unique_spec(texts(items@)),
{
    items.into_iter().unique().collect()
}

/// The value under `key` in a model of fields.
pub open spec fn model_lookup(m: FieldsModel, key: Text) -> Option<FieldModel> {
    match first_index(model_keys(m), key) {
        Some(i) => Some(m[i].1),
        None => None,
    }
}

/// Two lists become one without repetitions, the earlier list first. Where
/// only one side has a list, the result is that list without repetitions;
/// where neither has one there is none.
pub open spec fn merge_values(old: Option<Seq<Text>>, new: Option<Seq<Text>>) -> Option<
    Seq<Text>,
> {
    match (old, new) {
        (Some(a), Some(b)) => Some(unique_spec(a + b)),
        (Some(a), None) => Some(unique_spec(a)),
        (None, Some(b)) => Some(unique_spec(b)),
        (None, None) => None,
    }
}

/// Two fields under one key. Equal fields stay as they are. Otherwise the
/// later field decides description, required flag, scalar type, inheritance
/// and the array and reference flags, and literals are united. A field has
/// a scalar type or nested fields, not both: where the later field has a
/// scalar type the merged field has no nested fields; else the nested maps
/// are merged, a nested map that only one side has standing as it is.
pub open spec fn merge_field(old: FieldModel, new: FieldModel) -> FieldModel
    decreases old,
{
    if old == new {
        old
    } else {
        FieldModel {
            extends: new.extends,
            is_array: new.is_array,
            is_reference: new.is_reference,
            require: new.require,
            description: new.description,
            sub_type: if new.plain_type is Some {
                None
            } else {
                match (old.sub_type, new.sub_type) {
                    (Some(a), Some(b)) => Some(merge_fields(a, b)),
                    (Some(a), None) => Some(a),
                    (None, b) => b,
                }
            },
            plain_type: new.plain_type,
            values: merge_values(old.values, new.values),
        }
    }
}

/// The entries of `left`, each merged with the entry of `right` under the
/// same key where there is one.
pub open spec fn merged_left(left: FieldsModel, right: FieldsModel) -> FieldsModel
    decreases left, 0int,
{
    Seq::new(
        left.len(),
        |i: int|
            if 0 <= i < left.len() {
                (
                    left[i].0,
                    match model_lookup(right, left[i].0) {
                        Some(e) => merge_field(left[i].1, e),
                        None => left[i].1,
                    },
                )
            } else {
                arbitrary()
            },
    )
}

/// The entries of `right` whose key `left` does not have, in order.
pub open spec fn only_right(left: FieldsModel, right: FieldsModel) -> FieldsModel
    decreases right.len(),
{
    if right.len() == 0 {
        right
    } else {
        let front = only_right(left, right.drop_last());
        if model_lookup(left, right.last().0) is None {
            front.push(right.last())
        } else {
            front
        }
    }
}

/// Two maps of fields become one: the keys of `left` in their order, merged
/// with `right` where it has the key, then the keys that only `right` has.
pub open spec fn merge_fields(left: FieldsModel, right: FieldsModel) -> FieldsModel
    decreases left, 1int,
{
    merged_left(left, right) + only_right(left, right)
}

/// Two types under one name. The later one decides the RPC flag and method,
/// the description and the profile flag. The inheritance lists are united.
/// Literals and scalar alias stay as first seen. The later field map is
/// merged onto the earlier.
pub open spec fn merge_element(old: ElementModel, new: ElementModel) -> ElementModel {
    ElementModel {
        is_rpc: new.is_rpc,
        rpc_method: new.rpc_method,
        description: new.description,
        profile: new.profile,
        extends: merge_values(old.extends, new.extends),
        plain: old.plain,
        schema: match new.schema {
            Some(el) => match old.schema {
                Some(o) => Some(merge_fields(o, el)),
                None => Some(el),
            },
            None => old.schema,
        },
        values: old.values,
    }
}

/// The texts of `a` followed by those of `b`, without repetitions.
pub fn union_texts(a: &Vec<String>, b: &Vec<String>) -> (r: Vec<String>)
    ensures
        texts(r@) == unique_spec(texts(a@) + texts(b@)),
{
    let mut all = copy_texts(a);
    let mut i: usize = 0;
    while i < b.len()
        invariant
            i <= b.len(),
            texts(all@) == texts(a@) + texts(b@).take(i as int),
        decreases b.len() - i,
    {
        let ghost before = all@;
        all.push(b[i].clone());
        assert(texts(all@) =~= texts(before).push(b@[i as int]@));
        assert(texts(b@).take(i + 1) =~= texts(b@).take(i as int).push(b@[i as int]@));
        i = i + 1;
    }
    assert(texts(b@).take(i as int) =~= texts(b@));
    unique(all)
}

/// Unites two optional lists.
pub fn merge_literal_lists(old: &Option<Vec<String>>, new: &Option<Vec<String>>) -> (r: Option<
    Vec<String>,
>)
    ensures
        opt_texts(r) == merge_values(opt_texts(*old), opt_texts(*new)),
{
    match (old, new) {
        (Some(a), Some(b)) => Some(union_texts(a, b)),
        (Some(a), None) => Some(unique(copy_texts(a))),
        (None, Some(b)) => Some(unique(copy_texts(b))),
        (None, None) => None,
    }
}

/// Merges the later field `new` onto the earlier field `old`.
pub fn merge_element_schema(old: &ElementSchema, new: &ElementSchema) -> (r: ElementSchema)
    ensures
        r@ == merge_field(old@, new@),
        field_wf(old@) && field_wf(new@) ==> field_wf(r@),
    decreases old,
{
    proof {
        lemma_sub_type_model(*old);
        lemma_sub_type_model(*new);
        if field_wf(old@) && field_wf(new@) {
            lemma_merge_field_wf(old@, new@);
        }
    }
    if old.same_as(new) {
        old.duplicate()
    } else {
        let sub_type = if new.plain_type.is_some() {
            None
        } else {
            match (&old.sub_type, &new.sub_type) {
                (Some(a), Some(b)) => Some(merge_field_maps(a, b)),
                (Some(a), None) => Some(duplicate_fields(a)),
                (None, Some(b)) => Some(duplicate_fields(b)),
                (None, None) => None,
            }
        };
        let r = ElementSchema {
            extends: copy_opt_texts(&new.extends),
            is_array: new.is_array,
            is_reference: new.is_reference,
            require: new.require,
            description: copy_opt_text(&new.description),
            sub_type,
            plain_type: copy_opt_text(&new.plain_type),
            values: merge_literal_lists(&old.values, &new.values),
        };
        proof {
            lemma_sub_type_model(r);
        }
        r
    }
}

/// Merges the later map `right` onto the earlier map `left`.
pub fn merge_field_maps(left: &TextMap<ElementSchema>, right: &TextMap<ElementSchema>) -> (r:
    TextMap<ElementSchema>)
    ensures
        fields_model(r) == merge_fields(fields_model(*left), fields_model(*right)),
        left.wf() && right.wf() ==> r.wf(),
        fields_wf(fields_model(*left)) && fields_wf(fields_model(*right)) ==> fields_wf(
            fields_model(r),
        ),
    decreases left,
{
    let ghost lm = fields_model(*left);
    let ghost rm = fields_model(*right);
    proof {
        lemma_model_keys(*left);
        lemma_model_keys(*right);
    }
    let mut entries: Vec<(String, ElementSchema)> = Vec::new();
    let mut i: usize = 0;
    while i < left.entries.len()
        invariant
            i <= left.entries@.len(),
            lm == fields_model(*left),
            rm == fields_model(*right),
            model_keys(rm) == right.keys(),
            entries@.len() == i,
            forall|j: int|
                0 <= j < i ==> (#[trigger] entries@[j]).0@ == lm[j].0 && entries@[j].1@
                    == merged_left(lm, rm)[j].1,
        decreases left.entries@.len() - i,
    {
        let key = left.entries[i].0.clone();
        proof {
            let kt = left.entries@[i as int].0@;
            assert(lm[i as int] == (kt, left.entries@[i as int].1@));
            lemma_first_index(right.keys(), kt);
            match first_index(right.keys(), kt) {
                Some(p) => {
                    assert(rm[p].1 == right.entries@[p].1@);
                },
                None => {},
            }
        }
        let value = match right.get(key.as_str()) {
            Some(e) => merge_element_schema(&left.entries[i].1, e),
            None => left.entries[i].1.duplicate(),
        };
        entries.push((key, value));
        i = i + 1;
    }
    let ghost head = entries@;
    let mut k: usize = 0;
    assert(rm.take(0) =~= Seq::<(Text, FieldModel)>::empty());
    while k < right.entries.len()
        invariant
            k <= right.entries@.len(),
            lm == fields_model(*left),
            rm == fields_model(*right),
            model_keys(lm) == left.keys(),
            head.len() == lm.len(),
            entries@.len() == head.len() + only_right(lm, rm.take(k as int)).len(),
            forall|j: int| 0 <= j < head.len() ==> entries@[j] == head[j],
            forall|j: int|
                0 <= j < only_right(lm, rm.take(k as int)).len() ==> (
                #[trigger] entries@[head.len() + j]).0@ == only_right(lm, rm.take(k as int))[j].0
                    && entries@[head.len() + j].1@ == only_right(lm, rm.take(k as int))[j].1,
        decreases right.entries@.len() - k,
    {
        let ghost upto = rm.take(k + 1);
        assert(upto.drop_last() =~= rm.take(k as int));
        assert(upto.last() == rm[k as int]);
        proof {
            left.lemma_lookup(right.entries@[k as int].0@);
        }
        if !left.contains_key(right.entries[k].0.as_str()) {
            let key = right.entries[k].0.clone();
            let value = right.entries[k].1.duplicate();
            entries.push((key, value));
        }
        k = k + 1;
    }
    assert(rm.take(k as int) =~= rm);
    let r = TextMap { entries };
    assert(fields_model(r) =~= merge_fields(lm, rm)) by {
        let target = merge_fields(lm, rm);
        assert(fields_model(r).len() == target.len());
        assert forall|j: int| 0 <= j < target.len() implies fields_model(r)[j] == target[j] by {
            if j < head.len() {
                assert(entries@[j] == head[j]);
            } else {
                let d = j - head.len();
                assert(entries@[head.len() + d].0@ == only_right(lm, rm)[d].0);
            }
        }
    }
    proof {
        lemma_model_keys(r);
        if left.wf() && right.wf() {
            lemma_merge_distinct(lm, rm);
        }
        if fields_wf(lm) && fields_wf(rm) {
            lemma_merge_fields_wf(lm, rm);
        }
    }
    r
}

/// Merges two field maps that belong to one type: `left` came first,
/// `right` is merged on top of it.
pub fn deep_merge_element_schema(
    left: TextMap<ElementSchema>,
    right: TextMap<ElementSchema>,
) -> (r: TextMap<ElementSchema>)
    ensures
        fields_model(r) == merge_fields(fields_model(left), fields_model(right)),
        left.wf() && right.wf() ==> r.wf(),
        fields_wf(fields_model(left)) && fields_wf(fields_model(right)) ==> fields_wf(
            fields_model(r),
        ),
{
    merge_field_maps(&left, &right)
}

/// Merges the later type `new` onto the type `old` that was registered
/// under the same name before.
pub fn merge_elements(old: &Element, new: &Element) -> (r: Element)
    ensures
        r@ == merge_element(old@, new@),
        element_fields_wf(old@) && element_fields_wf(new@) ==> element_fields_wf(r@),
{
    proof {
        if element_fields_wf(old@) && element_fields_wf(new@) {
            lemma_merge_element_fields(old@, new@);
        }
    }
    let extends = merge_literal_lists(&old.extends, &new.extends);
    let schema = match &new.schema {
        Some(el) => match &old.schema {
            Some(o) => Some(merge_field_maps(o, el)),
            None => Some(duplicate_fields(el)),
        },
        None => match &old.schema {
            Some(o) => Some(duplicate_fields(o)),
            None => None,
        },
    };
    Element {
        is_rpc: new.is_rpc,
        rpc_method: copy_opt_text(&new.rpc_method),
        description: copy_opt_text(&new.description),
        profile: new.profile,
        extends,
        plain: copy_opt_text(&old.plain),
        schema,
        values: copy_opt_texts(&old.values),
    }
}

/// What [`unique_spec`] keeps: every text of `s`, each once.
pub proof fn lemma_unique(s: Seq<Text>)
    ensures
        unique_spec(s).no_duplicates(),
        forall|t: Text| unique_spec(s).contains(t) <==> s.contains(t),
    decreases s.len(),
{
    if s.len() > 0 {
        let front = s.drop_last();
        lemma_unique(front);
        let u = unique_spec(front);
        let full = unique_spec(s);
        assert forall|t: Text| full.contains(t) <==> s.contains(t) by {
            assert(u.contains(t) <==> front.contains(t));
            assert(u.contains(s.last()) <==> front.contains(s.last()));
            if s.contains(t) {
                let k = choose|k: int| 0 <= k < s.len() && s[k] == t;
                if k < front.len() {
                    assert(front[k] == t);
                    assert(front.contains(t));
                    let p = choose|p: int| 0 <= p < u.len() && u[p] == t;
                    assert(full[p] == t);
                } else {
                    assert(t == s.last());
                    if u.contains(t) {
                        let p = choose|p: int| 0 <= p < u.len() && u[p] == t;
                        assert(full[p] == t);
                    } else {
                        assert(full[u.len() as int] == t);
                    }
                }
            }
            if full.contains(t) {
                let p = choose|p: int| 0 <= p < full.len() && full[p] == t;
                if p < u.len() {
                    assert(u[p] == t);
                    assert(u.contains(t));
                    let k = choose|k: int| 0 <= k < front.len() && front[k] == t;
                    assert(s[k] == t);
                } else {
                    assert(s[s.len() - 1] == t);
                }
            }
        }
    }
}

/// Uniting literal lists does not depend on which list comes first, up to
/// order: either way the result holds exactly the texts that one of the
/// lists holds, each once.
pub proof fn lemma_union_commutative(a: Seq<Text>, b: Seq<Text>)
    ensures
        unique_spec(a + b).no_duplicates(),
        unique_spec(b + a).no_duplicates(),
        forall|t: Text| unique_spec(a + b).contains(t) <==> (a.contains(t) || b.contains(t)),
        unique_spec(a + b).to_set() == unique_spec(b + a).to_set(),
        unique_spec(a + b).len() == unique_spec(b + a).len(),
{
    lemma_unique(a + b);
    lemma_unique(b + a);
    assert forall|t: Text| (a + b).contains(t) <==> (a.contains(t) || b.contains(t)) by {
        if (a + b).contains(t) {
            let k = choose|k: int| 0 <= k < (a + b).len() && (a + b)[k] == t;
            if k < a.len() {
                assert(a[k] == t);
            } else {
                assert(b[k - a.len()] == t);
            }
        }
        if a.contains(t) {
            let k = choose|k: int| 0 <= k < a.len() && a[k] == t;
            assert((a + b)[k] == t);
        }
        if b.contains(t) {
            let k = choose|k: int| 0 <= k < b.len() && b[k] == t;
            assert((a + b)[a.len() + k] == t);
        }
    }
    assert forall|t: Text| (b + a).contains(t) <==> (a.contains(t) || b.contains(t)) by {
        if (b + a).contains(t) {
            let k = choose|k: int| 0 <= k < (b + a).len() && (b + a)[k] == t;
            if k < b.len() {
                assert(b[k] == t);
            } else {
                assert(a[k - b.len()] == t);
            }
        }
        if b.contains(t) {
            let k = choose|k: int| 0 <= k < b.len() && b[k] == t;
            assert((b + a)[k] == t);
        }
        if a.contains(t) {
            let k = choose|k: int| 0 <= k < a.len() && a[k] == t;
            assert((b + a)[b.len() + k] == t);
        }
    }
    assert forall|t: Text| unique_spec(a + b).contains(t) <==> unique_spec(b + a).contains(t) by {
        assert((a + b).contains(t) <==> (a.contains(t) || b.contains(t)));
        assert((b + a).contains(t) <==> (a.contains(t) || b.contains(t)));
    }
    assert(unique_spec(a + b).to_set() =~= unique_spec(b + a).to_set());
    unique_spec(a + b).unique_seq_to_set();
    unique_spec(b + a).unique_seq_to_set();
}

/// What is left over of `right` has keys of `right` that `left` does not
/// have.
pub proof fn lemma_only_right_keys(left: FieldsModel, right: FieldsModel)
    ensures
        forall|k: Text| #[trigger]
            model_keys(only_right(left, right)).contains(k) ==> model_keys(right).contains(k)
                && !model_keys(left).contains(k),
    decreases right.len(),
{
    if right.len() > 0 {
        let front = right.drop_last();
        let rest = only_right(left, front);
        let all = only_right(left, right);
        lemma_only_right_keys(left, front);
        assert forall|k: Text| #[trigger] model_keys(all).contains(k) implies model_keys(
            right,
        ).contains(k) && !model_keys(left).contains(k) by {
            let d = choose|d: int| 0 <= d < model_keys(all).len() && model_keys(all)[d] == k;
            if d < rest.len() {
                assert(model_keys(rest)[d] == k);
                assert(model_keys(rest).contains(k));
                let j = choose|j: int| 0 <= j < model_keys(front).len() && model_keys(front)[j]
                    == k;
                assert(model_keys(right)[j] == k);
            } else {
                assert(k == right.last().0);
                assert(model_keys(right)[right.len() - 1] == k);
                lemma_first_index(model_keys(left), k);
                if model_keys(left).contains(k) {
                    let j = choose|j: int| 0 <= j < model_keys(left).len() && model_keys(left)[j]
                        == k;
                    assert(false);
                }
            }
        }
    }
}

/// What is left over of a map without repeated keys has no repeated keys.
pub proof fn lemma_only_right_distinct(left: FieldsModel, right: FieldsModel)
    requires
        distinct(model_keys(right)),
    ensures
        distinct(model_keys(only_right(left, right))),
    decreases right.len(),
{
    if right.len() > 0 {
        let front = right.drop_last();
        let rest = only_right(left, front);
        let all = only_right(left, right);
        assert forall|i: int, j: int| 0 <= i < j < model_keys(front).len() implies model_keys(
            front,
        )[i] != model_keys(front)[j] by {
            assert(model_keys(right)[i] != model_keys(right)[j]);
        }
        lemma_only_right_distinct(left, front);
        lemma_only_right_keys(left, front);
        assert forall|i: int, j: int| 0 <= i < j < model_keys(all).len() implies model_keys(
            all,
        )[i] != model_keys(all)[j] by {
            if j < rest.len() {
                assert(model_keys(rest)[i] != model_keys(rest)[j]);
            } else {
                let k = model_keys(all)[i];
                assert(model_keys(rest)[i] == k);
                assert(model_keys(rest).contains(k));
                let q = choose|q: int| 0 <= q < model_keys(front).len() && model_keys(front)[q]
                    == k;
                assert(model_keys(right)[q] != model_keys(right)[right.len() - 1]);
            }
        }
    }
}

/// Merging maps without repeated keys gives a map without repeated keys,
/// whose keys are those of the one map and of the other.
pub proof fn lemma_merge_distinct(left: FieldsModel, right: FieldsModel)
    requires
        distinct(model_keys(left)),
        distinct(model_keys(right)),
    ensures
        distinct(model_keys(merge_fields(left, right))),
        forall|k: Text| #[trigger]
            model_keys(merge_fields(left, right)).contains(k) <==> (model_keys(left).contains(k)
                || model_keys(right).contains(k)),
{
    let head = merged_left(left, right);
    let tail = only_right(left, right);
    let all = merge_fields(left, right);
    lemma_only_right_distinct(left, right);
    lemma_only_right_keys(left, right);
    assert(model_keys(head) =~= model_keys(left));
    assert(model_keys(all) =~= model_keys(left) + model_keys(tail));
    assert forall|i: int, j: int| 0 <= i < j < model_keys(all).len() implies model_keys(all)[i]
        != model_keys(all)[j] by {
        if j < left.len() {
            assert(model_keys(left)[i] != model_keys(left)[j]);
        } else if i >= left.len() {
            assert(model_keys(tail)[i - left.len()] != model_keys(tail)[j - left.len()]);
        } else {
            let k = model_keys(tail)[j - left.len()];
            assert(model_keys(tail).contains(k));
            if model_keys(left)[i] == k {
                assert(model_keys(left).contains(k));
            }
        }
    }
    assert forall|k: Text| #[trigger]
        model_keys(all).contains(k) <==> (model_keys(left).contains(k) || model_keys(
            right,
        ).contains(k)) by {
        if model_keys(all).contains(k) {
            let d = choose|d: int| 0 <= d < model_keys(all).len() && model_keys(all)[d] == k;
            if d < left.len() {
                assert(model_keys(left)[d] == k);
            } else {
                assert(model_keys(tail)[d - left.len()] == k);
                assert(model_keys(tail).contains(k));
            }
        }
        if model_keys(left).contains(k) {
            let d = choose|d: int| 0 <= d < model_keys(left).len() && model_keys(left)[d] == k;
            assert(model_keys(all)[d] == k);
        } else if model_keys(right).contains(k) {
            lemma_kept_on_the_right(left, right, k);
            let d = choose|d: int| 0 <= d < model_keys(tail).len() && model_keys(tail)[d] == k;
            assert(model_keys(all)[left.len() + d] == k);
        }
    }
}

/// A key of `right` that `left` does not have is left over.
pub proof fn lemma_kept_on_the_right(left: FieldsModel, right: FieldsModel, k: Text)
    requires
        model_keys(right).contains(k),
        !model_keys(left).contains(k),
    ensures
        model_keys(only_right(left, right)).contains(k),
    decreases right.len(),
{
    let all = only_right(left, right);
    if right.len() > 0 {
        let front = right.drop_last();
        let rest = only_right(left, front);
        if right.last().0 == k {
            lemma_first_index(model_keys(left), k);
            assert(model_lookup(left, k) is None);
            assert(model_keys(all)[rest.len() as int] == k);
        } else {
            let j = choose|j: int| 0 <= j < model_keys(right).len() && model_keys(right)[j] == k;
            assert(model_keys(front)[j] == k);
            assert(model_keys(front).contains(k));
            lemma_kept_on_the_right(left, front, k);
            let d = choose|d: int| 0 <= d < model_keys(rest).len() && model_keys(rest)[d] == k;
            assert(model_keys(all)[d] == k);
        }
    }
}

/// What is left over of `right` are entries of `right`.
pub proof fn lemma_only_right_entries(left: FieldsModel, right: FieldsModel)
    ensures
        forall|d: int|
            0 <= d < only_right(left, right).len() ==> right.contains(
                #[trigger] only_right(left, right)[d],
            ),
    decreases right.len(),
{
    if right.len() > 0 {
        let front = right.drop_last();
        let rest = only_right(left, front);
        let all = only_right(left, right);
        lemma_only_right_entries(left, front);
        assert forall|d: int| 0 <= d < all.len() implies right.contains(#[trigger] all[d]) by {
            if d < rest.len() {
                assert(front.contains(rest[d]));
                let j = choose|j: int| 0 <= j < front.len() && front[j] == rest[d];
                assert(right[j] == all[d]);
            } else {
                assert(right[right.len() - 1] == all[d]);
            }
        }
    }
}

/// Merging fields whose maps have no key twice gives a field whose maps
/// have no key twice.
pub proof fn lemma_merge_field_keys_distinct(old: FieldModel, new: FieldModel)
    requires
        old.sub_type matches Some(s) ==> keys_distinct(s),
        new.sub_type matches Some(s) ==> keys_distinct(s),
    ensures
        merge_field(old, new).sub_type matches Some(s) ==> keys_distinct(s),
    decreases old, 2int,
{
    if old != new {
        match (old.sub_type, new.sub_type) {
            (Some(a), Some(b)) => {
                lemma_merge_keys_distinct(a, b);
            },
            _ => {},
        }
    }
}

/// Merging maps that have no key twice, nested however deep, gives a map
/// that has no key twice, nested however deep.
pub proof fn lemma_merge_keys_distinct(left: FieldsModel, right: FieldsModel)
    requires
        keys_distinct(left),
        keys_distinct(right),
    ensures
        keys_distinct(merge_fields(left, right)),
    decreases left, 3int,
{
    let head = merged_left(left, right);
    let tail = only_right(left, right);
    let all = merge_fields(left, right);
    lemma_merge_distinct(left, right);
    lemma_only_right_entries(left, right);
    assert forall|i: int| 0 <= i < all.len() implies match (#[trigger] all[i]).1.sub_type {
        Some(s) => keys_distinct(s),
        None => true,
    } by {
        if i < left.len() {
            assert(all[i] == head[i]);
            let l = left[i];
            match model_lookup(right, l.0) {
                Some(e) => {
                    lemma_first_index(model_keys(right), l.0);
                    let p = first_index(model_keys(right), l.0)->0;
                    assert(e == right[p].1);
                    lemma_merge_field_keys_distinct(l.1, e);
                },
                None => {},
            }
        } else {
            let e = tail[i - left.len()];
            assert(all[i] == e);
            assert(right.contains(e));
            let j = choose|j: int| 0 <= j < right.len() && right[j] == e;
        }
    }
}

/// Merging fields that are in order gives a field that is in order: it
/// does not have both a scalar type and nested fields, and its nested
/// fields are in order.
pub proof fn lemma_merge_field_wf(old: FieldModel, new: FieldModel)
    requires
        field_wf(old),
        field_wf(new),
    ensures
        field_wf(merge_field(old, new)),
    decreases old, 2int,
{
    if old != new {
        match (old.sub_type, new.sub_type) {
            (Some(a), Some(b)) => {
                lemma_merge_fields_wf(a, b);
            },
            _ => {},
        }
    }
}

/// Merging maps of fields that are in order gives a map that is in order:
/// no key occurs twice, and no field, nested however deep, has both a
/// scalar type and nested fields.
pub proof fn lemma_merge_fields_wf(left: FieldsModel, right: FieldsModel)
    requires
        fields_wf(left),
        fields_wf(right),
    ensures
        fields_wf(merge_fields(left, right)),
    decreases left, 3int,
{
    let head = merged_left(left, right);
    let tail = only_right(left, right);
    let all = merge_fields(left, right);
    lemma_merge_distinct(left, right);
    lemma_only_right_entries(left, right);
    assert forall|i: int| 0 <= i < all.len() implies field_wf(#[trigger] all[i].1) by {
        if i < left.len() {
            assert(all[i] == head[i]);
            let l = left[i];
            assert(field_wf(left[i].1));
            match model_lookup(right, l.0) {
                Some(e) => {
                    lemma_first_index(model_keys(right), l.0);
                    let p = first_index(model_keys(right), l.0)->0;
                    assert(e == right[p].1);
                    assert(field_wf(right[p].1));
                    lemma_merge_field_wf(l.1, e);
                },
                None => {},
            }
        } else {
            let e = tail[i - left.len()];
            assert(all[i] == e);
            assert(right.contains(e));
            let j = choose|j: int| 0 <= j < right.len() && right[j] == e;
            assert(field_wf(right[j].1));
        }
    }
}

/// Merging two types whose fields are in order gives a type whose fields
/// are in order. A merged type can hold more than one of a scalar alias,
/// literals and fields, as where a later symbol brings fields to the name
/// of an alias; what is written of it goes by rank: the remote call, then
/// the alias, then the fields, then the literals.
pub proof fn lemma_merge_element_fields(old: ElementModel, new: ElementModel)
    requires
        element_fields_wf(old),
        element_fields_wf(new),
    ensures
        element_fields_wf(merge_element(old, new)),
{
    match (old.schema, new.schema) {
        (Some(o), Some(n)) => {
            lemma_merge_fields_wf(o, n);
        },
        _ => {},
    }
}

/// A field that both maps have is merged: under a key that both maps
/// have, the merged map has the merge of the two fields. Where the two
/// fields differ and both have literals, the literals of the merged field
/// are those of the earlier and of the later field, each once.
pub proof fn lemma_merged_entry(left: FieldsModel, right: FieldsModel, key: Text)
    requires
        model_lookup(left, key) is Some,
        model_lookup(right, key) is Some,
    ensures
        model_lookup(merge_fields(left, right), key) == Some(
            merge_field(model_lookup(left, key)->0, model_lookup(right, key)->0),
        ),
        ({
            let a = model_lookup(left, key)->0;
            let b = model_lookup(right, key)->0;
            a != b && a.values is Some && b.values is Some ==> merge_field(a, b).values == Some(
                unique_spec(a.values->0 + b.values->0),
            )
        }),
{
    let all = merge_fields(left, right);
    let head = merged_left(left, right);
    lemma_first_index(model_keys(left), key);
    let p = first_index(model_keys(left), key)->0;
    assert(model_keys(all)[p] == key);
    assert forall|j: int| 0 <= j < p implies model_keys(all)[j] != key by {
        assert(model_keys(all)[j] == model_keys(left)[j]);
    }
    crate::map::lemma_is_first(model_keys(all), key, p);
    assert(all[p] == head[p]);
}

/// Nothing of `right` is left over where `left` has every key of `right`.
pub proof fn lemma_only_right_empty(left: FieldsModel, right: FieldsModel)
    requires
        forall|i: int| 0 <= i < right.len() ==> model_lookup(left, right[i].0) is Some,
    ensures
        only_right(left, right).len() == 0,
    decreases right.len(),
{
    if right.len() > 0 {
        let front = right.drop_last();
        assert forall|i: int| 0 <= i < front.len() implies model_lookup(left, front[i].0)
            is Some by {
            assert(front[i] == right[i]);
        }
        lemma_only_right_empty(left, front);
    }
}

/// A field merged with itself is that field, and a map of fields merged
/// with itself is that map, as long as none of its keys occurs twice.
pub proof fn lemma_merge_idempotent(m: FieldsModel)
    requires
        distinct(model_keys(m)),
    ensures
        merge_fields(m, m) == m,
        forall|f: FieldModel| merge_field(f, f) == f,
{
    let keys = model_keys(m);
    assert forall|i: int| 0 <= i < m.len() implies model_lookup(m, m[i].0) == Some(
        m[i].1,
    ) by {
        lemma_distinct_first(keys, i);
        assert(keys[i] == m[i].0);
    }
    lemma_only_right_empty(m, m);
    assert(merged_left(m, m) =~= m);
    assert(merge_fields(m, m) =~= m);
}

} // verus!
