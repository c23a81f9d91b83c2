//! Ordering names for output: by a key, names with the same key in the
//! order in which they came.

use vstd::prelude::*;
use crate::text::{chars_of, lowercase_of, texts, to_lowercase, Text};

verus! {

/// Whether `a` comes before `b` or equals it, character by character: the
/// first character in which they differ decides by its code point, and a
/// text comes before every text that it begins.
pub open spec fn lex_le(a: Text, b: Text) -> bool
    decreases a.len(),
{
    if a.len() == 0 {
        true
    } else if b.len() == 0 {
        false
    } else if a[0] != b[0] {
        (a[0] as u32) < (b[0] as u32)
    } else {
        lex_le(a.drop_first(), b.drop_first())
    }
}

/// Whether `a` comes before `b` or equals it, by the code points of their
/// characters.
pub fn text_le(a: &str, b: &str) -> (r: bool)
    ensures
        r == lex_le(a@, b@),
{
    let x = chars_of(a);
    let y = chars_of(b);
    let mut i: usize = 0;
    assert(a@.skip(0) =~= a@);
    assert(b@.skip(0) =~= b@);
    while i < x.len() && i < y.len()
        invariant
            i <= x.len(),
            i <= y.len(),
            x@ == a@,
            y@ == b@,
            lex_le(a@, b@) == lex_le(a@.skip(i as int), b@.skip(i as int)),
        decreases x.len() - i,
    {
        let ghost ra = a@.skip(i as int);
        let ghost rb = b@.skip(i as int);
        assert(ra.len() > 0 && rb.len() > 0);
        assert(ra[0] == x@[i as int] && rb[0] == y@[i as int]);
        assert(ra.drop_first() =~= a@.skip(i + 1));
        assert(rb.drop_first() =~= b@.skip(i + 1));
        let c = x[i];
        let d = y[i];
        if c != d {
            return (c as u32) < (d as u32);
        }
        i = i + 1;
    }
    assert(a@.skip(i as int).len() == x@.len() - i);
    assert(b@.skip(i as int).len() == y@.len() - i);
    i == x.len()
}

/// `sorted` with the pair `x` put behind the last pair whose key is not
/// behind the key of `x`.
pub open spec fn insert_sorted(sorted: Seq<(Text, Text)>, x: (Text, Text)) -> Seq<(Text, Text)>
    decreases sorted.len(),
{
    if sorted.len() == 0 {
        seq![x]
    } else if lex_le(sorted.last().0, x.0) {
        sorted.push(x)
    } else {
        insert_sorted(sorted.drop_last(), x).push(sorted.last())
    }
}

/// Pairs of a key and a name ordered by key; pairs with the same key keep
/// their order.
pub open spec fn sorted_pairs(s: Seq<(Text, Text)>) -> Seq<(Text, Text)>
    decreases s.len(),
{
    if s.len() == 0 {
        s
    } else {
        insert_sorted(sorted_pairs(s.drop_last()), s.last())
    }
}

/// Each name with its key before it.
pub open spec fn keyed(keys: Seq<Text>, names: Seq<Text>) -> Seq<(Text, Text)> {
    Seq::new(names.len(), |i: int| (keys[i], names[i]))
}

/// The names of pairs.
pub open spec fn names_of(pairs: Seq<(Text, Text)>) -> Seq<Text> {
    Seq::new(pairs.len(), |i: int| pairs[i].1)
}

/// The names ordered by the keys given with them.
pub open spec fn sorted_by_key(keys: Seq<Text>, names: Seq<Text>) -> Seq<Text> {
    names_of(sorted_pairs(keyed(keys, names)))
}

/// The lowercase form of each name.
pub open spec fn lowercase_keys(names: Seq<Text>) -> Seq<Text> {
    Seq::new(names.len(), |i: int| lowercase_of(names[i]))
}

/// The names ordered by their lowercase form; names that do not differ in
/// it keep their order.
pub open spec fn sorted_by_lowercase(names: Seq<Text>) -> Seq<Text> {
    sorted_by_key(lowercase_keys(names), names)
}

/// Where a pair goes: to position `j`, where everything from `j` on has a
/// key behind its key and what is before `j` has not.
pub proof fn lemma_insert_at(s: Seq<(Text, Text)>, x: (Text, Text), j: int)
    requires
        0 <= j <= s.len(),
        forall|k: int| j <= k < s.len() ==> !lex_le(s[k].0, x.0),
        j > 0 ==> lex_le(s[j - 1].0, x.0),
    ensures
        insert_sorted(s, x) == s.take(j).push(x) + s.skip(j),
    decreases s.len() - j,
{
    if s.len() == 0 {
        assert(s.take(j).push(x) + s.skip(j) =~= seq![x]);
    } else if j == s.len() {
        assert(s.take(j).push(x) + s.skip(j) =~= s.push(x));
    } else {
        let front = s.drop_last();
        assert(!lex_le(s[s.len() - 1].0, x.0));
        assert forall|k: int| j <= k < front.len() implies !lex_le(front[k].0, x.0) by {
            assert(front[k] == s[k]);
        }
        if j > 0 {
            assert(front[j - 1] == s[j - 1]);
        }
        lemma_insert_at(front, x, j);
        assert(front.take(j) =~= s.take(j));
        assert((front.take(j).push(x) + front.skip(j)).push(s.last()) =~= s.take(j).push(x)
            + s.skip(j));
    }
}

/// Of two texts one comes before the other or equals it.
pub proof fn lemma_lex_le_total(a: Text, b: Text)
    ensures
        lex_le(a, b) || lex_le(b, a),
    decreases a.len(),
{
    if a.len() > 0 && b.len() > 0 {
        if a[0] == b[0] {
            lemma_lex_le_total(a.drop_first(), b.drop_first());
        } else {
            if (a[0] as u32) == (b[0] as u32) {
                vstd::utf8::char_u32_cast(a[0], a[0] as u32);
                vstd::utf8::char_u32_cast(b[0], b[0] as u32);
            }
        }
    }
}

/// What comes before something that comes before a third comes before the
/// third.
pub proof fn lemma_lex_le_transitive(a: Text, b: Text, c: Text)
    requires
        lex_le(a, b),
        lex_le(b, c),
    ensures
        lex_le(a, c),
    decreases a.len(),
{
    if a.len() > 0 && b.len() > 0 && c.len() > 0 && a[0] == b[0] && b[0] == c[0] {
        lemma_lex_le_transitive(a.drop_first(), b.drop_first(), c.drop_first());
    }
}

/// No pair stands before a pair with a key that comes before its own.
pub open spec fn ordered(s: Seq<(Text, Text)>) -> bool {
    forall|i: int, j: int| 0 <= i < j < s.len() ==> lex_le(#[trigger] s[i].0, #[trigger] s[j].0)
}

/// Inserting into ordered pairs leaves them ordered, and adds the pair and
/// nothing else.
pub proof fn lemma_insert_sorted(s: Seq<(Text, Text)>, x: (Text, Text))
    requires
        ordered(s),
    ensures
        ordered(insert_sorted(s, x)),
        insert_sorted(s, x).to_multiset() == s.to_multiset().insert(x),
    decreases s.len(),
{
    broadcast use vstd::seq_lib::group_to_multiset_ensures;

    let r = insert_sorted(s, x);
    if s.len() == 0 {
        assert(r =~= s.push(x));
    } else if lex_le(s.last().0, x.0) {
        assert forall|i: int, j: int| 0 <= i < j < r.len() implies lex_le(
            #[trigger] r[i].0,
            #[trigger] r[j].0,
        ) by {
            if j == s.len() {
                if i < s.len() - 1 {
                    assert(lex_le(s[i].0, s[s.len() - 1].0));
                    lemma_lex_le_transitive(s[i].0, s.last().0, x.0);
                }
            } else {
                assert(lex_le(s[i].0, s[j].0));
            }
        }
    } else {
        let front = s.drop_last();
        let inner = insert_sorted(front, x);
        assert forall|i: int, j: int| 0 <= i < j < front.len() implies lex_le(
            #[trigger] front[i].0,
            #[trigger] front[j].0,
        ) by {
            assert(lex_le(s[i].0, s[j].0));
        }
        lemma_insert_sorted(front, x);
        lemma_lex_le_total(s.last().0, x.0);
        assert(s =~= front.push(s.last()));
        assert(r.to_multiset() =~= s.to_multiset().insert(x));
        assert forall|i: int, j: int| 0 <= i < j < r.len() implies lex_le(
            #[trigger] r[i].0,
            #[trigger] r[j].0,
        ) by {
            if j == inner.len() {
                let e = inner[i];
                assert(inner.contains(e));
                assert(inner.to_multiset().count(e) > 0);
                if e != x {
                    assert(front.to_multiset().count(e) > 0);
                    assert(front.contains(e));
                    let k = choose|k: int| 0 <= k < front.len() && front[k] == e;
                    assert(lex_le(s[k].0, s[s.len() - 1].0));
                }
            } else {
                assert(lex_le(inner[i].0, inner[j].0));
            }
        }
    }
}

/// Sorted pairs are ordered by key and are the pairs that were given, each
/// as often as it was given.
pub proof fn lemma_sorted_pairs(s: Seq<(Text, Text)>)
    ensures
        ordered(sorted_pairs(s)),
        sorted_pairs(s).to_multiset() == s.to_multiset(),
        sorted_pairs(s).len() == s.len(),
    decreases s.len(),
{
    broadcast use vstd::seq_lib::group_to_multiset_ensures;

    if s.len() > 0 {
        let front = s.drop_last();
        lemma_sorted_pairs(front);
        lemma_insert_sorted(sorted_pairs(front), s.last());
        assert(s =~= front.push(s.last()));
        assert(sorted_pairs(s).to_multiset() =~= s.to_multiset());
    }
    vstd::seq_lib::to_multiset_len(s);
    vstd::seq_lib::to_multiset_len(sorted_pairs(s));
}

/// Orders `names` by the key that stands at the same place in `keys`,
/// keeping the order of names with the same key.
pub fn sort_by_key(keys: &Vec<String>, names: &Vec<String>) -> (r: Vec<String>)
    requires
        keys.len() == names.len(),
    ensures
        texts(r@) == sorted_by_key(texts(keys@), texts(names@)),
{
    let ghost all = keyed(texts(keys@), texts(names@));
    let mut out: Vec<String> = Vec::new();
    let mut placed: Vec<String> = Vec::new();
    let mut i: usize = 0;
    assert(all.take(0) =~= Seq::<(Text, Text)>::empty());
    assert(keyed(texts(placed@), texts(out@)) =~= sorted_pairs(all.take(0)));
    while i < names.len()
        invariant
            i <= names.len(),
            keys.len() == names.len(),
            all == keyed(texts(keys@), texts(names@)),
            out@.len() == placed@.len(),
            out@.len() == i,
            keyed(texts(placed@), texts(out@)) == sorted_pairs(all.take(i as int)),
        decreases names.len() - i,
    {
        let ghost upto = all.take(i + 1);
        let ghost sorted = keyed(texts(placed@), texts(out@));
        let ghost x = (keys@[i as int]@, names@[i as int]@);
        assert(upto.drop_last() =~= all.take(i as int));
        assert(upto.last() == x);
        let key = keys[i].clone();
        let mut j: usize = out.len();
        while j > 0 && !text_le(placed[j - 1].as_str(), key.as_str())
            invariant
                j <= out@.len(),
                out@.len() == placed@.len(),
                key@ == x.0,
                sorted == keyed(texts(placed@), texts(out@)),
                forall|k: int| j <= k < sorted.len() ==> !lex_le(sorted[k].0, x.0),
            decreases j,
        {
            j = j - 1;
        }
        proof {
            if j > 0 {
                assert(lex_le(sorted[j - 1].0, x.0));
            }
            lemma_insert_at(sorted, x, j as int);
        }
        out.insert(j, names[i].clone());
        placed.insert(j, key);
        assert(keyed(texts(placed@), texts(out@)) =~= sorted.take(j as int).push(x) + sorted.skip(
            j as int,
        ));
        i = i + 1;
    }
    assert(all.take(i as int) =~= all);
    assert(texts(out@) =~= names_of(keyed(texts(placed@), texts(out@))));
    out
}

/// Orders names by their lowercase form, keeping the order of names that
/// do not differ in it.
pub fn sort_by_lowercase(names: &Vec<String>) -> (r: Vec<String>)
    ensures
        texts(r@) == sorted_by_lowercase(texts(names@)),
{
    let mut keys: Vec<String> = Vec::new();
    let mut i: usize = 0;
    while i < names.len()
        invariant
            i <= names.len(),
            keys@.len() == i,
            forall|k: int| 0 <= k < i ==> keys@[k]@ == lowercase_of(names@[k]@),
        decreases names.len() - i,
    {
        keys.push(to_lowercase(names[i].as_str()));
        i = i + 1;
    }
    assert(texts(keys@) =~= lowercase_keys(texts(names@)));
    sort_by_key(&keys, names)
}

} // verus!
