//! Text as sequences of characters: the few operations on strings that the
//! rest of the library is built from, each stated over `Seq<char>`.

use vstd::prelude::*;
use vstd::string::StringExecFns;
use vstd::string::StringSliceAdditionalSpecFns;

verus! {

/// The mathematical content of a string.
pub type Text = Seq<char>;

/// The uppercase mapping of one character, which may be several characters.
/// It is what `char::to_uppercase` yields; the Unicode tables behind it are
/// not restated here. The library asks for it of characters beyond ASCII
/// only.
pub uninterp spec fn uppercase_of(c: char) -> Seq<char>;

/// The lowercase form of a text, as `str::to_lowercase` gives it.
pub uninterp spec fn lowercase_of(s: Seq<char>) -> Seq<char>;

/// Calls `char::to_uppercase` and collects what it yields. Trusted: the
/// result is exactly the mapping named by [`uppercase_of`].
#[verifier::external_body]
fn char_uppercase(c: char) -> (r: String)
    ensures
        r@ == uppercase_of(c),
{
    c.to_uppercase().collect()
}

/// Calls `str::to_lowercase`. Trusted: the result is exactly the text named
/// by [`lowercase_of`].
#[verifier::external_body]
pub(crate) fn to_lowercase(s: &str) -> (r: String)
    ensures
        r@ == lowercase_of(s@),
{
    s.to_lowercase()
}


/// Collects characters into a `String` through std's `FromIterator`.
/// Trusted: the string holds exactly the characters given, in order.
#[verifier::external_body]
pub(crate) fn string_from_chars(chars: &Vec<char>) -> (r: String)
    ensures
        r@ == chars@,
{
    chars.iter().collect()
}

/// The views of a sequence of strings.
pub open spec fn texts(v: Seq<String>) -> Seq<Text> {
    Seq::new(v.len(), |i: int| v[i]@)
}

/// The pieces of `s` between occurrences of `sep`. There is always at least
/// one piece; an empty text has the single empty piece, and a separator at
/// either end leaves an empty piece there.
pub open spec fn split_spec(s: Text, sep: char) -> Seq<Text>
    decreases s.len(),
{
    if s.len() == 0 {
        seq![Seq::empty()]
    } else {
        let before = split_spec(s.drop_last(), sep);
        if s.last() == sep {
            before.push(Seq::empty())
        } else {
            before.drop_last().push(before.last().push(s.last()))
        }
    }
}

/// All the pieces one after another.
pub open spec fn concat_spec(pieces: Seq<Text>) -> Text
    decreases pieces.len(),
{
    if pieces.len() == 0 {
        Seq::empty()
    } else {
        concat_spec(pieces.drop_last()) + pieces.last()
    }
}

/// The pieces one after another with `sep` between each two neighbours.
pub open spec fn join_spec(pieces: Seq<Text>, sep: Text) -> Text
    decreases pieces.len(),
{
    if pieces.len() == 0 {
        Seq::empty()
    } else if pieces.len() == 1 {
        pieces[0]
    } else {
        join_spec(pieces.drop_last(), sep) + sep + pieces.last()
    }
}

/// The capital letter of an ASCII small letter; every other character is
/// left as it is.
pub open spec fn ascii_upper(c: char) -> char {
    if 97 <= (c as u32) <= 122 {
        (((c as u32) - 32) as u8) as char
    } else {
        c
    }
}

/// What a character becomes at the head of a capitalized text: an ASCII
/// character becomes its capital letter where it is a small letter and
/// stays as it is otherwise; any other character becomes its uppercase
/// mapping.
pub open spec fn upper_first(c: char) -> Seq<char> {
    if (c as u32) < 128 {
        seq![ascii_upper(c)]
    } else {
        uppercase_of(c)
    }
}

/// `s` with its first character replaced by what [`upper_first`] makes of
/// it; the empty text stays empty.
pub open spec fn capitalize_spec(s: Text) -> Text {
    if s.len() == 0 {
        s
    } else {
        upper_first(s[0]) + s.subrange(1, s.len() as int)
    }
}

/// Each piece capitalized.
pub open spec fn capitalize_each(pieces: Seq<Text>) -> Seq<Text> {
    Seq::new(pieces.len(), |i: int| capitalize_spec(pieces[i]))
}

/// Pieces separated by `-` run together, every piece but the first
/// capitalized.
pub open spec fn kebab_to_camel_spec(s: Text) -> Text {
    let pieces = split_spec(s, '-');
    pieces[0] + concat_spec(capitalize_each(pieces.skip(1)))
}

/// Pieces separated by `-` run together, every piece capitalized.
pub open spec fn kebab_to_pascal_spec(s: Text) -> Text {
    concat_spec(capitalize_each(split_spec(s, '-')))
}

/// What splitting gives: at least one piece, no piece holds the
/// separator, and the pieces joined by the separator are the text again.
pub proof fn lemma_split(s: Text, sep: char)
    ensures
        split_spec(s, sep).len() >= 1,
        forall|i: int| 0 <= i < split_spec(s, sep).len() ==> !(#[trigger] split_spec(s, sep)[i]).contains(sep),
        join_spec(split_spec(s, sep), seq![sep]) == s,
    decreases s.len(),
{
    let pieces = split_spec(s, sep);
    if s.len() == 0 {
        assert(join_spec(pieces, seq![sep]) =~= s);
    } else {
        let front = s.drop_last();
        let before = split_spec(front, sep);
        let c = s.last();
        lemma_split(front, sep);
        assert(s =~= front.push(c));
        if c == sep {
            assert(pieces.drop_last() =~= before);
            assert(join_spec(pieces, seq![sep]) =~= s);
            assert forall|i: int| 0 <= i < pieces.len() implies !(#[trigger] pieces[i]).contains(
                sep,
            ) by {
                if i < before.len() {
                    assert(pieces[i] == before[i]);
                }
            }
        } else {
            let grown = before.last().push(c);
            assert forall|i: int| 0 <= i < pieces.len() implies !(#[trigger] pieces[i]).contains(
                sep,
            ) by {
                if i < before.len() - 1 {
                    assert(pieces[i] == before[i]);
                } else {
                    assert(pieces[i] == grown);
                    if grown.contains(sep) {
                        let k = choose|k: int| 0 <= k < grown.len() && grown[k] == sep;
                        assert(before.last()[k] == sep);
                        assert(before[before.len() - 1].contains(sep));
                    }
                }
            }
            if before.len() == 1 {
                assert(join_spec(pieces, seq![sep]) =~= s);
            } else {
                assert(pieces.drop_last() =~= before.drop_last());
                assert(join_spec(pieces, seq![sep]) =~= join_spec(before, seq![sep]).push(c));
            }
        }
    }
}

/// The characters of a string, one by one.
pub fn chars_of(s: &str) -> (v: Vec<char>)
    ensures
        v@ == s@,
{
    let mut v: Vec<char> = Vec::new();
    for c in it: s.chars()
        invariant
            it.seq() == s@,
            v@ == s@.take(it.index() as int),
    {
        v.push(c);
        assert(v@ =~= s@.take(it.index() + 1));
    }
    assert(v@ =~= s@);
    v
}

/// Whether two strings hold the same characters in the same order. The
/// strings are compared byte by byte: two texts have the same bytes exactly
/// when they have the same characters.
pub fn text_eq(a: &str, b: &str) -> (r: bool)
    ensures
        r == (a@ == b@),
{
    let x = a.as_bytes();
    let y = b.as_bytes();
    proof {
        vstd::utf8::encode_utf8_decode_utf8(a@);
        vstd::utf8::encode_utf8_decode_utf8(b@);
    }
    if x.len() != y.len() {
        return false;
    }
    let mut i: usize = 0;
    while i < x.len()
        invariant
            i <= x@.len(),
            x@.len() == y@.len(),
            x@ == vstd::utf8::encode_utf8(a@),
            y@ == vstd::utf8::encode_utf8(b@),
            forall|k: int| 0 <= k < i ==> x@[k] == y@[k],
        decreases x@.len() - i,
    {
        if x[i] != y[i] {
            return false;
        }
        i = i + 1;
    }
    assert(x@ =~= y@);
    true
}

/// Splits `s` at every occurrence of `sep`.
pub fn split(s: &str, sep: char) -> (pieces: Vec<String>)
    ensures
        texts(pieces@) == split_spec(s@, sep),
        pieces@.len() >= 1,
{
    let chars = chars_of(s);
    let mut done: Vec<String> = Vec::new();
    let mut cur: Vec<char> = Vec::new();
    let mut i: usize = 0;
    assert(s@.take(0) =~= Seq::<char>::empty());
    assert(texts(done@).push(cur@) =~= seq![Seq::<char>::empty()]);
    while i < chars.len()
        invariant
            i <= chars.len(),
            chars@ == s@,
            split_spec(s@.take(i as int), sep) == texts(done@).push(cur@),
        decreases chars.len() - i,
    {
        let c = chars[i];
        let ghost before = s@.take(i as int);
        let ghost now = s@.take(i + 1);
        assert(now.drop_last() =~= before);
        assert(now.last() == c);
        if c == sep {
            let piece = string_from_chars(&cur);
            let ghost old_done = done@;
            done.push(piece);
            cur = Vec::new();
            assert(texts(done@) =~= texts(old_done).push(piece@));
        } else {
            let ghost old_cur = cur@;
            cur.push(c);
            assert(texts(done@).push(old_cur).drop_last() =~= texts(done@));
        }
        i = i + 1;
    }
    assert(s@.take(i as int) =~= s@);
    let piece = string_from_chars(&cur);
    let ghost old_done = done@;
    done.push(piece);
    assert(texts(done@) =~= texts(old_done).push(piece@));
    done
}

/// Whether `c` occurs in `s`.
pub fn contains_char(s: &str, c: char) -> (r: bool)
    ensures
        r == s@.contains(c),
{
    let chars = chars_of(s);
    let mut i: usize = 0;
    while i < chars.len()
        invariant
            i <= chars.len(),
            chars@ == s@,
            forall|j: int| 0 <= j < i ==> s@[j] != c,
        decreases chars.len() - i,
    {
        if chars[i] == c {
            return true;
        }
        i = i + 1;
    }
    false
}

/// Whether `s` begins with `prefix`.
pub fn starts_with(s: &str, prefix: &str) -> (r: bool)
    ensures
        r == prefix@.is_prefix_of(s@),
{
    let a = chars_of(s);
    let p = chars_of(prefix);
    if p.len() > a.len() {
        return false;
    }
    let mut i: usize = 0;
    while i < p.len()
        invariant
            i <= p.len(),
            p.len() <= a.len(),
            a@ == s@,
            p@ == prefix@,
            forall|j: int| 0 <= j < i ==> a@[j] == p@[j],
        decreases p.len() - i,
    {
        if a[i] != p[i] {
            assert(prefix@[i as int] != s@.subrange(0, prefix@.len() as int)[i as int]);
            return false;
        }
        i = i + 1;
    }
    assert(prefix@ =~= s@.subrange(0, prefix@.len() as int));
    true
}

/// The pieces run together with `sep` between neighbours.
pub fn join(pieces: &Vec<String>, sep: &str) -> (r: String)
    ensures
        r@ == join_spec(texts(pieces@), sep@),
{
    let mut out = String::new();
    let mut i: usize = 0;
    assert(texts(pieces@).take(0) =~= Seq::<Text>::empty());
    while i < pieces.len()
        invariant
            i <= pieces.len(),
            out@ == join_spec(texts(pieces@).take(i as int), sep@),
        decreases pieces.len() - i,
    {
        let ghost upto = texts(pieces@).take(i + 1);
        assert(upto.drop_last() =~= texts(pieces@).take(i as int));
        assert(upto.last() == pieces@[i as int]@);
        if i > 0 {
            out.append(sep);
        } else {
            assert(out@ + pieces@[0]@ =~= pieces@[0]@);
        }
        out.append(pieces[i].as_str());
        i = i + 1;
    }
    assert(texts(pieces@).take(i as int) =~= texts(pieces@));
    out
}

/// The pieces run together.
pub fn concat_all(pieces: &Vec<String>) -> (r: String)
    ensures
        r@ == concat_spec(texts(pieces@)),
{
    let mut out = String::new();
    let mut i: usize = 0;
    assert(texts(pieces@).take(0) =~= Seq::<Text>::empty());
    while i < pieces.len()
        invariant
            i <= pieces.len(),
            out@ == concat_spec(texts(pieces@).take(i as int)),
        decreases pieces.len() - i,
    {
        let ghost upto = texts(pieces@).take(i + 1);
        assert(upto.drop_last() =~= texts(pieces@).take(i as int));
        assert(upto.last() == pieces@[i as int]@);
        out.append(pieces[i].as_str());
        i = i + 1;
    }
    assert(texts(pieces@).take(i as int) =~= texts(pieces@));
    out
}

/// `s` with `head` in place of its first character; the empty text stays
/// empty.
pub fn with_head(s: &str, head: &str) -> (r: String)
    ensures
        r@ == if s@.len() == 0 {
            Seq::<char>::empty()
        } else {
            head@ + s@.subrange(1, s@.len() as int)
        },
{
    let n = s.unicode_len();
    if n == 0 {
        String::new()
    } else {
        let mut out = String::from_str(head);
        out.append(s.substring_char(1, n));
        out
    }
}

/// What a character becomes at the head of a capitalized text.
pub fn upper_head(c: char) -> (r: String)
    ensures
        r@ == upper_first(c),
{
    let u = c as u32;
    if u < 128 {
        let capital = if 97 <= u && u <= 122 {
            ((u - 32) as u8) as char
        } else {
            c
        };
        let mut one: Vec<char> = Vec::new();
        one.push(capital);
        assert(one@ =~= seq![ascii_upper(c)]);
        string_from_chars(&one)
    } else {
        char_uppercase(c)
    }
}

/// Uppercases the first character of `s`.
pub fn capitalize(s: &str) -> (r: String)
    ensures
        r@ == capitalize_spec(s@),
{
    let n = s.unicode_len();
    if n == 0 {
        String::new()
    } else {
        let head = upper_head(s.get_char(0));
        with_head(s, head.as_str())
    }
}

/// Each piece capitalized.
pub fn capitalize_all(pieces: &Vec<String>, from: usize) -> (r: Vec<String>)
    requires
        from <= pieces.len(),
    ensures
        texts(r@) == capitalize_each(texts(pieces@).skip(from as int)),
{
    let mut out: Vec<String> = Vec::new();
    let mut i: usize = from;
    while i < pieces.len()
        invariant
            from <= i <= pieces.len(),
            out@.len() == i - from,
            forall|j: int| 0 <= j < out@.len() ==> out@[j]@ == capitalize_spec(pieces@[from + j]@),
        decreases pieces.len() - i,
    {
        out.push(capitalize(pieces[i].as_str()));
        i = i + 1;
    }
    assert(texts(out@) =~= capitalize_each(texts(pieces@).skip(from as int)));
    out
}

/// Turns `kebab-case` into `camelCase`: the pieces between `-` run together,
/// each but the first capitalized.
pub fn kebab_to_camel(item: &str) -> (r: String)
    ensures
        r@ == kebab_to_camel_spec(item@),
{
    let pieces = split(item, '-');
    let rest = capitalize_all(&pieces, 1);
    let mut out = pieces[0].clone();
    let tail = concat_all(&rest);
    out.append(tail.as_str());
    out
}

/// Turns `kebab-case` into `PascalCase`: the pieces between `-` run
/// together, each capitalized.
pub fn kebab_to_pascal(item: &str) -> (r: String)
    ensures
        r@ == kebab_to_pascal_spec(item@),
{
    let pieces = split(item, '-');
    let all = capitalize_all(&pieces, 0);
    assert(texts(pieces@).skip(0) =~= texts(pieces@));
    concat_all(&all)
}

} // verus!
