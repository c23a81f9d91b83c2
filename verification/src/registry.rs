//! The protocol of the registry: what is asked of it, and how its answers
//! are read. Sending and receiving is left to whoever holds the connection.

use vstd::prelude::*;
use vstd::string::StringExecFns;
use crate::text::{chars_of, texts, Text};
use crate::value::Value;

verus! {

/// The request for the list of namespaces.
pub open spec fn namespaces_request_spec() -> Text {
    "{:method aidbox.zen/namespaces :params {}}"@
}

/// The request for the symbols of the namespace `ns`.
pub open spec fn symbols_request_spec(ns: Text) -> Text {
    "{:method aidbox.zen/symbols :params {:ns "@ + ns + "}}"@
}

/// The request for the definition of `symbol`.
pub open spec fn symbol_request_spec(symbol: Text) -> Text {
    "{:method aidbox.zen/symbol :params { :name "@ + symbol + "}}"@
}

/// The query for the codes of the value-set with the given URI, the URI
/// written as JSON.
pub open spec fn concept_query_spec(uri: Text) -> Text {
    "select resource->'code' as code  from concept where resource->'valueset' @> '"@ + uri
        + "'"@
}

/// The path of the file that holds `item` of the cache in `dir`.
pub open spec fn cache_file_spec(dir: Text, item: Text) -> Text {
    dir + "/"@ + item + ".json"@
}

/// The request for the list of namespaces.
pub fn namespaces_request() -> (r: String)
    ensures
        r@ == namespaces_request_spec(),
{
    String::from_str("{:method aidbox.zen/namespaces :params {}}")
}

/// The request for the symbols of the namespace `ns`.
pub fn symbols_request(ns: &str) -> (r: String)
    ensures
        r@ == symbols_request_spec(ns@),
{
    let mut out = String::from_str("{:method aidbox.zen/symbols :params {:ns ");
    out.append(ns);
    out.append("}}");
    out
}

/// The request for the definition of `symbol`.
pub fn symbol_request(symbol: &str) -> (r: String)
    ensures
        r@ == symbol_request_spec(symbol@),
{
    let mut out = String::from_str("{:method aidbox.zen/symbol :params { :name ");
    out.append(symbol);
    out.append("}}");
    out
}

/// The query for the codes of the value-set with the given URI, the URI
/// written as JSON.
pub fn concept_query(uri: &str) -> (r: String)
    ensures
        r@ == concept_query_spec(uri@),
{
    let mut out = String::from_str(
        "select resource->'code' as code  from concept where resource->'valueset' @> '",
    );
    out.append(uri);
    out.append("'");
    out
}

/// The path of the file that holds `item` of the cache in `dir`.
pub fn cache_file(dir: &str, item: &str) -> (r: String)
    ensures
        r@ == cache_file_spec(dir@, item@),
{
    let mut out = String::from_str(dir);
    out.append("/");
    out.append(item);
    out.append(".json");
    out
}

/// Whether `needle` occurs in `haystack` as a run of characters.
pub open spec fn occurs_in(needle: Text, haystack: Text) -> bool {
    exists|i: int|
        0 <= i && i + needle.len() <= haystack.len() && #[trigger] haystack.subrange(
            i,
            i + needle.len(),
        ) == needle
}

/// Whether `needle` occurs in `haystack`.
pub fn contains_str(haystack: &str, needle: &str) -> (r: bool)
    ensures
        r == occurs_in(needle@, haystack@),
{
    let h = chars_of(haystack);
    let n = chars_of(needle);
    if n.len() > h.len() {
        return false;
    }
    let last = h.len() - n.len();
    let mut i: usize = 0;
    while i <= last
        invariant
            i <= last + 1,
            last == h.len() - n.len(),
            n.len() <= h.len(),
            h@ == haystack@,
            n@ == needle@,
            forall|k: int| 0 <= k < i ==> #[trigger] h@.subrange(k, k + n@.len()) != n@,
        decreases last + 1 - i,
    {
        let mut j: usize = 0;
        while j < n.len() && h[i + j] == n[j]
            invariant
                j <= n.len(),
                i <= last,
                last == h.len() - n.len(),
                n.len() <= h.len(),
                forall|k: int| 0 <= k < j ==> h@[i + k] == n@[k],
            decreases n.len() - j,
        {
            j = j + 1;
        }
        if j == n.len() {
            assert(h@.subrange(i as int, i + n@.len()) =~= n@);
            return true;
        }
        assert(h@.subrange(i as int, i + n@.len())[j as int] != n@[j as int]);
        i = i + 1;
    }
    false
}

/// Whether an answer of the registry reports a failed operation.
pub fn is_operation_outcome(answer: &str) -> (r: bool)
    ensures
        r == occurs_in("OperationOutcome"@, answer@),
{
    contains_str(answer, "OperationOutcome")
}

/// What is wrong with an answer by its HTTP status, if anything: `401`
/// means that the credentials were refused, `403` that the access policy
/// does not admit the client.
pub open spec fn access_error_spec(status: u16, client: Text) -> Option<Text> {
    if status == 401 {
        Some("Access denied. Please check you credentials"@)
    } else if status == 403 {
        Some("Please check Access Policy for client '"@ + client + "'"@)
    } else {
        None
    }
}

/// Reads the HTTP status of an answer.
pub fn access_error(status: u16, client: &str) -> (r: Option<String>)
    ensures
        crate::schema::opt_text(r) == access_error_spec(status, client@),
{
    if status == 401 {
        Some(String::from_str("Access denied. Please check you credentials"))
    } else if status == 403 {
        let mut out = String::from_str("Please check Access Policy for client '");
        out.append(client);
        out.append("'");
        Some(out)
    } else {
        None
    }
}

/// The codes among the rows of an answer: the text under `code` of each row
/// that has one. None where a code is no text.
pub open spec fn row_codes(rows: Seq<Value>) -> Option<Seq<Text>>
    decreases rows.len(),
{
    if rows.len() == 0 {
        Some(Seq::empty())
    } else {
        match row_codes(rows.drop_last()) {
            None => None,
            Some(front) => match rows.last().member("code"@) {
                None => Some(front),
                Some(c) => match c.text() {
                    Some(t) => Some(front.push(t)),
                    None => None,
                },
            },
        }
    }
}

/// The codes that the answer to a concept query holds: those of the rows
/// of its first result, none where that has no rows. None where the answer
/// is not of this shape.
pub open spec fn concept_codes_spec(answer: Value) -> Option<Seq<Text>> {
    match answer.items() {
        None => None,
        Some(results) => if results.len() == 0 {
            None
        } else {
            match results[0].member("result"@) {
                None => Some(Seq::empty()),
                Some(r) => match r.items() {
                    None => None,
                    Some(rows) => row_codes(rows),
                },
            }
        },
    }
}

/// Once a row of a prefix has a code that is no text, the rows give no
/// codes.
pub proof fn lemma_row_codes_stop(rows: Seq<Value>, n: int)
    requires
        0 <= n <= rows.len(),
        row_codes(rows.take(n)) is None,
    ensures
        row_codes(rows) is None,
    decreases rows.len() - n,
{
    if n < rows.len() {
        let next = rows.take(n + 1);
        assert(next.drop_last() =~= rows.take(n));
        lemma_row_codes_stop(rows, n + 1);
    } else {
        assert(rows.take(n) =~= rows);
    }
}

/// Reads the codes out of the answer to a concept query.
pub fn concept_codes(answer: &Value) -> (r: Option<Vec<String>>)
    ensures
        crate::schema::opt_texts(r) == concept_codes_spec(*answer),
{
    let results = match answer.as_array() {
        None => {
            return None;
        },
        Some(r) => r,
    };
    if results.len() == 0 {
        return None;
    }
    let mut out: Vec<String> = Vec::new();
    assert(texts(out@) =~= Seq::<Text>::empty());
    let rows = match results[0].get("result") {
        None => {
            return Some(out);
        },
        Some(r) => match r.as_array() {
            None => {
                return None;
            },
            Some(rows) => rows,
        },
    };
    let mut i: usize = 0;
    assert(rows@.take(0) =~= Seq::<Value>::empty());
    while i < rows.len()
        invariant
            i <= rows.len(),
            concept_codes_spec(*answer) == row_codes(rows@),
            row_codes(rows@.take(i as int)) == Some(texts(out@)),
        decreases rows.len() - i,
    {
        let ghost upto = rows@.take(i + 1);
        assert(upto.drop_last() =~= rows@.take(i as int));
        assert(upto.last() == rows@[i as int]);
        match rows[i].get("code") {
            None => {},
            Some(c) => match c.as_str() {
                Some(t) => {
                    let ghost before = out@;
                    out.push(String::from_str(t));
                    assert(texts(out@) =~= texts(before).push(t@));
                },
                None => {
                    proof {
                        assert(row_codes(upto) is None);
                        lemma_row_codes_stop(rows@, i + 1);
                    }
                    return None;
                },
            },
        }
        i = i + 1;
    }
    assert(rows@.take(i as int) =~= rows@);
    Some(out)
}

} // verus!
