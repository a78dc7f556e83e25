//! Path identifiers and the service name they route to.
//!
//! A path identifier has the shape `/<service-name>/<method-name>`. Routing
//! reads the service name only: the text between the first and the second
//! `/` (or the end of the path).

use tonic::codegen::http::uri::PathAndQuery;
use vstd::prelude::*;
use vstd::std_specs::iter::IteratorSpec;
use vstd::string::*;

verus! {

/// The position of the first `/` of `s` at or after `from`, or the length
/// of `s` where there is none.
pub open spec fn segment_end(s: Seq<char>, from: int) -> int
    decreases s.len() - from,
{
    if from < 0 || from >= s.len() {
        s.len() as int
    } else if s[from] == '/' {
        from
    } else {
        segment_end(s, from + 1)
    }
}

/// The service name of a path: the second of the pieces that the path falls
/// into when it is cut at every `/`. A path without a `/` has none.
pub open spec fn spec_service_name(path: Seq<char>) -> Option<Seq<char>> {
    let first = segment_end(path, 0);
    if first >= path.len() {
        None
    } else {
        Some(path.subrange(first + 1, segment_end(path, first + 1)))
    }
}

/// `segment_end` is the least position at or after `from` that holds a `/`,
/// capped by the length.
pub proof fn lemma_segment_end(s: Seq<char>, from: int)
    requires
        0 <= from <= s.len(),
    ensures
        from <= segment_end(s, from) <= s.len(),
        segment_end(s, from) < s.len() ==> s[segment_end(s, from)] == '/',
        forall|k: int| from <= k < segment_end(s, from) ==> s[k] != '/',
    decreases s.len() - from,
{
    if from < s.len() && s[from] != '/' {
        lemma_segment_end(s, from + 1);
    }
}

/// A position `end` that holds the first `/` at or after `from`, or is the
/// length of a text with no `/` from `from` on, is `segment_end(s, from)`.
pub proof fn lemma_segment_end_unique(s: Seq<char>, from: int, end: int)
    requires
        0 <= from <= end <= s.len(),
        end < s.len() ==> s[end] == '/',
        forall|k: int| from <= k < end ==> s[k] != '/',
    ensures
        segment_end(s, from) == end,
    decreases end - from,
{
    if from < end {
        lemma_segment_end_unique(s, from + 1, end);
    }
}

/// The path of `method` of `service`: `/<service>/<method>`.
pub open spec fn route_text(service: Seq<char>, method: Seq<char>) -> Seq<char> {
    seq!['/'] + service + seq!['/'] + method
}

/// The service name of `/<service>/<method>` is `service`, whatever the
/// method is.
pub proof fn lemma_service_name_of_route(service: Seq<char>, method: Seq<char>)
    requires
        forall|i: int| 0 <= i < service.len() ==> service[i] != '/',
    ensures
        spec_service_name(route_text(service, method)) == Some(service),
{
    let path = route_text(service, method);
    assert(path[0] == '/');
    assert(segment_end(path, 0) == 0);
    let second: int = service.len() as int + 1;
    assert(path[second] == '/');
    assert forall|k: int| 1 <= k < second implies path[k] != '/' by {
        assert(path[k] == service[k - 1]);
    }
    lemma_segment_end_unique(path, 1, second);
    assert(path.subrange(1, second) =~= service);
}

/// The service name of `/<service>`, a path without a method, is `service`.
pub proof fn lemma_service_name_without_method(service: Seq<char>)
    requires
        forall|i: int| 0 <= i < service.len() ==> service[i] != '/',
    ensures
        spec_service_name(seq!['/'] + service) == Some(service),
{
    let path = seq!['/'] + service;
    assert(path[0] == '/');
    assert(segment_end(path, 0) == 0);
    assert forall|k: int| 1 <= k < path.len() implies path[k] != '/' by {
        assert(path[k] == service[k - 1]);
    }
    lemma_segment_end_unique(path, 1, path.len() as int);
    assert(path.subrange(1, path.len() as int) =~= service);
}

/// The text that a path identifier holds as its path component.
pub uninterp spec fn path_text(path: PathAndQuery) -> Seq<char>;

/// Outside type: the path identifier that arrives with every call.
#[verifier::external_type_specification]
#[verifier::external_body]
pub struct ExPathAndQuery(PathAndQuery);

/// Trusted: `PathAndQuery::path`, the path component without the query.
/// The contract only gives the returned text its name, `path_text`.
#[verifier::external_body]
fn path_of(path: &PathAndQuery) -> (text: &str)
    ensures
        text@ == path_text(*path),
{
    path.path()
}

/// The service name that `path` routes to, if it has one. One pass over the
/// characters up to the second `/`.
pub fn service_name<'a>(path: &'a str) -> (name: Option<&'a str>)
    ensures
        name is Some <==> spec_service_name(path@) is Some,
        name matches Some(n) ==> spec_service_name(path@) == Some(n@),
{
    broadcast use {vstd::string::next_postcondition, vstd::string::axiom_spec_iter};

    let len: usize = path.unicode_len();
    let mut chars = path.chars();
    let mut i: usize = 0;
    // Positions of the first and the second `/`; `len` while not found.
    let mut first: usize = len;
    let mut second: usize = len;
    let mut done: bool = false;
    while !done
        invariant
            len == path@.len(),
            i <= len,
            chars.remaining() == path@.subrange(i as int, len as int),
            first <= len,
            first == len ==> forall|k: int| 0 <= k < i ==> path@[k] != '/',
            first < len ==> first < i && path@[first as int] == '/'
                && (forall|k: int| 0 <= k < first ==> path@[k] != '/')
                && (forall|k: int| first < k < i && k != second ==> path@[k] != '/'),
            second == len || (done && first < second && second < i && path@[second as int] == '/'),
            done ==> i == len || second < i,
        decreases len - i, if done { 0int } else { 1int },
    {
        match chars.next() {
            None => {
                done = true;
            },
            Some(c) => {
                if c == '/' {
                    if first == len {
                        first = i;
                    } else {
                        second = i;
                        done = true;
                    }
                }
                i = i + 1;
            },
        }
    }
    if first >= len {
        proof {
            lemma_segment_end_unique(path@, 0, len as int);
        }
        return None;
    }
    proof {
        lemma_segment_end_unique(path@, 0, first as int);
        lemma_segment_end_unique(path@, first as int + 1, second as int);
    }
    Some(path.substring_char(first + 1, second))
}

/// The service name that a path identifier routes to, if it has one.
pub fn service_of<'a>(path: &'a PathAndQuery) -> (name: Option<&'a str>)
    ensures
        name is Some <==> spec_service_name(path_text(*path)) is Some,
        name matches Some(n) ==> spec_service_name(path_text(*path)) == Some(n@),
{
    service_name(path_of(path))
}

} // verus!
