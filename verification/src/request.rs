//! What the connection layer computes from a request before it hands a job
//! to the pool: the requested path, the page that answers it and the text of
//! the reply.

use vstd::prelude::*;
use vstd::string::StringExecFns;
use vstd::slice::slice_subrange;
use vstd::utf8::{decode_utf8, valid_utf8};

verus! {

/// Whether `needle` stands in `hay` at index `at`.
pub open spec fn occurs_at(hay: Seq<u8>, needle: Seq<u8>, at: int) -> bool {
    &&& 0 <= at
    &&& at + needle.len() <= hay.len()
    &&& hay.subrange(at, at + needle.len()) == needle
}

/// Whether `at` is the first index from `from` on at which `needle` stands
/// in `hay`.
pub open spec fn is_first_occurrence(hay: Seq<u8>, needle: Seq<u8>, from: int, at: int) -> bool {
    &&& from <= at
    &&& occurs_at(hay, needle, at)
    &&& forall|earlier: int| from <= earlier < at ==> !occurs_at(hay, needle, earlier)
}

/// The first index from `from` on at which `needle` stands in `hay`, if it
/// stands anywhere from there on.
pub open spec fn first_occurrence(hay: Seq<u8>, needle: Seq<u8>, from: int) -> Option<int> {
    if exists|at: int| is_first_occurrence(hay, needle, from, at) {
        Some(choose|at: int| is_first_occurrence(hay, needle, from, at))
    } else {
        None
    }
}

/// What `first_occurrence` names is a first occurrence.
pub proof fn lemma_first_occurrence_is_first(hay: Seq<u8>, needle: Seq<u8>, from: int)
    ensures
        first_occurrence(hay, needle, from) matches Some(at) ==> is_first_occurrence(
            hay,
            needle,
            from,
            at,
        ),
{
}

/// A first occurrence is the only first occurrence, so it is the one that
/// `first_occurrence` names.
pub proof fn lemma_first_occurrence_found(hay: Seq<u8>, needle: Seq<u8>, from: int, at: int)
    requires
        is_first_occurrence(hay, needle, from, at),
    ensures
        first_occurrence(hay, needle, from) == Some(at),
{
    let chosen = choose|other: int| is_first_occurrence(hay, needle, from, other);
    assert(is_first_occurrence(hay, needle, from, chosen));
    if chosen < at {
        assert(!occurs_at(hay, needle, chosen));
    }
    if at < chosen {
        assert(!occurs_at(hay, needle, at));
    }
}

/// Where nothing occurs from `from` on, `first_occurrence` names nothing.
pub proof fn lemma_first_occurrence_absent(hay: Seq<u8>, needle: Seq<u8>, from: int)
    requires
        forall|at: int| from <= at ==> !occurs_at(hay, needle, at),
    ensures
        first_occurrence(hay, needle, from) is None,
{
}

/// Whether `needle` stands in `hay` at index `at`.
fn matches_at(hay: &[u8], needle: &[u8], at: usize) -> (found: bool)
    requires
        at + needle@.len() <= hay@.len(),
    ensures
        found == occurs_at(hay@, needle@, at as int),
{
    let mut k: usize = 0;
    while k < needle.len()
        invariant
            k <= needle.len(),
            at + needle.len() <= hay.len(),
            forall|i: int| 0 <= i < k ==> hay@[at + i] == needle@[i],
        decreases needle.len() - k,
    {
        if hay[at + k] != needle[k] {
            proof {
                let window = hay@.subrange(at as int, at + needle@.len());
                assert(window[k as int] == hay@[at + k]);
            }
            return false;
        }
        k += 1;
    }
    assert(hay@.subrange(at as int, at + needle@.len()) =~= needle@);
    true
}

/// Searches `hay` from index `from` on for the first place at which
/// `needle` stands.
pub fn find(hay: &[u8], needle: &[u8], from: usize) -> (found: Option<usize>)
    ensures
        match found {
            Some(at) => first_occurrence(hay@, needle@, from as int) == Some(at as int),
            None => first_occurrence(hay@, needle@, from as int) is None,
        },
{
    if needle.len() > hay.len() || from > hay.len() - needle.len() {
        proof {
            lemma_first_occurrence_absent(hay@, needle@, from as int);
        }
        return None;
    }
    let last: usize = hay.len() - needle.len();
    let mut at: usize = from;
    loop
        invariant
            from <= at <= last,
            last == hay.len() - needle.len(),
            forall|earlier: int| from <= earlier < at ==> !occurs_at(hay@, needle@, earlier),
        decreases last - at,
    {
        if matches_at(hay, needle, at) {
            proof {
                lemma_first_occurrence_found(hay@, needle@, from as int, at as int);
            }
            return Some(at);
        }
        if at == last {
            proof {
                lemma_first_occurrence_absent(hay@, needle@, from as int);
            }
            return None;
        }
        at += 1;
    }
}

/// The bytes of `"GET "`, which stand before the path.
pub open spec fn method_marker() -> Seq<u8> {
    seq![71u8, 69u8, 84u8, 32u8]
}

/// The bytes of `" HTTP/1.1"`, which stand behind the path.
pub open spec fn version_marker() -> Seq<u8> {
    seq![32u8, 72u8, 84u8, 84u8, 80u8, 47u8, 49u8, 46u8, 49u8]
}

/// Where the path lies in `request`: from the end of the first
/// `method_marker` to the start of the first `version_marker` behind it.
/// `None` where either marker is missing.
pub open spec fn path_span(request: Seq<u8>) -> Option<(int, int)> {
    match first_occurrence(request, method_marker(), 0) {
        Some(start) => {
            let from = start + method_marker().len();
            match first_occurrence(request, version_marker(), from) {
                Some(to) => Some((from, to)),
                None => None,
            }
        },
        None => None,
    }
}

/// The text that `String::from_utf8_lossy` makes of `bytes`: their decoding
/// as UTF-8, with U+FFFD in place of each ill-formed part.
pub uninterp spec fn lossy_text(bytes: Seq<u8>) -> Seq<char>;

/// The path that a request asks for: the text between its markers, and `/`
/// where the markers are not found.
pub open spec fn requested_path(request: Seq<u8>) -> Seq<char> {
    match path_span(request) {
        Some((from, to)) => lossy_text(request.subrange(from, to)),
        None => seq!['/'],
    }
}

/// Calls `String::from_utf8_lossy` and takes the result as an owned string.
/// Believed, not proved: the result depends on the bytes alone, and
/// well-formed UTF-8 is decoded as it stands.
#[verifier::external_body]
fn decode_lossy(bytes: &[u8]) -> (text: String)
    ensures
        text@ == lossy_text(bytes@),
        valid_utf8(bytes@) ==> text@ == decode_utf8(bytes@),
{
    String::from_utf8_lossy(bytes).into_owned()
}

/// Extracts the requested path from the bytes of a request.
pub fn parse_path(buffer: &[u8]) -> (path: String)
    ensures
        path@ == requested_path(buffer@),
        path_span(buffer@) matches Some((from, to)) ==> (valid_utf8(buffer@.subrange(from, to))
            ==> path@ == decode_utf8(buffer@.subrange(from, to))),
{
    let method: [u8; 4] = [71u8, 69u8, 84u8, 32u8];
    let version: [u8; 9] = [32u8, 72u8, 84u8, 84u8, 80u8, 47u8, 49u8, 46u8, 49u8];
    assert(method@ =~= method_marker());
    assert(version@ =~= version_marker());
    if let Some(start) = find(buffer, method.as_slice(), 0) {
        proof {
            lemma_first_occurrence_is_first(buffer@, method_marker(), 0);
            assert(start + method_marker().len() <= buffer.len());
        }
        if let Some(end) = find(buffer, version.as_slice(), start + 4) {
            proof {
                lemma_first_occurrence_is_first(buffer@, version_marker(), start + 4);
            }
            return decode_lossy(slice_subrange(buffer, start + 4, end));
        }
    }
    let root = "/";
    proof {
        reveal_strlit("/");
        assert(root@ =~= seq!['/']);
    }
    root.to_owned()
}

/// The request `"GET "`, `path`, `" HTTP/1.1"` asks for the decoding of
/// `path`, whatever follows it, provided that `path` holds neither marker
/// and ends in no part of the second one.
pub proof fn lemma_plain_request_asks_for_its_path(path: Seq<u8>, rest: Seq<u8>)
    requires
        forall|at: int| !occurs_at(method_marker() + path + version_marker(), version_marker(), at)
            || at == method_marker().len() + path.len(),
    ensures
        path_span(method_marker() + path + version_marker() + rest) == Some(
            (method_marker().len() as int, (method_marker().len() + path.len()) as int),
        ),
        requested_path(method_marker() + path + version_marker() + rest) == lossy_text(path),
{
    let head = method_marker() + path + version_marker();
    let request = head + rest;
    let from = method_marker().len() as int;
    let to = from + path.len();
    assert(request.subrange(0, from) =~= method_marker());
    assert(is_first_occurrence(request, method_marker(), 0, 0));
    lemma_first_occurrence_found(request, method_marker(), 0, 0);
    assert(request.subrange(to, to + version_marker().len()) =~= version_marker());
    assert forall|earlier: int| from <= earlier < to implies !occurs_at(
        request,
        version_marker(),
        earlier,
    ) by {
        if occurs_at(request, version_marker(), earlier) {
            assert(head.subrange(earlier, earlier + version_marker().len()) =~= request.subrange(
                earlier,
                earlier + version_marker().len(),
            ));
            assert(occurs_at(head, version_marker(), earlier));
        }
    }
    lemma_first_occurrence_found(request, version_marker(), from, to);
    assert(request.subrange(from, to) =~= path);
}

/// The pages that the server knows.
#[derive(Clone, Copy, Debug, PartialEq, Eq, Structural)]
pub enum Page {
    /// The page at `/`.
    Hello,
    /// The page at `/about`.
    About,
    /// The page sent for every other path.
    NotFound,
}

/// The page that answers `path`: the two known paths have a page each, and
/// every other path has `Page::NotFound`.
pub open spec fn page_for(path: Seq<char>) -> Page {
    if path == seq!['/'] {
        Page::Hello
    } else if path == seq!['/', 'a', 'b', 'o', 'u', 't'] {
        Page::About
    } else {
        Page::NotFound
    }
}

impl Page {
    /// The status line that is sent before the page's contents.
    pub open spec fn status_text(self) -> Seq<char> {
        match self {
            Page::Hello | Page::About => "HTTP/1.1 200 OK\r\n\r\n"@,
            Page::NotFound => "HTTP/1.1 404 NOT FOUND\r\n\r\n"@,
        }
    }

    /// The file that holds the page's contents.
    pub open spec fn file_text(self) -> Seq<char> {
        match self {
            Page::Hello => "static/hello.html"@,
            Page::About => "static/about.html"@,
            Page::NotFound => "static/404.html"@,
        }
    }

    /// The status line that is sent before the page's contents.
    pub fn status_line(self) -> (line: &'static str)
        ensures
            line@ == self.status_text(),
    {
        match self {
            Page::Hello | Page::About => "HTTP/1.1 200 OK\r\n\r\n",
            Page::NotFound => "HTTP/1.1 404 NOT FOUND\r\n\r\n",
        }
    }

    /// The file that holds the page's contents.
    pub fn file_name(self) -> (name: &'static str)
        ensures
            name@ == self.file_text(),
    {
        match self {
            Page::Hello => "static/hello.html",
            Page::About => "static/about.html",
            Page::NotFound => "static/404.html",
        }
    }

    /// The reply for this page: its status line followed by `contents`.
    pub fn response(self, contents: &str) -> (reply: String)
        ensures
            reply@ == self.status_text() + contents@,
    {
        let mut reply = self.status_line().to_owned();
        reply.append(contents);
        reply
    }
}

/// Whether two strings hold the same text.
fn same_text(a: &str, b: &str) -> (same: bool)
    ensures
        same == (a@ == b@),
{
    let left = a.as_bytes();
    let right = b.as_bytes();
    proof {
        vstd::utf8::encode_utf8_decode_utf8(a@);
        vstd::utf8::encode_utf8_decode_utf8(b@);
    }
    if left.len() != right.len() {
        return false;
    }
    let mut i: usize = 0;
    while i < left.len()
        invariant
            i <= left.len(),
            left.len() == right.len(),
            a@ == b@ ==> left@ == right@,
            forall|k: int| 0 <= k < i ==> left@[k] == right@[k],
        decreases left.len() - i,
    {
        if left[i] != right[i] {
            return false;
        }
        i += 1;
    }
    assert(left@ =~= right@);
    true
}

/// Chooses the page that answers `path`.
pub fn route(path: &str) -> (page: Page)
    ensures
        page == page_for(path@),
{
    proof {
        reveal_strlit("/");
        reveal_strlit("/about");
        assert("/"@ =~= seq!['/']);
        assert("/about"@ =~= seq!['/', 'a', 'b', 'o', 'u', 't']);
    }
    if same_text(path, "/") {
        Page::Hello
    } else if same_text(path, "/about") {
        Page::About
    } else {
        Page::NotFound
    }
}

/// Every path but the two known ones is answered by `Page::NotFound`.
pub proof fn lemma_unknown_paths_are_not_found(path: Seq<char>)
    requires
        path != seq!['/'],
        path != seq!['/', 'a', 'b', 'o', 'u', 't'],
    ensures
        page_for(path) == Page::NotFound,
        page_for(path).status_text() == "HTTP/1.1 404 NOT FOUND\r\n\r\n"@,
        page_for(path).file_text() == "static/404.html"@,
{
}

/// Chooses the page that answers the request in `buffer`.
pub fn resolve(buffer: &[u8]) -> (page: Page)
    ensures
        page == page_for(requested_path(buffer@)),
{
    let path = parse_path(buffer);
    route(path.as_str())
}

} // verus!
