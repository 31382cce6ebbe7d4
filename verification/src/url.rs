//! The endpoint string `scheme://host[:port][/path][?query][#fragment]`.

use crate::errors::ScError;
use crate::text::{
    chars_of, copy_range, equal, find, find_in, lemma_find_none, lemma_split_once_char,
    lemma_split_once_joined, occurs, parse_number, parse_unsigned, split_around, split_once,
    string_of,
};
use vstd::prelude::*;
use vstd::slice::slice_subrange;

verus! {

/// A parsed endpoint. After a successful `from_url` the scheme and the host
/// are not empty; the host keeps its `:port` where the string had one.
#[derive(Debug)]
pub struct WebSocketUrl {
    pub scheme: String,
    pub host: String,
    pub path: Option<String>,
    pub query: Option<String>,
    pub fragment: Option<String>,
}

/// The mathematical value of an endpoint.
#[verifier::ext_equal]
pub struct UrlView {
    pub scheme: Seq<char>,
    pub host: Seq<char>,
    pub path: Option<Seq<char>>,
    pub query: Option<Seq<char>>,
    pub fragment: Option<Seq<char>>,
}

/// The text of an optional string.
pub open spec fn optional_text(text: Option<String>) -> Option<Seq<char>> {
    match text {
        Some(t) => Some(t@),
        None => None,
    }
}

impl View for WebSocketUrl {
    type V = UrlView;

    open spec fn view(&self) -> UrlView {
        UrlView {
            scheme: self.scheme@,
            host: self.host@,
            path: optional_text(self.path),
            query: optional_text(self.query),
            fragment: optional_text(self.fragment),
        }
    }
}

/// The text `://` that ends the scheme.
pub open spec fn scheme_separator() -> Seq<char> {
    seq![':', '/', '/']
}

/// Path, query and fragment, read from what follows the host's `/`. The
/// text is cut at its first `?`, and what follows that at its first `#`. The
/// first empty component ends the reading: it and all that would follow are
/// absent. Without a `?` the whole text is the path; without a `#` all after
/// the `?` is the query.
pub open spec fn tail_parts(tail: Seq<char>) -> (
    Option<Seq<char>>,
    Option<Seq<char>>,
    Option<Seq<char>>,
) {
    if tail.len() == 0 {
        (None, None, None)
    } else {
        match split_once(tail, seq!['?']) {
            None => (Some(tail), None, None),
            Some((path, rest)) => if path.len() == 0 {
                (None, None, None)
            } else if rest.len() == 0 {
                (Some(path), None, None)
            } else {
                match split_once(rest, seq!['#']) {
                    None => (Some(path), Some(rest), None),
                    Some((query, fragment)) => if query.len() == 0 {
                        (Some(path), None, None)
                    } else if fragment.len() == 0 {
                        (Some(path), Some(query), None)
                    } else {
                        (Some(path), Some(query), Some(fragment))
                    },
                }
            },
        }
    }
}

/// What an endpoint string parses to. The scheme is the text before the
/// first `://`; the host is what follows up to the first `/`, or all of it
/// where there is no `/`. A string without `://`, with an empty scheme or
/// with an empty host is no endpoint.
pub open spec fn parsed_url(url: Seq<char>) -> Result<UrlView, ScError> {
    match split_once(url, scheme_separator()) {
        None => Err(ScError::InvalidUrl),
        Some((scheme, rest)) => {
            let (host, tail) = match split_once(rest, seq!['/']) {
                Some((host, tail)) => (host, tail),
                None => (rest, Seq::empty()),
            };
            if scheme.len() == 0 || host.len() == 0 {
                Err(ScError::InvalidUrl)
            } else {
                Ok(
                    UrlView {
                        scheme,
                        host,
                        path: tail_parts(tail).0,
                        query: tail_parts(tail).1,
                        fragment: tail_parts(tail).2,
                    },
                )
            }
        },
    }
}

/// The host without its `:port`.
pub open spec fn host_name_of(host: Seq<char>) -> Seq<char> {
    match find(host, seq![':']) {
        Some(colon) => host.take(colon),
        None => host,
    }
}

/// The port to connect to: the number after the host's first `:` where
/// there is one, else 80 for `ws` and 443 for `wss`.
pub open spec fn port_of(scheme: Seq<char>, host: Seq<char>) -> Result<u16, Seq<char>> {
    match find(host, seq![':']) {
        Some(colon) => match parse_unsigned(host.skip(colon + 1), 65535) {
            Some(port) => Ok(port as u16),
            None => Err("Invalid port"@),
        },
        None => if scheme == seq!['w', 's'] {
            Ok(80u16)
        } else if scheme == seq!['w', 's', 's'] {
            Ok(443u16)
        } else {
            Err("Invalid scheme"@)
        },
    }
}

/// The request target: the path behind a `/`, which is not doubled where
/// the path brings its own, then `?` and the query where there is one.
pub open spec fn resource_name_of(path: Option<Seq<char>>, query: Option<Seq<char>>) -> Seq<char> {
    let base = match path {
        Some(p) => if p.len() > 0 && p[0] == '/' {
            p
        } else {
            seq!['/'] + p
        },
        None => Seq::empty(),
    };
    match query {
        Some(q) => base + seq!['?'] + q,
        None => base,
    }
}

/// The endpoint string written from its five parts.
pub open spec fn url_text(
    scheme: Seq<char>,
    host: Seq<char>,
    path: Seq<char>,
    query: Seq<char>,
    fragment: Seq<char>,
) -> Seq<char> {
    scheme + scheme_separator() + (host + seq!['/'] + (path + seq!['?'] + (query + seq!['#']
        + fragment)))
}

/// Parsing `scheme://host/path?query#fragment` gives back each of the five
/// parts as it was written, for all parts that are not empty and do not
/// hold the mark that ends them: no `://` in the scheme, no `/` in the
/// host, no `?` in the path, no `#` in the query.
pub proof fn lemma_parse_reproduces_parts(
    scheme: Seq<char>,
    host: Seq<char>,
    path: Seq<char>,
    query: Seq<char>,
    fragment: Seq<char>,
)
    requires
        scheme.len() > 0,
        host.len() > 0,
        path.len() > 0,
        query.len() > 0,
        fragment.len() > 0,
        find(scheme, scheme_separator()) is None,
        find(host, seq!['/']) is None,
        find(path, seq!['?']) is None,
        find(query, seq!['#']) is None,
    ensures
        parsed_url(url_text(scheme, host, path, query, fragment)) == Ok::<UrlView, ScError>(
            UrlView { scheme, host, path: Some(path), query: Some(query), fragment: Some(fragment) },
        ),
{
    let after_query = query + seq!['#'] + fragment;
    let tail = path + seq!['?'] + after_query;
    let rest = host + seq!['/'] + tail;
    let url = scheme + scheme_separator() + rest;
    let separator = scheme_separator();
    assert forall|j: int| 0 <= j < scheme.len() implies !occurs(url, separator, j) by {
        if occurs(url, separator, j) {
            let window = url.subrange(j, j + 3);
            if j + 3 <= scheme.len() {
                assert(scheme.subrange(j, j + 3) =~= window);
                lemma_find_none(scheme, separator, 0, j);
            } else if j + 2 == scheme.len() {
                assert(window[2] == url[scheme.len() as int]);
                assert(url[scheme.len() as int] == ':');
            } else {
                assert(window[1] == url[scheme.len() as int]);
                assert(url[scheme.len() as int] == ':');
            }
        }
    }
    lemma_split_once_joined(scheme, separator, rest);
    lemma_split_once_char(host, '/', tail);
    lemma_split_once_char(path, '?', after_query);
    lemma_split_once_char(query, '#', fragment);
}

/// What is no endpoint: a string without `://`, the empty string among
/// them, and a string in which nothing or a `/` follows the first `://`, so
/// that the host is empty. Nothing else goes wrong than `InvalidUrl`, and
/// an endpoint that parses has a scheme and a host.
pub proof fn lemma_rejected_urls(url: Seq<char>)
    ensures
        find(url, scheme_separator()) is None ==> parsed_url(url) == Err::<UrlView, ScError>(
            ScError::InvalidUrl,
        ),
        url.len() == 0 ==> parsed_url(url) == Err::<UrlView, ScError>(ScError::InvalidUrl),
        split_once(url, scheme_separator()) matches Some((scheme, rest)) && (rest.len() == 0
            || rest[0] == '/') ==> parsed_url(url) == Err::<UrlView, ScError>(ScError::InvalidUrl),
        parsed_url(url) matches Err(error) ==> error == ScError::InvalidUrl,
        parsed_url(url) matches Ok(parsed) ==> parsed.scheme.len() > 0 && parsed.host.len() > 0,
{
    match split_once(url, scheme_separator()) {
        Some((scheme, rest)) => {
            if rest.len() > 0 && rest[0] == '/' {
                assert(rest.subrange(0, 1) =~= seq!['/']);
            }
        },
        None => {},
    }
}

/// An optional string made of the given characters.
fn optional_string(chars: Option<&[char]>) -> (text: Option<String>)
    ensures
        optional_text(text) == match chars {
            Some(c) => Some(c@),
            None => None,
        },
{
    match chars {
        Some(c) => Some(string_of(c)),
        None => None,
    }
}

/// Path, query and fragment, read from what follows the host's `/`.
fn split_tail<'a>(tail: &'a [char]) -> (parts: (
    Option<&'a [char]>,
    Option<&'a [char]>,
    Option<&'a [char]>,
))
    ensures
        tail_parts(tail@) == (
            match parts.0 {
                Some(c) => Some(c@),
                None => None,
            },
            match parts.1 {
                Some(c) => Some(c@),
                None => None,
            },
            match parts.2 {
                Some(c) => Some(c@),
                None => None,
            },
        ),
{
    if tail.len() == 0 {
        return (None, None, None);
    }
    let question = ['?'];
    let hash = ['#'];
    assert(question@ =~= seq!['?']);
    assert(hash@ =~= seq!['#']);
    match split_around(tail, question.as_slice()) {
        None => (Some(tail), None, None),
        Some((path, rest)) => {
            if path.len() == 0 {
                (None, None, None)
            } else if rest.len() == 0 {
                (Some(path), None, None)
            } else {
                match split_around(rest, hash.as_slice()) {
                    None => (Some(path), Some(rest), None),
                    Some((query, fragment)) => {
                        if query.len() == 0 {
                            (Some(path), None, None)
                        } else if fragment.len() == 0 {
                            (Some(path), Some(query), None)
                        } else {
                            (Some(path), Some(query), Some(fragment))
                        }
                    },
                }
            }
        },
    }
}

impl WebSocketUrl {
    /// An endpoint with every part empty or absent.
    pub fn new() -> (url: WebSocketUrl)
        ensures
            url@ == (UrlView {
                scheme: Seq::empty(),
                host: Seq::empty(),
                path: None,
                query: None,
                fragment: None,
            }),
    {
        WebSocketUrl {
            scheme: String::new(),
            host: String::new(),
            path: None,
            query: None,
            fragment: None,
        }
    }

    /// Parses an endpoint string.
    pub fn from_url(url: &str) -> (result: Result<WebSocketUrl, ScError>)
        ensures
            match result {
                Ok(parsed) => parsed_url(url@) == Ok::<UrlView, ScError>(parsed@),
                Err(error) => parsed_url(url@) == Err::<UrlView, ScError>(error),
            },
            result matches Ok(parsed) ==> parsed@.scheme.len() > 0 && parsed@.host.len() > 0,
            result matches Err(error) ==> error == ScError::InvalidUrl,
            find(url@, scheme_separator()) is None ==> result is Err,
            url@.len() == 0 ==> result is Err,
    {
        let chars = chars_of(url);
        let separator = [':', '/', '/'];
        let slash = ['/'];
        assert(separator@ =~= scheme_separator());
        assert(slash@ =~= seq!['/']);
        match split_around(chars.as_slice(), separator.as_slice()) {
            None => Err(ScError::InvalidUrl),
            Some((scheme, rest)) => {
                let (host, tail) = match split_around(rest, slash.as_slice()) {
                    Some((host, tail)) => (host, tail),
                    None => {
                        let nothing = slice_subrange(rest, 0, 0);
                        assert(nothing@ =~= Seq::<char>::empty());
                        (rest, nothing)
                    },
                };
                if scheme.len() == 0 || host.len() == 0 {
                    return Err(ScError::InvalidUrl);
                }
                let (path, query, fragment) = split_tail(tail);
                let parsed = WebSocketUrl {
                    scheme: string_of(scheme),
                    host: string_of(host),
                    path: optional_string(path),
                    query: optional_string(query),
                    fragment: optional_string(fragment),
                };
                assert(parsed@ =~= parsed_url(url@)->Ok_0);
                Ok(parsed)
            },
        }
    }

    /// The host without its `:port`.
    pub fn host_name(&self) -> (name: String)
        ensures
            name@ == host_name_of(self.host@),
    {
        let host = chars_of(self.host.as_str());
        let colon = [':'];
        assert(colon@ =~= seq![':']);
        match find_in(host.as_slice(), colon.as_slice(), 0) {
            Some(at) => {
                let name = copy_range(host.as_slice(), 0, at);
                assert(name@ =~= host@.take(at as int));
                string_of(name.as_slice())
            },
            None => string_of(host.as_slice()),
        }
    }

    /// The port to connect to. A port that is no sixteen-bit number gives
    /// `"Invalid port"`; a scheme other than `ws` and `wss` without a port
    /// gives `"Invalid scheme"`.
    pub fn port(&self) -> (result: Result<u16, &'static str>)
        ensures
            match result {
                Ok(port) => port_of(self.scheme@, self.host@) == Ok::<u16, Seq<char>>(port),
                Err(reason) => port_of(self.scheme@, self.host@) == Err::<u16, Seq<char>>(reason@),
            },
    {
        let host = chars_of(self.host.as_str());
        let length = host.len();
        let colon = [':'];
        assert(colon@ =~= seq![':']);
        match find_in(host.as_slice(), colon.as_slice(), 0) {
            Some(at) => {
                let digits = slice_subrange(host.as_slice(), at + 1, length);
                assert(digits@ =~= host@.skip(at + 1));
                match parse_number(digits, 65535) {
                    Some(port) => Ok(port as u16),
                    None => Err("Invalid port"),
                }
            },
            None => {
                let scheme = chars_of(self.scheme.as_str());
                let ws = ['w', 's'];
                let wss = ['w', 's', 's'];
                assert(ws@ =~= seq!['w', 's']);
                assert(wss@ =~= seq!['w', 's', 's']);
                if equal(scheme.as_slice(), ws.as_slice()) {
                    Ok(80)
                } else if equal(scheme.as_slice(), wss.as_slice()) {
                    Ok(443)
                } else {
                    Err("Invalid scheme")
                }
            },
        }
    }

    /// The request target of the opening handshake.
    pub fn resource_name(&self) -> (name: String)
        ensures
            name@ == resource_name_of(optional_text(self.path), optional_text(self.query)),
    {
        let mut name: Vec<char> = Vec::new();
        if let Some(path) = &self.path {
            let mut chars = chars_of(path.as_str());
            if !(chars.len() > 0 && chars[0] == '/') {
                name.push('/');
            }
            name.append(&mut chars);
        }
        let ghost base = name@;
        if let Some(query) = &self.query {
            let mut chars = chars_of(query.as_str());
            name.push('?');
            name.append(&mut chars);
            assert(name@ =~= base + seq!['?'] + query@);
        }
        string_of(name.as_slice())
    }
}

} // verus!
