//! Parsed URLs: the parts of a URL that the logic of this crate reads.

use vstd::prelude::*;

verus! {

/// A URL parsed by the `url` crate, holding the parts this crate reads.
#[derive(Debug)]
pub struct WebUrl {
    text: String,
    scheme: String,
    host: Option<String>,
    port: Option<u16>,
    path: String,
    query_pairs: Vec<(String, String)>,
}

/// Abstract view of a parsed URL.
pub struct WebUrlView {
    /// Whole serialization of the URL.
    pub text: Seq<char>,
    /// Scheme, lower-cased, without the `:` delimiter.
    pub scheme: Seq<char>,
    /// Host, if any.
    pub host: Option<Seq<char>>,
    /// Port, if one is given and it is not the default one of the scheme.
    pub port: Option<u16>,
    /// Path.
    pub path: Seq<char>,
    /// Decoded `name=value` pairs of the query, in order.
    pub query: Seq<(Seq<char>, Seq<char>)>,
}

/// What `url::Url::parse` makes of the given text: `None` when it refuses
/// the text.
pub uninterp spec fn parsed_url(input: Seq<char>) -> Option<WebUrlView>;

/// Views of optional strings.
pub open spec fn opt_view(o: Option<String>) -> Option<Seq<char>> {
    match o {
        Some(s) => Some(s@),
        None => None,
    }
}

impl View for WebUrl {
    type V = WebUrlView;

    closed spec fn view(&self) -> WebUrlView {
        WebUrlView {
            text: self.text@,
            scheme: self.scheme@,
            host: opt_view(self.host),
            port: self.port,
            path: self.path@,
            query: self.query_pairs@.map_values(|p: (String, String)| (p.0@, p.1@)),
        }
    }
}

/// Parses a URL: calls `url::Url::parse` and reads its serialization,
/// `scheme`, `host_str`, `port`, `path` and `query_pairs`. The result is what
/// `parsed_url` names for the input text.
#[verifier::external_body]
fn url_parse(input: &str) -> (res: Option<WebUrl>)
    ensures
        match res {
            Some(u) => parsed_url(input@) == Some(u@),
            None => parsed_url(input@) is None,
        },
{
    match url::Url::parse(input) {
        Ok(u) => Some(WebUrl {
            text: u.as_str().to_string(),
            scheme: u.scheme().to_string(),
            host: u.host_str().map(|h| h.to_string()),
            port: u.port(),
            path: u.path().to_string(),
            query_pairs: u.query_pairs().map(|(k, v)| (k.into_owned(), v.into_owned())).collect(),
        }),
        Err(_) => None,
    }
}

impl Clone for WebUrl {
    /// A copy of this URL.
    fn clone(&self) -> (res: Self)
        ensures
            res@ == self@,
    {
        let mut pairs: Vec<(String, String)> = Vec::new();
        let mut i: usize = 0;
        while i < self.query_pairs.len()
            invariant
                i <= self.query_pairs.len(),
                pairs@.len() == i,
                forall|j: int| 0 <= j < i ==> (#[trigger] pairs@[j]).0@ == self.query_pairs@[j].0@
                    && pairs@[j].1@ == self.query_pairs@[j].1@,
            decreases self.query_pairs.len() - i,
        {
            let (k, v) = &self.query_pairs[i];
            pairs.push((k.clone(), v.clone()));
            i = i + 1;
        }
        let host = match &self.host {
            Some(h) => Some(h.clone()),
            None => None,
        };
        let res = WebUrl {
            text: self.text.clone(),
            scheme: self.scheme.clone(),
            host,
            port: self.port,
            path: self.path.clone(),
            query_pairs: pairs,
        };
        assert(res@.query =~= self@.query);
        res
    }
}

impl WebUrl {
    /// Parses the given text as a URL; `None` when it is not one.
    pub fn parse(input: &str) -> (res: Option<WebUrl>)
        ensures
            match res {
                Some(u) => parsed_url(input@) == Some(u@),
                None => parsed_url(input@) is None,
            },
    {
        url_parse(input)
    }

    /// Whole serialization of this URL.
    pub fn as_str(&self) -> (res: &str)
        ensures
            res@ == self@.text,
    {
        self.text.as_str()
    }

    /// Scheme of this URL.
    pub fn scheme(&self) -> (res: &str)
        ensures
            res@ == self@.scheme,
    {
        self.scheme.as_str()
    }

    /// Host of this URL, if any.
    pub fn host_str(&self) -> (res: Option<&str>)
        ensures
            match res {
                Some(h) => self@.host == Some(h@),
                None => self@.host is None,
            },
    {
        match &self.host {
            Some(h) => Some(h.as_str()),
            None => None,
        }
    }

    /// Port of this URL, if one is given and it is not the default one of
    /// the scheme.
    pub fn port(&self) -> (res: Option<u16>)
        ensures
            res == self@.port,
    {
        self.port
    }

    /// Whether this URL has a host.
    pub fn has_host(&self) -> (res: bool)
        ensures
            res == self@.host is Some,
    {
        self.host.is_some()
    }

    /// Path of this URL.
    pub fn path(&self) -> (res: &str)
        ensures
            res@ == self@.path,
    {
        self.path.as_str()
    }

    /// Decoded query pairs of this URL.
    pub fn query_pairs(&self) -> (res: &Vec<(String, String)>)
        ensures
            res@.map_values(|p: (String, String)| (p.0@, p.1@)) == self@.query,
    {
        &self.query_pairs
    }
}

} // verus!
