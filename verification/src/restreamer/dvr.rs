//! Storage of the recordings of outputs that write into files.

use vstd::prelude::*;

use crate::fspath::{
    extension, file_stem, join, joined_path, path_extension, path_file_stem, path_stripped,
    path_with_file_name, strip_prefix, with_file_name,
};
use crate::text::{decimal, push_char, push_decimal, push_str};
use crate::restreamer::state::{uuid_string, uuid_text, Output, Restream};

verus! {

/// Storage of recorded files.
#[derive(Debug)]
pub struct Storage {
    /// Path of the directory where the recorded files are stored.
    pub root_path: String,
}

/// The text `s` without its leading slashes.
pub open spec fn trim_slashes(s: Seq<char>) -> Seq<char>
    decreases s.len(),
{
    if s.len() > 0 && s[0] == '/' {
        trim_slashes(s.drop_first())
    } else {
        s
    }
}

/// Path of the file that the output with the given ID and path of its
/// destination URL records into, under the given root directory.
pub open spec fn record_path(root: Seq<char>, id: u128, dst_path: Seq<char>) -> Seq<char> {
    joined_path(joined_path(root, uuid_text(id)), trim_slashes(dst_path))
}

/// What `url::Url::from_file_path` makes of the given path: the text of the
/// `file` URL, or `None` when the path is not absolute.
pub uninterp spec fn file_url(path: Seq<char>) -> Option<Seq<char>>;

/// Makes a `file` URL of a path: calls `url::Url::from_file_path` and takes
/// the text of the URL; its error becomes `None`. On Unix the crate refuses
/// exactly the paths that are not absolute (`Path::is_absolute`, a leading
/// `/`), and makes a URL of every other one.
#[verifier::external_body]
fn file_url_of(path: &str) -> (res: Option<String>)
    ensures
        match res {
            Some(u) => file_url(path@) == Some(u@),
            None => file_url(path@) is None,
        },
        res is Some <==> (path@.len() > 0 && path@[0] == '/'),
{
    url::Url::from_file_path(path).ok().map(|u| u.to_string())
}

/// What `url::Url::to_file_path` makes of the `file` URL of the given text:
/// the path it stands for, or `None` when the text is not a URL or its path
/// is not one of a file.
pub uninterp spec fn url_file_path(url: Seq<char>) -> Option<Seq<char>>;

/// Path of the file that a `file` URL stands for: parses the text with
/// `url::Url::parse` and calls `url::Url::to_file_path` on it, converting
/// the path to a string; either error becomes `None`. The result is what
/// `url_file_path` names.
#[verifier::external_body]
fn url_to_file_path(url: &str) -> (res: Option<String>)
    ensures
        match res {
            Some(p) => url_file_path(url@) == Some(p@),
            None => url_file_path(url@) is None,
        },
{
    match url::Url::parse(url) {
        Ok(u) => match u.to_file_path() {
            Ok(p) => Some(p.to_string_lossy().into_owned()),
            Err(_) => None,
        },
        Err(_) => None,
    }
}

/// Name of a new recording file: the stem of the recording's file name,
/// `_`, the time in microseconds, `.` and the extension of the name.
pub open spec fn recording_name(stem: Option<Seq<char>>, now_micros: u64, ext: Option<Seq<char>>) -> Seq<char> {
    let s = match stem {
        Some(s) => s,
        None => Seq::empty(),
    };
    let e = match ext {
        Some(e) => e,
        None => Seq::empty(),
    };
    s + seq!['_'] + decimal(now_micros as nat) + seq!['.'] + e
}

/// Path of a new recording file for the `file` URL of an output, at
/// `now_micros` microseconds since the UNIX epoch; `None` when the URL does
/// not stand for a file path.
pub open spec fn new_file_path_spec(url: Seq<char>, now_micros: u64) -> Option<Seq<char>> {
    match url_file_path(url) {
        None => None,
        Some(p) => Some(
            path_with_file_name(p, recording_name(path_file_stem(p), now_micros, path_extension(p))),
        ),
    }
}

/// Path of a new file to record into for the `file` URL of an output, at
/// `now_micros` microseconds since the UNIX epoch: the file name gets the
/// time between its stem and its extension, so that every recording has a
/// file of its own. `None` when the URL does not stand for a file path.
pub fn new_file_path(url: &str, now_micros: u64) -> (res: Option<String>)
    ensures
        match res {
            Some(p) => new_file_path_spec(url@, now_micros) == Some(p@),
            None => new_file_path_spec(url@, now_micros) is None,
        },
{
    let path = match url_to_file_path(url) {
        Some(p) => p,
        None => {
            return None;
        },
    };
    let mut name = String::new();
    match file_stem(path.as_str()) {
        Some(s) => push_str(&mut name, s.as_str()),
        None => {},
    }
    push_char(&mut name, '_');
    push_decimal(&mut name, now_micros);
    push_char(&mut name, '.');
    match extension(path.as_str()) {
        Some(e) => push_str(&mut name, e.as_str()),
        None => {},
    }
    proof {
        let stem = path_file_stem(path@);
        let ext = path_extension(path@);
        assert(name@ =~= recording_name(stem, now_micros, ext));
    }
    Some(with_file_name(path.as_str(), name.as_str()))
}

/// The text without its leading slashes.
pub(crate) fn trim_leading_slashes(s: &str) -> (res: String)
    ensures
        res@ == trim_slashes(s@),
{
    let cs = crate::text::chars_of(s);
    let mut k: usize = 0;
    assert(cs@.skip(0) =~= cs@);
    while k < cs.len() && cs[k] == '/'
        invariant
            k <= cs@.len(),
            trim_slashes(s@) == trim_slashes(cs@.skip(k as int)),
            cs@ == s@,
        decreases cs@.len() - k,
    {
        assert(cs@.skip(k as int).drop_first() =~= cs@.skip(k + 1));
        k = k + 1;
    }
    let mut res = String::new();
    let mut i = k;
    while i < cs.len()
        invariant
            k <= i <= cs@.len(),
            res@ == cs@.subrange(k as int, i as int),
        decreases cs@.len() - i,
    {
        crate::text::push_char(&mut res, cs[i]);
        assert(res@ =~= cs@.subrange(k as int, i + 1));
        i = i + 1;
    }
    assert(cs@.skip(k as int) =~= cs@.subrange(k as int, cs@.len() as int));
    res
}

/// A path under an absolute root is absolute.
pub proof fn lemma_record_path_absolute(root: Seq<char>, id: u128, dst_path: Seq<char>)
    requires
        root.len() > 0,
        root[0] == '/',
    ensures
        record_path(root, id, dst_path).len() > 0,
        record_path(root, id, dst_path)[0] == '/',
{
    let a = joined_path(root, uuid_text(id));
    assert(a.len() > 0 && a[0] == '/');
}

/// What `uuid::Uuid::parse_str` makes of the given text: the 128 bits of
/// the UUID, or `None` when it refuses the text.
pub uninterp spec fn uuid_parsed(text: Seq<char>) -> Option<u128>;

/// Parses a UUID: calls `uuid::Uuid::parse_str` and takes the 128 bits of
/// the result; its error becomes `None`. The result is what `uuid_parsed`
/// names.
#[verifier::external_body]
fn parse_uuid(text: &str) -> (res: Option<u128>)
    ensures
        res == uuid_parsed(text@),
{
    uuid::Uuid::parse_str(text).ok().map(|u| u.as_u128())
}

/// Whether one of the re-streams has an output with the given ID.
pub open spec fn has_output_id(rs: Seq<Restream>, id: u128) -> bool {
    exists|j: int, k: int|
        0 <= j < rs.len() && 0 <= k < rs[j].outputs@.len() && (#[trigger] rs[j].outputs@[k]).id.0 == id
}

/// Whether an entry of the storage directory is left over: its name (none
/// when it is not valid UTF-8) is not a UUID of an output of the
/// re-streams.
pub open spec fn leftover(name: Option<Seq<char>>, rs: Seq<Restream>) -> bool {
    match name {
        None => true,
        Some(n) => match uuid_parsed(n) {
            None => true,
            Some(id) => !has_output_id(rs, id),
        },
    }
}

/// Path of a stored file given by its path relative to the root, a leading
/// root of it removed.
pub open spec fn stored_path(root: Seq<char>, path: Seq<char>) -> Seq<char> {
    joined_path(
        root,
        match path_stripped(path, "/"@) {
            Some(r) => r,
            None => path,
        },
    )
}

impl Storage {
    /// Whether the entry of the storage directory with the given name (none
    /// when it is not valid UTF-8) is to be cleaned up: no output of the
    /// re-streams records into it.
    pub fn is_leftover(name: Option<&str>, restreams: &Vec<Restream>) -> (res: bool)
        ensures
            res == leftover(
                match name {
                    Some(n) => Some(n@),
                    None => None,
                },
                restreams@,
            ),
    {
        let n = match name {
            Some(n) => n,
            None => {
                return true;
            },
        };
        let id = match parse_uuid(n) {
            Some(id) => id,
            None => {
                return true;
            },
        };
        let mut j: usize = 0;
        while j < restreams.len()
            invariant
                j <= restreams@.len(),
                name == Some(n),
                uuid_parsed(n@) == Some(id),
                forall|a: int, b: int|
                    0 <= a < j && 0 <= b < restreams@[a].outputs@.len() ==> (
                    #[trigger] restreams@[a].outputs@[b]).id.0 != id,
            decreases restreams@.len() - j,
        {
            let mut k: usize = 0;
            while k < restreams[j].outputs.len()
                invariant
                    j < restreams@.len(),
                    name == Some(n),
                    uuid_parsed(n@) == Some(id),
                    k <= restreams@[j as int].outputs@.len(),
                    forall|b: int| 0 <= b < k ==> (#[trigger] restreams@[j as int].outputs@[b]).id.0 != id,
                decreases restreams@[j as int].outputs@.len() - k,
            {
                if restreams[j].outputs[k].id.0 == id {
                    proof {
                        assert(restreams@[j as int].outputs@[k as int].id.0 == id);
                        assert(has_output_id(restreams@, id));
                    }
                    return false;
                }
                k = k + 1;
            }
            j = j + 1;
        }
        true
    }

    /// Path of the stored file with the given path relative to the root (a
    /// leading root of it is removed).
    pub fn stored_path(&self, path: &str) -> (res: String)
        ensures
            res@ == stored_path(self.root_path@, path@),
    {
        match strip_prefix(path, "/") {
            Some(r) => join(self.root_path.as_str(), r.as_str()),
            None => join(self.root_path.as_str(), path),
        }
    }

    /// Path of the file that the given output records into.
    pub fn file_path(&self, output: &Output) -> (res: String)
        ensures
            res@ == record_path(self.root_path@, output.id.0, output.dst.view().path),
    {
        let id = uuid_string(output.id.0);
        let dir = join(self.root_path.as_str(), id.as_str());
        let rel = trim_leading_slashes(output.dst.url().path());
        join(dir.as_str(), rel.as_str())
    }

    /// `file` URL of the file that the given output records into; `None` when
    /// its path is not absolute, that is when the root path is not.
    pub fn file_url(&self, output: &Output) -> (res: Option<String>)
        ensures
            match res {
                Some(u) => file_url(record_path(self.root_path@, output.id.0, output.dst.view().path))
                    == Some(u@),
                None => file_url(record_path(self.root_path@, output.id.0, output.dst.view().path))
                    is None,
            },
            (self.root_path@.len() > 0 && self.root_path@[0] == '/') ==> res is Some,
    {
        proof {
            if self.root_path@.len() > 0 && self.root_path@[0] == '/' {
                lemma_record_path_absolute(self.root_path@, output.id.0, output.dst.view().path);
            }
        }
        let path = self.file_path(output);
        file_url_of(path.as_str())
    }
}

} // verus!
