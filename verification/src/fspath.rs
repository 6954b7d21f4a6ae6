//! Questions about filesystem paths, answered by `std::path`.

use vstd::prelude::*;

verus! {

/// What `std::path::Path::extension` gives for the given path: the part of
/// its file name after the final `.`, if any.
pub uninterp spec fn path_extension(path: Seq<char>) -> Option<Seq<char>>;

/// Whether `std::path::Path::parent` of the first path is the second path,
/// compared as `std::path::Path`s are (component by component).
pub uninterp spec fn path_parent_is(path: Seq<char>, parent: Seq<char>) -> bool;

/// What `std::path::Path::strip_prefix` gives for the given path and base:
/// the rest of the path after the base's components, or `None` when the
/// base is not a prefix of the path, component by component.
pub uninterp spec fn path_stripped(path: Seq<char>, base: Seq<char>) -> Option<Seq<char>>;

/// A component of a path, as `std::path::Component` tells them apart.
#[derive(Debug)]
pub enum PathComponent {
    /// A Windows prefix.
    Prefix,
    /// The root directory.
    RootDir,
    /// A `.`.
    CurDir,
    /// A `..`.
    ParentDir,
    /// A name.
    Normal(String),
}

/// Abstract view of a [`PathComponent`].
pub enum ComponentView {
    /// A Windows prefix.
    Prefix,
    /// The root directory.
    RootDir,
    /// A `.`.
    CurDir,
    /// A `..`.
    ParentDir,
    /// A name.
    Normal(Seq<char>),
}

/// View of a component.
pub open spec fn component_view(c: PathComponent) -> ComponentView {
    match c {
        PathComponent::Prefix => ComponentView::Prefix,
        PathComponent::RootDir => ComponentView::RootDir,
        PathComponent::CurDir => ComponentView::CurDir,
        PathComponent::ParentDir => ComponentView::ParentDir,
        PathComponent::Normal(s) => ComponentView::Normal(s@),
    }
}

/// Views of components.
pub open spec fn components_view(cs: Seq<PathComponent>) -> Seq<ComponentView> {
    cs.map_values(|c: PathComponent| component_view(c))
}

/// What `std::path::Path::components` yields for the given path.
pub uninterp spec fn path_components(path: Seq<char>) -> Seq<ComponentView>;

/// Components of a path: walks `std::path::Path::components` and converts
/// each (names come from a `&str`, so they are valid UTF-8). The result is
/// what `path_components` names.
#[verifier::external_body]
pub(crate) fn components(path: &str) -> (res: Vec<PathComponent>)
    ensures
        components_view(res@) == path_components(path@),
{
    let mut res = Vec::new();
    for c in std::path::Path::new(path).components() {
        res.push(match c {
            std::path::Component::Prefix(_) => PathComponent::Prefix,
            std::path::Component::RootDir => PathComponent::RootDir,
            std::path::Component::CurDir => PathComponent::CurDir,
            std::path::Component::ParentDir => PathComponent::ParentDir,
            std::path::Component::Normal(n) => PathComponent::Normal(n.to_string_lossy().into_owned()),
        });
    }
    res
}

/// The path without the given base: calls `std::path::Path::strip_prefix`
/// and converts the rest to a string (the paths here come from `&str`, so
/// it is valid UTF-8). The result is what `path_stripped` names.
#[verifier::external_body]
pub(crate) fn strip_prefix(path: &str, base: &str) -> (res: Option<String>)
    ensures
        match res {
            Some(r) => path_stripped(path@, base@) == Some(r@),
            None => path_stripped(path@, base@) is None,
        },
{
    std::path::Path::new(path).strip_prefix(base).ok().map(|r| r.to_string_lossy().into_owned())
}

/// Extension of a path: calls `std::path::Path::extension` and converts it
/// to a string (the paths here come from `&str`, so it is valid UTF-8). The
/// result is what `path_extension` names for the path.
#[verifier::external_body]
pub(crate) fn extension(path: &str) -> (res: Option<String>)
    ensures
        match res {
            Some(e) => path_extension(path@) == Some(e@),
            None => path_extension(path@) is None,
        },
{
    std::path::Path::new(path).extension().map(|e| e.to_string_lossy().into_owned())
}

/// Whether the parent of a path is the given one: calls
/// `std::path::Path::parent` and compares the result with `parent` as a
/// `std::path::Path`. The result is what `path_parent_is` names.
#[verifier::external_body]
pub(crate) fn parent_is(path: &str, parent: &str) -> (res: bool)
    ensures
        res == path_parent_is(path@, parent@),
{
    std::path::Path::new(path).parent() == Some(std::path::Path::new(parent))
}

/// What `std::path::Path::file_stem` gives for the given path: its file
/// name without the final extension, if it has a file name.
pub uninterp spec fn path_file_stem(path: Seq<char>) -> Option<Seq<char>>;

/// What `std::path::Path::with_file_name` makes of the given path and file
/// name: the path with its file name replaced (or the name added, where the
/// path has none).
pub uninterp spec fn path_with_file_name(path: Seq<char>, name: Seq<char>) -> Seq<char>;

/// File stem of a path: calls `std::path::Path::file_stem` and converts it
/// to a string (the paths here come from `&str`, so it is valid UTF-8). The
/// result is what `path_file_stem` names for the path.
#[verifier::external_body]
pub(crate) fn file_stem(path: &str) -> (res: Option<String>)
    ensures
        match res {
            Some(e) => path_file_stem(path@) == Some(e@),
            None => path_file_stem(path@) is None,
        },
{
    std::path::Path::new(path).file_stem().map(|e| e.to_string_lossy().into_owned())
}

/// The path with another file name: calls `std::path::Path::with_file_name`
/// and converts the result to a string (both come from `&str`, so it is
/// valid UTF-8). The result is what `path_with_file_name` names.
#[verifier::external_body]
pub(crate) fn with_file_name(path: &str, name: &str) -> (res: String)
    ensures
        res@ == path_with_file_name(path@, name@),
{
    std::path::Path::new(path).with_file_name(name).to_string_lossy().into_owned()
}

/// The path that `std::path::Path::join` makes of `base` and `rest` on
/// Unix: `rest` alone where it is absolute (starts with `/`); otherwise
/// `rest` appended to `base`, with a `/` between them where `base` is not
/// empty and does not end with one.
pub open spec fn joined_path(base: Seq<char>, rest: Seq<char>) -> Seq<char> {
    if rest.len() > 0 && rest[0] == '/' {
        rest
    } else if base.len() > 0 && base[base.len() - 1] != '/' {
        base + seq!['/'] + rest
    } else {
        base + rest
    }
}

/// Joins two paths: calls `std::path::Path::join` and converts the result
/// to a string (both paths come from `&str`, so it is valid UTF-8). std
/// documents `join` as `PathBuf::push` on a copy of `base`, which on Unix
/// replaces the path by an absolute `rest` and otherwise appends `rest`
/// after a separator, adding one only where `base` does not end with one.
#[verifier::external_body]
pub(crate) fn join(base: &str, rest: &str) -> (res: String)
    ensures
        res@ == joined_path(base@, rest@),
{
    std::path::Path::new(base).join(rest).to_string_lossy().into_owned()
}

/// Whether a path is absolute, as `std::path::Path::is_absolute` tells on
/// Unix: std documents it as the path having a root, that is, starting with
/// `/`.
pub(crate) fn is_absolute(path: &str) -> (res: bool)
    ensures
        res == (path@.len() > 0 && path@[0] == '/'),
{
    let cs = crate::text::chars_of(path);
    cs.len() > 0 && cs[0] == '/'
}

} // verus!
