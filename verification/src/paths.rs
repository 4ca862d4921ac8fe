//! Paths as text: the questions the library asks of `std::path`.
use vstd::prelude::*;

verus! {

/// Whether `Path::is_absolute` holds of the path with this text.
pub uninterp spec fn path_is_absolute(path: Seq<char>) -> bool;

/// The text of `Path::join` of a base path and a relative path.
pub uninterp spec fn path_joined(base: Seq<char>, path: Seq<char>) -> Seq<char>;

/// Calls `Path::is_absolute`. On Unix (the target of this library) a path
/// is absolute exactly when it starts with `/`, as `std`'s documentation
/// says.
#[verifier::external_body]
pub(crate) fn is_absolute_path(path: &str) -> (r: bool)
    ensures
        r == path_is_absolute(path@),
        r == (path@.len() > 0 && path@[0] == '/'),
{
    std::path::Path::new(path).is_absolute()
}

/// Calls `Path::join`; both texts are UTF-8, so the joined path is too.
/// On Unix, a relative path joined to a base that does not end with `/` is
/// the base, a `/` and the path, as `PathBuf::push` documents.
#[verifier::external_body]
pub(crate) fn join_path(base: &str, path: &str) -> (r: String)
    ensures
        r@ == path_joined(base@, path@),
        base@.len() > 0 && base@.last() != '/' && path@.len() > 0 && path@[0] != '/' ==> r@ == base@ + "/"@ + path@,
{
    std::path::Path::new(base).join(path).to_string_lossy().into_owned()
}

/// One component of a path as `Path::components` yields it: a normal name,
/// or another kind (a root, a prefix, `.` or `..`).
pub enum PathComponent {
    Normal(String),
    Other,
}

/// The name of a normal component.
pub open spec fn component_view(c: PathComponent) -> Option<Seq<char>> {
    match c {
        PathComponent::Normal(name) => Some(name@),
        PathComponent::Other => None,
    }
}

/// The components `Path::components` yields for the path with this text:
/// the name of each normal component, `None` for any other.
pub uninterp spec fn path_components_of(path: Seq<char>) -> Seq<Option<Seq<char>>>;

/// Calls `Path::components`, telling normal components from the others.
#[verifier::external_body]
pub(crate) fn path_components(path: &str) -> (r: Vec<PathComponent>)
    ensures
        r@.map_values(|c: PathComponent| component_view(c)) == path_components_of(path@),
{
    std::path::Path::new(path).components().map(|c| match c {
        std::path::Component::Normal(name) => PathComponent::Normal(name.to_string_lossy().into_owned()),
        _ => PathComponent::Other,
    }).collect()
}

} // verus!
