//! Paths of inputs and outputs, as UTF-8 strings.

use vstd::prelude::*;

verus! {

/// The file stem of a path (its file name without the last extension), as
/// camino computes it; `None` where the path has no file name.
pub uninterp spec fn file_stem_of(path: Seq<char>) -> Option<Seq<char>>;

/// The parent directory of a path, as camino computes it; `None` for a root
/// or an empty path.
pub uninterp spec fn parent_of(path: Seq<char>) -> Option<Seq<char>>;

/// `base` with `tail` adjoined, as camino's `join` computes it.
pub uninterp spec fn path_join(base: Seq<char>, tail: Seq<char>) -> Seq<char>;

/// Relies on `camino::Utf8Path::file_stem`, which returns the stem of the
/// path's last component.
#[verifier::external_body]
pub(crate) fn file_stem(path: &str) -> (r: Option<String>)
    ensures
        match r {
            Some(s) => file_stem_of(path@) == Some(s@),
            None => file_stem_of(path@).is_none(),
        },
{
    camino::Utf8Path::new(path).file_stem().map(|s| s.to_string())
}

/// Relies on `camino::Utf8Path::parent`, which returns the path without its
/// last component.
#[verifier::external_body]
pub(crate) fn parent(path: &str) -> (r: Option<String>)
    ensures
        match r {
            Some(s) => parent_of(path@) == Some(s@),
            None => parent_of(path@).is_none(),
        },
{
    camino::Utf8Path::new(path).parent().map(|p| p.as_str().to_string())
}

/// Relies on `camino::Utf8Path::join`, which adjoins `tail` to `base`.
#[verifier::external_body]
pub(crate) fn join(base: &str, tail: &str) -> (r: String)
    ensures
        r@ == path_join(base@, tail@),
{
    camino::Utf8Path::new(base).join(tail).into_string()
}

/// Why a path cannot name an input.
#[derive(Debug)]
pub enum PathError {
    /// The path has no file stem.
    NoFileStem { path: String },
}

/// A path that has a file stem.
#[derive(Debug)]
pub struct Utf8StemmedPathBuf {
    path: String,
    stem: String,
}

impl View for Utf8StemmedPathBuf {
    type V = Seq<char>;

    closed spec fn view(&self) -> Seq<char> {
        self.path@
    }
}

impl Utf8StemmedPathBuf {
    /// The stem of the path.
    pub closed spec fn spec_stem(&self) -> Seq<char> {
        self.stem@
    }

    /// The stem is the one camino gives the path.
    pub closed spec fn wf(&self) -> bool {
        file_stem_of(self.path@) == Some(self.stem@)
    }

    /// The path, if it has a file stem.
    pub fn try_from(path: String) -> (r: Result<Self, PathError>)
        ensures
            r is Ok <==> file_stem_of(path@).is_some(),
            r matches Ok(p) ==> p@ == path@ && p.wf() && Some(p.spec_stem()) == file_stem_of(path@),
            r matches Err(PathError::NoFileStem { path: q }) ==> q@ == path@,
    {
        match file_stem(path.as_str()) {
            Some(stem) => Ok(Utf8StemmedPathBuf { path, stem }),
            None => Err(PathError::NoFileStem { path }),
        }
    }

    /// The file stem.
    pub fn file_stem(&self) -> (r: &str)
        ensures
            r@ == self.spec_stem(),
    {
        self.stem.as_str()
    }

    /// A copy of the path.
    pub fn copy(&self) -> (r: Self)
        ensures
            r == *self,
    {
        Utf8StemmedPathBuf { path: self.path.clone(), stem: self.stem.clone() }
    }

    /// The whole path.
    pub fn as_path(&self) -> (r: &str)
        ensures
            r@ == self@,
    {
        self.path.as_str()
    }
}

} // verus!
