//! Matching of paths against the configured file extensions.

use vstd::prelude::*;

verus! {

/// The extension of a path, as `std::path::Path::extension` reads it from the
/// path's text under the path syntax of the platform that the library is built
/// for: the part of the file name behind its last dot, without the dot, if
/// the file name has one that is not its first character.
pub uninterp spec fn path_extension(path: Seq<char>) -> Option<Seq<char>>;

/// `std::path::Path::extension`, on a path given as text. The result is the
/// extension that [`path_extension`] names, and there is none exactly where
/// that has none.
#[verifier::external_body]
fn extension_of(path: &str) -> (extension: Option<String>)
    ensures
        match extension {
            Some(text) => path_extension(path@) == Some(text@),
            None => path_extension(path@).is_none(),
        },
{
    match std::path::Path::new(path).extension() {
        Some(extension) => Some(extension.to_string_lossy().into_owned()),
        None => None,
    }
}

/// A configured pattern without the dot that it may begin with: `.md` and `md`
/// both stand for the extension `md`.
pub open spec fn bare_extension(pattern: Seq<char>) -> Seq<char> {
    if pattern.len() > 0 && pattern[0] == '.' {
        pattern.skip(1)
    } else {
        pattern
    }
}

/// Whether `extension` is one of `extensions`.
pub open spec fn accepts_extension(extensions: Seq<Seq<char>>, extension: Seq<char>) -> bool {
    extensions.contains(extension)
}

/// Whether `path` has an extension, and that one of `extensions`.
pub open spec fn matches_path(extensions: Seq<Seq<char>>, path: Seq<char>) -> bool {
    match path_extension(path) {
        Some(extension) => accepts_extension(extensions, extension),
        None => false,
    }
}

/// Exec counterpart of [`bare_extension`].
pub fn strip_dot(pattern: &String) -> (bare: String)
    ensures
        bare@ == bare_extension(pattern@),
{
    let text = pattern.as_str();
    let length = text.unicode_len();
    if length > 0 && text.get_char(0) == '.' {
        let bare = text.substring_char(1, length).to_owned();
        assert(bare@ =~= pattern@.skip(1));
        bare
    } else {
        pattern.clone()
    }
}

/// The file extensions that count as watched content.
///
/// Its view is the list of extensions, each without a leading dot.
pub struct FileExtensions {
    extensions: Vec<String>,
}

impl View for FileExtensions {
    type V = Seq<Seq<char>>;

    closed spec fn view(&self) -> Seq<Seq<char>> {
        self.extensions.deep_view()
    }
}

impl Clone for FileExtensions {
    fn clone(&self) -> (copy: FileExtensions)
        ensures
            copy@ == self@,
    {
        let mut extensions: Vec<String> = Vec::new();
        let mut i: usize = 0;
        while i < self.extensions.len()
            invariant
                i <= self.extensions.len(),
                extensions.len() == i,
                forall|k: int| 0 <= k < i ==> (#[trigger] extensions[k])@ == self.extensions[k]@,
            decreases self.extensions.len() - i,
        {
            extensions.push(self.extensions[i].clone());
            i += 1;
        }
        let copy = FileExtensions { extensions };
        assert(copy@ =~= self@);
        copy
    }
}

impl FileExtensions {
    /// The extensions that `patterns` stand for, in their order. A pattern may
    /// be written with or without its leading dot.
    pub fn new(patterns: Vec<String>) -> (extensions: FileExtensions)
        ensures
            extensions@ == patterns.deep_view().map_values(
                |pattern: Seq<char>| bare_extension(pattern),
            ),
    {
        let mut bare: Vec<String> = Vec::new();
        let mut i: usize = 0;
        while i < patterns.len()
            invariant
                i <= patterns.len(),
                bare.len() == i,
                forall|k: int|
                    0 <= k < i ==> (#[trigger] bare[k])@ == bare_extension(patterns[k]@),
            decreases patterns.len() - i,
        {
            bare.push(strip_dot(&patterns[i]));
            i += 1;
        }
        let extensions = FileExtensions { extensions: bare };
        assert(extensions@ =~= patterns.deep_view().map_values(
            |pattern: Seq<char>| bare_extension(pattern),
        ));
        extensions
    }

    /// The number of extensions.
    pub fn len(&self) -> (count: usize)
        ensures
            count == self@.len(),
    {
        self.extensions.len()
    }

    /// Whether `extension`, written without a dot, is one of these.
    pub fn accepts(&self, extension: &String) -> (accepted: bool)
        ensures
            accepted == accepts_extension(self@, extension@),
    {
        let mut i: usize = 0;
        while i < self.extensions.len()
            invariant
                i <= self.extensions.len(),
                forall|k: int| 0 <= k < i ==> (#[trigger] self@[k]) != extension@,
            decreases self.extensions.len() - i,
        {
            if self.extensions[i] == *extension {
                assert(self@[i as int] == extension@);
                return true;
            }
            assert(self@[i as int] == self.extensions[i as int]@);
            i += 1;
        }
        false
    }

    /// Whether the extension of a path, if it has one, is one of these.
    pub fn accepts_optional(&self, extension: &Option<String>) -> (accepted: bool)
        ensures
            accepted == match extension {
                Some(text) => accepts_extension(self@, text@),
                None => false,
            },
    {
        match extension {
            Some(text) => self.accepts(text),
            None => false,
        }
    }

    /// Whether `path` has one of these extensions.
    pub fn matches(&self, path: &str) -> (matched: bool)
        ensures
            matched == matches_path(self@, path@),
    {
        let extension = extension_of(path);
        self.accepts_optional(&extension)
    }
}

} // verus!
