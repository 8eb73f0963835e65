//! Font files used to render text, and how a font's path is resolved.
//!
//! An absolute path is kept as given. A relative path that exists is made
//! canonical; otherwise it is taken relative to the engine's own directory
//! (where the bundled fonts live), made canonical when that file exists.
//! The file system answers are gathered by the caller.

use vstd::prelude::*;

verus! {

/// What the file system says about a font path.
pub struct PathFacts {
    /// The path is absolute.
    pub is_absolute: bool,
    /// The path names an existing file.
    pub exists: bool,
    /// The canonical form of the path, when it could be formed.
    pub canonical: Option<String>,
    /// The path joined to the engine's own directory.
    pub bundled: String,
    /// The canonical form of the bundled path, when it could be formed.
    pub bundled_canonical: Option<String>,
}

/// The path a font given as `path` is read from.
pub open spec fn resolved_path(path: Seq<char>, facts: PathFacts) -> Seq<char> {
    if facts.is_absolute {
        path
    } else if facts.exists {
        match facts.canonical {
            Some(canonical) => canonical@,
            None => path,
        }
    } else {
        match facts.bundled_canonical {
            Some(canonical) => canonical@,
            None => facts.bundled@,
        }
    }
}

/// Font file used to render a text shape.
#[derive(Clone, Debug)]
pub struct Font {
    path: String,
}

impl Font {
    /// Creates a font from a TTF or OTF file at `path`, resolved with `facts`.
    pub fn new(path: String, facts: PathFacts) -> (font: Self)
        ensures
            font.path_view() == resolved_path(path@, facts),
    {
        let resolved = if facts.is_absolute {
            path
        } else if facts.exists {
            match facts.canonical {
                Some(canonical) => canonical,
                None => path,
            }
        } else {
            match facts.bundled_canonical {
                Some(canonical) => canonical,
                None => facts.bundled,
            }
        };
        Font { path: resolved }
    }

    /// The font file path.
    pub closed spec fn path_view(&self) -> Seq<char> {
        self.path@
    }

    /// Returns the font file path.
    pub fn path(&self) -> (path: &str)
        ensures
            path@ == self.path_view(),
    {
        self.path.as_str()
    }
}

} // verus!
