//! Storage abstraction: directory entries and the provider capability.

pub mod git;
pub mod local;

use crate::strutil::{
    chars_to_string, lemma_rfind_char, rfind_char, str_to_chars, vec_rfind_char, vec_subrange,
};
use vstd::prelude::*;

verus! {

/// One file of a provider's listing.
#[derive(Debug, PartialEq, Eq, Hash)]
pub struct DirEntry {
    /// The slash-normalized relative path without extension: the document key.
    pub filename: String,
    /// The full path, with filename and extension, used to load the file.
    pub full_path: String,
    /// The extension, used to pick a loader.
    pub ext: String,
}

impl Clone for DirEntry {
    /// A copy with the same fields.
    fn clone(&self) -> (r: DirEntry)
        ensures
            r.filename@ == self.filename@,
            r.full_path@ == self.full_path@,
            r.ext@ == self.ext@,
    {
        DirEntry {
            filename: self.filename.clone(),
            full_path: self.full_path.clone(),
            ext: self.ext.clone(),
        }
    }
}

/// The path with every backslash turned into a slash.
pub open spec fn norm_slashes(s: Seq<char>) -> Seq<char> {
    Seq::new(
        s.len(),
        |i: int|
            if s[i] == '\\' {
                '/'
            } else {
                s[i]
            },
    )
}

/// Where the extension of a relative path starts: the index of the last dot
/// of its final component, where that dot is not the component's first
/// character; `-1` where the path has no extension.
pub open spec fn ext_dot_index(rel: Seq<char>) -> int {
    let comp_start = rfind_char(rel, '/') + 1;
    let di = rfind_char(rel, '.');
    if di > comp_start {
        di
    } else {
        -1
    }
}

/// The key of a relative path: the path without its extension, slashes
/// normalized.
pub open spec fn key_of_path(rel: Seq<char>) -> Seq<char> {
    let di = ext_dot_index(rel);
    if di < 0 {
        norm_slashes(rel)
    } else {
        norm_slashes(rel.take(di))
    }
}

/// The extension of a relative path: what follows the extension dot, empty
/// where there is none.
pub open spec fn ext_of_path(rel: Seq<char>) -> Seq<char> {
    let di = ext_dot_index(rel);
    if di < 0 {
        Seq::empty()
    } else {
        rel.skip(di + 1)
    }
}

impl DirEntry {
    /// An entry for a file at `relative_path` under the configuration root:
    /// the key is the path with its extension stripped and separators
    /// normalized to `/`; `None` where the key would be empty.
    pub fn from_relative_path(relative_path: &str, full_path: &str) -> (r: Option<DirEntry>)
        ensures
            r matches Some(e) ==> e.filename@ == key_of_path(relative_path@) && e.ext@
                == ext_of_path(relative_path@) && e.full_path@ == full_path@,
            r is None <==> key_of_path(relative_path@).len() == 0,
    {
        let chars = str_to_chars(relative_path);
        let n = chars.len();
        proof {
            lemma_rfind_char(chars@, '/');
            lemma_rfind_char(chars@, '.');
        }
        let slash = vec_rfind_char(&chars, '/');
        let dot = vec_rfind_char(&chars, '.');
        let ghost di = ext_dot_index(relative_path@);
        let (has_ext, dot_idx): (bool, usize) = match dot {
            None => (false, 0),
            Some(d) => {
                proof {
                    assert(d < n);
                }
                match slash {
                    None => (d > 0, d),
                    Some(sl) => {
                        proof {
                            assert(sl < n);
                        }
                        (d > sl + 1, d)
                    },
                }
            },
        };
        proof {
            assert(di == if has_ext {
                dot_idx as int
            } else {
                -1int
            });
        }
        let stem: Vec<char> = if has_ext {
            vec_subrange(&chars, 0, dot_idx)
        } else {
            vec_subrange(&chars, 0, n)
        };
        proof {
            assert(chars@.take(n as int) =~= chars@);
        }
        if stem.len() == 0 {
            proof {
                assert(key_of_path(relative_path@).len() == 0);
            }
            return None;
        }
        let m = stem.len();
        let mut key: Vec<char> = Vec::new();
        let mut i: usize = 0;
        while i < m
            invariant
                0 <= i <= m,
                m == stem@.len(),
                key@ == norm_slashes(stem@).take(i as int),
            decreases m - i,
        {
            let c = stem[i];
            if c == '\\' {
                key.push('/');
            } else {
                key.push(c);
            }
            proof {
                assert(key@ =~= norm_slashes(stem@).take(i + 1));
            }
            i += 1;
        }
        proof {
            assert(norm_slashes(stem@).take(m as int) =~= norm_slashes(stem@));
            assert(norm_slashes(stem@) =~= key_of_path(relative_path@));
        }
        let ext: Vec<char> = if has_ext {
            vec_subrange(&chars, dot_idx + 1, n)
        } else {
            Vec::new()
        };
        proof {
            assert(ext@ =~= ext_of_path(relative_path@));
        }
        Some(
            DirEntry {
                filename: chars_to_string(&key),
                full_path: full_path.to_owned(),
                ext: chars_to_string(&ext),
            },
        )
    }
}

/// A storage backend: lists the available documents and loads their text.
/// Implement it to read configurations from another store.  Nothing is
/// promised of either call: what a store returns is the store's affair, and
/// every caller in this crate states its own result relative to what came
/// back.
pub trait FileProvider {
    /// The text of the file at `path`, where it exists and can be read.
    fn load(&self, path: &str) -> Option<String>;

    /// All available entries.
    fn list(&self) -> Vec<DirEntry>;
}

} // verus!
