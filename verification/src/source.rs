//! A pack's contents as named byte streams: the format adapter reads a
//! directory tree or archive elsewhere and hands the engine plain
//! `(path, bytes)` pairs, addressable by relative path and extension.

use vstd::prelude::*;
use crate::text;

verus! {

/// One loaded pack source: relative paths mapped to file contents.
pub struct PackSource {
    pub files: Vec<(String, Vec<u8>)>,
}

/// The first file carrying this path, if any.
pub open spec fn file_of(files: Seq<(Seq<char>, Seq<u8>)>, path: Seq<char>) -> Option<Seq<u8>>
    decreases files.len(),
{
    if files.len() == 0 {
        None
    } else if files.first().0 == path {
        Some(files.first().1)
    } else {
        file_of(files.drop_first(), path)
    }
}

/// The stored paths alone.
pub open spec fn file_paths(files: Seq<(String, Vec<u8>)>) -> Seq<Seq<char>> {
    Seq::new(files.len(), |i: int| files[i].0@)
}

/// Views of a list of strings.
pub open spec fn strs_view(s: Seq<String>) -> Seq<Seq<char>> {
    Seq::new(s.len(), |i: int| s[i]@)
}

/// The mathematical shadow of the file list.
pub open spec fn files_view(files: Seq<(String, Vec<u8>)>) -> Seq<(Seq<char>, Seq<u8>)> {
    Seq::new(files.len(), |i: int| (files[i].0@, files[i].1@))
}

/// The path ends in a dot followed by this extension, compared without
/// regard to ASCII case.
pub open spec fn has_ext(path: Seq<char>, ext: Seq<char>) -> bool {
    &&& path.len() > ext.len()
    &&& path[path.len() - ext.len() - 1] == '.'
    &&& text::lower_of(path.skip(path.len() - ext.len())) == text::lower_of(ext)
}

impl PackSource {
    /// An empty source.
    pub fn new() -> (r: PackSource)
        ensures
            r.files@.len() == 0,
    {
        PackSource { files: Vec::new() }
    }

    /// Add one named byte stream.
    pub fn add_file(&mut self, path: String, bytes: Vec<u8>)
        ensures
            final(self).files@ == old(self).files@.push((path, bytes)),
    {
        self.files.push((path, bytes));
    }

    /// Look a file up by its relative path.
    pub fn load_asset(&self, path: &str) -> (r: Option<&Vec<u8>>)
        ensures
            match r {
                Some(b) => file_of(files_view(self.files@), path@) == Some(b@),
                None => file_of(files_view(self.files@), path@) is None,
            },
    {
        let n = self.files.len();
        assert(files_view(self.files@).skip(0) =~= files_view(self.files@));
        for i in 0..n
            invariant
                n == self.files@.len(),
                file_of(files_view(self.files@), path@) == file_of(
                    files_view(self.files@).skip(i as int),
                    path@,
                ),
        {
            proof {
                lemma_file_of_skip(files_view(self.files@), path@, i as int);
            }
            if text::str_is(self.files[i].0.as_str(), path) {
                return Some(&self.files[i].1);
            }
        }
        None
    }

    /// The paths of every file with the given extension, in their
    /// stored order.
    pub fn all_files_with_ext(&self, ext: &str) -> (r: Vec<String>)
        ensures
            strs_view(r@) == file_paths(self.files@).filter(
                |p: Seq<char>| has_ext(p, ext@),
            ),
    {
        let ghost pred = |p: Seq<char>| has_ext(p, ext@);
        let n = self.files.len();
        let mut r: Vec<String> = Vec::new();
        assert(file_paths(self.files@).take(0).filter(pred) =~= Seq::<Seq<char>>::empty()) by {
            reveal_with_fuel(Seq::filter, 1);
        }
        for i in 0..n
            invariant
                n == self.files@.len(),
                pred == (|p: Seq<char>| has_ext(p, ext@)),
                strs_view(r@) == file_paths(self.files@).take(i as int).filter(pred),
        {
            let path = &self.files[i].0;
            if Self::path_has_ext(path.as_str(), ext) {
                r.push(path.clone());
            }
            proof {
                reveal_with_fuel(Seq::filter, 1);
                assert(file_paths(self.files@).take(i + 1).drop_last() =~= file_paths(
                    self.files@,
                ).take(i as int));
                assert(file_paths(self.files@).take(i + 1).last() == self.files@[i as int].0@);
                if pred(self.files@[i as int].0@) {
                    assert(strs_view(r@) =~= file_paths(self.files@).take(i as int).filter(
                        pred,
                    ).push(self.files@[i as int].0@));
                } else {
                    assert(strs_view(r@) =~= file_paths(self.files@).take(i as int).filter(pred));
                }
            }
        }
        assert(file_paths(self.files@).take(n as int) =~= file_paths(self.files@));
        r
    }

    /// Case-insensitive extension test on one path.
    fn path_has_ext(path: &str, ext: &str) -> (r: bool)
        ensures
            r == has_ext(path@, ext@),
    {
        let pn = path.unicode_len();
        let en = ext.unicode_len();
        if pn <= en {
            return false;
        }
        if path.get_char(pn - en - 1) != '.' {
            return false;
        }
        let tail = path.substring_char(pn - en, pn);
        let tl = text::ascii_lower(tail);
        let el = text::ascii_lower(ext);
        assert(tail@ =~= path@.skip(path@.len() - ext@.len()));
        tl == el
    }
}

proof fn lemma_file_of_skip(files: Seq<(Seq<char>, Seq<u8>)>, path: Seq<char>, i: int)
    requires
        0 <= i < files.len(),
    ensures
        file_of(files.skip(i), path) == (if files[i].0 == path {
            Some(files[i].1)
        } else {
            file_of(files.skip(i + 1), path)
        }),
{
    assert(files.skip(i).first() == files[i]);
    assert(files.skip(i).drop_first() =~= files.skip(i + 1));
}

} // verus!
