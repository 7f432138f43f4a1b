//! The archive form of a pack source: a single file holding the same
//! tree of named byte streams.  Decompression is the zip crate's; the
//! selection of entries into a `PackSource` is verified here.

use vstd::prelude::*;
use std::io::Read;
use crate::source::PackSource;

verus! {

/// The entries an archive's bytes decode to — name, contents (nothing
/// when that one entry does not decompress), whether it is a directory
/// — or nothing at all when the bytes are not a readable archive.  A
/// function of the bytes alone; named rather than written out: the
/// format lives in the zip crate.
pub uninterp spec fn archive_entries(bytes: Seq<u8>) -> Option<
    Seq<(Seq<char>, Option<Seq<u8>>, bool)>,
>;

/// The bytes an open archive reader was made over.  Like a name for
/// what a collection holds, its parameter is the opaque reader itself.
pub uninterp spec fn archive_bytes(r: ArchiveReader) -> Seq<u8>;

/// The zip crate's archive reader over an in-memory buffer, held
/// opaquely like the definition reader.
#[verifier::external_body]
pub struct ArchiveReader {
    inner: zip::ZipArchive<std::io::Cursor<Vec<u8>>>,
}

impl ArchiveReader {
    /// Relies on zip's ZipArchive::new: opens the central directory;
    /// succeeds exactly when the bytes are a readable archive.
    #[verifier::external_body]
    fn open(bytes: &Vec<u8>) -> (r: Option<ArchiveReader>)
        ensures
            r matches Some(a) ==> archive_bytes(a) == bytes@ && archive_entries(bytes@) is Some,
            r is None ==> archive_entries(bytes@) is None,
    {
        match zip::ZipArchive::new(std::io::Cursor::new(bytes.clone())) {
            Ok(inner) => Some(ArchiveReader { inner }),
            Err(_) => None,
        }
    }

    /// Relies on zip's ZipArchive::len: how many entries the archive
    /// holds.
    #[verifier::external_body]
    fn count(&self) -> (r: usize)
        ensures
            r == archive_entries(archive_bytes(*self))->Some_0.len(),
    {
        self.inner.len()
    }

    /// Relies on zip's by_index and the entry's name, directory flag
    /// and contents: exactly the entry at this index, succeeding
    /// precisely when that entry decompresses.
    #[verifier::external_body]
    fn entry(&mut self, i: usize) -> (r: Option<(String, Vec<u8>, bool)>)
        ensures
            archive_bytes(*final(self)) == archive_bytes(*old(self)),
            match r {
                Some(t) => ({
                    let es = archive_entries(archive_bytes(*old(self)))->Some_0;
                    i < es.len() && es[i as int].0 == t.0@ && es[i as int].1 == Some(t.1@)
                        && es[i as int].2 == t.2
                }),
                None => ({
                    let es = archive_entries(archive_bytes(*old(self)))->Some_0;
                    i >= es.len() || es[i as int].1 is None
                }),
            },
    {
        let mut file = self.inner.by_index(i).ok()?;
        let name = file.name().to_string();
        let is_dir = file.is_dir();
        let mut bytes = Vec::new();
        file.read_to_end(&mut bytes).ok()?;
        Some((name, bytes, is_dir))
    }
}

/// The named streams the first `i` archive entries yield: each
/// non-directory entry that decompresses, in archive order.
pub open spec fn files_of_entries(
    es: Seq<(Seq<char>, Option<Seq<u8>>, bool)>,
    i: int,
) -> Seq<(Seq<char>, Seq<u8>)>
    decreases i,
{
    if i <= 0 {
        Seq::empty()
    } else {
        files_of_entries(es, i - 1) + (match es[i - 1].1 {
            Some(d) => if !es[i - 1].2 {
                seq![(es[i - 1].0, d)]
            } else {
                Seq::empty()
            },
            None => Seq::empty(),
        })
    }
}

/// Read an archive's bytes into a pack source: exactly the
/// non-directory entries that decompress, as named byte streams in
/// archive order; directories are structure, not content.  Yields
/// nothing when the bytes are not a readable archive.
pub fn source_from_archive(bytes: &Vec<u8>) -> (r: Option<PackSource>)
    ensures
        r is Some <==> archive_entries(bytes@) is Some,
        r matches Some(s) ==> ({
            let es = archive_entries(bytes@)->Some_0;
            crate::source::files_view(s.files@) == files_of_entries(es, es.len() as int)
        }),
{
    let mut reader = match ArchiveReader::open(bytes) {
        Some(a) => a,
        None => {
            return None;
        },
    };
    let n = reader.count();
    let mut source = PackSource::new();
    let ghost es = archive_entries(bytes@)->Some_0;
    assert(crate::source::files_view(source.files@) =~= files_of_entries(es, 0));
    for i in 0..n
        invariant
            archive_bytes(reader) == bytes@,
            archive_entries(bytes@) == Some(es),
            n == es.len(),
            crate::source::files_view(source.files@) == files_of_entries(es, i as int),
    {
        let ghost prev = source.files@;
        match reader.entry(i) {
            Some((name, data, is_dir)) => {
                proof {
                    assert(es[i as int].0 == name@ && es[i as int].1 == Some(data@)
                        && es[i as int].2 == is_dir);
                }
                if !is_dir {
                    let ghost nm = name@;
                    let ghost dt = data@;
                    source.add_file(name, data);
                    proof {
                        assert(crate::source::files_view(source.files@) =~= crate::source::files_view(
                            prev,
                        ).push((nm, dt)));
                        assert(files_of_entries(es, i + 1) =~= files_of_entries(es, i as int)
                            + seq![(es[i as int].0, dt)]);
                        assert(crate::source::files_view(source.files@) =~= files_of_entries(
                            es,
                            i + 1,
                        ));
                    }
                } else {
                    proof {
                        assert(files_of_entries(es, i + 1) =~= files_of_entries(es, i as int));
                    }
                }
            },
            None => {
                proof {
                    assert(es[i as int].1 is None);
                    assert(files_of_entries(es, i + 1) =~= files_of_entries(es, i as int));
                }
            },
        }
    }
    Some(source)
}

} // verus!
