//! The package container, held behind a small trusted boundary around the
//! `zip` crate. An archive is modelled as a sequence of entries, each a
//! stored name, a directory flag, and the entry's bytes.
//!
//! Two names describe what the crate computes from raw bytes:
//! `zip_names` is the entry listing that opening an archive exposes, and
//! `zip_entry_data` is what reading entry `i` yields. Both depend on the
//! bytes alone.

use vstd::prelude::*;
use vstd::string::*;

use crate::paths::last_char_is;

verus! {

/// An error surfaced by the archive container.
#[derive(Clone, Copy, PartialEq, Eq, Structural, Debug)]
pub enum ArchiveError {
    /// The named entry does not exist.
    NotFound,
    /// The container refused the operation or the data is unreadable.
    Corrupt,
}

/// The listing that opening an archive over `bytes` exposes: the stored
/// name and directory flag of each entry, in index order; `None` when the
/// bytes are not an archive.
pub uninterp spec fn zip_names(bytes: Seq<u8>) -> Option<Seq<(Seq<char>, bool)>>;

/// What fully reading entry `i` of the archive over `bytes` yields;
/// `None` when the entry cannot be read back.
pub uninterp spec fn zip_entry_data(bytes: Seq<u8>, i: int) -> Option<Seq<u8>>;

/// An ASCII character: cp437 and UTF-8 decoding both keep it as itself.
pub open spec fn is_ascii_char(c: char) -> bool {
    (c as u32) < 128
}

/// The names and flags of a modelled entry sequence.
pub open spec fn names_of(es: Seq<(Seq<char>, bool, Seq<u8>)>) -> Seq<(Seq<char>, bool)> {
    es.map_values(|e: (Seq<char>, bool, Seq<u8>)| (e.0, e.1))
}

/// The bytes decode to exactly the given entries.
pub open spec fn archive_holds(bytes: Seq<u8>, es: Seq<(Seq<char>, bool, Seq<u8>)>) -> bool {
    &&& zip_names(bytes) == Some(names_of(es))
    &&& forall|i: int| 0 <= i < es.len() ==> #[trigger] zip_entry_data(bytes, i) == Some(es[i].2)
}

/// An archive being written in memory.
#[verifier::external_body]
pub struct ArchiveWriter {
    inner: zip::ZipWriter<std::io::Cursor<Vec<u8>>>,
}

/// The entries written so far.
pub uninterp spec fn writer_entries(w: ArchiveWriter) -> Seq<(Seq<char>, bool, Seq<u8>)>;

impl ArchiveWriter {
    /// Relies on zip::ZipWriter::new over an in-memory cursor: a fresh
    /// archive holds no entries.
    #[verifier::external_body]
    pub fn new() -> (w: ArchiveWriter)
        ensures
            writer_entries(w) == Seq::<(Seq<char>, bool, Seq<u8>)>::empty(),
    {
        ArchiveWriter { inner: zip::ZipWriter::new(std::io::Cursor::new(Vec::new())) }
    }

    /// Relies on zip::ZipWriter::add_directory: it appends one directory
    /// entry whose stored name is the given name with `/` appended (the
    /// name must not already end in a separator), and fails rather than
    /// store a second entry under an existing name.
    #[verifier::external_body]
    pub fn add_directory(&mut self, name: &str) -> (r: Result<(), ArchiveError>)
        requires
            name@.len() > 0,
            !last_char_is(name@, '/'),
            !last_char_is(name@, '\\'),
        ensures
            r is Ok ==> writer_entries(*final(self)) == writer_entries(*old(self)).push(
                (name@ + seq!['/'], true, Seq::<u8>::empty()),
            ),
    {
        self.inner.add_directory(name, zip::write::SimpleFileOptions::default()).map_err(
            |_| ArchiveError::Corrupt,
        )
    }

    /// Relies on zip::ZipWriter::start_file and std::io::Write::write_all:
    /// together they append one file entry with the given stored name and
    /// bytes; zip fails rather than store a second entry under an existing
    /// name.
    #[verifier::external_body]
    pub fn add_file(&mut self, name: &str, data: &[u8]) -> (r: Result<(), ArchiveError>)
        requires
            name@.len() > 0,
            !last_char_is(name@, '/'),
            !last_char_is(name@, '\\'),
        ensures
            r is Ok ==> writer_entries(*final(self)) == writer_entries(*old(self)).push(
                (name@, false, data@),
            ),
    {
        if let Err(_) = self.inner.start_file(name, zip::write::SimpleFileOptions::default()) {
            return Err(ArchiveError::Corrupt);
        }
        match std::io::Write::write_all(&mut self.inner, data) {
            Ok(()) => Ok(()),
            Err(_) => Err(ArchiveError::Corrupt),
        }
    }

    /// Relies on zip::ZipWriter::finish: the returned bytes are a complete
    /// archive that reads back as exactly the entries written, in order.
    #[verifier::external_body]
    pub fn finish(self) -> (r: Result<Vec<u8>, ArchiveError>)
        ensures
            r matches Ok(b) ==> archive_holds(b@, writer_entries(self)),
    {
        match self.inner.finish() {
            Ok(cursor) => Ok(cursor.into_inner()),
            Err(_) => Err(ArchiveError::Corrupt),
        }
    }
}

/// An archive opened for reading.
#[verifier::external_body]
pub struct ArchiveReader {
    inner: zip::ZipArchive<std::io::Cursor<Vec<u8>>>,
}

/// The raw bytes the reader was opened over.
pub uninterp spec fn reader_raw(a: ArchiveReader) -> Seq<u8>;

impl ArchiveReader {
    /// Relies on zip::ZipArchive::new: it succeeds exactly when the bytes
    /// carry a readable entry listing.
    #[verifier::external_body]
    pub fn open(bytes: &[u8]) -> (r: Result<ArchiveReader, ArchiveError>)
        ensures
            match r {
                Ok(a) => reader_raw(a) == bytes@ && zip_names(bytes@) is Some,
                Err(_) => zip_names(bytes@) is None,
            },
    {
        match zip::ZipArchive::new(std::io::Cursor::new(bytes.to_vec())) {
            Ok(inner) => Ok(ArchiveReader { inner }),
            Err(_) => Err(ArchiveError::Corrupt),
        }
    }

    /// Relies on zip::ZipArchive::len: the number of listed entries.
    #[verifier::external_body]
    pub fn len(&self) -> (r: usize)
        requires
            zip_names(reader_raw(*self)) is Some,
        ensures
            r == zip_names(reader_raw(*self)).unwrap().len(),
    {
        self.inner.len()
    }

    /// Relies on zip::ZipArchive::by_index, zip::read::ZipFile::{name,
    /// is_dir} and std::io::Read::read_to_end: entry `i` as listed, with
    /// its bytes fully read.
    #[verifier::external_body]
    pub fn entry(&mut self, i: usize) -> (r: Result<(String, bool, Vec<u8>), ArchiveError>)
        requires
            zip_names(reader_raw(*old(self))) is Some,
            i < zip_names(reader_raw(*old(self))).unwrap().len(),
        ensures
            reader_raw(*final(self)) == reader_raw(*old(self)),
            match r {
                Ok((nm, dir, data)) => {
                    &&& zip_names(reader_raw(*old(self))).unwrap()[i as int] == (nm@, dir)
                    &&& zip_entry_data(reader_raw(*old(self)), i as int) == Some(data@)
                },
                Err(_) => zip_entry_data(reader_raw(*old(self)), i as int) is None,
            },
    {
        match self.inner.by_index(i) {
            Ok(mut file) => {
                let name = file.name().to_string();
                let is_dir = file.is_dir();
                let mut data = Vec::new();
                match std::io::Read::read_to_end(&mut file, &mut data) {
                    Ok(_) => Ok((name, is_dir, data)),
                    Err(_) => Err(ArchiveError::Corrupt),
                }
            },
            Err(_) => Err(ArchiveError::Corrupt),
        }
    }

    /// Relies on zip::ZipArchive::by_name and std::io::Read::read_to_end:
    /// the bytes of some entry stored under exactly the given name;
    /// `NotFound` exactly when no entry has that name. by_name matches
    /// the raw stored name bytes, while the listing carries decoded
    /// names; the two agree only for ASCII (cp437 and UTF-8 both keep
    /// ASCII as itself, and no other stored bytes decode to it), so the
    /// name looked up must be ASCII.
    #[verifier::external_body]
    pub fn entry_by_name(&mut self, name: &str) -> (r: Result<Vec<u8>, ArchiveError>)
        requires
            zip_names(reader_raw(*old(self))) is Some,
            forall|i: int| 0 <= i < name@.len() ==> is_ascii_char(#[trigger] name@[i]),
        ensures
            reader_raw(*final(self)) == reader_raw(*old(self)),
            match r {
                Ok(data) => exists|j: int|
                    {
                        &&& 0 <= j < zip_names(reader_raw(*old(self))).unwrap().len()
                        &&& (#[trigger] zip_names(reader_raw(*old(self))).unwrap()[j]).0 == name@
                        &&& zip_entry_data(reader_raw(*old(self)), j) == Some(data@)
                    },
                Err(ArchiveError::NotFound) => forall|j: int|
                    0 <= j < zip_names(reader_raw(*old(self))).unwrap().len() ==> (
                    #[trigger] zip_names(reader_raw(*old(self))).unwrap()[j]).0 != name@,
                Err(ArchiveError::Corrupt) => exists|j: int|
                    {
                        &&& 0 <= j < zip_names(reader_raw(*old(self))).unwrap().len()
                        &&& (#[trigger] zip_names(reader_raw(*old(self))).unwrap()[j]).0 == name@
                        &&& zip_entry_data(reader_raw(*old(self)), j) is None
                    },
            },
    {
        match self.inner.by_name(name) {
            Ok(mut file) => {
                let mut data = Vec::new();
                match std::io::Read::read_to_end(&mut file, &mut data) {
                    Ok(_) => Ok(data),
                    Err(_) => Err(ArchiveError::Corrupt),
                }
            },
            Err(zip::result::ZipError::FileNotFound) => Err(ArchiveError::NotFound),
            Err(_) => Err(ArchiveError::Corrupt),
        }
    }
}

/// Relies on std's str::from_utf8: it succeeds exactly on valid UTF-8,
/// yielding its decoding.
#[verifier::external_body]
pub fn utf8_to_str(b: &[u8]) -> (r: Option<&str>)
    ensures
        match r {
            Some(s) => vstd::utf8::valid_utf8(b@) && s@ == vstd::utf8::decode_utf8(b@),
            None => !vstd::utf8::valid_utf8(b@),
        },
{
    std::str::from_utf8(b).ok()
}

} // verus!
