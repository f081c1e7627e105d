//! Read-only access to zip archives held in memory. The `zip` crate does
//! the decoding behind a small trusted boundary; everything above it works
//! with the archive's mathematical contents: a sequence of entries, each a
//! raw name, a directory flag, and the entry's decompressed bytes.

use vstd::prelude::*;

verus! {

/// An in-memory reader over owned bytes (`std::io::Cursor`), declared so
/// archives over byte buffers can appear in signatures.
#[verifier::external_type_specification]
#[verifier::external_body]
#[verifier::reject_recursive_types(T)]
pub struct ExCursor<T>(std::io::Cursor<T>);

/// The `zip` crate's archive reader.
#[verifier::external_type_specification]
#[verifier::external_body]
#[verifier::reject_recursive_types(R)]
pub struct ExZipArchive<R>(zip::ZipArchive<R>);

/// What an archive value holds: for each entry in archive order, its raw
/// name, whether it is a directory entry, and its decompressed bytes.
pub uninterp spec fn archive_entries(a: zip::ZipArchive<std::io::Cursor<Vec<u8>>>) -> Seq<
    (Seq<char>, bool, Seq<u8>),
>;

/// The parse of a byte buffer as a zip archive: the entries it holds, or
/// nothing when the bytes are not a readable archive. Whether the parse
/// succeeds, and what it yields, is a function of the bytes alone.
pub uninterp spec fn zip_entries_of(bytes: Seq<u8>) -> Option<Seq<(Seq<char>, bool, Seq<u8>)>>;

/// Whether entry `i` of this archive value can be handed out in full (its
/// local header and compressed data are sound). A function of the archive
/// value and the index alone.
pub uninterp spec fn entry_ok(a: zip::ZipArchive<std::io::Cursor<Vec<u8>>>, i: int) -> bool;

/// One archive entry handed out as plain values.
pub struct ArchiveEntry {
    pub name: String,
    pub is_dir: bool,
    pub data: Vec<u8>,
}

impl View for ArchiveEntry {
    type V = (Seq<char>, bool, Seq<u8>);

    open spec fn view(&self) -> (Seq<char>, bool, Seq<u8>) {
        (self.name@, self.is_dir, self.data@)
    }
}

/// Relies on `zip::ZipArchive::new` over an in-memory cursor: parses the
/// archive's central directory out of `bytes`. Success and contents are a
/// function of the bytes alone.
#[verifier::external_body]
fn zip_open(bytes: Vec<u8>) -> (r: Result<zip::ZipArchive<std::io::Cursor<Vec<u8>>>, String>)
    ensures
        r is Ok <==> zip_entries_of(bytes@) is Some,
        r matches Ok(a) ==> Some(archive_entries(a)) == zip_entries_of(bytes@),
{
    match zip::ZipArchive::new(std::io::Cursor::new(bytes)) {
        Ok(a) => Ok(a),
        Err(e) => Err(e.to_string()),
    }
}

/// Relies on `zip::ZipArchive::len`: the number of entries in the archive.
#[verifier::external_body]
fn zip_len(a: &zip::ZipArchive<std::io::Cursor<Vec<u8>>>) -> (r: usize)
    ensures
        r == archive_entries(*a).len(),
{
    a.len()
}

/// Relies on `zip::ZipArchive::by_index` and the entry accessors `name`,
/// `is_dir` and `Read::read_to_end`: hands out entry `i` as plain values,
/// succeeding exactly when that entry is readable, and leaves the
/// archive's contents and readability unchanged (reading only moves the
/// cursor, never the parsed metadata or the underlying bytes).
#[verifier::external_body]
fn zip_entry(a: &mut zip::ZipArchive<std::io::Cursor<Vec<u8>>>, i: usize) -> (r: Result<
    ArchiveEntry,
    String,
>)
    requires
        i < archive_entries(*old(a)).len(),
    ensures
        archive_entries(*final(a)) == archive_entries(*old(a)),
        forall|j: int| #[trigger] entry_ok(*final(a), j) == entry_ok(*old(a), j),
        r is Ok <==> entry_ok(*old(a), i as int),
        r matches Ok(e) ==> e@ == archive_entries(*old(a))[i as int],
{
    let mut f = match a.by_index(i) {
        Ok(f) => f,
        Err(e) => return Err(e.to_string()),
    };
    let name = f.name().to_string();
    let is_dir = f.is_dir();
    let mut data: Vec<u8> = Vec::new();
    if let Err(e) = std::io::Read::read_to_end(&mut f, &mut data) {
        return Err(e.to_string());
    }
    Ok(ArchiveEntry { name, is_dir, data })
}

/// A zip archive opened from bytes held in memory.
pub struct Archive {
    inner: zip::ZipArchive<std::io::Cursor<Vec<u8>>>,
}

impl Archive {
    /// The entries this archive holds, in archive order.
    pub closed spec fn entries(&self) -> Seq<(Seq<char>, bool, Seq<u8>)> {
        archive_entries(self.inner)
    }

    /// Whether entry `i` can be read in full.
    pub closed spec fn entry_ok_at(&self, i: int) -> bool {
        entry_ok(self.inner, i)
    }

    /// Open an archive from its raw bytes: succeeds exactly when the bytes
    /// parse as a zip archive, and then holds that parse's entries.
    pub fn open(bytes: Vec<u8>) -> (r: Result<Archive, String>)
        ensures
            r is Ok <==> zip_entries_of(bytes@) is Some,
            r matches Ok(a) ==> Some(a.entries()) == zip_entries_of(bytes@),
    {
        match zip_open(bytes) {
            Ok(a) => Ok(Archive { inner: a }),
            Err(e) => Err(e),
        }
    }

    /// The number of entries.
    pub fn len(&self) -> (r: usize)
        ensures
            r == self.entries().len(),
    {
        zip_len(&self.inner)
    }

    /// Entry `i` as plain values, exactly when it is readable; the
    /// archive's contents and readability are unchanged.
    pub fn entry(&mut self, i: usize) -> (r: Result<ArchiveEntry, String>)
        requires
            i < old(self).entries().len(),
        ensures
            final (self).entries() == old(self).entries(),
            forall|j: int| #[trigger] final (self).entry_ok_at(j) == old(self).entry_ok_at(j),
            r is Ok <==> old(self).entry_ok_at(i as int),
            r matches Ok(e) ==> e@ == old(self).entries()[i as int],
    {
        zip_entry(&mut self.inner, i)
    }

    /// All entries, extracted in order: succeeds exactly when every entry
    /// is readable; the archive is left as it was.
    pub fn entries_vec(&mut self) -> (r: Result<Vec<ArchiveEntry>, String>)
        ensures
            final (self).entries() == old(self).entries(),
            forall|j: int| #[trigger] final (self).entry_ok_at(j) == old(self).entry_ok_at(j),
            r is Ok <==> (forall|j: int|
                0 <= j < old(self).entries().len() ==> #[trigger] old(self).entry_ok_at(j)),
            r matches Ok(v) ==> v@.map_values(|e: ArchiveEntry| e@) == old(self).entries(),
    {
        let n = self.len();
        let mut out: Vec<ArchiveEntry> = Vec::new();
        proof {
            assert(out@.map_values(|e: ArchiveEntry| e@) =~= old(self).entries().take(0));
        }
        let mut i: usize = 0;
        while i < n
            invariant
                0 <= i <= n,
                n == self.entries().len(),
                self.entries() == old(self).entries(),
                forall|j: int| #[trigger] self.entry_ok_at(j) == old(self).entry_ok_at(j),
                forall|m: int| 0 <= m < i ==> #[trigger] old(self).entry_ok_at(m),
                out@.map_values(|e: ArchiveEntry| e@) == old(self).entries().take(i as int),
            decreases n - i,
        {
            let ghost acc = out@.map_values(|e: ArchiveEntry| e@);
            match self.entry(i) {
                Ok(e) => {
                    out.push(e);
                    proof {
                        assert(out@.map_values(|e2: ArchiveEntry| e2@) =~= acc.push(
                            old(self).entries()[i as int],
                        ));
                        assert(acc.push(old(self).entries()[i as int]) =~= old(
                            self,
                        ).entries().take(i + 1));
                    }
                },
                Err(msg) => {
                    proof {
                        assert(!old(self).entry_ok_at(i as int));
                    }
                    return Err(msg);
                },
            }
            i += 1;
        }
        proof {
            assert(old(self).entries().take(n as int) =~= old(self).entries());
        }
        Ok(out)
    }
}

} // verus!
