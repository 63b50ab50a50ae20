//! The archive codec: an in-memory zip writer whose entries are named safely
//! and uniquely, and a reader that turns a zip container into the steps that
//! rebuild its tree under a destination root.
use std::io::Cursor;
use vstd::prelude::*;
use vstd::string::StrSliceExecFns;
use vstd::string::StringExecFns;

use crate::paths::{
    file_entry_name, is_directory_name, is_safe_entry_name, names_directory, safe_entry_name,
    views,
};

verus! {

#[verifier::external_type_specification]
#[verifier::external_body]
pub struct ExZipError(zip::result::ZipError);

#[verifier::external_type_specification]
#[verifier::external_body]
#[verifier::reject_recursive_types(T)]
pub struct ExCursor<T>(std::io::Cursor<T>);

#[verifier::external_type_specification]
#[verifier::external_body]
#[verifier::reject_recursive_types(R)]
pub struct ExZipArchive<R>(zip::ZipArchive<R>);

/// The zip writer of an archive under construction, over an in-memory
/// buffer: an append-only sequence of entries that Verus sees only through
/// the functions below.
#[verifier::external_body]
pub struct ZipStream {
    w: zip::ZipWriter<Cursor<Vec<u8>>>,
}

/// The most entries the writer stores: the zip end record counts them in 16
/// bits.
pub const MAX_ENTRIES: usize = 65535;

/// The longest entry name, in characters, that the writer stores; at four
/// bytes a character it stays far below the 16-bit length of a zip header.
pub const MAX_NAME_CHARS: usize = 1024;

/// The most content bytes, over all entries, that the writer stores: with
/// the headers and DEFLATE's overhead every offset and size stays below the
/// 32-bit limit of a zip archive without zip64 extensions.
pub const MAX_TOTAL_BYTES: usize = 0x8000_0000;

/// The entries of the zip container held in `bytes`, in central-directory
/// order: each one's stored name and decompressed content (an entry flagged
/// as encrypted is read with the empty password).
pub uninterp spec fn zip_contents(bytes: Seq<u8>) -> Seq<(Seq<char>, Seq<u8>)>;

/// zip finds and parses the central directory of the container in `bytes`.
pub uninterp spec fn zip_opens(bytes: Seq<u8>) -> bool;

/// zip opens the container in `bytes`, and reads every entry's stored name
/// and content without error.
pub uninterp spec fn zip_readable(bytes: Seq<u8>) -> bool;

/// The entries that an opened archive lists, in central-directory order.
pub uninterp spec fn archive_entries(a: zip::ZipArchive<Cursor<Vec<u8>>>) -> Seq<(Seq<char>, Seq<u8>)>;

/// Every entry of an opened archive can be read without error.
pub uninterp spec fn archive_readable(a: zip::ZipArchive<Cursor<Vec<u8>>>) -> bool;

/// The entries written so far to a stream: each one's name and the content
/// written under it, in order.
pub uninterp spec fn stream_entries(s: ZipStream) -> Seq<(Seq<char>, Seq<u8>)>;

/// The number of content bytes over all `entries`.
pub open spec fn total_data(entries: Seq<(Seq<char>, Seq<u8>)>) -> nat
    decreases entries.len(),
{
    if entries.len() == 0 {
        0
    } else {
        total_data(entries.drop_last()) + entries.last().1.len()
    }
}

/// The entries stay within what the writer stores.
pub open spec fn within_limits(entries: Seq<(Seq<char>, Seq<u8>)>) -> bool {
    &&& entries.len() <= MAX_ENTRIES
    &&& forall|i: int| 0 <= i < entries.len() ==> (#[trigger] entries[i]).0.len() < MAX_NAME_CHARS
    &&& total_data(entries) <= MAX_TOTAL_BYTES
}

/// The names of `entries`, in order.
pub open spec fn entry_names(entries: Seq<(Seq<char>, Seq<u8>)>) -> Seq<Seq<char>> {
    entries.map_values(|e: (Seq<char>, Seq<u8>)| e.0)
}

/// Relies on `zip::ZipArchive::new`: it parses the central directory of the
/// container in `bytes`, and the archive then lists that container's entries.
#[verifier::external_body]
fn open_zip(bytes: Vec<u8>) -> (r: Result<zip::ZipArchive<Cursor<Vec<u8>>>, zip::result::ZipError>)
    ensures
        r is Ok <==> zip_opens(bytes@),
        r is Ok ==> archive_entries(r->Ok_0) == zip_contents(bytes@),
        zip_readable(bytes@) ==> r is Ok && archive_readable(r->Ok_0),
{
    zip::ZipArchive::new(Cursor::new(bytes))
}

/// Relies on `zip::ZipArchive::len`: the number of entries listed.
#[verifier::external_body]
fn zip_len(a: &zip::ZipArchive<Cursor<Vec<u8>>>) -> (r: usize)
    ensures
        r == archive_entries(*a).len(),
{
    a.len()
}

/// Relies on `zip::ZipArchive::by_index_raw` and `zip::read::ZipFile::name`:
/// the stored name of entry `i`, read without setting up decompression.
/// Reading moves the cursor only, never the list.
#[verifier::external_body]
fn zip_entry_name(a: &mut zip::ZipArchive<Cursor<Vec<u8>>>, i: usize) -> (r: Result<
    String,
    zip::result::ZipError,
>)
    requires
        i < archive_entries(*old(a)).len(),
    ensures
        archive_entries(*final(a)) == archive_entries(*old(a)),
        archive_readable(*final(a)) == archive_readable(*old(a)),
        r is Ok ==> r->Ok_0@ == archive_entries(*old(a))[i as int].0,
        archive_readable(*old(a)) ==> r is Ok,
{
    a.by_index_raw(i).map(|f| f.name().to_string())
}

/// Relies on `zip::ZipArchive::by_index_decrypt`, with the empty password,
/// and `std::io::Read::read_to_end` on the entry: the decompressed content of
/// entry `i` (a checksum mismatch, corrupt data or a refused password is an
/// error).
#[verifier::external_body]
fn zip_entry_data(a: &mut zip::ZipArchive<Cursor<Vec<u8>>>, i: usize) -> (r: Result<
    Vec<u8>,
    zip::result::ZipError,
>)
    requires
        i < archive_entries(*old(a)).len(),
    ensures
        archive_entries(*final(a)) == archive_entries(*old(a)),
        archive_readable(*final(a)) == archive_readable(*old(a)),
        r is Ok ==> r->Ok_0@ == archive_entries(*old(a))[i as int].1,
        archive_readable(*old(a)) ==> r is Ok,
{
    let mut f = a.by_index_decrypt(i, &[])?.map_err(|_| {
        zip::result::ZipError::UnsupportedArchive(zip::result::ZipError::PASSWORD_REQUIRED)
    })?;
    let mut buf: Vec<u8> = Vec::new();
    std::io::Read::read_to_end(&mut f, &mut buf)?;
    Ok(buf)
}

/// Relies on `zip::ZipWriter::new`: a writer of a new, empty container in
/// memory.
#[verifier::external_body]
fn new_zip_writer() -> (r: ZipStream)
    ensures
        stream_entries(r) == Seq::<(Seq<char>, Seq<u8>)>::empty(),
{
    ZipStream { w: zip::ZipWriter::new(Cursor::new(Vec::new())) }
}

/// Relies on `zip::ZipWriter::start_file`: it closes the entry in progress and
/// declares the entry `name`, compressed with DEFLATE. Over a memory buffer
/// and within the limits nothing fails.
#[verifier::external_body]
fn zip_start_deflated(s: &mut ZipStream, name: &str) -> (r: Result<(), zip::result::ZipError>)
    requires
        within_limits(stream_entries(*old(s))),
        stream_entries(*old(s)).len() < MAX_ENTRIES,
        name@.len() < MAX_NAME_CHARS,
    ensures
        r is Ok,
        stream_entries(*final(s)) == stream_entries(*old(s)).push((name@, Seq::<u8>::empty())),
{
    let options = zip::write::FileOptions::default().compression_method(
        zip::CompressionMethod::Deflated,
    );
    s.w.start_file(name, options)
}

/// Relies on `std::io::Write::write_all` of `zip::ZipWriter`: it compresses
/// `data` into the entry in progress. Over a memory buffer and within the
/// limits nothing fails.
#[verifier::external_body]
fn zip_write_all(s: &mut ZipStream, data: &[u8]) -> (r: Result<(), zip::result::ZipError>)
    requires
        stream_entries(*old(s)).len() > 0,
        total_data(stream_entries(*old(s))) + data@.len() <= MAX_TOTAL_BYTES,
    ensures
        r is Ok,
        stream_entries(*final(s)) == stream_entries(*old(s)).drop_last().push(
            (
                stream_entries(*old(s)).last().0,
                stream_entries(*old(s)).last().1 + data@,
            ),
        ),
{
    std::io::Write::write_all(&mut s.w, data).map_err(zip::result::ZipError::from)
}

/// Relies on `zip::ZipWriter::finish`: it writes the central directory and
/// hands back the container's bytes, which zip reads back as the entries
/// written.
#[verifier::external_body]
fn zip_finish(s: &mut ZipStream) -> (r: Result<Vec<u8>, zip::result::ZipError>)
    requires
        within_limits(stream_entries(*old(s))),
    ensures
        r is Ok,
        zip_readable(r->Ok_0@),
        zip_contents(r->Ok_0@) == stream_entries(*old(s)),
{
    s.w.finish().map(|c| c.into_inner())
}

/// Why an archive could not be written or read.
#[derive(Debug, PartialEq, Eq)]
pub enum ArchiveError {
    /// The zip container is malformed, truncated or uses what is not
    /// supported.
    Format,
    /// This stored name would leave the destination root.
    UnsafePath(String),
    /// This name ends in a separator, so it would be read back as a
    /// directory; the writer stores files only.
    DirectoryName(String),
    /// An entry of this name was already written to the archive.
    DuplicateEntry(String),
    /// Storing this entry would pass `MAX_ENTRIES`, `MAX_NAME_CHARS` or
    /// `MAX_TOTAL_BYTES`.
    LimitExceeded(String),
}

/// Entry names as the writer stores them: each a file name that is safe to
/// extract, none twice.
pub open spec fn distinct_file_names(names: Seq<Seq<char>>) -> bool {
    &&& forall|i: int| 0 <= i < names.len() ==> file_entry_name(#[trigger] names[i])
    &&& forall|i: int, j: int|
        0 <= i < j < names.len() ==> #[trigger] names[i] != #[trigger] names[j]
}

/// A zip archive being written in memory, one entry at a time.
pub struct ArchiveWriter {
    inner: ZipStream,
    names: Vec<String>,
    total: usize,
}

impl View for ArchiveWriter {
    type V = Seq<(Seq<char>, Seq<u8>)>;

    /// The entries written so far, name and content, in order.
    closed spec fn view(&self) -> Seq<(Seq<char>, Seq<u8>)> {
        stream_entries(self.inner)
    }
}

impl ArchiveWriter {
    /// The writer's invariant: its names are safe file names, all distinct,
    /// and its entries stay within the limits.
    pub open spec fn wf(&self) -> bool {
        &&& distinct_file_names(entry_names(self@))
        &&& within_limits(self@)
        &&& self.tracks_stream()
    }

    /// The names and the byte count kept beside the stream match it.
    pub closed spec fn tracks_stream(&self) -> bool {
        &&& views(self.names@) == entry_names(stream_entries(self.inner))
        &&& self.total == total_data(stream_entries(self.inner))
    }

    /// A writer of an archive with no entries.
    pub fn new() -> (r: ArchiveWriter)
        ensures
            r@ == Seq::<(Seq<char>, Seq<u8>)>::empty(),
            r.wf(),
    {
        let r = ArchiveWriter { inner: new_zip_writer(), names: Vec::new(), total: 0 };
        assert(views(r.names@) =~= entry_names(stream_entries(r.inner)));
        r
    }

    /// The number of entries written.
    pub fn len(&self) -> (r: usize)
        requires
            self.wf(),
        ensures
            r == self@.len(),
    {
        assert(views(self.names@).len() == self.names@.len());
        assert(entry_names(self@).len() == self@.len());
        self.names.len()
    }

    fn contains_name(&self, name: &str) -> (r: bool)
        requires
            self.wf(),
        ensures
            r == entry_names(self@).contains(name@),
    {
        let target = String::from_str(name);
        let mut i: usize = 0;
        while i < self.names.len()
            invariant
                target@ == name@,
                0 <= i <= self.names@.len(),
                views(self.names@) == entry_names(self@),
                forall|j: int| 0 <= j < i ==> entry_names(self@)[j] != name@,
            decreases self.names@.len() - i,
        {
            if self.names[i] == target {
                proof {
                    assert(views(self.names@)[i as int] == name@);
                }
                return true;
            }
            proof {
                assert(views(self.names@)[i as int] == self.names@[i as int]@);
            }
            i = i + 1;
        }
        false
    }

    /// Writes the entry `name` with the content `data`, compressed with
    /// DEFLATE. A name that would leave the destination root on extraction,
    /// that names a directory, or that the archive already holds, is refused,
    /// and so is an entry past the writer's limits; then nothing is written.
    pub fn add_file(&mut self, name: &str, data: &[u8]) -> (r: Result<(), ArchiveError>)
        requires
            old(self).wf(),
        ensures
            final(self).wf(),
            (r is Err && r->Err_0 is UnsafePath) <==> !safe_entry_name(name@),
            (r is Err && r->Err_0 is DirectoryName) <==> (safe_entry_name(name@)
                && names_directory(name@)),
            (r is Err && r->Err_0 is DuplicateEntry) <==> (file_entry_name(name@)
                && entry_names(old(self)@).contains(name@)),
            (r is Err && r->Err_0 is LimitExceeded) <==> (file_entry_name(name@)
                && !entry_names(old(self)@).contains(name@) && !within_limits(
                old(self)@.push((name@, data@)),
            )),
            !(r is Err && r->Err_0 is Format),
            r is Err && r->Err_0 is UnsafePath ==> r->Err_0->UnsafePath_0@ == name@,
            r is Err && r->Err_0 is DirectoryName ==> r->Err_0->DirectoryName_0@ == name@,
            r is Err && r->Err_0 is DuplicateEntry ==> r->Err_0->DuplicateEntry_0@ == name@,
            r is Err && r->Err_0 is LimitExceeded ==> r->Err_0->LimitExceeded_0@ == name@,
            r is Ok ==> final(self)@ == old(self)@.push((name@, data@)),
            r is Err ==> final(self)@ == old(self)@,
    {
        if !is_safe_entry_name(name) {
            return Err(ArchiveError::UnsafePath(String::from_str(name)));
        }
        if is_directory_name(name) {
            return Err(ArchiveError::DirectoryName(String::from_str(name)));
        }
        if self.contains_name(name) {
            return Err(ArchiveError::DuplicateEntry(String::from_str(name)));
        }
        let ghost before = self@;
        let ghost after = before.push((name@, data@));
        proof {
            assert(after.drop_last() =~= before);
            assert(total_data(after) == total_data(before) + data@.len());
        }
        if self.names.len() >= MAX_ENTRIES || name.unicode_len() >= MAX_NAME_CHARS || data.len()
            > MAX_TOTAL_BYTES - self.total {
            proof {
                if self.names.len() >= MAX_ENTRIES {
                    assert(entry_names(before).len() == before.len());
                }
                if name@.len() >= MAX_NAME_CHARS {
                    assert(after[after.len() - 1].0 == name@);
                }
            }
            return Err(ArchiveError::LimitExceeded(String::from_str(name)));
        }
        proof {
            assert(entry_names(before).len() == before.len());
            assert forall|i: int| 0 <= i < after.len() implies (#[trigger] after[i]).0.len()
                < MAX_NAME_CHARS by {
                if i < before.len() {
                    assert(after[i] == before[i]);
                }
            }
        }
        let _ = zip_start_deflated(&mut self.inner, name);
        let ghost started = self@;
        proof {
            assert(started.drop_last() =~= before);
            assert(total_data(started) == total_data(before));
        }
        let _ = zip_write_all(&mut self.inner, data);
        proof {
            assert(started.last().1 + data@ =~= data@);
            assert(self@ =~= after);
        }
        let ghost old_names = self.names@;
        self.names.push(String::from_str(name));
        self.total = self.total + data.len();
        proof {
            assert(views(self.names@) =~= views(old_names).push(name@));
            assert(entry_names(after) =~= entry_names(before).push(name@));
            assert(views(self.names@) =~= entry_names(after));
            let n = entry_names(after);
            assert(n =~= entry_names(before).push(name@));
            assert forall|i: int| 0 <= i < n.len() implies file_entry_name(#[trigger] n[i]) by {
                if i < before.len() {
                    assert(n[i] == entry_names(before)[i]);
                }
            }
            assert forall|i: int, j: int| 0 <= i < j < n.len() implies #[trigger] n[i]
                != #[trigger] n[j] by {
                if j < before.len() {
                    assert(n[i] == entry_names(before)[i]);
                    assert(n[j] == entry_names(before)[j]);
                } else {
                    assert(n[i] == entry_names(before)[i]);
                }
            }
        }
        Ok(())
    }

    /// Closes the archive and hands back its bytes: a container that zip
    /// reads back as exactly the entries written, also when none was.
    pub fn finish(self) -> (r: Vec<u8>)
        requires
            self.wf(),
        ensures
            zip_readable(r@),
            zip_contents(r@) == self@,
    {
        let mut w = self;
        match zip_finish(&mut w.inner) {
            Ok(bytes) => bytes,
            Err(_) => Vec::new(),
        }
    }
}

/// What extraction does for one entry, under the destination root.
#[derive(Debug, PartialEq, Eq)]
pub enum ExtractStep {
    /// Create this directory and its missing ancestors.
    CreateDir(String),
    /// Create this file (and its parent), replacing one already there.
    WriteFile(String, Vec<u8>),
}

/// The step that rebuilds the entry `e` (stored name, content).
pub open spec fn step_for(s: ExtractStep, e: (Seq<char>, Seq<u8>)) -> bool {
    match s {
        ExtractStep::CreateDir(p) => names_directory(e.0) && p@ == e.0,
        ExtractStep::WriteFile(p, d) => !names_directory(e.0) && p@ == e.0 && d@ == e.1,
    }
}

/// The files under the destination root, as a map from relative path to
/// content, once `steps` are carried out in order on the files `files`: a
/// file step replaces what stood at its path.
pub open spec fn apply_steps(files: Map<Seq<char>, Seq<u8>>, steps: Seq<ExtractStep>) -> Map<
    Seq<char>,
    Seq<u8>,
>
    decreases steps.len(),
{
    if steps.len() == 0 {
        files
    } else {
        let prev = apply_steps(files, steps.drop_last());
        match steps.last() {
            ExtractStep::WriteFile(p, d) => prev.insert(p@, d@),
            ExtractStep::CreateDir(_) => prev,
        }
    }
}

/// Some step of `steps` writes the file at path `k`.
pub open spec fn writes_path(steps: Seq<ExtractStep>, k: Seq<char>) -> bool
    decreases steps.len(),
{
    if steps.len() == 0 {
        false
    } else {
        writes_path(steps.drop_last(), k) || (steps.last() is WriteFile
            && steps.last()->WriteFile_0@ == k)
    }
}

proof fn lemma_apply_at(
    f1: Map<Seq<char>, Seq<u8>>,
    f2: Map<Seq<char>, Seq<u8>>,
    steps: Seq<ExtractStep>,
    k: Seq<char>,
)
    ensures
        writes_path(steps, k) ==> {
            &&& apply_steps(f1, steps).contains_key(k)
            &&& apply_steps(f2, steps).contains_key(k)
            &&& apply_steps(f1, steps)[k] == apply_steps(f2, steps)[k]
        },
        !writes_path(steps, k) ==> {
            &&& apply_steps(f1, steps).contains_key(k) == f1.contains_key(k)
            &&& f1.contains_key(k) ==> apply_steps(f1, steps)[k] == f1[k]
        },
    decreases steps.len(),
{
    if steps.len() > 0 {
        lemma_apply_at(f1, f2, steps.drop_last(), k);
    }
}

/// Extracting the same steps a second time over the result of the first
/// leaves the same files: existing files are overwritten, never duplicated.
pub proof fn lemma_extract_twice(files: Map<Seq<char>, Seq<u8>>, steps: Seq<ExtractStep>)
    ensures
        apply_steps(apply_steps(files, steps), steps) == apply_steps(files, steps),
{
    let once = apply_steps(files, steps);
    let twice = apply_steps(once, steps);
    assert forall|k: Seq<char>| #[trigger]
        twice.contains_key(k) == once.contains_key(k) && (once.contains_key(k) ==> twice[k]
            == once[k]) by {
        lemma_apply_at(once, files, steps, k);
    }
    assert(twice =~= once);
}

/// The entries `c` hold one whose stored name is `n`, and `n` is not safe.
pub open spec fn lists_unsafe_name(c: Seq<(Seq<char>, Seq<u8>)>, n: Seq<char>) -> bool {
    exists|i: int| 0 <= i < c.len() && (#[trigger] c[i]).0 == n && !safe_entry_name(n)
}

/// Every stored name in `c` is safe to extract.
pub open spec fn all_names_safe(c: Seq<(Seq<char>, Seq<u8>)>) -> bool {
    forall|i: int| 0 <= i < c.len() ==> safe_entry_name(#[trigger] c[i].0)
}

/// The steps rebuild, in order, one file per entry of `entries`, with its
/// name and content.
pub open spec fn writes_entries(steps: Seq<ExtractStep>, entries: Seq<(Seq<char>, Seq<u8>)>) -> bool {
    &&& steps.len() == entries.len()
    &&& forall|i: int|
        0 <= i < steps.len() ==> (#[trigger] steps[i]) is WriteFile && steps[i]->WriteFile_0@
            == entries[i].0 && steps[i]->WriteFile_1@ == entries[i].1
}

/// Round trip: the steps that `read_archive` gives for the bytes of a
/// finished writer (whose entries are `entries`) write each entry as a file,
/// under its own name and with its own content; carried out on an empty
/// destination, every written entry ends up there with its content.
pub proof fn lemma_round_trip(entries: Seq<(Seq<char>, Seq<u8>)>, steps: Seq<ExtractStep>)
    requires
        distinct_file_names(entry_names(entries)),
        steps.len() == entries.len(),
        forall|i: int| 0 <= i < entries.len() ==> step_for(#[trigger] steps[i], entries[i]),
    ensures
        writes_entries(steps, entries),
        forall|i: int|
            0 <= i < entries.len() ==> apply_steps(Map::empty(), steps).contains_key(
                (#[trigger] entries[i]).0,
            ) && apply_steps(Map::empty(), steps)[entries[i].0] == entries[i].1,
    decreases entries.len(),
{
    assert forall|i: int| 0 <= i < steps.len() implies (#[trigger] steps[i]) is WriteFile
        && steps[i]->WriteFile_0@ == entries[i].0 && steps[i]->WriteFile_1@ == entries[i].1 by {
        assert(entry_names(entries)[i] == entries[i].0);
        assert(step_for(steps[i], entries[i]));
    }
    if entries.len() > 0 {
        let pe = entries.drop_last();
        let ps = steps.drop_last();
        let n = entries.len() - 1;
        assert forall|i: int| 0 <= i < pe.len() implies step_for(#[trigger] ps[i], pe[i]) by {
            assert(ps[i] == steps[i]);
            assert(pe[i] == entries[i]);
            assert(step_for(steps[i], entries[i]));
        }
        let names = entry_names(entries);
        let pnames = entry_names(pe);
        assert forall|i: int| 0 <= i < pnames.len() implies #[trigger] pnames[i] == names[i] by {
        }
        lemma_round_trip(pe, ps);
        let prev = apply_steps(Map::empty(), ps);
        assert(steps.last() == steps[n]);
        assert(steps[n] is WriteFile);
        assert forall|i: int| 0 <= i < entries.len() implies apply_steps(
            Map::empty(),
            steps,
        ).contains_key((#[trigger] entries[i]).0) && apply_steps(Map::empty(), steps)[entries[i].0]
            == entries[i].1 by {
            if i < n {
                assert(pe[i] == entries[i]);
                assert(names[i] != names[n]);
                assert(names[i] == entries[i].0);
                assert(names[n] == entries[n].0);
            }
        }
    }
}

/// Reads the zip container in `bytes` and gives, in archive order, the step
/// that rebuilds each entry. A stored name that would leave the destination
/// root is refused: no step list is given for such an archive.
pub fn read_archive(bytes: Vec<u8>) -> (r: Result<Vec<ExtractStep>, ArchiveError>)
    ensures
        r is Ok ==> {
            let c = zip_contents(bytes@);
            &&& r->Ok_0@.len() == c.len()
            &&& forall|i: int|
                0 <= i < c.len() ==> safe_entry_name(#[trigger] c[i].0) && step_for(
                    r->Ok_0@[i],
                    c[i],
                )
        },
        r is Err && r->Err_0 is UnsafePath ==> lists_unsafe_name(
            zip_contents(bytes@),
            r->Err_0->UnsafePath_0@,
        ),
        zip_readable(bytes@) ==> (r is Ok <==> all_names_safe(zip_contents(bytes@))),
        zip_readable(bytes@) ==> !(r is Err && r->Err_0 is Format),
        !zip_opens(bytes@) ==> r is Err && r->Err_0 is Format,
        !(r is Err && r->Err_0 is DuplicateEntry),
        !(r is Err && r->Err_0 is DirectoryName),
        !(r is Err && r->Err_0 is LimitExceeded),
{
    let ghost c = zip_contents(bytes@);
    let ghost readable = zip_readable(bytes@);
    let ghost opens = zip_opens(bytes@);
    let mut a = match open_zip(bytes) {
        Ok(a) => a,
        Err(_) => {
            return Err(ArchiveError::Format);
        },
    };
    let n = zip_len(&a);
    let mut steps: Vec<ExtractStep> = Vec::new();
    let mut i: usize = 0;
    while i < n
        invariant
            n == c.len(),
            c == zip_contents(bytes@),
            archive_entries(a) == c,
            readable == zip_readable(bytes@),
            opens == zip_opens(bytes@),
            opens,
            readable ==> archive_readable(a),
            0 <= i <= n,
            steps@.len() == i,
            forall|j: int|
                0 <= j < i ==> safe_entry_name(#[trigger] c[j].0) && step_for(steps@[j], c[j]),
        decreases n - i,
    {
        let name = match zip_entry_name(&mut a, i) {
            Ok(s) => s,
            Err(_) => {
                return Err(ArchiveError::Format);
            },
        };
        if !is_safe_entry_name(name.as_str()) {
            assert(c[i as int].0 == name@);
            assert(lists_unsafe_name(c, name@));
            return Err(ArchiveError::UnsafePath(name));
        }
        if is_directory_name(name.as_str()) {
            steps.push(ExtractStep::CreateDir(name));
        } else {
            let data = match zip_entry_data(&mut a, i) {
                Ok(d) => d,
                Err(_) => {
                    return Err(ArchiveError::Format);
                },
            };
            steps.push(ExtractStep::WriteFile(name, data));
        }
        i = i + 1;
    }
    Ok(steps)
}

} // verus!
