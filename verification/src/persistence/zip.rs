//! Framing a page payload as a zip archive, and the seekable byte sink that receives it.
use vstd::prelude::*;
use vstd::assert_seqs_equal;

verus! {

#[verifier::external_type_specification]
#[verifier::external_body]
pub struct ExIoError(std::io::Error);

/// `std::io::SeekFrom`, with its variants as std defines them.
#[verifier::external_type_specification]
pub struct ExSeekFrom(std::io::SeekFrom);

/// Where a seek moves the write position to.
#[derive(Clone, Copy, Debug, PartialEq, Eq, Structural)]
pub enum SeekPosition {
    Start(u64),
    End(i64),
    Current(i64),
}

/// `v` reduced into the range of `usize`, as a wrapping `usize` addition leaves it.
pub open spec fn usize_wrapped(v: int) -> int {
    if v > usize::MAX {
        v - (usize::MAX + 1)
    } else {
        v
    }
}

/// The target of an `std::io::SeekFrom`.
pub open spec fn seek_position(from: std::io::SeekFrom) -> SeekPosition {
    match from {
        std::io::SeekFrom::Start(offset) => SeekPosition::Start(offset),
        std::io::SeekFrom::End(offset) => SeekPosition::End(offset),
        std::io::SeekFrom::Current(offset) => SeekPosition::Current(offset),
    }
}

/// The position a seek to `target` reaches from `pos` in a buffer of `len` bytes.
pub open spec fn seek_target(len: nat, pos: nat, target: SeekPosition) -> int {
    match target {
        SeekPosition::Start(offset) => (offset as usize) as int,
        SeekPosition::End(offset) => usize_wrapped(len + (offset as usize)),
        SeekPosition::Current(offset) => usize_wrapped(pos + (offset as usize)),
    }
}

/// `contents` after `data` is written at `pos`, a position inside or at the end of `contents`:
/// the bytes under `data` are replaced and the buffer grows where `data` reaches past its end.
pub open spec fn overwritten(contents: Seq<u8>, pos: int, data: Seq<u8>) -> Seq<u8> {
    let end = pos + data.len();
    contents.subrange(0, pos) + data + if end < contents.len() {
        contents.subrange(end, contents.len() as int)
    } else {
        Seq::<u8>::empty()
    }
}

/// An in-memory byte buffer with a write position that can be moved.
pub struct VecWriter {
    pos: usize,
    pub buf: Vec<u8>,
}

impl VecWriter {
    /// The bytes written so far.
    pub closed spec fn contents(&self) -> Seq<u8> {
        self.buf@
    }

    /// The position the next write starts at.
    pub closed spec fn position(&self) -> nat {
        self.pos as nat
    }

    pub fn new() -> (w: Self)
        ensures
            w.contents() == Seq::<u8>::empty(),
            w.position() == 0,
    {
        VecWriter { buf: Vec::new(), pos: 0 }
    }

    /// The buffer, as `buf` holds it.
    pub fn into_bytes(self) -> (bytes: Vec<u8>)
        ensures
            bytes@ == self.contents(),
    {
        self.buf
    }

    /// Writes `data` at the write position, overwriting what lies there and growing the buffer
    /// where `data` reaches past its end, and moves the position past what was written.
    pub fn write_bytes(&mut self, data: &[u8]) -> (written: usize)
        requires
            old(self).position() <= old(self).contents().len(),
            old(self).position() + data@.len() <= usize::MAX,
        ensures
            written == data@.len(),
            final(self).contents() == overwritten(old(self).contents(), old(self).position() as int, data@),
            final(self).position() == old(self).position() + data@.len(),
    {
        let ghost before = self.buf@;
        let len = self.buf.len();
        let pos = self.pos;
        let n = data.len();
        let overlap: usize = if pos + n <= len {
            n
        } else {
            len - pos
        };
        let mut i: usize = 0;
        while i < overlap
            invariant
                pos + overlap <= len,
                overlap <= n,
                n == data@.len(),
                len == before.len(),
                i <= overlap,
                self.buf@.len() == len,
                forall|j: int|
                    0 <= j < len ==> #[trigger] self.buf@[j] == if pos <= j < pos + i {
                        data@[j - pos]
                    } else {
                        before[j]
                    },
            decreases overlap - i,
        {
            self.buf.set(pos + i, data[i]);
            i = i + 1;
        }
        let mut k: usize = overlap;
        while k < n
            invariant
                overlap <= k <= n,
                n == data@.len(),
                pos + overlap <= len,
                (overlap < n ==> pos + overlap == len),
                len == before.len(),
                self.buf@.len() == len + (k - overlap),
                forall|j: int|
                    0 <= j < self.buf@.len() ==> #[trigger] self.buf@[j] == if pos <= j < pos + k {
                        data@[j - pos]
                    } else {
                        before[j]
                    },
            decreases n - k,
        {
            self.buf.push(data[k]);
            k = k + 1;
        }
        self.pos = pos + n;
        proof {
            let expected = overwritten(before, pos as int, data@);
            assert_seqs_equal!(self.buf@, expected, j => {
                if j < pos {
                } else if j < pos + n {
                } else {
                }
            });
        }
        n
    }

    /// Moves the write position as `target` says; the bytes stay as they are.
    pub fn seek_to(&mut self, target: SeekPosition) -> (reached: u64)
        ensures
            final(self).contents() == old(self).contents(),
            final(self).position() == seek_target(old(self).contents().len(), old(self).position(), target),
            reached == final(self).position(),
    {
        match target {
            SeekPosition::Start(offset) => {
                self.pos = offset as usize;
            },
            SeekPosition::End(offset) => {
                self.pos = self.buf.len().wrapping_add(offset as usize);
            },
            SeekPosition::Current(offset) => {
                self.pos = self.pos.wrapping_add(offset as usize);
            },
        }
        self.pos as u64
    }
}

/// Makes the `std::io::Error` of kind `InvalidInput` (`std::io::Error::from`); nothing is stated
/// of the error value.
#[verifier::external_body]
fn invalid_input_error() -> (e: std::io::Error) {
    std::io::Error::from(std::io::ErrorKind::InvalidInput)
}

impl std::io::Write for VecWriter {
    /// Writes all of `data` at the write position, as `write_bytes` does, when the position lies
    /// inside or at the end of the buffer and the new position fits in `usize`; fails otherwise,
    /// leaving the writer as it was.
    fn write(&mut self, data: &[u8]) -> (r: Result<usize, std::io::Error>)
        ensures
            ({
                let fits = old(self).position() <= old(self).contents().len() && old(self).position() + data@.len()
                    <= usize::MAX;
                &&& fits ==> r == Ok::<usize, std::io::Error>(data@.len() as usize)
                    && final(self).contents() == overwritten(old(self).contents(), old(self).position() as int, data@)
                    && final(self).position() == old(self).position() + data@.len()
                &&& !fits ==> r is Err && final(self).contents() == old(self).contents() && final(self).position()
                    == old(self).position()
            }),
    {
        if self.pos <= self.buf.len() && data.len() <= usize::MAX - self.pos {
            Ok(self.write_bytes(data))
        } else {
            Err(invalid_input_error())
        }
    }

    /// Nothing is buffered: flushing succeeds and leaves the writer as it is.
    fn flush(&mut self) -> (r: Result<(), std::io::Error>)
        ensures
            r == Ok::<(), std::io::Error>(()),
            final(self).contents() == old(self).contents(),
            final(self).position() == old(self).position(),
    {
        Ok(())
    }
}

impl std::io::Seek for VecWriter {
    /// Moves the write position to the place `from` names, as `seek_to` does, and succeeds with the
    /// position reached; the bytes stay as they are.
    fn seek(&mut self, from: std::io::SeekFrom) -> (r: Result<u64, std::io::Error>)
        ensures
            final(self).contents() == old(self).contents(),
            final(self).position() == seek_target(old(self).contents().len(), old(self).position(), seek_position(from)),
            r == Ok::<u64, std::io::Error>(final(self).position() as u64),
    {
        let target = match from {
            std::io::SeekFrom::Start(offset) => SeekPosition::Start(offset),
            std::io::SeekFrom::End(offset) => SeekPosition::End(offset),
            std::io::SeekFrom::Current(offset) => SeekPosition::Current(offset),
        };
        Ok(self.seek_to(target))
    }
}

#[verifier::external_type_specification]
#[verifier::external_body]
pub struct ExZipError(zip::result::ZipError);

/// A zip archive being written into a `VecWriter`: a `zip::ZipWriter`, held whole because Verus
/// refuses a declaration of that type (its bounds name `std::io::Write` and `std::io::Seek`).
#[verifier::external_body]
pub struct PayloadZipWriter {
    inner: zip::ZipWriter<VecWriter>,
}

#[verifier::external_type_specification]
#[verifier::external_body]
#[verifier::reject_recursive_types(R)]
pub struct ExZipArchive<R>(zip::ZipArchive<R>);

#[verifier::external_type_specification]
#[verifier::external_body]
#[verifier::reject_recursive_types(T)]
pub struct ExCursor<T>(std::io::Cursor<T>);

/// The entries, name and uncompressed data in order, that a zip writer has taken so far.
pub uninterp spec fn writer_entries(zip: PayloadZipWriter) -> Seq<(Seq<char>, Seq<u8>)>;

/// Whether every entry that a zip writer has taken so far is compressed with Deflate.
pub uninterp spec fn writer_deflated(zip: PayloadZipWriter) -> bool;

/// Whether the zip writer has an entry started, which written data goes to.
pub uninterp spec fn writer_entry_open(zip: PayloadZipWriter) -> bool;

/// The bytes that an opened zip archive reads from.
pub uninterp spec fn archive_source(archive: zip::ZipArchive<std::io::Cursor<Vec<u8>>>) -> Seq<u8>;

/// The entries, name and uncompressed data in order, that the zip reader finds in `bytes`.
pub uninterp spec fn entries_in_bytes(bytes: Seq<u8>) -> Seq<(Seq<char>, Seq<u8>)>;

/// Whether the zip reader finds every entry of the archive in `bytes` stored with Deflate.
pub uninterp spec fn deflated_in_bytes(bytes: Seq<u8>) -> bool;

/// Whether the zip reader opens the archive held in `bytes` (finds and reads its central directory).
pub uninterp spec fn zip_opens(bytes: Seq<u8>) -> bool;

/// Whether the zip reader gets entry `index` of the archive in `bytes` and its name.
pub uninterp spec fn name_readable(bytes: Seq<u8>, index: int) -> bool;

/// Whether the zip reader gets entry `index` of the archive in `bytes` and reads all of its data.
pub uninterp spec fn data_readable(bytes: Seq<u8>, index: int) -> bool;

/// The zip reader opens the archive in `bytes` and reads the name and the data of every entry.
pub open spec fn zip_readable(bytes: Seq<u8>) -> bool {
    &&& zip_opens(bytes)
    &&& forall|i: int|
        #![trigger name_readable(bytes, i)]
        0 <= i < entries_in_bytes(bytes).len() ==> name_readable(bytes, i) && data_readable(bytes, i)
}

/// The zip reader opens the archive in `bytes`, reads the name of every entry and the data of
/// every entry named `d`.
pub open spec fn payload_readable(bytes: Seq<u8>) -> bool {
    &&& zip_opens(bytes)
    &&& forall|i: int|
        #![trigger name_readable(bytes, i)]
        0 <= i < entries_in_bytes(bytes).len() ==> name_readable(bytes, i) && (entries_in_bytes(bytes)[i].0
            == payload_entry_name() ==> data_readable(bytes, i))
}

/// The size from which an entry needs the zip64 extension (`zip`'s `ZIP64_BYTES_THR`).
pub open spec fn zip64_threshold() -> int {
    u32::MAX as int
}

/// An upper bound on the size of `n` bytes once compressed with Deflate (the conservative bound
/// of `zlib-rs`'s `deflate::bound`, which holds for every compression level).
pub open spec fn deflate_size_bound(n: int) -> int {
    n + (n + 7) / 8 + (n + 63) / 64 + 5
}

/// The name of the archive entry that holds a page payload.
pub open spec fn payload_entry_name() -> Seq<char> {
    seq!['d']
}

/// `entries` with `data` appended to the data of the last one; unchanged when there is none.
pub open spec fn appended_to_last(entries: Seq<(Seq<char>, Seq<u8>)>, data: Seq<u8>) -> Seq<(Seq<char>, Seq<u8>)> {
    if entries.len() == 0 {
        entries
    } else {
        let last = entries.last();
        entries.update(entries.len() - 1, (last.0, last.1 + data))
    }
}

/// The data of the entries named `name`, concatenated in order.
pub open spec fn data_named(entries: Seq<(Seq<char>, Seq<u8>)>, name: Seq<char>) -> Seq<u8>
    decreases entries.len(),
{
    if entries.len() == 0 {
        Seq::<u8>::empty()
    } else {
        let before = data_named(entries.drop_last(), name);
        if entries.last().0 == name {
            before + entries.last().1
        } else {
            before
        }
    }
}

/// Starts a zip archive on an empty sink (`zip::ZipWriter::new`); it holds no entry yet and none
/// is started.
#[verifier::external_body]
fn open_zip_writer(sink: VecWriter) -> (zip: PayloadZipWriter)
    requires
        sink.contents() == Seq::<u8>::empty(),
        sink.position() == 0,
    ensures
        writer_entries(zip) == Seq::<(Seq<char>, Seq<u8>)>::empty(),
        writer_deflated(zip),
        !writer_entry_open(zip),
{
    PayloadZipWriter { inner: zip::ZipWriter::new(sink) }
}

/// Starts an entry named `name`, compressed with Deflate at the default level
/// (`zip::ZipWriter::start_file`). On success the archive has one more entry, with that name and
/// no data yet, and it is the entry being written. The first entry of an archive with a non-empty
/// name of at most 255 characters is always started: the writer refuses only a repeated name, a
/// local header of 64 KiB or more, and errors of its sink, which an in-memory `VecWriter` never
/// gives here. What the entries are after a failure is not stated.
#[verifier::external_body]
fn start_deflated_entry(zip: &mut PayloadZipWriter, name: &str) -> (r: Result<(), zip::result::ZipError>)
    ensures
        r is Ok ==> writer_entries(*final(zip)) == writer_entries(*old(zip)).push((name@, Seq::<u8>::empty()))
            && writer_entry_open(*final(zip)) && writer_deflated(*final(zip)) == writer_deflated(*old(zip)),
        writer_entries(*old(zip)).len() == 0 && 0 < name@.len() <= 255 ==> r is Ok,
{
    let options = zip::write::SimpleFileOptions::default().compression_method(zip::CompressionMethod::Deflated);
    zip.inner.start_file(name, options)
}

/// Writes the whole of `data` into the entry being written (`std::io::Write::write_all` on the
/// zip writer; an I/O error becomes `ZipError::Io`). On success the data of the last entry is
/// followed by `data`, and a non-empty `data` needs an entry to go to. Writing succeeds while an
/// entry is started and its uncompressed data stays below the zip64 threshold (the writer fails
/// only without an entry, on an entry whose uncompressed data reaches the threshold without the
/// large-file option, and on errors of its sink, which an in-memory `VecWriter` never gives here).
/// The writer is not flushed. What the entries are after a failure is not stated.
#[verifier::external_body]
fn write_entry_data(zip: &mut PayloadZipWriter, data: &[u8]) -> (r: Result<(), zip::result::ZipError>)
    ensures
        r is Ok ==> writer_entries(*final(zip)) == appended_to_last(writer_entries(*old(zip)), data@)
            && writer_entry_open(*final(zip)) == writer_entry_open(*old(zip))
            && writer_deflated(*final(zip)) == writer_deflated(*old(zip)),
        r is Ok && data@.len() > 0 ==> writer_entries(*old(zip)).len() > 0,
        writer_entry_open(*old(zip)) && writer_entries(*old(zip)).len() > 0 && writer_entries(*old(zip)).last().1.len()
            + data@.len() < zip64_threshold() ==> r is Ok,
{
    std::io::Write::write_all(&mut zip.inner, data).map_err(zip::result::ZipError::from)
}

/// Writes the central directory and hands the sink back (`zip::ZipWriter::finish`). On success
/// the zip reader opens the sink's bytes, reads the name and data of every entry, and finds in
/// them exactly the entries that were written, stored with Deflate when they were written so.
/// An archive of a single entry whose data stays, once compressed, below the zip64 threshold is
/// always finished: the writer refuses an entry whose compressed size reaches the threshold
/// without the large-file option, and otherwise fails only on errors of its sink, which an
/// in-memory `VecWriter` never gives here. The compressed size is bounded by
/// `deflate_size_bound` of the data's size, as nothing but `Write::write` and the final flush
/// of `finish` feed the compressor.
#[verifier::external_body]
fn finish_zip_writer(zip: PayloadZipWriter) -> (r: Result<VecWriter, zip::result::ZipError>)
    ensures
        r matches Ok(sink) ==> entries_in_bytes(sink.contents()) == writer_entries(zip) && zip_readable(sink.contents())
            && (writer_deflated(zip) ==> deflated_in_bytes(sink.contents())),
        writer_entries(zip).len() == 1 && deflate_size_bound(writer_entries(zip)[0].1.len() as int) < zip64_threshold()
            ==> r is Ok,
{
    zip.inner.finish()
}

/// Opens the zip archive held in `bytes` (`zip::ZipArchive::new` over a `std::io::Cursor`), which
/// then reads from those bytes. Fewer bytes than the signature of the end of the central directory
/// never open.
#[verifier::external_body]
fn open_archive(bytes: Vec<u8>) -> (r: Result<zip::ZipArchive<std::io::Cursor<Vec<u8>>>, zip::result::ZipError>)
    ensures
        r is Ok <==> zip_opens(bytes@),
        r matches Ok(archive) ==> archive_source(archive) == bytes@,
        bytes@.len() < 4 ==> r is Err,
{
    zip::ZipArchive::new(std::io::Cursor::new(bytes))
}

/// The number of entries of the archive (`zip::ZipArchive::len`).
#[verifier::external_body]
fn archive_len(archive: &zip::ZipArchive<std::io::Cursor<Vec<u8>>>) -> (n: usize)
    ensures
        n == entries_in_bytes(archive_source(*archive)).len(),
{
    archive.len()
}

/// The name of entry `index` of the archive (`zip::ZipArchive::by_index`, `ZipFile::name`); its
/// data is not read.
#[verifier::external_body]
fn read_entry_name(archive: &mut zip::ZipArchive<std::io::Cursor<Vec<u8>>>, index: usize) -> (r: Result<String, zip::result::ZipError>)
    requires
        index < entries_in_bytes(archive_source(*old(archive))).len(),
    ensures
        archive_source(*final(archive)) == archive_source(*old(archive)),
        r is Ok <==> name_readable(archive_source(*old(archive)), index as int),
        r matches Ok(name) ==> name@ == entries_in_bytes(archive_source(*old(archive)))[index as int].0,
{
    let file = archive.by_index(index)?;
    let name = file.name()?.into_owned();
    Ok(name)
}

/// The uncompressed data of entry `index` of the archive (`zip::ZipArchive::by_index`,
/// `std::io::Read::read_to_end`).
#[verifier::external_body]
fn read_entry_data(archive: &mut zip::ZipArchive<std::io::Cursor<Vec<u8>>>, index: usize) -> (r: Result<Vec<u8>, zip::result::ZipError>)
    requires
        index < entries_in_bytes(archive_source(*old(archive))).len(),
    ensures
        archive_source(*final(archive)) == archive_source(*old(archive)),
        r is Ok <==> data_readable(archive_source(*old(archive)), index as int),
        r matches Ok(data) ==> data@ == entries_in_bytes(archive_source(*old(archive)))[index as int].1,
{
    let mut file = archive.by_index(index)?;
    let mut data: Vec<u8> = Vec::new();
    std::io::Read::read_to_end(&mut file, &mut data)?;
    Ok(data)
}

/// Packs `payload` into a zip archive as a single Deflate-compressed entry named `d`; a payload
/// whose compressed size cannot reach the zip64 threshold is always packed. The zip reader reads
/// the archive and finds in it exactly that one entry, stored with Deflate.
pub fn compress_payload(payload: &[u8]) -> (r: Result<Vec<u8>, zip::result::ZipError>)
    ensures
        deflate_size_bound(payload@.len() as int) < zip64_threshold() ==> r is Ok,
        r matches Ok(archive) ==> entries_in_bytes(archive@) == seq![(payload_entry_name(), payload@)] && zip_readable(
            archive@,
        ) && deflated_in_bytes(archive@),
{
    let mut zip = open_zip_writer(VecWriter::new());
    let name = "d";
    proof {
        reveal_strlit("d");
    }
    assert(name@ =~= payload_entry_name());
    match start_deflated_entry(&mut zip, name) {
        Ok(()) => {},
        Err(e) => {
            return Err(e);
        },
    }
    let ghost started = writer_entries(zip);
    assert(started =~= seq![(payload_entry_name(), Seq::<u8>::empty())]);
    match write_entry_data(&mut zip, payload) {
        Ok(()) => {},
        Err(e) => {
            return Err(e);
        },
    }
    proof {
        assert(Seq::<u8>::empty() + payload@ =~= payload@);
        assert(writer_entries(zip) =~= seq![(payload_entry_name(), payload@)]);
        assert(writer_deflated(zip));
    }
    match finish_zip_writer(zip) {
        Ok(sink) => Ok(sink.into_bytes()),
        Err(e) => Err(e),
    }
}

/// Unpacks a page payload from a zip archive: the data of its entries named `d`, concatenated in
/// order; the data of other entries is not read. Fails with the first error the zip reader
/// reports.
pub fn decompress_payload(archive_bytes: &[u8]) -> (r: Result<Vec<u8>, zip::result::ZipError>)
    ensures
        r is Ok <==> payload_readable(archive_bytes@),
        r matches Ok(payload) ==> payload@ == data_named(entries_in_bytes(archive_bytes@), payload_entry_name()),
{
    let bytes = vstd::slice::slice_to_vec(archive_bytes);
    let ghost src = bytes@;
    let mut archive = match open_archive(bytes) {
        Ok(archive) => archive,
        Err(e) => {
            return Err(e);
        },
    };
    let ghost entries = entries_in_bytes(src);
    let count = archive_len(&archive);
    let expected_name = "d".to_owned();
    proof {
        reveal_strlit("d");
    }
    let mut payload: Vec<u8> = Vec::new();
    let mut i: usize = 0;
    while i < count
        invariant
            i <= count,
            count == entries.len(),
            entries == entries_in_bytes(src),
            src == archive_bytes@,
            archive_source(archive) == src,
            zip_opens(src),
            expected_name@ == payload_entry_name(),
            forall|j: int|
                #![trigger name_readable(src, j)]
                0 <= j < i ==> name_readable(src, j) && (entries[j].0 == payload_entry_name() ==> data_readable(src, j)),
            payload@ == data_named(entries.subrange(0, i as int), payload_entry_name()),
        decreases count - i,
    {
        let ghost before = payload@;
        proof {
            assert(entries.subrange(0, i as int + 1).drop_last() =~= entries.subrange(0, i as int));
            assert(entries.subrange(0, i as int + 1).last() == entries[i as int]);
        }
        let name = match read_entry_name(&mut archive, i) {
            Ok(name) => name,
            Err(e) => {
                return Err(e);
            },
        };
        if name == expected_name {
            let mut data = match read_entry_data(&mut archive, i) {
                Ok(data) => data,
                Err(e) => {
                    return Err(e);
                },
            };
            payload.append(&mut data);
            proof {
                assert(data_readable(src, i as int));
            }
        } else {
            proof {
                assert(name@ != expected_name@);
                assert(entries[i as int].0 != payload_entry_name());
            }
        }
        proof {
            assert(name_readable(src, i as int));
            assert forall|j: int| 0 <= j < i + 1 implies #[trigger] name_readable(src, j) && (entries[j].0
                == payload_entry_name() ==> data_readable(src, j)) by {
                if j < i {
                    assert(name_readable(src, j));
                }
            }
        }
        i = i + 1;
    }
    proof {
        assert(entries.subrange(0, count as int) =~= entries);
    }
    Ok(payload)
}

/// A payload packed by `compress_payload` reads back unchanged: an archive that `compress_payload`
/// returns for `payload` (readable, its only entry `payload` under the name `d`) is one on which
/// `decompress_payload` succeeds, and the data of its entries named `d` is `payload`.
pub proof fn lemma_compressed_payload_reads_back(payload: Seq<u8>, archive: Seq<u8>)
    requires
        entries_in_bytes(archive) == seq![(payload_entry_name(), payload)],
        zip_readable(archive),
    ensures
        payload_readable(archive),
        data_named(entries_in_bytes(archive), payload_entry_name()) == payload,
{
    let entries = entries_in_bytes(archive);
    assert(entries.drop_last() == Seq::<(Seq<char>, Seq<u8>)>::empty());
    assert(data_named(Seq::<(Seq<char>, Seq<u8>)>::empty(), payload_entry_name()) == Seq::<u8>::empty());
    assert(Seq::<u8>::empty() + payload == payload);
}

} // verus!
