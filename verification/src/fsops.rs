//! Planning and paging of file reads and writes.
//!
//! The node serves file contents in chunks.  Everything that can be decided
//! from plain numbers — how much to read, whether the end of the file is
//! reached, whether a write would overflow — is decided here; the
//! surrounding process only moves the bytes.

use vstd::prelude::*;

verus! {

/// No chunk carries more than this many bytes.
pub const MAX_FILE_CHUNK: u64 = 4 * 1024 * 1024;

/// One page of a file read.  `eof` is true exactly when the read reached
/// the end of the file: `offset + |data|` is at least the file length at
/// read time.
#[derive(Debug)]
pub struct FileChunk {
    pub offset: u64,
    pub data: Vec<u8>,
    pub eof: bool,
}

/// The receipt of a write.
#[derive(Clone, Debug, PartialEq, Eq, Structural)]
pub struct FileWriteAck {
    pub bytes_written: u64,
}

/// How many bytes a read at `offset` with an optional requested `length`
/// takes from a file of `file_len` bytes: what was asked for, capped by
/// what remains and by the chunk maximum.
pub open spec fn planned_read_len(file_len: u64, offset: u64, length: Option<u64>) -> int {
    if offset >= file_len {
        0
    } else {
        let remaining = file_len - offset;
        let asked = match length {
            Option::None => remaining,
            Option::Some(l) => if l <= remaining {
                l as int
            } else {
                remaining
            },
        };
        if asked <= MAX_FILE_CHUNK {
            asked
        } else {
            MAX_FILE_CHUNK as int
        }
    }
}

/// The number of bytes to read for one chunk.
pub fn read_plan(file_len: u64, offset: u64, length: Option<u64>) -> (to_read: u64)
    ensures
        to_read == planned_read_len(file_len, offset, length),
        to_read <= MAX_FILE_CHUNK,
        offset >= file_len ==> to_read == 0,
        offset < file_len ==> to_read <= file_len - offset,
{
    if offset >= file_len {
        return 0;
    }
    let remaining = file_len - offset;
    let asked = match length {
        None => remaining,
        Some(l) => if l <= remaining {
            l
        } else {
            remaining
        },
    };
    if asked <= MAX_FILE_CHUNK {
        asked
    } else {
        MAX_FILE_CHUNK
    }
}

/// Whether a chunk of `data_len` bytes read at `offset` ends the file.
pub open spec fn chunk_is_eof(file_len: u64, offset: u64, data_len: int) -> bool {
    offset + data_len >= file_len
}

/// Wraps the bytes an actual read returned into the chunk answered to the
/// requester, with an accurate end-of-file mark.
pub fn make_chunk(file_len: u64, offset: u64, data: Vec<u8>) -> (c: FileChunk)
    requires
        offset + data@.len() <= u64::MAX,
    ensures
        c.offset == offset,
        c.data == data,
        c.eof == chunk_is_eof(file_len, offset, data@.len() as int),
{
    let eof = offset + data.len() as u64 >= file_len;
    FileChunk { offset, data, eof }
}

/// What a read of `length` at `offset` returns on a file whose bytes are
/// `content`, when the medium delivers every byte the plan asks for.
pub open spec fn chunk_data_of(content: Seq<u8>, offset: u64, length: Option<u64>) -> Seq<u8> {
    if offset >= content.len() {
        Seq::empty()
    } else {
        content.subrange(
            offset as int,
            offset + planned_read_len(content.len() as u64, offset, length),
        )
    }
}

/// A full in-memory read: the reference semantics of serving one chunk
/// from a file holding `content`.
#[verifier::loop_isolation(false)]
pub fn read_chunk_from(content: &Vec<u8>, offset: u64, length: Option<u64>) -> (c: FileChunk)
    requires
        content@.len() <= u64::MAX,
    ensures
        c.offset == offset,
        c.data@ == chunk_data_of(content@, offset, length),
        c.eof == chunk_is_eof(content@.len() as u64, offset, c.data@.len() as int),
        c.data@.len() <= MAX_FILE_CHUNK,
        offset >= content@.len() ==> c.data@.len() == 0 && c.eof,
{
    let file_len = content.len() as u64;
    let to_read = read_plan(file_len, offset, length);
    if to_read == 0 {
        proof {
            if offset < content@.len() {
                assert(chunk_data_of(content@, offset, length) =~= Seq::<u8>::empty());
            }
        }
        return make_chunk(file_len, offset, Vec::new());
    }
    let start = offset as usize;
    let mut data: Vec<u8> = Vec::new();
    let mut i: usize = 0;
    while i < to_read as usize
        invariant
            i <= to_read,
            data@ =~= content@.subrange(offset as int, offset + i),
        decreases to_read - i,
    {
        data.push(content[start + i]);
        proof {
            assert(data@ =~= content@.subrange(offset as int, offset + i + 1));
        }
        i += 1;
    }
    make_chunk(file_len, offset, data)
}

/// Why a write is refused before any byte moves.
#[derive(Clone, Debug, PartialEq, Eq, Structural)]
pub enum WriteError {
    /// `offset + |data|` does not fit in a file length.
    LengthOverflow,
}

/// The length a file must have after writing `data_len` bytes at `offset`:
/// the old length, or the end of the written range where that lies beyond
/// it.
pub open spec fn required_write_len(current_len: u64, offset: u64, data_len: int) -> int {
    if offset + data_len > current_len {
        offset + data_len
    } else {
        current_len as int
    }
}

/// Decides a write on a file of `current_len` bytes: rejected when the end
/// of the written range overflows, otherwise the length to extend the file
/// to before seeking and writing.
pub fn write_plan(current_len: u64, offset: u64, data_len: u64) -> (r: Result<u64, WriteError>)
    ensures
        r is Ok <==> offset + data_len <= u64::MAX,
        r matches Ok(l) ==> l == required_write_len(current_len, offset, data_len as int),
        r is Err ==> r == Result::<u64, WriteError>::Err(WriteError::LengthOverflow),
{
    match offset.checked_add(data_len) {
        Some(end) => if end > current_len {
            Ok(end)
        } else {
            Ok(current_len)
        },
        None => Err(WriteError::LengthOverflow),
    }
}

/// The bytes of a file after writing `data` at `offset`: zero-extended up
/// to `offset` where the file was shorter, then `data`, then whatever old
/// content lies beyond the written range.
pub open spec fn content_after_write(content: Seq<u8>, offset: u64, data: Seq<u8>) -> Seq<u8> {
    let pad = if offset > content.len() {
        Seq::new((offset - content.len()) as nat, |i: int| 0u8)
    } else {
        Seq::empty()
    };
    let kept_head = if offset <= content.len() {
        content.subrange(0, offset as int)
    } else {
        content
    };
    let tail_start = offset + data.len();
    let kept_tail = if tail_start < content.len() {
        content.subrange(tail_start as int, content.len() as int)
    } else {
        Seq::empty()
    };
    kept_head + pad + data + kept_tail
}

/// A full in-memory write: the reference semantics of a write request
/// against a file holding `content`.
#[verifier::loop_isolation(false)]
pub fn write_to_content(content: &mut Vec<u8>, offset: u64, data: &Vec<u8>) -> (r: Result<
    FileWriteAck,
    WriteError,
>)
    requires
        old(content)@.len() <= usize::MAX,
        offset + data@.len() <= usize::MAX,
    ensures
        r is Ok <==> offset + data@.len() <= u64::MAX,
        r is Ok ==> final(content)@ == content_after_write(old(content)@, offset, data@),
        r matches Ok(ack) ==> ack.bytes_written == data@.len(),
        r is Err ==> *final(content) == *old(content) && r == Result::<
            FileWriteAck,
            WriteError,
        >::Err(WriteError::LengthOverflow),
{
    let data_len = data.len() as u64;
    let required = match write_plan(content.len() as u64, offset, data_len) {
        Ok(l) => l,
        Err(e) => {
            return Err(e);
        },
    };
    let ghost pre = content@;
    while content.len() < required as usize
        invariant
            pre.len() <= content@.len() <= required,
            content@ =~= pre + Seq::new((content@.len() - pre.len()) as nat, |i: int| 0u8),
        decreases required - content@.len(),
    {
        content.push(0u8);
        proof {
            assert(content@ =~= pre + Seq::new((content@.len() - pre.len()) as nat, |i: int| 0u8));
        }
    }
    let ghost extended = content@;
    let mut i: usize = 0;
    while i < data.len()
        invariant
            i <= data@.len(),
            offset + data@.len() <= content@.len(),
            content@.len() == extended.len(),
            forall|k: int|
                0 <= k < content@.len() && !(offset <= k < offset + i) ==> content@[k]
                    == extended[k],
            forall|k: int| 0 <= k < i ==> content@[offset + k] == data@[k],
        decreases data@.len() - i,
    {
        let idx = offset as usize + i;
        content[idx] = data[i];
        i += 1;
    }
    proof {
        let after = content_after_write(pre, offset, data@);
        assert(content@.len() == after.len());
        assert forall|k: int| 0 <= k < content@.len() implies content@[k] == after[k] by {
            if k < offset {
                if k < pre.len() {
                    assert(extended[k] == pre[k]);
                } else {
                    assert(extended[k] == 0u8);
                }
            } else if k < offset + data@.len() {
                assert(content@[k] == data@[k - offset]);
            } else {
                assert(extended[k] == pre[k]);
            }
        }
        assert(content@ =~= after);
    }
    Ok(FileWriteAck { bytes_written: data_len })
}

/// Law: writing `data` at the start of a file and reading `|data|` bytes
/// back returns `data` exactly, and the chunk marks the end of the file
/// exactly when the write reached or passed the old end — in particular
/// always when the file was empty.
pub proof fn lemma_write_read_roundtrip(content: Seq<u8>, data: Seq<u8>)
    requires
        data.len() <= MAX_FILE_CHUNK,
        content.len() <= u64::MAX,
    ensures
        ({
            let after = content_after_write(content, 0, data);
            &&& chunk_data_of(after, 0, Some(data.len() as u64)) == data
            &&& (chunk_is_eof(after.len() as u64, 0, data.len() as int) <==> data.len()
                >= content.len())
        }),
{
    let after = content_after_write(content, 0, data);
    if data.len() >= content.len() {
        assert(after =~= data);
    } else {
        assert(after =~= data + content.subrange(data.len() as int, content.len() as int));
    }
    if data.len() == 0 && after.len() > 0 {
        assert(chunk_data_of(after, 0, Some(0u64)) =~= data);
    } else {
        assert(chunk_data_of(after, 0, Some(data.len() as u64)) =~= data);
    }
}

/// Law: a read at the exact file length returns no bytes and marks the end
/// of the file.
pub proof fn lemma_read_at_end_is_empty_eof(content: Seq<u8>, length: Option<u64>)
    requires
        content.len() <= u64::MAX,
    ensures
        chunk_data_of(content, content.len() as u64, length) == Seq::<u8>::empty(),
        chunk_is_eof(content.len() as u64, content.len() as u64, 0),
{
    assert(chunk_data_of(content, content.len() as u64, length) =~= Seq::<u8>::empty());
}

/// Law: a read without a requested length returns at most the chunk
/// maximum, and does not claim the end of the file unless the file truly
/// ends within the chunk.
pub proof fn lemma_unbounded_read_is_capped(content: Seq<u8>, offset: u64)
    requires
        content.len() <= u64::MAX,
    ensures
        chunk_data_of(content, offset, None).len() <= MAX_FILE_CHUNK,
        offset + MAX_FILE_CHUNK < content.len() ==> !chunk_is_eof(
            content.len() as u64,
            offset,
            chunk_data_of(content, offset, None).len() as int,
        ),
{
}

} // verus!
