//! The arithmetic of reading and writing a file in chunks of a fixed
//! size. The file itself stays with the caller: a reader says which span
//! to read next and takes what the read gave; a writer says where the next
//! buffer goes.

use crate::error::ContainerError;
use vstd::prelude::*;

verus! {

/// A run of bytes in a file.
#[derive(Clone, Copy, Debug, PartialEq, Eq, Structural)]
pub struct Span {
    /// Where the run begins.
    pub offset: u64,
    /// How many bytes it has.
    pub len: u64,
}

/// The position of a chunked transfer over one file.
#[derive(Clone, Copy, Debug, PartialEq, Eq, Structural)]
pub struct BufferReader {
    /// Length of the file that is read; a writer does not use it.
    pub file_len: u64,
    /// Where the next chunk begins.
    pub offset: u64,
    /// The size of every chunk but the last.
    pub buffer_size: u64,
}

/// What a positional read of `span` gives on a file that holds `file`.
pub open spec fn span_of(file: Seq<u8>, span: Span) -> Seq<u8> {
    file.subrange(span.offset as int, span.offset + span.len)
}

/// The chunks that a reader in the state `reader` still takes from
/// `file`, in order.
pub open spec fn read_all(file: Seq<u8>, reader: BufferReader) -> Seq<Seq<u8>>
    decreases reader.file_len - reader.offset,
{
    if reader.at_end() || reader.buffer_size == 0 {
        Seq::empty()
    } else {
        seq![span_of(file, reader.next_span())] + read_all(
            file,
            reader.advanced(reader.next_len()),
        )
    }
}

/// The chunks one after the other.
pub open spec fn joined(chunks: Seq<Seq<u8>>) -> Seq<u8>
    decreases chunks.len(),
{
    if chunks.len() == 0 {
        Seq::empty()
    } else {
        chunks[0] + joined(chunks.drop_first())
    }
}

/// A file that held `sink` after `bytes` were written at `offset`. A gap
/// between the old end and `offset` reads as zeros.
pub open spec fn write_at(sink: Seq<u8>, offset: nat, bytes: Seq<u8>) -> Seq<u8> {
    Seq::new(
        if sink.len() < offset + bytes.len() {
            offset + bytes.len()
        } else {
            sink.len()
        },
        |i: int|
            if offset <= i < offset + bytes.len() {
                bytes[i - offset]
            } else if i < sink.len() {
                sink[i]
            } else {
                0u8
            },
    )
}

/// A file that held `sink` after a writer at `offset` has written the
/// chunks in order, each where the one before ended.
pub open spec fn write_all(sink: Seq<u8>, offset: nat, chunks: Seq<Seq<u8>>) -> Seq<u8>
    decreases chunks.len(),
{
    if chunks.len() == 0 {
        sink
    } else {
        write_all(
            write_at(sink, offset, chunks[0]),
            offset + chunks[0].len(),
            chunks.drop_first(),
        )
    }
}

/// The chunks of a file, put together in order, are what the file holds
/// from the reader's offset on: all of it for a reader at the beginning.
/// This holds for every chunk size but zero, whether or not it divides the
/// length, and also where it exceeds the length.
pub proof fn lemma_chunks_join(file: Seq<u8>, reader: BufferReader)
    requires
        reader.file_len == file.len(),
        reader.offset <= reader.file_len,
        reader.buffer_size > 0,
    ensures
        joined(read_all(file, reader)) == file.skip(reader.offset as int),
    decreases reader.file_len - reader.offset,
{
    if reader.at_end() {
        assert(file.skip(reader.offset as int) =~= Seq::<u8>::empty());
    } else {
        let next = reader.advanced(reader.next_len());
        let chunks = read_all(file, reader);
        lemma_chunks_join(file, next);
        assert(chunks.drop_first() =~= read_all(file, next));
        assert(joined(chunks) =~= file.skip(reader.offset as int));
    }
}

/// The `index`-th chunk begins `index` chunk sizes after the reader's
/// offset and ends one chunk size later, or at the end of the file if
/// that comes first. There are as many chunks as it takes to cover the
/// rest of the file.
pub proof fn lemma_chunk_bounds(file: Seq<u8>, reader: BufferReader, index: nat)
    requires
        reader.file_len == file.len(),
        reader.offset <= reader.file_len,
        reader.buffer_size > 0,
    ensures
        read_all(file, reader).len() * reader.buffer_size >= reader.file_len - reader.offset,
        read_all(file, reader).len() * reader.buffer_size < reader.file_len - reader.offset
            + reader.buffer_size,
        index < read_all(file, reader).len() ==> read_all(file, reader)[index as int]
            == file.subrange(
            reader.offset + index * reader.buffer_size,
            if reader.offset + (index + 1) * reader.buffer_size < file.len() {
                reader.offset + (index + 1) * reader.buffer_size
            } else {
                file.len() as int
            },
        ),
    decreases reader.file_len - reader.offset,
{
    let size = reader.buffer_size as int;
    if reader.at_end() {
    } else {
        let next = reader.advanced(reader.next_len());
        let chunks = read_all(file, reader);
        let rest = read_all(file, next);
        assert(chunks.drop_first() =~= rest);
        assert(chunks.len() == rest.len() + 1);
        assert((rest.len() + 1) * size == rest.len() * size + size) by (nonlinear_arith);
        if index == 0 {
            lemma_chunk_bounds(file, next, 0);
            assert(0 * size == 0);
            assert(1 * size == size);
        } else {
            lemma_chunk_bounds(file, next, (index - 1) as nat);
            if index < chunks.len() {
                assert(chunks[index as int] == rest[index - 1]);
            }
            assert((index - 1) * size + size == index * size) by (nonlinear_arith);
            assert(index * size + size == (index + 1) * size) by (nonlinear_arith);
            if reader.next_len() < reader.buffer_size {
                assert(rest.len() == 0);
            }
        }
    }
}

/// Writing the chunks of a file into an empty file, each where the one
/// before ended, gives the same bytes, and the same number of them.
pub proof fn lemma_copy_in_chunks(file: Seq<u8>, buffer_size: u64)
    requires
        file.len() <= u64::MAX,
        buffer_size > 0,
    ensures
        write_all(
            Seq::empty(),
            0,
            read_all(
                file,
                BufferReader { file_len: file.len() as u64, offset: 0, buffer_size },
            ),
        ) == file,
{
    let reader = BufferReader { file_len: file.len() as u64, offset: 0, buffer_size };
    lemma_write_all_appends(Seq::empty(), read_all(file, reader));
    lemma_chunks_join(file, reader);
    assert(file.skip(0) =~= file);
    assert(Seq::<u8>::empty() + file =~= file);
}

/// A writer that stands at the end of a file appends: the chunks come to
/// stand behind what the file held, in order.
pub proof fn lemma_write_all_appends(sink: Seq<u8>, chunks: Seq<Seq<u8>>)
    ensures
        write_all(sink, sink.len(), chunks) == sink + joined(chunks),
    decreases chunks.len(),
{
    if chunks.len() == 0 {
        assert(sink + joined(chunks) =~= sink);
    } else {
        let longer = write_at(sink, sink.len(), chunks[0]);
        assert(longer =~= sink + chunks[0]);
        lemma_write_all_appends(longer, chunks.drop_first());
        assert(longer + joined(chunks.drop_first()) =~= sink + joined(chunks));
    }
}

impl BufferReader {
    /// Whether nothing is left to read.
    pub open spec fn at_end(&self) -> bool {
        self.offset >= self.file_len
    }

    /// The length of the next chunk: the chunk size, or what is left of
    /// the file if that is less.
    pub open spec fn next_len(&self) -> u64 {
        if self.at_end() {
            0
        } else if self.buffer_size < self.file_len - self.offset {
            self.buffer_size
        } else {
            (self.file_len - self.offset) as u64
        }
    }

    /// The span that the next chunk is read from.
    pub open spec fn next_span(&self) -> Span {
        Span { offset: self.offset, len: self.next_len() }
    }

    /// This state, `by` bytes further on.
    pub open spec fn advanced(&self, by: u64) -> BufferReader {
        BufferReader {
            file_len: self.file_len,
            offset: (self.offset + by) as u64,
            buffer_size: self.buffer_size,
        }
    }

    /// A transfer at the beginning of a file, in chunks of `buffer_size`
    /// bytes. The file's length is zero until the caller sets it.
    pub fn new(buffer_size: u64) -> (reader: Self)
        ensures
            reader == (BufferReader { file_len: 0, offset: 0, buffer_size }),
    {
        Self { file_len: 0, offset: 0, buffer_size }
    }

    /// The span to read next, or `EndOfFile` once the offset has reached
    /// the file's length.
    pub fn next_read(&self) -> (span: Result<Span, ContainerError>)
        ensures
            match span {
                Ok(s) => !self.at_end() && s == self.next_span(),
                Err(e) => self.at_end() && e == ContainerError::EndOfFile,
            },
    {
        if self.offset >= self.file_len {
            return Err(ContainerError::EndOfFile);
        }
        let left: u64 = self.file_len - self.offset;
        let len: u64 = if self.buffer_size < left {
            self.buffer_size
        } else {
            left
        };
        Ok(Span { offset: self.offset, len })
    }

    /// Takes `data`, which a positional read of the span of
    /// [`BufferReader::next_read`] gave, as the next chunk, and moves the
    /// offset behind it.
    ///
    /// Fails with `EndOfFile` if nothing is left to read and with
    /// `ShortRead` if `data` is shorter than the span; the offset then
    /// stays. Bytes of `data` beyond the span are dropped.
    pub fn read_next(&mut self, data: Vec<u8>) -> (chunk: Result<Vec<u8>, ContainerError>)
        ensures
            match chunk {
                Ok(c) => {
                    &&& !old(self).at_end()
                    &&& data@.len() >= old(self).next_len()
                    &&& c@ == data@.take(old(self).next_len() as int)
                    &&& *final(self) == old(self).advanced(old(self).next_len())
                },
                Err(e) => {
                    &&& *final(self) == *old(self)
                    &&& if old(self).at_end() {
                        e == ContainerError::EndOfFile
                    } else {
                        e == ContainerError::ShortRead && data@.len() < old(self).next_len()
                    }
                },
            },
    {
        let span = match self.next_read() {
            Ok(span) => span,
            Err(e) => { return Err(e); },
        };
        if (data.len() as u64) < span.len {
            return Err(ContainerError::ShortRead);
        }
        let mut chunk = data;
        chunk.truncate(span.len as usize);
        self.offset = self.offset + span.len;
        assert(chunk@ =~= data@.take(span.len as int));
        Ok(chunk)
    }

    /// Says where `buffer` is to be written, which is the current offset,
    /// and moves the offset behind it.
    ///
    /// Fails with `OffsetOverflow` if the new offset does not fit in 64
    /// bits; the offset then stays.
    pub fn write_next(&mut self, buffer: &[u8]) -> (at: Result<u64, ContainerError>)
        ensures
            match at {
                Ok(offset) => {
                    &&& offset == old(self).offset
                    &&& old(self).offset + buffer@.len() <= u64::MAX
                    &&& *final(self) == old(self).advanced(buffer@.len() as u64)
                },
                Err(e) => {
                    &&& e == ContainerError::OffsetOverflow
                    &&& old(self).offset + buffer@.len() > u64::MAX
                    &&& *final(self) == *old(self)
                },
            },
    {
        let at: u64 = self.offset;
        match at.checked_add(buffer.len() as u64) {
            Some(end) => {
                self.offset = end;
                Ok(at)
            },
            None => Err(ContainerError::OffsetOverflow),
        }
    }
}

} // verus!
