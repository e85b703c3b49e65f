//! The most recent chunk of a stream, kept in memory for readers that are
//! caught up.

use crate::store::naming::StoreSettings;
use bytes::Bytes;
use vstd::prelude::*;

verus! {

/// A shared buffer of bytes.
#[verifier::external_type_specification]
#[verifier::external_body]
pub struct ExBytes(Bytes);

/// The bytes in a buffer.
pub uninterp spec fn buffered(buffer: Bytes) -> Seq<u8>;

/// `Bytes::len`: how many bytes are in the buffer.
#[verifier::external_body]
fn buffer_len(buffer: &Bytes) -> (r: usize)
    ensures
        r == buffered(*buffer).len(),
{
    buffer.len()
}

/// `Bytes::slice`: the bytes from `from` up to `to`. It panics on a range that
/// leaves the buffer.
#[verifier::external_body]
fn buffer_slice(buffer: &Bytes, from: usize, to: usize) -> (r: Bytes)
    requires
        from <= to <= buffered(*buffer).len(),
    ensures
        buffered(r) == buffered(*buffer).subrange(from as int, to as int),
{
    buffer.slice(from..to)
}

/// The last chunk that was written, and where it starts in the stream.
pub struct TailCache {
    start: u64,
    chunk: Option<Bytes>,
}

impl TailCache {
    /// Where the chunk starts and what is in it, if there is one.
    pub closed spec fn held(&self) -> Option<(u64, Seq<u8>)> {
        match self.chunk {
            Some(chunk) => Some((self.start, buffered(chunk))),
            None => None,
        }
    }

    /// Nothing is kept.
    pub fn new() -> (r: Self)
        ensures
            r.held() is None,
    {
        TailCache { start: 0, chunk: None }
    }

    /// Keep the chunk that was just written at `start`. A chunk over the limit is
    /// not kept, and neither is the one before it.
    pub fn set_last_chunk(&mut self, start: u64, bytes: Bytes, settings: &StoreSettings)
        ensures
            final(self).held() == (if 0 < settings.tail_cap() && buffered(bytes).len()
                <= settings.tail_cap() {
                Some((start, buffered(bytes)))
            } else {
                None
            }),
            final(self).held() == kept_chunk(start, buffered(bytes), settings.tail_cap()),
    {
        let cap = settings.tail_cache_bytes();
        self.start = start;
        if cap > 0 && buffer_len(&bytes) <= cap {
            self.chunk = Some(bytes);
        } else {
            self.chunk = None;
        }
    }

    /// The bytes from `want_start` up to `want_end`, if the chunk covers them.
    pub fn tail_chunk_slice(&self, want_start: u64, want_end: u64, settings: &StoreSettings) -> (r:
        Option<Bytes>)
        ensures
            match r {
                Some(bytes) => {
                    let (start, chunk) = self.held()->0;
                    &&& slice_is_held(self.held(), want_start, want_end, settings.tail_cap())
                    &&& buffered(bytes) == chunk.subrange(want_start - start, want_end - start)
                },
                None => !slice_is_held(self.held(), want_start, want_end, settings.tail_cap()),
            },
    {
        if want_end <= want_start || settings.tail_cache_bytes() == 0 {
            return None;
        }
        match &self.chunk {
            Some(chunk) => {
                if self.start <= want_start && want_end - self.start <= buffer_len(chunk) as u64 {
                    let from: usize = (want_start - self.start) as usize;
                    let to: usize = (want_end - self.start) as usize;
                    Some(buffer_slice(chunk, from, to))
                } else {
                    None
                }
            },
            None => None,
        }
    }
}

/// What is kept of a chunk that was just written.
pub open spec fn kept_chunk(start: u64, chunk: Seq<u8>, cap: usize) -> Option<(u64, Seq<u8>)> {
    if 0 < cap && chunk.len() <= cap {
        Some((start, chunk))
    } else {
        None
    }
}

/// Whether a range that is not empty lies inside the chunk, with the cache on.
pub open spec fn slice_is_held(
    held: Option<(u64, Seq<u8>)>,
    want_start: u64,
    want_end: u64,
    cap: usize,
) -> bool {
    &&& want_start < want_end
    &&& cap > 0
    &&& held matches Some((start, chunk)) && start <= want_start && want_end <= start + chunk.len()
}

} // verus!
