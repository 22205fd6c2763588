//! Incremental extraction of one CRLF-terminated line from a byte stream.
//!
//! A [`LineReader`] accumulates the bytes an asynchronous source delivers,
//! one slice per read, and reports the first line as soon as its CRLF
//! terminator has fully arrived — also when the CR and the LF arrive in two
//! different reads. The caller performs the reads and hands each slice to
//! [`LineReader::feed`]; an empty slice stands for end of input.
use vstd::prelude::*;
use vstd::slice::{slice_subrange, slice_to_vec};

verus! {

/// Carriage return, the first byte of the line terminator.
pub const CR: u8 = 13;

/// Line feed, the second byte of the line terminator.
pub const LF: u8 = 10;

/// How many bytes to request from the source per read.
pub const BUFFER_SIZE: usize = 10000;

/// True when a CRLF terminator starts at index `i` of `bytes`.
pub open spec fn is_crlf_at(bytes: Seq<u8>, i: int) -> bool {
    &&& 0 <= i
    &&& i + 1 < bytes.len()
    &&& bytes[i] == CR
    &&& bytes[i + 1] == LF
}

/// True when `bytes` contains a CRLF terminator anywhere.
pub open spec fn has_crlf(bytes: Seq<u8>) -> bool {
    exists|i: int| is_crlf_at(bytes, i)
}

/// Law: a returned line never contains the terminator bytes. A line is the
/// prefix of the accumulated input before its first terminator — as
/// [`LineReader::feed`] guarantees — so no terminator sits inside it.
pub proof fn lemma_extracted_line_has_no_crlf(all: Seq<u8>, line: Seq<u8>)
    requires
        is_crlf_at(all, line.len() as int),
        forall|j: int| 0 <= j < line.len() ==> !is_crlf_at(all, j),
        line == all.subrange(0, line.len() as int),
    ensures
        !has_crlf(line),
{
    assert forall|j: int| !is_crlf_at(line, j) by {
        if 0 <= j && j + 1 < line.len() {
            assert(line[j] == all[j]);
            assert(line[j + 1] == all[j + 1]);
            assert(!is_crlf_at(all, j));
        }
    }
}

/// What one call of [`LineReader::feed`] concluded.
pub enum LineStep {
    /// A terminator was found: the line before it, CRLF stripped.
    Line(Vec<u8>),
    /// No terminator so far; more input is needed.
    More,
    /// The input ended before any terminator was seen.
    Unterminated,
}

/// Accumulates the bytes read so far while no line terminator has been seen.
pub struct LineReader {
    buf: Vec<u8>,
}

impl LineReader {
    /// The bytes accumulated so far.
    pub closed spec fn view(self) -> Seq<u8> {
        self.buf@
    }

    /// No terminator hides in what has been accumulated: every complete line
    /// is reported by the `feed` call that completes it.
    pub closed spec fn wf(self) -> bool {
        !has_crlf(self.buf@)
    }

    pub fn new() -> (reader: LineReader)
        ensures
            reader@ == Seq::<u8>::empty(),
            reader.wf(),
    {
        LineReader { buf: Vec::with_capacity(BUFFER_SIZE) }
    }

    /// Hand the extractor the bytes of one read; an empty slice means the
    /// source is exhausted. Returns the first line once its terminator has
    /// fully arrived, regardless of how the input was cut into reads.
    pub fn feed(&mut self, chunk: &[u8]) -> (step: LineStep)
        requires
            old(self).wf(),
        ensures
            final(self).wf(),
            match step {
                LineStep::Line(line) => ({
                    let all = old(self)@ + chunk@;
                    &&& chunk@.len() > 0
                    &&& is_crlf_at(all, line@.len() as int)
                    &&& (forall|j: int| 0 <= j < line@.len() ==> !is_crlf_at(all, j))
                    &&& line@ == all.subrange(0, line@.len() as int)
                    &&& final(self)@ == Seq::<u8>::empty()
                }),
                LineStep::More => ({
                    let all = old(self)@ + chunk@;
                    &&& chunk@.len() > 0
                    &&& !has_crlf(all)
                    &&& final(self)@ == all
                }),
                LineStep::Unterminated => ({
                    &&& chunk@.len() == 0
                    &&& !has_crlf(old(self)@ + chunk@)
                    &&& final(self)@ == old(self)@
                }),
            },
    {
        let ghost all: Seq<u8> = self.buf@ + chunk@;
        if chunk.len() == 0 {
            proof {
                assert(all =~= self.buf@);
            }
            return LineStep::Unterminated;
        }
        let old_len = self.buf.len();
        self.buf.extend_from_slice(chunk);
        proof {
            assert(self.buf@ =~= all);
        }

        // A terminator that straddles the previous read ends at the first new
        // byte, so the scan resumes one byte before the freshly written range.
        let mut search: usize = if old_len > 0 {
            old_len - 1
        } else {
            0
        };
        proof {
            assert forall|j: int| 0 <= j < search implies !is_crlf_at(all, j) by {
                if is_crlf_at(all, j) {
                    assert(is_crlf_at(old(self)@, j));
                }
            }
        }
        loop
            invariant
                all == old(self)@ + chunk@,
                self.buf@ == all,
                search <= self.buf.len(),
                forall|j: int| 0 <= j < search ==> !is_crlf_at(all, j),
                chunk@.len() > 0,
            decreases self.buf.len() - search,
        {
            let tail = slice_subrange(self.buf.as_slice(), search, self.buf.len());
            match memchr::memchr(CR, tail) {
                None => {
                    proof {
                        assert forall|j: int| !is_crlf_at(all, j) by {
                            if search <= j < all.len() {
                                assert(tail@[j - search] == all[j]);
                            }
                        }
                    }
                    return LineStep::More;
                },
                Some(offset) => {
                    let cr = search + offset;
                    proof {
                        assert(all[cr as int] == CR);
                        assert forall|j: int| search <= j < cr implies all[j] != CR by {
                            assert(tail@[j - search] != CR);
                        }
                    }
                    if cr + 1 < self.buf.len() {
                        if self.buf[cr + 1] == LF {
                            let line = slice_to_vec(
                                slice_subrange(self.buf.as_slice(), 0, cr),
                            );
                            self.buf = Vec::new();
                            proof {
                                assert(is_crlf_at(all, cr as int));
                                assert(line@ =~= all.subrange(0, cr as int));
                            }
                            return LineStep::Line(line);
                        } else {
                            proof {
                                assert(!is_crlf_at(all, cr as int));
                            }
                            search = cr + 1;
                        }
                    } else {
                        // The CR is the last byte written so far: whether it
                        // begins a terminator is decided by the next read.
                        proof {
                            assert forall|j: int| !is_crlf_at(all, j) by {
                                if search <= j < all.len() {
                                    if j < cr {
                                        assert(all[j] != CR);
                                    }
                                }
                            }
                        }
                        return LineStep::More;
                    }
                },
            }
        }
    }
}

} // verus!
