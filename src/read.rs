use vstd::prelude::*;

use crate::codec::{blocks_for, lemma_blocks_for_bounds, offset_by_blocks};
use crate::layout::{HeaderProperty, BLOCK_SIZE};
use crate::meta::{decodes, field_number, header_check, Header, HeaderCheck, PosixHeader};

verus! {

/// Abstract state of a [`HeadersParser`].
pub struct ParserState {
    /// Position of the next header block in the source
    pub offset: nat,
    /// Valid headers read so far
    pub valid: nat,
    /// Anomalies seen so far: invalid headers, a valid header after a zero
    /// block, zero blocks beyond the two of a trailer
    pub invalid: nat,
    /// Zero blocks read so far
    pub zeroes: nat,
    /// Zero blocks read since the last block that was not one
    pub zero_run: nat,
    /// No further block can be read: the source ended, or the next position
    /// is past the largest offset
    pub exhausted: bool,
    /// The sequence of valid headers has ended
    pub ended: bool,
}

/// Declared payload size of block `b`, as a header reads it.
pub open spec fn block_size(b: Seq<u8>) -> nat {
    field_number(b, HeaderProperty::Size, usize::MAX as nat)
}

/// State at the start of a source: offset 0, nothing counted.
pub open spec fn start_state() -> ParserState {
    ParserState {
        offset: 0,
        valid: 0,
        invalid: 0,
        zeroes: 0,
        zero_run: 0,
        exhausted: false,
        ended: false,
    }
}

/// The bytes of a block that was read, if one was.
pub open spec fn block_bytes(block: Option<[u8; BLOCK_SIZE]>) -> Option<Seq<u8>> {
    match block {
        Some(b) => Some(b@),
        None => None,
    }
}

/// Counters after one more block with verdict `check`.
pub open spec fn count_block(s: ParserState, check: HeaderCheck) -> ParserState {
    match check {
        HeaderCheck::Valid => ParserState {
            valid: s.valid + 1,
            invalid: if s.zeroes > 0 {
                s.invalid + 1
            } else {
                s.invalid
            },
            zero_run: 0,
            ..s
        },
        HeaderCheck::Invalid { .. } => ParserState { invalid: s.invalid + 1, zero_run: 0, ..s },
        HeaderCheck::Zeroes => ParserState {
            zeroes: s.zeroes + 1,
            zero_run: s.zero_run + 1,
            invalid: if s.zero_run + 1 > 2 {
                s.invalid + 1
            } else {
                s.invalid
            },
            ..s
        },
    }
}

/// State after reading header block `b`: the counters take its verdict, and
/// the position moves past the block and past its payload, or the stream is
/// exhausted when that position does not fit a `usize`.
pub open spec fn after_block(s: ParserState, b: Seq<u8>) -> ParserState {
    let c = count_block(s, header_check(b));
    let next = s.offset + 512 + blocks_for(block_size(b));
    if next <= usize::MAX {
        ParserState { offset: next, ..c }
    } else {
        ParserState { exhausted: true, ..c }
    }
}

/// State after offering `block` (the next 512 bytes of the source, or
/// `None` when the source has fewer) to `next_any`.
pub open spec fn step_any(s: ParserState, block: Option<Seq<u8>>) -> ParserState {
    if s.exhausted {
        s
    } else {
        match block {
            Some(b) => after_block(s, b),
            None => ParserState { exhausted: true, ..s },
        }
    }
}

/// State after offering `block` to `next`: once the sequence has ended
/// nothing changes; a block that is not a valid header ends it.
pub open spec fn step_valid(s: ParserState, block: Option<Seq<u8>>) -> ParserState {
    if s.exhausted || s.ended {
        s
    } else {
        match block {
            Some(b) => {
                let t = after_block(s, b);
                if header_check(b) == HeaderCheck::Valid {
                    t
                } else {
                    ParserState { ended: true, ..t }
                }
            },
            None => ParserState { exhausted: true, ..s },
        }
    }
}

/// Extracts headers from an archive whose blocks are handed to it one by
/// one: the decisions of a reader that walks a seekable source.
///
/// Before each call of `next` or `next_any`, the caller reads the 512 bytes
/// at `offset()` and hands them over, or `None` when the source holds fewer.
pub struct HeadersParser {
    offset: usize,
    iter_valid_headers: usize,
    iter_invalid_headers: usize,
    iter_zeroes: usize,
    zero_run: usize,
    exhausted: bool,
    ended: bool,
}

impl View for HeadersParser {
    type V = ParserState;

    closed spec fn view(&self) -> ParserState {
        ParserState {
            offset: self.offset as nat,
            valid: self.iter_valid_headers as nat,
            invalid: self.iter_invalid_headers as nat,
            zeroes: self.iter_zeroes as nat,
            zero_run: self.zero_run as nat,
            exhausted: self.exhausted,
            ended: self.ended,
        }
    }
}

impl HeadersParser {
    /// Every block counted moved the position on by a block, but the last
    /// one when it exhausted the stream; so the counters cannot overflow.
    #[verifier::type_invariant]
    spec fn inv(&self) -> bool {
        &&& self.zero_run <= self.iter_zeroes
        &&& (self.iter_valid_headers + self.iter_invalid_headers + self.iter_zeroes) * 256
            <= self.offset + if self.exhausted {
            512int
        } else {
            0int
        }
    }

    /// A parser at the start of its source.
    pub fn new() -> (r: HeadersParser)
        ensures
            r@ == start_state(),
    {
        HeadersParser {
            offset: 0,
            iter_valid_headers: 0,
            iter_invalid_headers: 0,
            iter_zeroes: 0,
            zero_run: 0,
            exhausted: false,
            ended: false,
        }
    }

    /// Position in the source of the next header block.
    pub fn offset(&self) -> (r: usize)
        ensures
            r == self@.offset,
    {
        self.offset
    }

    /// Number of valid headers read so far.
    pub fn valid_headers(&self) -> (r: usize)
        ensures
            r == self@.valid,
    {
        self.iter_valid_headers
    }

    /// Number of anomalies seen so far.
    pub fn invalid_headers(&self) -> (r: usize)
        ensures
            r == self@.invalid,
    {
        self.iter_invalid_headers
    }

    /// Number of zero blocks read so far.
    pub fn zero_blocks(&self) -> (r: usize)
        ensures
            r == self@.zeroes,
    {
        self.iter_zeroes
    }

    /// Takes one block of any kind: decodes it as the header at the current
    /// position, counts it, and moves past it and its payload. Returns
    /// `None`, and reads nothing more, once the source is exhausted.
    pub fn next_any(&mut self, block: Option<[u8; BLOCK_SIZE]>) -> (r: Option<Header>)
        ensures
            final(self)@ == step_any(old(self)@, block_bytes(block)),
            match block {
                Some(b) => if old(self)@.exhausted {
                    r is None
                } else {
                    r matches Some(h) && decodes(h, b@, old(self)@.offset)
                },
                None => r is None,
            },
    {
        proof {
            use_type_invariant(&*self);
        }
        if self.exhausted {
            return None;
        }
        let bytes = match block {
            Some(b) => b,
            None => {
                self.exhausted = true;
                return None;
            },
        };
        let h = Header::from(PosixHeader::from(self.offset, bytes));
        let mut valid = self.iter_valid_headers;
        let mut invalid = self.iter_invalid_headers;
        let mut zeroes = self.iter_zeroes;
        let mut zero_run = self.zero_run;
        match h.check {
            HeaderCheck::Valid => {
                valid = valid + 1;
                if zeroes > 0 {
                    // A valid header cannot follow the end-of-archive blocks.
                    invalid = invalid + 1;
                }
                zero_run = 0;
            },
            HeaderCheck::Invalid { .. } => {
                invalid = invalid + 1;
                zero_run = 0;
            },
            HeaderCheck::Zeroes => {
                zeroes = zeroes + 1;
                zero_run = zero_run + 1;
                if zero_run > 2 {
                    // A trailer is two zero blocks; a third is an anomaly.
                    invalid = invalid + 1;
                }
            },
        }
        let mut offset = self.offset;
        let mut exhausted = false;
        let room = usize::MAX - offset;
        let shift = if h.size <= usize::MAX - (BLOCK_SIZE - 1) {
            let shift = offset_by_blocks(h.size);
            if room >= BLOCK_SIZE && shift <= room - BLOCK_SIZE {
                Some(shift)
            } else {
                None
            }
        } else {
            proof {
                lemma_blocks_for_bounds(h.size as nat);
            }
            None
        };
        match shift {
            Some(shift) => {
                offset = offset + BLOCK_SIZE + shift;
            },
            None => {
                exhausted = true;
            },
        }
        *self = HeadersParser {
            offset,
            iter_valid_headers: valid,
            iter_invalid_headers: invalid,
            iter_zeroes: zeroes,
            zero_run,
            exhausted,
            ended: self.ended,
        };
        Some(h)
    }

    /// Takes the next block of the sequence of valid headers: returns its
    /// header when it is valid. The first block that is not a valid header,
    /// or the end of the source, ends the sequence; that block is still
    /// counted, and no block is taken after it.
    pub fn next(&mut self, block: Option<[u8; BLOCK_SIZE]>) -> (r: Option<Header>)
        ensures
            final(self)@ == step_valid(old(self)@, block_bytes(block)),
            match block {
                Some(b) => if old(self)@.exhausted || old(self)@.ended || header_check(b@)
                    != HeaderCheck::Valid {
                    r is None
                } else {
                    r matches Some(h) && decodes(h, b@, old(self)@.offset)
                },
                None => r is None,
            },
    {
        if self.exhausted || self.ended {
            return None;
        }
        match self.next_any(block) {
            Some(h) => {
                if h.check == HeaderCheck::Valid {
                    Some(h)
                } else {
                    proof {
                        use_type_invariant(&*self);
                    }
                    self.ended = true;
                    None
                }
            },
            None => None,
        }
    }
}

/// The block of `data` at `offset`, or `None` when fewer than 512 bytes
/// remain there.
pub open spec fn block_at(data: Seq<u8>, offset: nat) -> Option<Seq<u8>> {
    if offset + 512 <= data.len() {
        Some(data.subrange(offset as int, offset + 512int))
    } else {
        None
    }
}

/// Walks the headers of an archive held in memory.
pub struct HeadersIterator<'a> {
    parser: HeadersParser,
    source: &'a [u8],
}

impl<'a> HeadersIterator<'a> {
    /// State of the walk.
    pub closed spec fn state(&self) -> ParserState {
        self.parser@
    }

    /// The archive.
    pub closed spec fn data(&self) -> Seq<u8> {
        self.source@
    }

    /// Starts a walk at the beginning of `reader`.
    pub fn from(reader: &'a [u8]) -> (r: HeadersIterator<'a>)
        ensures
            r.state() == start_state(),
            r.data() == reader@,
    {
        HeadersIterator { parser: HeadersParser::new(), source: reader }
    }

    /// The parser that holds the state of the walk.
    pub fn parser(&self) -> (r: &HeadersParser)
        ensures
            r@ == self.state(),
    {
        &self.parser
    }

    /// The block at the current position, if the archive holds one.
    fn read_block(&self) -> (r: Option<[u8; BLOCK_SIZE]>)
        ensures
            block_bytes(r) == block_at(self.data(), self.state().offset),
    {
        let offset = self.parser.offset();
        if offset > self.source.len() || self.source.len() - offset < BLOCK_SIZE {
            return None;
        }
        let mut buffer = [0u8; BLOCK_SIZE];
        let mut i: usize = 0;
        while i < BLOCK_SIZE
            invariant
                i <= BLOCK_SIZE,
                offset + BLOCK_SIZE <= self.source.len(),
                forall|j: int| 0 <= j < i ==> buffer@[j] == self.source@[offset + j],
            decreases BLOCK_SIZE - i,
        {
            buffer[i] = self.source[offset + i];
            i = i + 1;
        }
        assert(buffer@ =~= self.source@.subrange(offset as int, offset + 512));
        Some(buffer)
    }

    /// Reads the next block of any kind (see [`HeadersParser::next_any`]).
    pub fn next_any(&mut self) -> (r: Option<Header>)
        ensures
            final(self).data() == old(self).data(),
            final(self).state() == step_any(
                old(self).state(),
                block_at(old(self).data(), old(self).state().offset),
            ),
            match block_at(old(self).data(), old(self).state().offset) {
                Some(b) => if old(self).state().exhausted {
                    r is None
                } else {
                    r matches Some(h) && decodes(h, b, old(self).state().offset)
                },
                None => r is None,
            },
    {
        let block = self.read_block();
        self.parser.next_any(block)
    }

    /// The next valid header (see [`HeadersParser::next`]).
    pub fn next(&mut self) -> (r: Option<Header>)
        ensures
            final(self).data() == old(self).data(),
            final(self).state() == step_valid(
                old(self).state(),
                block_at(old(self).data(), old(self).state().offset),
            ),
            match block_at(old(self).data(), old(self).state().offset) {
                Some(b) => if old(self).state().exhausted || old(self).state().ended
                    || header_check(b) != HeaderCheck::Valid {
                    r is None
                } else {
                    r matches Some(h) && decodes(h, b, old(self).state().offset)
                },
                None => r is None,
            },
    {
        let block = self.read_block();
        self.parser.next(block)
    }
}

} // verus!
