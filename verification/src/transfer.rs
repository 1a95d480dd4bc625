//! The zone-transfer session, as the client side of the wire protocol sees
//! it. The transport is kept outside: the caller writes the requested domain
//! name's raw bytes, reads the fixed 1000-byte header frame, echoes it back
//! verbatim, then reads one 2-byte big-endian sequence number and one
//! 1000-byte text line per entry. This module holds every decision and
//! computation of that exchange: the big-endian counters, how many line
//! reads are owed, the in-order reassembly of the zone text, and the final
//! parse.

use vstd::prelude::*;

verus! {

use crate::parser::ParseError;
use crate::parser::parse_from_str;
use crate::parser::spec_parse;
use crate::zone::ZoneStore;
use vstd::string::StringExecFns;

/// Why a transfer failed before or at parsing.
#[derive(Debug, Clone, Copy, PartialEq, Eq, Structural)]
pub enum ProtocolError {
    /// A frame came up short on the wire.
    ShortRead,
    /// A frame's payload was not valid text.
    Decode,
    /// The session was finished before the header frame arrived.
    MissingHeader,
    /// The number of lines received differs from the announced entry count.
    EntryCountMismatch,
}

/// Why a transfer produced no zone.
#[derive(Debug, Clone, Copy, PartialEq, Eq, Structural)]
pub enum TransferError {
    Protocol(ProtocolError),
    Parse(ParseError),
}

/// The lines concatenated in arrival order, with nothing inserted between
/// them: each framed line must already carry its terminator.
pub open spec fn spec_concat(parts: Seq<Seq<char>>) -> Seq<char>
    decreases parts.len(),
{
    if parts.len() == 0 {
        Seq::empty()
    } else {
        spec_concat(parts.drop_last()) + parts.last()
    }
}

/// Abstract view of a `TransferSession`.
#[verifier::ext_equal]
pub ghost struct SpecSession {
    pub domain: Seq<char>,
    pub expected: Option<u16>,
    pub lines: Seq<Seq<char>>,
}

/// Read a big-endian 16-bit counter from its two wire bytes, as both the
/// header's entry count and each frame's sequence number are encoded.
pub fn be_u16(hi: u8, lo: u8) -> (n: u16)
    ensures
        n == hi * 256 + lo,
{
    (hi as u16) * 256 + (lo as u16)
}

/// One domain's transfer in progress: the announced entry count and the
/// lines received so far.
pub struct TransferSession {
    domain: String,
    expected: Option<u16>,
    lines: Vec<String>,
}

impl View for TransferSession {
    type V = SpecSession;

    closed spec fn view(&self) -> SpecSession {
        SpecSession {
            domain: self.domain@,
            expected: self.expected,
            lines: self.lines@.map_values(|l: String| l@),
        }
    }
}

impl TransferSession {
    /// Begin a transfer for `domain`.
    pub fn new(domain: String) -> (r: Self)
        ensures
            r@ == (SpecSession { domain: domain@, expected: None, lines: Seq::empty() }),
    {
        let r = TransferSession { domain, expected: None, lines: Vec::new() };
        proof {
            assert(r@.lines =~= Seq::<Seq<char>>::empty());
        }
        r
    }

    /// The domain this session replicates.
    pub fn domain(&self) -> (r: &String)
        ensures
            r@ == self@.domain,
    {
        &self.domain
    }

    /// Take the entry count from the first two bytes of the header frame.
    /// The remaining 998 bytes are reserved and carry nothing; the caller
    /// echoes the whole frame back verbatim as the acknowledgement.
    pub fn on_header(&mut self, hi: u8, lo: u8) -> (n: u16)
        requires
            old(self)@.expected is None,
        ensures
            n == hi * 256 + lo,
            final(self)@ == (SpecSession { expected: Some(n), ..old(self)@ }),
    {
        let n = be_u16(hi, lo);
        self.expected = Some(n);
        n
    }

    /// Record one framed line in arrival order. The sequence number is read
    /// off the wire but not checked, exactly as the protocol leaves it.
    pub fn on_line(&mut self, _seq: u16, line: String)
        requires
            old(self)@.expected matches Some(n) && old(self)@.lines.len() < n,
        ensures
            final(self)@ == (SpecSession { lines: old(self)@.lines.push(line@), ..old(self)@ }),
    {
        let ghost oldv = self.lines@;
        self.lines.push(line);
        proof {
            oldv.lemma_push_map_commute(|l: String| l@, self.lines@.last());
        }
    }

    /// Whether the session is still owed line reads: exactly the announced
    /// entry count of sequence-number-and-line reads happen, no more.
    pub fn needs_more(&self) -> (b: bool)
        ensures
            b == (match self@.expected {
                None => false,
                Some(n) => self@.lines.len() < n,
            }),
    {
        match self.expected {
            None => false,
            Some(n) => self.lines.len() < n as usize,
        }
    }

    /// The received lines concatenated in arrival order.
    pub fn assemble(&self) -> (t: String)
        ensures
            t@ == spec_concat(self@.lines),
    {
        let mut t = String::new();
        let mut i: usize = 0;
        proof {
            assert(self@.lines.take(0) =~= Seq::<Seq<char>>::empty());
        }
        while i < self.lines.len()
            invariant
                0 <= i <= self.lines@.len(),
                self@.lines.len() == self.lines@.len(),
                forall|j: int| 0 <= j < self.lines@.len() ==> self@.lines[j] == (#[trigger] self.lines@[j])@,
                t@ == spec_concat(self@.lines.take(i as int)),
            decreases self.lines@.len() - i,
        {
            t.append(self.lines[i].as_str());
            proof {
                assert(self@.lines.take(i as int + 1).drop_last() =~= self@.lines.take(i as int));
                assert(self@.lines.take(i as int + 1).last() == self@.lines[i as int]);
            }
            i = i + 1;
        }
        proof {
            assert(self@.lines.take(self.lines@.len() as int) =~= self@.lines);
        }
        t
    }

    /// Finish the session: check that exactly the announced number of lines
    /// arrived, reassemble the text, and parse it. On any failure no zone is
    /// produced, so a caller's previously installed zone stays untouched.
    pub fn finish(self) -> (r: Result<ZoneStore, TransferError>)
        ensures
            (match self@.expected {
                None => r == Err::<ZoneStore, TransferError>(
                    TransferError::Protocol(ProtocolError::MissingHeader),
                ),
                Some(n) => {
                    if self@.lines.len() != n {
                        r == Err::<ZoneStore, TransferError>(
                            TransferError::Protocol(ProtocolError::EntryCountMismatch),
                        )
                    } else {
                        match spec_parse(spec_concat(self@.lines)) {
                            Ok(z) => r is Ok && r->Ok_0@ == z && r->Ok_0.wf(),
                            Err(e) => r == Err::<ZoneStore, TransferError>(TransferError::Parse(e)),
                        }
                    }
                },
            }),
    {
        let n: u16 = match self.expected {
            None => {
                return Err(TransferError::Protocol(ProtocolError::MissingHeader));
            },
            Some(n) => n,
        };
        if self.lines.len() != n as usize {
            return Err(TransferError::Protocol(ProtocolError::EntryCountMismatch));
        }
        let text = self.assemble();
        match parse_from_str(text) {
            Ok(z) => Ok(z),
            Err(e) => Err(TransferError::Parse(e)),
        }
    }
}

} // verus!
