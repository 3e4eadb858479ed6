//! The frame parser: turns a raw ASCII byte stream into discrete timestamped
//! samples.
//!
//! A token is a maximal run of ASCII digits. The token's timestamp is fixed
//! at the instant its first digit arrives; the first non-digit after the run
//! ends the token and emits one sample whose value is the run read as an
//! unsigned decimal integer. A non-digit with nothing accumulated is an idle
//! heartbeat byte. A token whose value does not fit the sample range is
//! malformed: it is dropped and parsing continues.

use vstd::prelude::*;
use crate::sample::{Sample, MAX_COORD};

verus! {

/// A malformed numeric token: its digits name a value beyond the sample
/// range. The token is dropped and the stream goes on.
#[derive(Clone, Copy, Debug, PartialEq, Eq, Structural)]
pub struct ParseError;

/// The byte is an ASCII decimal digit `'0'..='9'`.
pub open spec fn is_ascii_digit(b: u8) -> bool {
    48 <= b && b <= 57
}

/// The unsigned decimal integer named by a run of ASCII digit bytes
/// (most significant first); 0 for the empty run.
pub open spec fn digits_value(s: Seq<u8>) -> int
    decreases s.len(),
{
    if s.len() == 0 {
        0
    } else {
        digits_value(s.drop_last()) * 10 + (s.last() - 48)
    }
}

/// Streaming parser state: the digit accumulator and the wall-clock stamp
/// taken when the accumulator last went from empty to non-empty.
pub struct FrameParser {
    digits: Vec<u8>,
    stamp: u64,
}

impl FrameParser {
    /// The accumulated digit bytes of the token in progress.
    pub closed spec fn acc(&self) -> Seq<u8> {
        self.digits@
    }

    /// The timestamp the pending token will carry; meaningful only while the
    /// accumulator is non-empty.
    pub closed spec fn pending_stamp(&self) -> u64 {
        self.stamp
    }

    /// Only digit bytes accumulate, and a pending token's stamp is in range.
    pub open spec fn wf(&self) -> bool {
        &&& forall|i: int| 0 <= i < self.acc().len() ==> is_ascii_digit(#[trigger] self.acc()[i])
        &&& self.pending_stamp() <= MAX_COORD
    }

    /// A fresh parser with an empty accumulator.
    pub fn new() -> (p: FrameParser)
        ensures
            p.wf(),
            p.acc().len() == 0,
    {
        FrameParser { digits: Vec::new(), stamp: 0 }
    }

    /// Consumes one byte of the stream at wall-clock time `now_ms` and emits
    /// at most one sample.
    ///
    /// - a digit extends the accumulator and emits nothing; if the
    ///   accumulator was empty, the pending token is stamped `now_ms`;
    /// - a non-digit with an empty accumulator is an idle byte: no change;
    /// - a non-digit ending a run whose value fits emits exactly that
    ///   sample and clears the accumulator;
    /// - a non-digit ending a run whose value is out of range drops the
    ///   token with `ParseError` and clears the accumulator.
    pub fn feed(&mut self, byte: u8, now_ms: u64) -> (r: Result<Option<Sample>, ParseError>)
        requires
            old(self).wf(),
            now_ms <= MAX_COORD,
        ensures
            final(self).wf(),
            is_ascii_digit(byte) ==> {
                &&& r == Ok::<Option<Sample>, ParseError>(None::<Sample>)
                &&& final(self).acc() =~= old(self).acc().push(byte)
                &&& final(self).pending_stamp() == (if old(self).acc().len() == 0 {
                    now_ms
                } else {
                    old(self).pending_stamp()
                })
            },
            !is_ascii_digit(byte) && old(self).acc().len() == 0 ==> {
                &&& r == Ok::<Option<Sample>, ParseError>(None::<Sample>)
                &&& final(self).acc() =~= old(self).acc()
            },
            !is_ascii_digit(byte) && old(self).acc().len() > 0 && digits_value(old(self).acc())
                <= MAX_COORD ==> {
                &&& r == Ok::<Option<Sample>, ParseError>(Some(
                    Sample {
                        timestamp_ms: old(self).pending_stamp(),
                        value: digits_value(old(self).acc()) as u64,
                    },
                ))
                &&& final(self).acc().len() == 0
            },
            !is_ascii_digit(byte) && old(self).acc().len() > 0 && digits_value(old(self).acc())
                > MAX_COORD ==> {
                &&& r == Err::<Option<Sample>, ParseError>(ParseError)
                &&& final(self).acc().len() == 0
            },
    {
        if 48 <= byte && byte <= 57 {
            if self.digits.len() == 0 {
                self.stamp = now_ms;
            }
            self.digits.push(byte);
            Ok(None)
        } else if self.digits.len() == 0 {
            Ok(None)
        } else {
            let value = parse_digits(&self.digits);
            let stamp = self.stamp;
            self.digits = Vec::new();
            match value {
                Some(v) => Ok(Some(Sample { timestamp_ms: stamp, value: v })),
                None => Err(ParseError),
            }
        }
    }
}

/// Reading one more digit multiplies the value accumulated so far by ten
/// and adds the digit.
proof fn lemma_digits_value_step(s: Seq<u8>, i: int)
    requires
        0 <= i < s.len(),
    ensures
        digits_value(s.take(i + 1)) == digits_value(s.take(i)) * 10 + (s[i] - 48),
{
    assert(s.take(i + 1).drop_last() =~= s.take(i));
    assert(s.take(i + 1).last() == s[i]);
}

proof fn lemma_digits_value_nonneg(s: Seq<u8>)
    requires
        forall|i: int| 0 <= i < s.len() ==> is_ascii_digit(#[trigger] s[i]),
    ensures
        digits_value(s) >= 0,
    decreases s.len(),
{
    if s.len() > 0 {
        assert(forall|i: int| 0 <= i < s.drop_last().len() ==> is_ascii_digit(
            #[trigger] s.drop_last()[i],
        ));
        lemma_digits_value_nonneg(s.drop_last());
    }
}

/// Once a prefix of the run already names a value out of range, the whole
/// run does too.
proof fn lemma_digits_value_prefix_le(s: Seq<u8>, i: int)
    requires
        0 <= i <= s.len(),
        forall|j: int| 0 <= j < s.len() ==> is_ascii_digit(#[trigger] s[j]),
    ensures
        digits_value(s.take(i)) <= digits_value(s),
    decreases s.len() - i,
{
    if i == s.len() {
        assert(s.take(i) =~= s);
    } else {
        lemma_digits_value_step(s, i);
        let prefix = s.take(i);
        assert(forall|j: int| 0 <= j < prefix.len() ==> is_ascii_digit(#[trigger] prefix[j]));
        lemma_digits_value_nonneg(prefix);
        lemma_digits_value_prefix_le(s, i + 1);
    }
}

/// Reads the accumulated digit run as an unsigned integer; `None` when the
/// value does not fit the sample range.
fn parse_digits(digits: &Vec<u8>) -> (r: Option<u64>)
    requires
        forall|i: int| 0 <= i < digits@.len() ==> is_ascii_digit(#[trigger] digits@[i]),
    ensures
        digits_value(digits@) <= MAX_COORD ==> r == Some(digits_value(digits@) as u64),
        digits_value(digits@) > MAX_COORD ==> r is None,
{
    let mut v: u64 = 0;
    let mut i: usize = 0;
    proof {
        assert(digits@.take(0) =~= Seq::<u8>::empty());
    }
    while i < digits.len()
        invariant
            0 <= i <= digits@.len(),
            forall|k: int| 0 <= k < digits@.len() ==> is_ascii_digit(#[trigger] digits@[k]),
            v == digits_value(digits@.take(i as int)),
            v <= MAX_COORD,
        decreases digits@.len() - i,
    {
        let d = digits[i] - 48;
        proof {
            lemma_digits_value_step(digits@, i as int);
        }
        let next = v * 10 + (d as u64);
        if next > MAX_COORD {
            proof {
                lemma_digits_value_prefix_le(digits@, i as int + 1);
            }
            return None;
        }
        v = next;
        i = i + 1;
    }
    proof {
        assert(digits@.take(digits@.len() as int) =~= digits@);
    }
    Some(v)
}

} // verus!
