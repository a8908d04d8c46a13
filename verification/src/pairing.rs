//! Reading one or two FASTQ streams in step.
//!
//! The caller reads the next record of each stream and hands both to the
//! reader, which decides whether they are a pair. Streams that fall out of
//! step are a fatal error: no record is dropped to bring them back together.

use vstd::prelude::*;
use crate::bytes::same;
use crate::error::{FilterError, PairingError, PairingFault};
use crate::identifier::{normalize, normalized};
use crate::record::{optional_record, FastqRecord, FastqView, ReadPair};

verus! {

/// The reader's place in its streams.
#[derive(Clone, Copy, Debug, PartialEq, Eq, Structural)]
pub struct FastqPairReader {
    /// Whether two streams are read.
    pub paired: bool,
    /// The number of steps that gave a record or a pair.
    pub delivered: u64,
}

/// The number of the step that follows `delivered` steps. The count stops at
/// the largest number that it can hold.
pub open spec fn step_after(delivered: u64) -> u64 {
    if delivered < u64::MAX {
        (delivered + 1) as u64
    } else {
        delivered
    }
}

/// What is wrong with the records that one step gave, if anything.
pub open spec fn pairing_fault(
    paired: bool,
    first: Option<FastqView>,
    second: Option<FastqView>,
) -> Option<PairingFault> {
    match (first, second) {
        (None, None) => None,
        (Some(a), None) => if paired {
            Some(PairingFault::SecondExhausted)
        } else {
            None
        },
        (None, Some(b)) => if paired {
            Some(PairingFault::FirstExhausted)
        } else {
            Some(PairingFault::UnexpectedSecond)
        },
        (Some(a), Some(b)) => if !paired {
            Some(PairingFault::UnexpectedSecond)
        } else if normalized(a.id) != normalized(b.id) {
            Some(PairingFault::Mismatch)
        } else {
            None
        },
    }
}

/// Whether two names are the same once both are normalized.
pub fn same_read(a: &[u8], b: &[u8]) -> (equal: bool)
    ensures
        equal == (normalized(a@) == normalized(b@)),
{
    same(normalize(a), normalize(b))
}

impl FastqPairReader {
    /// A reader at the start of one stream, or of two.
    pub fn open(paired: bool) -> (reader: FastqPairReader)
        ensures
            reader == (FastqPairReader { paired, delivered: 0 }),
    {
        FastqPairReader { paired, delivered: 0 }
    }

    /// Takes what each stream gave at this step: a record, or nothing at its
    /// end. On one stream the reader passes the record on, alone. On two it
    /// passes both on as a pair when their normalized names agree. The end
    /// of all streams gives no pair. Anything else is a pairing error that
    /// names this step, and leaves the reader where it was.
    pub fn next(&mut self, first: Option<FastqRecord>, second: Option<FastqRecord>) -> (outcome:
        Result<Option<ReadPair>, FilterError>)
        ensures
            final(self).paired == old(self).paired,
            match pairing_fault(old(self).paired, optional_record(first), optional_record(second)) {
                Some(fault) => {
                    &&& outcome == Err::<Option<ReadPair>, FilterError>(
                        FilterError::Pairing(
                            PairingError { step: step_after(old(self).delivered), fault },
                        ),
                    )
                    &&& final(self).delivered == old(self).delivered
                },
                None => match first {
                    Some(a) => {
                        &&& outcome == Ok::<Option<ReadPair>, FilterError>(
                            Some(ReadPair { first: a, second }),
                        )
                        &&& final(self).delivered == step_after(old(self).delivered)
                    },
                    None => {
                        &&& outcome == Ok::<Option<ReadPair>, FilterError>(None)
                        &&& final(self).delivered == old(self).delivered
                    },
                },
            },
    {
        let step: u64 = if self.delivered < u64::MAX {
            self.delivered + 1
        } else {
            self.delivered
        };
        let fault = match (&first, &second) {
            (None, None) => None,
            (Some(_), None) => if self.paired {
                Some(PairingFault::SecondExhausted)
            } else {
                None
            },
            (None, Some(_)) => if self.paired {
                Some(PairingFault::FirstExhausted)
            } else {
                Some(PairingFault::UnexpectedSecond)
            },
            (Some(a), Some(b)) => if !self.paired {
                Some(PairingFault::UnexpectedSecond)
            } else if !same_read(a.id.as_slice(), b.id.as_slice()) {
                Some(PairingFault::Mismatch)
            } else {
                None
            },
        };
        match fault {
            Some(fault) => Err(FilterError::Pairing(PairingError { step, fault })),
            None => match first {
                Some(a) => {
                    self.delivered = step;
                    Ok(Some(ReadPair { first: a, second }))
                },
                None => Ok(None),
            },
        }
    }
}

} // verus!
