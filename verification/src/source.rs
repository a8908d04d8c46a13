//! The alignment source: a BAM or a CRAM file, and the reference that a CRAM
//! file is decoded against.
//!
//! Decoding the container is the caller's part. The source decides whether
//! the file can be opened at all, and whether a decoded record is one that
//! the reference allows.

use vstd::prelude::*;
use crate::bytes::{same, views};
use crate::error::FilterError;
use crate::record::{AlignmentRecord, AlignmentView};

verus! {

/// The two containers that hold alignments.
#[derive(Clone, Copy, Debug, PartialEq, Eq, Structural)]
pub enum AlignmentFormat {
    /// Records are stored whole.
    Bam,
    /// Records are stored as differences from a reference sequence.
    Cram,
}

/// The names of the sequences of a FASTA reference.
#[derive(Clone, Debug, PartialEq, Eq)]
pub struct FastaIndex {
    /// The sequence names, in the order of the file.
    pub names: Vec<Vec<u8>>,
}

impl View for FastaIndex {
    type V = Seq<Seq<u8>>;

    open spec fn view(&self) -> Seq<Seq<u8>> {
        views(self.names@)
    }
}

impl FastaIndex {
    /// Whether the reference has a sequence called `name`.
    pub fn contains(&self, name: &[u8]) -> (found: bool)
        ensures
            found == self@.contains(name@),
    {
        let mut i: usize = 0;
        while i < self.names.len()
            invariant
                i <= self.names@.len(),
                forall|k: int| 0 <= k < i ==> self@[k] != name@,
            decreases self.names@.len() - i,
        {
            if same(self.names[i].as_slice(), name) {
                assert(self@[i as int] == name@);
                return true;
            }
            i += 1;
        }
        false
    }
}

/// What an optional reference holds.
pub open spec fn optional_index(reference: Option<FastaIndex>) -> Option<Seq<Seq<u8>>> {
    match reference {
        Some(index) => Some(index@),
        None => None,
    }
}

/// An opened alignment file.
#[derive(Clone, Debug, PartialEq, Eq)]
pub struct AlignmentSource {
    /// The container.
    pub format: AlignmentFormat,
    /// The reference, where one was supplied.
    pub reference: Option<FastaIndex>,
}

/// What an alignment source holds.
pub struct SourceView {
    pub format: AlignmentFormat,
    pub reference: Option<Seq<Seq<u8>>>,
}

impl View for AlignmentSource {
    type V = SourceView;

    open spec fn view(&self) -> SourceView {
        SourceView { format: self.format, reference: optional_index(self.reference) }
    }
}

impl SourceView {
    /// Whether a decoded record is one that the reference allows. A BAM
    /// record always is, and so is a record that names no reference
    /// sequence. A CRAM record that names one is allowed when the reference
    /// has a sequence of that name.
    pub open spec fn allows(self, record: AlignmentView) -> bool {
        match (self.format, record.reference, self.reference) {
            (AlignmentFormat::Cram, Some(name), Some(index)) => index.contains(name),
            (AlignmentFormat::Cram, Some(name), None) => false,
            _ => true,
        }
    }
}

impl AlignmentSource {
    /// Opens an alignment file of the given container. A CRAM file is
    /// refused unless a reference comes with it.
    pub fn open(format: AlignmentFormat, reference: Option<FastaIndex>) -> (outcome: Result<
        AlignmentSource,
        FilterError,
    >)
        ensures
            match outcome {
                Ok(source) => source == (AlignmentSource { format, reference }) && !(format
                    == AlignmentFormat::Cram && reference is None),
                Err(e) => e == FilterError::MissingReference && format == AlignmentFormat::Cram
                    && reference is None,
            },
    {
        match (format, &reference) {
            (AlignmentFormat::Cram, None) => Err(FilterError::MissingReference),
            _ => Ok(AlignmentSource { format, reference }),
        }
    }

    /// Tests a decoded record against the reference.
    pub fn vet(&self, record: &AlignmentRecord) -> (outcome: Result<(), FilterError>)
        ensures
            match outcome {
                Ok(_) => self@.allows(record@),
                Err(e) => e == FilterError::ReferenceMismatch && !self@.allows(record@),
            },
    {
        match self.format {
            AlignmentFormat::Bam => Ok(()),
            AlignmentFormat::Cram => match &record.reference {
                None => Ok(()),
                Some(name) => match &self.reference {
                    None => Err(FilterError::ReferenceMismatch),
                    Some(index) => if index.contains(name.as_slice()) {
                        Ok(())
                    } else {
                        Err(FilterError::ReferenceMismatch)
                    },
                },
            },
        }
    }
}

} // verus!
