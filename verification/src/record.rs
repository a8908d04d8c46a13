//! The records that flow through a run, and the text in which kept records
//! are written.

use vstd::prelude::*;
use crate::bytes::{append, owned};
use crate::identifier::NEWLINE;
use vstd::slice::slice_subrange;

verus! {

/// The byte `>`, which opens a FASTA header.
pub const GREATER: u8 = 62;

/// The byte `@`, which opens a FASTQ header.
pub const AT: u8 = 64;

/// The byte `+`, which opens the separator line of a FASTQ record.
pub const PLUS: u8 = 43;

/// The space.
pub const SPACE: u8 = 32;

/// The horizontal tab.
pub const TAB: u8 = 9;

/// The flag bit of a read that has a mate.
pub const FLAG_PAIRED: u16 = 0x1;

/// The flag bit of a read that is not mapped.
pub const FLAG_UNMAPPED: u16 = 0x4;

/// The flag bit of the first mate of a pair.
pub const FLAG_FIRST_MATE: u16 = 0x40;

/// The flag bit of the second mate of a pair.
pub const FLAG_SECOND_MATE: u16 = 0x80;

/// One record of an alignment file.
#[derive(Clone, Debug, PartialEq, Eq)]
pub struct AlignmentRecord {
    /// The read's name.
    pub id: Vec<u8>,
    /// The flag bits.
    pub flags: u16,
    /// The bases.
    pub sequence: Vec<u8>,
    /// The base qualities.
    pub qualities: Vec<u8>,
    /// The name of the reference sequence that the read is aligned to.
    pub reference: Option<Vec<u8>>,
    /// The position on that reference sequence.
    pub position: Option<u64>,
}

/// What an alignment record holds.
pub struct AlignmentView {
    pub id: Seq<u8>,
    pub flags: u16,
    pub sequence: Seq<u8>,
    pub qualities: Seq<u8>,
    pub reference: Option<Seq<u8>>,
    pub position: Option<u64>,
}

/// One record of a FASTQ file.
#[derive(Clone, Debug, PartialEq, Eq)]
pub struct FastqRecord {
    /// The read's name: the header up to its first blank.
    pub id: Vec<u8>,
    /// The sequencing platform's comment: the header behind that blank.
    pub comment: Option<Vec<u8>>,
    /// The bases.
    pub sequence: Vec<u8>,
    /// The quality string.
    pub qualities: Vec<u8>,
}

/// What a FASTQ record holds.
pub struct FastqView {
    pub id: Seq<u8>,
    pub comment: Option<Seq<u8>>,
    pub sequence: Seq<u8>,
    pub qualities: Seq<u8>,
}

/// The records that one step over the FASTQ input gives: a forward or single
/// read, and its mate where two files are read.
#[derive(Clone, Debug, PartialEq, Eq)]
pub struct ReadPair {
    /// The forward or single read.
    pub first: FastqRecord,
    /// The reverse read.
    pub second: Option<FastqRecord>,
}

/// What a read pair holds.
pub struct PairView {
    pub first: FastqView,
    pub second: Option<FastqView>,
}

/// What an optional byte string holds.
pub open spec fn optional_bytes(bytes: Option<Vec<u8>>) -> Option<Seq<u8>> {
    match bytes {
        Some(b) => Some(b@),
        None => None,
    }
}

/// What an optional FASTQ record holds.
pub open spec fn optional_record(record: Option<FastqRecord>) -> Option<FastqView> {
    match record {
        Some(r) => Some(r@),
        None => None,
    }
}

impl View for AlignmentRecord {
    type V = AlignmentView;

    open spec fn view(&self) -> AlignmentView {
        AlignmentView {
            id: self.id@,
            flags: self.flags,
            sequence: self.sequence@,
            qualities: self.qualities@,
            reference: optional_bytes(self.reference),
            position: self.position,
        }
    }
}

impl View for FastqRecord {
    type V = FastqView;

    open spec fn view(&self) -> FastqView {
        FastqView {
            id: self.id@,
            comment: optional_bytes(self.comment),
            sequence: self.sequence@,
            qualities: self.qualities@,
        }
    }
}

impl View for ReadPair {
    type V = PairView;

    open spec fn view(&self) -> PairView {
        PairView { first: self.first@, second: optional_record(self.second) }
    }
}

/// A space or a tab: what parts a FASTQ header into name and comment.
pub open spec fn is_blank(b: u8) -> bool {
    b == SPACE || b == TAB
}

/// The index of the first blank of `s` at or behind `from`, or the length of
/// `s` where there is none.
pub open spec fn first_blank(s: Seq<u8>, from: int) -> int
    decreases s.len() - from,
{
    if from >= s.len() {
        s.len() as int
    } else if is_blank(s[from]) {
        from
    } else {
        first_blank(s, from + 1)
    }
}

impl AlignmentView {
    /// The record as FASTA text: a header line with the name, and a line
    /// with the bases.
    pub open spec fn fasta(self) -> Seq<u8> {
        seq![GREATER] + self.id + seq![NEWLINE] + self.sequence + seq![NEWLINE]
    }

    /// Whether the flag bit `bit` is set.
    pub open spec fn has_flag(self, bit: u16) -> bool {
        self.flags & bit != 0
    }
}

impl FastqView {
    /// The header line, without the line feed: `@`, the name, and the
    /// comment behind a space where there is one.
    pub open spec fn header(self) -> Seq<u8> {
        match self.comment {
            Some(c) => seq![AT] + self.id + seq![SPACE] + c,
            None => seq![AT] + self.id,
        }
    }

    /// The record as FASTQ text: header, bases, separator and qualities, one
    /// line each.
    pub open spec fn fastq(self) -> Seq<u8> {
        self.header() + seq![NEWLINE] + self.sequence + seq![NEWLINE, PLUS, NEWLINE]
            + self.qualities + seq![NEWLINE]
    }

    /// Whether the record can be written and read back: the name is not
    /// empty and holds no blank, and every base has its quality.
    pub open spec fn well_formed(self) -> bool {
        &&& self.id.len() > 0
        &&& forall|k: int| 0 <= k < self.id.len() ==> !is_blank(#[trigger] self.id[k])
        &&& self.sequence.len() == self.qualities.len()
    }
}

/// The record that four lines of a FASTQ file make, the line feeds taken
/// off. They make none unless the header opens with `@` and a name, the
/// separator opens with `+`, and there are as many qualities as bases.
pub open spec fn parsed(
    header: Seq<u8>,
    sequence: Seq<u8>,
    separator: Seq<u8>,
    qualities: Seq<u8>,
) -> Option<FastqView> {
    let stop = first_blank(header, 1);
    if header.len() >= 2 && header[0] == AT && stop > 1 && separator.len() >= 1 && separator[0]
        == PLUS && sequence.len() == qualities.len() {
        Some(
            FastqView {
                id: header.subrange(1, stop),
                comment: if stop < header.len() {
                    Some(header.subrange(stop + 1, header.len() as int))
                } else {
                    None
                },
                sequence,
                qualities,
            },
        )
    } else {
        None
    }
}

/// No blank stands before the first blank, and one stands there unless the
/// bytes have run out.
pub proof fn lemma_first_blank(s: Seq<u8>, from: int)
    requires
        0 <= from <= s.len(),
    ensures
        from <= first_blank(s, from) <= s.len(),
        forall|k: int| from <= k < first_blank(s, from) ==> !is_blank(s[k]),
        first_blank(s, from) < s.len() ==> is_blank(s[first_blank(s, from)]),
    decreases s.len() - from,
{
    if from < s.len() && !is_blank(s[from]) {
        lemma_first_blank(s, from + 1);
    }
}

/// The first blank is the one place with a blank, or the end, before which
/// no blank stands.
pub proof fn lemma_first_blank_is(s: Seq<u8>, from: int, stop: int)
    requires
        0 <= from <= stop <= s.len(),
        forall|k: int| from <= k < stop ==> !is_blank(s[k]),
        stop < s.len() ==> is_blank(s[stop]),
    ensures
        first_blank(s, from) == stop,
    decreases stop - from,
{
    if from < stop {
        lemma_first_blank_is(s, from + 1, stop);
    }
}

/// A well-formed record is read back from the lines in which it is written.
pub proof fn lemma_fastq_round_trip(record: FastqView)
    requires
        record.well_formed(),
    ensures
        parsed(record.header(), record.sequence, seq![PLUS], record.qualities) == Some(record),
{
    let header = record.header();
    let stop: int = record.id.len() as int + 1;
    assert forall|k: int| 1 <= k < stop implies !is_blank(header[k]) by {
        assert(header[k] == record.id[k - 1]);
    }
    lemma_first_blank_is(header, 1, stop);
    assert(header.subrange(1, stop) =~= record.id);
    match record.comment {
        Some(c) => {
            assert(header.subrange(stop + 1, header.len() as int) =~= c);
        },
        None => {},
    }
}

impl AlignmentRecord {
    /// Writes the record as FASTA text.
    pub fn to_fasta(&self) -> (text: Vec<u8>)
        ensures
            text@ == self@.fasta(),
    {
        let mut text: Vec<u8> = Vec::new();
        text.push(GREATER);
        append(&mut text, self.id.as_slice());
        text.push(NEWLINE);
        append(&mut text, self.sequence.as_slice());
        text.push(NEWLINE);
        assert(text@ =~= self@.fasta());
        text
    }

    /// Whether the read is not mapped.
    pub fn is_unmapped(&self) -> (unmapped: bool)
        ensures
            unmapped == self@.has_flag(FLAG_UNMAPPED),
    {
        self.flags & FLAG_UNMAPPED != 0
    }

    /// Whether the read has a mate.
    pub fn is_paired(&self) -> (paired: bool)
        ensures
            paired == self@.has_flag(FLAG_PAIRED),
    {
        self.flags & FLAG_PAIRED != 0
    }

    /// Whether the read is the first mate of its pair.
    pub fn is_first_mate(&self) -> (first: bool)
        ensures
            first == self@.has_flag(FLAG_FIRST_MATE),
    {
        self.flags & FLAG_FIRST_MATE != 0
    }

    /// Whether the read is the second mate of its pair.
    pub fn is_second_mate(&self) -> (second: bool)
        ensures
            second == self@.has_flag(FLAG_SECOND_MATE),
    {
        self.flags & FLAG_SECOND_MATE != 0
    }
}

impl FastqRecord {
    /// A record with the same content.
    pub fn duplicate(&self) -> (copy: FastqRecord)
        ensures
            copy@ == self@,
    {
        let comment = match &self.comment {
            Some(c) => Some(owned(c.as_slice())),
            None => None,
        };
        FastqRecord {
            id: owned(self.id.as_slice()),
            comment,
            sequence: owned(self.sequence.as_slice()),
            qualities: owned(self.qualities.as_slice()),
        }
    }

    /// Writes the record as FASTQ text.
    pub fn to_fastq(&self) -> (text: Vec<u8>)
        ensures
            text@ == self@.fastq(),
    {
        let mut text: Vec<u8> = Vec::new();
        text.push(AT);
        append(&mut text, self.id.as_slice());
        match &self.comment {
            Some(c) => {
                text.push(SPACE);
                append(&mut text, c.as_slice());
            },
            None => {},
        }
        assert(text@ =~= self@.header());
        text.push(NEWLINE);
        append(&mut text, self.sequence.as_slice());
        text.push(NEWLINE);
        text.push(PLUS);
        text.push(NEWLINE);
        append(&mut text, self.qualities.as_slice());
        text.push(NEWLINE);
        assert(text@ =~= self@.fastq());
        text
    }

    /// Reads a record from the four lines that hold it, the line feeds
    /// taken off. Gives none where the lines are no record.
    pub fn from_lines(header: &[u8], sequence: &[u8], separator: &[u8], qualities: &[u8]) -> (record:
        Option<FastqRecord>)
        ensures
            optional_record(record) == parsed(header@, sequence@, separator@, qualities@),
    {
        let n = header.len();
        let mut stop: usize = if n >= 1 { 1 } else { 0 };
        while stop < n && !(header[stop] == SPACE || header[stop] == TAB)
            invariant
                n == header@.len(),
                stop <= n,
                n >= 1 ==> 1 <= stop,
                forall|k: int| 1 <= k < stop ==> !is_blank(header@[k]),
            decreases n - stop,
        {
            stop += 1;
        }
        proof {
            if n >= 1 {
                lemma_first_blank_is(header@, 1, stop as int);
            }
        }
        if n >= 2 && header[0] == AT && stop > 1 && separator.len() >= 1 && separator[0] == PLUS
            && sequence.len() == qualities.len() {
            let comment = if stop < n {
                Some(owned(slice_subrange(header, stop + 1, n)))
            } else {
                None
            };
            Some(
                FastqRecord {
                    id: owned(slice_subrange(header, 1, stop)),
                    comment,
                    sequence: owned(sequence),
                    qualities: owned(qualities),
                },
            )
        } else {
            None
        }
    }
}

} // verus!
