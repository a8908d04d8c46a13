//! Where kept records go: the names of the filtered files, the text that is
//! appended to each, and the manifest of what was written.
//!
//! The router opens no file. It tells the caller which files to write, hands
//! back the bytes to append to each, and keeps the manifest until the end.

use vstd::prelude::*;
use vstd::string::{StrSliceExecFns, StringExecFns};
use crate::bytes::{append, optional_text, owned, views};
use crate::cli::Config;
use crate::error::{Channel, FilterError};
use crate::identifier::{normalize, normalized, NEWLINE};
use crate::record::{optional_bytes, AlignmentRecord, AlignmentView, PairView, ReadPair};

verus! {

/// Whether the dot at index `d` parts the name of the file from its
/// extension: it is the last dot of the path, no `/` follows it, and it does
/// not open the file's name.
pub open spec fn is_extension_dot(path: Seq<char>, d: int) -> bool {
    &&& 0 < d < path.len()
    &&& path[d] == '.'
    &&& path[d - 1] != '/'
    &&& forall|k: int| d < k < path.len() ==> path[k] != '.' && path[k] != '/'
}

/// The path without the extension of its file, or the whole path where the
/// file has none.
pub open spec fn stem(path: Seq<char>) -> Seq<char> {
    if exists|d: int| is_extension_dot(path, d) {
        path.subrange(0, choose|d: int| is_extension_dot(path, d))
    } else {
        path
    }
}

/// The name of a filtered file: the stem of the input, the suffix, and the
/// extension, with a dot between them.
pub open spec fn derived_path(input: Seq<char>, suffix: Seq<char>, extension: Seq<char>) -> Seq<
    char,
> {
    stem(input) + seq!['.'] + suffix + seq!['.'] + extension
}

/// The manifest as text: one identifier per line.
pub open spec fn manifest_text(ids: Seq<Seq<u8>>) -> Seq<u8>
    decreases ids.len(),
{
    if ids.len() == 0 {
        Seq::empty()
    } else {
        manifest_text(ids.drop_last()) + ids.last() + seq![NEWLINE]
    }
}

/// A path has at most one dot that parts name and extension.
pub proof fn lemma_extension_dot_unique(path: Seq<char>, d: int, e: int)
    requires
        is_extension_dot(path, d),
        is_extension_dot(path, e),
    ensures
        d == e,
{
    if d < e {
        assert(path[e] != '.');
    }
    if e < d {
        assert(path[d] != '.');
    }
}

/// Computes the name of a filtered file.
pub fn output_path(input: &str, suffix: &str, extension: &str) -> (path: String)
    ensures
        path@ == derived_path(input@, suffix@, extension@),
{
    let n = input.unicode_len();
    let mut i: usize = n;
    let mut cut: usize = n;
    while i > 0
        invariant_except_break
            i <= n,
            cut == n,
            forall|k: int| i <= k < n ==> input@[k] != '.' && input@[k] != '/',
        invariant
            n == input@.len(),
        ensures
            cut <= n,
            cut < n ==> is_extension_dot(input@, cut as int),
            cut == n ==> forall|d: int| !is_extension_dot(input@, d),
        decreases i,
    {
        let c = input.get_char(i - 1);
        if c == '/' {
            assert forall|d: int| !is_extension_dot(input@, d) by {
                if is_extension_dot(input@, d) {
                    if d < i - 1 {
                        assert(input@[i - 1] != '/');
                    }
                }
            }
            break ;
        }
        if c == '.' {
            if i > 1 && input.get_char(i - 2) != '/' {
                cut = i - 1;
            } else {
                assert forall|d: int| !is_extension_dot(input@, d) by {
                    if is_extension_dot(input@, d) {
                        if d < i - 1 {
                            assert(input@[i - 1] != '.');
                        }
                    }
                }
            }
            break ;
        }
        i -= 1;
    }
    proof {
        if cut < n {
            let d = choose|d: int| is_extension_dot(input@, d);
            lemma_extension_dot_unique(input@, d, cut as int);
        } else {
            assert(input@.subrange(0, n as int) =~= input@);
        }
    }
    let mut path = String::from_str(input.substring_char(0, cut));
    path.append(".");
    path.append(suffix);
    path.append(".");
    path.append(extension);
    proof {
        reveal_strlit(".");
        assert("."@ =~= seq!['.']);
    }
    path
}

/// The text of one kept read pair, for each of the two FASTQ files.
#[derive(Clone, Debug, PartialEq, Eq)]
pub struct PairText {
    /// What goes to the forward-read file.
    pub first: Vec<u8>,
    /// What goes to the reverse-read file.
    pub second: Option<Vec<u8>>,
}

/// What the text of a read pair holds.
pub struct PairTextView {
    pub first: Seq<u8>,
    pub second: Option<Seq<u8>>,
}

impl View for PairText {
    type V = PairTextView;

    open spec fn view(&self) -> PairTextView {
        PairTextView { first: self.first@, second: optional_bytes(self.second) }
    }
}

/// What the optional text of a read pair holds.
pub open spec fn optional_pair_text(text: Option<PairText>) -> Option<PairTextView> {
    match text {
        Some(t) => Some(t@),
        None => None,
    }
}

/// A file that a run writes.
#[derive(Clone, Copy, Debug, PartialEq, Eq, Structural)]
pub enum OutputFile {
    /// The filtered FASTA file.
    Fasta,
    /// The filtered forward-read file.
    Fastq1,
    /// The filtered reverse-read file.
    Fastq2,
    /// The manifest.
    Manifest,
}

/// One file, where it is written.
pub open spec fn listed_if(written: bool, file: OutputFile) -> Seq<OutputFile> {
    if written {
        seq![file]
    } else {
        Seq::empty()
    }
}

/// The output side of a run.
pub struct OutputRouter {
    fasta: Option<String>,
    fastq1: Option<String>,
    fastq2: Option<String>,
    read_list: Option<String>,
    manifest: Vec<Vec<u8>>,
    closed: bool,
}

/// What a router holds.
pub struct RouterView {
    /// The filtered FASTA file, where one is written.
    pub fasta: Option<Seq<char>>,
    /// The filtered forward-read file, where one is written.
    pub fastq1: Option<Seq<char>>,
    /// The filtered reverse-read file, where one is written.
    pub fastq2: Option<Seq<char>>,
    /// The file that the manifest goes to, where one was asked for.
    pub read_list: Option<Seq<char>>,
    /// The normalized names of the records written so far, in their order.
    pub manifest: Seq<Seq<u8>>,
    /// Whether the outputs have been closed.
    pub closed: bool,
}

/// The output that `config` asks for without naming the input that it is
/// made from, if there is one.
pub open spec fn unmet_dependency(config: Config) -> Option<FilterError> {
    if config.fasta_out && config.fasta is None {
        Some(FilterError::UnsatisfiedDependency(Channel::Fasta))
    } else if config.fastq_out && config.fastq1 is None {
        Some(FilterError::UnsatisfiedDependency(Channel::Fastq))
    } else {
        None
    }
}

/// The file that a flag and an input make: the input's name with suffix and
/// extension, where the flag is set and the input was named.
pub open spec fn channel(
    wanted: bool,
    input: Option<String>,
    suffix: Seq<char>,
    extension: Seq<char>,
) -> Option<Seq<char>> {
    match input {
        Some(p) => if wanted {
            Some(derived_path(p@, suffix, extension))
        } else {
            None
        },
        None => None,
    }
}

/// The router that `config` asks for, before anything is written.
pub open spec fn routed(config: Config) -> RouterView {
    RouterView {
        fasta: channel(config.fasta_out, config.fasta, config.suffix@, "fasta"@),
        fastq1: channel(config.fastq_out, config.fastq1, config.suffix@, "fastq"@),
        fastq2: channel(
            config.fastq_out && config.fastq1 is Some,
            config.fastq2,
            config.suffix@,
            "fastq"@,
        ),
        read_list: optional_text(config.read_list),
        manifest: Seq::empty(),
        closed: false,
    }
}

impl RouterView {
    /// Whether FASTA text is taken.
    pub open spec fn fasta_open(self) -> bool {
        !self.closed && self.fasta is Some
    }

    /// Whether FASTQ text is taken.
    pub open spec fn fastq_open(self) -> bool {
        !self.closed && self.fastq1 is Some
    }

    /// The router once `id` is on the manifest. Without a file for the
    /// manifest none is kept.
    pub open spec fn logged(self, id: Seq<u8>) -> RouterView {
        if self.read_list is Some {
            RouterView {
                fasta: self.fasta,
                fastq1: self.fastq1,
                fastq2: self.fastq2,
                read_list: self.read_list,
                manifest: self.manifest.push(normalized(id)),
                closed: self.closed,
            }
        } else {
            self
        }
    }

    /// The router after a kept alignment record was handed to it, and the
    /// text to append to the FASTA file. Where no FASTA file is written the
    /// record leaves no trace.
    pub open spec fn alignment_written(self, record: AlignmentView) -> (RouterView, Option<Seq<u8>>) {
        if self.fasta_open() {
            (self.logged(record.id), Some(record.fasta()))
        } else {
            (self, None)
        }
    }

    /// The text that a read pair adds to the FASTQ files. The mate is
    /// written where there is one and a reverse-read file is written.
    pub open spec fn pair_text(self, pair: PairView) -> PairTextView {
        PairTextView {
            first: pair.first.fastq(),
            second: match pair.second {
                Some(mate) => if self.fastq2 is Some {
                    Some(mate.fastq())
                } else {
                    None
                },
                None => None,
            },
        }
    }

    /// The router after a kept read pair was handed to it, and the text to
    /// append to the FASTQ files. Where no FASTQ file is written the pair
    /// leaves no trace.
    pub open spec fn pair_written(self, pair: PairView) -> (RouterView, Option<PairTextView>) {
        if self.fastq_open() {
            (self.logged(pair.first.id), Some(self.pair_text(pair)))
        } else {
            (self, None)
        }
    }

    /// The files that the router writes, in the order in which they are
    /// closed at the end of a run: the filtered files first, the manifest
    /// last, so that it names only what those files hold for good.
    pub open spec fn closing_order(self) -> Seq<OutputFile> {
        listed_if(self.fasta is Some, OutputFile::Fasta) + listed_if(
            self.fastq1 is Some,
            OutputFile::Fastq1,
        ) + listed_if(self.fastq2 is Some, OutputFile::Fastq2) + listed_if(
            self.read_list is Some,
            OutputFile::Manifest,
        )
    }

    /// The router once it is closed, and the text of the manifest where one
    /// is written. A closed router stays as it is and gives no text.
    pub open spec fn finalized(self) -> (RouterView, Option<Seq<u8>>) {
        if self.closed {
            (self, None)
        } else {
            (
                RouterView {
                    fasta: self.fasta,
                    fastq1: self.fastq1,
                    fastq2: self.fastq2,
                    read_list: self.read_list,
                    manifest: self.manifest,
                    closed: true,
                },
                if self.read_list is Some {
                    Some(manifest_text(self.manifest))
                } else {
                    None
                },
            )
        }
    }
}

impl View for OutputRouter {
    type V = RouterView;

    closed spec fn view(&self) -> RouterView {
        RouterView {
            fasta: optional_text(self.fasta),
            fastq1: optional_text(self.fastq1),
            fastq2: optional_text(self.fastq2),
            read_list: optional_text(self.read_list),
            manifest: views(self.manifest@),
            closed: self.closed,
        }
    }
}

/// Names the file of one channel.
fn channel_path(wanted: bool, input: &Option<String>, suffix: &str, extension: &str) -> (path:
    Option<String>)
    ensures
        optional_text(path) == channel(wanted, *input, suffix@, extension@),
{
    match input {
        Some(p) => if wanted {
            Some(output_path(p.as_str(), suffix, extension))
        } else {
            None
        },
        None => None,
    }
}

impl OutputRouter {
    /// A router that writes nothing and is closed.
    pub fn idle() -> (router: OutputRouter)
        ensures
            router@ == (RouterView {
                fasta: None,
                fastq1: None,
                fastq2: None,
                read_list: None,
                manifest: Seq::empty(),
                closed: true,
            }),
    {
        let router = OutputRouter {
            fasta: None,
            fastq1: None,
            fastq2: None,
            read_list: None,
            manifest: Vec::new(),
            closed: true,
        };
        assert(router@.manifest =~= Seq::empty());
        router
    }

    /// Plans the outputs of a run. An output that is asked for without its
    /// input is refused before any file is named.
    pub fn configure(config: &Config) -> (outcome: Result<OutputRouter, FilterError>)
        ensures
            match unmet_dependency(*config) {
                Some(e) => outcome == Err::<OutputRouter, FilterError>(e),
                None => outcome is Ok && outcome->Ok_0@ == routed(*config),
            },
    {
        if config.fasta_out && config.fasta.is_none() {
            return Err(FilterError::UnsatisfiedDependency(Channel::Fasta));
        }
        if config.fastq_out && config.fastq1.is_none() {
            return Err(FilterError::UnsatisfiedDependency(Channel::Fastq));
        }
        let suffix = config.suffix.as_str();
        let read_list = match &config.read_list {
            Some(p) => Some(p.clone()),
            None => None,
        };
        let router = OutputRouter {
            fasta: channel_path(config.fasta_out, &config.fasta, suffix, "fasta"),
            fastq1: channel_path(config.fastq_out, &config.fastq1, suffix, "fastq"),
            fastq2: channel_path(
                config.fastq_out && config.fastq1.is_some(),
                &config.fastq2,
                suffix,
                "fastq",
            ),
            read_list,
            manifest: Vec::new(),
            closed: false,
        };
        assert(router@.manifest =~= Seq::empty());
        Ok(router)
    }

    /// The filtered FASTA file, where one is written.
    pub fn fasta_path(&self) -> (path: &Option<String>)
        ensures
            optional_text(*path) == self@.fasta,
    {
        &self.fasta
    }

    /// The filtered forward-read file, where one is written.
    pub fn fastq1_path(&self) -> (path: &Option<String>)
        ensures
            optional_text(*path) == self@.fastq1,
    {
        &self.fastq1
    }

    /// The filtered reverse-read file, where one is written.
    pub fn fastq2_path(&self) -> (path: &Option<String>)
        ensures
            optional_text(*path) == self@.fastq2,
    {
        &self.fastq2
    }

    /// The file that the manifest goes to, where one was asked for.
    pub fn manifest_path(&self) -> (path: &Option<String>)
        ensures
            optional_text(*path) == self@.read_list,
    {
        &self.read_list
    }

    /// The normalized names of the records written so far.
    pub fn manifest(&self) -> (ids: &Vec<Vec<u8>>)
        ensures
            views(ids@) == self@.manifest,
    {
        &self.manifest
    }

    /// Whether the outputs have been closed.
    pub fn is_closed(&self) -> (closed: bool)
        ensures
            closed == self@.closed,
    {
        self.closed
    }

    /// The files that the router writes, in the order in which the caller
    /// closes them at the end of a run.
    pub fn closing_order(&self) -> (files: Vec<OutputFile>)
        ensures
            files@ == self@.closing_order(),
    {
        let mut files: Vec<OutputFile> = Vec::new();
        if self.fasta.is_some() {
            files.push(OutputFile::Fasta);
        }
        if self.fastq1.is_some() {
            files.push(OutputFile::Fastq1);
        }
        if self.fastq2.is_some() {
            files.push(OutputFile::Fastq2);
        }
        if self.read_list.is_some() {
            files.push(OutputFile::Manifest);
        }
        assert(files@ =~= self@.closing_order());
        files
    }

    /// Puts the normalized form of `id` on the manifest, where one is kept.
    fn log(&mut self, id: &[u8])
        ensures
            final(self)@ == old(self)@.logged(id@),
    {
        if self.read_list.is_some() {
            self.manifest.push(owned(normalize(id)));
            assert(views(self.manifest@) =~= views(old(self).manifest@).push(normalized(id@)));
        }
    }

    /// Takes a kept alignment record. Gives the text to append to the FASTA
    /// file and enters the record's name on the manifest; gives nothing and
    /// changes nothing where no FASTA file is written.
    pub fn write_alignment(&mut self, record: &AlignmentRecord) -> (text: Option<Vec<u8>>)
        ensures
            (final(self)@, optional_bytes(text)) == old(self)@.alignment_written(record@),
    {
        if !self.closed && self.fasta.is_some() {
            self.log(record.id.as_slice());
            Some(record.to_fasta())
        } else {
            None
        }
    }

    /// Takes a kept read pair. Gives the text to append to the FASTQ files
    /// and enters the pair's name on the manifest; gives nothing and changes
    /// nothing where no FASTQ file is written.
    pub fn write_read_pair(&mut self, pair: &ReadPair) -> (text: Option<PairText>)
        ensures
            (final(self)@, optional_pair_text(text)) == old(self)@.pair_written(pair@),
    {
        if !self.closed && self.fastq1.is_some() {
            let second = match &pair.second {
                Some(mate) => if self.fastq2.is_some() {
                    Some(mate.to_fastq())
                } else {
                    None
                },
                None => None,
            };
            self.log(pair.first.id.as_slice());
            Some(PairText { first: pair.first.to_fastq(), second })
        } else {
            None
        }
    }

    /// Enters the normalized form of `id` on the manifest, where one is kept
    /// and the router is not closed.
    pub fn record_manifest(&mut self, id: &[u8])
        ensures
            final(self)@ == if old(self)@.closed {
                old(self)@
            } else {
                old(self)@.logged(id@)
            },
    {
        if !self.closed {
            self.log(id);
        }
    }

    /// Closes the router. Gives the text of the manifest where one is
    /// written: the caller closes the filtered files first and writes the
    /// manifest last, so that it names only what those files hold.
    pub fn finalize(&mut self) -> (text: Option<Vec<u8>>)
        ensures
            (final(self)@, optional_bytes(text)) == old(self)@.finalized(),
    {
        if self.closed {
            return None;
        }
        self.closed = true;
        if self.read_list.is_none() {
            return None;
        }
        let ghost ids = views(self.manifest@);
        let mut text: Vec<u8> = Vec::new();
        let mut i: usize = 0;
        while i < self.manifest.len()
            invariant
                i <= self.manifest@.len(),
                ids == views(self.manifest@),
                text@ == manifest_text(ids.take(i as int)),
            decreases self.manifest@.len() - i,
        {
            assert(ids.take(i + 1).drop_last() =~= ids.take(i as int));
            assert(ids.take(i + 1).last() == self.manifest@[i as int]@);
            append(&mut text, self.manifest[i].as_slice());
            text.push(NEWLINE);
            i += 1;
        }
        assert(ids.take(i as int) =~= ids);
        Some(text)
    }
}

} // verus!
