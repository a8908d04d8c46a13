//! Read identifiers: their normalized form, and the set of identifiers that a
//! list file names.
//!
//! Formats spell one read's name in several ways: a mate may carry a trailing
//! `/1`, `/2`, `.1` or `.2`. An identifier is normalized by dropping one such
//! suffix. The set holds normalized identifiers and normalizes each query in
//! the same way, so that one entry of the list matches both mates.

use vstd::prelude::*;
use vstd::slice::slice_subrange;
use crate::bytes::owned;

verus! {

/// The line feed, which ends a line of the list.
pub const NEWLINE: u8 = 10;

/// The byte `/`.
pub const SLASH: u8 = 47;

/// The byte `.`.
pub const DOT: u8 = 46;

/// The byte `1`.
pub const ONE: u8 = 49;

/// The byte `2`.
pub const TWO: u8 = 50;

/// ASCII white space: the space, and the bytes from tab to carriage return.
pub open spec fn is_space(b: u8) -> bool {
    b == 32 || (9 <= b && b <= 13)
}

/// Whether `id` ends in a mate suffix behind a name of at least one byte.
pub open spec fn has_mate_suffix(id: Seq<u8>) -> bool {
    &&& id.len() > 2
    &&& (id[id.len() - 2] == SLASH || id[id.len() - 2] == DOT)
    &&& (id[id.len() - 1] == ONE || id[id.len() - 1] == TWO)
}

/// The normalized form of an identifier: `id` without its mate suffix, or
/// `id` itself where it has none.
pub open spec fn normalized(id: Seq<u8>) -> Seq<u8> {
    if has_mate_suffix(id) {
        id.subrange(0, id.len() - 2)
    } else {
        id
    }
}

/// `line` without the white space at its two ends.
pub open spec fn trimmed(line: Seq<u8>) -> Seq<u8>
    decreases line.len(),
{
    if line.len() > 0 && is_space(line[0]) {
        trimmed(line.drop_first())
    } else if line.len() > 0 && is_space(line.last()) {
        trimmed(line.drop_last())
    } else {
        line
    }
}

/// Whether the bytes of `text` from `a` up to `b` are one whole line: they
/// hold no line feed, and a line feed or an end of the text stands on either
/// side.
pub open spec fn is_line(text: Seq<u8>, a: int, b: int) -> bool {
    &&& 0 <= a <= b <= text.len()
    &&& (a == 0 || text[a - 1] == NEWLINE)
    &&& (b == text.len() || text[b] == NEWLINE)
    &&& forall|k: int| a <= k < b ==> text[k] != NEWLINE
}

/// The identifier that a line of the list names: its trimmed content in
/// normalized form. A blank line names none.
pub open spec fn entry(line: Seq<u8>) -> Option<Seq<u8>> {
    if trimmed(line).len() > 0 {
        Some(normalized(trimmed(line)))
    } else {
        None
    }
}

/// Whether some line of `text` names `id`.
pub open spec fn lists(text: Seq<u8>, id: Seq<u8>) -> bool {
    exists|a: int, b: int| #[trigger] is_line(text, a, b) && entry(text.subrange(a, b)) == Some(id)
}

/// The identifiers that the lines of `text` name.
pub open spec fn listed(text: Seq<u8>) -> Set<Seq<u8>> {
    Set::new(|id: Seq<u8>| lists(text, id))
}

/// Whether some line of `text` that ends before `limit` names `id`.
spec fn lists_before(text: Seq<u8>, id: Seq<u8>, limit: int) -> bool {
    exists|a: int, b: int|
        #[trigger] is_line(text, a, b) && b < limit && entry(text.subrange(a, b)) == Some(id)
}

/// Lexicographic order on the bytes from index `i` on.
spec fn precedes_from(a: Seq<u8>, b: Seq<u8>, i: int) -> bool
    decreases a.len() - i,
{
    if i >= b.len() {
        false
    } else if i >= a.len() {
        true
    } else if a[i] != b[i] {
        a[i] < b[i]
    } else {
        precedes_from(a, b, i + 1)
    }
}

/// Strict lexicographic order on byte strings.
spec fn precedes(a: Seq<u8>, b: Seq<u8>) -> bool {
    precedes_from(a, b, 0)
}

/// The byte strings that a vector of identifiers holds, in their order.
spec fn keys(ids: Seq<Vec<u8>>) -> Seq<Seq<u8>> {
    Seq::new(ids.len(), |i: int| ids[i]@)
}

/// The identifiers that a vector holds.
spec fn names(ids: Seq<Vec<u8>>) -> Set<Seq<u8>> {
    keys(ids).to_set()
}

/// Whether each key precedes every later one.
spec fn ascending(keys: Seq<Seq<u8>>) -> bool {
    forall|i: int, j: int| 0 <= i < j < keys.len() ==> precedes(#[trigger] keys[i], #[trigger] keys[j])
}

/// No byte string precedes itself.
proof fn lemma_precedes_irreflexive(a: Seq<u8>, i: int)
    requires
        0 <= i,
    ensures
        !precedes_from(a, a, i),
    decreases a.len() - i,
{
    if i < a.len() {
        lemma_precedes_irreflexive(a, i + 1);
    }
}

/// What precedes a byte string precedes all that it precedes.
proof fn lemma_precedes_transitive(a: Seq<u8>, b: Seq<u8>, c: Seq<u8>, i: int)
    requires
        0 <= i,
        precedes_from(a, b, i),
        precedes_from(b, c, i),
    ensures
        precedes_from(a, c, i),
    decreases a.len() - i,
{
    if i < a.len() && a[i] == b[i] && b[i] == c[i] {
        lemma_precedes_transitive(a, b, c, i + 1);
    }
}

/// The window that is left of a line once the white space at both ends is
/// gone is its trimmed content.
proof fn lemma_trimmed_window(s: Seq<u8>, a: int, b: int)
    requires
        0 <= a <= b <= s.len(),
        forall|k: int| 0 <= k < a ==> is_space(s[k]),
        forall|k: int| b <= k < s.len() ==> is_space(s[k]),
        a < b ==> !is_space(s[a]) && !is_space(s[b - 1]),
    ensures
        trimmed(s) == s.subrange(a, b),
    decreases s.len(),
{
    if s.len() == 0 {
        assert(s.subrange(a, b) =~= s);
    } else if is_space(s[0]) {
        let rest = s.drop_first();
        if a == 0 {
            assert(b == 0);
            assert forall|k: int| 0 <= k < rest.len() implies is_space(rest[k]) by {
                assert(rest[k] == s[k + 1]);
            }
            lemma_trimmed_window(rest, 0, 0);
            assert(rest.subrange(0, 0) =~= s.subrange(a, b));
        } else {
            assert forall|k: int| 0 <= k < a - 1 implies is_space(rest[k]) by {
                assert(rest[k] == s[k + 1]);
            }
            assert forall|k: int| b - 1 <= k < rest.len() implies is_space(rest[k]) by {
                assert(rest[k] == s[k + 1]);
            }
            lemma_trimmed_window(rest, a - 1, b - 1);
            assert(rest.subrange(a - 1, b - 1) =~= s.subrange(a, b));
        }
    } else if is_space(s.last()) {
        let rest = s.drop_last();
        assert(a == 0);
        assert(b < s.len());
        assert forall|k: int| b <= k < rest.len() implies is_space(rest[k]) by {
            assert(rest[k] == s[k]);
        }
        lemma_trimmed_window(rest, a, b);
        assert(rest.subrange(a, b) =~= s.subrange(a, b));
    } else {
        assert(a == 0);
        assert(b == s.len());
        assert(s.subrange(a, b) =~= s);
    }
}

/// A line is fixed by any position that it covers: two lines of which one
/// ends inside the other are the same line.
proof fn lemma_line_unique(text: Seq<u8>, start: int, end: int, a: int, b: int)
    requires
        is_line(text, start, end),
        is_line(text, a, b),
        start <= b <= end,
    ensures
        a == start,
        b == end,
{
    if a < start {
        assert(text[start - 1] != NEWLINE);
    }
    if a > start {
        assert(text[a - 1] != NEWLINE);
    }
    if b < end {
        assert(text[b] != NEWLINE);
    }
}

/// Tells white space from other bytes.
pub fn is_whitespace(b: u8) -> (space: bool)
    ensures
        space == is_space(b),
{
    b == 32 || (9 <= b && b <= 13)
}

/// Drops the mate suffix of an identifier, if it has one.
pub fn normalize(id: &[u8]) -> (stem: &[u8])
    ensures
        stem@ == normalized(id@),
{
    let n = id.len();
    if n > 2 && (id[n - 2] == SLASH || id[n - 2] == DOT) && (id[n - 1] == ONE || id[n - 1] == TWO) {
        slice_subrange(id, 0, n - 2)
    } else {
        id
    }
}

/// Drops the white space at both ends of a line.
pub fn trim(line: &[u8]) -> (content: &[u8])
    ensures
        content@ == trimmed(line@),
{
    let n = line.len();
    let mut start: usize = 0;
    while start < n && is_whitespace(line[start])
        invariant
            start <= n,
            n == line@.len(),
            forall|k: int| 0 <= k < start ==> is_space(line@[k]),
        decreases n - start,
    {
        start += 1;
    }
    let mut end: usize = n;
    while end > start && is_whitespace(line[end - 1])
        invariant
            start <= end <= n,
            n == line@.len(),
            forall|k: int| end <= k < n ==> is_space(line@[k]),
        decreases end,
    {
        end -= 1;
    }
    proof {
        lemma_trimmed_window(line@, start as int, end as int);
    }
    slice_subrange(line, start, end)
}

/// How one byte string stands to another in lexicographic order.
enum Rank {
    Before,
    Same,
    After,
}

/// Compares two byte strings in lexicographic order.
fn rank(a: &[u8], b: &[u8]) -> (r: Rank)
    ensures
        match r {
            Rank::Before => precedes(a@, b@),
            Rank::Same => a@ == b@,
            Rank::After => precedes(b@, a@),
        },
{
    let mut i: usize = 0;
    while i < a.len() && i < b.len()
        invariant
            i <= a@.len(),
            i <= b@.len(),
            forall|k: int| 0 <= k < i ==> a@[k] == b@[k],
            precedes(a@, b@) == precedes_from(a@, b@, i as int),
            precedes(b@, a@) == precedes_from(b@, a@, i as int),
        decreases a@.len() - i,
    {
        if a[i] < b[i] {
            return Rank::Before;
        }
        if a[i] > b[i] {
            return Rank::After;
        }
        i += 1;
    }
    if i < b.len() {
        Rank::Before
    } else if i < a.len() {
        Rank::After
    } else {
        assert(a@ =~= b@);
        Rank::Same
    }
}

/// A run stays ascending when a key that its last key precedes is put
/// behind it.
proof fn lemma_ascending_push(run: Seq<Seq<u8>>, key: Seq<u8>)
    requires
        ascending(run),
        run.len() > 0 ==> precedes(run.last(), key),
    ensures
        ascending(run.push(key)),
{
    let longer = run.push(key);
    assert forall|i: int, j: int| 0 <= i < j < longer.len() implies precedes(
        #[trigger] longer[i],
        #[trigger] longer[j],
    ) by {
        if j == run.len() {
            if i < run.len() - 1 {
                assert(precedes(run[i], run[run.len() - 1]));
                lemma_precedes_transitive(run[i], run.last(), key, 0);
            }
        } else {
            assert(precedes(run[i], run[j]));
        }
    }
}

/// The keys before index `i + 1` are those before `i`, and the key at `i`.
proof fn lemma_prefix_set_step(run: Seq<Seq<u8>>, i: int)
    requires
        0 <= i < run.len(),
    ensures
        run.subrange(0, i + 1).to_set() == run.subrange(0, i).to_set().insert(run[i]),
{
    assert(run.subrange(0, i + 1) =~= run.subrange(0, i).push(run[i]));
    run.subrange(0, i).lemma_push_to_set_commute(run[i]);
}

/// Merges two ascending runs into one. An identifier that both hold is kept
/// once.
fn merge(a: &Vec<Vec<u8>>, b: &Vec<Vec<u8>>) -> (out: Vec<Vec<u8>>)
    requires
        ascending(keys(a@)),
        ascending(keys(b@)),
    ensures
        ascending(keys(out@)),
        keys(out@).to_set() == keys(a@).to_set().union(keys(b@).to_set()),
{
    let ghost ka = keys(a@);
    let ghost kb = keys(b@);
    let mut out: Vec<Vec<u8>> = Vec::new();
    let mut i: usize = 0;
    let mut j: usize = 0;
    assert(keys(out@).to_set() =~= ka.subrange(0, 0).to_set().union(kb.subrange(0, 0).to_set()));
    while i < a.len() || j < b.len()
        invariant
            i <= a@.len(),
            j <= b@.len(),
            ka == keys(a@),
            kb == keys(b@),
            ascending(ka),
            ascending(kb),
            ascending(keys(out@)),
            keys(out@).to_set() == ka.subrange(0, i as int).to_set().union(
                kb.subrange(0, j as int).to_set(),
            ),
            out@.len() > 0 && i < a@.len() ==> precedes(keys(out@).last(), ka[i as int]),
            out@.len() > 0 && j < b@.len() ==> precedes(keys(out@).last(), kb[j as int]),
        decreases a@.len() - i + b@.len() - j,
    {
        let order = if j >= b.len() {
            Rank::Before
        } else if i >= a.len() {
            Rank::After
        } else {
            rank(a[i].as_slice(), b[j].as_slice())
        };
        let ghost before = keys(out@);
        match order {
            Rank::Before => {
                let item = owned(a[i].as_slice());
                proof {
                    lemma_ascending_push(before, item@);
                    lemma_prefix_set_step(ka, i as int);
                    before.lemma_push_to_set_commute(item@);
                    if i + 1 < a@.len() {
                        assert(precedes(ka[i as int], ka[i + 1]));
                    }
                }
                out.push(item);
                i += 1;
            },
            Rank::After => {
                let item = owned(b[j].as_slice());
                proof {
                    lemma_ascending_push(before, item@);
                    lemma_prefix_set_step(kb, j as int);
                    before.lemma_push_to_set_commute(item@);
                    if j + 1 < b@.len() {
                        assert(precedes(kb[j as int], kb[j + 1]));
                    }
                }
                out.push(item);
                j += 1;
            },
            Rank::Same => {
                let item = owned(a[i].as_slice());
                proof {
                    lemma_ascending_push(before, item@);
                    lemma_prefix_set_step(ka, i as int);
                    lemma_prefix_set_step(kb, j as int);
                    before.lemma_push_to_set_commute(item@);
                    if i + 1 < a@.len() {
                        assert(precedes(ka[i as int], ka[i + 1]));
                    }
                    if j + 1 < b@.len() {
                        assert(precedes(kb[j as int], kb[j + 1]));
                    }
                }
                out.push(item);
                i += 1;
                j += 1;
            },
        }
        proof {
            assert(keys(out@) =~= before.push(out@.last()@));
            assert(keys(out@).to_set() =~= ka.subrange(0, i as int).to_set().union(
                kb.subrange(0, j as int).to_set(),
            ));
        }
    }
    proof {
        assert(ka.subrange(0, i as int) =~= ka);
        assert(kb.subrange(0, j as int) =~= kb);
    }
    out
}

/// Sorts the identifiers from index `lo` up to `hi` by merging: the run
/// that comes out is ascending and holds each of them once.
fn sorted_run(items: &Vec<Vec<u8>>, lo: usize, hi: usize) -> (out: Vec<Vec<u8>>)
    requires
        lo <= hi <= items@.len(),
    ensures
        ascending(keys(out@)),
        keys(out@).to_set() == keys(items@).subrange(lo as int, hi as int).to_set(),
    decreases hi - lo,
{
    let ghost all = keys(items@);
    if hi - lo == 0 {
        let out: Vec<Vec<u8>> = Vec::new();
        assert(keys(out@).to_set() =~= all.subrange(lo as int, hi as int).to_set());
        out
    } else if hi - lo == 1 {
        let mut out: Vec<Vec<u8>> = Vec::new();
        out.push(owned(items[lo].as_slice()));
        proof {
            assert(keys(out@) =~= all.subrange(lo as int, hi as int));
        }
        out
    } else {
        let mid = lo + (hi - lo) / 2;
        let a = sorted_run(items, lo, mid);
        let b = sorted_run(items, mid, hi);
        proof {
            assert(all.subrange(lo as int, hi as int) =~= all.subrange(lo as int, mid as int)
                + all.subrange(mid as int, hi as int));
            vstd::seq_lib::seq_to_set_distributes_over_add(
                all.subrange(lo as int, mid as int),
                all.subrange(mid as int, hi as int),
            );
        }
        merge(&a, &b)
    }
}

/// What a line of the list did to the set.
#[derive(Clone, Copy, Debug, PartialEq, Eq, Structural)]
pub enum LineOutcome {
    /// The line is blank and names nothing.
    Blank,
    /// The line names an identifier that the set did not hold.
    Added,
    /// The line names an identifier that the set held already.
    Duplicate,
}

/// The canonical set of target identifiers.
///
/// The identifiers are kept in normalized form, each once, in ascending
/// order, so that a query is answered by bisection.
pub struct IdentifierSet {
    ids: Vec<Vec<u8>>,
}

impl View for IdentifierSet {
    type V = Set<Seq<u8>>;

    /// The normalized identifiers that the set holds.
    closed spec fn view(&self) -> Set<Seq<u8>> {
        keys(self.ids@).to_set()
    }
}

impl IdentifierSet {
    #[verifier::type_invariant]
    spec fn well_formed(self) -> bool {
        ascending(keys(self.ids@))
    }

    /// The set is finite, and no identifier is counted twice.
    proof fn lemma_cardinality(self)
        requires
            ascending(keys(self.ids@)),
        ensures
            self@.finite(),
            self@.len() == self.ids@.len(),
    {
        let ks = keys(self.ids@);
        assert forall|i: int, j: int| 0 <= i < ks.len() && 0 <= j < ks.len() && i != j implies ks[i]
            != ks[j] by {
            lemma_precedes_irreflexive(ks[i], 0);
            if i < j {
                assert(precedes(ks[i], ks[j]));
            } else {
                assert(precedes(ks[j], ks[i]));
            }
        }
        ks.unique_seq_to_set();
        vstd::seq_lib::seq_to_set_is_finite(ks);
    }

    /// The empty set.
    pub fn new() -> (set: IdentifierSet)
        ensures
            set@ == Set::<Seq<u8>>::empty(),
    {
        let set = IdentifierSet { ids: Vec::new() };
        assert(set@ =~= Set::<Seq<u8>>::empty());
        set
    }

    /// The number of identifiers in the set.
    pub fn len(&self) -> (n: usize)
        ensures
            self@.finite(),
            n == self@.len(),
    {
        proof {
            use_type_invariant(self);
            self.lemma_cardinality();
        }
        self.ids.len()
    }

    /// Whether the set holds no identifier.
    pub fn is_empty(&self) -> (empty: bool)
        ensures
            empty == (self@ == Set::<Seq<u8>>::empty()),
    {
        proof {
            use_type_invariant(self);
            self.lemma_cardinality();
            if self.ids@.len() == 0 {
                assert(self@ =~= Set::<Seq<u8>>::empty());
            }
        }
        self.ids.len() == 0
    }

    /// Finds `key` by bisection: whether it is stored, and the index at
    /// which it stands or would have to be put.
    fn position(&self, key: &[u8]) -> (at: (bool, usize))
        ensures
            at.1 <= self.ids@.len(),
            !at.0 ==> forall|k: int| 0 <= k < at.1 ==> precedes(#[trigger] keys(self.ids@)[k], key@),
            at.0 ==> at.1 < self.ids@.len() && keys(self.ids@)[at.1 as int] == key@,
            !at.0 ==> forall|k: int|
                at.1 <= k < self.ids@.len() ==> precedes(key@, #[trigger] keys(self.ids@)[k]),
    {
        proof {
            use_type_invariant(self);
        }
        let ghost ks = keys(self.ids@);
        let mut lo: usize = 0;
        let mut hi: usize = self.ids.len();
        while lo < hi
            invariant
                lo <= hi <= self.ids@.len(),
                ks == keys(self.ids@),
                ascending(ks),
                forall|k: int| 0 <= k < lo ==> precedes(#[trigger] ks[k], key@),
                forall|k: int| hi <= k < ks.len() ==> precedes(key@, #[trigger] ks[k]),
            decreases hi - lo,
        {
            let mid = lo + (hi - lo) / 2;
            match rank(self.ids[mid].as_slice(), key) {
                Rank::Same => {
                    return (true, mid);
                },
                Rank::Before => {
                    assert forall|k: int| 0 <= k < mid + 1 implies precedes(#[trigger] ks[k], key@) by {
                        if k < mid {
                            assert(precedes(ks[k], ks[mid as int]));
                            lemma_precedes_transitive(ks[k], ks[mid as int], key@, 0);
                        }
                    }
                    lo = mid + 1;
                },
                Rank::After => {
                    assert forall|k: int| mid <= k < ks.len() implies precedes(key@, #[trigger] ks[k]) by {
                        if k > mid {
                            assert(precedes(ks[mid as int], ks[k]));
                            lemma_precedes_transitive(key@, ks[mid as int], ks[k], 0);
                        }
                    }
                    hi = mid;
                },
            }
        }
        (false, lo)
    }

    /// Whether the set holds the normalized form of `id`.
    pub fn contains(&self, id: &[u8]) -> (found: bool)
        ensures
            found == self@.contains(normalized(id@)),
    {
        let key = normalize(id);
        let at = self.position(key);
        proof {
            let ks = keys(self.ids@);
            lemma_precedes_irreflexive(key@, 0);
            if at.0 {
                assert(ks[at.1 as int] == key@);
                assert(ks.contains(key@));
            } else {
                assert forall|k: int| 0 <= k < ks.len() implies ks[k] != key@ by {
                    if k < at.1 {
                        assert(precedes(ks[k], key@));
                    } else {
                        assert(precedes(key@, ks[k]));
                    }
                }
            }
        }
        at.0
    }

    /// Puts the normalized form of `id` into the set. Returns whether the
    /// set did not hold it before; an identifier that it held is kept once.
    pub fn insert(&mut self, id: &[u8]) -> (fresh: bool)
        ensures
            final(self)@ == old(self)@.insert(normalized(id@)),
            fresh == !old(self)@.contains(normalized(id@)),
    {
        let key = normalize(id);
        let at = self.position(key);
        proof {
            use_type_invariant(&*self);
        }
        let ghost before = keys(self.ids@);
        proof {
            lemma_precedes_irreflexive(key@, 0);
        }
        if at.0 {
            proof {
                assert(before[at.1 as int] == key@);
                assert(before.contains(key@));
                assert(self@ =~= self@.insert(key@));
            }
            false
        } else {
            proof {
                assert forall|k: int| 0 <= k < before.len() implies before[k] != key@ by {
                    if k < at.1 {
                        assert(precedes(before[k], key@));
                    } else {
                        assert(precedes(key@, before[k]));
                    }
                }
            }
            let copy = owned(key);
            let ghost after = before.insert(at.1 as int, key@);
            let mut ids: Vec<Vec<u8>> = Vec::new();
            std::mem::swap(&mut self.ids, &mut ids);
            proof {
                assert(keys(ids@.insert(at.1 as int, copy)) =~= after);
                assert forall|i: int, j: int| 0 <= i < j < after.len() implies precedes(
                    #[trigger] after[i],
                    #[trigger] after[j],
                ) by {
                    let p = at.1 as int;
                    if j < p {
                        assert(precedes(before[i], before[j]));
                    } else if j == p {
                        assert(precedes(before[i], key@));
                    } else if i < p {
                        assert(precedes(before[i], before[j - 1]));
                    } else if i == p {
                        assert(precedes(key@, before[j - 1]));
                    } else {
                        assert(precedes(before[i - 1], before[j - 1]));
                    }
                }
                assert(after.to_set() =~= before.to_set().insert(key@)) by {
                    assert forall|x: Seq<u8>| after.to_set().contains(x) implies before.to_set().insert(
                        key@,
                    ).contains(x) by {
                        let i = choose|i: int| 0 <= i < after.len() && after[i] == x;
                        let p = at.1 as int;
                        if i < p {
                            assert(before[i] == x);
                        } else if i > p {
                            assert(before[i - 1] == x);
                        }
                    }
                    assert forall|x: Seq<u8>| before.to_set().insert(key@).contains(
                        x,
                    ) implies after.to_set().contains(x) by {
                        let p = at.1 as int;
                        if x == key@ {
                            assert(after[p] == x);
                        } else {
                            let i = choose|i: int| 0 <= i < before.len() && before[i] == x;
                            if i < p {
                                assert(after[i] == x);
                            } else {
                                assert(after[i + 1] == x);
                            }
                        }
                    }
                }
            }
            ids.insert(at.1, copy);
            self.ids = ids;
            true
        }
    }

    /// Takes one line of the list: puts the identifier that it names into
    /// the set, and tells whether the line was blank, or named an
    /// identifier that the set held already. Neither is an error.
    pub fn add_line(&mut self, line: &[u8]) -> (outcome: LineOutcome)
        ensures
            match entry(line@) {
                None => outcome == LineOutcome::Blank && final(self)@ == old(self)@,
                Some(id) => final(self)@ == old(self)@.insert(id) && outcome == if old(self)@.contains(
                    id,
                ) {
                    LineOutcome::Duplicate
                } else {
                    LineOutcome::Added
                },
            },
    {
        let content = trim(line);
        if content.len() == 0 {
            LineOutcome::Blank
        } else if self.insert(content) {
            LineOutcome::Added
        } else {
            LineOutcome::Duplicate
        }
    }

    /// Builds the set that a list names. The list holds one identifier per
    /// line; white space around it and blank lines are skipped, and an
    /// identifier that comes twice is kept once.
    pub fn load(text: &[u8]) -> (set: IdentifierSet)
        ensures
            set@ == listed(text@),
    {
        let mut named: Vec<Vec<u8>> = Vec::new();
        let n = text.len();
        let mut start: usize = 0;
        assert(names(named@) =~= Set::<Seq<u8>>::empty());
        loop
            invariant_except_break
                start <= n,
                start == 0 || text@[start - 1] == NEWLINE,
                forall|id: Seq<u8>|
                    #[trigger] names(named@).contains(id) <==> lists_before(text@, id, start as int),
            invariant
                n == text@.len(),
            ensures
                forall|id: Seq<u8>| #[trigger] names(named@).contains(id) <==> lists(text@, id),
            decreases n - start,
        {
            let mut end: usize = start;
            while end < n && text[end] != NEWLINE
                invariant
                    start <= end <= n,
                    n == text@.len(),
                    forall|k: int| start <= k < end ==> text@[k] != NEWLINE,
                decreases n - end,
            {
                end += 1;
            }
            assert(is_line(text@, start as int, end as int));
            let ghost held = names(named@);
            let ghost line = text@.subrange(start as int, end as int);
            let content = trim(slice_subrange(text, start, end));
            if content.len() > 0 {
                let ghost before = keys(named@);
                named.push(owned(normalize(content)));
                proof {
                    assert(keys(named@) =~= before.push(normalized(content@)));
                    before.lemma_push_to_set_commute(normalized(content@));
                    assert(names(named@) == held.insert(normalized(content@)));
                }
            }
            assert forall|id: Seq<u8>|
                #[trigger] names(named@).contains(id) <==> lists_before(text@, id, end + 1) by {
                if held.contains(id) {
                    let (a, b) = choose|a: int, b: int|
                        #[trigger] is_line(text@, a, b) && b < start && entry(text@.subrange(a, b))
                            == Some(id);
                    assert(is_line(text@, a, b) && b < end + 1);
                }
                if entry(line) == Some(id) {
                    assert(is_line(text@, start as int, end as int) && end < end + 1);
                }
                if lists_before(text@, id, end + 1) {
                    let (a, b) = choose|a: int, b: int|
                        #[trigger] is_line(text@, a, b) && b < end + 1 && entry(text@.subrange(a, b))
                            == Some(id);
                    if b < start {
                        assert(lists_before(text@, id, start as int));
                    } else {
                        lemma_line_unique(text@, start as int, end as int, a, b);
                    }
                }
            }
            if end == n {
                assert forall|id: Seq<u8>|
                    #[trigger] names(named@).contains(id) <==> lists(text@, id) by {
                    if lists(text@, id) {
                        let (a, b) = choose|a: int, b: int|
                            #[trigger] is_line(text@, a, b) && entry(text@.subrange(a, b)) == Some(
                                id,
                            );
                        assert(is_line(text@, a, b) && b < end + 1);
                    }
                }
                break;
            }
            start = end + 1;
        }
        let ids = sorted_run(&named, 0, named.len());
        proof {
            assert(keys(named@).subrange(0, named@.len() as int) =~= keys(named@));
        }
        let set = IdentifierSet { ids };
        proof {
            assert(set@ == names(named@));
            assert forall|id: Seq<u8>| set@.contains(id) <==> listed(text@).contains(id) by {
                assert(names(named@).contains(id) <==> lists(text@, id));
            }
            assert(set@ =~= listed(text@));
        }
        set
    }
}

} // verus!
