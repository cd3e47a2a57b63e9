use vstd::prelude::*;

use crate::identity::{IdentityView, PackageIdentity};

verus! {

/// A published archive of one identity.
pub struct CacheEntry {
    pub identity: PackageIdentity,
    pub archive_path: String,
    pub checksum: String,
    pub size_bytes: u64,
}

/// (identity, archive path, checksum, size).
pub type EntryView = (IdentityView, Seq<char>, Seq<char>, u64);

impl View for CacheEntry {
    type V = EntryView;

    open spec fn view(&self) -> EntryView {
        (self.identity@, self.archive_path@, self.checksum@, self.size_bytes)
    }
}

impl CacheEntry {
    pub fn copy(&self) -> (r: CacheEntry)
        requires
            self.identity.wf(),
        ensures
            r@ == self@,
            r.identity.wf(),
    {
        CacheEntry {
            identity: self.identity.copy(),
            archive_path: self.archive_path.clone(),
            checksum: self.checksum.clone(),
            size_bytes: self.size_bytes,
        }
    }
}

/// How streaming an archive into its temporary file ended.
pub enum StreamOutcome {
    /// The whole stream was written; its checksum and size.
    Complete { checksum: String, size_bytes: u64 },
    /// The stream failed before its end.
    Interrupted,
}

pub enum OutcomeView {
    Complete(Seq<char>, u64),
    Interrupted,
}

impl View for StreamOutcome {
    type V = OutcomeView;

    open spec fn view(&self) -> OutcomeView {
        match self {
            StreamOutcome::Complete { checksum, size_bytes } => OutcomeView::Complete(checksum@, *size_bytes),
            StreamOutcome::Interrupted => OutcomeView::Interrupted,
        }
    }
}

#[derive(Clone, Copy, Debug, PartialEq, Eq, Structural)]
pub enum CacheError {
    /// The stream ended early; nothing was published.
    StreamFailed,
    /// The stream's checksum is not the one expected; nothing was published.
    ChecksumMismatch,
}

/// The index of published archives, at most one per identity.
pub struct PackageCache {
    entries: Vec<CacheEntry>,
}

/// The position of the entry for `id`, if one is published.
pub open spec fn find(s: Seq<EntryView>, id: IdentityView) -> Option<int>
    decreases s.len(),
{
    if s.len() == 0 {
        None
    } else if s.last().0 == id {
        Some(s.len() - 1)
    } else {
        find(s.drop_last(), id)
    }
}

pub open spec fn has_spec(s: Seq<EntryView>, id: IdentityView) -> bool {
    find(s, id) is Some
}

pub open spec fn get_spec(s: Seq<EntryView>, id: IdentityView) -> Option<EntryView> {
    match find(s, id) {
        Some(i) => Some(s[i]),
        None => None,
    }
}

/// No identity is published twice.
pub open spec fn unique_ids(s: Seq<EntryView>) -> bool {
    forall|i: int, j: int| 0 <= i < j < s.len() ==> (#[trigger] s[i]).0 != (#[trigger] s[j]).0
}

/// The index after a `put`, and its answer: an identity already published
/// answers with the published entry; a stream that failed, or whose
/// checksum is not the expected one, publishes nothing; otherwise the new
/// entry is published.
pub open spec fn put_spec(
    s: Seq<EntryView>,
    id: IdentityView,
    path: Seq<char>,
    outcome: OutcomeView,
    expected: Option<Seq<char>>,
) -> (Seq<EntryView>, Result<EntryView, CacheError>) {
    if has_spec(s, id) {
        (s, Ok(get_spec(s, id)->0))
    } else {
        match outcome {
            OutcomeView::Interrupted => (s, Err(CacheError::StreamFailed)),
            OutcomeView::Complete(sum, size) => if expected is Some && expected->0 != sum {
                (s, Err(CacheError::ChecksumMismatch))
            } else {
                (s.push((id, path, sum, size)), Ok((id, path, sum, size)))
            },
        }
    }
}

proof fn lemma_find(s: Seq<EntryView>, id: IdentityView)
    ensures
        match find(s, id) {
            Some(i) => 0 <= i < s.len() && s[i].0 == id,
            None => forall|j: int| 0 <= j < s.len() ==> (#[trigger] s[j]).0 != id,
        },
    decreases s.len(),
{
    if s.len() > 0 {
        lemma_find(s.drop_last(), id);
        if s.last().0 != id {
            assert forall|j: int| 0 <= j < s.len() - 1 implies (#[trigger] s[j]) == s.drop_last()[j] by {}
        }
    }
}

impl View for PackageCache {
    type V = Seq<EntryView>;

    closed spec fn view(&self) -> Seq<EntryView> {
        self.entries@.map_values(|e: CacheEntry| e@)
    }
}

impl PackageCache {
    pub closed spec fn wf(&self) -> bool {
        &&& unique_ids(self@)
        &&& forall|i: int| 0 <= i < self.entries.len() ==> (#[trigger] self.entries@[i]).identity.wf()
    }

    pub fn new() -> (r: PackageCache)
        ensures
            r.wf(),
            r@ == Seq::<EntryView>::empty(),
    {
        let r = PackageCache { entries: Vec::new() };
        proof {
            assert(r@ =~= Seq::<EntryView>::empty());
        }
        r
    }

    proof fn lemma_view(&self)
        ensures
            self@.len() == self.entries.len(),
            forall|i: int| 0 <= i < self.entries.len() ==> self@[i] == (#[trigger] self.entries@[i])@,
    {
    }

    fn position(&self, id: &PackageIdentity) -> (r: Option<usize>)
        requires
            self.wf(),
            id.wf(),
        ensures
            r == (match find(self@, id@) {
                Some(i) => Some(i as usize),
                None => None::<usize>,
            }),
            r matches Some(i) ==> i < self.entries.len() && self@[i as int] == self.entries@[i as int]@
                && find(self@, id@) == Some(i as int),
            r is None ==> find(self@, id@) is None,
    {
        proof {
            lemma_find(self@, id@);
            self.lemma_view();
        }
        let mut i: usize = 0;
        while i < self.entries.len()
            invariant
                self.wf(),
                id.wf(),
                i <= self.entries.len(),
                forall|j: int| 0 <= j < i ==> (#[trigger] self@[j]).0 != id@,
            decreases self.entries.len() - i,
        {
            proof {
                self.lemma_view();
            }
            if self.entries[i].identity.same(id) {
                proof {
                    lemma_find(self@, id@);
                    self.lemma_view();
                    assert(self@[i as int].0 == id@);
                    match find(self@, id@) {
                        Some(k) => {
                            if k != i as int {
                                assert(self@[k].0 == self@[i as int].0);
                            }
                        },
                        None => {},
                    }
                }
                return Some(i);
            }
            i = i + 1;
        }
        proof {
            self.lemma_view();
        }
        None
    }

    /// The published entries.
    pub fn entries(&self) -> (r: &Vec<CacheEntry>)
        requires
            self.wf(),
        ensures
            r@.len() == self@.len(),
            forall|i: int| 0 <= i < r.len() ==> (#[trigger] r@[i])@ == self@[i] && r@[i].identity.wf(),
    {
        &self.entries
    }

    /// Whether an archive of `id` is published.
    pub fn has(&self, id: &PackageIdentity) -> (r: bool)
        requires
            self.wf(),
            id.wf(),
        ensures
            r == has_spec(self@, id@),
    {
        self.position(id).is_some()
    }

    /// The published entry of `id`.
    pub fn get(&self, id: &PackageIdentity) -> (r: Option<CacheEntry>)
        requires
            self.wf(),
            id.wf(),
        ensures
            match r {
                Some(e) => get_spec(self@, id@) == Some(e@),
                None => get_spec(self@, id@) is None,
            },
    {
        match self.position(id) {
            Some(i) => Some(self.entries[i].copy()),
            None => None,
        }
    }

    /// Publishes the archive streamed for `id` at `archive_path`, once the
    /// stream is complete and its checksum is the expected one.
    pub fn put(
        &mut self,
        id: &PackageIdentity,
        archive_path: &String,
        outcome: &StreamOutcome,
        expected: &Option<String>,
    ) -> (r: Result<CacheEntry, CacheError>)
        requires
            old(self).wf(),
            id.wf(),
        ensures
            final(self).wf(),
            final(self)@ == put_spec(old(self)@, id@, archive_path@, outcome@, opt_view(*expected)).0,
            match r {
                Ok(e) => put_spec(old(self)@, id@, archive_path@, outcome@, opt_view(*expected)).1 == Ok::<EntryView, CacheError>(e@),
                Err(err) => put_spec(old(self)@, id@, archive_path@, outcome@, opt_view(*expected)).1 == Err::<EntryView, CacheError>(err),
            },
    {
        if let Some(i) = self.position(id) {
            return Ok(self.entries[i].copy());
        }
        proof {
            lemma_find(self@, id@);
        }
        match outcome {
            StreamOutcome::Interrupted => Err(CacheError::StreamFailed),
            StreamOutcome::Complete { checksum, size_bytes } => {
                let mismatch = match expected {
                    Some(want) => !want.eq(checksum),
                    None => false,
                };
                if mismatch {
                    return Err(CacheError::ChecksumMismatch);
                }
                let entry = CacheEntry {
                    identity: id.copy(),
                    archive_path: archive_path.clone(),
                    checksum: checksum.clone(),
                    size_bytes: *size_bytes,
                };
                let published = entry.copy();
                let ghost before = self.entries@;
                self.entries.push(entry);
                proof {
                    assert(self@ =~= before.map_values(|e: CacheEntry| e@).push(published@));
                }
                Ok(published)
            },
        }
    }
}

pub open spec fn opt_view(o: Option<String>) -> Option<Seq<char>> {
    match o {
        Some(s) => Some(s@),
        None => None,
    }
}

/// An empty index publishes nothing; a complete `put` with the expected
/// checksum (or none expected) for an identity not yet published makes it
/// published, and `get` then answers with the verified entry.
pub proof fn lemma_put_publishes(
    s: Seq<EntryView>,
    id: IdentityView,
    path: Seq<char>,
    sum: Seq<char>,
    size: u64,
    expected: Option<Seq<char>>,
)
    requires
        !has_spec(s, id),
        expected is None || expected->0 == sum,
    ensures
        !has_spec(Seq::<EntryView>::empty(), id),
        put_spec(s, id, path, OutcomeView::Complete(sum, size), expected).1 == Ok::<EntryView, CacheError>((id, path, sum, size)),
        has_spec(put_spec(s, id, path, OutcomeView::Complete(sum, size), expected).0, id),
        get_spec(put_spec(s, id, path, OutcomeView::Complete(sum, size), expected).0, id) == Some((id, path, sum, size)),
{
    let t = s.push((id, path, sum, size));
    assert(t.last().0 == id);
}

/// A `put` whose stream fails publishes nothing: the index is unchanged
/// and the identity stays unpublished.
pub proof fn lemma_interrupted_put_publishes_nothing(
    s: Seq<EntryView>,
    id: IdentityView,
    path: Seq<char>,
    expected: Option<Seq<char>>,
)
    requires
        !has_spec(s, id),
    ensures
        put_spec(s, id, path, OutcomeView::Interrupted, expected).0 == s,
        !has_spec(put_spec(s, id, path, OutcomeView::Interrupted, expected).0, id),
        put_spec(s, id, path, OutcomeView::Interrupted, expected).1 == Err::<EntryView, CacheError>(CacheError::StreamFailed),
{
}

/// A `put` keeps every identity published at most once.
pub proof fn lemma_put_keeps_unique(
    s: Seq<EntryView>,
    id: IdentityView,
    path: Seq<char>,
    outcome: OutcomeView,
    expected: Option<Seq<char>>,
)
    requires
        unique_ids(s),
    ensures
        unique_ids(put_spec(s, id, path, outcome, expected).0),
{
    lemma_find(s, id);
}

/// Two `put`s of one identity converge: once the first has succeeded, the
/// second publishes nothing more and answers with the very entry the first
/// published, which is the only entry of that identity.
pub proof fn lemma_racing_puts_converge(
    s: Seq<EntryView>,
    id: IdentityView,
    path1: Seq<char>,
    outcome1: OutcomeView,
    expected1: Option<Seq<char>>,
    path2: Seq<char>,
    outcome2: OutcomeView,
    expected2: Option<Seq<char>>,
)
    requires
        unique_ids(s),
        put_spec(s, id, path1, outcome1, expected1).1 is Ok,
    ensures
        ({
            let (s1, r1) = put_spec(s, id, path1, outcome1, expected1);
            let (s2, r2) = put_spec(s1, id, path2, outcome2, expected2);
            &&& s2 == s1
            &&& r2 == r1
            &&& has_spec(s2, id)
            &&& r1->Ok_0.0 == id
            &&& unique_ids(s2)
            &&& forall|i: int, j: int|
                0 <= i < s2.len() && 0 <= j < s2.len() && (#[trigger] s2[i]).0 == id && (#[trigger] s2[j]).0 == id
                    ==> i == j
        }),
{
    lemma_find(s, id);
    lemma_put_keeps_unique(s, id, path1, outcome1, expected1);
    let (s1, r1) = put_spec(s, id, path1, outcome1, expected1);
    lemma_find(s1, id);
    if !has_spec(s, id) {
        assert(s1.last().0 == id);
    }
}

} // verus!
