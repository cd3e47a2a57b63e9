use vstd::prelude::*;

use crate::identity::{IdentityView, PackageIdentity};

verus! {

/// One installed package: what it is, where it lives relative to the
/// project, and when it was installed.
pub struct InstalledPath {
    pub identity: PackageIdentity,
    pub relative_path: String,
    pub install_time: u64,
}

/// (identity, relative path, install time).
pub type InstalledView = (IdentityView, Seq<char>, u64);

impl View for InstalledPath {
    type V = InstalledView;

    open spec fn view(&self) -> InstalledView {
        (self.identity@, self.relative_path@, self.install_time)
    }
}

#[derive(Clone, Copy, Debug, PartialEq, Eq, Structural)]
pub enum RecorderError {
    /// The relative path is already recorded and overwriting was not asked.
    DuplicatePath,
}

/// The installed-paths record of one project, in order of installation; no
/// two entries share a relative path.
pub struct InstalledPathsRecord {
    entries: Vec<InstalledPath>,
}

/// No relative path is recorded twice.
pub open spec fn unique_paths(s: Seq<InstalledView>) -> bool {
    forall|i: int, j: int| 0 <= i < j < s.len() ==> (#[trigger] s[i]).1 != (#[trigger] s[j]).1
}

/// Whether `path` is recorded.
pub open spec fn path_recorded(s: Seq<InstalledView>, path: Seq<char>) -> bool {
    exists|i: int| 0 <= i < s.len() && (#[trigger] s[i]).1 == path
}

/// The record after `record`, and its answer: a recorded path is refused
/// unless overwriting is asked, in which case its entry is replaced in
/// place; a new path is appended.
pub open spec fn record_spec(s: Seq<InstalledView>, entry: InstalledView, overwrite: bool) -> (Seq<InstalledView>, Result<(), RecorderError>) {
    if path_recorded(s, entry.1) {
        if overwrite {
            let i = choose|i: int| 0 <= i < s.len() && (#[trigger] s[i]).1 == entry.1;
            (s.update(i, entry), Ok(()))
        } else {
            (s, Err(RecorderError::DuplicatePath))
        }
    } else {
        (s.push(entry), Ok(()))
    }
}

impl View for InstalledPathsRecord {
    type V = Seq<InstalledView>;

    closed spec fn view(&self) -> Seq<InstalledView> {
        self.entries@.map_values(|e: InstalledPath| e@)
    }
}

impl InstalledPathsRecord {
    pub closed spec fn wf(&self) -> bool {
        unique_paths(self@)
    }

    proof fn lemma_view(&self)
        ensures
            self@.len() == self.entries.len(),
            forall|i: int| 0 <= i < self.entries.len() ==> self@[i] == (#[trigger] self.entries@[i])@,
    {
    }

    pub fn new() -> (r: InstalledPathsRecord)
        ensures
            r.wf(),
            r@ == Seq::<InstalledView>::empty(),
    {
        let r = InstalledPathsRecord { entries: Vec::new() };
        proof {
            assert(r@ =~= Seq::<InstalledView>::empty());
        }
        r
    }

    /// The recorded entries, in order.
    pub fn entries(&self) -> (r: &Vec<InstalledPath>)
        ensures
            r@.map_values(|e: InstalledPath| e@) == self@,
    {
        &self.entries
    }

    /// Records `entry`; see `record_spec`.
    pub fn record(&mut self, entry: InstalledPath, overwrite: bool) -> (r: Result<(), RecorderError>)
        requires
            old(self).wf(),
        ensures
            final(self).wf(),
            final(self)@ == record_spec(old(self)@, entry@, overwrite).0,
            r == record_spec(old(self)@, entry@, overwrite).1,
    {
        let ghost s = self@;
        let ghost e = entry@;
        let mut i: usize = 0;
        while i < self.entries.len()
            invariant
                i <= self.entries.len(),
                s == self@,
                s == old(self)@,
                unique_paths(s),
                e == entry@,
                forall|j: int| 0 <= j < i ==> (#[trigger] s[j]).1 != e.1,
            decreases self.entries.len() - i,
        {
            proof {
                self.lemma_view();
            }
            if self.entries[i].relative_path.eq(&entry.relative_path) {
                proof {
                    assert(s[i as int].1 == e.1);
                    assert(path_recorded(s, e.1));
                    let k = choose|k: int| 0 <= k < s.len() && (#[trigger] s[k]).1 == e.1;
                    if k != i as int {
                        assert(unique_paths(s));
                        if k < i as int {
                            assert(s[k].1 != s[i as int].1);
                        } else {
                            assert(s[i as int].1 != s[k].1);
                        }
                    }
                }
                if !overwrite {
                    return Err(RecorderError::DuplicatePath);
                }
                self.entries.set(i, entry);
                proof {
                    assert(self@ =~= s.update(i as int, e));
                    assert forall|a: int, b: int| 0 <= a < b < self@.len() implies (#[trigger] self@[a]).1 != (#[trigger] self@[b]).1 by {
                        if a != i as int && b != i as int {
                            assert(s[a].1 != s[b].1);
                        } else if a == i as int {
                            assert(s[a].1 != s[b].1);
                        } else {
                            assert(s[a].1 != s[b].1);
                        }
                    }
                }
                return Ok(());
            }
            i = i + 1;
        }
        proof {
            self.lemma_view();
            assert(!path_recorded(s, e.1));
        }
        self.entries.push(entry);
        proof {
            assert(self@ =~= s.push(e));
            assert forall|a: int, b: int| 0 <= a < b < self@.len() implies (#[trigger] self@[a]).1 != (#[trigger] self@[b]).1 by {
                if b == s.len() {
                    assert(s[a].1 != e.1);
                } else {
                    assert(s[a].1 != s[b].1);
                }
            }
        }
        Ok(())
    }
}

/// Installing at a path the record already holds, without overwriting,
/// fails with `DuplicatePath` and leaves the record as it was.
pub proof fn lemma_duplicate_path_refused(s: Seq<InstalledView>, i: int, entry: InstalledView)
    requires
        0 <= i < s.len(),
        s[i].1 == entry.1,
    ensures
        record_spec(s, entry, false).1 == Err::<(), RecorderError>(RecorderError::DuplicatePath),
        record_spec(s, entry, false).0 == s,
{
    assert(path_recorded(s, entry.1));
}

} // verus!
