use vstd::prelude::*;

use crate::cache::{CacheEntry, EntryView, PackageCache};
use crate::packages::PkgRegistryInfo;
use crate::pkg_type::PkgType;
use crate::version::{
    compare_versions, matches_spec, parse_version, parsed_version, rank, version_order,
    views, SemVer, VersionConstraint, VersionError, VersionView, all_wf, descending,
};

verus! {

/// How many of the newest matching versions an install considers.
pub const DEFAULT_MAX_LATEST_VERSIONS_WHEN_INSTALL: usize = 3;

/// How many downloads an install tries, over all considered versions.
pub const DEFAULT_MAX_RETRY_ATTEMPTS_WHEN_INSTALL: u32 = 10;

/// A dependency of a project: kind, name and version requirement.
pub struct DependencyDeclaration {
    pub pkg_type: PkgType,
    pub name: String,
    pub constraint: VersionConstraint,
}

#[derive(Clone, Copy, Debug, PartialEq, Eq, Structural)]
pub enum ResolutionError {
    /// No candidate satisfies the declaration.
    NoMatchingVersion,
    /// Two candidates of one considered version were published at the same
    /// time, so neither can be preferred.
    AmbiguousCandidate,
}

/// Whether a registry candidate satisfies a declaration: same kind and
/// name, and a version that parses and meets the requirement.
pub open spec fn candidate_matches(d: DependencyDeclaration, c: PkgRegistryInfo) -> bool {
    &&& c.pkg_type == d.pkg_type
    &&& c.name@ == d.name@
    &&& parsed_version(c.version@) is Some
    &&& matches_spec(d.constraint.text(), parsed_version(c.version@)->0)
}

pub open spec fn version_of(c: PkgRegistryInfo) -> VersionView {
    parsed_version(c.version@)->0
}

/// All matching candidates of one version, with the one to install.
struct Group {
    version: SemVer,
    best: usize,
}

spec fn group_ok(d: DependencyDeclaration, cs: Seq<PkgRegistryInfo>, g: Group, upto: int) -> bool {
    &&& g.version.wf()
    &&& g.best < upto <= cs.len()
    &&& candidate_matches(d, cs[g.best as int])
    &&& version_of(cs[g.best as int]) == g.version@
    &&& forall|i: int| 0 <= i < upto && candidate_matches(d, #[trigger] cs[i]) && version_of(cs[i]) == g.version@
        ==> cs[i].publish_time <= cs[g.best as int].publish_time
}

fn candidate_version(d: &DependencyDeclaration, c: &PkgRegistryInfo) -> (r: Option<SemVer>)
    ensures
        match r {
            Some(v) => candidate_matches(*d, *c) && v@ == version_of(*c) && v.wf(),
            None => !candidate_matches(*d, *c),
        },
{
    if c.pkg_type != d.pkg_type || !c.name.eq(&d.name) {
        return None;
    }
    match parse_version(c.version.as_str()) {
        Ok(v) => if crate::version::matches(&d.constraint, &v) {
            Some(v)
        } else {
            None
        },
        Err(VersionError::ParseError(_)) => None,
    }
}

#[verifier::rlimit(60)]
fn group_candidates(d: &DependencyDeclaration, cs: &Vec<PkgRegistryInfo>) -> (r: Vec<Group>)
    ensures
        forall|g: int| 0 <= g < r.len() ==> group_ok(*d, cs@, #[trigger] r@[g], cs.len() as int),
        forall|g: int, h: int| 0 <= g < h < r.len() ==> (#[trigger] r@[g]).version@ != (#[trigger] r@[h]).version@,
        forall|i: int| 0 <= i < cs.len() && candidate_matches(*d, #[trigger] cs@[i]) ==> exists|g: int|
            0 <= g < r.len() && (#[trigger] r@[g]).version@ == version_of(cs@[i]),
{
    let mut groups: Vec<Group> = Vec::new();
    let mut i: usize = 0;
    while i < cs.len()
        invariant
            i <= cs.len(),
            forall|g: int| 0 <= g < groups.len() ==> group_ok(*d, cs@, #[trigger] groups@[g], i as int),
            forall|g: int, h: int| 0 <= g < h < groups.len() ==> (#[trigger] groups@[g]).version@ != (#[trigger] groups@[h]).version@,
            forall|k: int| 0 <= k < i && candidate_matches(*d, #[trigger] cs@[k]) ==> exists|g: int|
                0 <= g < groups.len() && (#[trigger] groups@[g]).version@ == version_of(cs@[k]),
        decreases cs.len() - i,
    {
        match candidate_version(d, &cs[i]) {
            None => {
                proof {
                    assert forall|g: int| 0 <= g < groups.len() implies group_ok(*d, cs@, #[trigger] groups@[g], i + 1) by {
                        let gg = groups@[g];
                        assert(group_ok(*d, cs@, gg, i as int));
                    }
                }
            },
            Some(v) => {
                let mut g: usize = 0;
                while g < groups.len() && compare_versions(&groups[g].version, &v) != 0
                    invariant
                        g <= groups.len(),
                        v.wf(),
                        forall|h: int| 0 <= h < groups.len() ==> group_ok(*d, cs@, #[trigger] groups@[h], i as int),
                        forall|h: int| 0 <= h < g ==> (#[trigger] groups@[h]).version@ != v@,
                    decreases groups.len() - g,
                {
                    g = g + 1;
                }
                if g < groups.len() {
                    let best = groups[g].best;
                    let t_new = cs[i].publish_time;
                    let t_old = cs[best].publish_time;
                    let ghost before = groups@;
                    if t_new > t_old {
                        let version = v;
                        groups.set(g, Group { version, best: i });
                    }
                    proof {
                        assert forall|h: int| 0 <= h < groups.len() implies group_ok(*d, cs@, #[trigger] groups@[h], i + 1) by {
                            let gg = groups@[h];
                            if h != g as int {
                                assert(gg == before[h]);
                                assert(group_ok(*d, cs@, before[h], i as int));
                                assert(gg.version@ != v@);
                            } else {
                                let old_g = before[h];
                                assert(group_ok(*d, cs@, old_g, i as int));
                                assert(old_g.version@ == v@);
                            }
                        }
                        assert forall|k: int| 0 <= k < i + 1 && candidate_matches(*d, #[trigger] cs@[k]) implies exists|h: int|
                            0 <= h < groups.len() && (#[trigger] groups@[h]).version@ == version_of(cs@[k]) by {
                            if k < i {
                                let h = choose|h: int| 0 <= h < before.len() && (#[trigger] before[h]).version@ == version_of(cs@[k]);
                                assert(groups@[h].version@ == before[h].version@);
                            } else {
                                assert(groups@[g as int].version@ == version_of(cs@[k]));
                            }
                        }
                    }
                } else {
                    let ghost before = groups@;
                    groups.push(Group { version: v, best: i });
                    proof {
                        assert forall|h: int| 0 <= h < groups.len() implies group_ok(*d, cs@, #[trigger] groups@[h], i + 1) by {
                            let gg = groups@[h];
                            if h < before.len() {
                                assert(gg == before[h]);
                                assert(group_ok(*d, cs@, before[h], i as int));
                                assert(gg.version@ != version_of(cs@[i as int]));
                            } else {
                                assert forall|k: int| 0 <= k < i + 1 && candidate_matches(*d, #[trigger] cs@[k])
                                    && version_of(cs@[k]) == gg.version@ implies cs@[k].publish_time <= cs@[gg.best as int].publish_time by {
                                    if k < i {
                                        let h2 = choose|h2: int| 0 <= h2 < before.len() && (#[trigger] before[h2]).version@ == version_of(cs@[k]);
                                        assert(before[h2].version@ != v@);
                                    }
                                }
                            }
                        }
                        assert forall|k: int| 0 <= k < i + 1 && candidate_matches(*d, #[trigger] cs@[k]) implies exists|h: int|
                            0 <= h < groups.len() && (#[trigger] groups@[h]).version@ == version_of(cs@[k]) by {
                            if k < i {
                                let h = choose|h: int| 0 <= h < before.len() && (#[trigger] before[h]).version@ == version_of(cs@[k]);
                                assert(groups@[h] == before[h]);
                            } else {
                                assert(groups@[before.len() as int].version@ == version_of(cs@[k]));
                            }
                        }
                    }
                }
            },
        }
        i = i + 1;
    }
    groups
}

/// Whether another matching candidate of the same version as candidate `b`
/// was published at the same time.
fn has_tie(d: &DependencyDeclaration, cs: &Vec<PkgRegistryInfo>, b: usize, vb: &SemVer) -> (r: bool)
    requires
        b < cs.len(),
        vb.wf(),
        vb@ == version_of(cs@[b as int]),
    ensures
        r == exists|j: int| 0 <= j < cs.len() && j != b && candidate_matches(*d, #[trigger] cs@[j])
            && version_of(cs@[j]) == version_of(cs@[b as int]) && cs@[j].publish_time == cs@[b as int].publish_time,
{
    let mut j: usize = 0;
    while j < cs.len()
        invariant
            j <= cs.len(),
            b < cs.len(),
            vb.wf(),
            vb@ == version_of(cs@[b as int]),
            forall|k: int| 0 <= k < j ==> !(k != b && candidate_matches(*d, #[trigger] cs@[k])
                && version_of(cs@[k]) == version_of(cs@[b as int]) && cs@[k].publish_time == cs@[b as int].publish_time),
        decreases cs.len() - j,
    {
        if j != b && cs[j].publish_time == cs[b].publish_time {
            match candidate_version(d, &cs[j]) {
                Some(vj) => {
                    if compare_versions(&vj, vb) == 0 {
                        return true;
                    }
                },
                None => {},
            }
        }
        j = j + 1;
    }
    false
}

fn find_group(groups: &Vec<Group>, v: &SemVer) -> (g: usize)
    requires
        v.wf(),
        forall|h: int| 0 <= h < groups.len() ==> (#[trigger] groups@[h]).version.wf(),
        exists|h: int| 0 <= h < groups.len() && (#[trigger] groups@[h]).version@ == v@,
    ensures
        g < groups.len(),
        groups@[g as int].version@ == v@,
{
    let mut g: usize = 0;
    while g < groups.len()
        invariant
            g <= groups.len(),
            v.wf(),
            forall|h: int| 0 <= h < groups.len() ==> (#[trigger] groups@[h]).version.wf(),
            exists|h: int| 0 <= h < groups.len() && (#[trigger] groups@[h]).version@ == v@,
            forall|h: int| 0 <= h < g ==> (#[trigger] groups@[h]).version@ != v@,
        decreases groups.len() - g,
    {
        if compare_versions(&groups[g].version, v) == 0 {
            return g;
        }
        g = g + 1;
    }
    proof {
        let h = choose|h: int| 0 <= h < groups.len() && (#[trigger] groups@[h]).version@ == v@;
        assert(groups@[h].version@ != v@);
    }
    g
}

proof fn lemma_ranked_in_groups(s: Seq<SemVer>, versions: Seq<SemVer>, groups: Seq<Group>, k: int)
    requires
        views(s).to_multiset() == views(versions).to_multiset(),
        0 <= k < s.len(),
        versions.len() == groups.len(),
        forall|h: int| 0 <= h < groups.len() ==> (#[trigger] versions[h])@ == groups[h].version@,
    ensures
        exists|h: int| 0 <= h < groups.len() && (#[trigger] groups[h]).version@ == s[k]@,
{
    assert(views(s)[k] == s[k]@);
    vstd::seq_lib::to_multiset_contains(views(s), s[k]@);
    vstd::seq_lib::to_multiset_contains(views(versions), s[k]@);
    let h = choose|h: int| 0 <= h < views(versions).len() && views(versions)[h] == s[k]@;
    assert(groups[h].version@ == s[k]@);
}

/// Whether a published entry satisfies a declaration.
pub open spec fn entry_matches(d: DependencyDeclaration, e: EntryView) -> bool {
    &&& e.0.0 == d.pkg_type
    &&& e.0.1 == d.name@
    &&& matches_spec(d.constraint.text(), e.0.2)
}

/// The first published entry that satisfies the declaration, which an
/// install that prefers the cache takes without asking the registry.
pub fn cached_match(cache: &PackageCache, d: &DependencyDeclaration) -> (r: Option<CacheEntry>)
    requires
        cache.wf(),
    ensures
        match r {
            Some(e) => entry_matches(*d, e@) && cache@.contains(e@),
            None => forall|i: int| 0 <= i < cache@.len() ==> !entry_matches(*d, #[trigger] cache@[i]),
        },
{
    let entries = cache.entries();
    let mut i: usize = 0;
    while i < entries.len()
        invariant
            i <= entries.len(),
            entries@.len() == cache@.len(),
            forall|j: int| 0 <= j < entries.len() ==> (#[trigger] entries@[j])@ == cache@[j] && entries@[j].identity.wf(),
            forall|j: int| 0 <= j < i ==> !entry_matches(*d, #[trigger] cache@[j]),
        decreases entries.len() - i,
    {
        let e = &entries[i];
        if e.identity.pkg_type == d.pkg_type && e.identity.name.eq(&d.name) && crate::version::matches(
            &d.constraint,
            &e.identity.version,
        ) {
            proof {
                assert(cache@[i as int] == e@);
            }
            return Some(e.copy());
        }
        proof {
            assert(cache@[i as int] == e@);
        }
        i = i + 1;
    }
    None
}

/// How a resolution starts.
pub enum ResolveStart {
    /// A published entry satisfies the declaration: install it, with no
    /// registry query.
    UseCached(CacheEntry),
    /// Query the registry for candidates.
    QueryRegistry,
}

/// With `prefer_cache`, a published entry that satisfies the declaration
/// settles the resolution; otherwise, or without one, the registry is
/// queried.
pub fn begin_resolve(cache: &PackageCache, d: &DependencyDeclaration, prefer_cache: bool) -> (r: ResolveStart)
    requires
        cache.wf(),
    ensures
        match r {
            ResolveStart::UseCached(e) => prefer_cache && entry_matches(*d, e@) && cache@.contains(e@),
            ResolveStart::QueryRegistry => !prefer_cache || forall|i: int|
                0 <= i < cache@.len() ==> !entry_matches(*d, #[trigger] cache@[i]),
        },
{
    if !prefer_cache {
        return ResolveStart::QueryRegistry;
    }
    match cached_match(cache, d) {
        Some(e) => ResolveStart::UseCached(e),
        None => ResolveStart::QueryRegistry,
    }
}

/// Whether some candidate satisfies the declaration.
pub open spec fn any_match(d: DependencyDeclaration, cs: Seq<PkgRegistryInfo>) -> bool {
    exists|i: int| 0 <= i < cs.len() && candidate_matches(d, #[trigger] cs[i])
}

/// Candidate `b` is the latest published of the matching candidates of
/// its version, with no other published at the same time.
pub open spec fn latest_of_version(d: DependencyDeclaration, cs: Seq<PkgRegistryInfo>, b: int) -> bool {
    forall|i: int| 0 <= i < cs.len() && i != b && candidate_matches(d, #[trigger] cs[i]) && version_of(cs[i]) == version_of(cs[b])
        ==> cs[i].publish_time < cs[b].publish_time
}

/// Two matching candidates of one version share the latest publish time
/// of that version.
pub open spec fn tie_at_top(d: DependencyDeclaration, cs: Seq<PkgRegistryInfo>) -> bool {
    exists|i: int, j: int|
        0 <= i < cs.len() && 0 <= j < cs.len() && i != j && candidate_matches(d, #[trigger] cs[i])
            && candidate_matches(d, #[trigger] cs[j]) && version_of(cs[i]) == version_of(cs[j])
            && cs[i].publish_time == cs[j].publish_time && latest_time(d, cs, i)
}

/// No matching candidate of the version of `i` was published later.
pub open spec fn latest_time(d: DependencyDeclaration, cs: Seq<PkgRegistryInfo>, i: int) -> bool {
    forall|k: int| 0 <= k < cs.len() && candidate_matches(d, #[trigger] cs[k]) && version_of(cs[k]) == version_of(cs[i])
        ==> cs[k].publish_time <= cs[i].publish_time
}

/// The candidates an install tries, best first: of each of the `cap`
/// newest matching versions the latest published candidate.
#[verifier::rlimit(100)]
pub fn plan_install(d: &DependencyDeclaration, cs: &Vec<PkgRegistryInfo>, cap: usize) -> (r: Result<
    Vec<usize>,
    ResolutionError,
>)
    requires
        cap >= 1,
    ensures
        r == Err::<Vec<usize>, ResolutionError>(ResolutionError::NoMatchingVersion) <==> !any_match(*d, cs@),
        r == Err::<Vec<usize>, ResolutionError>(ResolutionError::AmbiguousCandidate) ==> tie_at_top(*d, cs@),
        r matches Ok(p) ==> {
            &&& 1 <= p.len() <= cap
            &&& forall|k: int| 0 <= k < p.len() ==> (#[trigger] p@[k]) < cs.len() && candidate_matches(*d, cs@[p@[k] as int])
                && latest_of_version(*d, cs@, p@[k] as int)
            &&& forall|k: int| 0 <= k < p.len() - 1 ==> version_order(version_of(cs@[#[trigger] p@[k] as int]), version_of(cs@[p@[k + 1] as int])) >= 0
            &&& p.len() < cap ==> forall|i: int| 0 <= i < cs.len() && candidate_matches(*d, #[trigger] cs@[i]) ==> exists|k: int|
                0 <= k < p.len() && version_of(cs@[#[trigger] p@[k] as int]) == version_of(cs@[i])
        },
{
    let groups = group_candidates(d, cs);
    if groups.len() == 0 {
        proof {
            if any_match(*d, cs@) {
                let i = choose|i: int| 0 <= i < cs.len() && candidate_matches(*d, #[trigger] cs@[i]);
                assert(cs@[i] == cs@[i]);
            }
        }
        return Err(ResolutionError::NoMatchingVersion);
    }
    proof {
        let g0 = groups@[0];
        assert(group_ok(*d, cs@, g0, cs.len() as int));
        assert(candidate_matches(*d, cs@[g0.best as int]));
        assert(any_match(*d, cs@));
    }
    let mut versions: Vec<SemVer> = Vec::new();
    let mut g: usize = 0;
    while g < groups.len()
        invariant
            g <= groups.len(),
            versions.len() == g,
            forall|h: int| 0 <= h < groups.len() ==> group_ok(*d, cs@, #[trigger] groups@[h], cs.len() as int),
            forall|h: int| 0 <= h < g ==> (#[trigger] versions@[h])@ == groups@[h].version@ && versions@[h].wf(),
        decreases groups.len() - g,
    {
        versions.push(groups[g].version.copy());
        g = g + 1;
    }
    proof {
        assert forall|h: int| 0 <= h < versions.len() implies (#[trigger] versions@[h]).wf() by {}
        assert(all_wf(versions@));
    }
    let ranked = rank(&versions, cap);
    let ghost s = choose|s: Seq<SemVer>|
        views(s).to_multiset() == views(versions@).to_multiset() && descending(views(s)) && ranked@ == s.take(ranked.len() as int);
    proof {
        vstd::seq_lib::to_multiset_len(views(s));
        vstd::seq_lib::to_multiset_len(views(versions@));
        assert(s.len() == versions.len());
    }
    let mut plan: Vec<usize> = Vec::new();
    let mut k: usize = 0;
    while k < ranked.len()
        invariant
            k <= ranked.len(),
            plan.len() == k,
            ranked.len() <= cap,
            all_wf(ranked@),
            any_match(*d, cs@),
            views(s).to_multiset() == views(versions@).to_multiset(),
            ranked@ == s.take(ranked.len() as int),
            ranked.len() == if cap < versions.len() { cap } else { versions.len() },
            s.len() == versions.len(),
            versions.len() == groups.len(),
            forall|h: int| 0 <= h < groups.len() ==> group_ok(*d, cs@, #[trigger] groups@[h], cs.len() as int),
            forall|h: int| 0 <= h < groups.len() ==> (#[trigger] versions@[h])@ == groups@[h].version@,
            forall|j: int| 0 <= j < k ==> (#[trigger] plan@[j]) < cs.len() && candidate_matches(*d, cs@[plan@[j] as int])
                && latest_of_version(*d, cs@, plan@[j] as int) && version_of(cs@[plan@[j] as int]) == ranked@[j]@,
        decreases ranked.len() - k,
    {
        let v = &ranked[k];
        proof {
            lemma_ranked_in_groups(s, versions@, groups@, k as int);
            assert(ranked@[k as int] == s[k as int]);
        }
        let g = find_group(&groups, v);
        if has_tie(d, cs, groups[g].best, &groups[g].version) {
            proof {
                let gg = groups@[g as int];
                assert(group_ok(*d, cs@, gg, cs.len() as int));
                let w = choose|w: int| 0 <= w < cs.len() && w != gg.best && candidate_matches(*d, #[trigger] cs@[w])
                    && version_of(cs@[w]) == version_of(cs@[gg.best as int]) && cs@[w].publish_time == cs@[gg.best as int].publish_time;
                assert(candidate_matches(*d, cs@[gg.best as int]));
                assert(latest_time(*d, cs@, gg.best as int));
                assert(tie_at_top(*d, cs@));
            }
            return Err(ResolutionError::AmbiguousCandidate);
        }
        proof {
            let gg = groups@[g as int];
            assert(group_ok(*d, cs@, gg, cs.len() as int));
        }
        plan.push(groups[g].best);
        k = k + 1;
    }
    proof {
        assert(descending(views(ranked@)));
        assert forall|j: int| 0 <= j < plan.len() - 1 implies version_order(version_of(cs@[#[trigger] plan@[j] as int]), version_of(cs@[plan@[j + 1] as int])) >= 0 by {
            assert(views(ranked@)[j] == ranked@[j]@);
            assert(views(ranked@)[j + 1] == ranked@[j + 1]@);
        }
        if plan.len() < cap {
            assert(ranked@ =~= s);
            assert forall|i: int| 0 <= i < cs.len() && candidate_matches(*d, #[trigger] cs@[i]) implies exists|j: int|
                0 <= j < plan.len() && version_of(cs@[#[trigger] plan@[j] as int]) == version_of(cs@[i]) by {
                let h = choose|h: int| 0 <= h < groups.len() && (#[trigger] groups@[h]).version@ == version_of(cs@[i]);
                assert(views(versions@)[h] == version_of(cs@[i]));
                vstd::seq_lib::to_multiset_contains(views(versions@), version_of(cs@[i]));
                vstd::seq_lib::to_multiset_contains(views(s), version_of(cs@[i]));
                let j = choose|j: int| 0 <= j < views(s).len() && views(s)[j] == version_of(cs@[i]);
                assert(version_of(cs@[plan@[j] as int]) == ranked@[j]@);
            }
        }
    }
    Ok(plan)
}

/// What an install does next.
#[derive(Clone, Copy, Debug, PartialEq, Eq, Structural)]
pub enum InstallAction {
    /// Download the candidate at this position of the registry listing.
    Download(usize),
    /// The attempt budget is spent: the install fails as exhausted.
    Exhausted,
}

/// After `attempts_made` failed downloads, the next one goes to the plan's
/// candidates in turn, best first, while the budget lasts.
pub open spec fn next_download_spec(plan: Seq<usize>, max_attempts: u32, attempts_made: u32) -> InstallAction {
    if attempts_made < max_attempts {
        InstallAction::Download(plan[attempts_made as int % plan.len() as int])
    } else {
        InstallAction::Exhausted
    }
}

pub fn next_download(plan: &Vec<usize>, max_attempts: u32, attempts_made: u32) -> (r: InstallAction)
    requires
        plan.len() > 0,
    ensures
        r == next_download_spec(plan@, max_attempts, attempts_made),
{
    if attempts_made < max_attempts {
        InstallAction::Download(plan[attempts_made as usize % plan.len()])
    } else {
        InstallAction::Exhausted
    }
}

/// How many downloads an install makes from `attempts_made` on when every
/// download fails.
pub open spec fn downloads_when_all_fail(plan: Seq<usize>, max_attempts: u32, attempts_made: u32) -> nat
    decreases max_attempts - attempts_made,
{
    if attempts_made < max_attempts {
        1 + downloads_when_all_fail(plan, max_attempts, (attempts_made + 1) as u32)
    } else {
        0
    }
}

/// When every download fails, an install ends as exhausted after exactly
/// `max_attempts` downloads, each of a planned candidate.
pub proof fn lemma_all_failures_exhaust(plan: Seq<usize>, max_attempts: u32, attempts_made: u32)
    requires
        plan.len() > 0,
        attempts_made <= max_attempts,
    ensures
        downloads_when_all_fail(plan, max_attempts, attempts_made) == max_attempts - attempts_made,
        next_download_spec(plan, max_attempts, max_attempts) == InstallAction::Exhausted,
        attempts_made < max_attempts ==> (next_download_spec(plan, max_attempts, attempts_made) matches InstallAction::Download(c)
            && plan.contains(c)),
    decreases max_attempts - attempts_made,
{
    if attempts_made < max_attempts {
        lemma_all_failures_exhaust(plan, max_attempts, (attempts_made + 1) as u32);
        let k = attempts_made as int % plan.len() as int;
        assert(0 <= k < plan.len());
        assert(plan[k] == plan[k]);
    }
}

} // verus!
