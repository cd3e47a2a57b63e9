use vstd::prelude::*;

verus! {

/// The precedence-relevant parts of a semantic version:
/// (major, minor, patch, pre-release text).
pub type VersionView = (u64, u64, u64, Seq<char>);

/// What `semver::Version::parse` yields on a text, seen through its
/// major, minor, patch and pre-release parts; `None` where it fails.
pub uninterp spec fn parsed_version(text: Seq<char>) -> Option<VersionView>;

/// Whether `semver::Prerelease::new` accepts a text.
pub uninterp spec fn is_prerelease(text: Seq<char>) -> bool;

/// The order `semver::Prerelease::cmp` gives two pre-release texts,
/// as -1, 0 or 1.
pub uninterp spec fn prerelease_order(a: Seq<char>, b: Seq<char>) -> int;

/// Whether `semver::VersionReq::parse` accepts a text.
pub uninterp spec fn req_parses(text: Seq<char>) -> bool;

/// What `semver::VersionReq::matches` answers for the requirement parsed
/// from `req` and the version with the given parts.
pub uninterp spec fn req_matches(req: Seq<char>, version: VersionView) -> bool;

#[verifier::external_type_specification]
#[verifier::external_body]
pub struct ExVersionReq(semver::VersionReq);

/// A parsed semantic version. Build metadata takes no part in precedence
/// and is not kept.
pub struct SemVer {
    pub major: u64,
    pub minor: u64,
    pub patch: u64,
    pub pre: String,
}

impl View for SemVer {
    type V = VersionView;

    open spec fn view(&self) -> VersionView {
        (self.major, self.minor, self.patch, self.pre@)
    }
}

impl SemVer {
    /// The pre-release part is one that semver accepts.
    pub open spec fn wf(&self) -> bool {
        is_prerelease(self.pre@)
    }

    pub fn copy(&self) -> (r: SemVer)
        ensures
            r@ == self@,
    {
        SemVer { major: self.major, minor: self.minor, patch: self.patch, pre: self.pre.clone() }
    }
}

/// A parsed version requirement, together with the text it came from.
pub struct VersionConstraint {
    text: String,
    req: semver::VersionReq,
}

impl VersionConstraint {
    pub closed spec fn text(&self) -> Seq<char> {
        self.text@
    }

    pub fn as_text(&self) -> (r: &String)
        ensures
            r@ == self.text(),
    {
        &self.text
    }
}

/// Why a version or requirement text was refused; carries the text.
#[derive(Debug)]
pub enum VersionError {
    ParseError(String),
}

/// Relies on `semver::Version::parse`; the parsed pre-release part is
/// accepted again by `semver::Prerelease::new`, as both use the same
/// identifier grammar.
#[verifier::external_body]
fn semver_parse(text: &str) -> (r: Option<SemVer>)
    ensures
        r is Some <==> parsed_version(text@) is Some,
        r is Some ==> r->0@ == parsed_version(text@)->0 && is_prerelease(r->0.pre@),
{
    match semver::Version::parse(text) {
        Ok(v) => Some(SemVer { major: v.major, minor: v.minor, patch: v.patch, pre: v.pre.as_str().to_string() }),
        Err(_) => None,
    }
}

/// Relies on `semver::Prerelease::cmp`, a total order in which a release
/// (empty pre-release) ranks above any pre-release and only equal texts
/// compare equal.
#[verifier::external_body]
fn semver_prerelease_cmp(a: &str, b: &str) -> (r: i8)
    requires
        is_prerelease(a@),
        is_prerelease(b@),
    ensures
        r as int == prerelease_order(a@, b@),
        -1 <= r <= 1,
        r == 0 <==> a@ == b@,
        r as int == -prerelease_order(b@, a@),
        a@.len() == 0 && b@.len() > 0 ==> r == 1,
        a@.len() > 0 && b@.len() == 0 ==> r == -1,
{
    let x = semver::Prerelease::new(a).unwrap();
    let y = semver::Prerelease::new(b).unwrap();
    match x.cmp(&y) {
        std::cmp::Ordering::Less => -1,
        std::cmp::Ordering::Equal => 0,
        std::cmp::Ordering::Greater => 1,
    }
}

/// Relies on `semver::VersionReq::parse`.
#[verifier::external_body]
fn semver_req_parse(text: &str) -> (r: Option<semver::VersionReq>)
    ensures
        r is Some <==> req_parses(text@),
{
    semver::VersionReq::parse(text).ok()
}

/// Relies on `semver::VersionReq::matches`, applied to the requirement a
/// constraint holds and to the version with the given parts.
#[verifier::external_body]
fn semver_req_matches(c: &VersionConstraint, v: &SemVer) -> (r: bool)
    requires
        v.wf(),
    ensures
        r == req_matches(c.text(), v@),
{
    let version = semver::Version {
        major: v.major,
        minor: v.minor,
        patch: v.patch,
        pre: semver::Prerelease::new(&v.pre).unwrap(),
        build: semver::BuildMetadata::EMPTY,
    };
    c.req.matches(&version)
}

/// Parses a version text; a refused text is handed back in the error.
pub fn parse_version(text: &str) -> (r: Result<SemVer, VersionError>)
    ensures
        match r {
            Ok(v) => parsed_version(text@) == Some(v@) && v.wf(),
            Err(VersionError::ParseError(s)) => parsed_version(text@) is None && s@ == text@,
        },
{
    match semver_parse(text) {
        Some(v) => Ok(v),
        None => Err(VersionError::ParseError(text.to_string())),
    }
}

/// Parses a version requirement text; a refused text is handed back in
/// the error.
pub fn parse_constraint(text: &str) -> (r: Result<VersionConstraint, VersionError>)
    ensures
        match r {
            Ok(c) => req_parses(text@) && c.text() == text@,
            Err(VersionError::ParseError(s)) => !req_parses(text@) && s@ == text@,
        },
{
    match semver_req_parse(text) {
        Some(req) => Ok(VersionConstraint { text: text.to_string(), req }),
        None => Err(VersionError::ParseError(text.to_string())),
    }
}

/// Whether a version satisfies a constraint.
pub open spec fn matches_spec(c: Seq<char>, v: VersionView) -> bool {
    req_matches(c, v)
}

pub fn matches(c: &VersionConstraint, v: &SemVer) -> (r: bool)
    requires
        v.wf(),
    ensures
        r == matches_spec(c.text(), v@),
{
    semver_req_matches(c, v)
}

/// Precedence of two versions as -1, 0 or 1: major, then minor, then
/// patch, then pre-release.
pub open spec fn version_order(a: VersionView, b: VersionView) -> int {
    if a.0 != b.0 {
        if a.0 < b.0 { -1 } else { 1 }
    } else if a.1 != b.1 {
        if a.1 < b.1 { -1 } else { 1 }
    } else if a.2 != b.2 {
        if a.2 < b.2 { -1 } else { 1 }
    } else {
        prerelease_order(a.3, b.3)
    }
}

pub fn compare_versions(a: &SemVer, b: &SemVer) -> (r: i8)
    requires
        a.wf(),
        b.wf(),
    ensures
        r as int == version_order(a@, b@),
        -1 <= r <= 1,
        r == 0 <==> a@ == b@,
        r as int == -version_order(b@, a@),
{
    if a.major != b.major {
        if a.major < b.major { -1 } else { 1 }
    } else if a.minor != b.minor {
        if a.minor < b.minor { -1 } else { 1 }
    } else if a.patch != b.patch {
        if a.patch < b.patch { -1 } else { 1 }
    } else {
        semver_prerelease_cmp(a.pre.as_str(), b.pre.as_str())
    }
}


/// The views of a sequence of versions.
pub open spec fn views(s: Seq<SemVer>) -> Seq<VersionView> {
    s.map_values(|v: SemVer| v@)
}

/// Each version ranks at or above the next one.
pub open spec fn descending(s: Seq<VersionView>) -> bool {
    forall|i: int| 0 <= i < s.len() - 1 ==> version_order(#[trigger] s[i], s[i + 1]) >= 0
}

/// All versions are valid.
pub open spec fn all_wf(s: Seq<SemVer>) -> bool {
    forall|i: int| 0 <= i < s.len() ==> (#[trigger] s[i]).wf()
}

/// Arranges versions from the highest to the lowest precedence.
pub fn sort_descending(vs: &Vec<SemVer>) -> (r: Vec<SemVer>)
    requires
        all_wf(vs@),
    ensures
        all_wf(r@),
        views(r@).to_multiset() == views(vs@).to_multiset(),
        descending(views(r@)),
        r.len() == vs.len(),
{
    let mut sorted: Vec<SemVer> = Vec::new();
    let mut i: usize = 0;
    proof {
        assert(views(sorted@) =~= views(vs@.take(0)));
    }
    while i < vs.len()
        invariant
            i <= vs.len(),
            all_wf(vs@),
            all_wf(sorted@),
            views(sorted@).to_multiset() == views(vs@.take(i as int)).to_multiset(),
            descending(views(sorted@)),
            sorted.len() == i,
        decreases vs.len() - i,
    {
        let x = vs[i].copy();
        let mut p: usize = 0;
        while p < sorted.len() && compare_versions(&x, &sorted[p]) <= 0
            invariant
                p <= sorted.len(),
                x.wf(),
                all_wf(sorted@),
                forall|k: int| 0 <= k < p ==> version_order(views(sorted@)[k], x@) >= 0,
            decreases sorted.len() - p,
        {
            proof {
                let c = version_order(x@, sorted@[p as int]@);
                assert(version_order(sorted@[p as int]@, x@) == -c);
            }
            p = p + 1;
        }
        let ghost old_sorted = sorted@;
        proof {
            if p < sorted.len() {
                assert(version_order(x@, sorted@[p as int]@) > 0);
            }
        }
        sorted.insert(p, x);
        proof {
            assert(views(sorted@) =~= views(old_sorted).insert(p as int, x@));
            assert(views(vs@.take(i + 1)) =~= views(vs@.take(i as int)).push(vs@[i as int]@));
            vstd::seq_lib::to_multiset_build(views(vs@.take(i as int)), x@);
            vstd::seq_lib::to_multiset_insert(views(old_sorted), p as int, x@);
            assert forall|k: int| 0 <= k < sorted@.len() - 1 implies version_order(
                #[trigger] views(sorted@)[k],
                views(sorted@)[k + 1],
            ) >= 0 by {
                if k < p as int - 1 {
                    assert(views(old_sorted)[k] == views(sorted@)[k]);
                } else if k == p as int - 1 {
                } else if k == p as int {
                    assert(version_order(x@, old_sorted[p as int]@) == -version_order(old_sorted[p as int]@, x@));
                } else {
                    assert(views(sorted@)[k] == views(old_sorted)[k - 1]);
                    assert(views(sorted@)[k + 1] == views(old_sorted)[k]);
                }
            }
        }
        i = i + 1;
    }
    proof {
        assert(vs@.take(vs.len() as int) =~= vs@);
    }
    sorted
}

/// The top `cap` versions, from the highest precedence down.
pub fn rank(vs: &Vec<SemVer>, cap: usize) -> (r: Vec<SemVer>)
    requires
        all_wf(vs@),
    ensures
        r.len() == if cap < vs.len() { cap } else { vs.len() },
        all_wf(r@),
        descending(views(r@)),
        exists|s: Seq<SemVer>|
            views(s).to_multiset() == views(vs@).to_multiset() && descending(views(s))
                && r@ == s.take(r.len() as int),
{
    let mut sorted = sort_descending(vs);
    let ghost full = sorted@;
    if cap < sorted.len() {
        sorted.truncate(cap);
    }
    proof {
        assert(sorted@ =~= full.take(sorted.len() as int));
        assert forall|k: int| 0 <= k < views(sorted@).len() - 1 implies version_order(
            #[trigger] views(sorted@)[k],
            views(sorted@)[k + 1],
        ) >= 0 by {
            assert(views(sorted@)[k] == views(full)[k]);
            assert(views(sorted@)[k + 1] == views(full)[k + 1]);
        }
    }
    sorted
}

/// Precedence follows major, then minor, then patch, and only where all
/// three agree the pre-release part.
pub proof fn lemma_precedence_by_parts(a: VersionView, b: VersionView)
    ensures
        a.0 < b.0 ==> version_order(a, b) == -1,
        a.0 == b.0 && a.1 < b.1 ==> version_order(a, b) == -1,
        a.0 == b.0 && a.1 == b.1 && a.2 < b.2 ==> version_order(a, b) == -1,
        a.0 > b.0 ==> version_order(a, b) == 1,
        a.0 == b.0 && a.1 > b.1 ==> version_order(a, b) == 1,
        a.0 == b.0 && a.1 == b.1 && a.2 > b.2 ==> version_order(a, b) == 1,
        a.0 == b.0 && a.1 == b.1 && a.2 == b.2 ==> version_order(a, b) == prerelease_order(a.3, b.3),
{
}

/// Matching depends on the constraint text and the version alone: equal
/// inputs give equal answers.
pub proof fn lemma_matches_deterministic(c1: Seq<char>, c2: Seq<char>, v1: VersionView, v2: VersionView)
    requires
        c1 == c2,
        v1 == v2,
    ensures
        matches_spec(c1, v1) == matches_spec(c2, v2),
{
}

} // verus!
