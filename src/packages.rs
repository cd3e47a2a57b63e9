use vstd::prelude::*;
use vstd::string::StrSliceExecFns;

use crate::addons::{ErrorResponse, Status};
use crate::pkg_type::PkgType;
use crate::version::{parse_constraint, req_parses, VersionConstraint, VersionError};

verus! {

/// One package version as a registry reports it.
#[derive(Debug)]
pub struct PkgRegistryInfo {
    pub pkg_type: PkgType,
    pub name: String,
    pub version: String,
    pub download_url: String,
    pub hash: String,
    pub tags: Vec<String>,
    pub scope: Vec<String>,
    pub publish_time: u64,
}

pub struct GetPackagesRequestPayload {
    pub pkg_type: Option<PkgType>,
    pub name: Option<String>,
    pub version_req: Option<String>,
    pub page_size: Option<u32>,
    pub page: Option<u32>,
    pub tags: Option<Vec<String>>,
    pub scope: Option<String>,
}

#[derive(Debug)]
pub struct GetPackagesResponseData {
    pub packages: Vec<PkgRegistryInfo>,
}

/// A registry listing request whose texts have been checked and split.
pub struct PackagesQuery {
    pub pkg_type: Option<PkgType>,
    pub name: Option<String>,
    pub version_req: Option<VersionConstraint>,
    pub page_size: Option<u32>,
    pub page: Option<u32>,
    pub tags: Option<Vec<String>>,
    pub scope: Option<Vec<String>>,
}

pub open spec fn str_views(s: Seq<String>) -> Seq<Seq<char>> {
    s.map_values(|x: String| x@)
}

/// The pieces of `s` between commas, as `str::split(',')` gives them: an
/// empty text is one empty piece.
pub open spec fn split_commas(s: Seq<char>) -> Seq<Seq<char>>
    decreases s.len(),
{
    if s.len() == 0 {
        seq![Seq::empty()]
    } else {
        let r = split_commas(s.drop_last());
        if s.last() == ',' {
            r.push(Seq::empty())
        } else {
            r.update(r.len() - 1, r.last().push(s.last()))
        }
    }
}

/// Splits a comma separated list.
pub fn split_scope(s: &str) -> (r: Vec<String>)
    ensures
        str_views(r@) == split_commas(s@),
{
    let n = s.unicode_len();
    let mut pieces: Vec<String> = Vec::new();
    let mut start: usize = 0;
    let mut i: usize = 0;
    proof {
        assert(s@.take(0) =~= Seq::<char>::empty());
        assert(str_views(pieces@).push(s@.subrange(0, 0)) =~= split_commas(s@.take(0)));
    }
    while i < n
        invariant
            n == s@.len(),
            start <= i <= n,
            split_commas(s@.take(i as int)) == str_views(pieces@).push(s@.subrange(start as int, i as int)),
        decreases n - i,
    {
        let c = s.get_char(i);
        let ghost before = pieces@;
        proof {
            assert(s@.take(i + 1).drop_last() =~= s@.take(i as int));
            assert(s@.take(i + 1).last() == c);
        }
        if c == ',' {
            let piece = String::from_str(s.substring_char(start, i));
            pieces.push(piece);
            proof {
                assert(str_views(pieces@) =~= str_views(before).push(s@.subrange(start as int, i as int)));
                assert(s@.subrange(i + 1, i + 1) =~= Seq::<char>::empty());
            }
            start = i + 1;
        } else {
            proof {
                assert(s@.subrange(start as int, i + 1) =~= s@.subrange(start as int, i as int).push(c));
                assert(str_views(pieces@).push(s@.subrange(start as int, i + 1)) =~= str_views(
                    pieces@,
                ).push(s@.subrange(start as int, i as int)).update(
                    str_views(pieces@).len() as int,
                    s@.subrange(start as int, i as int).push(c),
                ));
            }
        }
        i = i + 1;
    }
    let last = String::from_str(s.substring_char(start, n));
    let ghost before = pieces@;
    pieces.push(last);
    proof {
        assert(s@.take(n as int) =~= s@);
        assert(str_views(pieces@) =~= str_views(before).push(s@.subrange(start as int, n as int)));
    }
    pieces
}

/// Checks and splits the texts of a listing request: a version requirement
/// that semver refuses is a bad request naming the refused text; the scope
/// is split at commas.
pub fn prepare_packages_query(request: GetPackagesRequestPayload) -> (r: Result<PackagesQuery, ErrorResponse>)
    ensures
        match r {
            Ok(q) => {
                &&& q.pkg_type == request.pkg_type
                &&& q.name == request.name
                &&& q.page_size == request.page_size
                &&& q.page == request.page
                &&& q.tags == request.tags
                &&& (request.version_req matches Some(t) ==> req_parses(t@) && (q.version_req matches Some(c) && c.text() == t@))
                &&& (request.version_req is None ==> q.version_req is None)
                &&& (request.scope matches Some(t) ==> (q.scope matches Some(v) && str_views(v@) == split_commas(t@)))
                &&& (request.scope is None ==> q.scope is None)
            },
            Err(e) => (request.version_req matches Some(t) && !req_parses(t@)
                && e.message@ == "Invalid version requirement: "@ + t@) && e.status == Status::Fail
                && e.error is None,
        },
{
    let version_req = match &request.version_req {
        None => None,
        Some(text) => match parse_constraint(text.as_str()) {
            Ok(c) => Some(c),
            Err(VersionError::ParseError(bad)) => {
                let message = String::from_str("Invalid version requirement: ").concat(bad.as_str());
                proof {
                    reveal_strlit("Invalid version requirement: ");
                }
                return Err(ErrorResponse { status: Status::Fail, message, error: None });
            },
        },
    };
    let scope = match &request.scope {
        None => None,
        Some(text) => Some(split_scope(text.as_str())),
    };
    Ok(
        PackagesQuery {
            pkg_type: request.pkg_type,
            name: request.name,
            version_req,
            page_size: request.page_size,
            page: request.page,
            tags: request.tags,
            scope,
        },
    )
}

/// The answer to a listing request from the registry's outcome: the
/// packages, or a failure carrying the registry's error text.
pub fn packages_response(outcome: Result<Vec<PkgRegistryInfo>, String>) -> (r: Result<
    GetPackagesResponseData,
    ErrorResponse,
>)
    ensures
        match (outcome, r) {
            (Ok(p), Ok(d)) => d.packages == p,
            (Err(t), Err(e)) => e.status == Status::Fail && e.error is None
                && e.message@ == "Failed to get packages: "@ + t@,
            _ => false,
        },
{
    match outcome {
        Ok(packages) => Ok(GetPackagesResponseData { packages }),
        Err(text) => {
            let message = String::from_str("Failed to get packages: ").concat(text.as_str());
            Err(ErrorResponse { status: Status::Fail, message, error: None })
        },
    }
}

} // verus!
