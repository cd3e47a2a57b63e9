use vstd::prelude::*;

use crate::pkg_type::PkgType;

verus! {

/// Outcome tag of a response.
#[derive(Clone, Copy, Debug, PartialEq, Eq, Structural)]
pub enum Status {
    Success,
    Fail,
}

/// The body of a failed request.
#[derive(Debug)]
pub struct ErrorResponse {
    pub status: Status,
    pub message: String,
    pub error: Option<String>,
}

impl ErrorResponse {
    /// A failure whose message is `message`, with the cause's text as detail.
    pub fn from_error(cause: &str, message: &str) -> (r: ErrorResponse)
        ensures
            r.status == Status::Fail,
            r.message@ == message@,
            r.error is Some,
            r.error->0@ == cause@,
    {
        ErrorResponse { status: Status::Fail, message: message.to_string(), error: Some(cause.to_string()) }
    }
}

/// The flattened interface of an addon as the designer shows it: each
/// section is the section's rendered schema, when the addon declares it.
#[derive(Debug)]
pub struct DesignerApi {
    pub property: Option<String>,
    pub cmd_in: Option<String>,
    pub cmd_out: Option<String>,
    pub data_in: Option<String>,
    pub data_out: Option<String>,
    pub audio_frame_in: Option<String>,
    pub audio_frame_out: Option<String>,
    pub video_frame_in: Option<String>,
    pub video_frame_out: Option<String>,
}

/// An installed package as the addon listing reads it.
#[derive(Debug)]
pub struct AddonPkg {
    pub pkg_type: PkgType,
    pub name: String,
    pub url: String,
}

pub type AddonPkgView = (PkgType, Seq<char>, Seq<char>);

impl View for AddonPkg {
    type V = AddonPkgView;

    open spec fn view(&self) -> AddonPkgView {
        (self.pkg_type, self.name@, self.url@)
    }
}

impl AddonPkg {
    pub fn copy(&self) -> (r: AddonPkg)
        ensures
            r@ == self@,
    {
        AddonPkg { pkg_type: self.pkg_type, name: self.name.clone(), url: self.url.clone() }
    }
}

/// The installed packages of one app, grouped by kind.
pub struct AppPkgs {
    pub extension_pkgs_info: Option<Vec<AddonPkg>>,
    pub protocol_pkgs_info: Option<Vec<AddonPkg>>,
    pub addon_loader_pkgs_info: Option<Vec<AddonPkg>>,
    pub system_pkgs_info: Option<Vec<AddonPkg>>,
}

/// The installed packages of one app directory.
pub struct AppEntry {
    pub base_dir: String,
    pub pkgs: AppPkgs,
}

/// The installed packages of every app directory known to the designer.
pub struct PkgsCache {
    pub apps: Vec<AppEntry>,
}

pub struct GetAppAddonsRequestPayload {
    pub base_dir: String,
    pub addon_type: Option<PkgType>,
    pub addon_name: Option<String>,
}

#[derive(Debug)]
pub struct GetAppAddonsSingleResponseData {
    pub addon_type: PkgType,
    pub addon_name: String,
    pub url: String,
    pub api: Option<DesignerApi>,
}

pub open spec fn pkg_views(s: Seq<AddonPkg>) -> Seq<AddonPkgView> {
    s.map_values(|p: AddonPkg| p@)
}

/// Whether packages of kind `t` are listed under the kind filter.
pub open spec fn type_selected_spec(filter: Option<PkgType>, t: PkgType) -> bool {
    filter is None || filter == Some(t)
}

pub fn type_selected(filter: Option<PkgType>, t: PkgType) -> (r: bool)
    ensures
        r == type_selected_spec(filter, t),
{
    match filter {
        None => true,
        Some(f) => f == t,
    }
}

/// The packages of one group that the listing takes.
pub open spec fn group_part(group: Option<Vec<AddonPkg>>, filter: Option<PkgType>, t: PkgType) -> Seq<
    AddonPkgView,
> {
    if type_selected_spec(filter, t) && group is Some {
        pkg_views(group->0@)
    } else {
        Seq::empty()
    }
}

/// Extensions, then protocols, then addon loaders, then system packages,
/// each group only where the kind filter lets it through.
pub open spec fn selected_pkgs(app: AppPkgs, filter: Option<PkgType>) -> Seq<AddonPkgView> {
    group_part(app.extension_pkgs_info, filter, PkgType::Extension)
        + group_part(app.protocol_pkgs_info, filter, PkgType::Protocol)
        + group_part(app.addon_loader_pkgs_info, filter, PkgType::AddonLoader)
        + group_part(app.system_pkgs_info, filter, PkgType::System)
}

fn append_group(out: &mut Vec<AddonPkg>, group: &Option<Vec<AddonPkg>>, filter: Option<PkgType>, t: PkgType)
    ensures
        pkg_views(final(out)@) == pkg_views(old(out)@) + group_part(*group, filter, t),
{
    if !type_selected(filter, t) {
        return;
    }
    match group {
        None => {},
        Some(pkgs) => {
            let ghost start = out@;
            let mut i: usize = 0;
            while i < pkgs.len()
                invariant
                    i <= pkgs.len(),
                    pkg_views(out@) == pkg_views(start) + pkg_views(pkgs@.take(i as int)),
                decreases pkgs.len() - i,
            {
                let p = pkgs[i].copy();
                let ghost before = out@;
                out.push(p);
                proof {
                    assert(pkg_views(out@) =~= pkg_views(before).push(p@));
                    assert(pkg_views(pkgs@.take(i + 1)) =~= pkg_views(pkgs@.take(i as int)).push(p@));
                    assert(pkg_views(out@) =~= pkg_views(start) + pkg_views(pkgs@.take(i + 1)));
                }
                i = i + 1;
            }
            proof {
                assert(pkgs@.take(pkgs.len() as int) =~= pkgs@);
            }
        },
    }
    proof {
        assert(pkg_views(final(out)@) =~= pkg_views(old(out)@) + group_part(*group, filter, t));
    }
}

/// The packages of an app that a listing with the given kind filter shows,
/// in listing order.
pub fn select_addon_pkgs(app: &AppPkgs, filter: Option<PkgType>) -> (r: Vec<AddonPkg>)
    ensures
        pkg_views(r@) == selected_pkgs(*app, filter),
{
    let mut out: Vec<AddonPkg> = Vec::new();
    proof {
        assert(pkg_views(out@) =~= Seq::empty());
    }
    append_group(&mut out, &app.extension_pkgs_info, filter, PkgType::Extension);
    append_group(&mut out, &app.protocol_pkgs_info, filter, PkgType::Protocol);
    append_group(&mut out, &app.addon_loader_pkgs_info, filter, PkgType::AddonLoader);
    append_group(&mut out, &app.system_pkgs_info, filter, PkgType::System);
    proof {
        assert(pkg_views(out@) =~= selected_pkgs(*app, filter));
    }
    out
}

impl PkgsCache {
    /// The position of the first app whose directory is `base_dir`.
    pub fn find_app(&self, base_dir: &String) -> (r: Option<usize>)
        ensures
            match r {
                Some(i) => i < self.apps.len() && self.apps@[i as int].base_dir@ == base_dir@
                    && forall|j: int| 0 <= j < i ==> (#[trigger] self.apps@[j]).base_dir@ != base_dir@,
                None => forall|j: int| 0 <= j < self.apps.len() ==> (#[trigger] self.apps@[j]).base_dir@ != base_dir@,
            },
    {
        let mut i: usize = 0;
        while i < self.apps.len()
            invariant
                i <= self.apps.len(),
                forall|j: int| 0 <= j < i ==> (#[trigger] self.apps@[j]).base_dir@ != base_dir@,
            decreases self.apps.len() - i,
        {
            if self.apps[i].base_dir.eq(base_dir) {
                return Some(i);
            }
            i = i + 1;
        }
        None
    }
}

/// Whether some app of the cache lives in `base_dir`.
pub open spec fn has_app(cache: PkgsCache, base_dir: Seq<char>) -> bool {
    exists|j: int| 0 <= j < cache.apps.len() && (#[trigger] cache.apps@[j]).base_dir@ == base_dir
}

/// The packages that a request lists before the name filter, or the
/// not-found failure when the directory is empty or unknown.
pub fn get_app_addon_pkgs(cache: &PkgsCache, request: &GetAppAddonsRequestPayload) -> (r: Result<
    Vec<AddonPkg>,
    ErrorResponse,
>)
    ensures
        match r {
            Ok(pkgs) => request.base_dir@.len() > 0 && exists|i: int|
                0 <= i < cache.apps.len() && (#[trigger] cache.apps@[i]).base_dir@ == request.base_dir@
                    && pkg_views(pkgs@) == selected_pkgs(cache.apps@[i].pkgs, request.addon_type),
            Err(e) => (request.base_dir@.len() == 0 || !has_app(*cache, request.base_dir@))
                && e.status == Status::Fail && e.error is None
                && e.message@ == "Base directory not found or not specified"@,
        },
        request.base_dir@.len() > 0 && has_app(*cache, request.base_dir@) ==> r is Ok,
{
    let found = if request.base_dir.as_str().is_empty() {
        None
    } else {
        cache.find_app(&request.base_dir)
    };
    match found {
        Some(i) => Ok(select_addon_pkgs(&cache.apps[i].pkgs, request.addon_type)),
        None => {
            proof {
                if request.base_dir@.len() > 0 && has_app(*cache, request.base_dir@) {
                    let j = choose|j: int| 0 <= j < cache.apps.len() && (#[trigger] cache.apps@[j]).base_dir@ == request.base_dir@;
                    assert(cache.apps@[j].base_dir@ != request.base_dir@);
                }
            }
            Err(
                ErrorResponse {
                    status: Status::Fail,
                    message: "Base directory not found or not specified".to_string(),
                    error: None,
                },
            )
        },
    }
}

/// Turns an installed package and the outcome of flattening its manifest
/// interface into the entry the listing returns.
pub fn convert_pkg_info_to_addon(pkg: &AddonPkg, flattened: Result<Option<DesignerApi>, String>) -> (r:
    Result<GetAppAddonsSingleResponseData, ErrorResponse>)
    ensures
        match (flattened, r) {
            (Ok(api), Ok(d)) => d.addon_type == pkg.pkg_type && d.addon_name@ == pkg.name@
                && d.url@ == pkg.url@ && d.api == api,
            (Err(cause), Err(e)) => e.status == Status::Fail
                && e.message@ == "Failed to flatten API for extension"@
                && (e.error matches Some(t) && t@ == cause@),
            _ => false,
        },
{
    match flattened {
        Ok(api) => Ok(
            GetAppAddonsSingleResponseData {
                addon_type: pkg.pkg_type,
                addon_name: pkg.name.clone(),
                url: pkg.url.clone(),
                api,
            },
        ),
        Err(cause) => Err(ErrorResponse::from_error(cause.as_str(), "Failed to flatten API for extension")),
    }
}

/// Whether an entry passes the optional name filter.
pub open spec fn name_selected(name: Option<String>, d: GetAppAddonsSingleResponseData) -> bool {
    name is None || d.addon_name@ == name->0@
}

/// The entries of `s` that pass the name filter, in order.
pub open spec fn keep_named(s: Seq<GetAppAddonsSingleResponseData>, name: Option<String>) -> Seq<
    GetAppAddonsSingleResponseData,
>
    decreases s.len(),
{
    if s.len() == 0 {
        Seq::empty()
    } else {
        let rest = keep_named(s.drop_last(), name);
        if name_selected(name, s.last()) {
            rest.push(s.last())
        } else {
            rest
        }
    }
}

/// The entries of converted results, while all of them converted.
pub open spec fn all_converted(s: Seq<Result<GetAppAddonsSingleResponseData, ErrorResponse>>) -> bool {
    forall|i: int| 0 <= i < s.len() ==> (#[trigger] s[i]) is Ok
}

pub open spec fn converted_entries(s: Seq<Result<GetAppAddonsSingleResponseData, ErrorResponse>>) -> Seq<
    GetAppAddonsSingleResponseData,
> {
    s.map_values(|x: Result<GetAppAddonsSingleResponseData, ErrorResponse>| x->Ok_0)
}

/// Assembles the listing from the per-package conversions, in order: the
/// first failed conversion is the answer; otherwise the entries that pass
/// the name filter.
pub fn collect_addons(
    converted: Vec<Result<GetAppAddonsSingleResponseData, ErrorResponse>>,
    name: &Option<String>,
) -> (r: Result<Vec<GetAppAddonsSingleResponseData>, ErrorResponse>)
    ensures
        match r {
            Ok(v) => all_converted(converted@) && v@ == keep_named(converted_entries(converted@), *name),
            Err(e) => exists|i: int|
                0 <= i < converted@.len() && converted@[i] == Err::<GetAppAddonsSingleResponseData, ErrorResponse>(e)
                    && all_converted(converted@.take(i)),
        },
{
    let ghost all = converted@;
    let n: usize = converted.len();
    let mut rest = converted;
    let mut out: Vec<GetAppAddonsSingleResponseData> = Vec::new();
    let mut i: usize = 0;
    proof {
        assert(all.take(0) =~= Seq::<Result<GetAppAddonsSingleResponseData, ErrorResponse>>::empty());
        assert(converted_entries(all.take(0)) =~= Seq::empty());
    }
    while rest.len() > 0
        invariant
            i <= all.len(),
            rest@ == all.subrange(i as int, all.len() as int),
            rest.len() == all.len() - i,
            all.len() == n,
            all == converted@,
            all_converted(all.take(i as int)),
            out@ == keep_named(converted_entries(all.take(i as int)), *name),
        decreases rest.len(),
    {
        proof {
            assert(i < all.len());
        }
        let item = rest.remove(0);
        proof {
            assert(item == all[i as int]);
        }
        match item {
            Err(e) => {
                proof {
                    assert(all[i as int] == Err::<GetAppAddonsSingleResponseData, ErrorResponse>(e));
                }
                return Err(e);
            },
            Ok(d) => {
                proof {
                    let pre = converted_entries(all.take(i as int));
                    assert(converted_entries(all.take(i + 1)) =~= pre.push(d));
                    assert(pre.push(d).drop_last() =~= pre);
                }
                let keep = match name {
                    None => true,
                    Some(n) => d.addon_name.eq(n),
                };
                if keep {
                    out.push(d);
                }
                i = i + 1;
                proof {
                    assert(rest@ =~= all.subrange(i as int, all.len() as int));
                    assert forall|j: int| 0 <= j < i implies (#[trigger] all.take(i as int)[j]) is Ok by {
                        if j < i - 1 {
                            assert(all.take(i as int)[j] == all.take(i - 1)[j]);
                        }
                    }
                }
            },
        }
    }
    proof {
        assert(all.take(i as int) =~= all);
    }
    Ok(out)
}

} // verus!
