use ten_manager::addons::{
    collect_addons, convert_pkg_info_to_addon, get_app_addon_pkgs, select_addon_pkgs, AddonPkg,
    AppEntry, AppPkgs, GetAppAddonsRequestPayload, GetAppAddonsSingleResponseData, PkgsCache,
    Status,
};
use ten_manager::cache::{CacheError, PackageCache, StreamOutcome};
use ten_manager::identity::PackageIdentity;
use ten_manager::packages::{
    packages_response, prepare_packages_query, split_scope, GetPackagesRequestPayload,
    PkgRegistryInfo,
};
use ten_manager::pkg_type::PkgType;
use ten_manager::recorder::{InstalledPath, InstalledPathsRecord, RecorderError};
use ten_manager::resolver::{
    begin_resolve, cached_match, next_download, plan_install, ResolveStart, DependencyDeclaration, InstallAction,
    ResolutionError, DEFAULT_MAX_LATEST_VERSIONS_WHEN_INSTALL,
    DEFAULT_MAX_RETRY_ATTEMPTS_WHEN_INSTALL,
};
use ten_manager::retry::{
    next_page, transport_step, RetryPolicy, TransportDecision, TransportOutcome,
    DEFAULT_REGISTRY_PAGE_SIZE, MAX_REGISTRY_PAGES,
};
use ten_manager::version::{
    compare_versions, parse_constraint, parse_version, rank, SemVer, VersionError,
};

fn v(text: &str) -> SemVer {
    parse_version(text).unwrap()
}

fn text_of(s: &SemVer) -> String {
    if s.pre.is_empty() {
        format!("{}.{}.{}", s.major, s.minor, s.patch)
    } else {
        format!("{}.{}.{}-{}", s.major, s.minor, s.patch, s.pre)
    }
}

fn candidate(name: &str, version: &str, time: u64) -> PkgRegistryInfo {
    PkgRegistryInfo {
        pkg_type: PkgType::Extension,
        name: name.to_string(),
        version: version.to_string(),
        download_url: format!("https://registry.example/{name}/{version}"),
        hash: String::new(),
        tags: vec![],
        scope: vec![],
        publish_time: time,
    }
}

fn declaration(name: &str, req: &str) -> DependencyDeclaration {
    DependencyDeclaration {
        pkg_type: PkgType::Extension,
        name: name.to_string(),
        constraint: parse_constraint(req).unwrap(),
    }
}

fn identity(name: &str, version: &str) -> PackageIdentity {
    PackageIdentity { pkg_type: PkgType::Extension, name: name.to_string(), version: v(version) }
}

#[test]
fn parse_version_reads_parts() {
    let x = v("1.2.3-beta.2+build.5");
    assert_eq!((x.major, x.minor, x.patch), (1, 2, 3));
    assert_eq!(x.pre, "beta.2");
}

#[test]
fn parse_errors_name_the_text() {
    match parse_version("1.0") {
        Err(VersionError::ParseError(s)) => assert_eq!(s, "1.0"),
        Ok(_) => panic!("accepted a two-part version"),
    }
    match parse_constraint(">=a.b") {
        Err(VersionError::ParseError(s)) => assert_eq!(s, ">=a.b"),
        Ok(_) => panic!("accepted a malformed requirement"),
    }
}

#[test]
fn precedence_follows_parts_then_prerelease() {
    assert_eq!(compare_versions(&v("1.0.0"), &v("2.0.0")), -1);
    assert_eq!(compare_versions(&v("1.3.0"), &v("1.2.9")), 1);
    assert_eq!(compare_versions(&v("1.2.3"), &v("1.2.4")), -1);
    assert_eq!(compare_versions(&v("1.0.0-alpha"), &v("1.0.0")), -1);
    assert_eq!(compare_versions(&v("1.0.0-alpha.2"), &v("1.0.0-alpha.10")), -1);
    assert_eq!(compare_versions(&v("1.0.0-rc.1"), &v("1.0.0-beta.9")), 1);
    assert_eq!(compare_versions(&v("3.1.4"), &v("3.1.4")), 0);
}

#[test]
fn rank_takes_newest_first() {
    let vs = vec![v("1.0.0"), v("2.0.0"), v("0.5.0"), v("1.2.0"), v("2.0.0-rc.1")];
    let r = rank(&vs, 3);
    let texts: Vec<String> = r.iter().map(text_of).collect();
    assert_eq!(texts, vec!["2.0.0", "2.0.0-rc.1", "1.2.0"]);
    assert_eq!(rank(&vs, 10).len(), 5);
    assert_eq!(rank(&vec![], 3).len(), 0);
}

#[test]
fn matching_is_repeatable() {
    let c = parse_constraint("^1.0.0").unwrap();
    assert!(ten_manager::version::matches(&c, &v("1.2.0")));
    assert!(!ten_manager::version::matches(&c, &v("2.0.0")));
    for _ in 0..3 {
        assert!(ten_manager::version::matches(&c, &v("1.0.0")));
    }
    assert!(!ten_manager::version::matches(&c, &v("1.5.0-alpha")));
}

#[test]
fn put_publishes_then_has() {
    let mut cache = PackageCache::new();
    let id = identity("foo", "1.0.0");
    assert!(!cache.has(&id));
    let done = StreamOutcome::Complete { checksum: "abc".to_string(), size_bytes: 10 };
    let e = cache.put(&id, &"cache/foo-1.0.0.tpkg".to_string(), &done, &Some("abc".to_string())).unwrap();
    assert_eq!(e.checksum, "abc");
    assert!(cache.has(&id));
    let got = cache.get(&id).unwrap();
    assert_eq!(got.checksum, "abc");
    assert_eq!(got.size_bytes, 10);
    assert_eq!(got.archive_path, "cache/foo-1.0.0.tpkg");
}

#[test]
fn interrupted_put_publishes_nothing() {
    let mut cache = PackageCache::new();
    let id = identity("foo", "1.0.0");
    let r = cache.put(&id, &"p".to_string(), &StreamOutcome::Interrupted, &None);
    assert!(matches!(r, Err(CacheError::StreamFailed)));
    assert!(!cache.has(&id));
    assert!(cache.get(&id).is_none());
}

#[test]
fn checksum_mismatch_publishes_nothing() {
    let mut cache = PackageCache::new();
    let id = identity("foo", "1.0.0");
    let done = StreamOutcome::Complete { checksum: "abc".to_string(), size_bytes: 3 };
    let r = cache.put(&id, &"p".to_string(), &done, &Some("xyz".to_string()));
    assert!(matches!(r, Err(CacheError::ChecksumMismatch)));
    assert!(!cache.has(&id));
}

#[test]
fn racing_puts_converge() {
    let mut cache = PackageCache::new();
    let id = identity("foo", "1.0.0");
    let first = StreamOutcome::Complete { checksum: "aaa".to_string(), size_bytes: 1 };
    let second = StreamOutcome::Complete { checksum: "bbb".to_string(), size_bytes: 2 };
    let a = cache.put(&id, &"cache/first.tpkg".to_string(), &first, &None).unwrap();
    let b = cache.put(&id, &"cache/second.tpkg".to_string(), &second, &None).unwrap();
    assert_eq!(a.checksum, b.checksum);
    assert_eq!(b.archive_path, "cache/first.tpkg");
    assert_eq!(cache.entries().len(), 1);
}

#[test]
fn duplicate_path_leaves_record_unchanged() {
    let mut record = InstalledPathsRecord::new();
    let first = InstalledPath { identity: identity("bar", "1.0.0"), relative_path: "foo_ext".to_string(), install_time: 1 };
    assert_eq!(record.record(first, false), Ok(()));
    let second = InstalledPath { identity: identity("foo", "1.2.0"), relative_path: "foo_ext".to_string(), install_time: 2 };
    assert_eq!(record.record(second, false), Err(RecorderError::DuplicatePath));
    assert_eq!(record.entries().len(), 1);
    assert_eq!(record.entries()[0].identity.name, "bar");
    let third = InstalledPath { identity: identity("foo", "1.2.0"), relative_path: "foo_ext".to_string(), install_time: 3 };
    assert_eq!(record.record(third, true), Ok(()));
    assert_eq!(record.entries().len(), 1);
    assert_eq!(record.entries()[0].identity.name, "foo");
}

#[test]
fn no_matching_version() {
    let cs = vec![candidate("foo", "2.0.0", 1), candidate("bar", "1.0.0", 1)];
    let r = plan_install(&declaration("foo", "^1.0.0"), &cs, DEFAULT_MAX_LATEST_VERSIONS_WHEN_INSTALL);
    assert_eq!(r, Err(ResolutionError::NoMatchingVersion));
}

#[test]
fn same_version_prefers_latest_published() {
    let cs = vec![candidate("foo", "1.0.0", 5), candidate("foo", "1.0.0", 9), candidate("foo", "0.9.0", 1)];
    let r = plan_install(&declaration("foo", ">=0.1.0"), &cs, 3).unwrap();
    assert_eq!(r, vec![1, 2]);
}

#[test]
fn same_version_same_time_is_ambiguous() {
    let cs = vec![candidate("foo", "1.0.0", 5), candidate("foo", "1.0.0", 5)];
    let r = plan_install(&declaration("foo", "^1.0.0"), &cs, 3);
    assert_eq!(r, Err(ResolutionError::AmbiguousCandidate));
}

#[test]
fn cap_limits_considered_versions() {
    let cs = vec![
        candidate("foo", "1.0.0", 1),
        candidate("foo", "1.1.0", 1),
        candidate("foo", "1.2.0", 1),
        candidate("foo", "1.3.0", 1),
    ];
    let r = plan_install(&declaration("foo", "^1.0.0"), &cs, 3).unwrap();
    assert_eq!(r, vec![3, 2, 1]);
}

#[test]
fn failing_downloads_exhaust_after_budget() {
    let plan = vec![3usize, 2, 1];
    let mut downloads = 0u32;
    let mut made = 0u32;
    loop {
        match next_download(&plan, DEFAULT_MAX_RETRY_ATTEMPTS_WHEN_INSTALL, made) {
            InstallAction::Download(c) => {
                assert_eq!(c, plan[made as usize % 3]);
                downloads += 1;
                made += 1;
            }
            InstallAction::Exhausted => break,
        }
    }
    assert_eq!(downloads, 10);
}

#[test]
fn end_to_end_resolves_highest_match_then_hits_cache() {
    let cs = vec![candidate("foo", "1.0.0", 1), candidate("foo", "1.2.0", 2), candidate("foo", "2.0.0", 3)];
    let d = declaration("foo", "^1.0.0");
    let mut cache = PackageCache::new();
    assert!(cached_match(&cache, &d).is_none());
    let plan = plan_install(&d, &cs, 3).unwrap();
    assert_eq!(cs[plan[0]].version, "1.2.0");
    let id = identity("foo", &cs[plan[0]].version);
    let done = StreamOutcome::Complete { checksum: "sum".to_string(), size_bytes: 4 };
    cache.put(&id, &"cache/foo".to_string(), &done, &None).unwrap();
    let mut record = InstalledPathsRecord::new();
    let entry = InstalledPath { identity: identity("foo", "1.2.0"), relative_path: "ten_packages/extension/foo".to_string(), install_time: 1 };
    assert_eq!(record.record(entry, false), Ok(()));
    let hit = cached_match(&cache, &d).unwrap();
    assert_eq!(text_of(&hit.identity.version), "1.2.0");
    match begin_resolve(&cache, &d, true) {
        ResolveStart::UseCached(e) => assert_eq!(e.checksum, "sum"),
        ResolveStart::QueryRegistry => panic!("queried the registry despite a cached match"),
    }
    assert!(matches!(begin_resolve(&cache, &d, false), ResolveStart::QueryRegistry));
    assert!(matches!(begin_resolve(&cache, &declaration("foo", "^2.0.0"), true), ResolveStart::QueryRegistry));
}

#[test]
fn paging_stops_on_short_page_or_bound() {
    assert_eq!(next_page(1, 100, DEFAULT_REGISTRY_PAGE_SIZE, MAX_REGISTRY_PAGES), Some(2));
    assert_eq!(next_page(3, 42, DEFAULT_REGISTRY_PAGE_SIZE, MAX_REGISTRY_PAGES), None);
    assert_eq!(next_page(MAX_REGISTRY_PAGES, 100, 100, MAX_REGISTRY_PAGES), None);
}

#[test]
fn unreachable_registry_gives_up() {
    let p = RetryPolicy::default_policy();
    assert_eq!((p.max_attempts, p.delay_ms, p.timeout_ms), (30, 500, 120000));
    let mut attempts = 1u32;
    let mut waited = 0u64;
    loop {
        waited += p.timeout_ms;
        match transport_step(&p, attempts, TransportOutcome::Transient) {
            TransportDecision::RetryAfter(d) => {
                waited += d;
                attempts += 1;
            }
            TransportDecision::Unavailable => break,
            other => panic!("unexpected {:?}", other),
        }
    }
    assert_eq!(attempts, 30);
    assert!(waited <= 30 * (120000 + 500));
    assert_eq!(transport_step(&p, 1, TransportOutcome::ClientError), TransportDecision::Rejected);
    assert_eq!(transport_step(&p, 1, TransportOutcome::Success), TransportDecision::Done);
}

fn addon(t: PkgType, name: &str) -> AddonPkg {
    AddonPkg { pkg_type: t, name: name.to_string(), url: format!("file:///app/{name}") }
}

fn sample_app() -> AppPkgs {
    AppPkgs {
        extension_pkgs_info: Some(vec![addon(PkgType::Extension, "ext_a"), addon(PkgType::Extension, "ext_b")]),
        protocol_pkgs_info: Some(vec![addon(PkgType::Protocol, "msgpack")]),
        addon_loader_pkgs_info: None,
        system_pkgs_info: Some(vec![addon(PkgType::System, "ten_runtime")]),
    }
}

#[test]
fn addons_listed_by_kind_in_order() {
    let app = sample_app();
    let all: Vec<String> = select_addon_pkgs(&app, None).into_iter().map(|p| p.name).collect();
    assert_eq!(all, vec!["ext_a", "ext_b", "msgpack", "ten_runtime"]);
    let protos: Vec<String> = select_addon_pkgs(&app, Some(PkgType::Protocol)).into_iter().map(|p| p.name).collect();
    assert_eq!(protos, vec!["msgpack"]);
    assert!(select_addon_pkgs(&app, Some(PkgType::AddonLoader)).is_empty());
}

#[test]
fn unknown_base_dir_is_not_found() {
    let cache = PkgsCache { apps: vec![AppEntry { base_dir: "/app".to_string(), pkgs: sample_app() }] };
    let req = GetAppAddonsRequestPayload { base_dir: "/other".to_string(), addon_type: None, addon_name: None };
    let e = get_app_addon_pkgs(&cache, &req).unwrap_err();
    assert_eq!(e.status, Status::Fail);
    assert_eq!(e.message, "Base directory not found or not specified");
    let empty = GetAppAddonsRequestPayload { base_dir: String::new(), addon_type: None, addon_name: None };
    assert!(get_app_addon_pkgs(&cache, &empty).is_err());
    let ok = GetAppAddonsRequestPayload { base_dir: "/app".to_string(), addon_type: Some(PkgType::Extension), addon_name: None };
    assert_eq!(get_app_addon_pkgs(&cache, &ok).unwrap().len(), 2);
}

#[test]
fn conversion_and_name_filter() {
    let app = sample_app();
    let pkgs = select_addon_pkgs(&app, None);
    let converted: Vec<Result<GetAppAddonsSingleResponseData, _>> =
        pkgs.iter().map(|p| convert_pkg_info_to_addon(p, Ok(None))).collect();
    let kept = collect_addons(converted, &Some("msgpack".to_string())).unwrap();
    assert_eq!(kept.len(), 1);
    assert_eq!(kept[0].addon_type, PkgType::Protocol);
    assert_eq!(kept[0].url, "file:///app/msgpack");

    let failed = convert_pkg_info_to_addon(&pkgs[1], Err("bad manifest".to_string())).unwrap_err();
    assert_eq!(failed.message, "Failed to flatten API for extension");
    assert_eq!(failed.error, Some("bad manifest".to_string()));
    let mixed = vec![convert_pkg_info_to_addon(&pkgs[0], Ok(None)), Err(failed)];
    let e = collect_addons(mixed, &None).unwrap_err();
    assert_eq!(e.error, Some("bad manifest".to_string()));
}

#[test]
fn scope_splits_at_commas() {
    assert_eq!(split_scope("a,b,,c"), vec!["a", "b", "", "c"]);
    assert_eq!(split_scope(""), vec![""]);
}

#[test]
fn packages_query_checks_requirement() {
    let bad = GetPackagesRequestPayload {
        pkg_type: None, name: None, version_req: Some("@1.0".to_string()),
        page_size: None, page: None, tags: None, scope: None,
    };
    let e = prepare_packages_query(bad).err().unwrap();
    assert_eq!(e.message, "Invalid version requirement: @1.0");
    let good = GetPackagesRequestPayload {
        pkg_type: Some(PkgType::Extension), name: Some("foo".to_string()), version_req: Some("^1.0".to_string()),
        page_size: Some(10), page: Some(2), tags: None, scope: Some("x,y".to_string()),
    };
    let q = prepare_packages_query(good).ok().unwrap();
    assert_eq!(q.version_req.unwrap().as_text(), "^1.0");
    assert_eq!(q.scope.unwrap(), vec!["x", "y"]);
    let failed = packages_response(Err("timeout".to_string())).unwrap_err();
    assert_eq!(failed.message, "Failed to get packages: timeout");
    assert_eq!(packages_response(Ok(vec![candidate("foo", "1.0.0", 1)])).unwrap().packages.len(), 1);
}
