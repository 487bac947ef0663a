use bepinex_sources::bepinex::{BepInEx, BepInExRelease, ReleaseFlavor};
use bepinex_sources::builds::{version_token, ArtifactEntry, ArtifactLink, BuildsApi, BuildsAsset, BuildsRelease};
use bepinex_sources::github::{FeedPager, FetchError, GitHubApi, GitHubAsset, GitHubRelease, PagerState, PAGE_SIZE};
use bepinex_sources::version::Version;

fn gh(tag: &str, pre: bool, names: &[&str]) -> GitHubRelease {
    GitHubRelease {
        pre_release: pre,
        tag_name: Version::parse(tag),
        assets: names
            .iter()
            .map(|n| GitHubAsset { name: n.to_string(), browser_download_url: format!("https://dl.invalid/{n}") })
            .collect(),
    }
}

fn tags(releases: &[GitHubRelease]) -> Vec<String> {
    releases.iter().map(|r| r.tag_name.to_string()).collect()
}

#[test]
fn page_url_names_owner_repo_and_page() {
    let api = GitHubApi::new("BepInEx", "Loader");
    assert_eq!(
        api.release_page_url(PAGE_SIZE, 3),
        "https://api.github.com/repos/BepInEx/Loader/releases?per_page=100&page=3"
    );
}

#[test]
fn filter_release_by_pre_release_and_minimum() {
    let mut api = GitHubApi::new("o", "r");
    assert!(api.filter_release(&gh("5.4.21", false, &["a"])));
    assert!(!api.filter_release(&gh("6.0.0-pre.1", true, &["a"])));
    api.set_pre_releases(true);
    assert!(api.filter_release(&gh("6.0.0-pre.1", true, &["a"])));
    api.set_min_tag(Some(Version::parse("5.4.11")));
    assert!(!api.filter_release(&gh("5.4.10", false, &["a"])));
    assert!(api.filter_release(&gh("5.4.11", false, &["a"])));
    assert!(api.filter_release(&gh("v5.4.11.0", false, &["a"])));
}

#[test]
fn pager_reads_until_empty_page() {
    let mut pager = FeedPager::new();
    assert_eq!(pager.next_request(), Some(1));
    pager.receive(Ok(vec![gh("6.0.0-pre.2", true, &["a"]), gh("5.4.22", false, &["b"])]));
    assert_eq!(pager.next_request(), Some(2));
    pager.receive(Ok(vec![gh("5.4.10", false, &["c"]), gh("5.4.21", false, &["d"])]));
    assert_eq!(pager.next_request(), Some(3));
    pager.receive(Ok(vec![]));
    assert_eq!(pager.state, PagerState::Finished);
    assert_eq!(pager.next_request(), None);
    let mut api = GitHubApi::new("o", "r");
    api.set_min_tag(Some(Version::parse("5.4.11")));
    let kept = api.finish(pager).expect("a complete feed");
    assert_eq!(tags(&kept), vec!["5.4.22".to_string(), "5.4.21".to_string()]);
}

#[test]
fn pager_failure_fails_whole_fetch() {
    let mut pager = FeedPager::new();
    pager.receive(Ok(vec![gh("5.4.22", false, &["b"])]));
    pager.receive(Err(FetchError::TransportFailure));
    assert_eq!(pager.state, PagerState::Failed(FetchError::TransportFailure));
    assert_eq!(pager.next_request(), None);
    assert_eq!(GitHubApi::new("o", "r").finish(pager).map(|v| v.len()), Err(FetchError::TransportFailure));
    let mut garbled = FeedPager::new();
    garbled.receive(Err(FetchError::MalformedSource));
    assert_eq!(GitHubApi::new("o", "r").finish(garbled).map(|v| v.len()), Err(FetchError::MalformedSource));
}

#[test]
fn kept_release_without_assets_is_malformed() {
    let mut pager = FeedPager::new();
    pager.receive(Ok(vec![gh("5.4.22", false, &[]), gh("5.4.21", false, &["x"])]));
    pager.receive(Ok(vec![]));
    assert_eq!(GitHubApi::new("o", "r").finish(pager).map(|v| v.len()), Err(FetchError::MalformedSource));
    let mut skipped = FeedPager::new();
    skipped.receive(Ok(vec![gh("6.0.0-pre.1", true, &[]), gh("5.4.21", false, &["x"])]));
    skipped.receive(Ok(vec![]));
    assert_eq!(GitHubApi::new("o", "r").finish(skipped).map(|v| v.len()), Ok(1));
}

#[test]
fn version_token_finds_semver_with_pre_release() {
    assert_eq!(
        version_token("BepInEx-Unity.Mono-win-x64-6.0.0-be.735+5fef357.zip"),
        Some("6.0.0-be.735".to_string())
    );
    assert_eq!(version_token("BepInEx_UnityIL2CPP_x86_0b3b4bb_6.0.0-be.480.zip"), Some("6.0.0-be.480".to_string()));
    assert_eq!(version_token("BepInEx_x64_5.4.21.0.zip"), None);
    assert_eq!(version_token("README.md"), None);
}

fn link(href: &str, text: &str) -> ArtifactLink {
    ArtifactLink { href: Some(href.to_string()), texts: vec![text.to_string()] }
}

fn entry(id: &str, hash: &str, links: Vec<ArtifactLink>) -> ArtifactEntry {
    ArtifactEntry { id_texts: Some(vec![id.to_string()]), hash_texts: Some(vec![hash.to_string()]), links: Some(links) }
}

#[test]
fn build_from_entry_takes_first_token_and_hash() {
    let api = BuildsApi::new("https://builds.invalid");
    let e = entry(
        "#735",
        "5fef357",
        vec![
            link("/a/notes.txt", "notes.txt"),
            link("/a/mono.zip", "BepInEx-Unity.Mono-win-x64-6.0.0-be.735+5fef357.zip"),
            link("/a/il2cpp.zip", "BepInEx-Unity.IL2CPP-win-x64-6.0.0-be.736+5fef357.zip"),
        ],
    );
    let b = api.build_from_entry(&e).expect("a well-formed entry");
    assert_eq!(b.artifact_id, 735);
    assert_eq!(b.version.to_string(), "6.0.0-be.735+5fef357");
    assert_eq!(b.assets.len(), 3);
    assert_eq!(b.assets[1].link, "https://builds.invalid/a/mono.zip");
    assert_eq!(b.assets[0].name, "notes.txt");
}

#[test]
fn malformed_entries() {
    let api = BuildsApi::new("https://builds.invalid");
    let good_links = || vec![link("/a.zip", "BepInEx-Unity.Mono-win-x64-6.0.0-be.735+5fef357.zip")];
    let no_id = ArtifactEntry { id_texts: None, hash_texts: Some(vec!["h".to_string()]), links: Some(good_links()) };
    let bad_id = entry("#x1", "h", good_links());
    let no_hash = ArtifactEntry { id_texts: Some(vec!["#1".to_string()]), hash_texts: Some(vec![]), links: Some(good_links()) };
    let no_token = entry("#1", "h", vec![link("/a.zip", "BepInEx_x64_5.4.21.0.zip")]);
    let no_href = entry("#1", "h", vec![ArtifactLink { href: None, texts: vec!["x".to_string()] }]);
    let no_text = entry("#1", "h", vec![ArtifactLink { href: Some("/x".to_string()), texts: vec![] }]);
    let no_list = ArtifactEntry { id_texts: Some(vec!["#1".to_string()]), hash_texts: Some(vec!["h".to_string()]), links: None };
    for e in [no_id, bad_id, no_hash, no_token, no_href, no_text, no_list].iter() {
        assert_eq!(api.build_from_entry(e).map(|b| b.artifact_id), Err(FetchError::MalformedSource));
    }
}

#[test]
fn build_from_parts_needs_token() {
    let api = BuildsApi::new("b");
    let assets = vec![BuildsAsset { name: "n".to_string(), link: "l".to_string() }];
    let b = api.build_from_parts(650, "abc123", assets, Some("6.0.0-650.abcdef".to_string())).expect("a token");
    assert_eq!(b.version.to_string(), "6.0.0-650.abcdef+abc123");
    assert_eq!(b.artifact_id, 650);
    assert_eq!(api.build_from_parts(1, "h", vec![], None).map(|b| b.artifact_id), Err(FetchError::MalformedSource));
}

#[test]
fn builds_from_entries_filters_minimum_and_fails_whole_page() {
    let mut api = BuildsApi::new("https://builds.invalid");
    api.set_min_build_id(Some(700));
    let ok = |id: &str, n: &str| entry(id, "abc", vec![link("/x.zip", n)]);
    let entries = vec![
        ok("#735", "BepInEx-Unity.Mono-win-x64-6.0.0-be.735+abc.zip"),
        ok("#650", "BepInEx-Unity.Mono-win-x64-6.0.0-be.650+abc.zip"),
        ok("#700", "BepInEx-Unity.Mono-win-x64-6.0.0-be.700+abc.zip"),
    ];
    let builds = api.builds_from_entries(&entries).expect("a well-formed page");
    let ids: Vec<usize> = builds.iter().map(|b| b.artifact_id).collect();
    assert_eq!(ids, vec![735, 700]);
    assert!(api.filter_builds(&builds[0]));
    let mut broken = entries;
    broken.push(entry("#800", "abc", vec![link("/x.zip", "notes.txt")]));
    assert_eq!(api.builds_from_entries(&broken).map(|b| b.len()), Err(FetchError::MalformedSource));
    assert_eq!(api.builds_from_entries(&vec![]).map(|b| b.len()), Ok(0));
}

const INDEX: &str = r##"<main>
<div class="artifact-item">
  <span class="artifact-id">#735</span>
  <a class="hash-button" href="https://example.invalid/commit/5fef357">5fef357</a>
  <div class="artifacts-list">
    <a class="artifact-link" href="/projects/bepinex_be/735/BepInEx-Unity.Mono-win-x64-6.0.0-be.735%2B5fef357.zip">BepInEx-Unity.Mono-win-x64-6.0.0-be.735+5fef357.zip</a>
    <a class="artifact-link" href="/projects/bepinex_be/735/BepInEx-Unity.IL2CPP-win-x86-6.0.0-be.735%2B5fef357.zip">BepInEx-Unity.IL2CPP-win-x86-6.0.0-be.735+5fef357.zip</a>
  </div>
</div>
<div class="artifact-item">
  <span class="artifact-id">#480</span>
  <a class="hash-button" href="https://example.invalid/commit/0b3b4bb">0b3b4bb</a>
  <div class="artifacts-list">
    <a class="artifact-link" href="/projects/bepinex_be/480/BepInEx_UnityMono_x64_0b3b4bb_6.0.0-be.480.zip">BepInEx_UnityMono_x64_0b3b4bb_6.0.0-be.480.zip</a>
  </div>
</div>
</main>"##;

#[test]
fn parse_index_reads_builds() {
    let api = BuildsApi::new("https://builds.invalid");
    assert_eq!(api.index_url(), "https://builds.invalid/projects/bepinex_be");
    let builds = api.parse_index(INDEX).expect("a well-formed index");
    assert_eq!(builds.len(), 2);
    assert_eq!(builds[0].artifact_id, 735);
    assert_eq!(builds[0].version.to_string(), "6.0.0-be.735+5fef357");
    assert_eq!(builds[0].assets[1].name, "BepInEx-Unity.IL2CPP-win-x86-6.0.0-be.735+5fef357.zip");
    assert_eq!(
        builds[0].assets[0].link,
        "https://builds.invalid/projects/bepinex_be/735/BepInEx-Unity.Mono-win-x64-6.0.0-be.735%2B5fef357.zip"
    );
    assert_eq!(builds[1].artifact_id, 480);
    assert_eq!(builds[1].version.to_string(), "6.0.0-be.480+0b3b4bb");
    let mut newer = BuildsApi::new("https://builds.invalid");
    newer.set_base_url("https://mirror.invalid".to_string());
    newer.set_min_build_id(Some(600));
    let kept = newer.parse_index(INDEX).expect("a well-formed index");
    assert_eq!(kept.len(), 1);
    assert!(kept[0].assets[0].link.starts_with("https://mirror.invalid/"));
}

#[test]
fn parse_index_malformed_pages() {
    let api = BuildsApi::new("https://builds.invalid");
    assert_eq!(api.parse_index("<div>no main region</div>").map(|b| b.len()), Err(FetchError::MalformedSource));
    let missing_id = INDEX.replace("<span class=\"artifact-id\">#480</span>", "");
    assert_eq!(api.parse_index(&missing_id).map(|b| b.len()), Err(FetchError::MalformedSource));
    assert_eq!(api.parse_index("<main></main>").map(|b| b.len()), Ok(0));
}

fn build(id: usize, version: &str) -> BuildsRelease {
    BuildsRelease {
        artifact_id: id,
        version: Version::parse(version),
        assets: vec![BuildsAsset { name: format!("{version}.zip"), link: "l".to_string() }],
    }
}

#[test]
fn merge_with_failed_stable_source_keeps_bleeding_edge() {
    let catalog = BepInEx::merge(Err(FetchError::TransportFailure), Ok(vec![build(735, "6.0.0-be.735+a"), build(736, "6.0.0-be.736+b")]));
    assert_eq!(catalog.releases.len(), 2);
    assert!(catalog.releases.iter().all(|r| r.flavor == ReleaseFlavor::BleedingEdge));
    assert_eq!(catalog.latest(), None);
}

#[test]
fn merge_with_failed_bleeding_source_keeps_stable() {
    let catalog = BepInEx::merge(Ok(vec![gh("5.4.22", false, &["a"])]), Err(FetchError::MalformedSource));
    assert_eq!(catalog.releases.len(), 1);
    assert_eq!(catalog.releases[0].flavor, ReleaseFlavor::Stable);
    assert_eq!(catalog.releases[0].assets[0].link, "https://dl.invalid/a");
}

#[test]
fn merge_tags_channels_in_order() {
    let catalog = BepInEx::merge(Ok(vec![gh("5.4.22", false, &["a", "b"]), gh("5.4.21", false, &["c"])]), Ok(vec![build(735, "6.0.0-be.735+a")]));
    let flavors: Vec<ReleaseFlavor> = catalog.releases.iter().map(|r| r.flavor).collect();
    assert_eq!(flavors, vec![ReleaseFlavor::Stable, ReleaseFlavor::Stable, ReleaseFlavor::BleedingEdge]);
    assert_eq!(catalog.releases[0].assets.len(), 2);
    assert_eq!(catalog.latest().map(|r| r.version.to_string()), Some("5.4.22".to_string()));
    let from_build = BepInExRelease::from_build(build(1, "6.0.0-be.1+z"));
    assert_eq!(from_build.assets[0].name, "6.0.0-be.1+z.zip");
    let empty = BepInEx::merge(Err(FetchError::TransportFailure), Err(FetchError::TransportFailure));
    assert!(empty.releases.is_empty());
}

#[test]
fn build_version_must_be_semantic_with_pre_release_and_build() {
    let api = BuildsApi::new("b");
    let with = |hash: &str, token: &str| api.build_from_parts(7, hash, vec![], Some(token.to_string())).map(|b| b.version.to_string());
    assert_eq!(with("bad_hash", "6.0.0-be.7"), Err(FetchError::MalformedSource));
    assert_eq!(with("", "6.0.0-be.7"), Err(FetchError::MalformedSource));
    assert_eq!(with("a b", "6.0.0-be.7"), Err(FetchError::MalformedSource));
    assert_eq!(with("abc", "6.0.0"), Err(FetchError::MalformedSource));
    assert_eq!(with("abc", "6.0.0-be.7"), Ok("6.0.0-be.7+abc".to_string()));
}

#[test]
fn merge_drops_repeated_channel_and_version() {
    let catalog = BepInEx::merge(
        Ok(vec![gh("5.4.22", false, &["first"]), gh("v5.4.22", false, &["second"]), gh("5.4.21", false, &["c"])]),
        Ok(vec![build(735, "6.0.0-be.735+a"), build(735, "6.0.0-be.735+a"), build(736, "6.0.0-be.735+b")]),
    );
    let seen: Vec<(ReleaseFlavor, String)> = catalog.releases.iter().map(|r| (r.flavor, r.version.to_string())).collect();
    assert_eq!(
        seen,
        vec![
            (ReleaseFlavor::Stable, "5.4.22".to_string()),
            (ReleaseFlavor::Stable, "5.4.21".to_string()),
            (ReleaseFlavor::BleedingEdge, "6.0.0-be.735+a".to_string()),
            (ReleaseFlavor::BleedingEdge, "6.0.0-be.735+b".to_string()),
        ]
    );
    assert_eq!(catalog.releases[0].assets[0].name, "first");
}
