//! Releases, their assets, the catalog that unifies both channels, and the
//! resolution of a target to the one asset it needs.
use vstd::prelude::*;
use crate::builds::{BuildsAsset, BuildsRelease};
use crate::github::{FetchError, GitHubAsset, GitHubRelease};
use crate::game::{arch_token, collapsed_type_token, Game, GameArch, GameType};
use crate::text::{
    bounded_value, chars_of, parse_unsigned, push_str, split_dots,
    split_dots_exec, string_of,
};
use crate::version::{core_pre_text, core_text, version_lt, version_text, Version, VersionParts};

verus! {

/// The publication track a release comes from.
#[derive(Debug, Clone, Copy, PartialEq, Eq, Structural)]
pub enum ReleaseFlavor {
    Stable,
    BleedingEdge,
}

impl Default for ReleaseFlavor {
    fn default() -> (r: ReleaseFlavor)
        ensures
            r == ReleaseFlavor::Stable,
    {
        ReleaseFlavor::Stable
    }
}

impl ReleaseFlavor {
    /// `Stable` or `Bleeding edge`.
    pub fn to_string(&self) -> (r: String)
        ensures
            r@ == match *self {
                ReleaseFlavor::Stable => "Stable"@,
                ReleaseFlavor::BleedingEdge => "Bleeding edge"@,
            },
    {
        match self {
            ReleaseFlavor::Stable => String::from_str("Stable"),
            ReleaseFlavor::BleedingEdge => String::from_str("Bleeding edge"),
        }
    }
}

/// One downloadable file of a release: its exact file name and where to fetch it.
#[derive(Debug, Clone, PartialEq, Eq)]
pub struct BepInExAsset {
    pub name: String,
    pub link: String,
}

pub struct AssetView {
    pub name: Seq<char>,
    pub link: Seq<char>,
}

impl View for BepInExAsset {
    type V = AssetView;

    open spec fn view(&self) -> AssetView {
        AssetView { name: self.name@, link: self.link@ }
    }
}

/// A release of either channel with its assets.
#[derive(Debug, Clone, PartialEq, Eq)]
pub struct BepInExRelease {
    pub version: Version,
    pub assets: Vec<BepInExAsset>,
    pub flavor: ReleaseFlavor,
}

pub struct ReleaseView {
    pub version: VersionParts,
    pub assets: Seq<AssetView>,
    pub flavor: ReleaseFlavor,
}

pub open spec fn assets_view(assets: Seq<BepInExAsset>) -> Seq<AssetView> {
    assets.map_values(|a: BepInExAsset| a@)
}

impl View for BepInExRelease {
    type V = ReleaseView;

    open spec fn view(&self) -> ReleaseView {
        ReleaseView { version: self.version@, assets: assets_view(self.assets@), flavor: self.flavor }
    }
}

/// Why no asset could be resolved for a target.
#[derive(Debug, Clone, Copy, PartialEq, Eq, Structural)]
pub enum ResolveError {
    /// The target's engine backend is unknown, so no file can safely be chosen.
    IndeterminateTarget,
    /// The expected file is not among the release's assets.
    AssetNotFound,
}

/// The asset a release maps `name` to: when names repeat, the last one listed wins.
pub open spec fn asset_named(assets: Seq<AssetView>, name: Seq<char>) -> Option<AssetView>
    decreases assets.len(),
{
    if assets.len() == 0 {
        None
    } else if assets.last().name == name {
        Some(assets.last())
    } else {
        asset_named(assets.drop_last(), name)
    }
}

/// The first dot-separated component that reads as a `u32`.
pub open spec fn first_numeric(comps: Seq<Seq<char>>) -> Option<nat>
    decreases comps.len(),
{
    if comps.len() == 0 {
        None
    } else {
        match bounded_value(comps[0], u32::MAX as nat) {
            Some(v) => Some(v),
            None => first_numeric(comps.drop_first()),
        }
    }
}

/// The artifact id a bleeding-edge pre-release identifier carries.
pub open spec fn artifact_id_of(pre: Seq<char>) -> Option<nat> {
    first_numeric(split_dots(pre))
}

/// The exact file name a release publishes for a target, where it can be told.
/// Stable 6.x: `BepInEx_<backend>_<arch>_<version>.zip`. Other stable releases:
/// `BepInEx_<arch>_<major>.<minor>.<patch>.0.zip`. Bleeding-edge builds from
/// artifact 600 on: `BepInEx-<backend>-win-<arch>-<version>.zip`; older ones:
/// `BepInEx_<backend>_<arch>_<build>_<major>.<minor>.<patch>-<pre>.zip`. The
/// backend is written without dots. `None` where the backend is unknown (no
/// name is composed without it, even where the name would not carry it), or a
/// bleeding-edge build carries no artifact id.
pub open spec fn query_text(rel: ReleaseView, ty: Option<GameType>, arch: GameArch) -> Option<
    Seq<char>,
> {
    let v = rel.version;
    match rel.flavor {
        ReleaseFlavor::Stable => if v.0 == 6 {
            match ty {
                Some(t) => Some(
                    "BepInEx_"@ + collapsed_type_token(t) + "_"@ + arch_token(arch) + "_"@
                        + version_text(v) + ".zip"@,
                ),
                None => None,
            }
        } else {
            match ty {
                Some(_) => Some("BepInEx_"@ + arch_token(arch) + "_"@ + core_text(v) + ".0.zip"@),
                None => None,
            }
        },
        ReleaseFlavor::BleedingEdge => match (artifact_id_of(v.3), ty) {
            (Some(id), Some(t)) => if id >= 600 {
                Some(
                    "BepInEx-"@ + collapsed_type_token(t) + "-win-"@ + arch_token(arch) + "-"@
                        + version_text(v) + ".zip"@,
                )
            } else {
                Some(
                    "BepInEx_"@ + collapsed_type_token(t) + "_"@ + arch_token(arch) + "_"@ + v.4
                        + "_"@ + core_pre_text(v) + ".zip"@,
                )
            },
            _ => None,
        },
    }
}

/// The outcome of resolving a release for a target.
pub open spec fn resolution(rel: ReleaseView, ty: Option<GameType>, arch: GameArch) -> Result<
    AssetView,
    ResolveError,
> {
    if ty is None {
        Err(ResolveError::IndeterminateTarget)
    } else {
        match query_text(rel, ty, arch) {
            Some(q) => match asset_named(rel.assets, q) {
                Some(a) => Ok(a),
                None => Err(ResolveError::AssetNotFound),
            },
            None => Err(ResolveError::AssetNotFound),
        }
    }
}

fn copy_asset(a: &BepInExAsset) -> (r: BepInExAsset)
    ensures
        r@ == a@,
{
    BepInExAsset { name: a.name.clone(), link: a.link.clone() }
}

fn copy_version(v: &Version) -> (r: Version)
    ensures
        r@ == v@,
{
    Version {
        major: v.major,
        minor: v.minor,
        patch: v.patch,
        pre: v.pre.clone(),
        build: v.build.clone(),
    }
}

fn copy_assets(assets: &Vec<BepInExAsset>) -> (r: Vec<BepInExAsset>)
    ensures
        assets_view(r@) == assets_view(assets@),
{
    let mut r: Vec<BepInExAsset> = Vec::new();
    let mut i: usize = 0;
    while i < assets.len()
        invariant
            i <= assets@.len(),
            r@.len() == i,
            forall|k: int| 0 <= k < i ==> (#[trigger] r@[k])@ == assets@[k]@,
        decreases assets.len() - i,
    {
        r.push(copy_asset(&assets[i]));
        i = i + 1;
    }
    assert(assets_view(r@) =~= assets_view(assets@));
    r
}

fn copy_release(rel: &BepInExRelease) -> (r: BepInExRelease)
    ensures
        r@ == rel@,
{
    BepInExRelease {
        version: copy_version(&rel.version),
        assets: copy_assets(&rel.assets),
        flavor: rel.flavor,
    }
}

/// The artifact id a bleeding-edge pre-release identifier carries: its first
/// dot-separated component that reads as a `u32`.
pub fn artifact_id(pre: &String) -> (r: Option<u32>)
    ensures
        match r {
            Some(id) => artifact_id_of(pre@) == Some(id as nat),
            None => artifact_id_of(pre@) is None,
        },
{
    let cs = chars_of(pre.as_str());
    let comps = split_dots_exec(&cs);
    let ghost c = split_dots(pre@);
    let mut i: usize = 0;
    assert(c.skip(0) =~= c);
    while i < comps.len()
        invariant
            c == split_dots(pre@),
            comps@.len() == c.len(),
            forall|k: int| 0 <= k < comps@.len() ==> (#[trigger] comps@[k])@ == c[k],
            i <= comps@.len(),
            first_numeric(c) == first_numeric(c.skip(i as int)),
        decreases comps.len() - i,
    {
        assert(c.skip(i as int)[0] == c[i as int]);
        assert(c.skip(i as int).drop_first() =~= c.skip(i + 1));
        if let Some(v) = parse_unsigned(&comps[i], u32::MAX as u64) {
            return Some(v as u32);
        }
        i = i + 1;
    }
    None
}

impl BepInExRelease {
    /// The asset named exactly `query`; when names repeat, the last one listed.
    pub fn select_asset(&self, query: String) -> (r: Option<BepInExAsset>)
        ensures
            match r {
                Some(a) => asset_named(self@.assets, query@) == Some(a@),
                None => asset_named(self@.assets, query@) is None,
            },
    {
        let mut i: usize = self.assets.len();
        assert(self.assets@.subrange(0, i as int) =~= self.assets@);
        while i > 0
            invariant
                i <= self.assets@.len(),
                asset_named(self@.assets, query@) == asset_named(
                    assets_view(self.assets@.subrange(0, i as int)),
                    query@,
                ),
            decreases i,
        {
            let ghost pre = assets_view(self.assets@.subrange(0, i as int));
            assert(pre.drop_last() =~= assets_view(self.assets@.subrange(0, i - 1)));
            assert(pre.last() == self.assets@[i - 1]@);
            if self.assets[i - 1].name == query {
                return Some(copy_asset(&self.assets[i - 1]));
            }
            i = i - 1;
        }
        assert(assets_view(self.assets@.subrange(0, 0)) =~= Seq::<AssetView>::empty());
        None
    }

    /// The exact file name this release publishes for the game, where it can be
    /// told (see `query_text`).
    pub fn to_query(&self, game: &Game) -> (r: Option<String>)
        ensures
            match r {
                Some(q) => query_text(self@, game.ty, game.arch) == Some(q@),
                None => query_text(self@, game.ty, game.arch) is None,
            },
            game.ty is None ==> r is None,
    {
        let mut out: Vec<char> = Vec::new();
        match self.flavor {
            ReleaseFlavor::Stable => {
                if self.version.major == 6 {
                    match game.ty {
                        Some(t) => {
                            push_str(&mut out, "BepInEx_");
                            push_str(&mut out, t.file_token().as_str());
                            push_str(&mut out, "_");
                            push_str(&mut out, game.arch.to_string().as_str());
                            push_str(&mut out, "_");
                            push_str(&mut out, self.version.to_string().as_str());
                            push_str(&mut out, ".zip");
                        },
                        None => {
                            return None;
                        },
                    }
                } else {
                    if game.ty.is_none() {
                        return None;
                    }
                    push_str(&mut out, "BepInEx_");
                    push_str(&mut out, game.arch.to_string().as_str());
                    push_str(&mut out, "_");
                    push_str(&mut out, self.version.mmp().as_str());
                    push_str(&mut out, ".0.zip");
                }
            },
            ReleaseFlavor::BleedingEdge => {
                let id = match artifact_id(&self.version.pre) {
                    Some(id) => id,
                    None => {
                        return None;
                    },
                };
                let t = match game.ty {
                    Some(t) => t,
                    None => {
                        return None;
                    },
                };
                if id >= 600 {
                    push_str(&mut out, "BepInEx-");
                    push_str(&mut out, t.file_token().as_str());
                    push_str(&mut out, "-win-");
                    push_str(&mut out, game.arch.to_string().as_str());
                    push_str(&mut out, "-");
                    push_str(&mut out, self.version.to_string().as_str());
                    push_str(&mut out, ".zip");
                } else {
                    push_str(&mut out, "BepInEx_");
                    push_str(&mut out, t.file_token().as_str());
                    push_str(&mut out, "_");
                    push_str(&mut out, game.arch.to_string().as_str());
                    push_str(&mut out, "_");
                    push_str(&mut out, self.version.build.as_str());
                    push_str(&mut out, "_");
                    push_str(&mut out, self.version.mmpp().as_str());
                    push_str(&mut out, ".zip");
                }
            },
        }
        Some(string_of(&out))
    }

    /// The asset the game needs from this release. An unknown backend is never
    /// guessed: it gives `IndeterminateTarget` whatever the release.
    pub fn resolve(&self, game: &Game) -> (r: Result<BepInExAsset, ResolveError>)
        ensures
            match r {
                Ok(a) => resolution(self@, game.ty, game.arch) == Ok::<AssetView, ResolveError>(a@),
                Err(e) => resolution(self@, game.ty, game.arch) == Err::<AssetView, ResolveError>(e),
            },
            game.ty is None ==> r == Err::<BepInExAsset, ResolveError>(ResolveError::IndeterminateTarget),
    {
        if game.ty.is_none() {
            return Err(ResolveError::IndeterminateTarget);
        }
        match self.to_query(game) {
            Some(q) => match self.select_asset(q) {
                Some(a) => Ok(a),
                None => Err(ResolveError::AssetNotFound),
            },
            None => Err(ResolveError::AssetNotFound),
        }
    }

    /// Whether the framework release can serve the game: an IL2CPP game needs at
    /// least `min_il2cpp`; any other game is served by every release.
    pub fn supports(&self, game: &Game, min_il2cpp: &Version) -> (r: bool)
        ensures
            r == (game.ty != Some(GameType::UnityIL2CPP) || !version_lt(self.version@, min_il2cpp@)),
    {
        match game.ty {
            Some(GameType::UnityIL2CPP) => self.version.at_least(min_il2cpp),
            _ => true,
        }
    }
}

/// Resolution is a function of the release and the target alone: equal inputs
/// resolve to equal outcomes, the same asset or the same error.
pub proof fn lemma_resolve_deterministic(
    r1: BepInExRelease,
    r2: BepInExRelease,
    g1: Game,
    g2: Game,
)
    requires
        r1@ == r2@,
        g1.ty == g2.ty,
        g1.arch == g2.arch,
    ensures
        resolution(r1@, g1.ty, g1.arch) == resolution(r2@, g2.ty, g2.arch),
{
}

/// The release catalog: both channels' releases, each tagged with its channel.
#[derive(Debug, Clone)]
pub struct BepInEx {
    pub releases: Vec<BepInExRelease>,
}

pub open spec fn releases_view(rs: Seq<BepInExRelease>) -> Seq<ReleaseView> {
    rs.map_values(|r: BepInExRelease| r@)
}

/// Index `i` holds a newest stable release: stable, no stable release of higher
/// precedence, and none of equal precedence before it.
pub open spec fn is_latest_stable(rs: Seq<ReleaseView>, i: int) -> bool {
    &&& 0 <= i < rs.len()
    &&& rs[i].flavor == ReleaseFlavor::Stable
    &&& forall|j: int|
        0 <= j < rs.len() && #[trigger] rs[j].flavor == ReleaseFlavor::Stable ==> !version_lt(
            rs[i].version,
            rs[j].version,
        )
    &&& forall|j: int|
        0 <= j < i && #[trigger] rs[j].flavor == ReleaseFlavor::Stable ==> version_lt(
            rs[j].version,
            rs[i].version,
        )
}

impl Default for BepInEx {
    fn default() -> (r: BepInEx)
        ensures
            r.releases@.len() == 0,
    {
        BepInEx { releases: Vec::new() }
    }
}

impl BepInEx {
    /// The newest stable release by precedence, whatever order the catalog holds;
    /// among releases of equal precedence the first listed. `None` where the
    /// catalog has no stable release.
    pub fn latest(&self) -> (r: Option<BepInExRelease>)
        ensures
            match r {
                Some(rel) => exists|i: int|
                    is_latest_stable(releases_view(self.releases@), i) && rel@ == releases_view(
                        self.releases@,
                    )[i],
                None => forall|j: int|
                    0 <= j < self.releases@.len() ==> (#[trigger] self.releases@[j]).flavor
                        != ReleaseFlavor::Stable,
            },
    {
        let ghost rs = releases_view(self.releases@);
        let mut best: Option<usize> = None;
        let mut i: usize = 0;
        while i < self.releases.len()
            invariant
                rs == releases_view(self.releases@),
                i <= self.releases@.len(),
                match best {
                    Some(b) => b < i && rs[b as int].flavor == ReleaseFlavor::Stable && (forall|
                        j: int,
                    |
                        0 <= j < i && #[trigger] rs[j].flavor == ReleaseFlavor::Stable
                            ==> !version_lt(rs[b as int].version, rs[j].version)) && (forall|j: int|
                        0 <= j < b && #[trigger] rs[j].flavor == ReleaseFlavor::Stable
                            ==> version_lt(rs[j].version, rs[b as int].version)),
                    None => forall|j: int|
                        0 <= j < i ==> (#[trigger] rs[j]).flavor != ReleaseFlavor::Stable,
                },
            decreases self.releases.len() - i,
        {
            let cand = &self.releases[i];
            assert(rs[i as int] == cand@);
            if cand.flavor == ReleaseFlavor::Stable {
                match best {
                    None => {
                        proof {
                            crate::version::lemma_precedence_is_strict_total_order(
                                cand.version,
                                cand.version,
                                cand.version,
                            );
                        }
                        best = Some(i);
                    },
                    Some(b) => {
                        proof {
                            crate::version::lemma_precedence_is_strict_total_order(
                                self.releases@[b as int].version,
                                cand.version,
                                cand.version,
                            );
                        }
                        if self.releases[b].version.precedes(&cand.version) {
                            proof {
                                assert forall|j: int|
                                    0 <= j < i + 1 && #[trigger] rs[j].flavor
                                        == ReleaseFlavor::Stable implies !version_lt(
                                    rs[i as int].version,
                                    rs[j].version,
                                ) by {
                                    crate::version::lemma_precedence_is_strict_total_order(
                                        cand.version,
                                        self.releases@[b as int].version,
                                        self.releases@[j].version,
                                    );
                                    crate::version::lemma_precedence_is_strict_total_order(
                                        self.releases@[b as int].version,
                                        cand.version,
                                        self.releases@[j].version,
                                    );
                                    crate::version::lemma_precedence_is_strict_total_order(
                                        self.releases@[j].version,
                                        cand.version,
                                        self.releases@[b as int].version,
                                    );
                                    crate::version::lemma_precedence_is_strict_total_order(
                                        self.releases@[b as int].version,
                                        self.releases@[j].version,
                                        cand.version,
                                    );
                                }
                                assert forall|j: int|
                                    0 <= j < i && #[trigger] rs[j].flavor
                                        == ReleaseFlavor::Stable implies version_lt(
                                    rs[j].version,
                                    rs[i as int].version,
                                ) by {
                                    crate::version::lemma_precedence_is_strict_total_order(
                                        self.releases@[j].version,
                                        self.releases@[b as int].version,
                                        cand.version,
                                    );
                                    crate::version::lemma_precedence_is_strict_total_order(
                                        self.releases@[b as int].version,
                                        self.releases@[j].version,
                                        cand.version,
                                    );
                                }
                            }
                            best = Some(i);
                        }
                    },
                }
            }
            i = i + 1;
        }
        match best {
            Some(b) => {
                assert(is_latest_stable(rs, b as int));
                Some(copy_release(&self.releases[b]))
            },
            None => {
                assert forall|j: int| 0 <= j < self.releases@.len() implies (
                #[trigger] self.releases@[j]).flavor != ReleaseFlavor::Stable by {
                    assert(rs[j].flavor == self.releases@[j].flavor);
                }
                None
            },
        }
    }

    /// The releases of one channel, in catalog order.
    pub fn releases_for(&self, flavor: ReleaseFlavor) -> (r: Vec<BepInExRelease>)
        ensures
            releases_view(r@) == releases_view(self.releases@).filter(
                |rel: ReleaseView| rel.flavor == flavor,
            ),
    {
        let ghost rs = releases_view(self.releases@);
        let mut out: Vec<BepInExRelease> = Vec::new();
        let mut i: usize = 0;
        while i < self.releases.len()
            invariant
                rs == releases_view(self.releases@),
                i <= self.releases@.len(),
                releases_view(out@) == rs.subrange(0, i as int).filter(
                    |rel: ReleaseView| rel.flavor == flavor,
                ),
            decreases self.releases.len() - i,
        {
            proof {
                assert(rs.subrange(0, i + 1) =~= rs.subrange(0, i as int).push(rs[i as int]));
                rs.subrange(0, i as int).lemma_filter_push(
                    rs[i as int],
                    |rel: ReleaseView| rel.flavor == flavor,
                );
            }
            if self.releases[i].flavor == flavor {
                let c = copy_release(&self.releases[i]);
                out.push(c);
                assert(releases_view(out@) =~= releases_view(out@.drop_last()).push(c@));
            }
            i = i + 1;
        }
        assert(rs.subrange(0, rs.len() as int) =~= rs);
        out
    }
}

/// A stable-feed release as a catalog release.
pub open spec fn stable_release_view(rel: GitHubRelease) -> ReleaseView {
    ReleaseView {
        version: rel.tag_name@,
        assets: rel.assets@.map_values(
            |a: GitHubAsset| AssetView { name: a.name@, link: a.browser_download_url@ },
        ),
        flavor: ReleaseFlavor::Stable,
    }
}

/// A bleeding-edge build as a catalog release.
pub open spec fn build_release_view(b: BuildsRelease) -> ReleaseView {
    ReleaseView { version: b.version@, assets: b@.assets, flavor: ReleaseFlavor::BleedingEdge }
}

/// What a stable fetch contributes: its releases, or nothing where it failed.
pub open spec fn stable_part(stable: Result<Vec<GitHubRelease>, FetchError>) -> Seq<ReleaseView> {
    match stable {
        Ok(v) => v@.map_values(|r: GitHubRelease| stable_release_view(r)),
        Err(_) => Seq::<ReleaseView>::empty(),
    }
}

/// What a bleeding-edge fetch contributes: its builds, or nothing where it failed.
pub open spec fn bleeding_part(bleeding: Result<Vec<BuildsRelease>, FetchError>) -> Seq<
    ReleaseView,
> {
    match bleeding {
        Ok(v) => v@.map_values(|b: BuildsRelease| build_release_view(b)),
        Err(_) => Seq::<ReleaseView>::empty(),
    }
}

/// The catalog two fetches make: the stable releases, then the bleeding-edge ones.
pub open spec fn catalog_view(
    stable: Result<Vec<GitHubRelease>, FetchError>,
    bleeding: Result<Vec<BuildsRelease>, FetchError>,
) -> Seq<ReleaseView> {
    dedup_releases(stable_part(stable) + bleeding_part(bleeding))
}

/// Whether `rs` holds a release of `r`'s channel and version: its source identity.
pub open spec fn holds_identity(rs: Seq<ReleaseView>, r: ReleaseView) -> bool {
    exists|k: int| 0 <= k < rs.len() && same_identity(#[trigger] rs[k], r)
}

pub open spec fn same_identity(a: ReleaseView, b: ReleaseView) -> bool {
    a.flavor == b.flavor && a.version == b.version
}

/// `prev` with `r` appended, unless `prev` already holds its source identity.
pub open spec fn dedup_step(prev: Seq<ReleaseView>, r: ReleaseView) -> Seq<ReleaseView> {
    if holds_identity(prev, r) {
        prev
    } else {
        prev.push(r)
    }
}

/// `xs` in order, each record left out whose channel and version an earlier
/// one already has.
pub open spec fn dedup_releases(xs: Seq<ReleaseView>) -> Seq<ReleaseView>
    decreases xs.len(),
{
    if xs.len() == 0 {
        xs
    } else {
        dedup_step(dedup_releases(xs.drop_last()), xs.last())
    }
}

/// No two releases share channel and version.
pub open spec fn distinct_identities(rs: Seq<ReleaseView>) -> bool {
    forall|i: int, j: int|
        0 <= i < j < rs.len() ==> !same_identity(#[trigger] rs[i], #[trigger] rs[j])
}

proof fn lemma_dedup_releases(xs: Seq<ReleaseView>)
    ensures
        distinct_identities(dedup_releases(xs)),
        xs.len() > 0 ==> dedup_releases(xs).len() > 0,
        forall|k: int|
            0 <= k < dedup_releases(xs).len() ==> exists|j: int|
                0 <= j < xs.len() && #[trigger] dedup_releases(xs)[k] == xs[j],
    decreases xs.len(),
{
    if xs.len() > 0 {
        let prev = dedup_releases(xs.drop_last());
        lemma_dedup_releases(xs.drop_last());
        let d = dedup_releases(xs);
        assert forall|k: int| 0 <= k < d.len() implies exists|j: int|
            0 <= j < xs.len() && #[trigger] d[k] == xs[j] by {
            if k < prev.len() {
                let j = choose|j: int| 0 <= j < xs.drop_last().len() && prev[k] == xs.drop_last()[j];
                assert(d[k] == xs[j]);
            } else {
                assert(d[k] == xs[xs.len() - 1]);
            }
        }
        if !holds_identity(prev, xs.last()) {
            assert forall|i: int, j: int| 0 <= i < j < d.len() implies !same_identity(
                #[trigger] d[i],
                #[trigger] d[j],
            ) by {
                if j == d.len() - 1 {
                    assert(d[i] == prev[i]);
                    if same_identity(d[i], d[j]) {
                        assert(same_identity(prev[i], xs.last()));
                    }
                } else {
                    assert(d[i] == prev[i] && d[j] == prev[j]);
                }
            }
        }
    }
}

/// The catalog never holds two releases of the same channel and version.
pub proof fn lemma_catalog_identities_distinct(
    stable: Result<Vec<GitHubRelease>, FetchError>,
    bleeding: Result<Vec<BuildsRelease>, FetchError>,
)
    ensures
        distinct_identities(catalog_view(stable, bleeding)),
{
    lemma_dedup_releases(stable_part(stable) + bleeding_part(bleeding));
}

/// A failed source contributes nothing while the other still fills the
/// catalog: with one fetch failed and the other returning releases, the catalog
/// is non-empty and holds releases of the succeeding channel only.
pub proof fn lemma_failed_source_leaves_other_channel(
    stable: Result<Vec<GitHubRelease>, FetchError>,
    bleeding: Result<Vec<BuildsRelease>, FetchError>,
)
    ensures
        stable is Err && (bleeding matches Ok(b) && b@.len() > 0) ==> {
            let c = catalog_view(stable, bleeding);
            &&& c.len() > 0
            &&& forall|k: int| 0 <= k < c.len() ==> (#[trigger] c[k]).flavor
                == ReleaseFlavor::BleedingEdge
        },
        bleeding is Err && (stable matches Ok(v) && v@.len() > 0) ==> {
            let c = catalog_view(stable, bleeding);
            &&& c.len() > 0
            &&& forall|k: int| 0 <= k < c.len() ==> (#[trigger] c[k]).flavor
                == ReleaseFlavor::Stable
        },
{
    let all = stable_part(stable) + bleeding_part(bleeding);
    let c = catalog_view(stable, bleeding);
    lemma_dedup_releases(all);
    if stable is Err {
        assert(all =~= bleeding_part(bleeding));
    }
    if bleeding is Err {
        assert(all =~= stable_part(stable));
    }
    assert forall|k: int| 0 <= k < c.len() implies exists|j: int|
        0 <= j < all.len() && #[trigger] c[k] == all[j] by {}
}

impl BepInExRelease {
    /// A stable-feed release as a catalog release; its assets keep their order.
    pub fn from_github(rel: GitHubRelease) -> (r: BepInExRelease)
        ensures
            r@ == stable_release_view(rel),
    {
        let ghost all = rel.assets@;
        let mut src = rel.assets;
        let n = src.len();
        let mut assets: Vec<BepInExAsset> = Vec::new();
        let mut k: usize = 0;
        assert(all.skip(0) =~= all);
        while src.len() > 0
            invariant
                all.len() == n,
                k <= n,
                src@ == all.skip(k as int),
                assets@.len() == k,
                forall|j: int|
                    0 <= j < k ==> (#[trigger] assets@[j])@ == (AssetView {
                        name: all[j].name@,
                        link: all[j].browser_download_url@,
                    }),
            decreases src.len(),
        {
            let a = src.remove(0);
            assert(a == all[k as int]);
            assert(src@ =~= all.skip(k + 1));
            assets.push(BepInExAsset { name: a.name, link: a.browser_download_url });
            k = k + 1;
        }
        let r = BepInExRelease { version: rel.tag_name, assets, flavor: ReleaseFlavor::Stable };
        assert(r@.assets =~= stable_release_view(rel).assets);
        r
    }

    /// A bleeding-edge build as a catalog release; its assets keep their order.
    pub fn from_build(rel: BuildsRelease) -> (r: BepInExRelease)
        ensures
            r@ == build_release_view(rel),
    {
        let ghost all = rel.assets@;
        let mut src = rel.assets;
        let n = src.len();
        let mut assets: Vec<BepInExAsset> = Vec::new();
        let mut k: usize = 0;
        assert(all.skip(0) =~= all);
        while src.len() > 0
            invariant
                all.len() == n,
                k <= n,
                src@ == all.skip(k as int),
                assets@.len() == k,
                forall|j: int| 0 <= j < k ==> (#[trigger] assets@[j])@ == all[j]@,
            decreases src.len(),
        {
            let a: BuildsAsset = src.remove(0);
            assert(a == all[k as int]);
            assert(src@ =~= all.skip(k + 1));
            assets.push(BepInExAsset { name: a.name, link: a.link });
            k = k + 1;
        }
        let r = BepInExRelease { version: rel.version, assets, flavor: ReleaseFlavor::BleedingEdge };
        assert(r@.assets =~= build_release_view(rel).assets);
        r
    }
}

impl BepInEx {
    /// The catalog of both sources: every stable release, then every
    /// bleeding-edge build, each tagged with its channel. A source whose fetch
    /// failed contributes nothing; the other is unaffected.
    pub fn merge(
        stable: Result<Vec<GitHubRelease>, FetchError>,
        bleeding: Result<Vec<BuildsRelease>, FetchError>,
    ) -> (r: BepInEx)
        ensures
            releases_view(r.releases@) == catalog_view(stable, bleeding),
            distinct_identities(releases_view(r.releases@)),
    {
        let ghost sp = stable_part(stable);
        let ghost bp = bleeding_part(bleeding);
        proof {
            lemma_catalog_identities_distinct(stable, bleeding);
        }
        let mut releases: Vec<BepInExRelease> = Vec::new();
        if let Ok(v) = stable {
            let ghost all = v@;
            let mut src = v;
            let n = src.len();
            let mut k: usize = 0;
            assert(all.skip(0) =~= all);
            assert(sp.take(0) =~= Seq::<ReleaseView>::empty());
            while src.len() > 0
                invariant
                    all.len() == n,
                    sp == all.map_values(|r: GitHubRelease| stable_release_view(r)),
                    k <= n,
                    src@ == all.skip(k as int),
                    releases_view(releases@) == dedup_releases(sp.take(k as int)),
                decreases src.len(),
            {
                let rel = src.remove(0);
                assert(rel == all[k as int]);
                assert(src@ =~= all.skip(k + 1));
                let c = BepInExRelease::from_github(rel);
                assert(sp[k as int] == c@);
                assert(sp.take(k + 1).drop_last() =~= sp.take(k as int));
                add_unless_present(&mut releases, c);
                k = k + 1;
            }
            assert(sp.take(n as int) =~= sp);
        } else {
            assert(sp =~= Seq::<ReleaseView>::empty());
        }
        let ghost before = releases@;
        if let Ok(v) = bleeding {
            let ghost all = v@;
            let mut src = v;
            let n = src.len();
            let mut k: usize = 0;
            assert(all.skip(0) =~= all);
            assert(sp + bp.take(0) =~= sp);
            while src.len() > 0
                invariant
                    all.len() == n,
                    bp == all.map_values(|b: BuildsRelease| build_release_view(b)),
                    k <= n,
                    src@ == all.skip(k as int),
                    releases_view(releases@) == dedup_releases(sp + bp.take(k as int)),
                decreases src.len(),
            {
                let rel = src.remove(0);
                assert(rel == all[k as int]);
                assert(src@ =~= all.skip(k + 1));
                let c = BepInExRelease::from_build(rel);
                assert(bp[k as int] == c@);
                assert((sp + bp.take(k + 1)).drop_last() =~= sp + bp.take(k as int));
                assert((sp + bp.take(k + 1)).last() == c@);
                add_unless_present(&mut releases, c);
                k = k + 1;
            }
            assert(bp.take(n as int) =~= bp);
        } else {
            assert(sp + bp =~= sp);
        }
        BepInEx { releases }
    }
}

fn same_version(a: &Version, b: &Version) -> (r: bool)
    ensures
        r == (a@ == b@),
{
    a.major == b.major && a.minor == b.minor && a.patch == b.patch && a.pre == b.pre && a.build
        == b.build
}

/// Appends `c` unless a release of its channel and version is already there.
fn add_unless_present(releases: &mut Vec<BepInExRelease>, c: BepInExRelease)
    ensures
        releases_view(final(releases)@) == dedup_step(releases_view(old(releases)@), c@),
{
    let ghost rs = releases_view(releases@);
    let mut i: usize = 0;
    while i < releases.len()
        invariant
            rs == releases_view(releases@),
            i <= releases@.len(),
            forall|k: int| 0 <= k < i ==> !same_identity(#[trigger] rs[k], c@),
        decreases releases.len() - i,
    {
        assert(rs[i as int] == releases@[i as int]@);
        if releases[i].flavor == c.flavor && same_version(&releases[i].version, &c.version) {
            assert(same_identity(rs[i as int], c@));
            return;
        }
        i = i + 1;
    }
    let ghost cv = c@;
    releases.push(c);
    assert(releases_view(releases@) =~= rs.push(cv));
}

} // verus!
