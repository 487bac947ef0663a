//! The bleeding-edge channel: one index page listing builds, each with an
//! artifact id, a content hash and its download links. One malformed entry
//! makes the whole page malformed.
use vstd::prelude::*;
use crate::bepinex::AssetView;
use crate::github::FetchError;
use crate::html::{
    first_element_attr, first_element_attr_of, fragment_texts, fragment_texts_of, select_markup,
    selected_markup_of,
};
use crate::text::{bounded_value, chars_of, parse_unsigned, push_str, string_of, strings_view};
use crate::version::{semver_of, semver_parse, Version, VersionParts};

verus! {

/// A semantic version with a mandatory two-part pre-release suffix, as build
/// artifact names carry it.
pub const VERSION_TOKEN_PATTERN: &'static str = "((?:0|[1-9]\\d*)\\.(?:0|[1-9]\\d*)\\.(?:0|[1-9]\\d*)-(?:(?:0|[1-9]\\d*|\\d*[a-zA-Z-][0-9a-zA-Z-]*)(?:\\.(?:0|[1-9]\\d*|\\d*[a-zA-Z-][0-9a-zA-Z-]*))))";

/// What `regex` finds of `pattern` in `haystack`: the text of the leftmost-first
/// match, `None` where there is no match or the pattern does not compile.
pub uninterp spec fn regex_find_of(pattern: Seq<char>, haystack: Seq<char>) -> Option<Seq<char>>;

/// Relies on `regex::Regex::new` and `Regex::find`: the text of the
/// leftmost-first match of `pattern` in `haystack`.
#[verifier::external_body]
fn regex_find(pattern: &str, haystack: &str) -> (r: Option<String>)
    ensures
        match r {
            Some(t) => regex_find_of(pattern@, haystack@) == Some(t@),
            None => regex_find_of(pattern@, haystack@) is None,
        },
{
    regex::Regex::new(pattern).ok().and_then(|re| re.find(haystack).map(|m| m.as_str().to_string()))
}

/// A download link of a build.
#[derive(Debug)]
pub struct BuildsAsset {
    pub name: String,
    pub link: String,
}

impl View for BuildsAsset {
    type V = AssetView;

    open spec fn view(&self) -> AssetView {
        AssetView { name: self.name@, link: self.link@ }
    }
}

/// A build of the bleeding-edge channel.
#[derive(Debug)]
pub struct BuildsRelease {
    pub artifact_id: usize,
    pub version: Version,
    pub assets: Vec<BuildsAsset>,
}

pub struct BuildView {
    pub artifact_id: usize,
    pub version: VersionParts,
    pub assets: Seq<AssetView>,
}

pub open spec fn builds_assets_view(assets: Seq<BuildsAsset>) -> Seq<AssetView> {
    assets.map_values(|a: BuildsAsset| a@)
}

impl View for BuildsRelease {
    type V = BuildView;

    open spec fn view(&self) -> BuildView {
        BuildView {
            artifact_id: self.artifact_id,
            version: self.version@,
            assets: builds_assets_view(self.assets@),
        }
    }
}

pub open spec fn builds_view(builds: Seq<BuildsRelease>) -> Seq<BuildView> {
    builds.map_values(|b: BuildsRelease| b@)
}

/// A download link of an index entry as scraped: its `href` (absent where the
/// anchor has none) and its text nodes.
pub struct ArtifactLink {
    pub href: Option<String>,
    pub texts: Vec<String>,
}

/// One build entry of the index as scraped: the text nodes of its id element
/// and of its hash element, and the links of its artifact list; `None` where the
/// element is missing.
pub struct ArtifactEntry {
    pub id_texts: Option<Vec<String>>,
    pub hash_texts: Option<Vec<String>>,
    pub links: Option<Vec<ArtifactLink>>,
}

pub struct LinkView {
    pub href: Option<Seq<char>>,
    pub texts: Seq<Seq<char>>,
}

pub struct EntryView {
    pub id_texts: Option<Seq<Seq<char>>>,
    pub hash_texts: Option<Seq<Seq<char>>>,
    pub links: Option<Seq<LinkView>>,
}

pub open spec fn opt_strings_view(v: Option<Vec<String>>) -> Option<Seq<Seq<char>>> {
    match v {
        Some(t) => Some(strings_view(t@)),
        None => None,
    }
}

impl View for ArtifactLink {
    type V = LinkView;

    open spec fn view(&self) -> LinkView {
        LinkView {
            href: match self.href {
                Some(h) => Some(h@),
                None => None,
            },
            texts: strings_view(self.texts@),
        }
    }
}

pub open spec fn links_view(links: Seq<ArtifactLink>) -> Seq<LinkView> {
    links.map_values(|l: ArtifactLink| l@)
}

impl View for ArtifactEntry {
    type V = EntryView;

    open spec fn view(&self) -> EntryView {
        EntryView {
            id_texts: opt_strings_view(self.id_texts),
            hash_texts: opt_strings_view(self.hash_texts),
            links: match self.links {
                Some(l) => Some(links_view(l@)),
                None => None,
            },
        }
    }
}

pub open spec fn entries_view(es: Seq<ArtifactEntry>) -> Seq<EntryView> {
    es.map_values(|e: ArtifactEntry| e@)
}

/// The id element reads `#<number>`: the first text node whose text after its
/// first character reads as a `usize`.
pub open spec fn first_id(texts: Seq<Seq<char>>) -> Option<nat>
    decreases texts.len(),
{
    if texts.len() == 0 {
        None
    } else {
        let t = texts[0];
        match if t.len() > 0 {
            bounded_value(t.drop_first(), usize::MAX as nat)
        } else {
            None
        } {
            Some(v) => Some(v),
            None => first_id(texts.drop_first()),
        }
    }
}

/// The assets of an entry's links: the name is the link's first text node, the
/// location is the base address followed by the `href`. `None` where a link
/// lacks either.
pub open spec fn link_assets(base: Seq<char>, links: Seq<LinkView>) -> Option<Seq<AssetView>>
    decreases links.len(),
{
    if links.len() == 0 {
        Some(Seq::<AssetView>::empty())
    } else {
        let l = links.last();
        match (link_assets(base, links.drop_last()), l.href) {
            (Some(prev), Some(h)) => if l.texts.len() > 0 {
                Some(prev.push(AssetView { name: l.texts[0], link: base + h }))
            } else {
                None
            },
            _ => None,
        }
    }
}

/// The version token of the first link whose name holds one.
pub open spec fn first_token(links: Seq<LinkView>) -> Option<Seq<char>>
    decreases links.len(),
{
    if links.len() == 0 {
        None
    } else {
        match regex_find_of(VERSION_TOKEN_PATTERN@, links[0].texts[0]) {
            Some(t) => Some(t),
            None => first_token(links.drop_first()),
        }
    }
}

/// The version a build gets from its token and content hash: `<token>+<hash>`
/// read as a semantic version, which must carry both a pre-release and build
/// metadata; `None` where it does not.
pub open spec fn build_version(token: Seq<char>, hash: Seq<char>) -> Option<VersionParts> {
    match semver_of(token + "+"@ + hash) {
        Some(p) => if p.3.len() > 0 && p.4.len() > 0 {
            Some(p)
        } else {
            None
        },
        None => None,
    }
}

/// What one index entry yields.
pub open spec fn entry_outcome(base: Seq<char>, e: EntryView) -> Result<BuildView, FetchError> {
    match (e.id_texts, e.hash_texts, e.links) {
        (Some(ids), Some(hashes), Some(links)) => match (first_id(ids), link_assets(base, links)) {
            (Some(id), Some(assets)) => if hashes.len() == 0 {
                Err(FetchError::MalformedSource)
            } else {
                match first_token(links) {
                    Some(t) => match build_version(t, hashes[0]) {
                        Some(v) => Ok(BuildView { artifact_id: id as usize, version: v, assets }),
                        None => Err(FetchError::MalformedSource),
                    },
                    None => Err(FetchError::MalformedSource),
                }
            },
            _ => Err(FetchError::MalformedSource),
        },
        _ => Err(FetchError::MalformedSource),
    }
}

/// What a list of entries yields: every build, or the first entry's error.
pub open spec fn entries_outcome(base: Seq<char>, es: Seq<EntryView>) -> Result<
    Seq<BuildView>,
    FetchError,
>
    decreases es.len(),
{
    if es.len() == 0 {
        Ok(Seq::<BuildView>::empty())
    } else {
        match entries_outcome(base, es.drop_last()) {
            Ok(prev) => match entry_outcome(base, es.last()) {
                Ok(b) => Ok(prev.push(b)),
                Err(e) => Err(e),
            },
            Err(e) => Err(e),
        }
    }
}

/// Whether a build is at or above the minimum artifact id.
pub open spec fn keeps_build(min_build_id: Option<usize>, b: BuildView) -> bool {
    match min_build_id {
        Some(m) => b.artifact_id >= m,
        None => true,
    }
}

/// What a list of entries yields once builds below the minimum are left out.
pub open spec fn index_outcome(
    base: Seq<char>,
    min_build_id: Option<usize>,
    es: Seq<EntryView>,
) -> Result<Seq<BuildView>, FetchError> {
    match entries_outcome(base, es) {
        Ok(bs) => Ok(bs.filter(|b: BuildView| keeps_build(min_build_id, b))),
        Err(e) => Err(e),
    }
}

/// The texts of the first of `elements`, `None` where there is none.
pub open spec fn first_element_texts(elements: Seq<Seq<char>>) -> Option<Seq<Seq<char>>> {
    if elements.len() > 0 {
        Some(fragment_texts_of(elements[0]))
    } else {
        None
    }
}

/// A download anchor as the index shows it: its `href` and its text nodes.
pub open spec fn anchor_view(anchor: Seq<char>) -> LinkView {
    LinkView {
        href: first_element_attr_of(anchor, "href"@),
        texts: fragment_texts_of(anchor),
    }
}

/// One `div.artifact-item` as plain values: the texts of its first
/// `span.artifact-id` and of its first `a.hash-button`, and the
/// `a.artifact-link` anchors of its first `div.artifacts-list`. `None` where a
/// selector cannot be used.
pub open spec fn item_entry(item: Seq<char>) -> Option<EntryView> {
    match (
        selected_markup_of(item, "span.artifact-id"@),
        selected_markup_of(item, "a.hash-button"@),
        selected_markup_of(item, "div.artifacts-list"@),
    ) {
        (Some(ids), Some(hashes), Some(lists)) => if lists.len() == 0 {
            Some(
                EntryView {
                    id_texts: first_element_texts(ids),
                    hash_texts: first_element_texts(hashes),
                    links: None,
                },
            )
        } else {
            match selected_markup_of(lists[0], "a.artifact-link"@) {
                Some(anchors) => Some(
                    EntryView {
                        id_texts: first_element_texts(ids),
                        hash_texts: first_element_texts(hashes),
                        links: Some(anchors.map_values(|a: Seq<char>| anchor_view(a))),
                    },
                ),
                None => None,
            }
        },
        _ => None,
    }
}

/// The entries of a list of items, in order; `None` where any item has none.
pub open spec fn items_entries(items: Seq<Seq<char>>) -> Option<Seq<EntryView>>
    decreases items.len(),
{
    if items.len() == 0 {
        Some(Seq::<EntryView>::empty())
    } else {
        match (items_entries(items.drop_last()), item_entry(items.last())) {
            (Some(prev), Some(e)) => Some(prev.push(e)),
            _ => None,
        }
    }
}

/// The build entries of the index page: the `div.artifact-item` elements of its
/// first `main` region. `None` where the page has no `main` region or a selector
/// cannot be used.
pub open spec fn index_entries(html: Seq<char>) -> Option<Seq<EntryView>> {
    match selected_markup_of(html, "main"@) {
        Some(mains) => if mains.len() == 0 {
            None
        } else {
            match selected_markup_of(mains[0], "div.artifact-item"@) {
                Some(items) => items_entries(items),
                None => None,
            }
        },
        None => None,
    }
}

/// The version token in an artifact name: the leftmost match of
/// `VERSION_TOKEN_PATTERN`.
pub fn version_token(name: &str) -> (r: Option<String>)
    ensures
        match r {
            Some(t) => regex_find_of(VERSION_TOKEN_PATTERN@, name@) == Some(t@),
            None => regex_find_of(VERSION_TOKEN_PATTERN@, name@) is None,
        },
{
    regex_find(VERSION_TOKEN_PATTERN, name)
}

fn first_version_token(links: &Vec<ArtifactLink>) -> (r: Option<String>)
    requires
        forall|k: int| 0 <= k < links@.len() ==> (#[trigger] links@[k]).texts@.len() > 0,
    ensures
        match r {
            Some(t) => first_token(links_view(links@)) == Some(t@),
            None => first_token(links_view(links@)) is None,
        },
{
    let ghost ls = links_view(links@);
    let mut i: usize = 0;
    assert(ls.skip(0) =~= ls);
    while i < links.len()
        invariant
            ls == links_view(links@),
            i <= ls.len(),
            forall|k: int| 0 <= k < links@.len() ==> (#[trigger] links@[k]).texts@.len() > 0,
            first_token(ls) == first_token(ls.skip(i as int)),
        decreases links.len() - i,
    {
        assert(ls.skip(i as int)[0] == ls[i as int]);
        assert(ls.skip(i as int).drop_first() =~= ls.skip(i + 1));
        assert(links@[i as int].texts@.len() > 0);
        assert(ls[i as int].texts[0] == links@[i as int].texts@[0]@);
        let found = version_token(links[i].texts[0].as_str());
        if found.is_some() {
            return found;
        }
        i = i + 1;
    }
    None
}

fn first_artifact_id(texts: &Vec<String>) -> (r: Option<usize>)
    ensures
        match r {
            Some(id) => first_id(strings_view(texts@)) == Some(id as nat),
            None => first_id(strings_view(texts@)) is None,
        },
{
    let ghost ts = strings_view(texts@);
    let mut i: usize = 0;
    assert(ts.skip(0) =~= ts);
    while i < texts.len()
        invariant
            ts == strings_view(texts@),
            i <= ts.len(),
            first_id(ts) == first_id(ts.skip(i as int)),
        decreases texts.len() - i,
    {
        assert(ts.skip(i as int)[0] == ts[i as int]);
        assert(ts.skip(i as int).drop_first() =~= ts.skip(i + 1));
        let cs = chars_of(texts[i].as_str());
        assert(cs@ == ts[i as int]);
        if cs.len() > 0 {
            let mut rest: Vec<char> = Vec::new();
            let mut j: usize = 1;
            while j < cs.len()
                invariant
                    1 <= j <= cs@.len(),
                    rest@ == cs@.subrange(1, j as int),
                decreases cs.len() - j,
            {
                rest.push(cs[j]);
                j = j + 1;
                assert(rest@ =~= cs@.subrange(1, j as int));
            }
            assert(rest@ =~= cs@.drop_first());
            if let Some(v) = parse_unsigned(&rest, usize::MAX as u64) {
                return Some(v as usize);
            }
        }
        i = i + 1;
    }
    None
}

/// Where the bleeding-edge index is and which builds to keep.
pub struct BuildsApi {
    pub base_url: String,
    pub min_build_id: Option<usize>,
}

impl BuildsApi {
    /// A client for the index under `base_url` that keeps every build.
    pub fn new(base_url: &str) -> (r: BuildsApi)
        ensures
            r.base_url@ == base_url@,
            r.min_build_id is None,
    {
        BuildsApi { base_url: String::from_str(base_url), min_build_id: None }
    }

    /// Replaces the index's base address; returns the client for chaining.
    pub fn set_base_url(&mut self, base_url: String) -> (r: &mut BuildsApi)
        ensures
            r.base_url == base_url,
            r.min_build_id == old(self).min_build_id,
            *final(self) == *final(r),
    {
        self.base_url = base_url;
        self
    }

    /// Replaces the minimum artifact id; returns the client for chaining.
    pub fn set_min_build_id(&mut self, min_build: Option<usize>) -> (r: &mut BuildsApi)
        ensures
            r.min_build_id == min_build,
            r.base_url == old(self).base_url,
            *final(self) == *final(r),
    {
        self.min_build_id = min_build;
        self
    }

    /// Whether the build is at or above the minimum artifact id.
    pub fn filter_builds(&self, build: &BuildsRelease) -> (r: bool)
        ensures
            r == keeps_build(self.min_build_id, build@),
    {
        match self.min_build_id {
            Some(build_id) => build.artifact_id >= build_id,
            None => true,
        }
    }

    /// The address of the index page.
    pub fn index_url(&self) -> (r: String)
        ensures
            r@ == self.base_url@ + "/projects/bepinex_be"@,
    {
        let mut out = chars_of(self.base_url.as_str());
        push_str(&mut out, "/projects/bepinex_be");
        string_of(&out)
    }

    /// A build from its parts once the version token of its links is known:
    /// malformed where no link carried one, or where `<token>+<hash>` is no
    /// semantic version with both a pre-release and build metadata.
    pub fn build_from_parts(
        &self,
        artifact_id: usize,
        hash: &str,
        assets: Vec<BuildsAsset>,
        token: Option<String>,
    ) -> (r: Result<BuildsRelease, FetchError>)
        ensures
            match token {
                Some(t) => match build_version(t@, hash@) {
                    Some(v) => r matches Ok(b) && b.artifact_id == artifact_id && b.version@ == v
                        && b.assets@ == assets@,
                    None => r == Err::<BuildsRelease, FetchError>(FetchError::MalformedSource),
                },
                None => r == Err::<BuildsRelease, FetchError>(FetchError::MalformedSource),
            },
    {
        match token {
            Some(t) => {
                let mut text = chars_of(t.as_str());
                push_str(&mut text, "+");
                push_str(&mut text, hash);
                let full = string_of(&text);
                assert(full@ == t@ + "+"@ + hash@);
                match semver_parse(full.as_str()) {
                    Some(version) => {
                        if version.pre.as_str().unicode_len() == 0
                            || version.build.as_str().unicode_len() == 0 {
                            return Err(FetchError::MalformedSource);
                        }
                        Ok(BuildsRelease { artifact_id, version, assets })
                    },
                    None => Err(FetchError::MalformedSource),
                }
            },
            None => Err(FetchError::MalformedSource),
        }
    }

    fn link_assets_exec(&self, links: &Vec<ArtifactLink>) -> (r: Option<Vec<BuildsAsset>>)
        ensures
            match r {
                Some(v) => link_assets(self.base_url@, links_view(links@)) == Some(
                    builds_assets_view(v@),
                ),
                None => link_assets(self.base_url@, links_view(links@)) is None,
            },
    {
        let ghost ls = links_view(links@);
        let mut out: Vec<BuildsAsset> = Vec::new();
        let mut i: usize = 0;
        assert(ls.subrange(0, 0) =~= Seq::<LinkView>::empty());
        while i < links.len()
            invariant
                ls == links_view(links@),
                i <= ls.len(),
                link_assets(self.base_url@, ls.subrange(0, i as int)) == Some(
                    builds_assets_view(out@),
                ),
            decreases links.len() - i,
        {
            let l = &links[i];
            assert(ls.subrange(0, i + 1).drop_last() =~= ls.subrange(0, i as int));
            assert(ls.subrange(0, i + 1).last() == l@);
            let href = match &l.href {
                Some(h) => h,
                None => {
                    proof {
                        lemma_link_assets_prefix_none(self.base_url@, ls, i + 1);
                    }
                    return None;
                },
            };
            if l.texts.len() == 0 {
                proof {
                    lemma_link_assets_prefix_none(self.base_url@, ls, i + 1);
                }
                return None;
            }
            let mut loc = chars_of(self.base_url.as_str());
            push_str(&mut loc, href.as_str());
            let asset = BuildsAsset { name: l.texts[0].clone(), link: string_of(&loc) };
            out.push(asset);
            assert(builds_assets_view(out@) =~= builds_assets_view(out@.drop_last()).push(
                asset@,
            ));
            i = i + 1;
        }
        assert(ls.subrange(0, ls.len() as int) =~= ls);
        Some(out)
    }

    /// The build one index entry describes.
    pub fn build_from_entry(&self, entry: &ArtifactEntry) -> (r: Result<BuildsRelease, FetchError>)
        ensures
            match r {
                Ok(b) => entry_outcome(self.base_url@, entry@) == Ok::<BuildView, FetchError>(b@),
                Err(e) => entry_outcome(self.base_url@, entry@) == Err::<BuildView, FetchError>(e),
            },
    {
        let ids = match &entry.id_texts {
            Some(t) => t,
            None => {
                return Err(FetchError::MalformedSource);
            },
        };
        let hashes = match &entry.hash_texts {
            Some(t) => t,
            None => {
                return Err(FetchError::MalformedSource);
            },
        };
        let links = match &entry.links {
            Some(t) => t,
            None => {
                return Err(FetchError::MalformedSource);
            },
        };
        let id = match first_artifact_id(ids) {
            Some(id) => id,
            None => {
                return Err(FetchError::MalformedSource);
            },
        };
        let assets = match self.link_assets_exec(links) {
            Some(a) => a,
            None => {
                return Err(FetchError::MalformedSource);
            },
        };
        if hashes.len() == 0 {
            return Err(FetchError::MalformedSource);
        }
        proof {
            lemma_link_assets_texts(self.base_url@, links_view(links@));
            assert forall|k: int| 0 <= k < links@.len() implies (#[trigger] links@[k]).texts@.len()
                > 0 by {
                assert(links_view(links@)[k].texts.len() == links@[k].texts@.len());
            }
        }
        let token = first_version_token(links);
        assert(strings_view(hashes@)[0] == hashes@[0]@);
        self.build_from_parts(id, hashes[0].as_str(), assets, token)
    }

    /// The builds a list of index entries describes, those below the minimum
    /// artifact id left out; malformed where any entry is.
    pub fn builds_from_entries(&self, entries: &Vec<ArtifactEntry>) -> (r: Result<
        Vec<BuildsRelease>,
        FetchError,
    >)
        ensures
            match r {
                Ok(v) => index_outcome(self.base_url@, self.min_build_id, entries_view(entries@))
                    == Ok::<Seq<BuildView>, FetchError>(builds_view(v@)),
                Err(e) => index_outcome(self.base_url@, self.min_build_id, entries_view(entries@))
                    == Err::<Seq<BuildView>, FetchError>(e),
            },
    {
        let ghost es = entries_view(entries@);
        let ghost f = |b: BuildView| keeps_build(self.min_build_id, b);
        let ghost mut all: Seq<BuildView> = Seq::empty();
        let mut out: Vec<BuildsRelease> = Vec::new();
        let mut i: usize = 0;
        assert(es.subrange(0, 0) =~= Seq::<EntryView>::empty());
        assert(all.filter(f) =~= Seq::<BuildView>::empty());
        while i < entries.len()
            invariant
                es == entries_view(entries@),
                i <= es.len(),
                f == (|b: BuildView| keeps_build(self.min_build_id, b)),
                entries_outcome(self.base_url@, es.subrange(0, i as int)) == Ok::<
                    Seq<BuildView>,
                    FetchError,
                >(all),
                builds_view(out@) == all.filter(f),
            decreases entries.len() - i,
        {
            assert(es.subrange(0, i + 1).drop_last() =~= es.subrange(0, i as int));
            assert(es.subrange(0, i + 1).last() == entries@[i as int]@);
            let b = match self.build_from_entry(&entries[i]) {
                Ok(b) => b,
                Err(e) => {
                    proof {
                        lemma_entries_prefix_err(self.base_url@, es, i + 1);
                    }
                    return Err(e);
                },
            };
            proof {
                all.lemma_filter_push(b@, f);
                all = all.push(b@);
            }
            if self.filter_builds(&b) {
                let ghost bv = b@;
                out.push(b);
                assert(builds_view(out@) =~= builds_view(out@.drop_last()).push(bv));
            }
            i = i + 1;
        }
        assert(es.subrange(0, es.len() as int) =~= es);
        Ok(out)
    }

    /// The builds the index page `html` lists, those below the minimum artifact
    /// id left out. Malformed where the page has no `main` region, a selector
    /// cannot be used, or any entry is malformed (see `builds_from_entries`).
    pub fn parse_index(&self, html: &str) -> (r: Result<Vec<BuildsRelease>, FetchError>)
        ensures
            match index_entries(html@) {
                None => r == Err::<Vec<BuildsRelease>, FetchError>(FetchError::MalformedSource),
                Some(es) => match index_outcome(self.base_url@, self.min_build_id, es) {
                    Ok(bs) => r matches Ok(v) && builds_view(v@) == bs,
                    Err(e) => r == Err::<Vec<BuildsRelease>, FetchError>(e),
                },
            },
    {
        let entries = match scrape_index(html) {
            Some(es) => es,
            None => {
                return Err(FetchError::MalformedSource);
            },
        };
        self.builds_from_entries(&entries)
    }
}

proof fn lemma_link_assets_prefix_none(base: Seq<char>, ls: Seq<LinkView>, n: int)
    requires
        0 <= n <= ls.len(),
        link_assets(base, ls.subrange(0, n)) is None,
    ensures
        link_assets(base, ls) is None,
    decreases ls.len() - n,
{
    if n < ls.len() {
        assert(ls.subrange(0, n + 1).drop_last() =~= ls.subrange(0, n));
        lemma_link_assets_prefix_none(base, ls, n + 1);
    } else {
        assert(ls.subrange(0, n) =~= ls);
    }
}

proof fn lemma_link_assets_texts(base: Seq<char>, ls: Seq<LinkView>)
    requires
        link_assets(base, ls) is Some,
    ensures
        forall|k: int| 0 <= k < ls.len() ==> (#[trigger] ls[k]).texts.len() > 0,
    decreases ls.len(),
{
    if ls.len() > 0 {
        lemma_link_assets_texts(base, ls.drop_last());
        assert forall|k: int| 0 <= k < ls.len() implies (#[trigger] ls[k]).texts.len() > 0 by {
            if k < ls.len() - 1 {
                assert(ls[k] == ls.drop_last()[k]);
            }
        }
    }
}

proof fn lemma_entries_prefix_err(base: Seq<char>, es: Seq<EntryView>, n: int)
    requires
        0 <= n <= es.len(),
        entries_outcome(base, es.subrange(0, n)) is Err,
    ensures
        entries_outcome(base, es) == entries_outcome(base, es.subrange(0, n)),
    decreases es.len() - n,
{
    if n < es.len() {
        assert(es.subrange(0, n + 1).drop_last() =~= es.subrange(0, n));
        lemma_entries_prefix_err(base, es, n + 1);
    } else {
        assert(es.subrange(0, n) =~= es);
    }
}

proof fn lemma_items_prefix_none(items: Seq<Seq<char>>, n: int)
    requires
        0 <= n <= items.len(),
        items_entries(items.subrange(0, n)) is None,
    ensures
        items_entries(items) is None,
    decreases items.len() - n,
{
    if n < items.len() {
        assert(items.subrange(0, n + 1).drop_last() =~= items.subrange(0, n));
        lemma_items_prefix_none(items, n + 1);
    } else {
        assert(items.subrange(0, n) =~= items);
    }
}

/// The texts of the first of `elements`, `None` where there is none.
fn first_texts(elements: &Vec<String>) -> (r: Option<Vec<String>>)
    ensures
        opt_strings_view(r) == first_element_texts(strings_view(elements@)),
{
    if elements.len() > 0 {
        assert(strings_view(elements@)[0] == elements@[0]@);
        Some(fragment_texts(elements[0].as_str()))
    } else {
        None
    }
}

/// One `div.artifact-item` as plain values (see `item_entry`).
fn scrape_item(item: &str) -> (r: Option<ArtifactEntry>)
    ensures
        match r {
            Some(e) => item_entry(item@) == Some(e@),
            None => item_entry(item@) is None,
        },
{
    let ids = select_markup(item, "span.artifact-id");
    let hashes = select_markup(item, "a.hash-button");
    let lists = select_markup(item, "div.artifacts-list");
    match (ids, hashes, lists) {
        (Some(ids), Some(hashes), Some(lists)) => {
            let id_texts = first_texts(&ids);
            let hash_texts = first_texts(&hashes);
            if lists.len() == 0 {
                return Some(ArtifactEntry { id_texts, hash_texts, links: None });
            }
            assert(strings_view(lists@)[0] == lists@[0]@);
            let anchors = match select_markup(lists[0].as_str(), "a.artifact-link") {
                Some(a) => a,
                None => {
                    return None;
                },
            };
            let ghost av = strings_view(anchors@);
            let mut links: Vec<ArtifactLink> = Vec::new();
            let mut j: usize = 0;
            while j < anchors.len()
                invariant
                    av == strings_view(anchors@),
                    j <= anchors@.len(),
                    links@.len() == j,
                    forall|k: int| 0 <= k < j ==> (#[trigger] links@[k])@ == anchor_view(av[k]),
                decreases anchors.len() - j,
            {
                let a = anchors[j].as_str();
                assert(av[j as int] == a@);
                let link = ArtifactLink {
                    href: first_element_attr(a, "href"),
                    texts: fragment_texts(a),
                };
                links.push(link);
                j = j + 1;
            }
            let entry = ArtifactEntry { id_texts, hash_texts, links: Some(links) };
            assert(links_view(links@) =~= av.map_values(|a: Seq<char>| anchor_view(a)));
            Some(entry)
        },
        _ => None,
    }
}

/// The entries of the index page as plain values (see `index_entries`).
fn scrape_index(html: &str) -> (r: Option<Vec<ArtifactEntry>>)
    ensures
        match r {
            Some(es) => index_entries(html@) == Some(entries_view(es@)),
            None => index_entries(html@) is None,
        },
{
    let mains = match select_markup(html, "main") {
        Some(m) => m,
        None => {
            return None;
        },
    };
    if mains.len() == 0 {
        return None;
    }
    assert(strings_view(mains@)[0] == mains@[0]@);
    let items = match select_markup(mains[0].as_str(), "div.artifact-item") {
        Some(i) => i,
        None => {
            return None;
        },
    };
    let ghost iv = strings_view(items@);
    let mut entries: Vec<ArtifactEntry> = Vec::new();
    let mut i: usize = 0;
    assert(iv.subrange(0, 0) =~= Seq::<Seq<char>>::empty());
    assert(entries_view(entries@) =~= Seq::<EntryView>::empty());
    assert(index_entries(html@) == items_entries(iv));
    while i < items.len()
        invariant
            iv == strings_view(items@),
            index_entries(html@) == items_entries(iv),
            i <= iv.len(),
            items_entries(iv.subrange(0, i as int)) == Some(entries_view(entries@)),
        decreases items.len() - i,
    {
        assert(iv.subrange(0, i + 1).drop_last() =~= iv.subrange(0, i as int));
        assert(iv.subrange(0, i + 1).last() == items@[i as int]@);
        let e = match scrape_item(items[i].as_str()) {
            Some(e) => e,
            None => {
                proof {
                    lemma_items_prefix_none(iv, i + 1);
                }
                return None;
            },
        };
        let ghost ev = e@;
        entries.push(e);
        assert(entries_view(entries@) =~= entries_view(entries@.drop_last()).push(ev));
        i = i + 1;
    }
    assert(iv.subrange(0, iv.len() as int) =~= iv);
    Some(entries)
}

} // verus!
