//! The stable channel: a paginated release feed. The library decides which page
//! to ask for next, when the feed is exhausted, and which releases to keep; the
//! caller performs the requests.
use vstd::prelude::*;
use crate::text::{push_decimal, push_str, string_of, decimal_text};
use crate::version::{version_lt, Version};

verus! {

/// Why a source could not contribute its releases.
#[derive(Debug, Clone, Copy, PartialEq, Eq, Structural)]
pub enum FetchError {
    /// A request failed: the whole fetch of that source is abandoned.
    TransportFailure,
    /// A response arrived but did not have the expected shape.
    MalformedSource,
}

/// The number of releases asked for per page.
pub const PAGE_SIZE: u32 = 100;

/// A downloadable file as the feed lists it.
#[derive(Debug)]
pub struct GitHubAsset {
    pub name: String,
    pub browser_download_url: String,
}

/// A release as the feed lists it, its tag already read as a version.
#[derive(Debug)]
pub struct GitHubRelease {
    pub pre_release: bool,
    pub tag_name: Version,
    pub assets: Vec<GitHubAsset>,
}

/// Where the feed is and what to keep of it.
pub struct GitHubApi {
    pub owner: String,
    pub repo: String,
    pub pre_releases: bool,
    pub min_tag: Option<Version>,
}

/// Whether `api` keeps `rel`: pre-releases only when asked for, and nothing of
/// lower precedence than the minimum tag.
pub open spec fn keeps(api: GitHubApi, rel: GitHubRelease) -> bool {
    &&& api.pre_releases || !rel.pre_release
    &&& match api.min_tag {
        Some(t) => !version_lt(rel.tag_name@, t@),
        None => true,
    }
}

pub open spec fn page_url_text(
    owner: Seq<char>,
    repo: Seq<char>,
    per_page: u32,
    page: u32,
) -> Seq<char> {
    "https://api.github.com/repos/"@ + owner + "/"@ + repo + "/releases?per_page="@
        + decimal_text(per_page as nat) + "&page="@ + decimal_text(page as nat)
}

impl GitHubApi {
    /// A client for `owner/repo` that keeps stable releases only, of any version.
    pub fn new(owner: &str, repo: &str) -> (r: GitHubApi)
        ensures
            r.owner@ == owner@,
            r.repo@ == repo@,
            !r.pre_releases,
            r.min_tag is None,
    {
        GitHubApi {
            owner: String::from_str(owner),
            repo: String::from_str(repo),
            pre_releases: false,
            min_tag: None,
        }
    }

    /// Whether pre-releases are kept; returns the client for chaining.
    pub fn set_pre_releases(&mut self, pre_releases: bool) -> (r: &mut GitHubApi)
        ensures
            r.pre_releases == pre_releases,
            r.owner == old(self).owner,
            r.repo == old(self).repo,
            r.min_tag == old(self).min_tag,
            *final(self) == *final(r),
    {
        self.pre_releases = pre_releases;
        self
    }

    /// The lowest version kept; returns the client for chaining.
    pub fn set_min_tag(&mut self, min_tag: Option<Version>) -> (r: &mut GitHubApi)
        ensures
            r.min_tag == min_tag,
            r.owner == old(self).owner,
            r.repo == old(self).repo,
            r.pre_releases == old(self).pre_releases,
            *final(self) == *final(r),
    {
        self.min_tag = min_tag;
        self
    }

    /// Whether the release is kept (see `keeps`).
    pub fn filter_release(&self, release: &GitHubRelease) -> (r: bool)
        ensures
            r == keeps(*self, *release),
    {
        if !self.pre_releases && release.pre_release {
            return false;
        }
        match &self.min_tag {
            Some(tag) => release.tag_name.at_least(tag),
            None => true,
        }
    }

    /// The address of one page of the feed.
    pub fn release_page_url(&self, per_page: u32, page: u32) -> (r: String)
        ensures
            r@ == page_url_text(self.owner@, self.repo@, per_page, page),
    {
        let mut out: Vec<char> = Vec::new();
        push_str(&mut out, "https://api.github.com/repos/");
        push_str(&mut out, self.owner.as_str());
        push_str(&mut out, "/");
        push_str(&mut out, self.repo.as_str());
        push_str(&mut out, "/releases?per_page=");
        push_decimal(&mut out, per_page as u64);
        push_str(&mut out, "&page=");
        push_decimal(&mut out, page as u64);
        string_of(&out)
    }

    /// The releases of a completed fetch that this client keeps, in feed order.
    /// A failed fetch stays failed; a kept release without assets makes the
    /// feed malformed.
    pub fn finish(&self, pager: FeedPager) -> (r: Result<Vec<GitHubRelease>, FetchError>)
        requires
            pager.state != PagerState::Fetching,
        ensures
            pager.state matches PagerState::Failed(e) ==> r == Err::<Vec<GitHubRelease>, FetchError>(
                e,
            ),
            pager.state == PagerState::Finished ==> match r {
                Ok(v) => v@ == pager.releases@.filter(|x: GitHubRelease| keeps(*self, x))
                    && forall|k: int| 0 <= k < v@.len() ==> (#[trigger] v@[k]).assets@.len() > 0,
                Err(e) => e == FetchError::MalformedSource && exists|k: int|
                    0 <= k < pager.releases@.len() && keeps(*self, #[trigger] pager.releases@[k])
                        && pager.releases@[k].assets@.len() == 0,
            },
    {
        if let PagerState::Failed(e) = pager.state {
            return Err(e);
        }
        let ghost all = pager.releases@;
        let mut src = pager.releases;
        let n = src.len();
        let mut out: Vec<GitHubRelease> = Vec::new();
        let mut k: usize = 0;
        let ghost f = |x: GitHubRelease| keeps(*self, x);
        assert(all.skip(0) =~= all);
        assert(all.take(0).filter(f) =~= Seq::<GitHubRelease>::empty());
        while src.len() > 0
            invariant
                pager.state == PagerState::Finished,
                all == pager.releases@,
                all.len() == n,
                k <= all.len(),
                src@ == all.skip(k as int),
                out@ == all.take(k as int).filter(f),
                f == (|x: GitHubRelease| keeps(*self, x)),
                forall|j: int| 0 <= j < out@.len() ==> (#[trigger] out@[j]).assets@.len() > 0,
            decreases src.len(),
        {
            let x = src.remove(0);
            proof {
                assert(x == all[k as int]);
                assert(all.take(k + 1) =~= all.take(k as int).push(x));
                all.take(k as int).lemma_filter_push(x, f);
                assert(src@ =~= all.skip(k + 1));
            }
            if self.filter_release(&x) {
                if x.assets.len() == 0 {
                    assert(keeps(*self, pager.releases@[k as int]));
                    assert(pager.releases@[k as int].assets@.len() == 0);
                    return Err(FetchError::MalformedSource);
                }
                out.push(x);
            }
            k = k + 1;
        }
        assert(all.take(k as int) =~= all);
        Ok(out)
    }
}

/// Where a page-by-page fetch stands.
#[derive(Debug, Clone, Copy, PartialEq, Eq, Structural)]
pub enum PagerState {
    /// More pages are to be asked for.
    Fetching,
    /// An empty page arrived: every release has been received.
    Finished,
    /// A request failed, or its answer had the wrong shape: nothing received
    /// counts.
    Failed(FetchError),
}

/// The state of a page-by-page fetch of the feed: pages are asked for from 1 up
/// until one comes back empty; one failed request fails the whole fetch with
/// that request's error.
pub struct FeedPager {
    pub next_page: u32,
    pub releases: Vec<GitHubRelease>,
    pub state: PagerState,
}

impl FeedPager {
    pub fn new() -> (r: FeedPager)
        ensures
            r.next_page == 1,
            r.releases@.len() == 0,
            r.state == PagerState::Fetching,
    {
        FeedPager { next_page: 1, releases: Vec::new(), state: PagerState::Fetching }
    }

    /// The page to ask for next; `None` once the fetch has ended.
    pub fn next_request(&self) -> (r: Option<u32>)
        ensures
            self.state == PagerState::Fetching ==> r == Some(self.next_page),
            self.state != PagerState::Fetching ==> r is None,
    {
        if self.state == PagerState::Fetching {
            Some(self.next_page)
        } else {
            None
        }
    }

    /// Takes in the answer to the request for `next_page`: an error where the
    /// request failed or its answer could not be read. An empty page ends the fetch; any other is appended and
    /// the next page is asked for (the fetch ends at the last page number a
    /// `u32` can hold).
    pub fn receive(&mut self, page: Result<Vec<GitHubRelease>, FetchError>)
        requires
            old(self).state == PagerState::Fetching,
        ensures
            match page {
                Err(e) => final(self).state == PagerState::Failed(e) && final(self).releases@
                    == old(self).releases@,
                Ok(items) => if items@.len() == 0 {
                    final(self).state == PagerState::Finished && final(self).releases@ == old(
                        self,
                    ).releases@
                } else {
                    &&& final(self).releases@ == old(self).releases@ + items@
                    &&& old(self).next_page < u32::MAX ==> final(self).state
                        == PagerState::Fetching && final(self).next_page == old(self).next_page
                        + 1
                    &&& old(self).next_page == u32::MAX ==> final(self).state
                        == PagerState::Finished
                },
            },
    {
        match page {
            Err(e) => {
                self.state = PagerState::Failed(e);
            },
            Ok(items) => {
                if items.len() == 0 {
                    self.state = PagerState::Finished;
                } else {
                    let mut items = items;
                    self.releases.append(&mut items);
                    if self.next_page < u32::MAX {
                        self.next_page = self.next_page + 1;
                    } else {
                        self.state = PagerState::Finished;
                    }
                }
            },
        }
    }
}

} // verus!
