//! The traversal: a walk over the site, depth first and in document order,
//! bounded by a depth and by a budget of pages.
//!
//! The walk is a state machine. It names the one thing to do next (fetch a
//! page, report an image, write a checkpoint) and is handed the outcome; the
//! caller does the fetching, reporting and writing. A page whose fetch fails
//! is not recorded, and nothing is followed from it.

use crate::crawl::parse::{
    extract_wikipedia_HTML, page_extraction, ExtractionView, HTMLExtractionResult,
};
use crate::crawl::visited::VisitedStore;
use vstd::prelude::*;

verus! {

/// A checkpoint is due whenever the number of visited pages is a multiple of
/// this.
pub const ROTATION_INTERVAL: usize = 500;

/// A fetched page whose links are being walked.
pub struct FrameView {
    /// The page's URL.
    pub url: Seq<char>,
    /// How many links lead from the seed to the page.
    pub depth: nat,
    /// The links to follow from the page, in document order.
    pub links: Seq<Seq<char>>,
    /// How many of the links have been dealt with.
    pub next: nat,
}

/// What the walk waits for.
pub enum PhaseView {
    /// The outcome of fetching `url`, which lies `depth` links from the seed.
    Fetching { url: Seq<char>, depth: nat },
    /// The outcome of reporting image `next` of `images`, which are those of
    /// the page fetched last.
    Notifying { images: Seq<Seq<char>>, next: nat },
    /// The outcome of writing a checkpoint.
    Saving,
    /// Nothing: the walk is over.
    Finished,
}

/// What the caller is to do next.
pub enum ActionView {
    Fetch { url: Seq<char> },
    Notify { image_url: Seq<char>, page_url: Seq<char> },
    SaveCheckpoint,
    Done,
}

/// What came of the action that the walk asked for.
pub enum OutcomeView {
    /// The page came, and this is what was taken from it.
    Fetched(ExtractionView),
    /// The page did not come.
    FetchFailed,
    /// The image was reported, or reporting it failed: the walk goes on
    /// either way.
    Notified,
    /// The checkpoint was written, or writing it failed: the walk goes on
    /// either way.
    Saved,
}

/// The walk at one moment.
pub struct CrawlerView {
    /// The pages fetched so far, in the order in which they were first
    /// fetched.
    pub visited: Seq<Seq<char>>,
    /// Pages this many links from the seed, or more, are not fetched.
    pub max_depth: nat,
    /// Once this many pages are visited, nothing more is fetched.
    pub max_pages: nat,
    /// The pages whose links are being walked, the seed's first.
    pub stack: Seq<FrameView>,
    /// What the walk waits for.
    pub phase: PhaseView,
}

impl CrawlerView {
    /// A page at this depth may be fetched now: both bounds leave room.
    pub open spec fn may_fetch(self, depth: nat) -> bool {
        depth < self.max_depth && self.visited.len() < self.max_pages
    }

    /// The visited pages once `url` is recorded: as before where it is among
    /// them already.
    pub open spec fn recorded(self, url: Seq<char>) -> Seq<Seq<char>> {
        if self.visited.contains(url) {
            self.visited
        } else {
            self.visited.push(url)
        }
    }

    /// What the caller is to do in this state.
    pub open spec fn pending(self) -> ActionView {
        match self.phase {
            PhaseView::Fetching { url, depth } => ActionView::Fetch { url },
            PhaseView::Notifying { images, next } => ActionView::Notify {
                image_url: images[next as int],
                page_url: self.stack.last().url,
            },
            PhaseView::Saving => ActionView::SaveCheckpoint,
            PhaseView::Finished => ActionView::Done,
        }
    }

    /// The links of the innermost page that are still to be dealt with.
    pub open spec fn links_left(self) -> nat {
        if self.stack.len() > 0 && self.stack.last().next <= self.stack.last().links.len() {
            (self.stack.last().links.len() - self.stack.last().next) as nat
        } else {
            0
        }
    }

    /// With the innermost page left behind.
    pub open spec fn leave(self) -> CrawlerView {
        CrawlerView { stack: self.stack.drop_last(), ..self }
    }

    /// With the next link of the innermost page dealt with.
    pub open spec fn take_link(self) -> CrawlerView {
        let top = self.stack.last();
        CrawlerView {
            stack: self.stack.drop_last().push(FrameView { next: top.next + 1, ..top }),
            ..self
        }
    }

    /// Goes on with the links of the pages being walked, innermost first: the
    /// next link that is not visited yet, and that both bounds let through,
    /// is the one to fetch. A page whose links are used up is left; when the
    /// seed's page is left the walk is over.
    pub open spec fn resume(self) -> CrawlerView
        decreases self.stack.len(), self.links_left(),
    {
        if self.stack.len() == 0 {
            CrawlerView { phase: PhaseView::Finished, ..self }
        } else {
            let top = self.stack.last();
            if top.next >= top.links.len() {
                self.leave().resume()
            } else {
                let link = top.links[top.next as int];
                if !self.visited.contains(link) && self.may_fetch(top.depth + 1) {
                    CrawlerView {
                        phase: PhaseView::Fetching { url: link, depth: top.depth + 1 },
                        ..self.take_link()
                    }
                } else {
                    self.take_link().resume()
                }
            }
        }
    }

    /// With every image of the page reported: a checkpoint is due if the
    /// number of visited pages is a multiple of the rotation interval;
    /// otherwise the page's links are next.
    pub open spec fn after_images(self) -> CrawlerView {
        if self.visited.len() % (ROTATION_INTERVAL as nat) == 0 {
            CrawlerView { phase: PhaseView::Saving, ..self }
        } else {
            self.resume()
        }
    }

    /// With the page's images reported up to `next`: the next image is to be
    /// reported, if there is one.
    pub open spec fn next_image(self) -> CrawlerView {
        match self.phase {
            PhaseView::Notifying { images, next } => if next < images.len() {
                self
            } else {
                self.after_images()
            },
            _ => self,
        }
    }

    /// With the page at `url` fetched: the page is recorded as visited and
    /// becomes the innermost page being walked, none of its images reported
    /// yet.
    pub open spec fn entered(self, url: Seq<char>, depth: nat, page: ExtractionView) -> CrawlerView {
        CrawlerView {
            visited: self.recorded(url),
            stack: self.stack.push(FrameView { url, depth, links: page.page_links, next: 0 }),
            phase: PhaseView::Notifying { images: page.image_links, next: 0 },
            ..self
        }
    }

    /// The walk waits for `outcome`: it is an outcome of the pending action.
    pub open spec fn awaits(self, outcome: OutcomeView) -> bool {
        match self.phase {
            PhaseView::Fetching { url, depth } => outcome is Fetched || outcome is FetchFailed,
            PhaseView::Notifying { images, next } => outcome is Notified,
            PhaseView::Saving => outcome is Saved,
            PhaseView::Finished => false,
        }
    }

    /// The state after `outcome`. An outcome that the walk does not wait for
    /// changes nothing.
    pub open spec fn step(self, outcome: OutcomeView) -> CrawlerView {
        match (self.phase, outcome) {
            (PhaseView::Fetching { url, depth }, OutcomeView::Fetched(page)) => self.entered(
                url,
                depth,
                page,
            ).next_image(),
            (PhaseView::Fetching { url, depth }, OutcomeView::FetchFailed) => self.resume(),
            (PhaseView::Notifying { images, next }, OutcomeView::Notified) => CrawlerView {
                phase: PhaseView::Notifying { images, next: next + 1 },
                ..self
            }.next_image(),
            (PhaseView::Saving, OutcomeView::Saved) => self.resume(),
            _ => self,
        }
    }

    /// The state after each of `outcomes` in turn.
    pub open spec fn run(self, outcomes: Seq<OutcomeView>) -> CrawlerView
        decreases outcomes.len(),
    {
        if outcomes.len() == 0 {
            self
        } else {
            self.run(outcomes.drop_last()).step(outcomes.last())
        }
    }

    /// The pages being walked are in order: each lies one link deeper than
    /// the one before it, the seed's at depth 0, none at the depth bound or
    /// beyond; each is visited; and no page is visited twice.
    pub open spec fn wf_frames(self) -> bool {
        &&& self.visited.no_duplicates()
        &&& self.stack.len() <= self.max_depth
        &&& forall|i: int|
            0 <= i < self.stack.len() ==> {
                &&& (#[trigger] self.stack[i]).depth == i
                &&& self.stack[i].next <= self.stack[i].links.len()
                &&& self.visited.contains(self.stack[i].url)
            }
    }

    /// What the walk waits for fits the pages being walked.
    pub open spec fn wf_phase(self) -> bool {
        match self.phase {
            PhaseView::Fetching { url, depth } => depth == self.stack.len() && self.may_fetch(depth),
            PhaseView::Notifying { images, next } => self.stack.len() > 0 && next < images.len(),
            PhaseView::Saving => self.stack.len() > 0,
            PhaseView::Finished => self.stack.len() == 0,
        }
    }

    /// The state is one that a walk can be in.
    pub open spec fn wf(self) -> bool {
        self.wf_frames() && self.wf_phase()
    }

    /// The visited pages of `self` begin with those of `earlier`, and the
    /// bounds are the same: nothing was forgotten.
    pub open spec fn extends(self, earlier: CrawlerView) -> bool {
        &&& earlier.visited.is_prefix_of(self.visited)
        &&& self.max_depth == earlier.max_depth
        &&& self.max_pages == earlier.max_pages
    }
}

/// The state in which a walk from `seed` begins, with `visited` known from an
/// earlier run: the seed is the page to fetch, unless a bound forbids even
/// that.
pub open spec fn start(
    seed: Seq<char>,
    visited: Seq<Seq<char>>,
    max_depth: nat,
    max_pages: nat,
) -> CrawlerView {
    let idle = CrawlerView {
        visited,
        max_depth,
        max_pages,
        stack: Seq::empty(),
        phase: PhaseView::Finished,
    };
    if idle.may_fetch(0) {
        CrawlerView { phase: PhaseView::Fetching { url: seed, depth: 0 }, ..idle }
    } else {
        idle
    }
}

/// A walk begins in a state that a walk can be in, whatever the seed and the
/// bounds, if no page is twice among those known from earlier runs.
pub proof fn lemma_start(seed: Seq<char>, visited: Seq<Seq<char>>, max_depth: nat, max_pages: nat)
    requires
        visited.no_duplicates(),
    ensures
        start(seed, visited, max_depth, max_pages).wf(),
        start(seed, visited, max_depth, max_pages).visited == visited,
        start(seed, visited, max_depth, max_pages).max_depth == max_depth,
        start(seed, visited, max_depth, max_pages).max_pages == max_pages,
{
}

/// Leaving the innermost page keeps the others in order.
pub proof fn lemma_leave(s: CrawlerView)
    requires
        s.wf_frames(),
        s.stack.len() > 0,
    ensures
        s.leave().wf_frames(),
{
    assert forall|i: int| 0 <= i < s.leave().stack.len() implies s.leave().stack[i] == s.stack[i] by {}
}

/// Taking a link of the innermost page keeps the pages in order.
pub proof fn lemma_take_link(s: CrawlerView)
    requires
        s.wf_frames(),
        s.stack.len() > 0,
        s.stack.last().next < s.stack.last().links.len(),
    ensures
        s.take_link().wf_frames(),
{
    let last = s.stack.len() - 1;
    assert forall|i: int| 0 <= i < last implies s.take_link().stack[i] == s.stack[i] by {}
    assert(s.take_link().stack[last].url == s.stack[last].url);
}

/// Entering the page that was asked for keeps the pages in order, records
/// the page and no other, and stays within the budget.
pub proof fn lemma_entered(s: CrawlerView, page: ExtractionView)
    requires
        s.wf(),
        s.phase is Fetching,
    ensures
        ({
            let after = s.entered(s.phase->url, s.phase->depth, page);
            &&& after.wf_frames()
            &&& after.stack.len() > 0
            &&& s.visited.is_prefix_of(after.visited)
            &&& after.visited.len() <= s.visited.len() + 1
            &&& after.visited.len() <= s.max_pages
        }),
{
    let after = s.entered(s.phase->url, s.phase->depth, page);
    lemma_recorded(s.visited, s.phase->url);
    assert forall|i: int| 0 <= i < s.stack.len() implies after.stack[i] == s.stack[i]
        && after.visited.contains(s.stack[i].url) by {
        let at = choose|k: int| 0 <= k < s.visited.len() && s.visited[k] == s.stack[i].url;
        assert(after.visited[at] == s.stack[i].url);
    }
}

/// Going on with the links keeps the pages being walked in order, visits
/// nothing, and ends in a state that a walk can be in.
pub proof fn lemma_resume(s: CrawlerView)
    requires
        s.wf_frames(),
    ensures
        s.resume().wf(),
        s.resume().visited == s.visited,
        s.resume().max_depth == s.max_depth,
        s.resume().max_pages == s.max_pages,
        s.resume().phase matches PhaseView::Fetching { url, depth } ==> !s.visited.contains(url),
    decreases s.stack.len(), s.links_left(),
{
    if s.stack.len() > 0 {
        let top = s.stack.last();
        if top.next >= top.links.len() {
            lemma_leave(s);
            lemma_resume(s.leave());
        } else {
            lemma_take_link(s);
            if s.visited.contains(top.links[top.next as int]) || !s.may_fetch(top.depth + 1) {
                lemma_resume(s.take_link());
            }
        }
    }
}

/// One step keeps a walk's state in order. It forgets no visited page and
/// visits at most one more; where it visits one, the budget had room for it.
/// The one page that a step can record is the page that was asked for, when
/// it came: a page that did not come is not recorded.
pub proof fn lemma_step(s: CrawlerView, outcome: OutcomeView)
    requires
        s.wf(),
    ensures
        s.step(outcome).wf(),
        s.step(outcome).extends(s),
        s.step(outcome).visited.len() <= s.visited.len() + 1,
        s.step(outcome).visited.len() > s.visited.len() ==> s.visited.len() < s.max_pages,
        s.step(outcome).visited == match (s.phase, outcome) {
            (PhaseView::Fetching { url, depth }, OutcomeView::Fetched(page)) => s.recorded(url),
            _ => s.visited,
        },
{
    match (s.phase, outcome) {
        (PhaseView::Fetching { url, depth }, OutcomeView::Fetched(page)) => {
            lemma_entered(s, page);
            lemma_next_image(s.entered(url, depth, page));
        },
        (PhaseView::Fetching { url, depth }, OutcomeView::FetchFailed) => {
            lemma_resume(s);
        },
        (PhaseView::Notifying { images, next }, OutcomeView::Notified) => {
            lemma_next_image(
                CrawlerView { phase: PhaseView::Notifying { images, next: next + 1 }, ..s },
            );
        },
        (PhaseView::Saving, OutcomeView::Saved) => {
            lemma_resume(s);
        },
        _ => {},
    }
}

/// No page is fetched twice: whenever an outcome that the walk waited for
/// makes it ask for a page, that page is not visited yet, and both bounds
/// leave room for it.
pub proof fn lemma_step_fetches_unvisited(s: CrawlerView, outcome: OutcomeView)
    requires
        s.wf(),
        s.awaits(outcome),
    ensures
        s.step(outcome).phase matches PhaseView::Fetching { url, depth } ==> {
            &&& !s.step(outcome).visited.contains(url)
            &&& s.step(outcome).may_fetch(depth)
        },
{
    lemma_step(s, outcome);
    match (s.phase, outcome) {
        (PhaseView::Fetching { url, depth }, OutcomeView::Fetched(page)) => {
            lemma_entered(s, page);
            lemma_next_image(s.entered(url, depth, page));
        },
        (PhaseView::Notifying { images, next }, OutcomeView::Notified) => {
            lemma_next_image(
                CrawlerView { phase: PhaseView::Notifying { images, next: next + 1 }, ..s },
            );
        },
        _ => {
            lemma_resume(s);
        },
    }
}

/// A run of steps keeps a walk's state in order and forgets no visited page.
pub proof fn lemma_run(s: CrawlerView, outcomes: Seq<OutcomeView>)
    requires
        s.wf(),
    ensures
        s.run(outcomes).wf(),
        s.run(outcomes).extends(s),
    decreases outcomes.len(),
{
    if outcomes.len() > 0 {
        lemma_run(s, outcomes.drop_last());
        lemma_step(s.run(outcomes.drop_last()), outcomes.last());
    }
}

/// The budget holds in every run: a walk that begins with no more visited
/// pages than the budget allows never has more, whatever comes back from the
/// network; and no page is ever visited twice.
pub proof fn lemma_run_keeps_budget(s: CrawlerView, outcomes: Seq<OutcomeView>)
    requires
        s.wf(),
        s.visited.len() <= s.max_pages,
    ensures
        s.run(outcomes).visited.len() <= s.max_pages,
        s.run(outcomes).visited.no_duplicates(),
    decreases outcomes.len(),
{
    lemma_run(s, outcomes);
    if outcomes.len() > 0 {
        lemma_run_keeps_budget(s, outcomes.drop_last());
        lemma_run(s, outcomes.drop_last());
        lemma_step(s.run(outcomes.drop_last()), outcomes.last());
    }
}

/// The depth bound holds in every run: no page being walked, and no page
/// that the walk asks to fetch, lies `max_depth` links from the seed or more.
pub proof fn lemma_run_keeps_depth(s: CrawlerView, outcomes: Seq<OutcomeView>)
    requires
        s.wf(),
    ensures
        s.run(outcomes).max_depth == s.max_depth,
        s.run(outcomes).stack.len() <= s.max_depth,
        forall|i: int|
            0 <= i < s.run(outcomes).stack.len() ==> (#[trigger] s.run(outcomes).stack[i]).depth
                < s.max_depth,
        s.run(outcomes).phase matches PhaseView::Fetching { url, depth } ==> depth < s.max_depth,
{
    lemma_run(s, outcomes);
}

/// Recording a page keeps every page once, forgets none, and adds at most
/// the page itself.
pub proof fn lemma_recorded(visited: Seq<Seq<char>>, url: Seq<char>)
    requires
        visited.no_duplicates(),
    ensures
        ({
            let after = if visited.contains(url) {
                visited
            } else {
                visited.push(url)
            };
            &&& after.no_duplicates()
            &&& after.contains(url)
            &&& visited.is_prefix_of(after)
            &&& after.to_set() == visited.to_set().insert(url)
        }),
{
    if !visited.contains(url) {
        let after = visited.push(url);
        assert(after[visited.len() as int] == url);
        visited.lemma_push_to_set_commute(url);
    }
}

/// With a page's images in hand, what comes next is a state that a walk can
/// be in, with the same visited pages.
proof fn lemma_next_image(s: CrawlerView)
    requires
        s.wf_frames(),
        s.stack.len() > 0,
        s.phase is Notifying,
    ensures
        s.next_image().wf(),
        s.next_image().visited == s.visited,
        s.next_image().max_depth == s.max_depth,
        s.next_image().max_pages == s.max_pages,
        s.next_image().phase matches PhaseView::Fetching { url, depth } ==> !s.visited.contains(url),
{
    lemma_resume(s);
}

/// A fetched page whose links are being walked.
struct Frame {
    url: String,
    depth: usize,
    links: Vec<String>,
    next: usize,
}

impl DeepView for Frame {
    type V = FrameView;

    closed spec fn deep_view(&self) -> FrameView {
        FrameView {
            url: self.url@,
            depth: self.depth as nat,
            links: self.links.deep_view(),
            next: self.next as nat,
        }
    }
}

/// What the walk waits for, without what it waits for it with.
#[derive(Clone, Copy, Debug, PartialEq, Eq, Structural)]
enum Stage {
    Fetching,
    Notifying,
    Saving,
    Finished,
}

/// What the caller is to do next.
#[derive(Clone, Debug, PartialEq, Eq)]
pub enum Action {
    /// Fetch the page at `url` and hand back its body, or that it did not
    /// come.
    Fetch { url: String },
    /// Report the image at `image_url`, found on the page at `page_url`.
    Notify { image_url: String, page_url: String },
    /// Write a checkpoint of the visited pages.
    SaveCheckpoint,
    /// Nothing: the walk is over.
    Done,
}

impl View for Action {
    type V = ActionView;

    open spec fn view(&self) -> ActionView {
        match self {
            Action::Fetch { url } => ActionView::Fetch { url: url@ },
            Action::Notify { image_url, page_url } => ActionView::Notify {
                image_url: image_url@,
                page_url: page_url@,
            },
            Action::SaveCheckpoint => ActionView::SaveCheckpoint,
            Action::Done => ActionView::Done,
        }
    }
}

/// What came of the action that the walk asked for.
#[derive(Clone, Debug)]
pub enum Outcome {
    /// The page came, and this is what was taken from it.
    Fetched(HTMLExtractionResult),
    /// The page did not come.
    FetchFailed,
    /// The image was reported, or reporting it failed.
    Notified,
    /// The checkpoint was written, or writing it failed.
    Saved,
}

impl View for Outcome {
    type V = OutcomeView;

    open spec fn view(&self) -> OutcomeView {
        match self {
            Outcome::Fetched(page) => OutcomeView::Fetched(page@),
            Outcome::FetchFailed => OutcomeView::FetchFailed,
            Outcome::Notified => OutcomeView::Notified,
            Outcome::Saved => OutcomeView::Saved,
        }
    }
}

/// A walk over the site.
pub struct Crawler {
    visited: VisitedStore,
    max_depth: usize,
    max_pages: usize,
    /// The pages whose links are being walked, the seed's first.
    stack: Vec<Frame>,
    stage: Stage,
    /// While fetching: the page asked for, and its depth.
    target: String,
    target_depth: usize,
    /// While notifying: the images of the page fetched last, and how many of
    /// them are reported.
    images: Vec<String>,
    next_image: usize,
}

impl View for Crawler {
    type V = CrawlerView;

    closed spec fn view(&self) -> CrawlerView {
        CrawlerView {
            visited: self.visited.order(),
            max_depth: self.max_depth as nat,
            max_pages: self.max_pages as nat,
            stack: self.stack.deep_view(),
            phase: match self.stage {
                Stage::Fetching => PhaseView::Fetching {
                    url: self.target@,
                    depth: self.target_depth as nat,
                },
                Stage::Notifying => PhaseView::Notifying {
                    images: self.images.deep_view(),
                    next: self.next_image as nat,
                },
                Stage::Saving => PhaseView::Saving,
                Stage::Finished => PhaseView::Finished,
            },
        }
    }
}

impl Crawler {
    /// The walk is in a state that a walk can be in.
    pub closed spec fn wf(&self) -> bool {
        self.visited.wf() && self@.wf()
    }

    /// The state of a walk that is in order is one that the laws of the walk
    /// speak of.
    pub proof fn lemma_wf(&self)
        requires
            self.wf(),
        ensures
            self@.wf(),
            self@.visited.no_duplicates(),
            self@.stack.len() <= self@.max_depth,
    {
    }

    /// A walk from `seed` that knows the pages in `visited` from earlier
    /// runs, fetches no page `max_depth` links from the seed or deeper, and
    /// fetches nothing more once `max_pages` pages are visited.
    pub fn new(seed: String, visited: VisitedStore, max_depth: usize, max_pages: usize) -> (crawler:
        Crawler)
        requires
            visited.wf(),
        ensures
            crawler.wf(),
            crawler@.wf(),
            crawler@ == start(seed@, visited.order(), max_depth as nat, max_pages as nat),
    {
        proof {
            visited.lemma_view();
        }
        let stage = if 0 < max_depth && visited.len() < max_pages {
            Stage::Fetching
        } else {
            Stage::Finished
        };
        let crawler = Crawler {
            visited,
            max_depth,
            max_pages,
            stack: Vec::new(),
            stage,
            target: seed,
            target_depth: 0,
            images: Vec::new(),
            next_image: 0,
        };
        assert(crawler@.stack =~= Seq::empty());
        crawler
    }

    /// The pages visited so far.
    pub fn visited(&self) -> (store: &VisitedStore)
        requires
            self.wf(),
        ensures
            store.wf(),
            store.order() == self@.visited,
    {
        &self.visited
    }

    /// Ends the walk where it stands and hands out the pages visited so far.
    pub fn into_visited(self) -> (store: VisitedStore)
        requires
            self.wf(),
        ensures
            store.wf(),
            store.order() == self@.visited,
    {
        self.visited
    }

    /// How many pages are being walked: the depth of the innermost one,
    /// plus one.
    pub fn depth(&self) -> (depth: usize)
        ensures
            depth == self@.stack.len(),
    {
        self.stack.len()
    }

    /// Whether the walk is over.
    pub fn is_finished(&self) -> (over: bool)
        ensures
            over == (self@.phase is Finished),
    {
        self.stage == Stage::Finished
    }

    /// What the caller is to do now.
    pub fn pending(&self) -> (action: Action)
        requires
            self.wf(),
        ensures
            action@ == self@.pending(),
    {
        match self.stage {
            Stage::Fetching => Action::Fetch { url: self.target.clone() },
            Stage::Notifying => Action::Notify {
                image_url: self.images[self.next_image].clone(),
                page_url: self.stack[self.stack.len() - 1].url.clone(),
            },
            Stage::Saving => Action::SaveCheckpoint,
            Stage::Finished => Action::Done,
        }
    }

    /// Goes on with the links of the pages being walked.
    fn resume(&mut self)
        requires
            old(self).visited.wf(),
            old(self)@.wf_frames(),
        ensures
            final(self).wf(),
            final(self)@ == old(self)@.resume(),
    {
        let ghost goal = self@.resume();
        proof {
            lemma_resume(self@);
        }
        loop
            invariant
                self.visited.wf(),
                self@.wf_frames(),
                self@.resume() == goal,
                goal == old(self)@.resume(),
                goal.wf(),
            decreases self.stack.len(), self@.links_left(),
        {
            let ghost before = self@;
            if self.stack.len() == 0 {
                self.stage = Stage::Finished;
                return ;
            }
            let top = self.stack.pop().unwrap();
            proof {
                assert(self@.stack =~= before.leave().stack);
                lemma_leave(before);
            }
            if top.next >= top.links.len() {
                continue ;
            }
            let link = top.links[top.next].clone();
            let depth = top.depth + 1;
            let moved = Frame { url: top.url, depth: top.depth, links: top.links, next: top.next + 1 };
            self.stack.push(moved);
            proof {
                assert(self@.stack =~= before.take_link().stack);
                lemma_take_link(before);
                self.visited.lemma_view();
            }
            if !self.visited.contains(link.as_str()) && depth < self.max_depth && self.visited.len()
                < self.max_pages {
                self.target = link;
                self.target_depth = depth;
                self.stage = Stage::Fetching;
                return ;
            }
        }
    }

    /// With the page's images reported up to `next_image`: asks for the next
    /// one, or goes on to the checkpoint or the links.
    fn next_image(&mut self)
        requires
            old(self).visited.wf(),
            old(self)@.wf_frames(),
            old(self)@.stack.len() > 0,
            old(self).stage == Stage::Notifying,
        ensures
            final(self).wf(),
            final(self)@ == old(self)@.next_image(),
    {
        proof {
            lemma_next_image(self@);
        }
        if self.next_image >= self.images.len() {
            if self.visited.len() % ROTATION_INTERVAL == 0 {
                self.stage = Stage::Saving;
            } else {
                self.resume();
            }
        }
    }

    /// Takes the outcome of the pending action and names the next action. An
    /// outcome of another action than the pending one is ignored, and the
    /// pending action is named again.
    pub fn advance(&mut self, outcome: Outcome) -> (action: Action)
        requires
            old(self).wf(),
        ensures
            final(self).wf(),
            final(self)@.wf(),
            final(self)@ == old(self)@.step(outcome@),
            action@ == final(self)@.pending(),
    {
        proof {
            lemma_step(self@, outcome@);
        }
        match outcome {
            Outcome::Fetched(page) => {
                if self.stage == Stage::Fetching {
                    let ghost before = self@;
                    let url = self.target.clone();
                    self.visited.insert(url.clone());
                    self.stack.push(
                        Frame {
                            url,
                            depth: self.target_depth,
                            links: page.relevant_page_links,
                            next: 0,
                        },
                    );
                    self.images = page.relevant_image_links;
                    self.next_image = 0;
                    self.stage = Stage::Notifying;
                    proof {
                        old(self).visited.lemma_view();
                        assert(self@.stack =~= before.entered(url@, before.stack.len(), page@).stack);
                        lemma_entered(before, page@);
                    }
                    self.next_image();
                }
            },
            Outcome::FetchFailed => {
                if self.stage == Stage::Fetching {
                    self.resume();
                }
            },
            Outcome::Notified => {
                if self.stage == Stage::Notifying {
                    assert(self.images.deep_view().len() == self.images.len());
                    self.next_image = self.next_image + 1;
                    self.next_image();
                }
            },
            Outcome::Saved => {
                if self.stage == Stage::Saving {
                    self.resume();
                }
            },
        }
        self.pending()
    }

    /// Takes the body of the page that was asked for: extracts its links and
    /// images and goes on as `advance` does with them. A body that is too
    /// long to be parsed counts as a page without links and images.
    pub fn page_fetched(&mut self, body: &str) -> (action: Action)
        requires
            old(self).wf(),
        ensures
            final(self).wf(),
            final(self)@.wf(),
            final(self)@ == old(self)@.step(
                OutcomeView::Fetched(page_extraction(body@)),
            ),
            action@ == final(self)@.pending(),
    {
        let page = extract_wikipedia_HTML(body, self.target.as_str());
        self.advance(Outcome::Fetched(page))
    }
}

} // verus!
