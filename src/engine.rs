//! The scroll-scrape state machine of one target: it takes what the page
//! session reports (the sources found after a scroll, the page height) and
//! says what to do next (scroll and extract again, read the height, stop).
use crate::ledger::{accept_spec, views_of, Ledger};
use crate::normalize::{canonical, normalize};
use vstd::prelude::*;

verus! {

/// Why a target's processing ended; every one of them is a success.
#[derive(PartialEq, Eq, Structural, Clone, Copy, Debug)]
pub enum StopReason {
    /// The page height did not change after a scroll: nothing more to reveal.
    Done,
    /// The target's quota of accepted resources was reached.
    QuotaReached,
    /// Too many consecutive scrolls brought no new resource.
    Stalled,
}

/// What the engine waits for.
#[derive(PartialEq, Eq, Structural, Clone, Copy, Debug)]
pub enum Phase {
    /// The sources found after the next scroll.
    AwaitExtraction,
    /// The page height after the scroll just evaluated.
    AwaitHeight,
    /// Nothing: processing ended.
    Finished(StopReason),
}

/// What the driver of the page session is to do next.
#[derive(PartialEq, Eq, Structural, Clone, Copy, Debug)]
pub enum Action {
    /// Scroll to the bottom, wait for content to settle, and report the sources of all images.
    ScrollAndExtract,
    /// Report the page height.
    ReadHeight,
    /// Stop; the accepted resources are the result.
    Finish(StopReason),
}

/// Abstract state of the engine.
pub struct ScrapeModel {
    pub resources: Seq<Seq<char>>,
    pub quota: Option<usize>,
    pub stall_threshold: u64,
    pub last_height: u64,
    pub stall_count: u64,
    /// Number of resources when the current scroll iteration began.
    pub iteration_start: nat,
    pub phase: Phase,
}

pub open spec fn opt_view(o: Option<String>) -> Option<Seq<char>> {
    match o {
        Some(s) => Some(s@),
        None => None,
    }
}

pub open spec fn source_views(v: Seq<Option<String>>) -> Seq<Option<Seq<char>>> {
    v.map_values(|o: Option<String>| opt_view(o))
}

/// The quota is set and a ledger of `len` resources has reached it.
pub open spec fn quota_hit(quota: Option<usize>, len: nat) -> bool {
    match quota {
        Some(q) => len >= q,
        None => false,
    }
}

/// The quota is never exceeded, and an engine still running has not reached it.
pub open spec fn quota_respected(m: ScrapeModel) -> bool {
    &&& m.quota matches Some(q) ==> m.resources.len() <= q
    &&& !(m.phase is Finished) ==> !quota_hit(m.quota, m.resources.len())
}

/// The ledger after one raw source (absent when the element had no source yet).
pub open spec fn offer_source(l: Seq<Seq<char>>, src: Option<Seq<char>>) -> Seq<Seq<char>> {
    match src {
        Some(s) => match canonical(s) {
            Some(c) => accept_spec(l, c),
            None => l,
        },
        None => l,
    }
}

/// Offers the sources in order; stops right after an acceptance that reaches
/// the quota, and accepts nothing once it is reached. Returns the ledger and
/// whether the quota was reached.
pub open spec fn absorb(l: Seq<Seq<char>>, quota: Option<usize>, srcs: Seq<Option<Seq<char>>>) -> (
    Seq<Seq<char>>,
    bool,
)
    decreases srcs.len(),
{
    if srcs.len() == 0 {
        (l, false)
    } else if quota_hit(quota, l.len()) {
        (l, true)
    } else {
        let l1 = offer_source(l, srcs[0]);
        if l1.len() > l.len() && quota_hit(quota, l1.len()) {
            (l1, true)
        } else {
            absorb(l1, quota, srcs.drop_first())
        }
    }
}

/// The evaluation of one scroll iteration, given the sources it revealed.
pub open spec fn extract_step(m: ScrapeModel, srcs: Seq<Option<Seq<char>>>) -> (ScrapeModel, Action) {
    let r = absorb(m.resources, m.quota, srcs);
    if r.1 {
        (
            ScrapeModel { resources: r.0, phase: Phase::Finished(StopReason::QuotaReached), ..m },
            Action::Finish(StopReason::QuotaReached),
        )
    } else if r.0.len() > m.resources.len() {
        (ScrapeModel { resources: r.0, stall_count: 0, phase: Phase::AwaitHeight, ..m }, Action::ReadHeight)
    } else if m.stall_count + 1 >= m.stall_threshold {
        (
            ScrapeModel {
                resources: r.0,
                stall_count: (m.stall_count + 1) as u64,
                phase: Phase::Finished(StopReason::Stalled),
                ..m
            },
            Action::Finish(StopReason::Stalled),
        )
    } else {
        (
            ScrapeModel {
                resources: r.0,
                stall_count: (m.stall_count + 1) as u64,
                phase: Phase::AwaitHeight,
                ..m
            },
            Action::ReadHeight,
        )
    }
}

/// The height check that closes a scroll iteration.
pub open spec fn height_step(m: ScrapeModel, height: u64) -> (ScrapeModel, Action) {
    if height == m.last_height {
        (ScrapeModel { phase: Phase::Finished(StopReason::Done), ..m }, Action::Finish(StopReason::Done))
    } else {
        (
            ScrapeModel {
                last_height: height,
                iteration_start: m.resources.len(),
                phase: Phase::AwaitExtraction,
                ..m
            },
            Action::ScrollAndExtract,
        )
    }
}

/// One raw source offered during a scroll iteration; the engine finishes
/// as soon as an acceptance reaches the quota.
pub open spec fn offer_step(m: ScrapeModel, src: Option<Seq<char>>) -> ScrapeModel {
    let l1 = offer_source(m.resources, src);
    if l1.len() > m.resources.len() && quota_hit(m.quota, l1.len()) {
        ScrapeModel { resources: l1, phase: Phase::Finished(StopReason::QuotaReached), ..m }
    } else {
        ScrapeModel { resources: l1, ..m }
    }
}

/// The sources offered one by one, until they run out or the engine finishes.
pub open spec fn offers(m: ScrapeModel, srcs: Seq<Option<Seq<char>>>) -> ScrapeModel
    decreases srcs.len(),
{
    if srcs.len() == 0 || m.phase != Phase::AwaitExtraction {
        m
    } else {
        offers(offer_step(m, srcs[0]), srcs.drop_first())
    }
}

/// The end of a scroll iteration's extraction, measured against its start.
pub open spec fn close_step(m: ScrapeModel) -> (ScrapeModel, Action) {
    if m.resources.len() > m.iteration_start {
        (ScrapeModel { stall_count: 0, phase: Phase::AwaitHeight, ..m }, Action::ReadHeight)
    } else if m.stall_count + 1 >= m.stall_threshold {
        (
            ScrapeModel {
                stall_count: (m.stall_count + 1) as u64,
                phase: Phase::Finished(StopReason::Stalled),
                ..m
            },
            Action::Finish(StopReason::Stalled),
        )
    } else {
        (
            ScrapeModel { stall_count: (m.stall_count + 1) as u64, phase: Phase::AwaitHeight, ..m },
            Action::ReadHeight,
        )
    }
}

/// Offering the sources one by one gives the same ledger as `absorb`, and
/// finishes exactly when `absorb` reports the quota reached.
proof fn lemma_offers_absorb(m: ScrapeModel, srcs: Seq<Option<Seq<char>>>)
    requires
        m.phase == Phase::AwaitExtraction,
        !quota_hit(m.quota, m.resources.len()),
    ensures
        offers(m, srcs) == (ScrapeModel {
            resources: absorb(m.resources, m.quota, srcs).0,
            phase: if absorb(m.resources, m.quota, srcs).1 {
                Phase::Finished(StopReason::QuotaReached)
            } else {
                Phase::AwaitExtraction
            },
            ..m
        }),
    decreases srcs.len(),
{
    if srcs.len() > 0 {
        let m1 = offer_step(m, srcs[0]);
        lemma_offer_grows_by_at_most_one(m.resources, srcs[0]);
        if m1.phase == Phase::AwaitExtraction {
            lemma_offers_absorb(m1, srcs.drop_first());
        }
    }
}

/// Offering the sources one by one and then closing the extraction is the
/// same as evaluating the whole extraction at once.
pub proof fn lemma_offers_then_close(m: ScrapeModel, srcs: Seq<Option<Seq<char>>>)
    requires
        m.phase == Phase::AwaitExtraction,
        !quota_hit(m.quota, m.resources.len()),
        m.iteration_start == m.resources.len(),
    ensures
        offers(m, srcs).phase == Phase::AwaitExtraction ==> close_step(offers(m, srcs))
            == extract_step(m, srcs),
        offers(m, srcs).phase != Phase::AwaitExtraction ==> (
            offers(m, srcs),
            Action::Finish(StopReason::QuotaReached),
        ) == extract_step(m, srcs),
{
    lemma_offers_absorb(m, srcs);
}

/// A scroll after which the page holds no image at all ends the target.
pub open spec fn empty_page_step(m: ScrapeModel) -> (ScrapeModel, Action) {
    (ScrapeModel { phase: Phase::Finished(StopReason::Done), ..m }, Action::Finish(StopReason::Done))
}

/// The engine of one target: its ledger and its scroll state.
pub struct Engine {
    ledger: Ledger,
    quota: Option<usize>,
    stall_threshold: u64,
    last_height: u64,
    stall_count: u64,
    iteration_start: usize,
    phase: Phase,
}

impl View for Engine {
    type V = ScrapeModel;

    closed spec fn view(&self) -> ScrapeModel {
        ScrapeModel {
            resources: self.ledger@,
            quota: self.quota,
            stall_threshold: self.stall_threshold,
            last_height: self.last_height,
            stall_count: self.stall_count,
            iteration_start: self.iteration_start as nat,
            phase: self.phase,
        }
    }
}

impl Engine {
    pub closed spec fn wf(&self) -> bool {
        &&& self.ledger.wf()
        &&& self.stall_threshold >= 1
        &&& !(self.phase is Finished) ==> self.stall_count < self.stall_threshold
        &&& !(self.phase is Finished) ==> !quota_hit(self.quota, self.ledger@.len())
        &&& self.iteration_start <= self.ledger@.len()
        &&& quota_respected(self@)
    }

    /// Starts a target whose page was opened and measured at `initial_height`.
    /// `stall_threshold` is the number of consecutive scrolls without a new
    /// resource that ends the processing (1: stop at the first such scroll).
    /// A quota of zero is reached from the start: the engine is then finished.
    pub fn new(quota: Option<usize>, stall_threshold: u64, initial_height: u64) -> (e: Engine)
        requires
            stall_threshold >= 1,
        ensures
            e.wf(),
            quota_respected(e@),
            e@ == (ScrapeModel {
                resources: Seq::<Seq<char>>::empty(),
                quota,
                stall_threshold,
                last_height: initial_height,
                stall_count: 0,
                iteration_start: 0,
                phase: if quota_hit(quota, 0) {
                    Phase::Finished(StopReason::QuotaReached)
                } else {
                    Phase::AwaitExtraction
                },
            }),
    {
        let full = match quota {
            Some(q) => q == 0,
            None => false,
        };
        let phase = if full {
            Phase::Finished(StopReason::QuotaReached)
        } else {
            Phase::AwaitExtraction
        };
        Engine { ledger: Ledger::new(), quota, stall_threshold, last_height: initial_height, stall_count: 0, iteration_start: 0, phase }
    }

    /// What the engine waits on: a scroll and its sources, a height read, or
    /// nothing once it has finished.
    pub fn pending_action(&self) -> (a: Action)
        ensures
            a == (match self@.phase {
                Phase::AwaitExtraction => Action::ScrollAndExtract,
                Phase::AwaitHeight => Action::ReadHeight,
                Phase::Finished(r) => Action::Finish(r),
            }),
    {
        match self.phase {
            Phase::AwaitExtraction => Action::ScrollAndExtract,
            Phase::AwaitHeight => Action::ReadHeight,
            Phase::Finished(r) => Action::Finish(r),
        }
    }

    /// Offers one raw source found after a scroll (`None` for an image
    /// without a source yet). Returns whether the engine has finished, which
    /// it does as soon as an acceptance reaches the quota.
    pub fn offer(&mut self, src: &Option<String>) -> (finished: bool)
        requires
            old(self).wf(),
            old(self)@.phase == Phase::AwaitExtraction,
        ensures
            final(self).wf(),
            quota_respected(final(self)@),
            final(self)@ == offer_step(old(self)@, opt_view(*src)),
            finished == (final(self)@.phase != Phase::AwaitExtraction),
    {
        let ghost cur = self.ledger@;
        match src {
            Some(raw) => {
                match normalize(raw.as_str()) {
                    Some(c) => {
                        let accepted = self.ledger.try_accept(c);
                        if accepted {
                            match self.quota {
                                Some(q) => {
                                    if self.ledger.len() >= q {
                                        self.phase = Phase::Finished(StopReason::QuotaReached);
                                    }
                                },
                                None => {},
                            }
                        }
                    },
                    None => {},
                }
            },
            None => {},
        }
        proof {
            lemma_offer_grows_by_at_most_one(cur, opt_view(*src));
        }
        match self.phase {
            Phase::AwaitExtraction => false,
            _ => true,
        }
    }

    /// Ends the extraction of a scroll iteration, once its sources were offered.
    pub fn close_extraction(&mut self) -> (a: Action)
        requires
            old(self).wf(),
            old(self)@.phase == Phase::AwaitExtraction,
        ensures
            final(self).wf(),
            quota_respected(final(self)@),
            final(self)@.resources.no_duplicates(),
            (final(self)@, a) == close_step(old(self)@),
    {
        proof {
            self.ledger.lemma_no_duplicates();
        }
        if self.ledger.len() > self.iteration_start {
            self.stall_count = 0;
            self.phase = Phase::AwaitHeight;
            Action::ReadHeight
        } else {
            self.stall_count = self.stall_count + 1;
            if self.stall_count >= self.stall_threshold {
                self.phase = Phase::Finished(StopReason::Stalled);
                Action::Finish(StopReason::Stalled)
            } else {
                self.phase = Phase::AwaitHeight;
                Action::ReadHeight
            }
        }
    }

    /// Evaluates the sources of all images found after a scroll, in page order
    /// (`None` for an image without a source yet).
    pub fn on_extracted(&mut self, sources: &Vec<Option<String>>) -> (a: Action)
        requires
            old(self).wf(),
            old(self)@.phase == Phase::AwaitExtraction,
            old(self)@.iteration_start == old(self)@.resources.len(),
        ensures
            final(self).wf(),
            quota_respected(final(self)@),
            final(self)@.resources.no_duplicates(),
            (final(self)@, a) == extract_step(old(self)@, source_views(sources@)),
    {
        let ghost m0 = self@;
        let ghost srcv = source_views(sources@);
        let n = sources.len();
        let mut i: usize = 0;
        let mut finished = false;
        assert(srcv.subrange(0, n as int) =~= srcv);
        while i < n && !finished
            invariant
                self.wf(),
                0 <= i <= n,
                n == sources@.len(),
                srcv == source_views(sources@),
                finished == (self@.phase != Phase::AwaitExtraction),
                offers(self@, srcv.subrange(i as int, n as int)) == offers(m0, srcv),
            decreases n - i,
        {
            let ghost rest = srcv.subrange(i as int, n as int);
            assert(rest[0] == opt_view(sources@[i as int]));
            assert(rest.drop_first() =~= srcv.subrange(i + 1, n as int));
            finished = self.offer(&sources[i]);
            i = i + 1;
        }
        assert(srcv.subrange(n as int, n as int) =~= Seq::<Option<Seq<char>>>::empty());
        proof {
            lemma_offers_then_close(m0, srcv);
            self.ledger.lemma_no_duplicates();
        }
        if finished {
            Action::Finish(StopReason::QuotaReached)
        } else {
            self.close_extraction()
        }
    }

    /// Reports that the page held no image element at all after a scroll.
    pub fn on_no_images(&mut self) -> (a: Action)
        requires
            old(self).wf(),
            old(self)@.phase == Phase::AwaitExtraction,
        ensures
            final(self).wf(),
            quota_respected(final(self)@),
            (final(self)@, a) == empty_page_step(old(self)@),
    {
        self.phase = Phase::Finished(StopReason::Done);
        Action::Finish(StopReason::Done)
    }

    /// Evaluates the page height read at the end of a scroll iteration.
    pub fn on_height(&mut self, height: u64) -> (a: Action)
        requires
            old(self).wf(),
            old(self)@.phase == Phase::AwaitHeight,
        ensures
            final(self).wf(),
            quota_respected(final(self)@),
            final(self)@.resources.no_duplicates(),
            (final(self)@, a) == height_step(old(self)@, height),
    {
        proof {
            self.ledger.lemma_no_duplicates();
        }
        if height == self.last_height {
            self.phase = Phase::Finished(StopReason::Done);
            Action::Finish(StopReason::Done)
        } else {
            self.last_height = height;
            self.iteration_start = self.ledger.len();
            self.phase = Phase::AwaitExtraction;
            Action::ScrollAndExtract
        }
    }

    /// Number of resources accepted so far.
    pub fn resource_count(&self) -> (n: usize)
        ensures
            n == self@.resources.len(),
    {
        self.ledger.len()
    }

    pub fn phase(&self) -> (p: Phase)
        ensures
            p == self@.phase,
    {
        self.phase
    }

    /// The accepted resources, in order of acceptance.
    pub fn into_resources(self) -> (r: Vec<String>)
        ensures
            views_of(r@) == self@.resources,
    {
        self.ledger.into_resources()
    }
}

/// Offering one source adds at most one resource, and keeps what was there.
proof fn lemma_offer_grows_by_at_most_one(l: Seq<Seq<char>>, src: Option<Seq<char>>)
    ensures
        offer_source(l, src) == l || offer_source(l, src) == l.push(offer_source(l, src).last()),
        offer_source(l, src).len() == l.len() || offer_source(l, src).len() == l.len() + 1,
{
}

/// A quota caps the resources of one iteration. Once it is reached nothing more
/// is accepted. When it is reached during the iteration the ledger holds
/// exactly the quota and processing halts at that source; otherwise the quota
/// did not interfere and the ledger stays under it.
pub proof fn lemma_quota_caps(l: Seq<Seq<char>>, q: usize, srcs: Seq<Option<Seq<char>>>)
    ensures
        l.len() >= q && srcs.len() > 0 ==> absorb(l, Some(q), srcs) == (l, true),
        l.len() < q && absorb(l, Some(q), srcs).1 ==> absorb(l, Some(q), srcs).0.len() == q,
        l.len() < q && !absorb(l, Some(q), srcs).1 ==> absorb(l, Some(q), srcs).0 == absorb(
            l,
            None,
            srcs,
        ).0 && absorb(l, Some(q), srcs).0.len() < q,
        absorb(l, Some(q), srcs).0.len() <= (if l.len() >= q {
            l.len()
        } else {
            q as nat
        }),
    decreases srcs.len(),
{
    if srcs.len() > 0 && l.len() < q {
        let l1 = offer_source(l, srcs[0]);
        lemma_offer_grows_by_at_most_one(l, srcs[0]);
        if !(l1.len() > l.len() && quota_hit(Some(q), l1.len())) {
            lemma_quota_caps(l1, q, srcs.drop_first());
        }
    }
}

/// With a quota, the resources are those that the sources read before the
/// engine stopped give without a quota: a prefix of the sources, the whole of
/// them when the quota was not reached.
pub proof fn lemma_quota_reads_prefix(l: Seq<Seq<char>>, q: usize, srcs: Seq<Option<Seq<char>>>) -> (k: nat)
    ensures
        k <= srcs.len(),
        absorb(l, Some(q), srcs).0 == absorb(l, None, srcs.take(k as int)).0,
        !absorb(l, Some(q), srcs).1 ==> k == srcs.len(),
    decreases srcs.len(),
{
    if srcs.len() == 0 || quota_hit(Some(q), l.len()) {
        assert(srcs.take(0) =~= Seq::<Option<Seq<char>>>::empty());
        0
    } else {
        let l1 = offer_source(l, srcs[0]);
        if l1.len() > l.len() && quota_hit(Some(q), l1.len()) {
            let t = srcs.take(1);
            assert(t.drop_first() =~= Seq::<Option<Seq<char>>>::empty());
            assert(t[0] == srcs[0]);
            assert(absorb(l, None, t).0 == absorb(l1, None, t.drop_first()).0);
            1
        } else {
            let rest = srcs.drop_first();
            let k1 = lemma_quota_reads_prefix(l1, q, rest);
            let t = srcs.take(k1 + 1 as int);
            assert(t.drop_first() =~= rest.take(k1 as int));
            assert(t[0] == srcs[0]);
            assert(absorb(l, None, t).0 == absorb(l1, None, t.drop_first()).0);
            if k1 == rest.len() {
                assert(srcs.take(srcs.len() as int) =~= srcs);
            }
            (k1 + 1) as nat
        }
    }
}

/// Offering sources keeps the ledger free of repeated links.
pub proof fn lemma_absorb_no_duplicates(
    l: Seq<Seq<char>>,
    quota: Option<usize>,
    srcs: Seq<Option<Seq<char>>>,
)
    requires
        l.no_duplicates(),
    ensures
        absorb(l, quota, srcs).0.no_duplicates(),
    decreases srcs.len(),
{
    if srcs.len() > 0 && !quota_hit(quota, l.len()) {
        let l1 = offer_source(l, srcs[0]);
        if l1 != l {
            let u = l1.last();
            assert(l1 == l.push(u) && !l.contains(u));
            assert forall|a: int, b: int| 0 <= a < b < l1.len() implies l1[a] != l1[b] by {
                if b == l.len() {
                    assert(l[a] == l1[a]);
                }
            }
        }
        lemma_absorb_no_duplicates(l1, quota, srcs.drop_first());
    }
}

/// A link in the ledger stays there while sources are offered.
proof fn lemma_absorb_keeps(
    l: Seq<Seq<char>>,
    quota: Option<usize>,
    srcs: Seq<Option<Seq<char>>>,
    x: Seq<char>,
)
    requires
        l.contains(x),
    ensures
        absorb(l, quota, srcs).0.contains(x),
    decreases srcs.len(),
{
    if srcs.len() > 0 && !quota_hit(quota, l.len()) {
        let l1 = offer_source(l, srcs[0]);
        let k = choose|k: int| 0 <= k < l.len() && l[k] == x;
        if l1 != l {
            assert(l1[k] == x);
        }
        lemma_absorb_keeps(l1, quota, srcs.drop_first(), x);
    }
}

/// Without a quota, the canonical link of every offered source ends in the ledger.
proof fn lemma_absorb_collects(l: Seq<Seq<char>>, srcs: Seq<Option<Seq<char>>>, k: int)
    requires
        0 <= k < srcs.len(),
        srcs[k] is Some,
        canonical(srcs[k]->0) is Some,
    ensures
        absorb(l, None, srcs).0.contains(canonical(srcs[k]->0)->0),
    decreases srcs.len(),
{
    let u = canonical(srcs[k]->0)->0;
    let l1 = offer_source(l, srcs[0]);
    if k == 0 {
        if !l.contains(u) {
            assert(l1[l.len() as int] == u);
        }
        lemma_absorb_keeps(l1, None, srcs.drop_first(), u);
    } else {
        assert(srcs.drop_first()[k - 1] == srcs[k]);
        lemma_absorb_collects(l1, srcs.drop_first(), k - 1);
    }
}

/// Two sources with the same canonical link add that link once: without a
/// quota it ends in the ledger, and the ledger holds no link twice.
pub proof fn lemma_repeated_link_accepted_once(
    l: Seq<Seq<char>>,
    srcs: Seq<Option<Seq<char>>>,
    i: int,
    j: int,
    u: Seq<char>,
)
    requires
        l.no_duplicates(),
        0 <= i < j < srcs.len(),
        srcs[i] is Some && canonical(srcs[i]->0) == Some(u),
        srcs[j] is Some && canonical(srcs[j]->0) == Some(u),
    ensures
        absorb(l, None, srcs).0.contains(u),
        absorb(l, None, srcs).0.no_duplicates(),
{
    lemma_absorb_collects(l, srcs, i);
    lemma_absorb_no_duplicates(l, None, srcs);
}

/// The canonical links of the sources that are present and not thumbnails.
pub open spec fn canonical_links(srcs: Seq<Option<Seq<char>>>) -> Set<Seq<char>> {
    Set::new(
        |c: Seq<char>|
            exists|k: int|
                0 <= k < srcs.len() && #[trigger] srcs[k] is Some && canonical(srcs[k]->0)
                    == Some(c),
    )
}

/// Every link that offering sources leaves in the ledger was there before or
/// is the canonical link of one of them.
proof fn lemma_absorb_from(
    l: Seq<Seq<char>>,
    quota: Option<usize>,
    srcs: Seq<Option<Seq<char>>>,
    x: Seq<char>,
)
    requires
        absorb(l, quota, srcs).0.contains(x),
    ensures
        l.contains(x) || canonical_links(srcs).contains(x),
    decreases srcs.len(),
{
    if srcs.len() > 0 && !quota_hit(quota, l.len()) {
        let l1 = offer_source(l, srcs[0]);
        let l1_hit = l1.len() > l.len() && quota_hit(quota, l1.len());
        let rest = srcs.drop_first();
        if !l1_hit {
            lemma_absorb_from(l1, quota, rest, x);
            if canonical_links(rest).contains(x) {
                let k = choose|k: int|
                    0 <= k < rest.len() && #[trigger] rest[k] is Some && canonical(rest[k]->0)
                        == Some(x);
                assert(srcs[k + 1] == rest[k]);
            }
        }
        if l1.contains(x) && !l.contains(x) {
            let k = choose|k: int| 0 <= k < l1.len() && l1[k] == x;
            if l1 != l {
                assert(k == l.len());
            }
            assert(srcs[0] is Some && canonical(srcs[0]->0) == Some(x));
        }
    }
}

/// Without a quota, the resources of an iteration are the earlier ones and
/// the distinct canonical links of its sources, each held once: a link seen
/// several times adds one resource, not more.
pub proof fn lemma_unbounded_distinct_links(l: Seq<Seq<char>>, srcs: Seq<Option<Seq<char>>>)
    requires
        l.no_duplicates(),
    ensures
        absorb(l, None, srcs).0.to_set() == l.to_set().union(canonical_links(srcs)),
        absorb(l, None, srcs).0.no_duplicates(),
        absorb(l, None, srcs).0.len() == l.to_set().union(canonical_links(srcs)).len(),
{
    let r = absorb(l, None, srcs).0;
    lemma_absorb_no_duplicates(l, None, srcs);
    assert forall|x: Seq<char>| r.to_set().contains(x) <==> l.to_set().union(
        canonical_links(srcs),
    ).contains(x) by {
        if r.contains(x) {
            lemma_absorb_from(l, None, srcs, x);
        }
        if l.contains(x) {
            lemma_absorb_keeps(l, None, srcs, x);
        }
        if canonical_links(srcs).contains(x) {
            let k = choose|k: int|
                0 <= k < srcs.len() && #[trigger] srcs[k] is Some && canonical(srcs[k]->0)
                    == Some(x);
            lemma_absorb_collects(l, srcs, k);
        }
    }
    assert(r.to_set() =~= l.to_set().union(canonical_links(srcs)));
    r.unique_seq_to_set();
}

/// Height convergence ends a target in `Done`: after an iteration that neither
/// reaches the quota nor stalls, a height equal to the last one halts the
/// engine with `Done`, and the result is what was accepted up to then.
pub proof fn lemma_height_convergence_done(m: ScrapeModel, srcs: Seq<Option<Seq<char>>>)
    requires
        m.phase == Phase::AwaitExtraction,
        !absorb(m.resources, m.quota, srcs).1,
        absorb(m.resources, m.quota, srcs).0.len() > m.resources.len() || m.stall_count + 1
            < m.stall_threshold,
    ensures
        extract_step(m, srcs).1 == Action::ReadHeight,
        height_step(extract_step(m, srcs).0, m.last_height).1 == Action::Finish(StopReason::Done),
        height_step(extract_step(m, srcs).0, m.last_height).0.resources == absorb(
            m.resources,
            m.quota,
            srcs,
        ).0,
        height_step(extract_step(m, srcs).0, m.last_height).0.phase == Phase::Finished(
            StopReason::Done,
        ),
{
}

/// The stall policy counts consecutive iterations without a new resource: one
/// without growth raises the count by one and stops the engine exactly when
/// the count reaches the threshold; one with growth resets the count to zero
/// and never stops it.
pub proof fn lemma_stall_policy(m: ScrapeModel, srcs: Seq<Option<Seq<char>>>)
    requires
        m.phase == Phase::AwaitExtraction,
        m.stall_count < m.stall_threshold,
        !absorb(m.resources, m.quota, srcs).1,
    ensures
        absorb(m.resources, m.quota, srcs).0.len() > m.resources.len() ==> extract_step(m, srcs).0.stall_count == 0
            && extract_step(m, srcs).1 == Action::ReadHeight,
        absorb(m.resources, m.quota, srcs).0.len() <= m.resources.len() ==> extract_step(m, srcs).0.stall_count
            == m.stall_count + 1 && (extract_step(m, srcs).1 == Action::Finish(StopReason::Stalled)
            <==> m.stall_count + 1 >= m.stall_threshold),
{
}

/// A page height other than `h`.
pub open spec fn other_height(h: u64) -> u64 {
    if h < u64::MAX {
        (h + 1) as u64
    } else {
        0
    }
}

/// The engine after `k` scroll iterations that reveal no source at all, each
/// followed by a changed page height (or as it stands once it has stopped).
pub open spec fn empty_rounds(m: ScrapeModel, k: nat) -> ScrapeModel
    decreases k,
{
    if k == 0 {
        m
    } else {
        let prev = empty_rounds(m, (k - 1) as nat);
        if prev.phase == Phase::AwaitExtraction {
            let e = extract_step(prev, Seq::empty()).0;
            if e.phase == Phase::AwaitHeight {
                height_step(e, other_height(e.last_height)).0
            } else {
                e
            }
        } else {
            prev
        }
    }
}

/// With a stall threshold `t`, fewer than `t` consecutive iterations without a
/// new resource leave the engine running, with that many stalls counted; the
/// `t`-th such iteration stops it as stalled, with its resources unchanged.
pub proof fn lemma_consecutive_stalls(m: ScrapeModel, k: nat)
    requires
        m.phase == Phase::AwaitExtraction,
        m.stall_count == 0,
        m.stall_threshold >= 1,
        k <= m.stall_threshold,
    ensures
        k < m.stall_threshold ==> empty_rounds(m, k).phase == Phase::AwaitExtraction
            && empty_rounds(m, k).stall_count == k,
        k == m.stall_threshold ==> empty_rounds(m, k).phase == Phase::Finished(StopReason::Stalled),
        empty_rounds(m, k).resources == m.resources,
        empty_rounds(m, k).stall_threshold == m.stall_threshold,
        empty_rounds(m, k).quota == m.quota,
    decreases k,
{
    if k > 0 {
        lemma_consecutive_stalls(m, (k - 1) as nat);
        let prev = empty_rounds(m, (k - 1) as nat);
        assert(absorb(prev.resources, prev.quota, Seq::empty()) == (prev.resources, false));
    }
}

} // verus!
