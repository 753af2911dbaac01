//! The reconciliation driver: per-entry matching against a search candidate,
//! season selection, deduplication of seasons across entries, and planning of
//! the mark calls. The remote fetches themselves are the caller's; the driver
//! decides, and its decisions are exact functions of the fetched data.

use vstd::prelude::*;
use crate::matcher::SeasonScan;
use crate::matcher::scan_spec;
use crate::matcher::accept_spec;
use crate::matcher::accept_series_normalized;
use crate::matcher::DATE_WINDOW_DAYS;
use crate::text::norm_spec;
use crate::text::normalize;
use crate::text::chars_eq;
use crate::tracker::TrackerEntry;
use crate::tracker::EntryView;
use crate::tracker::entry_day;
use crate::tracker::entry_dates_ok;
use crate::tracker::entry_air_day;

verus! {

/// One episode of a streamer season: its opaque identifier, its optional
/// number within the season, and its air date as a day number.
pub struct EpisodeData {
    pub id: String,
    pub number: Option<u32>,
    pub air_day: i64,
}

pub struct EpisodeView {
    pub id: Seq<char>,
    pub number: Option<u32>,
    pub air_day: int,
}

impl View for EpisodeData {
    type V = EpisodeView;

    open spec fn view(&self) -> EpisodeView {
        EpisodeView { id: self.id@, number: self.number, air_day: self.air_day as int }
    }
}

/// One season of a streamer series: its opaque identifier, its display
/// title, its total episode count, and its episodes in the streamer's
/// natural order.
pub struct SeasonData {
    pub id: String,
    pub title: String,
    pub number_of_episodes: u32,
    pub episodes: Vec<EpisodeData>,
}

pub struct SeasonView {
    pub id: Seq<char>,
    pub title: Seq<char>,
    pub number_of_episodes: u32,
    pub episodes: Seq<EpisodeView>,
}

pub open spec fn episode_views(s: Seq<EpisodeData>) -> Seq<EpisodeView> {
    s.map_values(|e: EpisodeData| e@)
}

impl View for SeasonData {
    type V = SeasonView;

    open spec fn view(&self) -> SeasonView {
        SeasonView {
            id: self.id@,
            title: self.title@,
            number_of_episodes: self.number_of_episodes,
            episodes: episode_views(self.episodes@),
        }
    }
}

/// One streamer series as returned by title search: its display title and
/// its seasons in the streamer's natural order.
pub struct SeriesData {
    pub title: String,
    pub seasons: Vec<SeasonData>,
}

pub struct SeriesView {
    pub title: Seq<char>,
    pub seasons: Seq<SeasonView>,
}

pub open spec fn season_views(s: Seq<SeasonData>) -> Seq<SeasonView> {
    s.map_values(|x: SeasonData| x@)
}

impl View for SeriesData {
    type V = SeriesView;

    open spec fn view(&self) -> SeriesView {
        SeriesView { title: self.title@, seasons: season_views(self.seasons@) }
    }
}

/// One progress-mark call issued to the streamer: either a whole season or a
/// single episode, by its opaque identifier.
pub enum MarkCall {
    Season(String),
    Episode(String),
}

pub enum MarkCallView {
    Season(Seq<char>),
    Episode(Seq<char>),
}

impl View for MarkCall {
    type V = MarkCallView;

    open spec fn view(&self) -> MarkCallView {
        match self {
            MarkCall::Season(id) => MarkCallView::Season(id@),
            MarkCall::Episode(id) => MarkCallView::Episode(id@),
        }
    }
}

pub open spec fn call_views(s: Seq<MarkCall>) -> Seq<MarkCallView> {
    s.map_values(|c: MarkCall| c@)
}

pub open spec fn is_season_call(c: MarkCallView) -> bool {
    c is Season
}

pub open spec fn call_id(c: MarkCallView) -> Seq<char> {
    match c {
        MarkCallView::Season(id) => id,
        MarkCallView::Episode(id) => id,
    }
}

impl MarkCall {
    /// Whether this is a season-level call.
    pub fn is_season(&self) -> (r: bool)
        ensures
            r == is_season_call(self@),
    {
        match self {
            MarkCall::Season(_) => true,
            MarkCall::Episode(_) => false,
        }
    }

    /// The identifier the call marks.
    pub fn id(&self) -> (r: &String)
        ensures
            r@ == call_id(self@),
    {
        match self {
            MarkCall::Season(id) => id,
            MarkCall::Episode(id) => id,
        }
    }
}

/// The set of season identifiers already marked within the current run. It
/// grows monotonically: identifiers are only ever inserted, never removed,
/// so a season marked once is never offered for marking again.
pub struct TreatedSet {
    ids: Vec<String>,
}

impl View for TreatedSet {
    type V = Set<Seq<char>>;

    closed spec fn view(&self) -> Set<Seq<char>> {
        Set::new(
            |t: Seq<char>|
                exists|i: int| 0 <= i < self.ids@.len() && (#[trigger] self.ids@[i])@ == t,
        )
    }
}

impl TreatedSet {
    /// The empty set: no season has been marked yet.
    pub fn new() -> (r: TreatedSet)
        ensures
            r@ == Set::<Seq<char>>::empty(),
    {
        let r = TreatedSet { ids: Vec::new() };
        proof {
            assert(r@ =~= Set::<Seq<char>>::empty());
        }
        r
    }

    /// Whether the identifier has been marked in this run.
    pub fn contains(&self, id: &String) -> (r: bool)
        ensures
            r == self@.contains(id@),
    {
        let mut i: usize = 0;
        while i < self.ids.len()
            invariant
                i <= self.ids@.len(),
                forall|k: int| 0 <= k < i ==> (#[trigger] self.ids@[k])@ != id@,
            decreases self.ids@.len() - i,
        {
            if self.ids[i] == *id {
                proof {
                    assert(0 <= i < self.ids@.len() && (self.ids@[i as int])@ == id@);
                    assert(self@.contains(id@));
                }
                return true;
            }
            i = i + 1;
        }
        assert(!self@.contains(id@));
        false
    }

    /// Records the identifier as marked. The set only grows.
    pub fn insert(&mut self, id: String)
        ensures
            final(self)@ == old(self)@.insert(id@),
    {
        let ghost pre = self.ids@;
        self.ids.push(id);
        proof {
            assert forall|t: Seq<char>| final(self)@.contains(t) implies old(self)@.insert(
                id@,
            ).contains(t) by {
                let i = choose|i: int|
                    0 <= i < self.ids@.len() && (#[trigger] self.ids@[i])@ == t;
                if i < pre.len() {
                    assert(pre[i]@ == t);
                }
            }
            assert forall|t: Seq<char>|
                old(self)@.insert(id@).contains(t) implies final(self)@.contains(t) by {
                if t == id@ {
                    assert((self.ids@[pre.len() as int])@ == t);
                } else {
                    let i = choose|i: int| 0 <= i < pre.len() && (#[trigger] pre[i])@ == t;
                    assert((self.ids@[i])@ == t);
                }
            }
            assert(final(self)@ =~= old(self)@.insert(id@));
        }
    }
}

/// An episode is eligible for an individual mark when its number is
/// undefined, or defined, nonzero and at most the watched count.
pub open spec fn episode_eligible(e: EpisodeView, watched: u32) -> bool {
    match e.number {
        None => true,
        Some(k) => 1 <= k <= watched,
    }
}

/// The identifiers of the eligible episodes, in order.
pub open spec fn eligible_ids(eps: Seq<EpisodeView>, watched: u32) -> Seq<Seq<char>>
    decreases eps.len(),
{
    if eps.len() == 0 {
        Seq::empty()
    } else {
        let pre = eligible_ids(eps.drop_last(), watched);
        if episode_eligible(eps.last(), watched) {
            pre.push(eps.last().id)
        } else {
            pre
        }
    }
}

/// The identifiers of the zero-numbered episodes, in order. An episode-level
/// plan skips them; they are reported as a diagnostic, since some series
/// expose a preview numbered zero that the tracker does not count.
pub open spec fn zero_ids(eps: Seq<EpisodeView>) -> Seq<Seq<char>>
    decreases eps.len(),
{
    if eps.len() == 0 {
        Seq::empty()
    } else {
        let pre = zero_ids(eps.drop_last());
        if eps.last().number == Some(0u32) {
            pre.push(eps.last().id)
        } else {
            pre
        }
    }
}

pub open spec fn episode_calls(ids: Seq<Seq<char>>) -> Seq<MarkCallView> {
    ids.map_values(|id: Seq<char>| MarkCallView::Episode(id))
}

/// The mark calls planned for an accepted season: one season-level call when
/// the watched count equals the season's total episode count, otherwise one
/// episode-level call per eligible episode, in episode order.
pub open spec fn plan_spec(season: SeasonView, watched: u32) -> Seq<MarkCallView> {
    if watched == season.number_of_episodes {
        seq![MarkCallView::Season(season.id)]
    } else {
        episode_calls(eligible_ids(season.episodes, watched))
    }
}

pub open spec fn count_in_range(eps: Seq<EpisodeView>, watched: u32) -> nat
    decreases eps.len(),
{
    if eps.len() == 0 {
        0
    } else {
        count_in_range(eps.drop_last(), watched) + if eps.last().number matches Some(k) && 1 <= k
            <= watched {
            1nat
        } else {
            0nat
        }
    }
}

pub open spec fn count_undefined(eps: Seq<EpisodeView>) -> nat
    decreases eps.len(),
{
    if eps.len() == 0 {
        0
    } else {
        count_undefined(eps.drop_last()) + if eps.last().number is None {
            1nat
        } else {
            0nat
        }
    }
}

proof fn lemma_episode_plan_count(eps: Seq<EpisodeView>, watched: u32)
    ensures
        eligible_ids(eps, watched).len() == count_in_range(eps, watched) + count_undefined(eps),
    decreases eps.len(),
{
    if eps.len() > 0 {
        lemma_episode_plan_count(eps.drop_last(), watched);
    }
}

/// For an accepted season the plan issues either exactly one season-level
/// call carrying the season's identifier — when the watched count equals the
/// season's total episode count — or one episode-level call per eligible
/// episode: as many as there are episodes numbered within `[1, watched]`,
/// plus those without a number.
pub proof fn lemma_plan_marks(season: SeasonView, watched: u32)
    ensures
        watched == season.number_of_episodes ==> plan_spec(season, watched) == seq![
            MarkCallView::Season(season.id),
        ],
        watched != season.number_of_episodes ==> plan_spec(season, watched).len()
            == count_in_range(season.episodes, watched) + count_undefined(season.episodes),
        forall|p: int|
            0 <= p < plan_spec(season, watched).len() && watched != season.number_of_episodes
                ==> !is_season_call(#[trigger] plan_spec(season, watched)[p]),
{
    lemma_episode_plan_count(season.episodes, watched);
}

/// Plans the mark calls for an accepted season against a watched count.
pub fn mark_plan(season: &SeasonData, watched: u32) -> (r: Vec<MarkCall>)
    ensures
        call_views(r@) == plan_spec(season@, watched),
{
    let mut r: Vec<MarkCall> = Vec::new();
    if watched == season.number_of_episodes {
        r.push(MarkCall::Season(season.id.clone()));
        proof {
            assert(call_views(r@) =~= plan_spec(season@, watched));
        }
        return r;
    }
    let mut i: usize = 0;
    let n = season.episodes.len();
    while i < n
        invariant
            i <= n,
            n == season.episodes@.len(),
            watched != season@.number_of_episodes,
            call_views(r@) == episode_calls(
                eligible_ids(episode_views(season.episodes@).take(i as int), watched),
            ),
        decreases n - i,
    {
        let ep = &season.episodes[i];
        let ghost evs = episode_views(season.episodes@);
        proof {
            assert(evs[i as int] == season.episodes@[i as int]@);
            assert(evs.take(i as int + 1).drop_last() =~= evs.take(i as int));
            assert(evs.take(i as int + 1).last() == evs[i as int]);
        }
        let eligible = match &ep.number {
            None => true,
            Some(k) => 1 <= *k && *k <= watched,
        };
        proof {
            assert(eligible == episode_eligible(evs[i as int], watched));
        }
        if eligible {
            let ghost prev_calls = call_views(r@);
            let ghost prev_ids = eligible_ids(evs.take(i as int), watched);
            r.push(MarkCall::Episode(ep.id.clone()));
            proof {
                assert(eligible_ids(evs.take(i as int + 1), watched) == prev_ids.push(
                    evs[i as int].id,
                ));
                assert(call_views(r@) =~= prev_calls.push(
                    MarkCallView::Episode(evs[i as int].id),
                ));
                assert(episode_calls(prev_ids.push(evs[i as int].id)) =~= episode_calls(
                    prev_ids,
                ).push(MarkCallView::Episode(evs[i as int].id)));
            }
        } else {
            proof {
                assert(eligible_ids(evs.take(i as int + 1), watched) == eligible_ids(
                    evs.take(i as int),
                    watched,
                ));
            }
        }
        i = i + 1;
        proof {
            assert(call_views(r@) =~= episode_calls(eligible_ids(evs.take(i as int), watched)));
        }
    }
    proof {
        assert(episode_views(season.episodes@).take(n as int) =~= episode_views(
            season.episodes@,
        ));
    }
    r
}

/// Collects the zero-numbered episodes of a season, for the skip diagnostic.
fn zero_numbered_ids(eps: &Vec<EpisodeData>) -> (r: Vec<String>)
    ensures
        string_views(r@) == zero_ids(episode_views(eps@)),
{
    let mut r: Vec<String> = Vec::new();
    let mut i: usize = 0;
    let n = eps.len();
    proof {
        assert(string_views(r@) =~= zero_ids(episode_views(eps@).take(0)));
    }
    while i < n
        invariant
            i <= n,
            n == eps@.len(),
            string_views(r@) == zero_ids(episode_views(eps@).take(i as int)),
        decreases n - i,
    {
        let ep = &eps[i];
        let ghost evs = episode_views(eps@);
        proof {
            assert(evs[i as int] == eps@[i as int]@);
            assert(evs.take(i as int + 1).drop_last() =~= evs.take(i as int));
            assert(evs.take(i as int + 1).last() == evs[i as int]);
        }
        let is_zero = match &ep.number {
            Some(k) => *k == 0,
            None => false,
        };
        if is_zero {
            let ghost pre = string_views(r@);
            r.push(ep.id.clone());
            proof {
                assert(zero_ids(evs.take(i as int + 1)) == pre.push(evs[i as int].id));
                assert(string_views(r@) =~= pre.push(evs[i as int].id));
            }
        } else {
            proof {
                assert(zero_ids(evs.take(i as int + 1)) == zero_ids(evs.take(i as int)));
            }
        }
        i = i + 1;
    }
    proof {
        assert(episode_views(eps@).take(n as int) =~= episode_views(eps@));
    }
    r
}

/// The raw query title of an entry: the English alternative title when
/// present and nonempty, the canonical title otherwise.
pub open spec fn raw_query_title(e: EntryView) -> Seq<char> {
    match e.alt_title_en {
        Some(t) => if t.len() > 0 {
            t
        } else {
            e.title
        },
        None => e.title,
    }
}

/// The query title the driver matches with: the preferred title, normalized.
pub open spec fn query_spec(e: EntryView) -> Seq<char> {
    norm_spec(raw_query_title(e))
}

/// Computes the normalized query title of an entry.
pub fn query_title(e: &TrackerEntry) -> (r: Vec<char>)
    ensures
        r@ == query_spec(e@),
{
    match &e.alt_title_en {
        Some(t) => {
            if t.as_str().unicode_len() > 0 {
                normalize(t.as_str())
            } else {
                normalize(e.title.as_str())
            }
        },
        None => normalize(e.title.as_str()),
    }
}

pub open spec fn episode_days(eps: Seq<EpisodeView>) -> Seq<int> {
    eps.map_values(|e: EpisodeView| e.air_day)
}

/// Walks a season's episodes in order against the query air day `d`,
/// deciding acceptance, rejection, or abandonment of the whole series, by
/// the `scan_spec` policy.
#[verifier::loop_isolation(false)]
pub fn scan_season(eps: &Vec<EpisodeData>, d: i64) -> (r: SeasonScan)
    ensures
        r == scan_spec(episode_days(episode_views(eps@)), d as int),
{
    let ghost days = episode_days(episode_views(eps@));
    let n = eps.len();
    let mut i: usize = 0;
    proof {
        assert(days.skip(0) =~= days);
    }
    while i < n
        invariant
            i <= n,
            scan_spec(days, d as int) == scan_spec(days.skip(i as int), d as int),
        decreases n - i,
    {
        proof {
            assert(days.skip(i as int)[0] == eps@[i as int]@.air_day);
            assert(days.skip(i as int).drop_first() =~= days.skip(i as int + 1));
        }
        let e = eps[i].air_day;
        let diff: i128 = (e as i128) - (d as i128);
        if -(DATE_WINDOW_DAYS as i128) <= diff && diff <= DATE_WINDOW_DAYS as i128 {
            return SeasonScan::Accept;
        }
        if diff > DATE_WINDOW_DAYS as i128 {
            return SeasonScan::AbandonSeries;
        }
        i = i + 1;
    }
    proof {
        assert(days.skip(n as int) =~= Seq::<int>::empty());
    }
    SeasonScan::Reject
}

/// The first acceptable season at or after index `i`: the walk skips seasons
/// already treated, accepts on exact normalized title equality without
/// consulting dates, and otherwise decides by the air-date window, where a
/// past-window episode abandons the whole series; with no query date a
/// season can only be accepted by title.
pub open spec fn pick_from(
    seasons: Seq<SeasonView>,
    q: Seq<char>,
    d: Option<int>,
    treated: Set<Seq<char>>,
    i: int,
) -> Option<int>
    decreases seasons.len() - i,
{
    if i < 0 || i >= seasons.len() {
        None::<int>
    } else {
        let s = seasons[i];
        if treated.contains(s.id) {
            pick_from(seasons, q, d, treated, i + 1)
        } else if norm_spec(s.title) == q {
            Some(i)
        } else {
            match d {
                None => pick_from(seasons, q, d, treated, i + 1),
                Some(dd) => match scan_spec(episode_days(s.episodes), dd) {
                    SeasonScan::Accept => Some(i),
                    SeasonScan::AbandonSeries => None::<int>,
                    SeasonScan::Reject => pick_from(seasons, q, d, treated, i + 1),
                },
            }
        }
    }
}

/// A picked season lies within the list and was not already treated.
pub proof fn lemma_pick_not_treated(
    seasons: Seq<SeasonView>,
    q: Seq<char>,
    d: Option<int>,
    treated: Set<Seq<char>>,
    i: int,
)
    ensures
        pick_from(seasons, q, d, treated, i) matches Some(k) ==> i <= k < seasons.len()
            && !treated.contains(seasons[k].id),
    decreases seasons.len() - i,
{
    if 0 <= i < seasons.len() {
        lemma_pick_not_treated(seasons, q, d, treated, i + 1);
    }
}

pub open spec fn opt_series_view(c: Option<&SeriesData>) -> Option<SeriesView> {
    match c {
        Some(s) => Some(s@),
        None => None,
    }
}

/// The season the driver picks for an entry: none unless the candidate
/// passes series acceptance; otherwise the first acceptable season.
pub open spec fn entry_pick(e: EntryView, series: SeriesView, treated: Set<Seq<char>>) -> Option<
    int,
> {
    if accept_spec(query_spec(e), norm_spec(series.title)) {
        pick_from(series.seasons, query_spec(e), entry_day(e), treated, 0)
    } else {
        None
    }
}

/// The mark calls the driver issues for one entry against its first search
/// candidate: the plan of the picked season, or none.
pub open spec fn entry_calls(
    e: EntryView,
    cand: Option<SeriesView>,
    treated: Set<Seq<char>>,
) -> Seq<MarkCallView> {
    match cand {
        None => Seq::empty(),
        Some(series) => match entry_pick(e, series, treated) {
            Some(k) => plan_spec(series.seasons[k], e.watched),
            None => Seq::empty(),
        },
    }
}

/// Whether the entry resolves: a candidate exists, is accepted, and one of
/// its seasons is picked. An unresolved entry is reported, not marked.
pub open spec fn entry_resolved(
    e: EntryView,
    cand: Option<SeriesView>,
    treated: Set<Seq<char>>,
) -> bool {
    cand matches Some(series) && entry_pick(e, series, treated) is Some
}

/// The treated set after one entry: the picked season's identifier is
/// recorded; an unresolved entry records nothing.
pub open spec fn entry_new_treated(
    e: EntryView,
    cand: Option<SeriesView>,
    treated: Set<Seq<char>>,
) -> Set<Seq<char>> {
    match cand {
        None => treated,
        Some(series) => match entry_pick(e, series, treated) {
            Some(k) => treated.insert(series.seasons[k].id),
            None => treated,
        },
    }
}

/// The zero-numbered episode identifiers skipped for one entry: those of the
/// picked season when it is marked episode by episode; none otherwise.
pub open spec fn entry_zero_skipped(
    e: EntryView,
    cand: Option<SeriesView>,
    treated: Set<Seq<char>>,
) -> Seq<Seq<char>> {
    match cand {
        None => Seq::empty(),
        Some(series) => match entry_pick(e, series, treated) {
            Some(k) => if e.watched == series.seasons[k].number_of_episodes {
                Seq::empty()
            } else {
                zero_ids(series.seasons[k].episodes)
            },
            None => Seq::empty(),
        },
    }
}

/// The display title of the picked season, for diagnostics; nothing when the
/// entry does not resolve.
pub open spec fn entry_season_title(
    e: EntryView,
    cand: Option<SeriesView>,
    treated: Set<Seq<char>>,
) -> Option<Seq<char>> {
    match cand {
        None => None,
        Some(series) => match entry_pick(e, series, treated) {
            Some(k) => Some(series.seasons[k].title),
            None => None,
        },
    }
}

/// What one entry's processing produced: the planned mark calls, whether the
/// entry resolved to a season at all, and the diagnostics of the plan — the
/// picked season's display title and the zero-numbered episodes it skipped.
pub struct EntryOutcome {
    pub calls: Vec<MarkCall>,
    pub resolved: bool,
    pub season_title: Option<String>,
    pub zero_skipped: Vec<String>,
}

/// Processes one tracker entry against its first search candidate: runs the
/// series acceptance test; walks the seasons in order for the first one that
/// is not yet treated and passes the season test; plans that season's mark
/// calls and records its identifier in the treated set.
#[verifier::loop_isolation(false)]
pub fn process_entry(
    entry: &TrackerEntry,
    candidate: Option<&SeriesData>,
    treated: &mut TreatedSet,
) -> (out: EntryOutcome)
    requires
        entry_dates_ok(entry@),
    ensures
        call_views(out.calls@) == entry_calls(entry@, opt_series_view(candidate), old(treated)@),
        out.resolved == entry_resolved(entry@, opt_series_view(candidate), old(treated)@),
        final(treated)@ == entry_new_treated(entry@, opt_series_view(candidate), old(treated)@),
        out.season_title.deep_view() == entry_season_title(
            entry@,
            opt_series_view(candidate),
            old(treated)@,
        ),
        string_views(out.zero_skipped@) == entry_zero_skipped(
            entry@,
            opt_series_view(candidate),
            old(treated)@,
        ),
{
    proof {
        assert(call_views(Seq::<MarkCall>::empty()) =~= Seq::<MarkCallView>::empty());
        assert(string_views(Seq::<String>::empty()) =~= Seq::<Seq<char>>::empty());
    }
    let series = match candidate {
        None => {
            return EntryOutcome {
                calls: Vec::new(),
                resolved: false,
                season_title: None,
                zero_skipped: Vec::new(),
            };
        },
        Some(s) => s,
    };
    let q = query_title(entry);
    let day = entry_air_day(entry);
    let ghost qd = entry_day(entry@);
    let ct = normalize(series.title.as_str());
    if !accept_series_normalized(&q, &ct) {
        return EntryOutcome {
            calls: Vec::new(),
            resolved: false,
            season_title: None,
            zero_skipped: Vec::new(),
        };
    }
    let n = series.seasons.len();
    let mut i: usize = 0;
    while i < n
        invariant
            i <= n,
            treated@ == old(treated)@,
            pick_from(series@.seasons, query_spec(entry@), qd, old(treated)@, 0) == pick_from(
                series@.seasons,
                query_spec(entry@),
                qd,
                old(treated)@,
                i as int,
            ),
        decreases n - i,
    {
        let season = &series.seasons[i];
        let ghost sv = series@.seasons[i as int];
        proof {
            assert(sv == season@);
        }
        if treated.contains(&season.id) {
            i = i + 1;
        } else {
            let st = normalize(season.title.as_str());
            if chars_eq(&st, &q) {
                proof {
                    assert(pick_from(
                        series@.seasons,
                        query_spec(entry@),
                        qd,
                        old(treated)@,
                        i as int,
                    ) == Some(i as int));
                }
                let calls = mark_plan(season, entry.watched);
                let zero_skipped = if entry.watched == season.number_of_episodes {
                    Vec::new()
                } else {
                    zero_numbered_ids(&season.episodes)
                };
                let season_title = Some(season.title.clone());
                treated.insert(season.id.clone());
                return EntryOutcome { calls, resolved: true, season_title, zero_skipped };
            }
            match day {
                None => {
                    i = i + 1;
                },
                Some(d) => {
                    match scan_season(&season.episodes, d) {
                        SeasonScan::Accept => {
                            proof {
                                assert(pick_from(
                                    series@.seasons,
                                    query_spec(entry@),
                                    qd,
                                    old(treated)@,
                                    i as int,
                                ) == Some(i as int));
                            }
                            let calls = mark_plan(season, entry.watched);
                            let zero_skipped = if entry.watched == season.number_of_episodes {
                                Vec::new()
                            } else {
                                zero_numbered_ids(&season.episodes)
                            };
                            let season_title = Some(season.title.clone());
                            treated.insert(season.id.clone());
                            return EntryOutcome { calls, resolved: true, season_title, zero_skipped };
                        },
                        SeasonScan::AbandonSeries => {
                            proof {
                                assert(pick_from(
                                    series@.seasons,
                                    query_spec(entry@),
                                    qd,
                                    old(treated)@,
                                    i as int,
                                ) is None);
                            }
                            return EntryOutcome {
                                calls: Vec::new(),
                                resolved: false,
                                season_title: None,
                                zero_skipped: Vec::new(),
                            };
                        },
                        SeasonScan::Reject => {
                            i = i + 1;
                        },
                    }
                },
            }
        }
    }
    EntryOutcome { calls: Vec::new(), resolved: false, season_title: None, zero_skipped: Vec::new() }
}

pub open spec fn series_opt_views(s: Seq<Option<SeriesData>>) -> Seq<Option<SeriesView>> {
    s.map_values(
        |o: Option<SeriesData>|
            match o {
                Some(x) => Some(x@),
                None => None::<SeriesView>,
            },
    )
}

pub open spec fn string_views(s: Seq<String>) -> Seq<Seq<char>> {
    s.map_values(|x: String| x@)
}

/// The mark calls of a whole run from entry `i` on, oldest entry first, with
/// `treated` threading through: each entry's calls, then the rest of the run
/// under the treated set the entry left behind.
pub open spec fn run_calls(
    entries: Seq<EntryView>,
    cands: Seq<Option<SeriesView>>,
    treated: Set<Seq<char>>,
    i: int,
) -> Seq<MarkCallView>
    decreases entries.len() - i,
{
    if i < 0 || i >= entries.len() {
        Seq::empty()
    } else {
        entry_calls(entries[i], cands[i], treated) + run_calls(
            entries,
            cands,
            entry_new_treated(entries[i], cands[i], treated),
            i + 1,
        )
    }
}

/// The unresolved report of a whole run from entry `i` on: the query title
/// of every entry that does not resolve, in processing order.
pub open spec fn run_unresolved(
    entries: Seq<EntryView>,
    cands: Seq<Option<SeriesView>>,
    treated: Set<Seq<char>>,
    i: int,
) -> Seq<Seq<char>>
    decreases entries.len() - i,
{
    if i < 0 || i >= entries.len() {
        Seq::empty()
    } else {
        let head: Seq<Seq<char>> = if entry_resolved(entries[i], cands[i], treated) {
            Seq::empty()
        } else {
            seq![query_spec(entries[i])]
        };
        head + run_unresolved(
            entries,
            cands,
            entry_new_treated(entries[i], cands[i], treated),
            i + 1,
        )
    }
}

/// No two season-level calls of a run carry the same identifier.
pub open spec fn season_calls_unique(calls: Seq<MarkCallView>) -> bool {
    forall|p: int, r: int|
        0 <= p < r < calls.len() && is_season_call(#[trigger] calls[p]) && is_season_call(
            #[trigger] calls[r],
        ) ==> call_id(calls[p]) != call_id(calls[r])
}

/// Every season-level call a plan issues marks the planned season itself.
proof fn lemma_plan_season_calls(season: SeasonView, watched: u32)
    ensures
        forall|p: int|
            0 <= p < plan_spec(season, watched).len() && is_season_call(
                #[trigger] plan_spec(season, watched)[p],
            ) ==> plan_spec(season, watched)[p] == MarkCallView::Season(season.id),
{
}

/// A season identifier receives at most one season-level mark call per run,
/// and none that the treated set already holds: the treated set grows with
/// every picked season and the walk skips treated seasons.
pub proof fn lemma_run_season_calls_unique(
    entries: Seq<EntryView>,
    cands: Seq<Option<SeriesView>>,
    treated: Set<Seq<char>>,
    i: int,
)
    ensures
        season_calls_unique(run_calls(entries, cands, treated, i)),
        forall|p: int|
            0 <= p < run_calls(entries, cands, treated, i).len() && is_season_call(
                #[trigger] run_calls(entries, cands, treated, i)[p],
            ) ==> !treated.contains(call_id(run_calls(entries, cands, treated, i)[p])),
    decreases entries.len() - i,
{
    if i < 0 || i >= entries.len() {
    } else {
        let ec = entry_calls(entries[i], cands[i], treated);
        let t1 = entry_new_treated(entries[i], cands[i], treated);
        let rest = run_calls(entries, cands, t1, i + 1);
        let whole = run_calls(entries, cands, treated, i);
        lemma_run_season_calls_unique(entries, cands, t1, i + 1);
        assert(whole == ec + rest);
        match cands[i] {
            None => {
                assert(whole =~= rest);
            },
            Some(series) => {
                match entry_pick(entries[i], series, treated) {
                    None => {
                        assert(whole =~= rest);
                    },
                    Some(k) => {
                        lemma_pick_not_treated(
                            series.seasons,
                            query_spec(entries[i]),
                            entry_day(entries[i]),
                            treated,
                            0,
                        );
                        let sid = series.seasons[k].id;
                        assert(!treated.contains(sid));
                        assert(t1 == treated.insert(sid));
                        lemma_plan_season_calls(series.seasons[k], entries[i].watched);
                        assert forall|p: int|
                            0 <= p < whole.len() && is_season_call(
                                #[trigger] whole[p],
                            ) implies !treated.contains(call_id(whole[p])) by {
                            if p < ec.len() {
                                assert(whole[p] == ec[p]);
                                assert(whole[p] == MarkCallView::Season(sid));
                            } else {
                                assert(whole[p] == rest[p - ec.len()]);
                                assert(!t1.contains(call_id(whole[p])));
                            }
                        }
                        assert forall|p: int, r: int|
                            0 <= p < r < whole.len() && is_season_call(
                                #[trigger] whole[p],
                            ) && is_season_call(#[trigger] whole[r]) implies call_id(whole[p])
                            != call_id(whole[r]) by {
                            if r < ec.len() {
                                assert(whole[p] == ec[p] && whole[r] == ec[r]);
                                assert(ec[p] == MarkCallView::Season(sid));
                                assert(ec[r] == MarkCallView::Season(sid));
                                assert(ec == plan_spec(series.seasons[k], entries[i].watched));
                                assert(ec.len() <= 1) by {
                                    if entries[i].watched != series.seasons[k].number_of_episodes {
                                        assert(!is_season_call(ec[p]));
                                    }
                                }
                            } else if p < ec.len() {
                                assert(whole[p] == ec[p]);
                                assert(whole[p] == MarkCallView::Season(sid));
                                assert(whole[r] == rest[r - ec.len()]);
                                assert(!t1.contains(call_id(whole[r])));
                                assert(t1.contains(sid));
                            } else {
                                assert(whole[p] == rest[p - ec.len()]);
                                assert(whole[r] == rest[r - ec.len()]);
                            }
                        }
                    },
                }
            },
        }
    }
}

/// What a whole run produced: the mark calls in issue order, and the
/// normalized query titles of the entries that did not resolve.
pub struct RunOutcome {
    pub calls: Vec<MarkCall>,
    pub unresolved: Vec<String>,
}

/// Reconciles the whole watch list against its per-entry search candidates,
/// oldest first: processes each entry in order, sharing one treated set that
/// starts empty, and accumulates the mark calls and the unresolved query
/// titles. No season identifier receives two season-level calls.
#[verifier::loop_isolation(false)]
pub fn reconcile(entries: &Vec<TrackerEntry>, candidates: &Vec<Option<SeriesData>>) -> (out:
    RunOutcome)
    requires
        candidates@.len() == entries@.len(),
        forall|k: int|
            0 <= k < entries@.len() ==> entry_dates_ok((#[trigger] entries@[k])@),
    ensures
        call_views(out.calls@) == run_calls(
            crate::tracker::entry_views(entries@),
            series_opt_views(candidates@),
            Set::empty(),
            0,
        ),
        string_views(out.unresolved@) == run_unresolved(
            crate::tracker::entry_views(entries@),
            series_opt_views(candidates@),
            Set::empty(),
            0,
        ),
        season_calls_unique(call_views(out.calls@)),
{
    let ghost evs = crate::tracker::entry_views(entries@);
    let ghost cvs = series_opt_views(candidates@);
    let mut treated = TreatedSet::new();
    let mut calls: Vec<MarkCall> = Vec::new();
    let mut unresolved: Vec<String> = Vec::new();
    let mut k: usize = 0;
    proof {
        assert(call_views(calls@) =~= Seq::<MarkCallView>::empty());
        assert(string_views(unresolved@) =~= Seq::<Seq<char>>::empty());
        assert(call_views(calls@) + run_calls(evs, cvs, treated@, 0) =~= run_calls(
            evs,
            cvs,
            Set::empty(),
            0,
        ));
        assert(string_views(unresolved@) + run_unresolved(evs, cvs, treated@, 0) =~= run_unresolved(
            evs,
            cvs,
            Set::empty(),
            0,
        ));
    }
    while k < entries.len()
        invariant
            k <= entries@.len(),
            call_views(calls@) + run_calls(evs, cvs, treated@, k as int) == run_calls(
                evs,
                cvs,
                Set::empty(),
                0,
            ),
            string_views(unresolved@) + run_unresolved(evs, cvs, treated@, k as int)
                == run_unresolved(evs, cvs, Set::empty(), 0),
        decreases entries@.len() - k,
    {
        let entry = &entries[k];
        let cand: Option<&SeriesData> = match &candidates[k] {
            Some(s) => Some(s),
            None => None,
        };
        proof {
            assert(evs[k as int] == entry@);
            assert(cvs[k as int] == opt_series_view(cand));
        }
        let ghost pre_t = treated@;
        let ghost pre_calls = call_views(calls@);
        let ghost pre_unres = string_views(unresolved@);
        let out = process_entry(entry, cand, &mut treated);
        let EntryOutcome { calls: mut ec, resolved, season_title: _, zero_skipped: _ } = out;
        let ghost ecv = call_views(ec@);
        calls.append(&mut ec);
        if !resolved {
            let qt = query_title(entry);
            unresolved.push(crate::text::string_of_chars(&qt));
        }
        proof {
            assert(call_views(calls@) =~= pre_calls + ecv);
            assert((pre_calls + ecv) + run_calls(evs, cvs, treated@, k as int + 1) =~= pre_calls + (
            ecv + run_calls(evs, cvs, treated@, k as int + 1)));
            assert(ecv + run_calls(evs, cvs, treated@, k as int + 1) == run_calls(
                evs,
                cvs,
                pre_t,
                k as int,
            ));
            if resolved {
                assert(string_views(unresolved@) =~= pre_unres);
                assert(run_unresolved(evs, cvs, pre_t, k as int) == run_unresolved(
                    evs,
                    cvs,
                    treated@,
                    k as int + 1,
                ));
            } else {
                assert(string_views(unresolved@) =~= pre_unres.push(query_spec(entry@)));
                assert(run_unresolved(evs, cvs, pre_t, k as int) == seq![query_spec(entry@)]
                    + run_unresolved(evs, cvs, treated@, k as int + 1));
                assert(pre_unres.push(query_spec(entry@)) + run_unresolved(
                    evs,
                    cvs,
                    treated@,
                    k as int + 1,
                ) =~= pre_unres + (seq![query_spec(entry@)] + run_unresolved(
                    evs,
                    cvs,
                    treated@,
                    k as int + 1,
                )));
            }
        }
        k = k + 1;
    }
    proof {
        assert(run_calls(evs, cvs, treated@, k as int) =~= Seq::<MarkCallView>::empty());
        assert(run_unresolved(evs, cvs, treated@, k as int) =~= Seq::<Seq<char>>::empty());
        assert(call_views(calls@) =~= call_views(calls@) + Seq::<MarkCallView>::empty());
        assert(string_views(unresolved@) =~= string_views(unresolved@) + Seq::<Seq<char>>::empty());
        lemma_run_season_calls_unique(evs, cvs, Set::empty(), 0);
    }
    RunOutcome { calls, unresolved }
}

} // verus!
