//! Tracker-side ingestion: the paginated watch-list read, modelled as a
//! state machine whose remote calls are performed by the caller. Each page of
//! raw items is filtered (entries without a list status or with a zero
//! watched count are dropped) and accumulated; the accumulated list is
//! reversed on finish, so a newest-first remote listing comes out
//! oldest-first.

use vstd::prelude::*;
use crate::date::parse_date_spec;
use crate::date::parse_date;

verus! {

/// The fixed page size of the remote list endpoint.
pub const PAGE_SIZE: u64 = 1000;

/// One raw item of a remote list page. `status_watched` carries the watched
/// count of the item's list status, or nothing when the item has no status.
pub struct RawItem {
    pub title: String,
    pub alt_title_en: Option<String>,
    pub start_date: Option<String>,
    pub status_watched: Option<u32>,
}

pub struct RawItemView {
    pub title: Seq<char>,
    pub alt_title_en: Option<Seq<char>>,
    pub start_date: Option<Seq<char>>,
    pub status_watched: Option<u32>,
}

impl View for RawItem {
    type V = RawItemView;

    open spec fn view(&self) -> RawItemView {
        RawItemView {
            title: self.title@,
            alt_title_en: self.alt_title_en.deep_view(),
            start_date: self.start_date.deep_view(),
            status_watched: self.status_watched,
        }
    }
}

/// One accepted watch-list record: a title, its optional English alternative
/// title, its optional air start date string, and a positive watched count.
pub struct TrackerEntry {
    pub title: String,
    pub alt_title_en: Option<String>,
    pub start_date: Option<String>,
    pub watched: u32,
}

pub struct EntryView {
    pub title: Seq<char>,
    pub alt_title_en: Option<Seq<char>>,
    pub start_date: Option<Seq<char>>,
    pub watched: u32,
}

impl View for TrackerEntry {
    type V = EntryView;

    open spec fn view(&self) -> EntryView {
        EntryView {
            title: self.title@,
            alt_title_en: self.alt_title_en.deep_view(),
            start_date: self.start_date.deep_view(),
            watched: self.watched,
        }
    }
}

pub open spec fn entry_views(s: Seq<TrackerEntry>) -> Seq<EntryView> {
    s.map_values(|e: TrackerEntry| e@)
}

pub open spec fn item_views(s: Seq<RawItem>) -> Seq<RawItemView> {
    s.map_values(|it: RawItem| it@)
}

/// An item survives ingest filtering exactly when it has a list status and a
/// positive watched count.
pub open spec fn keep_item(it: RawItemView) -> bool {
    match it.status_watched {
        Some(w) => w > 0,
        None => false,
    }
}

pub open spec fn item_entry(it: RawItemView) -> EntryView {
    EntryView {
        title: it.title,
        alt_title_en: it.alt_title_en,
        start_date: it.start_date,
        watched: match it.status_watched {
            Some(w) => w,
            None => 0,
        },
    }
}

/// The entries that a run of raw items contributes, in order: the kept items,
/// each turned into a tracker entry.
pub open spec fn filtered_entries(items: Seq<RawItemView>) -> Seq<EntryView>
    decreases items.len(),
{
    if items.len() == 0 {
        Seq::empty()
    } else {
        let pre = filtered_entries(items.drop_last());
        if keep_item(items.last()) {
            pre.push(item_entry(items.last()))
        } else {
            pre
        }
    }
}

/// Every entry that survives ingest filtering has a watched count of at
/// least one; items with a zero watched count or no list status contribute
/// nothing.
pub proof fn lemma_filtered_entries_watched(items: Seq<RawItemView>)
    ensures
        forall|k: int|
            0 <= k < filtered_entries(items).len() ==> (#[trigger] filtered_entries(
                items,
            )[k]).watched >= 1,
    decreases items.len(),
{
    if items.len() > 0 {
        lemma_filtered_entries_watched(items.drop_last());
    }
}

/// An item without a status, or with a zero watched count, leaves the
/// filtered list unchanged.
pub proof fn lemma_dropped_item_adds_nothing(items: Seq<RawItemView>, it: RawItemView)
    requires
        !keep_item(it),
    ensures
        filtered_entries(items.push(it)) == filtered_entries(items),
{
    assert(items.push(it).drop_last() =~= items);
}

/// The paginated-ingestion state: the entries accumulated so far, the offset
/// of the next page request, and whether pagination has ended (a short page
/// or a remote error ends it).
pub struct Ingest {
    pub entries: Vec<TrackerEntry>,
    pub offset: u64,
    pub done: bool,
}

impl Ingest {
    pub fn new() -> (r: Ingest)
        ensures
            r.entries@.len() == 0,
            r.offset == 0,
            !r.done,
    {
        Ingest { entries: Vec::new(), offset: 0, done: false }
    }

    /// Takes in one remote page: keeps the items that have a status and a
    /// positive watched count, advances the offset by the page size, and
    /// ends pagination exactly when the page is not full.
    pub fn ingest_page(&mut self, items: &Vec<RawItem>)
        requires
            !old(self).done,
            old(self).offset + PAGE_SIZE <= u64::MAX,
        ensures
            entry_views(final(self).entries@) == entry_views(old(self).entries@)
                + filtered_entries(item_views(items@)),
            final(self).offset == old(self).offset + PAGE_SIZE,
            final(self).done == (items@.len() != PAGE_SIZE),
    {
        let ghost orig = entry_views(self.entries@);
        let mut i: usize = 0;
        while i < items.len()
            invariant
                i <= items@.len(),
                self.offset == old(self).offset,
                self.done == old(self).done,
                old(self).offset + PAGE_SIZE <= u64::MAX,
                entry_views(self.entries@) == orig + filtered_entries(
                    item_views(items@).take(i as int),
                ),
            decreases items@.len() - i,
        {
            let it = &items[i];
            let ghost iv = item_views(items@);
            let ghost pre = entry_views(self.entries@);
            proof {
                assert(iv[i as int] == items@[i as int]@);
                assert(iv.take(i as int + 1).drop_last() =~= iv.take(i as int));
                assert(iv.take(i as int + 1).last() == iv[i as int]);
            }
            let keep = match &it.status_watched {
                Some(w) => *w > 0,
                None => false,
            };
            proof {
                assert(keep == keep_item(iv[i as int]));
            }
            if keep {
                let w = match &it.status_watched {
                    Some(w) => *w,
                    None => 0,
                };
                let entry = TrackerEntry {
                    title: it.title.clone(),
                    alt_title_en: clone_opt_string(&it.alt_title_en),
                    start_date: clone_opt_string(&it.start_date),
                    watched: w,
                };
                proof {
                    assert(entry@ == item_entry(iv[i as int]));
                    assert(filtered_entries(iv.take(i as int + 1)) == filtered_entries(
                        iv.take(i as int),
                    ).push(item_entry(iv[i as int])));
                }
                self.entries.push(entry);
                proof {
                    assert(entry_views(self.entries@) =~= pre.push(entry@));
                    assert(pre.push(entry@) =~= orig + filtered_entries(iv.take(i as int + 1)));
                }
            } else {
                proof {
                    assert(filtered_entries(iv.take(i as int + 1)) == filtered_entries(
                        iv.take(i as int),
                    ));
                }
            }
            i = i + 1;
        }
        proof {
            assert(item_views(items@).take(items@.len() as int) =~= item_views(items@));
        }
        self.offset = self.offset + (PAGE_SIZE as u64);
        self.done = (items.len() as u64) != PAGE_SIZE;
    }

    /// A remote error ends pagination; what was accumulated is kept, and the
    /// caller proceeds with the partial list.
    pub fn ingest_error(&mut self)
        requires
            old(self).offset + PAGE_SIZE <= u64::MAX,
        ensures
            final(self).entries == old(self).entries,
            final(self).offset == old(self).offset + PAGE_SIZE,
            final(self).done,
    {
        self.offset = self.offset + (PAGE_SIZE as u64);
        self.done = true;
    }

    /// Ends ingestion: the accumulated list, reversed, so that a newest-first
    /// remote listing is consumed oldest-first.
    pub fn finish(self) -> (r: Vec<TrackerEntry>)
        ensures
            r@ == self.entries@.reverse(),
    {
        let ghost orig = self.entries@;
        let mut src = self.entries;
        let mut out: Vec<TrackerEntry> = Vec::new();
        proof {
            assert(src@ =~= orig.take(src@.len() as int));
            assert(out@ =~= orig.skip(src@.len() as int).reverse());
        }
        while src.len() > 0
            invariant
                src@.len() <= orig.len(),
                src@ == orig.take(src@.len() as int),
                out@ == orig.skip(src@.len() as int).reverse(),
            decreases src@.len(),
        {
            let ghost k = src@.len() as int;
            let e = match src.pop() {
                Some(e) => e,
                None => unreached(),
            };
            proof {
                assert(src@ =~= orig.take(k - 1));
                assert(e == orig[k - 1]);
            }
            out.push(e);
            proof {
                assert(out@ =~= orig.skip(k - 1).reverse());
            }
        }
        proof {
            assert(orig.skip(0) =~= orig);
        }
        out
    }
}

fn clone_opt_string(o: &Option<String>) -> (r: Option<String>)
    ensures
        r.deep_view() == o.deep_view(),
{
    match o {
        Some(s) => Some(s.clone()),
        None => None,
    }
}

/// The air day denoted by an entry's start date: the day number of the
/// parsed date, or nothing when the entry has no date or the date string is
/// malformed.
pub open spec fn entry_day(e: EntryView) -> Option<int> {
    match e.start_date {
        None => None,
        Some(s) => match parse_date_spec(s) {
            Some(dv) => Some(dv.day_number()),
            None => None,
        },
    }
}

/// An entry whose date string, if present, is well formed. The driver
/// demands this of every entry it processes; a malformed date is a
/// programmer error on the remote's side and fatal before processing.
pub open spec fn entry_dates_ok(e: EntryView) -> bool {
    e.start_date matches Some(s) ==> parse_date_spec(s) is Some
}

/// The entry's air day, as the driver computes it.
pub fn entry_air_day(e: &TrackerEntry) -> (r: Option<i64>)
    ensures
        r is Some <==> entry_day(e@) is Some,
        r matches Some(x) ==> entry_day(e@) == Some(x as int),
{
    match &e.start_date {
        None => None,
        Some(s) => {
            match parse_date(s.as_str()) {
                Some(d) => Some(d.day_number()),
                None => None,
            }
        },
    }
}

/// Reversing a list whose air dates are non-increasing yields one whose air
/// dates are non-decreasing: the adapter's reversal restores oldest-first
/// processing order when the remote returns newest-first. Entries without a
/// date are unconstrained.
pub proof fn lemma_reverse_restores_date_order(entries: Seq<EntryView>)
    requires
        forall|i: int, j: int|
            0 <= i < j < entries.len() && entry_day(#[trigger] entries[i]) is Some && entry_day(
                #[trigger] entries[j],
            ) is Some ==> entry_day(entries[i])->0 >= entry_day(entries[j])->0,
    ensures
        forall|i: int, j: int|
            0 <= i < j < entries.reverse().len() && entry_day(
                #[trigger] entries.reverse()[i],
            ) is Some && entry_day(#[trigger] entries.reverse()[j]) is Some ==> entry_day(
                entries.reverse()[i],
            )->0 <= entry_day(entries.reverse()[j])->0,
{
    let rev = entries.reverse();
    assert forall|i: int, j: int|
        0 <= i < j < rev.len() && entry_day(#[trigger] rev[i]) is Some && entry_day(
            #[trigger] rev[j],
        ) is Some implies entry_day(rev[i])->0 <= entry_day(rev[j])->0 by {
        let n = entries.len();
        assert(rev[i] == entries[n - 1 - i]);
        assert(rev[j] == entries[n - 1 - j]);
        assert(entry_day(entries[n - 1 - j])->0 >= entry_day(entries[n - 1 - i])->0);
    }
}

} // verus!
