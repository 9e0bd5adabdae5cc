//! The record of which proxies worked and when.

use crate::discovery;
use crate::discovery::{normalize_candidate, CandidateUrl};
use crate::order;
use crate::order::{compare_chars, compare_counts, Order};
use crate::ranking;
use crate::text;
use crate::text::{chars_of, same_text};
use crate::weburl;
use crate::weburl::Url;
use vstd::prelude::*;

verus! {

/// The version of the cache format.
pub const CACHE_SCHEMA_VERSION: u32 = 1;

/// The most entries that are kept.
pub const HARD_MAX_CACHE_ENTRIES: usize = 64;

/// An entry by its values.
#[verifier::ext_equal]
pub struct EntryModel {
    pub url: Seq<char>,
    pub last_success: Option<u64>,
    pub last_failure: Option<u64>,
}

/// When a proxy last worked and last failed, in seconds since the epoch.
#[derive(Debug, PartialEq, Eq)]
pub struct HealthEntry {
    pub url: String,
    pub last_success: Option<u64>,
    pub last_failure: Option<u64>,
}

impl View for HealthEntry {
    type V = EntryModel;

    open spec fn view(&self) -> EntryModel {
        EntryModel {
            url: self.url@,
            last_success: self.last_success,
            last_failure: self.last_failure,
        }
    }
}

/// Entries by their values.
pub open spec fn entry_views(entries: Seq<HealthEntry>) -> Seq<EntryModel> {
    Seq::new(entries.len(), |i: int| entries[i]@)
}

/// The entries, oldest first; never more than [`HARD_MAX_CACHE_ENTRIES`].
#[derive(Debug, PartialEq, Eq)]
pub struct HealthCache {
    entries: Vec<HealthEntry>,
}

impl View for HealthCache {
    type V = Seq<EntryModel>;

    closed spec fn view(&self) -> Seq<EntryModel> {
        entry_views(self.entries@)
    }
}

/// Where the entry of a URL is, if there is one.
pub open spec fn position(entries: Seq<EntryModel>, url: Seq<char>, from: int) -> Option<int>
    decreases entries.len() - from,
{
    if from < 0 || from >= entries.len() {
        None
    } else if entries[from].url == url {
        Some(from)
    } else {
        position(entries, url, from + 1)
    }
}

/// The entries with one for `url` among them: the one that is there, or else a
/// new one at the end, for which a full cache gives up its first entry.
pub open spec fn with_entry(entries: Seq<EntryModel>, url: Seq<char>) -> Seq<EntryModel> {
    if position(entries, url, 0) is Some {
        entries
    } else {
        let kept = if entries.len() >= HARD_MAX_CACHE_ENTRIES {
            entries.drop_first()
        } else {
            entries
        };
        kept.push(EntryModel { url, last_success: None, last_failure: None })
    }
}

/// Where the entry of `url` is once there is one.
pub open spec fn entry_index(entries: Seq<EntryModel>, url: Seq<char>) -> int {
    match position(entries, url, 0) {
        Some(at) => at,
        None => with_entry(entries, url).len() - 1,
    }
}

/// The text under which a URL is recorded: it has no fragment.
pub open spec fn cache_text(url: weburl::UrlModel) -> Seq<char> {
    match weburl::without_fragment(url) {
        Some(bare) => bare.href,
        None => url.href,
    }
}

/// The entries after `url` worked.
pub open spec fn after_success(entries: Seq<EntryModel>, url: weburl::UrlModel, now: u64) -> Seq<
    EntryModel,
> {
    let key = cache_text(url);
    with_entry(entries, key).update(
        entry_index(entries, key),
        EntryModel { url: key, last_success: Some(now), last_failure: None },
    )
}

/// The entries after `url` failed.
pub open spec fn after_failure(entries: Seq<EntryModel>, url: weburl::UrlModel, now: u64) -> Seq<
    EntryModel,
> {
    let key = cache_text(url);
    let at = entry_index(entries, key);
    let there = with_entry(entries, key);
    there.update(at, EntryModel { last_failure: Some(now), ..there[at] })
}

/// The candidate of an entry that may be tried before any other: it worked no
/// longer than `ttl` seconds ago and has not failed since.
pub open spec fn fresh(entry: EntryModel, now: u64, ttl: u64) -> Option<(u64, weburl::UrlModel)> {
    match entry.last_success {
        None => None,
        Some(success) => {
            let age = if now >= success {
                now - success
            } else {
                0
            };
            let failed_since = entry.last_failure matches Some(failure) && failure >= success;
            if age > ttl || failed_since {
                None
            } else {
                match weburl::url_parse(entry.url) {
                    Some(url) => match discovery::normalized(url) {
                        Some(candidate) => Some((success, candidate)),
                        None => None,
                    },
                    None => None,
                }
            }
        },
    }
}

/// The fresh candidates with the times of their success.
pub open spec fn all_fresh(entries: Seq<EntryModel>, now: u64, ttl: u64) -> Seq<
    (u64, weburl::UrlModel),
>
    decreases entries.len(),
{
    if entries.len() == 0 {
        Seq::empty()
    } else {
        match fresh(entries.last(), now, ttl) {
            Some(found) => all_fresh(entries.drop_last(), now, ttl).push(found),
            None => all_fresh(entries.drop_last(), now, ttl),
        }
    }
}

/// The order of two successes: the later one first, then by address.
pub open spec fn success_order(
    left: (u64, weburl::UrlModel),
    right: (u64, weburl::UrlModel),
) -> Order {
    order::number_order(right.0 as int, left.0 as int).or_then(
        order::text_order(left.1.href, right.1.href),
    )
}

/// Whether one success comes after another.
pub open spec fn success_after() -> spec_fn((u64, weburl::UrlModel), (u64, weburl::UrlModel)) -> bool {
    |left: (u64, weburl::UrlModel), right: (u64, weburl::UrlModel)|
        success_order(left, right) == Order::After
}

/// The candidates of ranked successes.
pub open spec fn just_urls(list: Seq<(u64, weburl::UrlModel)>) -> Seq<weburl::UrlModel> {
    Seq::new(list.len(), |i: int| list[i].1)
}

/// The fresh candidates, the latest success first, at most `limit`.
pub open spec fn fresh_candidates(
    entries: Seq<EntryModel>,
    now: u64,
    ttl: u64,
    limit: int,
) -> Seq<weburl::UrlModel> {
    discovery::bounded(
        just_urls(ranking::ranked(all_fresh(entries, now, ttl), success_after())),
        limit,
    )
}

/// A success with its candidate.
struct Success {
    time: u64,
    candidate: CandidateUrl,
}

spec fn success_views(list: Seq<Success>) -> Seq<(u64, weburl::UrlModel)> {
    Seq::new(list.len(), |i: int| (list[i].time, list[i].candidate@))
}

fn compare_successes(left: &Success, right: &Success) -> (r: Order)
    ensures
        r == success_order((left.time, left.candidate@), (right.time, right.candidate@)),
{
    let times = compare_counts(right.time, left.time);
    if times == Order::Same {
        let a = chars_of(left.candidate.as_str());
        let b = chars_of(right.candidate.as_str());
        compare_chars(&a, &b)
    } else {
        times
    }
}

fn place(list: &mut Vec<Success>, success: Success)
    ensures
        success_views(final(list)@) == ranking::placed(
            success_views(old(list)@),
            (success.time, success.candidate@),
            success_after(),
        ),
{
    let ghost before = success_views(list@);
    let ghost x = (success.time, success.candidate@);
    let mut at: usize = list.len();
    while at > 0 && compare_successes(&list[at - 1], &success) == Order::After
        invariant
            at <= list@.len(),
            before == success_views(list@),
            x == (success.time, success.candidate@),
            forall|i: int| at <= i < list@.len() ==> success_after()(#[trigger] before[i], x),
        decreases at,
    {
        proof {
            assert(before[at as int - 1] == (
                list@[at as int - 1].time,
                list@[at as int - 1].candidate@,
            ));
        }
        at = at - 1;
    }
    proof {
        if at > 0 {
            assert(before[at as int - 1] == (
                list@[at as int - 1].time,
                list@[at as int - 1].candidate@,
            ));
        }
        ranking::placed_at(before, x, success_after(), at as int);
    }
    list.insert(at, success);
    proof {
        assert(success_views(list@) =~= before.insert(at as int, x));
    }
}

/// A list of entries cut to the most that are kept.
pub open spec fn truncated(entries: Seq<EntryModel>) -> Seq<EntryModel> {
    discovery::bounded(entries, HARD_MAX_CACHE_ENTRIES as int)
}

/// What a stored record of a version gives back.
pub open spec fn restored(schema_version: u32, entries: Seq<EntryModel>) -> Seq<EntryModel> {
    if schema_version == CACHE_SCHEMA_VERSION {
        truncated(entries)
    } else {
        Seq::empty()
    }
}

proof fn position_bounds(entries: Seq<EntryModel>, url: Seq<char>, from: int)
    requires
        0 <= from,
    ensures
        position(entries, url, from) matches Some(at) ==> from <= at < entries.len()
            && entries[at].url == url,
    decreases entries.len() - from,
{
    if from < entries.len() {
        position_bounds(entries, url, from + 1);
    }
}

fn fresh_candidate(entry: &HealthEntry, now: u64, ttl: u64) -> (r: Option<Success>)
    ensures
        match r {
            Some(found) => fresh(entry@, now, ttl) == Some((found.time, found.candidate@)),
            None => fresh(entry@, now, ttl) is None,
        },
{
    let success = match entry.last_success {
        Some(success) => success,
        None => {
            return None;
        },
    };
    let age = if now >= success {
        now - success
    } else {
        0
    };
    let failed_since = match entry.last_failure {
        Some(failure) => failure >= success,
        None => false,
    };
    if age > ttl || failed_since {
        return None;
    }
    match Url::parse(entry.url.as_str()) {
        Some(url) => match normalize_candidate(url) {
            Ok(candidate) => Some(Success { time: success, candidate }),
            Err(_) => None,
        },
        None => None,
    }
}

impl HealthCache {
    #[verifier::type_invariant]
    spec fn within_bounds(self) -> bool {
        self.entries@.len() <= HARD_MAX_CACHE_ENTRIES
    }

    /// A cache without entries.
    pub fn empty() -> (r: HealthCache)
        ensures
            r@ == Seq::<EntryModel>::empty(),
    {
        let cache = HealthCache { entries: Vec::new() };
        proof {
            assert(cache@ =~= Seq::empty());
        }
        cache
    }

    /// The cache of a stored record: one of another version counts as empty, and
    /// one that is too long is cut.
    pub fn restore(schema_version: u32, entries: Vec<HealthEntry>) -> (r: HealthCache)
        ensures
            r@ == restored(schema_version, entry_views(entries@)),
            r@.len() <= HARD_MAX_CACHE_ENTRIES,
    {
        if schema_version != CACHE_SCHEMA_VERSION {
            return HealthCache::empty();
        }
        let ghost all = entry_views(entries@);
        let mut kept = entries;
        kept.truncate(HARD_MAX_CACHE_ENTRIES);
        proof {
            assert(entry_views(kept@) =~= truncated(all));
        }
        HealthCache { entries: kept }
    }

    /// The entries, for storing.
    pub fn entries(&self) -> (r: &Vec<HealthEntry>)
        ensures
            entry_views(r@) == self@,
            r@.len() <= HARD_MAX_CACHE_ENTRIES,
    {
        proof {
            use_type_invariant(self);
        }
        &self.entries
    }

    /// The fresh candidates, the latest success first, at most `limit`.
    pub fn fresh_successes(&self, now: u64, ttl: u64, limit: usize) -> (r: Vec<CandidateUrl>)
        ensures
            discovery::candidate_views(r@) == fresh_candidates(self@, now, ttl, limit as int),
    {
        let ghost all = self@;
        let mut list: Vec<Success> = Vec::new();
        let mut i: usize = 0;
        proof {
            assert(all.take(0) =~= Seq::empty());
            assert(success_views(list@) =~= Seq::empty());
        }
        while i < self.entries.len()
            invariant
                i <= self.entries@.len(),
                all == entry_views(self.entries@),
                success_views(list@) == ranking::ranked(
                    all_fresh(all.take(i as int), now, ttl),
                    success_after(),
                ),
            decreases self.entries@.len() - i,
        {
            proof {
                assert(all.take(i as int + 1).drop_last() =~= all.take(i as int));
                assert(all.take(i as int + 1).last() == self.entries@[i as int]@);
            }
            let ghost sofar = all_fresh(all.take(i as int), now, ttl);
            if let Some(success) = fresh_candidate(&self.entries[i], now, ttl) {
                proof {
                    assert(sofar.push((success.time, success.candidate@)).drop_last() =~= sofar);
                }
                place(&mut list, success);
            }
            i = i + 1;
        }
        proof {
            assert(all.take(all.len() as int) =~= all);
        }
        let ghost ordered = success_views(list@);
        let mut out: Vec<CandidateUrl> = Vec::new();
        let mut k: usize = 0;
        proof {
            assert(discovery::candidate_views(out@) =~= just_urls(ordered).take(0));
        }
        while k < list.len() && k < limit
            invariant
                k <= list@.len(),
                k <= limit,
                ordered == success_views(list@),
                discovery::candidate_views(out@) == just_urls(ordered).take(k as int),
            decreases list@.len() - k,
        {
            let ghost before = discovery::candidate_views(out@);
            let candidate = list[k].candidate.clone();
            out.push(candidate);
            proof {
                assert(discovery::candidate_views(out@) =~= before.push(candidate@));
                assert(just_urls(ordered).take(k as int + 1) =~= just_urls(ordered).take(
                    k as int,
                ).push(just_urls(ordered)[k as int]));
            }
            k = k + 1;
        }
        out
    }

    /// Finds the entry of a URL, or makes one.
    fn entry_at(&mut self, key: &str) -> (r: usize)
        ensures
            final(self)@ == with_entry(old(self)@, key@),
            r == entry_index(old(self)@, key@),
            r < final(self)@.len(),
            final(self)@[r as int].url == key@,
    {
        proof {
            use_type_invariant(&*self);
        }
        let ghost all = self@;
        let mut i: usize = 0;
        while i < self.entries.len()
            invariant
                i <= self.entries@.len(),
                self.entries@.len() <= HARD_MAX_CACHE_ENTRIES,
                all == entry_views(self.entries@),
                position(all, key@, i as int) == position(all, key@, 0),
                all == old(self)@,
            decreases self.entries@.len() - i,
        {
            if same_text(self.entries[i].url.as_str(), key) {
                proof {
                    assert(all[i as int].url == key@);
                }
                return i;
            }
            proof {
                assert(all[i as int] == self.entries@[i as int]@);
            }
            i = i + 1;
        }
        let mut entries: Vec<HealthEntry> = Vec::new();
        std::mem::swap(&mut entries, &mut self.entries);
        if entries.len() >= HARD_MAX_CACHE_ENTRIES {
            entries.remove(0);
            proof {
                assert(entry_views(entries@) =~= all.drop_first());
            }
        }
        let ghost kept = entry_views(entries@);
        let entry = HealthEntry { url: key.to_string(), last_success: None, last_failure: None };
        entries.push(entry);
        proof {
            assert(entry_views(entries@) =~= kept.push(
                EntryModel { url: key@, last_success: None, last_failure: None },
            ));
        }
        let at = entries.len() - 1;
        self.entries = entries;
        at
    }

    /// The entry of a URL is replaced by what `success` and `now` make of it.
    fn record(&mut self, url: &Url, now: u64, success: bool)
        ensures
            final(self)@ == (if success {
                after_success(old(self)@, url@, now)
            } else {
                after_failure(old(self)@, url@, now)
            }),
    {
        let bare = url.without_fragment();
        let key = match &bare {
            Some(bare) => bare.as_str(),
            None => url.as_str(),
        };
        let at = self.entry_at(key);
        proof {
            use_type_invariant(&*self);
        }
        let ghost there = self@;
        let mut entries: Vec<HealthEntry> = Vec::new();
        std::mem::swap(&mut entries, &mut self.entries);
        let last_success = if success {
            Some(now)
        } else {
            entries[at].last_success
        };
        let last_failure = if success {
            None
        } else {
            Some(now)
        };
        let entry = HealthEntry { url: entries[at].url.clone(), last_success, last_failure };
        entries.set(at, entry);
        proof {
            assert(entry_views(entries@) =~= there.update(at as int, entry@));
        }
        self.entries = entries;
    }

    /// Records that a URL worked.
    pub fn record_success(&mut self, url: &Url, now: u64)
        ensures
            final(self)@ == after_success(old(self)@, url@, now),
    {
        self.record(url, now, true);
    }

    /// Records that a URL failed.
    pub fn record_failure(&mut self, url: &Url, now: u64)
        ensures
            final(self)@ == after_failure(old(self)@, url@, now),
    {
        self.record(url, now, false);
    }
}

// ----------------------------------------------------------------------- laws

/// A recorded success is there afterwards with no failure beside it, and the
/// cache stays within its bound.
pub proof fn success_is_recorded(entries: Seq<EntryModel>, url: weburl::UrlModel, now: u64)
    requires
        entries.len() <= HARD_MAX_CACHE_ENTRIES,
    ensures
        after_success(entries, url, now).len() <= HARD_MAX_CACHE_ENTRIES,
        ({
            let at = entry_index(entries, cache_text(url));
            let after = after_success(entries, url, now);
            0 <= at < after.len() && after[at] == (EntryModel {
                url: cache_text(url),
                last_success: Some(now),
                last_failure: None,
            })
        }),
{
    position_bounds(entries, cache_text(url), 0);
}

/// A recorded success is fresh for as long as asked, with the candidate that the
/// recorded text gives.
pub proof fn success_stays_fresh(
    entries: Seq<EntryModel>,
    url: weburl::UrlModel,
    now: u64,
    later: u64,
    ttl: u64,
)
    requires
        entries.len() <= HARD_MAX_CACHE_ENTRIES,
        later - now <= ttl,
    ensures
        fresh(
            after_success(entries, url, now)[entry_index(entries, cache_text(url))],
            later,
            ttl,
        ) == (match weburl::url_parse(cache_text(url)) {
            Some(found) => match discovery::normalized(found) {
                Some(candidate) => Some((now, candidate)),
                None => None,
            },
            None => None,
        }),
{
    position_bounds(entries, cache_text(url), 0);
}

/// Recording a success or a failure leaves the other entries as they are, but
/// that a full cache gives up its first entry for a new one.
pub proof fn other_entries_stay(
    entries: Seq<EntryModel>,
    url: weburl::UrlModel,
    now: u64,
    entry: EntryModel,
)
    requires
        entries.len() <= HARD_MAX_CACHE_ENTRIES,
        entries.contains(entry),
        entry.url != cache_text(url),
    ensures
        position(entries, cache_text(url), 0) is None && entries.len() == HARD_MAX_CACHE_ENTRIES
            && entries[0] == entry || after_success(entries, url, now).contains(entry)
            && after_failure(entries, url, now).contains(entry),
{
    let key = cache_text(url);
    position_bounds(entries, key, 0);
    let there = with_entry(entries, key);
    let at = entry_index(entries, key);
    let i = choose|i: int| 0 <= i < entries.len() && entries[i] == entry;
    let new = position(entries, key, 0) is None;
    let shift: int = if new && entries.len() == HARD_MAX_CACHE_ENTRIES {
        1
    } else {
        0
    };
    if i >= shift {
        assert(there[i - shift] == entry);
        assert(after_success(entries, url, now)[i - shift] == entry);
        assert(after_failure(entries, url, now)[i - shift] == entry);
    }
}

/// What was stored comes back: the entries of a cache give the same cache when
/// they are restored under the present version.
pub proof fn stored_entries_come_back(entries: Seq<EntryModel>)
    requires
        entries.len() <= HARD_MAX_CACHE_ENTRIES,
    ensures
        restored(CACHE_SCHEMA_VERSION, entries) == entries,
{
    assert(truncated(entries) =~= entries);
}

/// Recording a failure keeps the cache within its bound.
pub proof fn failure_stays_bounded(entries: Seq<EntryModel>, url: weburl::UrlModel, now: u64)
    requires
        entries.len() <= HARD_MAX_CACHE_ENTRIES,
    ensures
        after_failure(entries, url, now).len() <= HARD_MAX_CACHE_ENTRIES,
{
    position_bounds(entries, cache_text(url), 0);
}

/// A recorded failure keeps the entry from being fresh, as long as the success
/// before it is not from the future, and the cache stays within its bound.
pub proof fn failure_is_recorded(
    entries: Seq<EntryModel>,
    url: weburl::UrlModel,
    now: u64,
    later: u64,
    ttl: u64,
)
    requires
        entries.len() <= HARD_MAX_CACHE_ENTRIES,
        forall|i: int|
            0 <= i < entries.len() ==> ((#[trigger] entries[i]).last_success matches Some(success)
                ==> success <= now),
    ensures
        after_failure(entries, url, now).len() <= HARD_MAX_CACHE_ENTRIES,
        fresh(
            after_failure(entries, url, now)[entry_index(entries, cache_text(url))],
            later,
            ttl,
        ) is None,
{
    position_bounds(entries, cache_text(url), 0);
}

/// The addresses of entries.
pub open spec fn entry_urls(entries: Seq<EntryModel>) -> Seq<Seq<char>> {
    Seq::new(entries.len(), |i: int| entries[i].url)
}

proof fn position_is_found(entries: Seq<EntryModel>, url: Seq<char>, from: int, at: int)
    requires
        0 <= from <= at < entries.len(),
        entries[at].url == url,
    ensures
        position(entries, url, from) is Some,
    decreases entries.len() - from,
{
    if entries[from].url != url {
        position_is_found(entries, url, from + 1, at);
    }
}

proof fn urls_stay_distinct(entries: Seq<EntryModel>, url: Seq<char>)
    requires
        discovery::all_distinct(entry_urls(entries)),
    ensures
        discovery::all_distinct(entry_urls(with_entry(entries, url))),
{
    let before = entry_urls(entries);
    let there = with_entry(entries, url);
    let after = entry_urls(there);
    if position(entries, url, 0) is None {
        let shift: int = if entries.len() >= HARD_MAX_CACHE_ENTRIES {
            1
        } else {
            0
        };
        assert forall|i: int, j: int| 0 <= i < j < after.len() implies #[trigger] after[i]
            != #[trigger] after[j] by {
            assert(after[i] == before[i + shift]);
            if j + 1 < after.len() {
                assert(after[j] == before[j + shift]);
            } else if entries[i + shift].url == url {
                position_is_found(entries, url, 0, i + shift);
            }
        }
    }
}

/// No address is recorded twice: where the entries have different addresses,
/// they still have after a success or a failure was recorded.
pub proof fn addresses_stay_distinct(entries: Seq<EntryModel>, url: weburl::UrlModel, now: u64)
    requires
        discovery::all_distinct(entry_urls(entries)),
    ensures
        discovery::all_distinct(entry_urls(after_success(entries, url, now))),
        discovery::all_distinct(entry_urls(after_failure(entries, url, now))),
{
    let key = cache_text(url);
    position_bounds(entries, key, 0);
    urls_stay_distinct(entries, key);
    let there = entry_urls(with_entry(entries, key));
    assert(entry_urls(after_success(entries, url, now)) =~= there);
    assert(entry_urls(after_failure(entries, url, now)) =~= there);
}

proof fn all_fresh_are_candidates(entries: Seq<EntryModel>, now: u64, ttl: u64)
    ensures
        forall|i: int|
            0 <= i < all_fresh(entries, now, ttl).len() ==> discovery::is_candidate(
                (#[trigger] all_fresh(entries, now, ttl)[i]).1,
            ),
    decreases entries.len(),
{
    if entries.len() > 0 {
        all_fresh_are_candidates(entries.drop_last(), now, ttl);
        let before = all_fresh(entries.drop_last(), now, ttl);
        let after = all_fresh(entries, now, ttl);
        assert forall|i: int| 0 <= i < after.len() implies discovery::is_candidate(
            (#[trigger] after[i]).1,
        ) by {
            if i < before.len() {
                assert(after[i] == before[i]);
            } else {
                discovery::normalized_again(weburl::url_parse(entries.last().url)->0);
            }
        }
    }
}

/// What is fresh is a list of candidates: web addresses without credentials and
/// without a fragment.
pub proof fn fresh_candidates_are_candidates(
    entries: Seq<EntryModel>,
    now: u64,
    ttl: u64,
    limit: int,
)
    requires
        0 <= limit,
    ensures
        discovery::all_candidates(fresh_candidates(entries, now, ttl, limit)),
{
    broadcast use vstd::seq_lib::group_to_multiset_ensures;

    let all = all_fresh(entries, now, ttl);
    let sorted = ranking::ranked(all, success_after());
    let urls = fresh_candidates(entries, now, ttl, limit);
    all_fresh_are_candidates(entries, now, ttl);
    ranking::ranked_keeps(all, success_after());
    assert forall|i: int| 0 <= i < urls.len() implies discovery::is_candidate(
        #[trigger] urls[i],
    ) by {
        assert(sorted.contains(sorted[i]));
        assert(sorted.to_multiset().contains(sorted[i]));
        assert(all.contains(sorted[i]));
        let k = choose|k: int| 0 <= k < all.len() && all[k] == sorted[i];
        assert(discovery::is_candidate(all[k].1));
    }
}

/// What is fresh is ordered by the time of success, the latest first.
pub proof fn fresh_candidates_are_ranked(entries: Seq<EntryModel>, now: u64, ttl: u64)
    ensures
        ranking::in_order(
            ranking::ranked(all_fresh(entries, now, ttl), success_after()),
            success_after(),
        ),
        ranking::ranked(all_fresh(entries, now, ttl), success_after()).to_multiset() == all_fresh(
            entries,
            now,
            ttl,
        ).to_multiset(),
{
    let after = success_after();
    assert(ranking::is_ranking(after)) by {
        assert forall|x: (u64, weburl::UrlModel), y: (u64, weburl::UrlModel)| #[trigger]
            after(x, y) implies !after(y, x) by {
            order::lex_order_flips(order::codes(x.1.href), order::codes(y.1.href));
        }
        assert forall|
            x: (u64, weburl::UrlModel),
            y: (u64, weburl::UrlModel),
            z: (u64, weburl::UrlModel),
        |
            !#[trigger] after(x, y) && !#[trigger] after(y, z) implies !after(x, z) by {
            order::lex_order_chains(
                order::codes(x.1.href),
                order::codes(y.1.href),
                order::codes(z.1.href),
            );
        }
    }
    ranking::ranked_in_order(all_fresh(entries, now, ttl), after);
    ranking::ranked_keeps(all_fresh(entries, now, ttl), after);
}

} // verus!
