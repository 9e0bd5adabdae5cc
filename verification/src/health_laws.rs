//! Laws of the record of proxies: what is remembered, for how long it counts, and
//! what is tried first.

use crate::discovery;
use crate::health;
use crate::health::EntryModel;
use crate::plain;
use crate::ranking;
use crate::weburl;
use vstd::prelude::*;

verus! {

/// The text under which a URL is remembered: without its fragment.
pub open spec fn remembered_as(url: weburl::UrlModel) -> Seq<char> {
    if url.fragment is None {
        url.href
    } else {
        match weburl::url_without_fragment(url.href) {
            Some(href) => match weburl::url_parse(href) {
                Some(bare) => bare.href,
                None => url.href,
            },
            None => url.href,
        }
    }
}

/// An entry may be tried first: it worked at that time, no more than `ttl` seconds
/// ago, has not failed at that time or since, and is a candidate.
pub open spec fn may_go_first(
    entry: EntryModel,
    now: u64,
    ttl: u64,
    time: u64,
    candidate: weburl::UrlModel,
) -> bool {
    &&& entry.last_success == Some(time)
    &&& now - time <= ttl
    &&& entry.last_failure matches Some(failure) ==> failure < time
    &&& weburl::url_parse(entry.url) matches Some(url)
    &&& discovery::normalized(url) == Some(candidate)
}

/// A success is that of an entry which may be tried first.
pub open spec fn is_of_an_entry(
    entries: Seq<EntryModel>,
    now: u64,
    ttl: u64,
    time: u64,
    candidate: weburl::UrlModel,
) -> bool {
    exists|k: int|
        0 <= k < entries.len() && #[trigger] may_go_first(entries[k], now, ttl, time, candidate)
}

/// A candidate is that of an entry which may be tried first.
pub open spec fn may_be_first(
    entries: Seq<EntryModel>,
    now: u64,
    ttl: u64,
    candidate: weburl::UrlModel,
) -> bool {
    exists|time: u64| #[trigger] is_of_an_entry(entries, now, ttl, time, candidate)
}

/// An entry counts as fresh exactly if it may be tried first.
pub proof fn fresh_entries_may_go_first(
    entry: EntryModel,
    now: u64,
    ttl: u64,
    time: u64,
    candidate: weburl::UrlModel,
)
    ensures
        health::fresh(entry, now, ttl) == Some((time, candidate)) <==> may_go_first(
            entry,
            now,
            ttl,
            time,
            candidate,
        ),
{
}

proof fn fresh_entries_are_all(entries: Seq<EntryModel>, now: u64, ttl: u64)
    ensures
        forall|k: int, time: u64, candidate: weburl::UrlModel|
            0 <= k < entries.len() && #[trigger] may_go_first(
                entries[k],
                now,
                ttl,
                time,
                candidate,
            ) ==> health::all_fresh(entries, now, ttl).contains((time, candidate)),
        forall|i: int|
            0 <= i < health::all_fresh(entries, now, ttl).len() ==> is_of_an_entry(
                entries,
                now,
                ttl,
                (#[trigger] health::all_fresh(entries, now, ttl)[i]).0,
                health::all_fresh(entries, now, ttl)[i].1,
            ),
    decreases entries.len(),
{
    let all = health::all_fresh(entries, now, ttl);
    if entries.len() > 0 {
        let rest = entries.drop_last();
        let before = health::all_fresh(rest, now, ttl);
        fresh_entries_are_all(rest, now, ttl);
        assert forall|k: int, time: u64, candidate: weburl::UrlModel|
            0 <= k < entries.len() && #[trigger] may_go_first(
                entries[k],
                now,
                ttl,
                time,
                candidate,
            ) implies all.contains((time, candidate)) by {
            fresh_entries_may_go_first(entries[k], now, ttl, time, candidate);
            if k < rest.len() {
                assert(rest[k] == entries[k]);
                assert(may_go_first(rest[k], now, ttl, time, candidate));
                let i = choose|i: int| 0 <= i < before.len() && before[i] == (time, candidate);
                assert(all[i] == before[i]);
            } else {
                assert(all[before.len() as int] == (time, candidate));
            }
        }
        assert forall|i: int| 0 <= i < all.len() implies is_of_an_entry(
            entries,
            now,
            ttl,
            (#[trigger] all[i]).0,
            all[i].1,
        ) by {
            if i < before.len() {
                assert(all[i] == before[i]);
                let k = choose|k: int|
                    0 <= k < rest.len() && #[trigger] may_go_first(
                        rest[k],
                        now,
                        ttl,
                        before[i].0,
                        before[i].1,
                    );
                assert(rest[k] == entries[k]);
                assert(may_go_first(entries[k], now, ttl, all[i].0, all[i].1));
            } else {
                fresh_entries_may_go_first(entries.last(), now, ttl, all[i].0, all[i].1);
                assert(may_go_first(
                    entries[entries.len() - 1],
                    now,
                    ttl,
                    all[i].0,
                    all[i].1,
                ));
            }
        }
    }
}

/// Of two successes the first goes before: it is later, or at the same time with
/// an address that stands no later.
pub open spec fn goes_before(
    time: u64,
    candidate: weburl::UrlModel,
    other_time: u64,
    other: weburl::UrlModel,
) -> bool {
    time > other_time || (time == other_time && (candidate.href == other.href || plain::precedes(
        candidate.href,
        other.href,
    )))
}

/// What worked last is tried first: of two candidates on the list both may be tried
/// first, and the earlier one worked later, or at the same time with the earlier
/// address.
pub proof fn the_latest_success_goes_first(
    entries: Seq<EntryModel>,
    now: u64,
    ttl: u64,
    limit: int,
    i: int,
    j: int,
)
    requires
        0 <= i < j < health::fresh_candidates(entries, now, ttl, limit).len(),
        0 <= limit,
    ensures
        exists|a: int, b: int, s: u64, t: u64|
            0 <= a < entries.len() && 0 <= b < entries.len() && #[trigger] may_go_first(
                entries[a],
                now,
                ttl,
                s,
                health::fresh_candidates(entries, now, ttl, limit)[i],
            ) && #[trigger] may_go_first(
                entries[b],
                now,
                ttl,
                t,
                health::fresh_candidates(entries, now, ttl, limit)[j],
            ) && goes_before(
                s,
                health::fresh_candidates(entries, now, ttl, limit)[i],
                t,
                health::fresh_candidates(entries, now, ttl, limit)[j],
            ),
{
    broadcast use vstd::seq_lib::group_to_multiset_ensures;

    let all = health::all_fresh(entries, now, ttl);
    let sorted = ranking::ranked(all, health::success_after());
    let urls = health::fresh_candidates(entries, now, ttl, limit);
    health::fresh_candidates_are_ranked(entries, now, ttl);
    fresh_entries_are_all(entries, now, ttl);
    ranking::ranked_keeps(all, health::success_after());
    assert(sorted.contains(sorted[i]) && sorted.contains(sorted[j]));
    assert(sorted.to_multiset().contains(sorted[i]) && sorted.to_multiset().contains(sorted[j]));
    assert(all.contains(sorted[i]) && all.contains(sorted[j]));
    let m = choose|m: int| 0 <= m < all.len() && all[m] == sorted[i];
    let n = choose|n: int| 0 <= n < all.len() && all[n] == sorted[j];
    assert(!health::success_after()(sorted[i], sorted[j]));
    plain::order_is_precedence(sorted[i].1.href, sorted[j].1.href);
    assert(urls[i] == sorted[i].1 && urls[j] == sorted[j].1);
    let a = choose|k: int|
        0 <= k < entries.len() && #[trigger] may_go_first(
            entries[k],
            now,
            ttl,
            all[m].0,
            all[m].1,
        );
    let b = choose|k: int|
        0 <= k < entries.len() && #[trigger] may_go_first(
            entries[k],
            now,
            ttl,
            all[n].0,
            all[n].1,
        );
    assert(may_go_first(entries[a], now, ttl, sorted[i].0, urls[i]));
    assert(may_go_first(entries[b], now, ttl, sorted[j].0, urls[j]));
    assert(goes_before(sorted[i].0, urls[i], sorted[j].0, urls[j]));
}

/// No entry that may be tried first is left out, unless the limit is reached; and
/// nothing else is on the list, which is no longer than the limit.
pub proof fn fresh_entries_are_not_left_out(
    entries: Seq<EntryModel>,
    now: u64,
    ttl: u64,
    limit: int,
)
    requires
        0 <= limit,
    ensures
        health::fresh_candidates(entries, now, ttl, limit).len() <= limit,
        health::fresh_candidates(entries, now, ttl, limit).len() < limit ==> forall|
            k: int,
            time: u64,
            candidate: weburl::UrlModel,
        |
            0 <= k < entries.len() && #[trigger] may_go_first(
                entries[k],
                now,
                ttl,
                time,
                candidate,
            ) ==> health::fresh_candidates(entries, now, ttl, limit).contains(candidate),
        forall|i: int|
            0 <= i < health::fresh_candidates(entries, now, ttl, limit).len() ==> may_be_first(
                entries,
                now,
                ttl,
                #[trigger] health::fresh_candidates(entries, now, ttl, limit)[i],
            ),
{
    broadcast use vstd::seq_lib::group_to_multiset_ensures;

    let all = health::all_fresh(entries, now, ttl);
    let sorted = ranking::ranked(all, health::success_after());
    let urls = health::fresh_candidates(entries, now, ttl, limit);
    fresh_entries_are_all(entries, now, ttl);
    ranking::ranked_keeps(all, health::success_after());
    if urls.len() < limit {
        assert forall|k: int, time: u64, candidate: weburl::UrlModel|
            0 <= k < entries.len() && #[trigger] may_go_first(
                entries[k],
                now,
                ttl,
                time,
                candidate,
            ) implies urls.contains(candidate) by {
            assert(all.contains((time, candidate)));
            assert(all.to_multiset().contains((time, candidate)));
            assert(sorted.to_multiset().contains((time, candidate)));
            assert(sorted.contains((time, candidate)));
            let i = choose|i: int| 0 <= i < sorted.len() && sorted[i] == (time, candidate);
            assert(urls[i] == candidate);
        }
    }
    assert forall|i: int| 0 <= i < urls.len() implies may_be_first(
        entries,
        now,
        ttl,
        #[trigger] urls[i],
    ) by {
        assert(sorted.contains(sorted[i]));
        assert(sorted.to_multiset().contains(sorted[i]));
        assert(all.contains(sorted[i]));
        let m = choose|m: int| 0 <= m < all.len() && all[m] == sorted[i];
        assert(is_of_an_entry(entries, now, ttl, all[m].0, urls[i]));
    }
}

proof fn first_place(entries: Seq<EntryModel>, url: Seq<char>, from: int, at: int)
    requires
        0 <= from <= at < entries.len(),
        entries[at].url == url,
        forall|i: int| from <= i < at ==> (#[trigger] entries[i]).url != url,
    ensures
        health::position(entries, url, from) == Some(at),
    decreases at - from,
{
    if from < at {
        assert(entries[from].url != url);
        first_place(entries, url, from + 1, at);
    }
}

proof fn no_place(entries: Seq<EntryModel>, url: Seq<char>, from: int)
    requires
        0 <= from,
        forall|i: int| from <= i < entries.len() ==> (#[trigger] entries[i]).url != url,
    ensures
        health::position(entries, url, from) is None,
    decreases entries.len() - from,
{
    if from < entries.len() {
        assert(entries[from].url != url);
        no_place(entries, url, from + 1);
    }
}

/// A proxy that is known keeps its place when it works or fails: a success is noted
/// with its time and takes back what failed before, a failure leaves the time of the
/// last success, and all other entries stay.
pub proof fn known_proxies_keep_their_place(
    entries: Seq<EntryModel>,
    url: weburl::UrlModel,
    now: u64,
    at: int,
)
    requires
        0 <= at < entries.len(),
        entries[at].url == remembered_as(url),
        forall|i: int| 0 <= i < at ==> (#[trigger] entries[i]).url != remembered_as(url),
    ensures
        health::after_success(entries, url, now) == entries.update(
            at,
            EntryModel {
                url: remembered_as(url),
                last_success: Some(now),
                last_failure: None,
            },
        ),
        health::after_failure(entries, url, now) == entries.update(
            at,
            EntryModel {
                url: remembered_as(url),
                last_success: entries[at].last_success,
                last_failure: Some(now),
            },
        ),
{
    first_place(entries, remembered_as(url), 0, at);
}

/// A proxy that is new goes to the end; a full record of 64 gives up its first
/// entry for it, and all others stay in order.
pub proof fn new_proxies_go_to_the_end(entries: Seq<EntryModel>, url: weburl::UrlModel, now: u64)
    requires
        forall|i: int| 0 <= i < entries.len() ==> (#[trigger] entries[i]).url != remembered_as(url),
        entries.len() <= 64,
    ensures
        ({
            let kept = if entries.len() == 64 {
                entries.skip(1)
            } else {
                entries
            };
            &&& health::after_success(entries, url, now) == kept.push(
                EntryModel {
                    url: remembered_as(url),
                    last_success: Some(now),
                    last_failure: None,
                },
            )
            &&& health::after_failure(entries, url, now) == kept.push(
                EntryModel {
                    url: remembered_as(url),
                    last_success: None,
                    last_failure: Some(now),
                },
            )
        }),
{
    no_place(entries, remembered_as(url), 0);
    let kept = if entries.len() == 64 {
        entries.skip(1)
    } else {
        entries
    };
    assert(entries.len() == 64 ==> entries.drop_first() =~= entries.skip(1));
    assert(health::after_success(entries, url, now) =~= kept.push(
        EntryModel { url: remembered_as(url), last_success: Some(now), last_failure: None },
    ));
    assert(health::after_failure(entries, url, now) =~= kept.push(
        EntryModel { url: remembered_as(url), last_success: None, last_failure: Some(now) },
    ));
}

/// A stored record of the first version comes back, cut to 64 entries; one of any
/// other version counts as empty.
pub proof fn other_versions_are_forgotten(version: u32, entries: Seq<EntryModel>)
    ensures
        version == 1 && entries.len() <= 64 ==> health::restored(version, entries) == entries,
        version == 1 && entries.len() > 64 ==> health::restored(version, entries) == entries.take(
            64,
        ),
        version != 1 ==> health::restored(version, entries).len() == 0,
{
    assert(entries.len() <= 64 ==> entries.take(entries.len() as int) =~= entries);
}

} // verus!
