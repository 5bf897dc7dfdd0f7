//! The cookie jar and the per-exchange protocol around it.
//!
//! A [`CookieMiddleware`] owns one jar: a `cookie_store::CookieStore`,
//! abstractly a map from `(domain, path, name)` to one cookie.  Before a
//! request is sent, [`CookieMiddleware::cookie_header`] computes the
//! `Cookie` header for the target URL; after the response arrives,
//! [`CookieMiddleware::store_cookies`] feeds every `Set-Cookie` value into
//! the jar and [`CookieMiddleware::save_to_bytes`] serializes the
//! persistent cookies for the jar's backing file.  The caller owns the
//! transport, the locking that shares one jar between exchanges, and the
//! file itself; this type only ever sees plain values.

use crate::engine::{
    canonical, decodable, decoded, from_distinct_entries, load_json_bytes, matched_record,
    matches_in, matches_url, new_store, parse_into, parsed, parsed_fresh, record_of,
    save_json_bytes, saved_except, saved_from, session_complete, store_entries, url_ok, CookieData,
    CookieId,
};
use crate::header::{build_cookie_header, header_value, sort_for_delivery, sorted_for_delivery};
use crate::record::{views, CookieRecord};
use cookie_store::CookieStore;
use vstd::prelude::*;

verus! {

/// The in-memory cookie jar with the matching, storing and serializing
/// operations a request/response interceptor needs.
pub struct CookieMiddleware {
    store: CookieStore,
}

/// The entry at `id` is the same in `b` as in `a` — present in one exactly
/// when present in the other, and then with the same content.
pub open spec fn unchanged_at(
    a: Map<CookieId, CookieData>,
    b: Map<CookieId, CookieData>,
    id: CookieId,
) -> bool {
    b.dom().contains(id) == a.dom().contains(id) && (a.dom().contains(id) ==> b[id] == a[id])
}

/// Some value of the list parses, against `url`, to a cookie with this
/// identity.
pub open spec fn touches(vals: Seq<Seq<char>>, url: Seq<char>, id: CookieId) -> bool {
    exists|i: int|
        0 <= i < vals.len() && ((#[trigger] parsed(vals[i], url)) matches Some(p) && p.0 == id)
}

/// How many of the first `upto` values do not even parse against `url`.
/// Each of them is necessarily rejected; a value that parses can still be
/// rejected (an already-expired cookie with nothing to expire).
pub open spec fn unparsable_count(vals: Seq<Seq<char>>, url: Seq<char>, upto: int) -> nat
    decreases upto,
{
    if upto <= 0 {
        0
    } else {
        unparsable_count(vals, url, upto - 1) + (if parsed(vals[upto - 1], url) is None {
            1nat
        } else {
            0nat
        })
    }
}

/// How many of the first `upto` values are *fresh* (see
/// [`parsed_fresh`]).  Each of them is necessarily stored, never rejected.
pub open spec fn fresh_count(vals: Seq<Seq<char>>, url: Seq<char>, upto: int) -> nat
    decreases upto,
{
    if upto <= 0 {
        0
    } else {
        fresh_count(vals, url, upto - 1) + (if parsed_fresh(vals[upto - 1], url) {
            1nat
        } else {
            0nat
        })
    }
}

/// Some value strictly after position `k` (and before `upto`) parses to
/// the same `(domain, path, name)` key as the value at `k`.
pub open spec fn revised_after(vals: Seq<Seq<char>>, url: Seq<char>, k: int, upto: int) -> bool {
    exists|j: int|
        k < j < upto && ((#[trigger] parsed(vals[j], url)) matches Some(p) && (parsed(
            vals[k],
            url,
        ) matches Some(q) && p.0 == q.0))
}

/// The jar holds, at the key the value at `k` parses to, exactly that
/// value's cookie.
pub open spec fn directive_stored(
    vals: Seq<Seq<char>>,
    url: Seq<char>,
    k: int,
    entries: Map<CookieId, CookieData>,
) -> bool {
    (parsed(vals[k], url) matches Some(p) && entries.dom().contains(p.0) && entries[p.0] == p.1)
}

/// `rs` is a valid delivery for `url` from a jar holding `entries`: the
/// records are, up to reordering, those of a matching answer drawn from
/// pairwise distinct entries the delivery rule selects (so no stored
/// cookie is repeated), every *session* entry the rule selects is present,
/// and the records stand in delivery order.
pub open spec fn delivery_of(
    entries: Map<CookieId, CookieData>,
    url: Seq<char>,
    rs: Seq<CookieRecord>,
) -> bool {
    &&& exists|source: Seq<CookieRecord>|
        #![auto]
        from_distinct_entries(entries, url, source) && views(rs).to_multiset() == views(
            source,
        ).to_multiset()
    &&& forall|j: int| 0 <= j < rs.len() ==> matched_record(entries, url, #[trigger] rs[j]@)
    &&& url_ok(url) ==> session_complete(entries, url, rs)
    &&& sorted_for_delivery(rs)
}

impl Default for CookieMiddleware {
    /// Same as [`CookieMiddleware::new`]: an empty jar.
    fn default() -> (r: Self)
        ensures
            (r.entries() == Map::<CookieId, CookieData>::empty()),
    {
        Self::new()
    }
}

impl CookieMiddleware {
    /// The jar's contents: at most one cookie per `(domain, path, name)`.
    pub closed spec fn entries(&self) -> Map<CookieId, CookieData> {
        store_entries(self.store)
    }

    /// Builds a middleware around a fresh, empty jar.
    pub fn new() -> (r: Self)
        ensures
            (r.entries() == Map::<CookieId, CookieData>::empty()),
    {
        Self { store: new_store() }
    }

    /// Builds a middleware around an existing jar, adopting its cookies.
    pub fn with_cookie_store(cookie_store: CookieStore) -> (r: Self)
        ensures
            r.entries() == store_entries(cookie_store),
    {
        Self { store: cookie_store }
    }

    /// Builds a middleware from the saved form of a jar, as read back from
    /// its backing file.  A save writes each key once, and for such
    /// canonical bytes the jar holds a subset of the records encoded in
    /// them (cookies that expired since the save are dropped, session
    /// records never are); undecodable or empty bytes give an empty jar
    /// rather than a failure.
    pub fn load_from_bytes(bytes: &Vec<u8>) -> (r: Self)
        ensures
            canonical(bytes@) ==> r.entries().submap_of(decoded(bytes@)),
            (!decodable(bytes@) ==> r.entries() == Map::<CookieId, CookieData>::empty()),
            (bytes@.len() == 0 ==> r.entries() == Map::<CookieId, CookieData>::empty()),
            forall|id: CookieId|
                #[trigger] decoded(bytes@).dom().contains(id) && !decoded(bytes@)[id].1
                    ==> r.entries().dom().contains(id),
    {
        Self { store: load_json_bytes(bytes) }
    }

    /// Serializes the jar for its backing file: the saved form holds
    /// nothing but *persistent* cookies of the jar, unchanged — no session
    /// cookie is ever written — and every persistent cookie except those
    /// whose expiry passed before the save (a clock-dependent set whose
    /// size this model cannot bound).  The bytes always decode back, each
    /// key written at most once.
    pub fn save_to_bytes(&self) -> (r: Vec<u8>)
        ensures
            saved_from(decoded(r@), self.entries()),
            decodable(r@),
            canonical(r@),
            exists|dropped: Set<CookieId>|
                #![auto]
                saved_except(decoded(r@), self.entries(), dropped),
    {
        save_json_bytes(&self.store)
    }

    /// Feeds one `Set-Cookie` header value, received from `url`, into the
    /// jar.  On success the jar gains, replaces or (for an expiring
    /// directive) drops the cookie at the parsed `(domain, path, name)`
    /// key and is otherwise untouched — the stored content is the parsed
    /// one except on a jar configured with a public-suffix list, which may
    /// rewrite a suffix `Domain` to host-only; a rejected value leaves the
    /// jar exactly as it was; and a *fresh* value — one the engine accepts
    /// whatever the clock says and whatever the jar holds — is always
    /// stored, with exactly its parsed content.
    pub fn parse(&mut self, set_cookie_value: &str, url: &str) -> (ok: bool)
        ensures
            ok ==> parsed(set_cookie_value@, url@) is Some && url_ok(url@),
            parsed_fresh(set_cookie_value@, url@) ==> ok,
            ok && parsed_fresh(set_cookie_value@, url@) ==> ({
                let (id, data) = parsed(set_cookie_value@, url@)->0;
                final (self).entries() == old(self).entries().insert(id, data)
            }),
            ok ==> ({
                let (id, data) = parsed(set_cookie_value@, url@)->0;
                exists|d: CookieData|
                    #![auto]
                    final (self).entries() == old(self).entries().insert(id, d) || final (
                    self).entries() == old(self).entries().remove(id)
            }),
            !ok ==> final (self).entries() == old(self).entries(),
    {
        let ok = parse_into(&mut self.store, set_cookie_value, url);
        proof {
            if ok {
                let (id, data) = parsed(set_cookie_value@, url@)->0;
                let d = choose|d: CookieData|
                    store_entries(self.store) == store_entries(old(self).store).insert(id, d)
                        || store_entries(self.store) == store_entries(old(self).store).remove(id);
                assert(self.entries() == old(self).entries().insert(id, d) || self.entries()
                    == old(self).entries().remove(id));
            }
        }
        ok
    }

    /// The jar's answer to a matching query: the name, value and path of
    /// every cookie delivered to `url`, each stored cookie at most once,
    /// in no promised order.
    pub fn matches(&self, url: &str) -> (r: Vec<CookieRecord>)
        ensures
            !url_ok(url@) ==> r@.len() == 0,
            from_distinct_entries(self.entries(), url@, r@),
            forall|j: int| 0 <= j < r@.len() ==> matched_record(self.entries(), url@, #[trigger] r@[j]@),
            url_ok(url@) ==> session_complete(self.entries(), url@, r@),
    {
        let r = matches_in(&self.store, url);
        proof {
            let ids = choose|ids: Seq<CookieId>|
                #![trigger ids.len()]
                ids.len() == r@.len() && (forall|j: int|
                    0 <= j < r@.len() ==> #[trigger] self.entries().dom().contains(ids[j])
                        && matches_url(ids[j], self.entries()[ids[j]], url@) && r@[j]@ == record_of(
                        ids[j],
                        self.entries()[ids[j]],
                    )) && (forall|j1: int, j2: int|
                    0 <= j1 < j2 < r@.len() ==> ids[j1] != ids[j2]);
            assert forall|j: int| 0 <= j < r@.len() implies matched_record(
                self.entries(),
                url@,
                #[trigger] r@[j]@,
            ) by {
                assert(self.entries().dom().contains(ids[j]));
            }
        }
        r
    }

    /// The `Cookie` header to attach to a request for `url`: the matching
    /// cookies, sorted by descending path length (ties broken by name),
    /// joined as `name=value` pairs with `"; "`.  Empty when nothing
    /// matches.
    pub fn cookie_header(&self, url: &str) -> (r: String)
        ensures
            exists|rs: Seq<CookieRecord>|
                #[trigger] delivery_of(self.entries(), url@, rs) && r@ == header_value(views(rs)),
            !url_ok(url@) ==> (r@ == Seq::<char>::empty()),
    {
        let matched = self.matches(url);
        let ordered = sort_for_delivery(matched);
        let r = build_cookie_header(&ordered);
        proof {
            broadcast use vstd::seq_lib::group_to_multiset_ensures;

            assert forall|j: int| 0 <= j < ordered@.len() implies matched_record(
                self.entries(),
                url@,
                #[trigger] ordered@[j]@,
            ) by {
                let rec = ordered@[j]@;
                assert(views(ordered@)[j] == rec);
                assert(views(ordered@).contains(rec));
                assert(views(ordered@).to_multiset().count(rec) > 0);
                assert(views(matched@).to_multiset().count(rec) > 0);
                assert(views(matched@).contains(rec));
                let k = choose|k: int| 0 <= k < views(matched@).len() && views(matched@)[k] == rec;
                assert(matched@[k]@ == rec);
            }
            if url_ok(url@) {
                assert forall|id: CookieId|
                    #[trigger] self.entries().dom().contains(id) && !self.entries()[id].1
                        && matches_url(id, self.entries()[id], url@) implies crate::engine::delivers(
                    ordered@,
                    record_of(id, self.entries()[id]),
                ) by {
                    let rec = record_of(id, self.entries()[id]);
                    assert(crate::engine::delivers(matched@, rec));
                    let k = choose|k: int| 0 <= k < matched@.len() && matched@[k]@ == rec;
                    assert(views(matched@)[k] == rec);
                    assert(views(matched@).contains(rec));
                    assert(views(matched@).to_multiset().count(rec) > 0);
                    assert(views(ordered@).to_multiset().count(rec) > 0);
                    assert(views(ordered@).contains(rec));
                    let k2 = choose|k2: int|
                        0 <= k2 < views(ordered@).len() && views(ordered@)[k2] == rec;
                    assert(ordered@[k2]@ == rec);
                }
            }
            assert(from_distinct_entries(self.entries(), url@, matched@) && views(
                ordered@,
            ).to_multiset() == views(matched@).to_multiset());
            assert(delivery_of(self.entries(), url@, ordered@));
            if !url_ok(url@) {
                assert(views(ordered@).len() == views(ordered@).to_multiset().len());
                assert(views(matched@).len() == views(matched@).to_multiset().len());
                assert(views(ordered@).len() == 0);
                assert(r@ == Seq::<char>::empty());
            }
        }
        r
    }

    /// Feeds every `Set-Cookie` header value of one response into the jar,
    /// each against the URL the request was sent to, and counts the
    /// rejected ones.  A rejected value never stops the others from being
    /// processed: keys that no value parses to are untouched, every
    /// *fresh* value whose key no later value revisits ends up stored,
    /// and only if every value is rejected is the jar guaranteed
    /// unchanged with all values counted.
    pub fn store_cookies(&mut self, set_cookie_values: &Vec<String>, url: &str) -> (rejected: usize)
        ensures
            rejected <= set_cookie_values@.len(),
            rejected >= unparsable_count(
                set_cookie_values.deep_view(),
                url@,
                set_cookie_values@.len() as int,
            ),
            rejected + fresh_count(
                set_cookie_values.deep_view(),
                url@,
                set_cookie_values@.len() as int,
            ) <= set_cookie_values@.len(),
            forall|id: CookieId|
                !touches(set_cookie_values.deep_view(), url@, id) ==> unchanged_at(
                    old(self).entries(),
                    final (self).entries(),
                    id,
                ),
            forall|k: int|
                0 <= k < set_cookie_values@.len() && (#[trigger] parsed_fresh(
                    set_cookie_values.deep_view()[k],
                    url@,
                )) && !revised_after(
                    set_cookie_values.deep_view(),
                    url@,
                    k,
                    set_cookie_values@.len() as int,
                ) ==> directive_stored(
                    set_cookie_values.deep_view(),
                    url@,
                    k,
                    final (self).entries(),
                ),
            (forall|k: int|
                0 <= k < set_cookie_values@.len() ==> (#[trigger] parsed(
                    set_cookie_values.deep_view()[k],
                    url@,
                )) is None) ==> rejected == set_cookie_values@.len() && final (self).entries()
                == old(self).entries(),
            !url_ok(url@) ==> rejected == set_cookie_values@.len() && final (self).entries()
                == old(self).entries(),
    {
        let ghost vals = set_cookie_values.deep_view();
        let ghost entries0 = self.entries();
        let mut rejected: usize = 0;
        let mut i: usize = 0;
        while i < set_cookie_values.len()
            invariant
                i <= vals.len(),
                rejected <= i,
                vals == set_cookie_values.deep_view(),
                vals.len() == set_cookie_values@.len(),
                entries0 == old(self).entries(),
                rejected >= unparsable_count(vals, url@, i as int),
                rejected + fresh_count(vals, url@, i as int) <= i,
                forall|id: CookieId|
                    !touches(vals.take(i as int), url@, id) ==> unchanged_at(
                        entries0,
                        self.entries(),
                        id,
                    ),
                forall|k: int|
                    0 <= k < i && (#[trigger] parsed_fresh(vals[k], url@)) && !revised_after(
                        vals,
                        url@,
                        k,
                        i as int,
                    ) ==> directive_stored(vals, url@, k, self.entries()),
                (forall|k: int| 0 <= k < i ==> (#[trigger] parsed(vals[k], url@)) is None)
                    ==> rejected == i && self.entries() == entries0,
                !url_ok(url@) ==> rejected == i && self.entries() == entries0,
            decreases vals.len() - i,
        {
            let ghost entries_before = self.entries();
            assert(vals[i as int] == set_cookie_values@[i as int]@);
            let ok = Self::parse(self, set_cookie_values[i].as_str(), url);
            if !ok {
                rejected = rejected + 1;
            }
            proof {
                assert(unparsable_count(vals, url@, i as int + 1) == unparsable_count(
                    vals,
                    url@,
                    i as int,
                ) + (if parsed(vals[i as int], url@) is None {
                    1nat
                } else {
                    0nat
                }));
                assert(fresh_count(vals, url@, i as int + 1) == fresh_count(vals, url@, i as int)
                    + (if parsed_fresh(vals[i as int], url@) {
                    1nat
                } else {
                    0nat
                }));
                let nvals = vals.take(i as int + 1);
                assert forall|id: CookieId| !touches(nvals, url@, id) implies unchanged_at(
                    entries0,
                    self.entries(),
                    id,
                ) by {
                    assert(!touches(vals.take(i as int), url@, id)) by {
                        if touches(vals.take(i as int), url@, id) {
                            let w = choose|w: int|
                                0 <= w < vals.take(i as int).len() && ((#[trigger] parsed(
                                    vals.take(i as int)[w],
                                    url@,
                                )) matches Some(p) && p.0 == id);
                            assert(nvals[w] == vals.take(i as int)[w]);
                            assert(parsed(nvals[w], url@) == parsed(vals.take(i as int)[w], url@));
                            assert(touches(nvals, url@, id));
                        }
                    }
                    assert(unchanged_at(entries0, entries_before, id));
                    if ok {
                        let (pid, pdata) = parsed(vals[i as int], url@)->0;
                        assert(nvals[i as int] == vals[i as int]);
                        assert(parsed(nvals[i as int], url@) == parsed(vals[i as int], url@));
                        assert(touches(nvals, url@, pid));
                        assert(pid != id);
                        let d = choose|d: CookieData|
                            self.entries() == entries_before.insert(pid, d) || self.entries()
                                == entries_before.remove(pid);
                        assert(self.entries() == entries_before.insert(pid, d) || self.entries()
                            == entries_before.remove(pid));
                        assert(unchanged_at(entries_before, self.entries(), id));
                    }
                }
                assert forall|k: int|
                    0 <= k < i as int + 1 && (#[trigger] parsed_fresh(vals[k], url@))
                        && !revised_after(vals, url@, k, i as int + 1) implies directive_stored(
                    vals,
                    url@,
                    k,
                    self.entries(),
                ) by {
                    if k < i as int {
                        assert(!revised_after(vals, url@, k, i as int)) by {
                            if revised_after(vals, url@, k, i as int) {
                                let j = choose|j: int|
                                    k < j < i as int && ((#[trigger] parsed(
                                        vals[j],
                                        url@,
                                    )) matches Some(p) && (parsed(vals[k], url@) matches Some(q)
                                        && p.0 == q.0));
                                assert(revised_after(vals, url@, k, i as int + 1));
                            }
                        }
                        assert(directive_stored(vals, url@, k, entries_before));
                        let q = parsed(vals[k], url@)->0;
                        if ok {
                            let (pid, pdata) = parsed(vals[i as int], url@)->0;
                            if pid == q.0 {
                                assert(revised_after(vals, url@, k, i as int + 1));
                            }
                            let d = choose|d: CookieData|
                                self.entries() == entries_before.insert(pid, d) || self.entries()
                                    == entries_before.remove(pid);
                            assert(self.entries() == entries_before.insert(pid, d)
                                || self.entries() == entries_before.remove(pid));
                        }
                    } else {
                        assert(ok);
                        let (pid, pdata) = parsed(vals[i as int], url@)->0;
                        assert(self.entries() == entries_before.insert(pid, pdata));
                    }
                }
            }
            i = i + 1;
        }
        proof {
            assert(vals.take(vals.len() as int) =~= vals);
        }
        rejected
    }
}

} // verus!
