//! Jar-wide laws, stated over the jar's mathematical model.
//!
//! The jar is abstractly a map from `(domain, path, name)` to one cookie
//! (see [`crate::engine::store_entries`]); storing a cookie inserts at or
//! removes that key, saving keeps a submap of the persistent entries, and
//! loading keeps a submap of what was saved.  The laws below spell out what
//! those contracts add up to.

use crate::engine::{
    delivers, matches_url, record_of, saved_except, saved_from, url_ok, CookieData, CookieId,
};
use crate::header::{delivery_le, sorted_for_delivery};
use crate::jar::delivery_of;
use crate::record::CookieRecord;
use vstd::prelude::*;

verus! {

/// Records in delivery order carry descending path lengths: a request to a
/// deep path hears about the more specific cookie first.
pub proof fn lemma_delivery_order_paths(rs: Seq<CookieRecord>, i: int, j: int)
    requires
        sorted_for_delivery(rs),
        0 <= i < j < rs.len(),
    ensures
        rs[j]@.path.len() <= rs[i]@.path.len(),
{
    assert(delivery_le(rs[i]@, rs[j]@));
}

/// Matching order, for cookies the jar must deliver: when a delivery for
/// `url` is owed two *session* cookies — say one scoped to `/foo` and one
/// to `/` — the one with the strictly longer path appears, the one with
/// the shorter path appears, and every occurrence of the former precedes
/// every occurrence of the latter.  (A *persistent* cookie the rule
/// selects may still be absent: whether it has expired by match time is
/// the clock's, not the model's, so the law is stated for session
/// cookies.)
pub proof fn lemma_more_specific_path_first(
    entries: Map<CookieId, CookieData>,
    url: Seq<char>,
    rs: Seq<CookieRecord>,
    deep: CookieId,
    shallow: CookieId,
)
    requires
        delivery_of(entries, url, rs),
        url_ok(url),
        entries.dom().contains(deep),
        !entries[deep].1,
        matches_url(deep, entries[deep], url),
        entries.dom().contains(shallow),
        !entries[shallow].1,
        matches_url(shallow, entries[shallow], url),
        deep.1.len() > shallow.1.len(),
    ensures
        exists|i: int, j: int|
            #![auto]
            0 <= i < j < rs.len() && rs[i]@ == record_of(deep, entries[deep]) && rs[j]@
                == record_of(shallow, entries[shallow]),
        forall|i: int, j: int|
            #![auto]
            0 <= i < rs.len() && 0 <= j < rs.len() && rs[i]@ == record_of(deep, entries[deep])
                && rs[j]@ == record_of(shallow, entries[shallow]) ==> i < j,
{
    let drec = record_of(deep, entries[deep]);
    let srec = record_of(shallow, entries[shallow]);
    assert(delivers(rs, drec));
    assert(delivers(rs, srec));
    let i0 = choose|i: int| 0 <= i < rs.len() && rs[i]@ == drec;
    let j0 = choose|j: int| 0 <= j < rs.len() && rs[j]@ == srec;
    assert forall|i: int, j: int|
        0 <= i < rs.len() && 0 <= j < rs.len() && rs[i]@ == drec && rs[j]@ == srec implies i
        < j by {
        assert(rs[i]@.path.len() == deep.1.len());
        assert(rs[j]@.path.len() == shallow.1.len());
        if j < i {
            assert(delivery_le(rs[j]@, rs[i]@));
        }
    }
    assert(0 <= i0 < rs.len() && rs[i0]@ == drec);
    assert(0 <= j0 < rs.len() && rs[j0]@ == srec);
    assert(i0 < j0);
}

/// Storing two cookies under the same `(domain, path, name)` key is the
/// same as storing only the later one: the jar keeps exactly one cookie
/// there, with the later content, and no other key is touched.
pub proof fn lemma_overwrite(
    entries: Map<CookieId, CookieData>,
    id: CookieId,
    d1: CookieData,
    d2: CookieData,
)
    ensures
        entries.insert(id, d1).insert(id, d2) == entries.insert(id, d2),
        entries.insert(id, d1).insert(id, d2)[id] == d2,
        entries.insert(id, d1).insert(id, d2).dom() =~= entries.dom().insert(id),
{
    assert(entries.insert(id, d1).insert(id, d2) =~= entries.insert(id, d2));
}

/// A session cookie — one without an expiry — never reaches the saved
/// form of the jar, whatever else the jar holds.
pub proof fn lemma_session_cookie_never_saved(
    saved: Map<CookieId, CookieData>,
    entries: Map<CookieId, CookieData>,
    id: CookieId,
)
    requires
        saved_from(saved, entries),
        entries.dom().contains(id) ==> !entries[id].1,
    ensures
        !saved.dom().contains(id),
{
}

/// A persistent cookie — one with an expiry — reaches the saved form of
/// the jar, unchanged, as long as it is not among the entries whose expiry
/// passed before the save (the dropped set a save's contract quantifies
/// over).
pub proof fn lemma_persistent_cookie_saved(
    saved: Map<CookieId, CookieData>,
    entries: Map<CookieId, CookieData>,
    dropped: Set<CookieId>,
    id: CookieId,
)
    requires
        saved_from(saved, entries),
        saved_except(saved, entries, dropped),
        entries.dom().contains(id),
        entries[id].1,
        !dropped.contains(id),
    ensures
        saved.dom().contains(id),
        saved[id] == entries[id],
{
}

/// Round trip through the backing file: whatever a fresh jar holds after
/// loading what an old jar saved is a persistent cookie of the old jar,
/// unchanged — loading can drop a cookie that expired in between, but can
/// never invent, alter, or resurrect a session cookie.
pub proof fn lemma_round_trip(
    entries: Map<CookieId, CookieData>,
    saved: Map<CookieId, CookieData>,
    reloaded: Map<CookieId, CookieData>,
)
    requires
        saved_from(saved, entries),
        reloaded.submap_of(saved),
    ensures
        forall|id: CookieId|
            #[trigger] reloaded.dom().contains(id) ==> entries.dom().contains(id)
                && entries[id].1 && reloaded[id] == entries[id],
{
    assert forall|id: CookieId| #[trigger] reloaded.dom().contains(id) implies entries.dom()
        .contains(id) && entries[id].1 && reloaded[id] == entries[id] by {
        assert(saved.dom().contains(id));
        assert(reloaded[id] == saved[id]);
    }
}

} // verus!
