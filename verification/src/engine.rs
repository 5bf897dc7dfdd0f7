//! The trusted boundary to the external cookie engine.
//!
//! The jar itself is a `cookie_store::CookieStore`: an RFC 6265 cookie store
//! that parses, validates and matches cookies.  This module declares that
//! type for the verifier, gives names to what the engine computes, and wraps
//! the handful of engine calls the library makes.  Every contract here is
//! taken on trust; it states no more than `cookie_store`'s and `url`'s own
//! sources show, and of outcomes that depend on the clock (cookie expiry is
//! judged against the current time) it states only what holds either way.

use crate::record::CookieRecord;
use cookie_store::CookieStore;
use vstd::prelude::*;

verus! {

/// Identity of a stored cookie: its `(domain, path, name)` triple.
pub type CookieId = (Seq<char>, Seq<char>, Seq<char>);

/// Abstract content of a stored cookie:
/// `(value, persistent, secure, http_only, host_only)`.  A cookie is
/// *persistent* when it carries an expiry (`Max-Age` or `Expires`); a
/// cookie without one is a *session* cookie and never expires on its own.
/// A cookie is *host-only* when its `Set-Cookie` value carried no `Domain`
/// attribute: it is then delivered to its exact host only, while one with a
/// `Domain` attribute also reaches subdomains.
pub type CookieData = (Seq<char>, bool, bool, bool, bool);

#[verifier::external_type_specification]
#[verifier::external_body]
pub struct ExCookieStore(CookieStore);

/// The cookies a `cookie_store::CookieStore` value holds, keyed by
/// `(domain, path, name)` — the store keeps at most one cookie per such
/// triple — excluding cookies whose recorded expiry makes them definitely
/// past (such as one expired by directive, whose expiry is the Unix
/// epoch).  This reads only the store value, never the clock; a cookie
/// whose expiry lies ahead is an entry even if it lapses later, and a
/// session cookie (`persistent == false`) never lapses at all.
pub uninterp spec fn store_entries(s: CookieStore) -> Map<CookieId, CookieData>;

/// What one `Set-Cookie` header value, received from a given request URL,
/// parses to: `None` when `cookie_store` rejects the value for that URL
/// (malformed syntax, a domain that does not cover the URL's host, an
/// `HttpOnly` cookie from a non-HTTP scheme, …), otherwise the identity and
/// content of the cookie it denotes.  `cookie_store`'s validation reads only
/// the header value and the URL, so this is a function of the two strings.
pub uninterp spec fn parsed(raw: Seq<char>, url: Seq<char>) -> Option<(CookieId, CookieData)>;

/// `cookie_store`'s delivery rule: whether a stored cookie with this
/// identity and content is delivered to a request for `url` — domain match
/// (exact host for a host-only cookie, subdomains too for one with a
/// `Domain` attribute), path match, and the `secure` / `http_only` gates
/// against the URL's scheme.  Everything the rule reads is in its
/// arguments; it never reads the clock.
pub uninterp spec fn matches_url(id: CookieId, data: CookieData, url: Seq<char>) -> bool;

/// Whether one `Set-Cookie` header value is accepted and *stored* whatever
/// the clock says and whatever the jar already holds: it is a host-only
/// directive (no `Domain` attribute, so no public-suffix rejection on any
/// store), valid against `url`, `url` has an http or https scheme (so no
/// `HttpOnly` gate can reject it), and it is a session cookie or carries a
/// strictly positive `Max-Age` (which takes precedence over `Expires`, and
/// then the cookie cannot have expired on arrival).  A function of the two
/// strings alone.
pub uninterp spec fn parsed_fresh(raw: Seq<char>, url: Seq<char>) -> bool;

/// Whether `cookie_store::CookieStore::load_json` decodes these bytes at
/// all: every line parses as one cookie record.  Empty bytes decode (to no
/// records); the decoding reads only the bytes.
pub uninterp spec fn decodable(bytes: Seq<u8>) -> bool;

/// Whether no two records of these bytes share a `(domain, path, name)`
/// key.  A saved jar is always canonical — it writes each key once — but
/// arbitrary bytes need not be, and loading non-canonical bytes lets the
/// clock pick among duplicates (an expired record is skipped in favour of
/// an earlier one), so only canonical bytes load predictably.
pub uninterp spec fn canonical(bytes: Seq<u8>) -> bool;

/// Whether `url::Url::parse` accepts this string as an absolute URL.
pub uninterp spec fn url_ok(url: Seq<char>) -> bool;

/// The cookie records encoded in a saved jar: what
/// `cookie_store::CookieStore::load_json` decodes these bytes to, keyed by
/// `(domain, path, name)` with later lines overwriting earlier ones — or
/// the empty map when any line is undecodable, since loading then fails as
/// a whole.  The decoding reads only the bytes.
pub uninterp spec fn decoded(bytes: Seq<u8>) -> Map<CookieId, CookieData>;

/// The record a matching query hands out for a stored cookie: its name,
/// value and path as plain strings.
pub open spec fn record_of(id: CookieId, data: CookieData) -> crate::record::CookieRecordView {
    crate::record::CookieRecordView { name: id.2, value: data.0, path: id.1 }
}

/// `rec` is the record of some entry of `entries` that is delivered to
/// `url`.
pub open spec fn matched_record(
    entries: Map<CookieId, CookieData>,
    url: Seq<char>,
    rec: crate::record::CookieRecordView,
) -> bool {
    exists|id: CookieId|
        #[trigger] entries.dom().contains(id) && matches_url(id, entries[id], url) && rec
            == record_of(id, entries[id])
}

/// Some element of `rs` views as `rec`.
pub open spec fn delivers(rs: Seq<CookieRecord>, rec: crate::record::CookieRecordView) -> bool {
    exists|j: int| 0 <= j < rs.len() && #[trigger] rs[j]@ == rec
}

/// No *session* entry of `entries` that the delivery rule selects for
/// `url` is missing from `rs`.  Persistent entries may be absent — they
/// can expire — but a session cookie never expires on its own.
pub open spec fn session_complete(
    entries: Map<CookieId, CookieData>,
    url: Seq<char>,
    rs: Seq<CookieRecord>,
) -> bool {
    forall|id: CookieId|
        #[trigger] entries.dom().contains(id) && !entries[id].1 && matches_url(
            id,
            entries[id],
            url,
        ) ==> delivers(rs, record_of(id, entries[id]))
}

/// Every record of `saved` comes unchanged from a *persistent* entry of
/// `entries`: a saved jar never holds a session cookie, and never invents or
/// alters a cookie.
pub open spec fn saved_from(
    saved: Map<CookieId, CookieData>,
    entries: Map<CookieId, CookieData>,
) -> bool {
    forall|id: CookieId|
        #[trigger] saved.dom().contains(id) ==> entries.dom().contains(id) && entries[id].1
            && saved[id] == entries[id]
}

/// `dropped` is exactly the set of persistent entries of `entries` missing
/// from `saved`: every persistent entry outside it appears in `saved`, and
/// it holds nothing else.  The dropped set stands for the persistent
/// cookies whose expiry passed before the save looked at them.  Which ones
/// those are — and how many — depends on the clock, so a save can promise
/// completeness only up to *some* such set: this clause shapes the saved
/// form but cannot bound the set's size.
pub open spec fn saved_except(
    saved: Map<CookieId, CookieData>,
    entries: Map<CookieId, CookieData>,
    dropped: Set<CookieId>,
) -> bool {
    &&& forall|id: CookieId|
        #[trigger] entries.dom().contains(id) && entries[id].1 && !dropped.contains(id)
            ==> saved.dom().contains(id)
    &&& forall|id: CookieId|
        #[trigger] dropped.contains(id) ==> entries.dom().contains(id) && entries[id].1
            && !saved.dom().contains(id)
}

/// The records of `rs` come from pairwise *distinct* entries of `entries`,
/// each selected by the delivery rule for `url`: no stored cookie is
/// reported twice.
pub open spec fn from_distinct_entries(
    entries: Map<CookieId, CookieData>,
    url: Seq<char>,
    rs: Seq<CookieRecord>,
) -> bool {
    exists|ids: Seq<CookieId>|
        #![auto]
        ids.len() == rs.len() && (forall|j: int|
            0 <= j < rs.len() ==> #[trigger] entries.dom().contains(ids[j]) && matches_url(
                ids[j],
                entries[ids[j]],
                url,
            ) && rs[j]@ == record_of(ids[j], entries[ids[j]])) && (forall|j1: int, j2: int|
            0 <= j1 < j2 < rs.len() ==> ids[j1] != ids[j2])
}

/// Relies on `cookie_store::CookieStore::default`: a freshly built store
/// holds no cookies.
#[verifier::external_body]
pub(crate) fn new_store() -> (store: CookieStore)
    ensures
        (store_entries(store) == Map::<CookieId, CookieData>::empty()),
{
    CookieStore::default()
}

/// Relies on `url::Url::parse` (to turn the URL string into a `url::Url`)
/// and on `cookie_store::CookieStore::parse`, which validates one
/// `Set-Cookie` value against that URL and then follows the RFC 6265 storage
/// model: a valid unexpired cookie is inserted at its `(domain, path, name)`
/// key, replacing any cookie already there; a valid but expired cookie
/// expires the cookie at that key if one is stored (and is otherwise
/// rejected); a rejected value leaves the store untouched.  Whether a cookie
/// carrying an absolute `Expires` date counts as expired depends on the
/// clock, and on a store built with a public-suffix list a suffix `Domain`
/// attribute can be rewritten to host-only before insertion, so on success
/// this promises insertion of *some* content, or removal, at the parsed
/// key — except for a *fresh* value (see [`parsed_fresh`]): a host-only
/// directive, for which the rewrite is the identity, is always stored with
/// exactly its parsed content.
#[verifier::external_body]
pub(crate) fn parse_into(s: &mut CookieStore, raw: &str, url: &str) -> (ok: bool)
    ensures
        ok ==> parsed(raw@, url@) is Some,
        ok ==> url_ok(url@),
        parsed_fresh(raw@, url@) ==> ok,
        ok && parsed_fresh(raw@, url@) ==> {
            let (id, data) = parsed(raw@, url@)->0;
            store_entries(*final(s)) == store_entries(*old(s)).insert(id, data)
        },
        ok ==> {
            let (id, data) = parsed(raw@, url@)->0;
            exists|d: CookieData|
                #![auto]
                store_entries(*final(s)) == store_entries(*old(s)).insert(id, d) || store_entries(
                    *final(s),
                ) == store_entries(*old(s)).remove(id)
        },
        !ok ==> store_entries(*final(s)) == store_entries(*old(s)),
{
    match url::Url::parse(url) {
        Ok(u) => s.parse(raw, &u).is_ok(),
        Err(_) => false,
    }
}

/// Relies on `url::Url::parse` and on `cookie_store::CookieStore::matches`:
/// the store returns exactly the unexpired stored cookies that its delivery
/// rule selects for this URL, in no promised order.  The returned records
/// come from pairwise distinct delivered entries (the store walks its map
/// once, so no cookie is reported twice), and every *session* entry the
/// rule selects is returned (a session cookie cannot have expired).  An
/// unparsable URL delivers nothing.
#[verifier::external_body]
pub(crate) fn matches_in(s: &CookieStore, url: &str) -> (r: Vec<CookieRecord>)
    ensures
        !url_ok(url@) ==> r@.len() == 0,
        from_distinct_entries(store_entries(*s), url@, r@),
        url_ok(url@) ==> forall|id: CookieId|
            #[trigger] store_entries(*s).dom().contains(id) && !store_entries(*s)[id].1
                && matches_url(id, store_entries(*s)[id], url@) ==> delivers(
                r@,
                record_of(id, store_entries(*s)[id]),
            ),
{
    match url::Url::parse(url) {
        Ok(u) => s
            .matches(&u)
            .into_iter()
            .map(
                |c| CookieRecord {
                    name: c.name().to_string(),
                    value: c.value().to_string(),
                    path: String::from(&c.path),
                },
            )
            .collect(),
        Err(_) => Vec::new(),
    }
}

/// Relies on `cookie_store::CookieStore::save_json`: it writes every
/// *persistent* cookie of the store that is unexpired at save time, one
/// JSON record per line, and nothing else; in particular no session cookie.
/// Which persistent entries have expired by then depends on the clock, so
/// completeness holds only up to some dropped set of them.  The output is
/// made to be read back by `load_json`.  Serialization itself cannot fail:
/// the records are plain data, expiry dates are clamped to the RFC 3339
/// range, and the writer is a byte buffer (the error branch below is
/// unreachable and kept only to avoid a panic).
#[verifier::external_body]
#[allow(deprecated)]
pub(crate) fn save_json_bytes(s: &CookieStore) -> (r: Vec<u8>)
    ensures
        saved_from(decoded(r@), store_entries(*s)),
        decodable(r@),
        canonical(r@),
        exists|dropped: Set<CookieId>|
            #![auto]
            saved_except(decoded(r@), store_entries(*s), dropped),
{
    let mut buf: Vec<u8> = Vec::new();
    match s.save_json(&mut buf) {
        Ok(()) => buf,
        Err(_) => Vec::new(),
    }
}

/// Relies on `cookie_store::CookieStore::load_json`: it decodes one cookie
/// per line, skips cookies that have expired by load time, and keys the rest
/// by `(domain, path, name)`; on undecodable bytes — one bad line fails the
/// whole load — the jar falls back to empty, as it trivially does for empty
/// bytes (no lines, no records).  On canonical bytes (each key at most
/// once, as a save always produces) the store holds a subset of the
/// records encoded in the bytes, unchanged; on duplicate keys the clock
/// picks among the duplicates, so nothing is claimed.  Either way, since a
/// *session* record cannot have expired, whenever the last record at a key
/// is a session record that key is kept.
#[verifier::external_body]
#[allow(deprecated)]
pub(crate) fn load_json_bytes(bytes: &Vec<u8>) -> (s: CookieStore)
    ensures
        canonical(bytes@) ==> store_entries(s).submap_of(decoded(bytes@)),
        (!decodable(bytes@) ==> store_entries(s) == Map::<CookieId, CookieData>::empty()),
        (bytes@.len() == 0 ==> store_entries(s) == Map::<CookieId, CookieData>::empty()),
        forall|id: CookieId|
            #[trigger] decoded(bytes@).dom().contains(id) && !decoded(bytes@)[id].1
                ==> store_entries(s).dom().contains(id),
{
    CookieStore::load_json(&bytes[..]).unwrap_or_default()
}

} // verus!
