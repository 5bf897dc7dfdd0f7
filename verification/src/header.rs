//! Building the `Cookie` request header: delivery order and joining.
//!
//! Cookie delivery sorts matched cookies by descending path length — the
//! longer, more specific path first — so that a receiver seeing duplicate
//! names takes the more specific cookie first.  Ties are broken by name so
//! the header is deterministic even though the jar itself promises no
//! order.  The ordered records are then joined as `name=value` pairs
//! separated by `"; "`.

use crate::record::{views, CookieRecord, CookieRecordView};
use vstd::prelude::*;
use vstd::string::StringExecFns;

verus! {

broadcast use {vstd::seq_lib::group_to_multiset_ensures, vstd::multiset::group_multiset_axioms};

/// Lexicographic order on character sequences, by code point.
pub open spec fn lex_le(a: Seq<char>, b: Seq<char>) -> bool
    decreases a.len(),
{
    if a.len() == 0 {
        true
    } else if b.len() == 0 {
        false
    } else if (a[0] as u32) < (b[0] as u32) {
        true
    } else if (a[0] as u32) > (b[0] as u32) {
        false
    } else {
        lex_le(a.drop_first(), b.drop_first())
    }
}

/// Delivery order of two matched cookies: a longer path comes first; equal
/// path lengths are ordered by name.
pub open spec fn delivery_le(a: CookieRecordView, b: CookieRecordView) -> bool {
    a.path.len() > b.path.len() || (a.path.len() == b.path.len() && lex_le(a.name, b.name))
}

/// The records stand in delivery order: every earlier record precedes every
/// later one, so in particular paths come in descending length.
pub open spec fn sorted_for_delivery(rs: Seq<CookieRecord>) -> bool {
    forall|i: int, j: int| 0 <= i < j < rs.len() ==> delivery_le(rs[i]@, rs[j]@)
}

/// Any two character sequences are ordered one way or the other.
pub proof fn lemma_lex_le_total(a: Seq<char>, b: Seq<char>)
    ensures
        lex_le(a, b) || lex_le(b, a),
    decreases a.len(),
{
    if a.len() != 0 && b.len() != 0 && (a[0] as u32) == (b[0] as u32) {
        lemma_lex_le_total(a.drop_first(), b.drop_first());
    }
}

/// Lexicographic order is transitive.
pub proof fn lemma_lex_le_trans(a: Seq<char>, b: Seq<char>, c: Seq<char>)
    requires
        lex_le(a, b),
        lex_le(b, c),
    ensures
        lex_le(a, c),
    decreases a.len(),
{
    if a.len() != 0 && b.len() != 0 && c.len() != 0 && (a[0] as u32) == (b[0] as u32) && (b[0]
        as u32) == (c[0] as u32) {
        lemma_lex_le_trans(a.drop_first(), b.drop_first(), c.drop_first());
    }
}

/// Delivery order is total.
pub proof fn lemma_delivery_le_total(a: CookieRecordView, b: CookieRecordView)
    ensures
        delivery_le(a, b) || delivery_le(b, a),
{
    lemma_lex_le_total(a.name, b.name);
}

/// Delivery order is transitive.
pub proof fn lemma_delivery_le_trans(a: CookieRecordView, b: CookieRecordView, c: CookieRecordView)
    requires
        delivery_le(a, b),
        delivery_le(b, c),
    ensures
        delivery_le(a, c),
{
    if a.path.len() == b.path.len() && b.path.len() == c.path.len() {
        lemma_lex_le_trans(a.name, b.name, c.name);
    }
}

/// Compares two strings in the order of [`lex_le`].
fn lex_le_exec(a: &str, b: &str) -> (r: bool)
    ensures
        r == lex_le(a@, b@),
{
    let la = a.unicode_len();
    let lb = b.unicode_len();
    let mut i: usize = 0;
    proof {
        assert(a@.skip(0) =~= a@);
        assert(b@.skip(0) =~= b@);
    }
    loop
        invariant
            i <= la,
            i <= lb,
            la == a@.len(),
            lb == b@.len(),
            lex_le(a@, b@) == lex_le(a@.skip(i as int), b@.skip(i as int)),
        decreases la - i,
    {
        if i >= la {
            assert(a@.skip(i as int).len() == 0);
            return true;
        }
        if i >= lb {
            assert(b@.skip(i as int).len() == 0);
            assert(a@.skip(i as int).len() > 0);
            return false;
        }
        let ca = a.get_char(i) as u32;
        let cb = b.get_char(i) as u32;
        assert(a@.skip(i as int)[0] == a@[i as int]);
        assert(b@.skip(i as int)[0] == b@[i as int]);
        if ca < cb {
            return true;
        }
        if ca > cb {
            return false;
        }
        assert(a@.skip(i as int).drop_first() =~= a@.skip(i as int + 1));
        assert(b@.skip(i as int).drop_first() =~= b@.skip(i as int + 1));
        i = i + 1;
    }
}

/// Decides [`delivery_le`] on two records.
fn delivery_le_exec(a: &CookieRecord, b: &CookieRecord) -> (r: bool)
    ensures
        r == delivery_le(a@, b@),
{
    let ap = a.path.as_str().unicode_len();
    let bp = b.path.as_str().unicode_len();
    if ap > bp {
        true
    } else if ap < bp {
        false
    } else {
        lex_le_exec(a.name.as_str(), b.name.as_str())
    }
}

/// Index of a record that precedes, in the sense of [`delivery_le`], every
/// record of the vector.
fn index_of_first(rest: &Vec<CookieRecord>) -> (m: usize)
    requires
        rest@.len() > 0,
    ensures
        m < rest@.len(),
        forall|j: int| 0 <= j < rest@.len() ==> delivery_le(rest@[m as int]@, #[trigger] rest@[j]@),
{
    let mut m: usize = 0;
    let mut i: usize = 1;
    proof {
        lemma_delivery_le_total(rest@[0]@, rest@[0]@);
    }
    while i < rest.len()
        invariant
            m < i,
            i <= rest@.len(),
            forall|j: int| 0 <= j < i ==> delivery_le(rest@[m as int]@, #[trigger] rest@[j]@),
        decreases rest@.len() - i,
    {
        if !delivery_le_exec(&rest[m], &rest[i]) {
            proof {
                lemma_delivery_le_total(rest@[m as int]@, rest@[i as int]@);
                assert forall|j: int| 0 <= j <= i implies delivery_le(
                    rest@[i as int]@,
                    #[trigger] rest@[j]@,
                ) by {
                    if j < i {
                        lemma_delivery_le_trans(rest@[i as int]@, rest@[m as int]@, rest@[j]@);
                    } else {
                        lemma_delivery_le_total(rest@[i as int]@, rest@[i as int]@);
                    }
                }
            }
            m = i;
        } else {
            proof {
                lemma_delivery_le_total(rest@[i as int]@, rest@[i as int]@);
            }
        }
        i = i + 1;
    }
    m
}

/// Mapping to views commutes with removing one element.
proof fn lemma_views_remove(rs: Seq<CookieRecord>, i: int)
    requires
        0 <= i < rs.len(),
    ensures
        views(rs.remove(i)) =~= views(rs).remove(i),
{
}

/// Mapping to views commutes with pushing one element.
proof fn lemma_views_push(rs: Seq<CookieRecord>, x: CookieRecord)
    ensures
        views(rs.push(x)) =~= views(rs).push(x@),
{
}

/// Puts matched cookies into delivery order: descending path length, ties
/// broken by name.  The result holds the same records as the input,
/// reordered.
pub fn sort_for_delivery(records: Vec<CookieRecord>) -> (out: Vec<CookieRecord>)
    ensures
        sorted_for_delivery(out@),
        views(out@).to_multiset() == views(records@).to_multiset(),
{
    let mut rest = records;
    let mut out: Vec<CookieRecord> = Vec::new();
    proof {
        assert(views(out@) =~= Seq::empty());
        assert(views(out@).to_multiset().add(views(rest@).to_multiset()) =~= views(
            rest@,
        ).to_multiset());
    }
    let ghost total = views(rest@).to_multiset();
    while rest.len() > 0
        invariant
            sorted_for_delivery(out@),
            views(out@).to_multiset().add(views(rest@).to_multiset()) == total,
            total == views(records@).to_multiset(),
            forall|i: int, j: int|
                0 <= i < out@.len() && 0 <= j < rest@.len() ==> delivery_le(
                    #[trigger] out@[i]@,
                    #[trigger] rest@[j]@,
                ),
        decreases rest@.len(),
    {
        let m = index_of_first(&rest);
        let ghost prev_rest = rest@;
        let ghost prev_out = out@;
        let picked = rest.remove(m);
        out.push(picked);
        proof {
            lemma_views_remove(prev_rest, m as int);
            lemma_views_push(prev_out, picked);
            assert(views(prev_rest)[m as int] == picked@);
            assert(views(prev_rest).contains(picked@));
            assert(views(out@).to_multiset() =~= views(prev_out).to_multiset().insert(picked@));
            assert(views(rest@).to_multiset() =~= views(prev_rest).to_multiset().remove(picked@));
            assert(views(out@).to_multiset().add(views(rest@).to_multiset()) =~= views(
                prev_out,
            ).to_multiset().add(views(prev_rest).to_multiset()));
            assert forall|i: int, j: int|
                0 <= i < out@.len() && 0 <= j < rest@.len() implies delivery_le(
                #[trigger] out@[i]@,
                #[trigger] rest@[j]@,
            ) by {
                let pj = if j < m as int {
                    j
                } else {
                    j + 1
                };
                assert(rest@[j] == prev_rest[pj]);
                if i < prev_out.len() {
                    assert(out@[i] == prev_out[i]);
                } else {
                    assert(out@[i] == picked);
                }
            }
            assert forall|i: int, j: int| 0 <= i < j < out@.len() implies delivery_le(
                out@[i]@,
                out@[j]@,
            ) by {
                if j == out@.len() - 1 {
                    assert(out@[i] == prev_out[i]);
                    assert(out@[j] == picked);
                    assert(prev_rest[m as int] == picked);
                } else {
                    assert(out@[i] == prev_out[i]);
                    assert(out@[j] == prev_out[j]);
                }
            }
        }
    }
    out
}

/// The `name=value` pair of one record, as sent in a `Cookie` header.
pub open spec fn pair_value(r: CookieRecordView) -> Seq<char> {
    r.name + "="@ + r.value
}

/// The full `Cookie` header value for records delivered in this order:
/// their `name=value` pairs joined with `"; "`, empty when nothing matched.
pub open spec fn header_value(rs: Seq<CookieRecordView>) -> Seq<char>
    decreases rs.len(),
{
    if rs.len() == 0 {
        Seq::empty()
    } else if rs.len() == 1 {
        pair_value(rs[0])
    } else {
        pair_value(rs[0]) + "; "@ + header_value(rs.drop_first())
    }
}

/// Appending one record extends the joined header at its end.
proof fn lemma_header_value_snoc(rs: Seq<CookieRecordView>, x: CookieRecordView)
    ensures
        rs.len() == 0 ==> header_value(rs.push(x)) == pair_value(x),
        rs.len() > 0 ==> header_value(rs.push(x)) =~= header_value(rs) + "; "@ + pair_value(x),
    decreases rs.len(),
{
    if rs.len() == 0 {
        assert(rs.push(x).len() == 1);
        assert(rs.push(x)[0] == x);
    } else {
        lemma_header_value_snoc(rs.drop_first(), x);
        assert(rs.push(x).drop_first() =~= rs.drop_first().push(x));
        assert(rs.push(x)[0] == rs[0]);
        if rs.len() == 1 {
            assert(header_value(rs.push(x)) =~= pair_value(rs[0]) + "; "@ + pair_value(x));
        }
    }
}

/// Joins the records, in the order given, as `name=value` pairs separated
/// by `"; "` — the value of the `Cookie` request header.
pub fn build_cookie_header(records: &Vec<CookieRecord>) -> (r: String)
    ensures
        r@ == header_value(views(records@)),
{
    let mut s = String::new();
    let mut i: usize = 0;
    proof {
        assert(views(records@).take(0) =~= Seq::empty());
    }
    while i < records.len()
        invariant
            i <= records@.len(),
            s@ == header_value(views(records@).take(i as int)),
        decreases records@.len() - i,
    {
        if i > 0 {
            s.append("; ");
        }
        s.append(records[i].name.as_str());
        s.append("=");
        s.append(records[i].value.as_str());
        proof {
            let ghost prefix = views(records@).take(i as int);
            lemma_header_value_snoc(prefix, records@[i as int]@);
            assert(prefix.push(records@[i as int]@) =~= views(records@).take(i as int + 1));
            assert(prefix.len() == i);
            if i == 0 {
                assert(s@ =~= pair_value(records@[i as int]@));
            } else {
                assert(s@ =~= header_value(prefix) + "; "@ + pair_value(records@[i as int]@));
            }
        }
        i = i + 1;
    }
    proof {
        assert(views(records@).take(records@.len() as int) =~= views(records@));
    }
    s
}

} // verus!
