use vstd::prelude::*;
use vstd::utf8::encode_utf8;

use crate::transaction::{OutPoint, OutPointView, TxOut, TxOutView};

verus! {

/// Lexicographic order on byte strings: a proper prefix comes first.
pub open spec fn bytes_lt(a: Seq<u8>, b: Seq<u8>) -> bool
    decreases a.len(),
{
    if a.len() == 0 {
        b.len() > 0
    } else if b.len() == 0 {
        false
    } else if a[0] < b[0] {
        true
    } else if a[0] > b[0] {
        false
    } else {
        bytes_lt(a.drop_first(), b.drop_first())
    }
}

/// The order of out-points: by the UTF-8 bytes of the transaction id, then by index.
pub open spec fn out_point_lt(a: OutPointView, b: OutPointView) -> bool {
    ||| bytes_lt(encode_utf8(a.txid), encode_utf8(b.txid))
    ||| (encode_utf8(a.txid) == encode_utf8(b.txid) && a.index < b.index)
}

/// Whether the entries are in out-point order (no entry after one it precedes).
pub open spec fn sorted_by_out_point(s: Seq<(OutPointView, TxOutView)>) -> bool {
    forall|i: int, j: int| 0 <= i < j < s.len() ==> !out_point_lt(#[trigger] s[j].0, #[trigger] s[i].0)
}

proof fn lemma_bytes_lt_asymmetric(a: Seq<u8>, b: Seq<u8>)
    ensures
        !(bytes_lt(a, b) && bytes_lt(b, a)),
    decreases a.len(),
{
    if a.len() > 0 && b.len() > 0 && a[0] == b[0] {
        lemma_bytes_lt_asymmetric(a.drop_first(), b.drop_first());
    }
}

proof fn lemma_bytes_lt_irreflexive(a: Seq<u8>)
    ensures
        !bytes_lt(a, a),
    decreases a.len(),
{
    if a.len() > 0 {
        lemma_bytes_lt_irreflexive(a.drop_first());
    }
}

proof fn lemma_bytes_lt_transitive(a: Seq<u8>, b: Seq<u8>, c: Seq<u8>)
    requires
        bytes_lt(a, b),
        bytes_lt(b, c),
    ensures
        bytes_lt(a, c),
    decreases a.len(),
{
    if a.len() > 0 && b.len() > 0 && c.len() > 0 && a[0] == b[0] && b[0] == c[0] {
        lemma_bytes_lt_transitive(a.drop_first(), b.drop_first(), c.drop_first());
    }
}

/// The out-point order is a strict order.
pub proof fn lemma_out_point_order(a: OutPointView, b: OutPointView, c: OutPointView)
    ensures
        !(out_point_lt(a, b) && out_point_lt(b, a)),
        out_point_lt(a, b) && out_point_lt(b, c) ==> out_point_lt(a, c),
{
    let x = encode_utf8(a.txid);
    let y = encode_utf8(b.txid);
    let z = encode_utf8(c.txid);
    lemma_bytes_lt_asymmetric(x, y);
    lemma_bytes_lt_irreflexive(x);
    lemma_bytes_lt_irreflexive(y);
    if bytes_lt(x, y) && bytes_lt(y, z) {
        lemma_bytes_lt_transitive(x, y, z);
    }
}

/// Whether `a` comes before `b` in out-point order.
pub fn out_point_precedes(a: &OutPoint, b: &OutPoint) -> (lt: bool)
    ensures
        lt == out_point_lt(a@, b@),
{
    let x = a.txid.as_str().as_bytes();
    let y = b.txid.as_str().as_bytes();
    let mut i: usize = 0;
    proof {
        assert(x@.skip(0) =~= x@);
        assert(y@.skip(0) =~= y@);
        assert(x@.subrange(0, 0) =~= y@.subrange(0, 0));
    }
    while i < x.len() && i < y.len()
        invariant
            x@ == encode_utf8(a.txid@),
            y@ == encode_utf8(b.txid@),
            i <= x@.len(),
            i <= y@.len(),
            x@.subrange(0, i as int) == y@.subrange(0, i as int),
            bytes_lt(x@, y@) == bytes_lt(x@.skip(i as int), y@.skip(i as int)),
        decreases x@.len() - i,
    {
        let ghost xs = x@.skip(i as int);
        let ghost ys = y@.skip(i as int);
        proof {
            assert(xs[0] == x@[i as int]);
            assert(ys[0] == y@[i as int]);
            assert(xs.drop_first() =~= x@.skip(i + 1));
            assert(ys.drop_first() =~= y@.skip(i + 1));
        }
        if x[i] < y[i] {
            proof {
                assert(bytes_lt(xs, ys));
                if x@ == y@ {
                    assert(x@[i as int] == y@[i as int]);
                }
            }
            return true;
        }
        if x[i] > y[i] {
            proof {
                assert(!bytes_lt(xs, ys));
                if x@ == y@ {
                    assert(x@[i as int] == y@[i as int]);
                }
            }
            return false;
        }
        proof {
            assert(bytes_lt(xs, ys) == bytes_lt(xs.drop_first(), ys.drop_first()));
        }
        i = i + 1;
        proof {
            assert(x@.subrange(0, i as int) =~= x@.subrange(0, i - 1).push(x@[i - 1]));
            assert(y@.subrange(0, i as int) =~= y@.subrange(0, i - 1).push(y@[i - 1]));
        }
    }
    if x.len() == y.len() {
        proof {
            assert(x@ =~= x@.subrange(0, i as int));
            assert(y@ =~= y@.subrange(0, i as int));
            lemma_bytes_lt_irreflexive(x@);
        }
        a.index < b.index
    } else {
        proof {
            let xs = x@.skip(i as int);
            let ys = y@.skip(i as int);
            if x@.len() < y@.len() {
                assert(xs.len() == 0 && ys.len() > 0);
            } else {
                assert(ys.len() == 0);
            }
        }
        x.len() < y.len()
    }
}

/// The entries as views.
pub open spec fn entries_view(entries: Seq<(OutPoint, TxOut)>) -> Seq<(OutPointView, TxOutView)> {
    entries.map_values(|e: (OutPoint, TxOut)| (e.0@, e.1@))
}

/// The same entries, put in out-point order.
pub fn sort_by_out_point(entries: Vec<(OutPoint, TxOut)>) -> (sorted: Vec<(OutPoint, TxOut)>)
    ensures
        sorted_by_out_point(entries_view(sorted@)),
        entries_view(sorted@).to_multiset() == entries_view(entries@).to_multiset(),
{
    let ghost input = entries_view(entries@);
    let mut sorted: Vec<(OutPoint, TxOut)> = Vec::new();
    let mut i: usize = 0;
    proof {
        assert(entries_view(sorted@) =~= Seq::<(OutPointView, TxOutView)>::empty());
        assert(input.take(0) =~= Seq::<(OutPointView, TxOutView)>::empty());
    }
    while i < entries.len()
        invariant
            i <= entries@.len(),
            input == entries_view(entries@),
            sorted_by_out_point(entries_view(sorted@)),
            entries_view(sorted@).to_multiset() == input.take(i as int).to_multiset(),
        decreases entries@.len() - i,
    {
        let x = (entries[i].0.clone(), entries[i].1.clone());
        let ghost xv = (x.0@, x.1@);
        proof {
            assert(xv == input[i as int]);
        }
        let ghost before = entries_view(sorted@);
        let mut p: usize = 0;
        while p < sorted.len()
            invariant
                p <= sorted@.len(),
                before == entries_view(sorted@),
                xv == (x.0@, x.1@),
                forall|q: int| 0 <= q < p ==> !out_point_lt(xv.0, #[trigger] before[q].0),
            ensures
                p <= sorted@.len(),
                forall|q: int| 0 <= q < p ==> !out_point_lt(xv.0, #[trigger] before[q].0),
                p < sorted@.len() ==> out_point_lt(xv.0, before[p as int].0),
            decreases sorted@.len() - p,
        {
            proof {
                assert(before[p as int] == (sorted@[p as int].0@, sorted@[p as int].1@));
            }
            if out_point_precedes(&x.0, &sorted[p].0) {
                break;
            }
            p = p + 1;
        }
        sorted.insert(p, x);
        proof {
            let after = entries_view(sorted@);
            assert(after =~= before.insert(p as int, xv));
            assert forall|a: int, b: int| 0 <= a < b < after.len() implies !out_point_lt(
                #[trigger] after[b].0,
                #[trigger] after[a].0,
            ) by {
                if a < p && b < p {
                    assert(after[a] == before[a] && after[b] == before[b]);
                } else if a < p && b == p {
                    assert(after[a] == before[a]);
                    assert(after[b] == xv);
                } else if a < p && b > p {
                    assert(after[a] == before[a] && after[b] == before[b - 1]);
                } else if a == p {
                    assert(after[a] == xv);
                    assert(after[b] == before[b - 1]);
                    assert(out_point_lt(xv.0, before[p as int].0));
                    lemma_out_point_order(xv.0, before[p as int].0, before[p as int].0);
                    lemma_out_point_order(before[b - 1].0, xv.0, before[p as int].0);
                    if b - 1 > p {
                        assert(!out_point_lt(before[b - 1].0, before[p as int].0));
                    }
                } else {
                    assert(after[a] == before[a - 1] && after[b] == before[b - 1]);
                }
            }
            assert(before =~= before.subrange(0, p as int) + before.subrange(p as int, before.len() as int));
            vstd::seq_lib::lemma_multiset_commutative(before.subrange(0, p as int), before.subrange(p as int, before.len() as int));
            vstd::seq_lib::lemma_multiset_commutative(before.subrange(0, p as int).push(xv), before.subrange(p as int, before.len() as int));
            before.subrange(0, p as int).to_multiset_ensures();
            input.take(i as int).to_multiset_ensures();
            assert(input.take(i + 1) =~= input.take(i as int).push(xv));
        }
        i = i + 1;
    }
    proof {
        assert(input.take(i as int) =~= input);
    }
    sorted
}

/// The listed entries locked to `address`, in listing order.
pub open spec fn entries_for_address(listing: Seq<(OutPointView, TxOutView)>, address: Seq<char>) -> Seq<
    (OutPointView, TxOutView),
> {
    listing.filter(|e: (OutPointView, TxOutView)| e.1.address == address)
}

/// Walking the entries from `i` on with running total `total`: how many entries are
/// taken once the total reaches `amount`, or `None` when the entries run out or the
/// total would pass 2^64 - 1 first.
pub open spec fn selection_count(s: Seq<(OutPointView, TxOutView)>, amount: u64, i: nat, total: int) -> Option<
    nat,
>
    decreases s.len() - i,
{
    if i >= s.len() {
        None
    } else {
        let t = total + s[i as int].1.value;
        if t > u64::MAX {
            None
        } else if t >= amount {
            Some(i + 1)
        } else {
            selection_count(s, amount, i + 1, t)
        }
    }
}

/// The shortest non-empty prefix of `s` whose values reach `amount`, if the running
/// total stays within 64 bits until then.
pub open spec fn selection_from(s: Seq<(OutPointView, TxOutView)>, amount: u64) -> Option<
    Seq<(OutPointView, TxOutView)>,
> {
    match selection_count(s, amount, 0, 0) {
        Some(k) => Some(s.take(k as int)),
        None => None,
    }
}

/// Whether `s` holds the entries locked to `address` in out-point order.
pub open spec fn sorted_entries_for_address(
    s: Seq<(OutPointView, TxOutView)>,
    listing: Seq<(OutPointView, TxOutView)>,
    address: Seq<char>,
) -> bool {
    &&& sorted_by_out_point(s)
    &&& s.to_multiset() == entries_for_address(listing, address).to_multiset()
}

/// The sum of the values of entries.
pub open spec fn entries_total(s: Seq<(OutPointView, TxOutView)>) -> int
    decreases s.len(),
{
    if s.len() == 0 {
        0
    } else {
        entries_total(s.drop_last()) + s.last().1.value
    }
}

/// What a selection that `selection_count` stops at holds in total: at most 2^64 - 1.
pub proof fn lemma_selection_total(s: Seq<(OutPointView, TxOutView)>, amount: u64, i: nat, total: int)
    requires
        i <= s.len(),
        total == entries_total(s.take(i as int)),
        selection_count(s, amount, i, total) is Some,
    ensures
        entries_total(s.take(selection_count(s, amount, i, total)->0 as int)) <= u64::MAX,
        entries_total(s.take(selection_count(s, amount, i, total)->0 as int)) >= amount,
    decreases s.len() - i,
{
    let t = total + s[i as int].1.value;
    assert(s.take(i + 1 as int).drop_last() =~= s.take(i as int));
    if !(t >= amount) {
        lemma_selection_total(s, amount, i + 1, t);
    }
}

/// Prefix totals never pass the full total.
pub proof fn lemma_entries_total_prefix(s: Seq<(OutPointView, TxOutView)>, k: int)
    requires
        0 <= k <= s.len(),
    ensures
        entries_total(s.take(k)) <= entries_total(s),
    decreases s.len() - k,
{
    if k < s.len() {
        lemma_entries_total_prefix(s, k + 1);
        assert(s.take(k + 1).drop_last() =~= s.take(k));
    } else {
        assert(s.take(k) =~= s);
    }
}

} // verus!
