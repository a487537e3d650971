//! Joining keyed byte strings in ascending key order.
//!
//! Split responses and Arma 3 binary chunks both arrive as pieces tagged with
//! a one-byte index; they are put in order by a stable sort on the index and
//! joined. The result of that is stated directly: the pieces with key 0 in
//! arrival order, then those with key 1, and so on up to key 255.
use crate::wire::push_bytes;
use vstd::prelude::*;

verus! {

/// The views of keyed pieces.
pub open spec fn keyed_view(items: Seq<(u8, Vec<u8>)>) -> Seq<(u8, Seq<u8>)> {
    items.map_values(|it: (u8, Vec<u8>)| (it.0, it.1@))
}

/// The pieces with key `k`, joined in arrival order.
pub open spec fn pieces_with_key(items: Seq<(u8, Seq<u8>)>, k: u8) -> Seq<u8>
    decreases items.len(),
{
    if items.len() == 0 {
        Seq::empty()
    } else {
        pieces_with_key(items.drop_last(), k) + (if items.last().0 == k {
            items.last().1
        } else {
            Seq::empty()
        })
    }
}

/// The pieces with keys below `k`, key by key.
pub open spec fn pieces_below(items: Seq<(u8, Seq<u8>)>, k: nat) -> Seq<u8>
    decreases k,
{
    if k == 0 {
        Seq::empty()
    } else {
        pieces_below(items, (k - 1) as nat) + pieces_with_key(items, (k - 1) as u8)
    }
}

/// All pieces joined in ascending key order, pieces with equal keys in
/// arrival order: what a stable sort on the key followed by concatenation gives.
pub open spec fn join_in_key_order(items: Seq<(u8, Seq<u8>)>) -> Seq<u8> {
    pieces_below(items, 256)
}

/// Joins the pieces in ascending key order; pieces with equal keys keep their
/// order.
pub(crate) fn join_in_key_order_exec(items: &Vec<(u8, Vec<u8>)>) -> (r: Vec<u8>)
    ensures
        r@ == join_in_key_order(keyed_view(items@)),
{
    let ghost kv = keyed_view(items@);
    let mut out: Vec<u8> = Vec::new();
    let mut k: usize = 0;
    while k < 256
        invariant
            k <= 256,
            kv == keyed_view(items@),
            out@ == pieces_below(kv, k as nat),
        decreases 256 - k,
    {
        let ghost base = out@;
        let mut j: usize = 0;
        while j < items.len()
            invariant
                k < 256,
                j <= items.len(),
                kv == keyed_view(items@),
                out@ == base + pieces_with_key(kv.take(j as int), k as u8),
            decreases items.len() - j,
        {
            let ghost before = out@;
            proof {
                assert(kv.take(j + 1).drop_last() =~= kv.take(j as int));
                assert(kv.take(j + 1).last() == kv[j as int]);
            }
            if items[j].0 == k as u8 {
                push_bytes(&mut out, items[j].1.as_slice());
                proof {
                    assert(out@ =~= base + pieces_with_key(kv.take(j + 1), k as u8));
                }
            } else {
                proof {
                    assert(out@ =~= base + pieces_with_key(kv.take(j + 1), k as u8));
                }
            }
            j = j + 1;
        }
        proof {
            assert(kv.take(j as int) =~= kv);
        }
        k = k + 1;
    }
    out
}

/// No two pieces share a key.
pub open spec fn distinct_keys(items: Seq<(u8, Seq<u8>)>) -> bool {
    forall|i: int, j: int|
        0 <= i < items.len() && 0 <= j < items.len() && i != j ==> #[trigger] items[i].0
            != #[trigger] items[j].0
}

proof fn lemma_pieces_with_key_found(items: Seq<(u8, Seq<u8>)>, k: u8, i: int)
    requires
        distinct_keys(items),
        0 <= i < items.len(),
        items[i].0 == k,
    ensures
        pieces_with_key(items, k) == items[i].1,
    decreases items.len(),
{
    let last = items.len() - 1;
    if i == last {
        lemma_pieces_with_key_absent(items.drop_last(), k);
        assert(Seq::<u8>::empty() + items[i].1 =~= items[i].1);
    } else {
        assert(items[last].0 != k);
        lemma_pieces_with_key_found(items.drop_last(), k, i);
        assert(pieces_with_key(items.drop_last(), k) + Seq::<u8>::empty() =~= items[i].1);
    }
}

proof fn lemma_pieces_with_key_absent(items: Seq<(u8, Seq<u8>)>, k: u8)
    requires
        forall|i: int| 0 <= i < items.len() ==> #[trigger] items[i].0 != k,
    ensures
        pieces_with_key(items, k) == Seq::<u8>::empty(),
    decreases items.len(),
{
    if items.len() > 0 {
        assert(items[items.len() - 1].0 != k);
        lemma_pieces_with_key_absent(items.drop_last(), k);
        assert(Seq::<u8>::empty() + Seq::<u8>::empty() =~= Seq::<u8>::empty());
    }
}

proof fn lemma_pieces_with_key_same(a: Seq<(u8, Seq<u8>)>, b: Seq<(u8, Seq<u8>)>, k: u8)
    requires
        a.to_multiset() == b.to_multiset(),
        distinct_keys(a),
        distinct_keys(b),
    ensures
        pieces_with_key(a, k) == pieces_with_key(b, k),
{
    if exists|i: int| 0 <= i < a.len() && a[i].0 == k {
        let i = choose|i: int| 0 <= i < a.len() && a[i].0 == k;
        assert(a.contains(a[i]));
        vstd::seq_lib::to_multiset_contains(a, a[i]);
        vstd::seq_lib::to_multiset_contains(b, a[i]);
        assert(b.contains(a[i]));
        let j = choose|j: int| 0 <= j < b.len() && b[j] == a[i];
        lemma_pieces_with_key_found(a, k, i);
        lemma_pieces_with_key_found(b, k, j);
    } else {
        assert forall|j: int| 0 <= j < b.len() implies #[trigger] b[j].0 != k by {
            assert(b.contains(b[j]));
            vstd::seq_lib::to_multiset_contains(b, b[j]);
            vstd::seq_lib::to_multiset_contains(a, b[j]);
            assert(a.contains(b[j]));
        }
        lemma_pieces_with_key_absent(a, k);
        lemma_pieces_with_key_absent(b, k);
    }
}

proof fn lemma_pieces_below_same(a: Seq<(u8, Seq<u8>)>, b: Seq<(u8, Seq<u8>)>, k: nat)
    requires
        a.to_multiset() == b.to_multiset(),
        distinct_keys(a),
        distinct_keys(b),
        k <= 256,
    ensures
        pieces_below(a, k) == pieces_below(b, k),
    decreases k,
{
    if k > 0 {
        lemma_pieces_below_same(a, b, (k - 1) as nat);
        lemma_pieces_with_key_same(a, b, (k - 1) as u8);
    }
}

/// The arrival order does not matter: two arrivals of the same pieces, in
/// which no two pieces share a key, join to the same bytes.
pub proof fn lemma_join_order_independent(a: Seq<(u8, Seq<u8>)>, b: Seq<(u8, Seq<u8>)>)
    requires
        a.to_multiset() == b.to_multiset(),
        distinct_keys(a),
        distinct_keys(b),
    ensures
        join_in_key_order(a) == join_in_key_order(b),
{
    lemma_pieces_below_same(a, b, 256);
}


/// No piece has a key below `n`: there is nothing to join below it.
proof fn lemma_below_none(items: Seq<(u8, Seq<u8>)>, n: nat)
    requires
        n <= 256,
        forall|i: int| 0 <= i < items.len() ==> #[trigger] items[i].0 >= n,
    ensures
        pieces_below(items, n) == Seq::<u8>::empty(),
    decreases n,
{
    if n > 0 {
        lemma_below_none(items, (n - 1) as nat);
        lemma_pieces_with_key_absent(items, (n - 1) as u8);
        assert(Seq::<u8>::empty() + Seq::<u8>::empty() =~= Seq::<u8>::empty());
    }
}

proof fn lemma_with_key_push(init: Seq<(u8, Seq<u8>)>, last: (u8, Seq<u8>), k: u8)
    ensures
        pieces_with_key(init.push(last), k) == pieces_with_key(init, k) + (if last.0 == k {
            last.1
        } else {
            Seq::<u8>::empty()
        }),
{
    assert(init.push(last).drop_last() =~= init);
}

/// Appending a piece whose key is above every earlier key leaves the join of
/// the keys up to its own unchanged.
proof fn lemma_below_unchanged(init: Seq<(u8, Seq<u8>)>, last: (u8, Seq<u8>), n: nat)
    requires
        n <= last.0,
    ensures
        pieces_below(init.push(last), n) == pieces_below(init, n),
    decreases n,
{
    if n > 0 {
        lemma_below_unchanged(init, last, (n - 1) as nat);
        lemma_with_key_push(init, last, (n - 1) as u8);
        assert(pieces_with_key(init, (n - 1) as u8) + Seq::<u8>::empty() =~= pieces_with_key(
            init,
            (n - 1) as u8,
        ));
    }
}

/// ... and puts it at the end of the join of all keys past its own.
proof fn lemma_below_after(init: Seq<(u8, Seq<u8>)>, last: (u8, Seq<u8>), n: nat)
    requires
        forall|i: int| 0 <= i < init.len() ==> #[trigger] init[i].0 < last.0,
        last.0 < n <= 256,
    ensures
        pieces_below(init.push(last), n) == pieces_below(init, n) + last.1,
    decreases n,
{
    let k = (n - 1) as u8;
    lemma_with_key_push(init, last, k);
    if n == last.0 + 1 {
        lemma_below_unchanged(init, last, (n - 1) as nat);
        assert(pieces_below(init, (n - 1) as nat) + (pieces_with_key(init, k) + last.1)
            =~= pieces_below(init, (n - 1) as nat) + pieces_with_key(init, k) + last.1);
    } else {
        lemma_below_after(init, last, (n - 1) as nat);
        lemma_pieces_with_key_absent(init, k);
        assert(pieces_below(init, (n - 1) as nat) + last.1 + (Seq::<u8>::empty()
            + Seq::<u8>::empty()) =~= pieces_below(init, (n - 1) as nat) + Seq::<u8>::empty()
            + last.1);
    }
}

/// The payloads of keyed pieces, in order.
pub open spec fn payloads(items: Seq<(u8, Seq<u8>)>) -> Seq<Seq<u8>> {
    items.map_values(|it: (u8, Seq<u8>)| it.1)
}

/// Pieces that arrive in strictly ascending key order are joined as they
/// arrived: the join is their payloads, one after the other.
pub proof fn lemma_join_sorted(items: Seq<(u8, Seq<u8>)>)
    requires
        forall|i: int, j: int| 0 <= i < j < items.len() ==> #[trigger] items[i].0 < #[trigger] items[j].0,
    ensures
        join_in_key_order(items) == payloads(items).flatten(),
    decreases items.len(),
{
    payloads(items).lemma_flatten_and_flatten_alt_are_equivalent();
    if items.len() == 0 {
        lemma_below_none(items, 256);
        assert(payloads(items).flatten_alt() =~= Seq::<u8>::empty());
    } else {
        let init = items.drop_last();
        let last = items.last();
        assert forall|i: int, j: int| 0 <= i < j < init.len() implies #[trigger] init[i].0
            < #[trigger] init[j].0 by {
            assert(init[i] == items[i] && init[j] == items[j]);
        }
        lemma_join_sorted(init);
        payloads(init).lemma_flatten_and_flatten_alt_are_equivalent();
        assert forall|i: int| 0 <= i < init.len() implies #[trigger] init[i].0 < last.0 by {
            assert(init[i] == items[i] && last == items[items.len() - 1]);
        }
        assert(init.push(last) =~= items);
        lemma_below_after(init, last, 256);
        assert(payloads(items).drop_last() =~= payloads(init));
    }
}

} // verus!
