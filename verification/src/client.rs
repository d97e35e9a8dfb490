//! Client-side reads over a mirrored store: paging through messages
//! ordered by their sent time.
use vstd::prelude::*;

verus! {

use crate::rows::{Message, MessageV, dup_message};
use crate::store::ChatDb;
use vstd::seq_lib::lemma_multiset_commutative;

/// Messages in non-decreasing order of their sent time.
pub open spec fn ordered_by_sent(s: Seq<MessageV>) -> bool {
    forall|i: int, j: int| 0 <= i <= j < s.len() ==> (#[trigger] s[i]).sent <= (#[trigger] s[j]).sent
}

proof fn lemma_insert_to_multiset(s: Seq<MessageV>, j: int, x: MessageV)
    requires
        0 <= j <= s.len(),
    ensures
        s.insert(j, x).to_multiset() == s.to_multiset().insert(x),
{
    broadcast use vstd::seq_lib::group_to_multiset_ensures;

    let a = s.subrange(0, j);
    let b = s.subrange(j, s.len() as int);
    assert(s.insert(j, x) =~= a.push(x) + b);
    assert(s =~= a + b);
    lemma_multiset_commutative(a.push(x), b);
    lemma_multiset_commutative(a, b);
    assert(a.push(x).to_multiset() =~= a.to_multiset().insert(x));
    assert((a.to_multiset().insert(x)).add(b.to_multiset()) =~= (a.to_multiset().add(
        b.to_multiset(),
    )).insert(x));
}

/// A copy of the store's messages, ordered by sent time: the same
/// rows as a multiset, in non-decreasing `sent` order.
pub fn sorted_messages(db: &ChatDb) -> (r: Vec<Message>)
    ensures
        ordered_by_sent(r@.map_values(|x: Message| x@)),
        r@.map_values(|x: Message| x@).to_multiset() == db@.messages.to_multiset(),
{
    broadcast use vstd::seq_lib::group_to_multiset_ensures;

    let ghost orig = db@.messages;
    let mut v: Vec<Message> = Vec::new();
    let mut k: usize = 0;
    while k < db.messages.len()
        invariant
            k <= db.messages.len(),
            orig == db@.messages,
            v@.map_values(|x: Message| x@) == orig.subrange(0, k as int),
        decreases db.messages.len() - k,
    {
        let ghost pre = v@.map_values(|x: Message| x@);
        proof {
            assert(pre.len() == k);
            assert(v@.len() == k);
        }
        v.push(dup_message(&db.messages[k]));
        proof {
            let cur = v@.map_values(|x: Message| x@);
            assert(v@.len() == k + 1);
            assert(cur.len() == k + 1);
            assert(k < orig.len());
            assert forall|t: int| 0 <= t < k implies cur[t] == pre[t] by {
                assert(v@[t] == v@.subrange(0, k as int)[t]);
            }
            assert(cur[k as int] == orig[k as int]);
            assert(cur =~= orig.subrange(0, k + 1 as int));
        }
        k += 1;
    }
    proof {
        assert(orig.subrange(0, orig.len() as int) =~= orig);
    }
    if v.len() <= 1 {
        return v;
    }
    let mut i: usize = 1;
    while i < v.len()
        invariant
            1 <= i <= v.len(),
            ordered_by_sent(v@.map_values(|x: Message| x@).subrange(0, i as int)),
            v@.map_values(|x: Message| x@).to_multiset() == orig.to_multiset(),
        decreases v.len() - i,
    {
        let ghost before = v@.map_values(|x: Message| x@);
        let key_sent = v[i].sent;
        let mut j: usize = 0;
        while j < i && v[j].sent <= key_sent
            invariant
                j <= i < v.len(),
                before == v@.map_values(|x: Message| x@),
                key_sent == before[i as int].sent,
                forall|k0: int| 0 <= k0 < j ==> (#[trigger] before[k0]).sent <= key_sent,
            decreases i - j,
        {
            j += 1;
        }
        let x = v.remove(i);
        v.insert(j, x);
        proof {
            let after = v@.map_values(|x0: Message| x0@);
            let removed = before.remove(i as int);
            before.remove_ensures(i as int);
            assert forall|t: int| 0 <= t < after.len() implies after[t] == removed.insert(
                j as int,
                before[i as int],
            )[t] by {}
            assert(after =~= removed.insert(j as int, before[i as int]));
            lemma_insert_to_multiset(removed, j as int, before[i as int]);
            broadcast use vstd::seq_lib::group_to_multiset_ensures;
            broadcast use vstd::multiset::group_multiset_axioms;

            assert(removed.to_multiset() =~= before.to_multiset().remove(before[i as int]));
            assert(before.contains(before[i as int]));
            assert(before.to_multiset().count(before[i as int]) > 0);
            assert(after.to_multiset() =~= before.to_multiset());
            let bs = before.subrange(0, i as int);
            assert(ordered_by_sent(bs));
            assert(forall|t: int| 0 <= t < i ==> (#[trigger] before[t]) == bs[t]);
            // Sortedness of the prefix grew by one: positions below
            // the insertion point hold rows at most the key, the key
            // sits at the insertion point, and everything shifted
            // right of it was greater.
            assert forall|a: int, b: int|
                0 <= a <= b < i + 1 implies (#[trigger] after[a]).sent <= (
            #[trigger] after[b]).sent by {
                if a < j && b < j {
                    assert(bs[a].sent <= bs[b].sent);
                } else if a < j && b == j {
                    assert(after[a] == before[a] && after[b] == before[i as int]);
                    assert(before[a].sent <= key_sent);
                } else if a < j && b > j {
                    assert(after[a] == before[a] && after[b] == before[b - 1]);
                    assert(bs[a].sent <= bs[b - 1].sent);
                } else if a == j && b == j {
                } else if a == j && b > j {
                    assert(after[a] == before[i as int]);
                    assert(after[b] == before[b - 1]);
                    assert(before[j as int].sent > key_sent);
                    assert(bs[j as int].sent <= bs[b - 1].sent);
                } else {
                    assert(after[a] == before[a - 1] && after[b] == before[b - 1]);
                    assert(bs[a - 1].sent <= bs[b - 1].sent);
                }
            }
            assert(ordered_by_sent(after.subrange(0, i + 1 as int))) by {
                let nx = after.subrange(0, i + 1 as int);
                assert(forall|t: int| 0 <= t < i + 1 ==> (#[trigger] nx[t]) == after[t]);
            }
        }
        i += 1;
    }
    proof {
        let fullv = v@.map_values(|x: Message| x@);
        assert(fullv.subrange(0, fullv.len() as int) =~= fullv);
    }
    v
}

/// A page of the store's messages: the window `[start, end)` of the
/// messages ordered by sent time, both bounds clamped to the range,
/// as the client shows them.
pub fn get_messages(db: &ChatDb, start: usize, end: usize) -> (r: Vec<Message>)
    ensures
        ({
            let page = r@.map_values(|x: Message| x@);
            exists|all: Seq<MessageV>|
                {
                    &&& #[trigger] all.to_multiset() == db@.messages.to_multiset()
                    &&& ordered_by_sent(all)
                    &&& page == all.subrange(
                        vstd::math::min(start as int, vstd::math::min(end as int, all.len() as int)),
                        vstd::math::min(end as int, all.len() as int),
                    )
                }
        }),
{
    let sorted = sorted_messages(db);
    let ghost all = sorted@.map_values(|x: Message| x@);
    let end2 = if end < sorted.len() {
        end
    } else {
        sorted.len()
    };
    let start2 = if start < end2 {
        start
    } else {
        end2
    };
    let mut out: Vec<Message> = Vec::new();
    let mut i: usize = start2;
    while i < end2
        invariant
            start2 <= i <= end2 <= sorted.len(),
            all == sorted@.map_values(|x: Message| x@),
            out@.map_values(|x: Message| x@) == all.subrange(start2 as int, i as int),
        decreases end2 - i,
    {
        let ghost pre = out@.map_values(|x: Message| x@);
        proof {
            assert(pre.len() == i - start2);
            assert(out@.len() == i - start2);
        }
        out.push(dup_message(&sorted[i]));
        proof {
            let cur = out@.map_values(|x: Message| x@);
            assert(out@.len() == i - start2 + 1);
            assert(cur.len() == i - start2 + 1);
            assert forall|t: int| 0 <= t < i - start2 implies cur[t] == pre[t] by {
                assert(out@[t] == out@.subrange(0, i - start2 as int)[t]);
            }
            assert(cur[i - start2] == all[i as int]);
            assert(cur =~= all.subrange(start2 as int, i + 1 as int));
        }
        i += 1;
    }
    proof {
        assert(all.to_multiset() == db@.messages.to_multiset());
        assert(start2 as int == vstd::math::min(
            start as int,
            vstd::math::min(end as int, all.len() as int),
        ));
        assert(end2 as int == vstd::math::min(end as int, all.len() as int));
    }
    out
}

} // verus!
