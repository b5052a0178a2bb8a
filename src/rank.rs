//! Stable ranking of rows under a strict order: the order in which a
//! listing presents rows, ties kept in storage order.

use vstd::prelude::*;

verus! {

/// A strict order on rows: `above(a, b)` when `a` is listed before `b`.
pub trait Order {
    type Item;

    spec fn above(a: Self::Item, b: Self::Item) -> bool;

    fn is_above(a: &Self::Item, b: &Self::Item) -> (r: bool)
        ensures
            r == Self::above(*a, *b),
    ;

    proof fn lemma_transitive(a: Self::Item, b: Self::Item, c: Self::Item)
        requires
            Self::above(a, b),
            Self::above(b, c),
        ensures
            Self::above(a, c),
    ;

    proof fn lemma_irreflexive(a: Self::Item)
        ensures
            !Self::above(a, a),
    ;

    /// A copy of a row.
    fn duplicate(a: &Self::Item) -> (r: Self::Item)
        ensures
            r == *a,
    ;
}

/// The position at which `x` enters the ranking `order` of `rows`: before
/// the first row that `x` is above, so that rows it ties with stay first.
pub open spec fn slot<O: Order>(rows: Seq<O::Item>, order: Seq<usize>, x: O::Item) -> int
    decreases order.len(),
{
    if order.len() == 0 {
        0
    } else if O::above(x, rows[order[0] as int]) {
        0
    } else {
        1 + slot::<O>(rows, order.drop_first(), x)
    }
}

/// The ranking of the first `n` rows: their indices, best first, rows that
/// tie in storage order.
pub open spec fn ranked<O: Order>(rows: Seq<O::Item>, n: nat) -> Seq<usize>
    decreases n,
{
    if n == 0 {
        Seq::empty()
    } else {
        let o = ranked::<O>(rows, (n - 1) as nat);
        o.insert(slot::<O>(rows, o, rows[n - 1]), (n - 1) as usize)
    }
}

/// No row of `order` is above a row listed before it.
pub open spec fn in_order<O: Order>(rows: Seq<O::Item>, order: Seq<usize>) -> bool {
    forall|a: int, b: int|
        0 <= a < b < order.len() ==> !O::above(
            #[trigger] rows[order[b] as int],
            #[trigger] rows[order[a] as int],
        )
}

pub proof fn lemma_slot_bounds<O: Order>(rows: Seq<O::Item>, order: Seq<usize>, x: O::Item)
    ensures
        0 <= slot::<O>(rows, order, x) <= order.len(),
        forall|p: int|
            0 <= p < slot::<O>(rows, order, x) ==> !O::above(x, #[trigger] rows[order[p] as int]),
        slot::<O>(rows, order, x) < order.len() ==> O::above(
            x,
            rows[order[slot::<O>(rows, order, x)] as int],
        ),
    decreases order.len(),
{
    if order.len() > 0 && !O::above(x, rows[order[0] as int]) {
        let t = order.drop_first();
        lemma_slot_bounds::<O>(rows, t, x);
        assert forall|p: int| 0 <= p < slot::<O>(rows, order, x) implies !O::above(
            x,
            #[trigger] rows[order[p] as int],
        ) by {
            if p > 0 {
                assert(order[p] == t[p - 1]);
            }
        }
    }
}

/// The ranking of `n` rows lists each index below `n`, best first.
pub proof fn lemma_ranked<O: Order>(rows: Seq<O::Item>, n: nat)
    requires
        n <= rows.len(),
        n <= usize::MAX,
    ensures
        ranked::<O>(rows, n).len() == n,
        forall|k: int| 0 <= k < n ==> #[trigger] ranked::<O>(rows, n)[k] < n,
        in_order::<O>(rows, ranked::<O>(rows, n)),
    decreases n,
{
    if n > 0 {
        let m = (n - 1) as nat;
        let o = ranked::<O>(rows, m);
        let x = rows[m as int];
        lemma_ranked::<O>(rows, m);
        lemma_slot_bounds::<O>(rows, o, x);
        let s = slot::<O>(rows, o, x);
        let r = o.insert(s, m as usize);
        assert(r == ranked::<O>(rows, n));
        assert forall|k: int| 0 <= k < n implies #[trigger] r[k] < n by {
            if k < s {
                assert(r[k] == o[k]);
            } else if k > s {
                assert(r[k] == o[k - 1]);
            }
        }
        assert forall|a: int, b: int| 0 <= a < b < r.len() implies !O::above(
            #[trigger] rows[r[b] as int],
            #[trigger] rows[r[a] as int],
        ) by {
            if b < s {
                assert(r[a] == o[a] && r[b] == o[b]);
                assert(!O::above(rows[o[b] as int], rows[o[a] as int]));
            } else if b == s {
                assert(r[a] == o[a] && r[b] as int == m);
                assert(!O::above(x, rows[o[a] as int]));
            } else if a == s {
                // x is above the row that was at its slot, which no later row is above
                assert(r[b] == o[b - 1] && r[a] as int == m);
                let y = rows[o[s] as int];
                let z = rows[o[b - 1] as int];
                assert(O::above(x, y));
                if O::above(z, x) {
                    O::lemma_transitive(z, x, y);
                    if b - 1 == s {
                        O::lemma_irreflexive(y);
                    } else {
                        assert(!O::above(rows[o[b - 1] as int], rows[o[s] as int]));
                    }
                }
            } else if a < s {
                assert(r[a] == o[a] && r[b] == o[b - 1]);
                assert(!O::above(rows[o[b - 1] as int], rows[o[a] as int]));
            } else {
                assert(r[a] == o[a - 1] && r[b] == o[b - 1]);
                assert(!O::above(rows[o[b - 1] as int], rows[o[a - 1] as int]));
            }
        }
    }
}

proof fn lemma_slot_step<O: Order>(rows: Seq<O::Item>, order: Seq<usize>, x: O::Item, p: int)
    requires
        0 <= p < order.len(),
        !O::above(x, rows[order[p] as int]),
    ensures
        slot::<O>(rows, order.subrange(p, order.len() as int), x) == 1 + slot::<O>(
            rows,
            order.subrange(p + 1, order.len() as int),
            x,
        ),
{
    let t = order.subrange(p, order.len() as int);
    assert(t.drop_first() =~= order.subrange(p + 1, order.len() as int));
}

/// The ranking of all of `rows`.
pub fn rank<O: Order>(rows: &Vec<O::Item>) -> (r: Vec<usize>)
    ensures
        r@ == ranked::<O>(rows@, rows@.len()),
{
    let n = rows.len();
    let mut order: Vec<usize> = Vec::new();
    let mut i: usize = 0;
    while i < n
        invariant
            n == rows@.len(),
            i <= n,
            order@ == ranked::<O>(rows@, i as nat),
        decreases n - i,
    {
        proof {
            lemma_ranked::<O>(rows@, i as nat);
        }
        let mut p: usize = 0;
        assert(order@.subrange(0, order@.len() as int) =~= order@);
        while p < order.len() && !O::is_above(&rows[i], &rows[order[p]])
            invariant
                n == rows@.len(),
                i < n,
                order@ == ranked::<O>(rows@, i as nat),
                order@.len() == i,
                forall|k: int| 0 <= k < i ==> #[trigger] order@[k] < i,
                p <= order@.len(),
                slot::<O>(rows@, order@, rows@[i as int]) == p + slot::<O>(
                    rows@,
                    order@.subrange(p as int, order@.len() as int),
                    rows@[i as int],
                ),
            decreases order@.len() - p,
        {
            proof {
                lemma_slot_step::<O>(rows@, order@, rows@[i as int], p as int);
            }
            p = p + 1;
        }
        proof {
            let rest = order@.subrange(p as int, order@.len() as int);
            if p < order@.len() {
                assert(rest[0] == order@[p as int]);
            }
            assert(slot::<O>(rows@, rest, rows@[i as int]) == 0);
            assert(order@.subrange(0, order@.len() as int) =~= order@);
        }
        order.insert(p, i);
        i = i + 1;
    }
    order
}

/// The best `limit` rows of `rows`, best first (all of them when there are
/// fewer).
pub open spec fn top<O: Order>(rows: Seq<O::Item>, limit: nat) -> Seq<O::Item> {
    let o = ranked::<O>(rows, rows.len());
    let k = if o.len() <= limit {
        o.len()
    } else {
        limit
    };
    o.take(k as int).map_values(|i: usize| rows[i as int])
}

/// The best rows: at most `limit`, each one of `rows`, none below a row
/// listed after it.
pub proof fn lemma_top<O: Order>(rows: Seq<O::Item>, limit: nat)
    requires
        rows.len() <= usize::MAX,
    ensures
        top::<O>(rows, limit).len() <= limit,
        top::<O>(rows, limit).len() <= rows.len(),
        forall|k: int|
            0 <= k < top::<O>(rows, limit).len() ==> exists|j: int|
                0 <= j < rows.len() && #[trigger] top::<O>(rows, limit)[k] == rows[j],
        forall|a: int, b: int|
            0 <= a < b < top::<O>(rows, limit).len() ==> !O::above(
                #[trigger] top::<O>(rows, limit)[b],
                #[trigger] top::<O>(rows, limit)[a],
            ),
{
    let o = ranked::<O>(rows, rows.len());
    lemma_ranked::<O>(rows, rows.len());
    let t = top::<O>(rows, limit);
    assert forall|k: int| 0 <= k < t.len() implies exists|j: int|
        0 <= j < rows.len() && #[trigger] t[k] == rows[j] by {
        assert(t[k] == rows[o[k] as int]);
    }
    assert forall|a: int, b: int| 0 <= a < b < t.len() implies !O::above(
        #[trigger] t[b],
        #[trigger] t[a],
    ) by {
        assert(t[a] == rows[o[a] as int] && t[b] == rows[o[b] as int]);
    }
}

/// The best `limit` rows of `rows`, best first.
pub fn take_top<O: Order>(rows: &Vec<O::Item>, limit: usize) -> (r: Vec<O::Item>)
    ensures
        r@ == top::<O>(rows@, limit as nat),
{
    let order = rank::<O>(rows);
    let n = rows.len();
    proof {
        lemma_ranked::<O>(rows@, rows@.len());
    }
    let k = if order.len() <= limit {
        order.len()
    } else {
        limit
    };
    let mut out: Vec<O::Item> = Vec::new();
    let mut j: usize = 0;
    while j < k
        invariant
            k <= order@.len(),
            order@ == ranked::<O>(rows@, rows@.len()),
            order@.len() == rows@.len(),
            forall|m: int| 0 <= m < order@.len() ==> #[trigger] order@[m] < rows@.len(),
            j <= k,
            out@ == order@.take(j as int).map_values(|i: usize| rows@[i as int]),
        decreases k - j,
    {
        out.push(O::duplicate(&rows[order[j]]));
        proof {
            assert(order@.take(j + 1) =~= order@.take(j as int).push(order@[j as int]));
        }
        j = j + 1;
        proof {
            assert(out@ =~= order@.take(j as int).map_values(|i: usize| rows@[i as int]));
        }
    }
    out
}

/// Byte strings in lexicographic order, a proper prefix first.
pub open spec fn bytes_before(a: Seq<u8>, b: Seq<u8>) -> bool
    decreases a.len(),
{
    if a.len() == 0 {
        b.len() > 0
    } else if b.len() == 0 {
        false
    } else if a[0] != b[0] {
        a[0] < b[0]
    } else {
        bytes_before(a.drop_first(), b.drop_first())
    }
}

pub proof fn lemma_bytes_before_transitive(a: Seq<u8>, b: Seq<u8>, c: Seq<u8>)
    requires
        bytes_before(a, b),
        bytes_before(b, c),
    ensures
        bytes_before(a, c),
    decreases a.len(),
{
    if a.len() > 0 && b.len() > 0 && c.len() > 0 && a[0] == b[0] && b[0] == c[0] {
        lemma_bytes_before_transitive(a.drop_first(), b.drop_first(), c.drop_first());
    }
}

pub proof fn lemma_bytes_before_irreflexive(a: Seq<u8>)
    ensures
        !bytes_before(a, a),
    decreases a.len(),
{
    if a.len() > 0 {
        lemma_bytes_before_irreflexive(a.drop_first());
    }
}

/// Whether `a` comes before `b` in lexicographic byte order.
pub fn compare_bytes(a: &[u8], b: &[u8]) -> (r: bool)
    ensures
        r == bytes_before(a@, b@),
{
    let mut i: usize = 0;
    assert(a@.skip(0) =~= a@ && b@.skip(0) =~= b@);
    while i < a.len() && i < b.len() && a[i] == b[i]
        invariant
            i <= a@.len(),
            i <= b@.len(),
            bytes_before(a@, b@) == bytes_before(a@.skip(i as int), b@.skip(i as int)),
        decreases a@.len() - i,
    {
        proof {
            let x = a@.skip(i as int);
            let y = b@.skip(i as int);
            assert(x.drop_first() =~= a@.skip(i + 1));
            assert(y.drop_first() =~= b@.skip(i + 1));
        }
        i = i + 1;
    }
    if i == a.len() {
        i < b.len()
    } else if i == b.len() {
        false
    } else {
        a[i] < b[i]
    }
}

} // verus!
