use vstd::prelude::*;
use crate::date::{not_before, Timestamp};
use crate::entry::Entry;

verus! {

/// In a descending sort that keeps equal dates in input order, the entry of
/// date `a` taken from input position `ia` comes before the entry of date `b`
/// from position `ib`.
pub open spec fn ranked_before(a: Timestamp, ia: int, b: Timestamp, ib: int) -> bool {
    (not_before(a, b) && !not_before(b, a)) || (not_before(a, b) && not_before(b, a) && ia < ib)
}

/// `out` is `input` sorted by date, latest first, with `perm` giving for each
/// position of `out` the input position it came from.
pub open spec fn is_date_sorting(input: Seq<Entry>, out: Seq<Entry>, perm: Seq<int>) -> bool {
    &&& perm.len() == input.len()
    &&& out.len() == input.len()
    &&& forall|k: int| 0 <= k < out.len() ==> 0 <= #[trigger] perm[k] < input.len() && out[k] == input[perm[k]]
    &&& forall|k: int, l: int| 0 <= k < out.len() && 0 <= l < out.len() && k != l ==> #[trigger] perm[k] != #[trigger] perm[l]
    &&& forall|k: int, l: int| 0 <= k < l < out.len() ==> ranked_before(#[trigger] out[k].date, perm[k], #[trigger] out[l].date, perm[l])
}

/// `out` holds the entries of `input`, sorted by date with the latest first,
/// entries of one date keeping their relative input order.
pub open spec fn sorted_by_date(input: Seq<Entry>, out: Seq<Entry>) -> bool {
    exists|perm: Seq<int>| is_date_sorting(input, out, perm)
}

/// Every entry is at least as late as each entry after it.
pub open spec fn is_date_descending(s: Seq<Entry>) -> bool {
    forall|k: int, l: int| 0 <= k < l < s.len() ==> not_before(#[trigger] s[k].date, #[trigger] s[l].date)
}

/// The position after the entries of `s` that are not before `d`; `s` being
/// sorted latest first, those entries form a prefix.
fn insert_position(s: &Vec<Entry>, d: &Timestamp) -> (p: usize)
    ensures
        p <= s@.len(),
        forall|q: int| 0 <= q < p ==> not_before(#[trigger] s@[q].date, *d),
        p < s@.len() ==> !not_before(s@[p as int].date, *d),
{
    let mut p: usize = 0;
    while p < s.len() && s[p].date.is_not_before(d)
        invariant
            p <= s@.len(),
            forall|q: int| 0 <= q < p ==> not_before(#[trigger] s@[q].date, *d),
        decreases s@.len() - p,
    {
        p = p + 1;
    }
    p
}

/// Sorts entries by date, latest first; entries of one date keep their input
/// order.
pub fn sort_by_date(input: Vec<Entry>) -> (out: Vec<Entry>)
    ensures
        sorted_by_date(input@, out@),
{
    let ghost orig = input@;
    let n = input.len();
    let mut rest = input;
    let mut out: Vec<Entry> = Vec::new();
    let ghost mut perm: Seq<int> = Seq::empty();
    let mut i: usize = 0;
    while i < n
        invariant
            n == orig.len(),
            i <= n,
            rest@ == orig.subrange(i as int, n as int),
            out@.len() == i,
            perm.len() == i,
            forall|k: int| 0 <= k < i ==> 0 <= #[trigger] perm[k] < i && out@[k] == orig[perm[k]],
            forall|k: int, l: int| 0 <= k < i && 0 <= l < i && k != l ==> #[trigger] perm[k] != #[trigger] perm[l],
            forall|k: int, l: int| 0 <= k < l < i ==> ranked_before(#[trigger] out@[k].date, perm[k], #[trigger] out@[l].date, perm[l]),
        decreases n - i,
    {
        let e = rest.remove(0);
        assert(e == orig[i as int]);
        let p = insert_position(&out, &e.date);
        let ghost old_out = out@;
        let ghost old_perm = perm;
        proof {
            perm = perm.insert(p as int, i as int);
        }
        out.insert(p, e);
        assert forall|k: int, l: int| 0 <= k < l < i + 1 implies ranked_before(#[trigger] out@[k].date, perm[k], #[trigger] out@[l].date, perm[l]) by {
            if k < p && l < p {
            } else if k < p && l == p {
                assert(not_before(old_out[k].date, e.date));
            } else if k < p {
                assert(ranked_before(old_out[k].date, old_perm[k], old_out[l - 1].date, old_perm[l - 1]));
            } else if k == p {
                assert(!not_before(old_out[p as int].date, e.date));
                if l - 1 > p {
                    assert(ranked_before(old_out[p as int].date, old_perm[p as int], old_out[l - 1].date, old_perm[l - 1]));
                }
            } else {
                assert(ranked_before(old_out[k - 1].date, old_perm[k - 1], old_out[l - 1].date, old_perm[l - 1]));
            }
        }
        assert forall|k: int| 0 <= k < i + 1 implies 0 <= #[trigger] perm[k] < i + 1 && out@[k] == orig[perm[k]] by {
            if k > p {
                assert(perm[k] == old_perm[k - 1]);
            }
        }
        assert forall|k: int, l: int| 0 <= k < i + 1 && 0 <= l < i + 1 && k != l implies #[trigger] perm[k] != #[trigger] perm[l] by {
            if k != p && l != p {
                let k0 = if k < p { k } else { k - 1 };
                let l0 = if l < p { l } else { l - 1 };
                assert(perm[k] == old_perm[k0] && perm[l] == old_perm[l0]);
            } else if k == p {
                let l0 = if l < p { l } else { l - 1 };
                assert(perm[l] == old_perm[l0]);
            } else {
                let k0 = if k < p { k } else { k - 1 };
                assert(perm[k] == old_perm[k0]);
            }
        }
        assert(rest@ =~= orig.subrange(i + 1, n as int));
        i = i + 1;
    }
    assert(is_date_sorting(orig, out@, perm));
    out
}

/// A date sort puts every entry at or after the date of each entry that
/// follows it: the sorted list reads latest first.
pub proof fn lemma_sorted_is_descending(input: Seq<Entry>, out: Seq<Entry>)
    requires
        sorted_by_date(input, out),
    ensures
        is_date_descending(out),
{
    let perm = choose|perm: Seq<int>| is_date_sorting(input, out, perm);
    assert forall|k: int, l: int| 0 <= k < l < out.len() implies not_before(#[trigger] out[k].date, #[trigger] out[l].date) by {
        assert(ranked_before(out[k].date, perm[k], out[l].date, perm[l]));
    }
}

} // verus!
