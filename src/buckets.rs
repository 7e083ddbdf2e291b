use vstd::prelude::*;
use crate::entry::{has_tag, Entry};

verus! {

/// The entries of `s` that carry tag `t`, in their order in `s`.
pub open spec fn with_tag(s: Seq<Entry>, t: Seq<char>) -> Seq<Entry> {
    s.filter(|e: Entry| has_tag(e, t))
}

/// The entries of `s` whose date falls in year `y`, in their order in `s`.
pub open spec fn in_year(s: Seq<Entry>, y: int) -> Seq<Entry> {
    s.filter(|e: Entry| e.date.year == y)
}

/// `members` holds positions in `all` whose entries, in order, are `sub`.
pub open spec fn indexes(all: Seq<Entry>, members: Seq<usize>, sub: Seq<Entry>) -> bool {
    &&& members.len() == sub.len()
    &&& forall|m: int| 0 <= m < members.len() ==> (#[trigger] members[m]) < all.len() && all[members[m] as int] == sub[m]
}

proof fn lemma_with_tag_push(s: Seq<Entry>, e: Entry, t: Seq<char>)
    ensures
        with_tag(s.push(e), t) == if has_tag(e, t) { with_tag(s, t).push(e) } else { with_tag(s, t) },
{
    reveal(Seq::filter);
    assert(s.push(e).drop_last() =~= s);
}

proof fn lemma_in_year_push(s: Seq<Entry>, e: Entry, y: int)
    ensures
        in_year(s.push(e), y) == if e.date.year == y { in_year(s, y).push(e) } else { in_year(s, y) },
{
    reveal(Seq::filter);
    assert(s.push(e).drop_last() =~= s);
}

/// The positions of the entries that carry tag `t`.
pub fn tag_members(all: &Vec<Entry>, t: &String) -> (r: Vec<usize>)
    ensures
        indexes(all@, r@, with_tag(all@, t@)),
{
    let mut r: Vec<usize> = Vec::new();
    let mut j: usize = 0;
    while j < all.len()
        invariant
            j <= all@.len(),
            indexes(all@, r@, with_tag(all@.take(j as int), t@)),
        decreases all@.len() - j,
    {
        proof {
            lemma_with_tag_push(all@.take(j as int), all@[j as int], t@);
            assert(all@.take(j + 1) =~= all@.take(j as int).push(all@[j as int]));
        }
        if all[j].has_tag(t) {
            r.push(j);
        }
        j = j + 1;
    }
    assert(all@.take(j as int) =~= all@);
    r
}

/// The positions of the entries whose date falls in year `y`.
pub fn year_members(all: &Vec<Entry>, y: i32) -> (r: Vec<usize>)
    ensures
        indexes(all@, r@, in_year(all@, y as int)),
{
    let mut r: Vec<usize> = Vec::new();
    let mut j: usize = 0;
    while j < all.len()
        invariant
            j <= all@.len(),
            indexes(all@, r@, in_year(all@.take(j as int), y as int)),
        decreases all@.len() - j,
    {
        proof {
            lemma_in_year_push(all@.take(j as int), all@[j as int], y as int);
            assert(all@.take(j + 1) =~= all@.take(j as int).push(all@[j as int]));
        }
        if all[j].date.year == y {
            r.push(j);
        }
        j = j + 1;
    }
    assert(all@.take(j as int) =~= all@);
    r
}

/// The entries at the given positions, in order.
pub fn pick<'a>(all: &'a Vec<Entry>, members: &Vec<usize>) -> (r: Vec<&'a Entry>)
    requires
        forall|m: int| 0 <= m < members@.len() ==> (#[trigger] members@[m]) < all@.len(),
    ensures
        r@.len() == members@.len(),
        forall|m: int| 0 <= m < members@.len() ==> *r@[m] == all@[#[trigger] members@[m] as int],
{
    let mut r: Vec<&'a Entry> = Vec::new();
    let mut m: usize = 0;
    while m < members.len()
        invariant
            m <= members@.len(),
            forall|q: int| 0 <= q < members@.len() ==> (#[trigger] members@[q]) < all@.len(),
            r@.len() == m,
            forall|q: int| 0 <= q < m ==> *r@[q] == all@[#[trigger] members@[q] as int],
        decreases members@.len() - m,
    {
        r.push(&all[members[m]]);
        m = m + 1;
    }
    r
}

/// An entry is in the tag group of `t` exactly when it is among the entries
/// and carries `t`.
pub proof fn lemma_with_tag_members(s: Seq<Entry>, t: Seq<char>)
    ensures
        forall|e: Entry| #[trigger] with_tag(s, t).contains(e) <==> (s.contains(e) && has_tag(e, t)),
    decreases s.len(),
{
    if s.len() > 0 {
        let init = s.drop_last();
        let last = s.last();
        lemma_with_tag_members(init, t);
        assert(init.push(last) =~= s);
        lemma_with_tag_push(init, last, t);
        assert forall|e: Entry| #[trigger] with_tag(s, t).contains(e) <==> (s.contains(e) && has_tag(e, t)) by {
            if s.contains(e) && e != last {
                let i = choose|i: int| 0 <= i < s.len() && s[i] == e;
                assert(init[i] == e);
            }
            if init.contains(e) {
                let i = choose|i: int| 0 <= i < init.len() && init[i] == e;
                assert(s[i] == e);
            }
            if has_tag(last, t) {
                assert(with_tag(s, t) == with_tag(init, t).push(last));
                if with_tag(s, t).contains(e) && e != last {
                    let i = choose|i: int| 0 <= i < with_tag(s, t).len() && with_tag(s, t)[i] == e;
                    assert(with_tag(init, t)[i] == e);
                }
                if with_tag(init, t).contains(e) {
                    let i = choose|i: int| 0 <= i < with_tag(init, t).len() && with_tag(init, t)[i] == e;
                    assert(with_tag(s, t)[i] == e);
                }
                assert(with_tag(s, t)[with_tag(init, t).len() as int] == last);
            }
        }
    } else {
        assert forall|e: Entry| !(#[trigger] with_tag(s, t).contains(e)) by {
            reveal(Seq::filter);
        }
    }
}

/// An entry is in the year group of `y` exactly when it is among the entries
/// and its date falls in `y`.
pub proof fn lemma_in_year_members(s: Seq<Entry>, y: int)
    ensures
        forall|e: Entry| #[trigger] in_year(s, y).contains(e) <==> (s.contains(e) && e.date.year == y),
    decreases s.len(),
{
    if s.len() > 0 {
        let init = s.drop_last();
        let last = s.last();
        lemma_in_year_members(init, y);
        assert(init.push(last) =~= s);
        lemma_in_year_push(init, last, y);
        assert forall|e: Entry| #[trigger] in_year(s, y).contains(e) <==> (s.contains(e) && e.date.year == y) by {
            if s.contains(e) && e != last {
                let i = choose|i: int| 0 <= i < s.len() && s[i] == e;
                assert(init[i] == e);
            }
            if init.contains(e) {
                let i = choose|i: int| 0 <= i < init.len() && init[i] == e;
                assert(s[i] == e);
            }
            if last.date.year == y {
                assert(in_year(s, y) == in_year(init, y).push(last));
                if in_year(s, y).contains(e) && e != last {
                    let i = choose|i: int| 0 <= i < in_year(s, y).len() && in_year(s, y)[i] == e;
                    assert(in_year(init, y)[i] == e);
                }
                if in_year(init, y).contains(e) {
                    let i = choose|i: int| 0 <= i < in_year(init, y).len() && in_year(init, y)[i] == e;
                    assert(in_year(s, y)[i] == e);
                }
                assert(in_year(s, y)[in_year(init, y).len() as int] == last);
            }
        }
    } else {
        assert forall|e: Entry| !(#[trigger] in_year(s, y).contains(e)) by {
            reveal(Seq::filter);
        }
    }
}

} // verus!
