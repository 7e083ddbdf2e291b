use vstd::prelude::*;
use std::collections::BTreeMap;
use crate::buckets::{in_year, indexes, pick, tag_members, with_tag, year_members};
use crate::entry::{has_tag, permalink_of, Entry};
use crate::order::{is_date_descending, lemma_sorted_is_descending, sort_by_date, sorted_by_date};

verus! {

/// Some entry of `all` carries tag `t`.
pub open spec fn tag_seen(all: Seq<Entry>, t: Seq<char>) -> bool {
    exists|k: int| 0 <= k < all.len() && has_tag(#[trigger] all[k], t)
}

/// Some entry of `all` has a date in year `y`.
pub open spec fn year_seen(all: Seq<Entry>, y: int) -> bool {
    exists|k: int| 0 <= k < all.len() && (#[trigger] all[k]).date.year == y
}

/// The entries referred to by `v` are, in order, those of `s`.
pub open spec fn refers_to(v: Seq<&Entry>, s: Seq<Entry>) -> bool {
    v.len() == s.len() && forall|i: int| 0 <= i < v.len() ==> *(#[trigger] v[i]) == s[i]
}

/// The path under which an index with prefix `prefix` serves entry `e`.
pub open spec fn full_path(prefix: Seq<char>, e: Entry) -> Seq<char> {
    prefix + permalink_of(e)
}

/// The entry found under a path: the last entry of `all` (in date order)
/// whose full path is `path`.
pub open spec fn is_last_at_path(prefix: Seq<char>, all: Seq<Entry>, path: Seq<char>, k: int) -> bool {
    &&& 0 <= k < all.len()
    &&& full_path(prefix, all[k]) == path
    &&& forall|l: int| k < l < all.len() ==> full_path(prefix, #[trigger] all[l]) != path
}

/// The first entry of `all` (in date order) whose slug is `slug`.
pub open spec fn is_first_with_slug(all: Seq<Entry>, slug: Seq<char>, k: int) -> bool {
    &&& 0 <= k < all.len()
    &&& all[k].slug@ == slug
    &&& forall|l: int| 0 <= l < k ==> (#[trigger] all[l]).slug@ != slug
}

spec fn tag_listed(tags: Seq<(String, Vec<usize>)>, t: Seq<char>) -> bool {
    exists|b: int| 0 <= b < tags.len() && (#[trigger] tags[b]).0@ == t
}

spec fn year_listed(years: Seq<(i32, Vec<usize>)>, y: int) -> bool {
    exists|b: int| 0 <= b < years.len() && (#[trigger] years[b]).0 == y
}

/// One bucket per distinct tag, each holding the positions of the entries
/// that carry it, and every tag of every entry has its bucket.
spec fn tags_wf(all: Seq<Entry>, tags: Seq<(String, Vec<usize>)>) -> bool {
    &&& forall|b: int, c: int| 0 <= b < c < tags.len() ==> (#[trigger] tags[b]).0@ != (#[trigger] tags[c]).0@
    &&& forall|b: int| 0 <= b < tags.len() ==> tag_seen(all, (#[trigger] tags[b]).0@) && indexes(all, tags[b].1@, with_tag(all, tags[b].0@))
    &&& forall|t: Seq<char>| tag_seen(all, t) ==> tag_listed(tags, t)
}

/// One bucket per distinct year, in ascending order, each holding the
/// positions of the entries of that year.
spec fn years_wf(all: Seq<Entry>, years: Seq<(i32, Vec<usize>)>) -> bool {
    &&& forall|b: int, c: int| 0 <= b < c < years.len() ==> (#[trigger] years[b]).0 < (#[trigger] years[c]).0
    &&& forall|b: int| 0 <= b < years.len() ==> year_seen(all, (#[trigger] years[b]).0 as int) && indexes(all, years[b].1@, in_year(all, years[b].0 as int))
    &&& forall|y: int| year_seen(all, y) ==> year_listed(years, y)
}

proof fn lemma_tag_listed_push(tags: Seq<(String, Vec<usize>)>, x: (String, Vec<usize>), t: Seq<char>)
    requires
        tag_listed(tags, t),
    ensures
        tag_listed(tags.push(x), t),
{
    let b = choose|b: int| 0 <= b < tags.len() && (#[trigger] tags[b]).0@ == t;
    assert(tags.push(x)[b] == tags[b]);
}

/// Finds the bucket of tag `t`.
fn find_tag(tags: &Vec<(String, Vec<usize>)>, t: &String) -> (r: Option<usize>)
    ensures
        r matches Some(b) ==> b < tags@.len() && tags@[b as int].0@ == t@,
        r is None ==> !tag_listed(tags@, t@),
{
    let mut b: usize = 0;
    while b < tags.len()
        invariant
            b <= tags@.len(),
            forall|c: int| 0 <= c < b ==> (#[trigger] tags@[c]).0@ != t@,
        decreases tags@.len() - b,
    {
        if tags[b].0 == *t {
            return Some(b);
        }
        b = b + 1;
    }
    None
}

/// Builds one bucket per distinct tag, in the order in which tags first occur.
fn build_tags(all: &Vec<Entry>) -> (tags: Vec<(String, Vec<usize>)>)
    ensures
        tags_wf(all@, tags@),
{
    let mut tags: Vec<(String, Vec<usize>)> = Vec::new();
    let mut k: usize = 0;
    while k < all.len()
        invariant
            k <= all@.len(),
            forall|b: int, c: int| 0 <= b < c < tags@.len() ==> (#[trigger] tags@[b]).0@ != (#[trigger] tags@[c]).0@,
            forall|b: int| 0 <= b < tags@.len() ==> tag_seen(all@, (#[trigger] tags@[b]).0@) && indexes(all@, tags@[b].1@, with_tag(all@, tags@[b].0@)),
            forall|k2: int, i: int| 0 <= k2 < k && 0 <= i < all@[k2].tags@.len() ==> tag_listed(tags@, (#[trigger] all@[k2].tags@[i])@),
        decreases all@.len() - k,
    {
        let e = &all[k];
        let mut i: usize = 0;
        while i < e.tags.len()
            invariant
                k < all@.len(),
                *e == all@[k as int],
                i <= e.tags@.len(),
                forall|b: int, c: int| 0 <= b < c < tags@.len() ==> (#[trigger] tags@[b]).0@ != (#[trigger] tags@[c]).0@,
                forall|b: int| 0 <= b < tags@.len() ==> tag_seen(all@, (#[trigger] tags@[b]).0@) && indexes(all@, tags@[b].1@, with_tag(all@, tags@[b].0@)),
                forall|k2: int, i2: int| 0 <= k2 < k && 0 <= i2 < all@[k2].tags@.len() ==> tag_listed(tags@, (#[trigger] all@[k2].tags@[i2])@),
                forall|i2: int| 0 <= i2 < i ==> tag_listed(tags@, (#[trigger] e.tags@[i2])@),
            decreases e.tags@.len() - i,
        {
            let t = &e.tags[i];
            if find_tag(&tags, t).is_none() {
                let members = tag_members(all, t);
                let ghost old_tags = tags@;
                assert(has_tag(all@[k as int], t@));
                let name = t.clone();
                tags.push((name, members));
                proof {
                    assert(tags@[old_tags.len() as int] == (name, members));
                    assert(old_tags =~= tags@.drop_last());
                    assert forall|k2: int, i2: int| 0 <= k2 < k && 0 <= i2 < all@[k2].tags@.len() implies tag_listed(tags@, (#[trigger] all@[k2].tags@[i2])@) by {
                        lemma_tag_listed_push(old_tags, (name, members), all@[k2].tags@[i2]@);
                    }
                    assert forall|i2: int| 0 <= i2 < i + 1 implies tag_listed(tags@, (#[trigger] e.tags@[i2])@) by {
                        if i2 < i {
                            lemma_tag_listed_push(old_tags, (name, members), e.tags@[i2]@);
                        } else {
                            assert(tags@[old_tags.len() as int].0@ == e.tags@[i2]@);
                        }
                    }
                }
            }
            i = i + 1;
        }
        k = k + 1;
    }
    assert forall|t: Seq<char>| tag_seen(all@, t) implies tag_listed(tags@, t) by {
        let k2 = choose|k2: int| 0 <= k2 < all@.len() && has_tag(#[trigger] all@[k2], t);
        let i2 = choose|i2: int| 0 <= i2 < all@[k2].tags@.len() && (#[trigger] all@[k2].tags@[i2])@ == t;
        assert(tag_listed(tags@, all@[k2].tags@[i2]@));
    }
    tags
}

proof fn lemma_year_listed_insert(years: Seq<(i32, Vec<usize>)>, p: int, x: (i32, Vec<usize>), y: int)
    requires
        year_listed(years, y),
        0 <= p <= years.len(),
    ensures
        year_listed(years.insert(p, x), y),
{
    let b = choose|b: int| 0 <= b < years.len() && (#[trigger] years[b]).0 == y;
    if b < p {
        assert(years.insert(p, x)[b] == years[b]);
    } else {
        assert(years.insert(p, x)[b + 1] == years[b]);
    }
}

/// The position of the first bucket whose year is not below `y`.
fn year_position(years: &Vec<(i32, Vec<usize>)>, y: i32) -> (p: usize)
    ensures
        p <= years@.len(),
        forall|b: int| 0 <= b < p ==> (#[trigger] years@[b]).0 < y,
        p < years@.len() ==> years@[p as int].0 >= y,
{
    let mut p: usize = 0;
    while p < years.len() && years[p].0 < y
        invariant
            p <= years@.len(),
            forall|b: int| 0 <= b < p ==> (#[trigger] years@[b]).0 < y,
        decreases years@.len() - p,
    {
        p = p + 1;
    }
    p
}

/// Builds one bucket per distinct year, in ascending order of year.
fn build_years(all: &Vec<Entry>) -> (years: Vec<(i32, Vec<usize>)>)
    ensures
        years_wf(all@, years@),
{
    let mut years: Vec<(i32, Vec<usize>)> = Vec::new();
    let mut k: usize = 0;
    while k < all.len()
        invariant
            k <= all@.len(),
            forall|b: int, c: int| 0 <= b < c < years@.len() ==> (#[trigger] years@[b]).0 < (#[trigger] years@[c]).0,
            forall|b: int| 0 <= b < years@.len() ==> year_seen(all@, (#[trigger] years@[b]).0 as int) && indexes(all@, years@[b].1@, in_year(all@, years@[b].0 as int)),
            forall|k2: int| 0 <= k2 < k ==> year_listed(years@, (#[trigger] all@[k2]).date.year as int),
        decreases all@.len() - k,
    {
        let y = all[k].date.year;
        let p = year_position(&years, y);
        if p < years.len() && years[p].0 == y {
            assert(year_listed(years@, all@[k as int].date.year as int));
        } else {
            let members = year_members(all, y);
            let ghost old_years = years@;
            assert(year_seen(all@, y as int));
            years.insert(p, (y, members));
            proof {
                assert(years@ == old_years.insert(p as int, (y, members)));
                assert forall|b: int, c: int| 0 <= b < c < years@.len() implies (#[trigger] years@[b]).0 < (#[trigger] years@[c]).0 by {
                    if c < p {
                    } else if c == p {
                    } else if b < p {
                        assert(years@[c] == old_years[c - 1]);
                        assert(old_years[b].0 < y);
                    } else if b == p {
                        assert(years@[c] == old_years[c - 1]);
                        if c - 1 > p {
                            assert(old_years[p as int].0 < old_years[c - 1].0);
                        }
                    } else {
                        assert(years@[c] == old_years[c - 1]);
                        assert(years@[b] == old_years[b - 1]);
                    }
                }
                assert forall|b: int| 0 <= b < years@.len() implies year_seen(all@, (#[trigger] years@[b]).0 as int) && indexes(all@, years@[b].1@, in_year(all@, years@[b].0 as int)) by {
                    if b > p {
                        assert(years@[b] == old_years[b - 1]);
                    }
                }
                assert forall|k2: int| 0 <= k2 < k + 1 implies year_listed(years@, (#[trigger] all@[k2]).date.year as int) by {
                    if k2 < k {
                        lemma_year_listed_insert(old_years, p as int, (y, members), all@[k2].date.year as int);
                    } else {
                        assert(years@[p as int].0 == y);
                    }
                }
            }
        }
        k = k + 1;
    }
    assert forall|y: int| year_seen(all@, y) implies year_listed(years@, y) by {
        let k2 = choose|k2: int| 0 <= k2 < all@.len() && (#[trigger] all@[k2]).date.year == y;
        assert(year_listed(years@, all@[k2].date.year as int));
    }
    years
}

/// The full path of each entry, in order.
fn build_paths(prefix: &String, all: &Vec<Entry>) -> (paths: Vec<String>)
    ensures
        paths@.len() == all@.len(),
        forall|k: int| 0 <= k < all@.len() ==> (#[trigger] paths@[k])@ == full_path(prefix@, all@[k]),
{
    let mut paths: Vec<String> = Vec::new();
    let mut k: usize = 0;
    while k < all.len()
        invariant
            k <= all@.len(),
            paths@.len() == k,
            forall|j: int| 0 <= j < k ==> (#[trigger] paths@[j])@ == full_path(prefix@, all@[j]),
        decreases all@.len() - k,
    {
        let mut path = prefix.clone();
        all[k].push_permalink(&mut path);
        paths.push(path);
        k = k + 1;
    }
    paths
}

/// The content of one namespace (the site's pages, or its blog): entries
/// sorted by date, latest first, with lookups by path, slug, tag and year.
/// Entries are held once; the path, tag and year tables refer to them by
/// position.
pub struct EntryLoader {
    prefix: String,
    entries: Vec<Entry>,
    paths: Vec<String>,
    tags: Vec<(String, Vec<usize>)>,
    years: Vec<(i32, Vec<usize>)>,
}

impl EntryLoader {
    /// The namespace prefix put before each permalink.
    pub closed spec fn prefix(&self) -> Seq<char> {
        self.prefix@
    }

    /// The entries, latest first.
    pub closed spec fn all(&self) -> Seq<Entry> {
        self.entries@
    }

    /// The tables agree with the entries.
    pub closed spec fn wf(&self) -> bool {
        &&& self.paths@.len() == self.entries@.len()
        &&& forall|k: int| 0 <= k < self.entries@.len() ==> (#[trigger] self.paths@[k])@ == full_path(self.prefix@, self.entries@[k])
        &&& tags_wf(self.entries@, self.tags@)
        &&& years_wf(self.entries@, self.years@)
    }

    /// Builds the index of `entries` under the namespace `prefix`.
    pub fn from_entries(prefix: String, entries: Vec<Entry>) -> (r: EntryLoader)
        ensures
            r.wf(),
            r.prefix() == prefix@,
            sorted_by_date(entries@, r.all()),
            is_date_descending(r.all()),
    {
        let ghost input = entries@;
        let entries = sort_by_date(entries);
        proof {
            lemma_sorted_is_descending(input, entries@);
        }
        let paths = build_paths(&prefix, &entries);
        let tags = build_tags(&entries);
        let years = build_years(&entries);
        EntryLoader { prefix, entries, paths, tags, years }
    }

    /// The entry whose full path (prefix and permalink) is `path`; where
    /// several share it, the last of them in date order.
    pub fn get_entry_for_path(&self, path: &str) -> (r: Option<&Entry>)
        requires
            self.wf(),
        ensures
            r is None <==> forall|k: int| 0 <= k < self.all().len() ==> full_path(self.prefix(), #[trigger] self.all()[k]) != path@,
            r matches Some(e) ==> exists|k: int| is_last_at_path(self.prefix(), self.all(), path@, k) && *e == self.all()[k],
    {
        let key = path.to_owned();
        let mut k: usize = self.entries.len();
        while k > 0
            invariant
                self.wf(),
                key@ == path@,
                k <= self.entries@.len(),
                forall|l: int| k <= l < self.entries@.len() ==> full_path(self.prefix@, #[trigger] self.entries@[l]) != path@,
            decreases k,
        {
            k = k - 1;
            if self.paths[k] == key {
                assert(is_last_at_path(self.prefix(), self.all(), path@, k as int));
                return Some(&self.entries[k]);
            }
        }
        None
    }

    /// The first entry, in date order, whose slug is `slug`.
    pub fn get_entry_for_slug(&self, slug: &str) -> (r: Option<&Entry>)
        ensures
            r is None <==> forall|k: int| 0 <= k < self.all().len() ==> (#[trigger] self.all()[k]).slug@ != slug@,
            r matches Some(e) ==> exists|k: int| is_first_with_slug(self.all(), slug@, k) && *e == self.all()[k],
    {
        let key = slug.to_owned();
        let mut k: usize = 0;
        while k < self.entries.len()
            invariant
                key@ == slug@,
                k <= self.entries@.len(),
                forall|l: int| 0 <= l < k ==> (#[trigger] self.entries@[l]).slug@ != slug@,
            decreases self.entries@.len() - k,
        {
            if self.entries[k].slug == key {
                assert(is_first_with_slug(self.all(), slug@, k as int));
                return Some(&self.entries[k]);
            }
            k = k + 1;
        }
        None
    }

    /// All entries, latest first.
    pub fn get_entries(&self) -> (r: &Vec<Entry>)
        ensures
            r@ == self.all(),
    {
        &self.entries
    }

    /// The entries that carry `tag`, latest first; `None` where no entry
    /// carries it.
    pub fn get_entries_by_tag(&self, tag: &str) -> (r: Option<Vec<&Entry>>)
        requires
            self.wf(),
        ensures
            r is None <==> !tag_seen(self.all(), tag@),
            r matches Some(v) ==> refers_to(v@, with_tag(self.all(), tag@)),
    {
        let key = tag.to_owned();
        match find_tag(&self.tags, &key) {
            Some(b) => {
                let v = pick(&self.entries, &self.tags[b].1);
                let ghost members = self.tags@[b as int].1@;
                assert(indexes(self.entries@, members, with_tag(self.entries@, tag@)));
                assert forall|i: int| 0 <= i < v@.len() implies *(#[trigger] v@[i]) == with_tag(self.all(), tag@)[i] by {
                    assert(*v@[i] == self.entries@[members[i] as int]);
                }
                assert(refers_to(v@, with_tag(self.all(), tag@)));
                Some(v)
            },
            None => None,
        }
    }

    /// The entries grouped by the year of their date: one group per year that
    /// occurs (a map walks its keys in ascending order), each group latest
    /// first.
    pub fn get_entries_by_year(&self) -> (r: BTreeMap<i32, Vec<&Entry>>)
        requires
            self.wf(),
        ensures
            forall|y: i32| #[trigger] r@.contains_key(y) <==> year_seen(self.all(), y as int),
            forall|y: i32| #[trigger] r@.contains_key(y) ==> refers_to(r@[y]@, in_year(self.all(), y as int)),
    {
        broadcast use vstd::laws_cmp::group_laws_cmp;
        let mut r: BTreeMap<i32, Vec<&Entry>> = BTreeMap::new();
        let mut b: usize = 0;
        while b < self.years.len()
            invariant
                self.wf(),
                b <= self.years@.len(),
                forall|y: i32| #[trigger] r@.contains_key(y) <==> exists|c: int| 0 <= c < b && (#[trigger] self.years@[c]).0 == y,
                forall|y: i32| #[trigger] r@.contains_key(y) ==> refers_to(r@[y]@, in_year(self.all(), y as int)),
            decreases self.years@.len() - b,
        {
            let group = pick(&self.entries, &self.years[b].1);
            let ghost members = self.years@[b as int].1@;
            let y = self.years[b].0;
            assert(indexes(self.entries@, members, in_year(self.entries@, y as int)));
            assert forall|i: int| 0 <= i < group@.len() implies *(#[trigger] group@[i]) == in_year(self.all(), y as int)[i] by {
                assert(*group@[i] == self.entries@[members[i] as int]);
            }
            r.insert(y, group);
            proof {
                assert forall|z: i32| #[trigger] r@.contains_key(z) <==> exists|c: int| 0 <= c < b + 1 && (#[trigger] self.years@[c]).0 == z by {
                    if z == y {
                        assert(self.years@[b as int].0 == z);
                    }
                }
            }
            b = b + 1;
        }
        assert forall|y: i32| #[trigger] r@.contains_key(y) <==> year_seen(self.all(), y as int) by {
            if year_seen(self.all(), y as int) {
                assert(year_listed(self.years@, y as int));
                let c = choose|c: int| 0 <= c < self.years@.len() && (#[trigger] self.years@[c]).0 == y as int;
                assert(self.years@[c].0 == y);
            }
            if r@.contains_key(y) {
                let c = choose|c: int| 0 <= c < self.years@.len() && (#[trigger] self.years@[c]).0 == y;
                assert(year_seen(self.entries@, self.years@[c].0 as int));
            }
        }
        r
    }
}

} // verus!
