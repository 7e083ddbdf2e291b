use vstd::prelude::*;
use crate::date::Timestamp;
use crate::text::{padded, push_padded, push_text, push_year, year_text};

verus! {

/// One content item: a post or a page, with its metadata and its body.
#[derive(Clone, Debug, PartialEq, Eq)]
pub struct Entry {
    pub eid: String,
    pub slug: String,
    pub title: String,
    pub date: Timestamp,
    pub tags: Vec<String>,
    pub image: Option<String>,
    pub content: String,
}

/// The date part of a permalink: `year/month/day`, month and day in two digits.
pub open spec fn date_path(t: Timestamp) -> Seq<char> {
    year_text(t.year as int) + seq!['/'] + padded(t.month as nat, 2) + seq!['/'] + padded(
        t.day as nat,
        2,
    )
}

/// The canonical path of an entry: `/{year}/{month}/{day}/{slug}`.
pub open spec fn permalink_of(e: Entry) -> Seq<char> {
    seq!['/'] + date_path(e.date) + seq!['/'] + e.slug@
}

/// Whether one of the entry's tags is `t`.
pub open spec fn has_tag(e: Entry, t: Seq<char>) -> bool {
    exists|i: int| 0 <= i < e.tags@.len() && (#[trigger] e.tags@[i])@ == t
}

impl Entry {
    /// Appends this entry's permalink to `s`.
    pub fn push_permalink(&self, s: &mut String)
        ensures
            final(s)@ == old(s)@ + permalink_of(*self),
    {
        let ghost start = s@;
        s.push('/');
        push_year(s, self.date.year);
        s.push('/');
        push_padded(s, self.date.month as u64, 2);
        s.push('/');
        push_padded(s, self.date.day as u64, 2);
        s.push('/');
        push_text(s, self.slug.as_str());
        assert(s@ =~= start + permalink_of(*self));
    }

    /// The entry's permalink, `/{year}/{month}/{day}/{slug}`.
    pub fn permalink(&self) -> (r: String)
        ensures
            r@ == permalink_of(*self),
    {
        let mut s = String::new();
        self.push_permalink(&mut s);
        assert(s@ =~= permalink_of(*self));
        s
    }

    /// Whether one of the entry's tags is `t`.
    pub fn has_tag(&self, t: &String) -> (r: bool)
        ensures
            r == has_tag(*self, t@),
    {
        let mut i: usize = 0;
        while i < self.tags.len()
            invariant
                0 <= i <= self.tags@.len(),
                forall|j: int| 0 <= j < i ==> (#[trigger] self.tags@[j])@ != t@,
            decreases self.tags@.len() - i,
        {
            if self.tags[i] == *t {
                return true;
            }
            i = i + 1;
        }
        false
    }
}

} // verus!
