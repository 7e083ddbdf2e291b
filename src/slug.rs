use vstd::prelude::*;

verus! {

/// An ASCII decimal digit.
pub open spec fn is_digit(c: char) -> bool {
    '0' <= c && c <= '9'
}

/// The first position at or after `i` that does not hold a digit.
pub open spec fn digits_end(s: Seq<char>, i: int) -> int
    decreases s.len() - i,
{
    if 0 <= i < s.len() && is_digit(s[i]) {
        digits_end(s, i + 1)
    } else {
        i
    }
}

/// One or more digits starting at `i`, followed by the character `sep`;
/// gives the position just after `sep`, or `None`.
pub open spec fn digit_group(s: Seq<char>, i: int, sep: char) -> Option<int> {
    let e = digits_end(s, i);
    if e > i && e < s.len() && s[e] == sep {
        Some(e + 1)
    } else {
        None
    }
}

/// The length of a leading date prefix `<digits>-<digits>-<digits>_`, if the
/// stem starts with one.
pub open spec fn date_prefix_len(s: Seq<char>) -> Option<int> {
    match digit_group(s, 0, '-') {
        Some(a) => match digit_group(s, a, '-') {
            Some(b) => digit_group(s, b, '_'),
            None => None,
        },
        None => None,
    }
}

/// The slug of a file stem: the stem without its date prefix, or the whole
/// stem where it has none.
pub open spec fn slug_of(stem: Seq<char>) -> Seq<char> {
    match date_prefix_len(stem) {
        Some(k) => stem.subrange(k, stem.len() as int),
        None => stem,
    }
}

proof fn lemma_digits_end_bounds(s: Seq<char>, i: int)
    requires
        0 <= i <= s.len(),
    ensures
        i <= digits_end(s, i) <= s.len(),
        forall|j: int| i <= j < digits_end(s, i) ==> is_digit(#[trigger] s[j]),
    decreases s.len() - i,
{
    if i < s.len() && is_digit(s[i]) {
        lemma_digits_end_bounds(s, i + 1);
    }
}

fn skip_digits(s: &str, len: usize, i: usize) -> (r: usize)
    requires
        len == s@.len(),
        i <= len,
    ensures
        r == digits_end(s@, i as int),
        i <= r <= len,
{
    let mut j: usize = i;
    while j < len && is_ascii_digit(s.get_char(j))
        invariant
            len == s@.len(),
            i <= j <= len,
            digits_end(s@, j as int) == digits_end(s@, i as int),
        decreases len - j,
    {
        j = j + 1;
    }
    proof {
        lemma_digits_end_bounds(s@, j as int);
    }
    j
}

fn is_ascii_digit(c: char) -> (r: bool)
    ensures
        r == is_digit(c),
{
    '0' <= c && c <= '9'
}

fn match_group(s: &str, len: usize, i: usize, sep: char) -> (r: Option<usize>)
    requires
        len == s@.len(),
        i <= len,
    ensures
        r matches Some(k) ==> digit_group(s@, i as int, sep) == Some(k as int) && k <= len,
        r is None ==> digit_group(s@, i as int, sep) is None,
{
    let e = skip_digits(s, len, i);
    if e > i && e < len && s.get_char(e) == sep {
        Some(e + 1)
    } else {
        None
    }
}

/// Derives a slug from a file stem (a file name without directory or
/// extension): a stem of the form `<digits>-<digits>-<digits>_<rest>` gives
/// `<rest>`, any other stem is its own slug.
pub fn slug_from_stem(stem: &str) -> (r: String)
    ensures
        r@ == slug_of(stem@),
{
    let len = stem.unicode_len();
    let start: usize = match match_group(stem, len, 0, '-') {
        Some(a) => match match_group(stem, len, a, '-') {
            Some(b) => match match_group(stem, len, b, '_') {
                Some(c) => c,
                None => 0,
            },
            None => 0,
        },
        None => 0,
    };
    let rest = stem.substring_char(start, len);
    proof {
        if start == 0 {
            assert(stem@.subrange(0, len as int) =~= stem@);
        }
    }
    rest.to_owned()
}

} // verus!
