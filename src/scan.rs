use vstd::prelude::*;
use crate::slug::{slug_from_stem, slug_of};

verus! {

/// What a directory walk met at one step.
#[derive(Clone, Copy, Debug, PartialEq, Eq, Structural)]
pub enum Found {
    /// The step could not be read.
    Unreadable,
    /// A directory.
    Directory,
    /// Anything else: a file.
    File,
}

/// What a directory walk does with one step.
#[derive(Clone, Debug, PartialEq, Eq)]
pub enum Step {
    /// Pass over it and go on with its siblings.
    Skip,
    /// Walk the directory and append what it holds.
    Descend,
    /// Read the file as one record, whose slug is the given one.
    Parse(String),
}

/// The extension of the files that hold records.
pub open spec fn record_extension() -> Seq<char> {
    seq!['j', 's', 'o', 'n']
}

/// Decides one step of a directory walk, from what was found and, for a
/// file, its extension and stem where they are readable text: an unreadable
/// step is passed over, a directory is walked, a `.json` file with a stem is
/// read with the stem's slug, and any other file is passed over.
pub fn scan_step(found: Found, extension: Option<&str>, stem: Option<&str>) -> (r: Step)
    ensures
        found == Found::Unreadable ==> r == Step::Skip,
        found == Found::Directory ==> r == Step::Descend,
        found == Found::File ==> match (extension, stem) {
            (Some(x), Some(s)) if x@ == record_extension() => r matches Step::Parse(slug) && slug@ == slug_of(s@),
            _ => r == Step::Skip,
        },
{
    match found {
        Found::Unreadable => Step::Skip,
        Found::Directory => Step::Descend,
        Found::File => match (extension, stem) {
            (Some(x), Some(s)) => {
                if is_record_extension(x) {
                    Step::Parse(slug_from_stem(s))
                } else {
                    Step::Skip
                }
            },
            _ => Step::Skip,
        },
    }
}

fn is_record_extension(x: &str) -> (r: bool)
    ensures
        r == (x@ == record_extension()),
{
    let len = x.unicode_len();
    if len != 4 {
        return false;
    }
    let r = x.get_char(0) == 'j' && x.get_char(1) == 's' && x.get_char(2) == 'o' && x.get_char(3) == 'n';
    proof {
        if r {
            assert(x@ =~= record_extension());
        }
    }
    r
}

} // verus!
