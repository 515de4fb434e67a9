//! Repository-root location over supplied directory listings.
//!
//! The locator walks upward from a starting directory towards the
//! filesystem root and returns the nearest directory that directly
//! contains a version-control marker: an entry named `.git` that is
//! itself a directory. The traversal is independent of the real
//! filesystem: the caller supplies each candidate's listing, starting
//! directory first, outermost ancestor last.

use vstd::prelude::*;

use crate::text::str_eq;
use crate::util::spec_parse;
use crate::util::KernelVersionView;
use crate::util::ParseError;

verus! {

/// One directory entry as the locator sees it: its name and whether it
/// is itself a directory.
#[derive(Debug, Clone)]
pub struct DirEntryInfo {
    pub name: String,
    pub is_dir: bool,
}

/// The mathematical content of a [`DirEntryInfo`].
#[verifier::ext_equal]
pub struct DirEntryView {
    pub name: Seq<char>,
    pub is_dir: bool,
}

impl View for DirEntryInfo {
    type V = DirEntryView;

    open spec fn view(&self) -> DirEntryView {
        DirEntryView { name: self.name@, is_dir: self.is_dir }
    }
}

/// The views of a directory listing's entries.
pub open spec fn entries_view(es: Seq<DirEntryInfo>) -> Seq<DirEntryView> {
    es.map_values(|e: DirEntryInfo| e@)
}

/// The views of a whole ancestor chain of listings.
pub open spec fn chain_view(chain: Seq<Vec<DirEntryInfo>>) -> Seq<Seq<DirEntryView>> {
    chain.map_values(|es: Vec<DirEntryInfo>| entries_view(es@))
}

/// The version-control marker: an entry named `.git` that is a
/// directory. A regular file named `.git` deliberately does not count.
pub open spec fn spec_is_marker(e: DirEntryView) -> bool {
    e.is_dir && e.name == ".git"@
}

/// Some entry of the listing is the marker.
pub open spec fn spec_has_marker(es: Seq<DirEntryView>) -> bool {
    exists|i: int| 0 <= i < es.len() && spec_is_marker(#[trigger] es[i])
}

/// Index of the innermost directory of the chain that contains the
/// marker, or nothing when none does.
pub open spec fn spec_locate(chain: Seq<Seq<DirEntryView>>) -> Option<int>
    decreases chain.len(),
{
    if chain.len() == 0 {
        None
    } else if spec_has_marker(chain[0]) {
        Some(0)
    } else {
        match spec_locate(chain.drop_first()) {
            Some(i) => Some(i + 1),
            None => None,
        }
    }
}

/// `spec_locate` finds exactly the first listing with the marker.
pub proof fn lemma_locate_found(chain: Seq<Seq<DirEntryView>>, i: int)
    requires
        0 <= i < chain.len(),
        spec_has_marker(chain[i]),
        forall|j: int| 0 <= j < i ==> !spec_has_marker(#[trigger] chain[j]),
    ensures
        spec_locate(chain) == Some(i),
    decreases chain.len(),
{
    if i > 0 {
        lemma_locate_found(chain.drop_first(), i - 1);
    }
}

/// `spec_locate` finds nothing exactly when no listing has the marker.
pub proof fn lemma_locate_none(chain: Seq<Seq<DirEntryView>>)
    requires
        forall|j: int| 0 <= j < chain.len() ==> !spec_has_marker(#[trigger] chain[j]),
    ensures
        spec_locate(chain) == None::<int>,
    decreases chain.len(),
{
    if chain.len() > 0 {
        lemma_locate_none(chain.drop_first());
    }
}

/// Does this directory listing directly contain the marker?
pub fn dir_has_marker(entries: &Vec<DirEntryInfo>) -> (r: bool)
    ensures
        r == spec_has_marker(entries_view(entries@)),
{
    let n = entries.len();
    let mut i: usize = 0;
    while i < n
        invariant
            0 <= i <= n,
            n == entries@.len(),
            forall|j: int| 0 <= j < i ==> !spec_is_marker(#[trigger] entries_view(entries@)[j]),
        decreases n - i,
    {
        let e = &entries[i];
        if e.is_dir && str_eq(e.name.as_str(), ".git") {
            assert(spec_is_marker(entries_view(entries@)[i as int]));
            return true;
        }
        assert(!spec_is_marker(entries_view(entries@)[i as int]));
        i = i + 1;
    }
    false
}

/// Locate the repository root in an ancestor chain of directory
/// listings, the starting directory first: the result is the index of
/// the nearest listing that contains the marker, and nothing when no
/// listing does.
pub fn get_kernel_dir(ancestors: &Vec<Vec<DirEntryInfo>>) -> (r: Option<usize>)
    ensures
        match r {
            Some(i) => spec_locate(chain_view(ancestors@)) == Some(i as int),
            None => spec_locate(chain_view(ancestors@)) == None::<int>,
        },
{
    let n = ancestors.len();
    let mut i: usize = 0;
    while i < n
        invariant
            0 <= i <= n,
            n == ancestors@.len(),
            forall|j: int| 0 <= j < i ==> !spec_has_marker(#[trigger] chain_view(ancestors@)[j]),
        decreases n - i,
    {
        if dir_has_marker(&ancestors[i]) {
            proof {
                lemma_locate_found(chain_view(ancestors@), i as int);
            }
            return Some(i);
        }
        assert(!spec_has_marker(chain_view(ancestors@)[i as int]));
        i = i + 1;
    }
    proof {
        lemma_locate_none(chain_view(ancestors@));
    }
    None
}

/// Law: locate-then-read is idempotent. The locator's and the reader's
/// contracts pin their results to `spec_locate` and `spec_parse` of
/// their inputs alone, so any two invocations against the same
/// directory listings and the same metadata text return identical
/// results.
pub proof fn lemma_locate_then_read_idempotent(
    chain: Seq<Seq<DirEntryView>>,
    text: Seq<char>,
    r1: Option<int>,
    r2: Option<int>,
    d1: Result<KernelVersionView, ParseError>,
    d2: Result<KernelVersionView, ParseError>,
)
    requires
        r1 == spec_locate(chain),
        r2 == spec_locate(chain),
        d1 == spec_parse(text),
        d2 == spec_parse(text),
    ensures
        r1 == r2,
        d1 == d2,
{
}

} // verus!
