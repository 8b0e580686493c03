//! What the package index says of a package: the files of each version.

use crate::ansible::order::lemma_order_total;
use crate::ansible::order::lemma_order_transitive;
use crate::ansible::order::older;
use crate::ansible::order::same;
use crate::ansible::version::Version;
use crate::ansible::version::VersionView;
use crate::timestamp::Timestamp;
use vstd::prelude::*;

verus! {

/// One file of a version, as the index lists it.
#[derive(PartialEq, Eq, Clone, Copy, Debug, Structural)]
pub struct Release {
    pub size: u64,
    pub upload_time_iso_8601: Timestamp,
}

/// The versions of a package with the files of each, the oldest version
/// first and no version twice.
#[derive(Debug)]
pub struct Response {
    releases: Vec<(Version, Vec<Release>)>,
}

/// Each version is older than all that come after it.
pub open spec fn ascending(entries: Seq<(VersionView, Seq<Release>)>) -> bool {
    forall|i: int, j: int|
        0 <= i < j < entries.len() ==> older(#[trigger] entries[i].0, #[trigger] entries[j].0)
}

/// How many of the versions are older than `v`: where `v` stands, or would
/// stand, among them.
pub open spec fn rank(entries: Seq<(VersionView, Seq<Release>)>, v: VersionView) -> int
    decreases entries.len(),
{
    if entries.len() == 0 {
        0
    } else if older(entries.last().0, v) {
        rank(entries.drop_last(), v) + 1
    } else {
        rank(entries.drop_last(), v)
    }
}

/// What the versions are after `v` came in with `files`: where a version that
/// is the same as `v` was there, it stays as it was written and gets the new
/// files; else `v` stands before the first version that is newer.
pub open spec fn with_entry(
    entries: Seq<(VersionView, Seq<Release>)>,
    v: VersionView,
    files: Seq<Release>,
) -> Seq<(VersionView, Seq<Release>)> {
    let at = rank(entries, v);
    if at < entries.len() && same(entries[at].0, v) {
        entries.update(at, (entries[at].0, files))
    } else {
        entries.insert(at, (v, files))
    }
}

impl View for Response {
    type V = Seq<(VersionView, Seq<Release>)>;

    closed spec fn view(&self) -> Seq<(VersionView, Seq<Release>)> {
        Seq::new(self.releases@.len(), |i: int| (self.releases@[i].0@, self.releases@[i].1@))
    }
}

} // verus!

verus! {

/// Versions that ascend still do after one more came in.
pub proof fn lemma_with_entry_ascending(
    entries: Seq<(VersionView, Seq<Release>)>,
    v: VersionView,
    files: Seq<Release>,
)
    requires
        ascending(entries),
    ensures
        ascending(with_entry(entries, v, files)),
{
    let at = rank(entries, v);
    lemma_rank_splits(entries, v);
    let after = with_entry(entries, v, files);
    assert forall|i: int, j: int| 0 <= i < j < after.len() implies older(
        #[trigger] after[i].0,
        #[trigger] after[j].0,
    ) by {
        if at < entries.len() && same(entries[at].0, v) {
            assert(after[i].0 == entries[i].0 && after[j].0 == entries[j].0);
            assert(older(entries[i].0, entries[j].0));
        } else {
            assert(after.len() == entries.len() + 1);
            if j == at {
                assert(after[i] == entries[i]);
                assert(older(entries[i].0, v));
            } else if i == at {
                let b = j - 1;
                assert(after[j] == entries[b]);
                assert(!older(entries[b].0, v));
                lemma_order_total(entries[b].0, v);
                lemma_order_total(v, entries[b].0);
                if b > at {
                    assert(older(entries[at].0, entries[b].0));
                    assert(!older(entries[at].0, v));
                    lemma_order_total(entries[at].0, v);
                    lemma_order_total(v, entries[at].0);
                    lemma_order_transitive(v, entries[at].0, entries[b].0);
                }
            } else {
                let a = if i < at { i } else { i - 1 };
                let b = if j < at { j } else { j - 1 };
                assert(after[i] == entries[a] && after[j] == entries[b]);
                assert(older(entries[a].0, entries[b].0));
            }
        }
    }
}

/// In versions that ascend, those older than `v` come first: `rank` counts
/// them, and none from there on is older than `v`.
pub proof fn lemma_rank_splits(entries: Seq<(VersionView, Seq<Release>)>, v: VersionView)
    requires
        ascending(entries),
    ensures
        0 <= rank(entries, v) <= entries.len(),
        forall|i: int| 0 <= i < rank(entries, v) ==> older(#[trigger] entries[i].0, v),
        forall|i: int| rank(entries, v) <= i < entries.len() ==> !older(#[trigger] entries[i].0, v),
    decreases entries.len(),
{
    if entries.len() > 0 {
        let shorter = entries.drop_last();
        let last = entries.len() - 1;
        assert(ascending(shorter)) by {
            assert forall|i: int, j: int| 0 <= i < j < shorter.len() implies older(
                #[trigger] shorter[i].0,
                #[trigger] shorter[j].0,
            ) by {
                assert(shorter[i] == entries[i] && shorter[j] == entries[j]);
            }
        }
        lemma_rank_splits(shorter, v);
        assert forall|i: int| 0 <= i < shorter.len() implies shorter[i] == entries[i] by {}
        if older(entries[last].0, v) {
            assert forall|i: int| 0 <= i < last implies older(#[trigger] entries[i].0, v) by {
                assert(older(entries[i].0, entries[last].0));
                lemma_order_transitive(entries[i].0, entries[last].0, v);
            }
            assert(rank(shorter, v) == last) by {
                if rank(shorter, v) < last {
                    assert(!older(shorter[rank(shorter, v)].0, v));
                    assert(shorter[rank(shorter, v)] == entries[rank(shorter, v)]);
                }
            }
        } else {
            assert forall|i: int| rank(entries, v) <= i < entries.len() implies !older(
                #[trigger] entries[i].0,
                v,
            ) by {
                if i < last {
                    assert(shorter[i] == entries[i]);
                }
            }
            assert forall|i: int| 0 <= i < rank(entries, v) implies older(
                #[trigger] entries[i].0,
                v,
            ) by {
                assert(shorter[i] == entries[i]);
            }
        }
    }
}

/// In versions that ascend, `rank` is the place before which every version is
/// older than `v` and at which the version is not.
pub proof fn lemma_rank(entries: Seq<(VersionView, Seq<Release>)>, v: VersionView, at: int)
    requires
        ascending(entries),
        0 <= at <= entries.len(),
        forall|i: int| 0 <= i < at ==> older(#[trigger] entries[i].0, v),
        at < entries.len() ==> !older(entries[at].0, v),
    ensures
        rank(entries, v) == at,
{
    lemma_rank_splits(entries, v);
    let r = rank(entries, v);
    if r < at {
        assert(older(entries[r].0, v));
    } else if at < r {
        assert(older(entries[at].0, v));
    }
}

impl Response {
    #[verifier::type_invariant]
    spec fn well_formed(&self) -> bool {
        ascending(self@)
    }

    /// A response without versions.
    pub fn new() -> (r: Response)
        ensures
            r@ == Seq::<(VersionView, Seq<Release>)>::empty(),
    {
        let r = Response { releases: Vec::new() };
        assert(r@ =~= Seq::<(VersionView, Seq<Release>)>::empty());
        r
    }

    /// The number of versions.
    pub fn len(&self) -> (n: usize)
        ensures
            n == self@.len(),
            ascending(self@),
    {
        proof {
            use_type_invariant(self);
        }
        self.releases.len()
    }

    /// The version at place `i`, counted from the oldest.
    pub fn version(&self, i: usize) -> (v: &Version)
        requires
            i < self@.len(),
        ensures
            v@ == self@[i as int].0,
    {
        &self.releases[i].0
    }

    /// The files of the version at place `i`, counted from the oldest.
    pub fn files(&self, i: usize) -> (files: &Vec<Release>)
        requires
            i < self@.len(),
        ensures
            files@ == self@[i as int].1,
    {
        &self.releases[i].1
    }

    /// Puts a version with its files among the others, where it belongs by
    /// age. Where the version is there already, only its files change.
    pub fn insert(&mut self, version: Version, files: Vec<Release>)
        ensures
            final(self)@ == with_entry(old(self)@, version@, files@),
    {
        proof {
            use_type_invariant(&*self);
        }
        let mut at: usize = 0;
        while at < self.releases.len() && self.releases[at].0 < version
            invariant
                at <= self.releases.len(),
                self.releases == old(self).releases,
                forall|i: int| 0 <= i < at ==> older(#[trigger] self@[i].0, version@),
            decreases self.releases.len() - at,
        {
            at = at + 1;
        }
        let ghost before = self@;
        proof {
            lemma_rank(before, version@, at as int);
        }
        let replace: bool = at < self.releases.len() && self.releases[at].0 == version;
        let mut releases: Vec<(Version, Vec<Release>)> = Vec::new();
        std::mem::swap(&mut self.releases, &mut releases);
        if replace {
            let (kept, _) = releases.remove(at);
            releases.insert(at, (kept, files));
        } else {
            releases.insert(at, (version, files));
        }
        proof {
            let after = Seq::new(releases@.len(), |i: int| (releases@[i].0@, releases@[i].1@));
            assert(after =~= with_entry(before, version@, files@));
            lemma_with_entry_ascending(before, version@, files@);
        }
        self.releases = releases;
    }
}

} // verus!
