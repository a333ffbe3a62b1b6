//! Reference-counted ownership of kernel descriptors.
//!
//! Every live descriptor has one entry in a [`FdTable`], which counts the
//! handles that share it. A handle ([`SharedFd`]) is a capability: sharing it
//! adds one to the count, closing it takes one away, and the call that takes
//! the count to zero removes the entry and is told to release the descriptor.
use vstd::prelude::*;

verus! {

/// One live descriptor and the number of handles that share it.
#[derive(Clone, Copy)]
pub struct FdEntry {
    pub raw: i32,
    pub refs: u64,
}

/// The table of live descriptors.
pub struct FdTable {
    entries: Vec<FdEntry>,
}

/// No two entries name the same descriptor, and every entry has a handle.
pub open spec fn entries_wf(s: Seq<FdEntry>) -> bool {
    &&& forall|i: int, j: int| 0 <= i < s.len() && 0 <= j < s.len() && i != j ==> s[i].raw != s[j].raw
    &&& forall|i: int| 0 <= i < s.len() ==> s[i].refs >= 1
}

/// Whether `raw` has an entry.
pub open spec fn has_entry(s: Seq<FdEntry>, raw: i32) -> bool {
    exists|i: int| 0 <= i < s.len() && s[i].raw == raw
}

/// The number of live handles of `raw` (zero where it has no entry).
pub open spec fn refs_in(s: Seq<FdEntry>, raw: i32) -> nat {
    if has_entry(s, raw) {
        s[choose|i: int| 0 <= i < s.len() && s[i].raw == raw].refs as nat
    } else {
        0
    }
}

proof fn lemma_refs_at(s: Seq<FdEntry>, i: int)
    requires
        entries_wf(s),
        0 <= i < s.len(),
    ensures
        has_entry(s, s[i].raw),
        refs_in(s, s[i].raw) == s[i].refs,
{
    let raw = s[i].raw;
    assert(has_entry(s, raw));
    let j = choose|j: int| 0 <= j < s.len() && s[j].raw == raw;
    assert(i == j);
}

/// Frame for an entry changed in place or dropped: every other descriptor
/// keeps its count.
proof fn lemma_refs_other(s: Seq<FdEntry>, t: Seq<FdEntry>, raw: i32, other: i32)
    requires
        entries_wf(s),
        entries_wf(t),
        raw != other,
        forall|j: int| 0 <= j < s.len() && s[j].raw != raw ==> exists|k: int| 0 <= k < t.len() && t[k] == s[j],
        forall|k: int| 0 <= k < t.len() && t[k].raw != raw ==> exists|j: int| 0 <= j < s.len() && s[j] == t[k],
    ensures
        refs_in(t, other) == refs_in(s, other),
{
    if has_entry(s, other) {
        let j = choose|j: int| 0 <= j < s.len() && s[j].raw == other;
        lemma_refs_at(s, j);
        let k = choose|k: int| 0 <= k < t.len() && t[k] == s[j];
        lemma_refs_at(t, k);
    } else if has_entry(t, other) {
        let k = choose|k: int| 0 <= k < t.len() && t[k].raw == other;
        let j = choose|j: int| 0 <= j < s.len() && s[j] == t[k];
        assert(s[j].raw == other);
    }
}

impl FdTable {
    pub closed spec fn entries(&self) -> Seq<FdEntry> {
        self.entries@
    }

    pub open spec fn wf(&self) -> bool {
        entries_wf(self.entries())
    }

    /// The number of live handles of `raw`; zero once it was released.
    pub open spec fn refs(&self, raw: i32) -> nat {
        refs_in(self.entries(), raw)
    }

    /// An empty table.
    pub fn new() -> (r: FdTable)
        ensures
            r.wf(),
            forall|raw: i32| r.refs(raw) == 0,
    {
        FdTable { entries: Vec::new() }
    }

    /// Where `raw`'s entry stands, if it has one.
    fn find(&self, raw: i32) -> (r: Option<usize>)
        requires
            self.wf(),
        ensures
            r matches Some(i) ==> i < self.entries().len() && self.entries()[i as int].raw == raw,
            r is None ==> !has_entry(self.entries(), raw),
    {
        let mut i: usize = 0;
        while i < self.entries.len()
            invariant
                i <= self.entries@.len(),
                forall|j: int| 0 <= j < i ==> self.entries@[j].raw != raw,
            decreases self.entries@.len() - i,
        {
            if self.entries[i].raw == raw {
                return Some(i);
            }
            i = i + 1;
        }
        None
    }

    /// The number of live handles of `raw`.
    pub fn refs_of(&self, raw: i32) -> (r: u64)
        requires
            self.wf(),
        ensures
            r == self.refs(raw),
    {
        match self.find(raw) {
            Some(i) => {
                proof { lemma_refs_at(self.entries(), i as int); }
                self.entries[i].refs
            },
            None => 0,
        }
    }

    /// Whether `raw` has a live handle.
    pub fn is_open(&self, raw: i32) -> (r: bool)
        requires
            self.wf(),
        ensures
            r == (self.refs(raw) > 0),
    {
        match self.find(raw) {
            Some(i) => {
                proof { lemma_refs_at(self.entries(), i as int); }
                true
            },
            None => false,
        }
    }

    /// Adds one handle to `raw`, registering it with one handle where it had
    /// none. Fails, changing nothing, where the count is at its limit.
    pub(crate) fn add_ref(&mut self, raw: i32) -> (ok: bool)
        requires
            old(self).wf(),
        ensures
            final(self).wf(),
            ok == (old(self).refs(raw) < u64::MAX),
            ok ==> final(self).refs(raw) == old(self).refs(raw) + 1,
            !ok ==> final(self).refs(raw) == old(self).refs(raw),
            forall|other: i32| other != raw ==> final(self).refs(other) == old(self).refs(other),
    {
        let ghost s = self.entries@;
        match self.find(raw) {
            Some(i) => {
                proof { lemma_refs_at(s, i as int); }
                let e = self.entries[i];
                if e.refs == u64::MAX {
                    return false;
                }
                self.entries.set(i, FdEntry { raw, refs: e.refs + 1 });
                proof {
                    let t = self.entries@;
                    lemma_refs_at(t, i as int);
                    assert forall|other: i32| other != raw implies refs_in(t, other) == refs_in(s, other) by {
                        assert forall|j: int| 0 <= j < s.len() && s[j].raw != raw implies
                            exists|k: int| 0 <= k < t.len() && t[k] == s[j] by {
                            assert(t[j] == s[j]);
                        }
                        assert forall|k: int| 0 <= k < t.len() && t[k].raw != raw implies
                            exists|j: int| 0 <= j < s.len() && s[j] == t[k] by {
                            assert(t[k] == s[k]);
                        }
                        lemma_refs_other(s, t, raw, other);
                    }
                }
                true
            },
            None => {
                self.entries.push(FdEntry { raw, refs: 1 });
                proof {
                    let t = self.entries@;
                    lemma_refs_at(t, s.len() as int);
                    assert forall|other: i32| other != raw implies refs_in(t, other) == refs_in(s, other) by {
                        assert forall|j: int| 0 <= j < s.len() && s[j].raw != raw implies
                            exists|k: int| 0 <= k < t.len() && t[k] == s[j] by {
                            assert(t[j] == s[j]);
                        }
                        assert forall|k: int| 0 <= k < t.len() && t[k].raw != raw implies
                            exists|j: int| 0 <= j < s.len() && s[j] == t[k] by {
                            assert(t[k] == s[k]);
                        }
                        lemma_refs_other(s, t, raw, other);
                    }
                }
                true
            },
        }
    }

    /// Takes one handle away from `raw`; returns whether that was the last
    /// one, in which case the entry is gone and the descriptor must be
    /// released. A descriptor with no entry is left alone and reported as
    /// not released.
    pub(crate) fn drop_ref(&mut self, raw: i32) -> (last: bool)
        requires
            old(self).wf(),
        ensures
            final(self).wf(),
            last == (old(self).refs(raw) == 1),
            old(self).refs(raw) > 0 ==> final(self).refs(raw) == old(self).refs(raw) - 1,
            old(self).refs(raw) == 0 ==> final(self).refs(raw) == 0,
            forall|other: i32| other != raw ==> final(self).refs(other) == old(self).refs(other),
    {
        let ghost s = self.entries@;
        match self.find(raw) {
            Some(i) => {
                proof { lemma_refs_at(s, i as int); }
                let e = self.entries[i];
                if e.refs == 1 {
                    self.entries.remove(i);
                    proof {
                        let t = self.entries@;
                        assert(!has_entry(t, raw)) by {
                            if has_entry(t, raw) {
                                let k = choose|k: int| 0 <= k < t.len() && t[k].raw == raw;
                                if k < i {
                                    assert(t[k] == s[k]);
                                } else {
                                    assert(t[k] == s[k + 1]);
                                }
                            }
                        }
                        assert forall|other: i32| other != raw implies refs_in(t, other) == refs_in(s, other) by {
                            assert forall|j: int| 0 <= j < s.len() && s[j].raw != raw implies
                                exists|k: int| 0 <= k < t.len() && t[k] == s[j] by {
                                if j < i {
                                    assert(t[j] == s[j]);
                                } else {
                                    assert(t[j - 1] == s[j]);
                                }
                            }
                            assert forall|k: int| 0 <= k < t.len() && t[k].raw != raw implies
                                exists|j: int| 0 <= j < s.len() && s[j] == t[k] by {
                                if k < i {
                                    assert(t[k] == s[k]);
                                } else {
                                    assert(t[k] == s[k + 1]);
                                }
                            }
                            lemma_refs_other(s, t, raw, other);
                        }
                    }
                    true
                } else {
                    self.entries.set(i, FdEntry { raw, refs: e.refs - 1 });
                    proof {
                        let t = self.entries@;
                        lemma_refs_at(t, i as int);
                        assert forall|other: i32| other != raw implies refs_in(t, other) == refs_in(s, other) by {
                            assert forall|j: int| 0 <= j < s.len() && s[j].raw != raw implies
                                exists|k: int| 0 <= k < t.len() && t[k] == s[j] by {
                                assert(t[j] == s[j]);
                            }
                            assert forall|k: int| 0 <= k < t.len() && t[k].raw != raw implies
                                exists|j: int| 0 <= j < s.len() && s[j] == t[k] by {
                                assert(t[k] == s[k]);
                            }
                            lemma_refs_other(s, t, raw, other);
                        }
                    }
                    false
                }
            },
            None => false,
        }
    }
}

/// A handle on a live descriptor, one of the handles that its entry counts.
pub struct SharedFd {
    raw: i32,
}

impl View for SharedFd {
    type V = i32;

    closed spec fn view(&self) -> i32 {
        self.raw
    }
}

impl SharedFd {
    /// A handle for `raw`; the caller has counted it in the table.
    pub(crate) fn counted(raw: i32) -> (r: SharedFd)
        ensures
            r@ == raw,
    {
        SharedFd { raw }
    }

    /// The descriptor, without giving up the handle.
    pub fn raw_fd(&self) -> (r: i32)
        ensures
            r == self@,
    {
        self.raw
    }
}

/// What is left of a descriptor after one handle of it was closed.
pub open spec fn after_close(refs: nat) -> (nat, bool) {
    if refs <= 1 {
        (0, refs == 1)
    } else {
        ((refs - 1) as nat, false)
    }
}

/// The number of handles left of `refs` after `closes` of them were closed.
pub open spec fn left_after(refs: nat, closes: nat) -> nat
    decreases closes,
{
    if closes == 0 {
        refs
    } else {
        after_close(left_after(refs, (closes - 1) as nat)).0
    }
}

/// A descriptor shared by `refs` handles is released by the last of `refs`
/// closes and by none before it: the close that finds `closes - 1` earlier
/// closes behind it releases the descriptor exactly when it is the last.
pub proof fn lemma_released_by_last_close(refs: nat, closes: nat)
    requires
        1 <= closes <= refs,
    ensures
        left_after(refs, (closes - 1) as nat) == refs - (closes - 1),
        after_close(left_after(refs, (closes - 1) as nat)).1 == (closes == refs),
        left_after(refs, closes) == refs - closes,
    decreases closes,
{
    if closes > 1 {
        lemma_released_by_last_close(refs, (closes - 1) as nat);
    }
}

} // verus!
