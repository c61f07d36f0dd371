//! The catalog of finished files: list and delete.
//!
//! A [`Catalog`] models the destination directory: one entry per stored
//! file, identified by name, with its size in bytes. Names are unique.
//! Deleting removes exactly the named entry and leaves every other
//! entry's presence and size untouched; entries are listed in whatever
//! order the catalog holds them, which callers must not rely on.

use vstd::prelude::*;

use crate::UploadError;

verus! {

/// One cataloged file: its name and its size in bytes.
pub struct CatalogEntry {
    pub name: String,
    pub size: u64,
}

/// The size recorded under `name` in `entries`, or `None` when no entry
/// carries that name.
pub open spec fn lookup_in(entries: Seq<CatalogEntry>, name: Seq<char>) -> Option<u64>
    decreases entries.len(),
{
    if entries.len() == 0 {
        None
    } else if entries[0].name@ == name {
        Some(entries[0].size)
    } else {
        lookup_in(entries.drop_first(), name)
    }
}

/// A name carried by no entry looks up to nothing.
proof fn lemma_lookup_absent(entries: Seq<CatalogEntry>, name: Seq<char>)
    requires
        forall|t: int| 0 <= t < entries.len() ==> (#[trigger] entries[t]).name@ != name,
    ensures
        lookup_in(entries, name) is None,
    decreases entries.len(),
{
    if entries.len() > 0 {
        assert(entries[0].name@ != name);
        assert forall|t: int|
            0 <= t < entries.drop_first().len() implies (#[trigger] entries.drop_first()[t]).name@
            != name by {
            assert(entries.drop_first()[t] == entries[t + 1]);
        }
        lemma_lookup_absent(entries.drop_first(), name);
    }
}

/// When names are unique, an entry's name looks up to that entry's size.
proof fn lemma_lookup_at(entries: Seq<CatalogEntry>, t: int)
    requires
        0 <= t < entries.len(),
        forall|t1: int, t2: int|
            0 <= t1 < t2 < entries.len() ==> (#[trigger] entries[t1]).name@ != (
            #[trigger] entries[t2]).name@,
    ensures
        lookup_in(entries, entries[t].name@) == Some(entries[t].size),
    decreases t,
{
    if t == 0 {
    } else {
        assert(entries[0].name@ != entries[t].name@);
        assert forall|t1: int, t2: int|
            0 <= t1 < t2 < entries.drop_first().len() implies (#[trigger] entries.drop_first()[t1]).name@
            != (#[trigger] entries.drop_first()[t2]).name@ by {
            assert(entries.drop_first()[t1] == entries[t1 + 1]);
            assert(entries.drop_first()[t2] == entries[t2 + 1]);
        }
        assert(entries.drop_first()[t - 1] == entries[t]);
        lemma_lookup_at(entries.drop_first(), t - 1);
    }
}

/// The catalog of finished files in the destination directory.
pub struct Catalog {
    entries: Vec<CatalogEntry>,
}

impl Catalog {
    /// The cataloged entries, in the catalog's own order.
    pub closed spec fn entries_seq(&self) -> Seq<CatalogEntry> {
        self.entries@
    }

    /// The size recorded under `name`, or `None` when the catalog has no
    /// such file.
    pub open spec fn lookup(&self, name: Seq<char>) -> Option<u64> {
        lookup_in(self.entries_seq(), name)
    }

    /// Names are unique: no two entries carry the same name.
    pub closed spec fn wf(&self) -> bool {
        forall|t1: int, t2: int|
            0 <= t1 < t2 < self.entries@.len() ==> (#[trigger] self.entries@[t1]).name@ != (
            #[trigger] self.entries@[t2]).name@
    }

    /// An empty catalog.
    pub fn new() -> (c: Self)
        ensures
            c.wf(),
            c.entries_seq() == Seq::<CatalogEntry>::empty(),
            forall|m: Seq<char>| c.lookup(m) is None,
    {
        let c = Catalog { entries: Vec::new() };
        c
    }

    /// The directory listing: every cataloged entry, in the catalog's own
    /// order — which is not specified and not sorted.
    pub fn list(&self) -> (r: &Vec<CatalogEntry>)
        ensures
            r@ == self.entries_seq(),
    {
        &self.entries
    }

    /// The size recorded under `name`, or `None` when absent.
    pub fn size_of(&self, name: &String) -> (r: Option<u64>)
        requires
            self.wf(),
        ensures
            r == self.lookup(name@),
    {
        let mut t: usize = 0;
        while t < self.entries.len()
            invariant
                self.wf(),
                t <= self.entries@.len(),
                forall|j: int| 0 <= j < t ==> (#[trigger] self.entries@[j]).name@ != name@,
            decreases self.entries@.len() - t,
        {
            if self.entries[t].name.eq(name) {
                proof {
                    lemma_lookup_at(self.entries@, t as int);
                }
                return Some(self.entries[t].size);
            }
            t = t + 1;
        }
        proof {
            lemma_lookup_absent(self.entries@, name@);
        }
        None
    }

    /// Records a finished file: afterwards `name` is cataloged with
    /// exactly `size`, and every other entry is untouched. A file already
    /// cataloged under that name has its size replaced.
    pub fn record(&mut self, name: String, size: u64)
        requires
            old(self).wf(),
        ensures
            final(self).wf(),
            final(self).lookup(name@) == Some(size),
            forall|m: Seq<char>| m != name@ ==> final(self).lookup(m) == old(self).lookup(m),
    {
        let ghost before = self.entries@;
        let mut t: usize = 0;
        while t < self.entries.len()
            invariant
                old(self).wf(),
                before == old(self).entries@,
                self.entries@ == before,
                t <= before.len(),
                forall|j: int| 0 <= j < t ==> (#[trigger] before[j]).name@ != name@,
            decreases before.len() - t,
        {
            if self.entries[t].name.eq(&name) {
                let ghost told = t as int;
                self.entries.set(t, CatalogEntry { name, size });
                proof {
                    let after = self.entries@;
                    assert forall|t1: int, t2: int|
                        0 <= t1 < t2 < after.len() implies (#[trigger] after[t1]).name@ != (
                    #[trigger] after[t2]).name@ by {
                        assert(after[t1].name@ == before[t1].name@);
                        assert(after[t2].name@ == before[t2].name@);
                    }
                    lemma_lookup_at(after, told);
                    assert forall|m: Seq<char>| m != after[told].name@ implies lookup_in(after, m)
                        == lookup_in(before, m) by {
                        Self::lemma_lookup_other(before, after, m);
                    }
                }
                return ;
            }
            t = t + 1;
        }
        let ghost told = self.entries@.len() as int;
        self.entries.push(CatalogEntry { name, size });
        proof {
            let after = self.entries@;
            assert forall|t1: int, t2: int|
                0 <= t1 < t2 < after.len() implies (#[trigger] after[t1]).name@ != (
            #[trigger] after[t2]).name@ by {
                if t2 < told {
                    assert(after[t1] == before[t1]);
                    assert(after[t2] == before[t2]);
                } else {
                    assert(after[t1] == before[t1]);
                    assert(after[t2].name@ == name@);
                }
            }
            lemma_lookup_at(after, told);
            assert forall|m: Seq<char>| m != name@ implies lookup_in(after, m) == lookup_in(
                before,
                m,
            ) by {
                Self::lemma_lookup_other(before, after, m);
            }
        }
    }

    /// Two entry sequences that carry `m` at the same places with the
    /// same sizes look `m` up to the same result. `after` may differ from
    /// `before` in entries of other names, at the end or in place.
    proof fn lemma_lookup_other(before: Seq<CatalogEntry>, after: Seq<CatalogEntry>, m: Seq<char>)
        requires
            before.len() <= after.len(),
            forall|j: int|
                0 <= j < before.len() && ((#[trigger] before[j]).name@ == m || (
                #[trigger] after[j]).name@ == m) ==> after[j] == before[j],
            forall|j: int| before.len() <= j < after.len() ==> (#[trigger] after[j]).name@ != m,
        ensures
            lookup_in(after, m) == lookup_in(before, m),
        decreases after.len(),
    {
        if before.len() == 0 {
            assert forall|t: int| 0 <= t < after.len() implies (#[trigger] after[t]).name@
                != m by {}
            lemma_lookup_absent(after, m);
        } else {
            if after[0].name@ == m || before[0].name@ == m {
                assert(after[0] == before[0]);
            }
            if after[0].name@ == m {
            } else {
                assert forall|j: int|
                    0 <= j < before.drop_first().len() && ((#[trigger] before.drop_first()[j]).name@
                        == m || (#[trigger] after.drop_first()[j]).name@ == m) implies after
                    .drop_first()[j] == before.drop_first()[j] by {
                    assert(before.drop_first()[j] == before[j + 1]);
                    assert(after.drop_first()[j] == after[j + 1]);
                }
                assert forall|j: int|
                    before.drop_first().len() <= j < after.drop_first().len() implies (
                #[trigger] after.drop_first()[j]).name@ != m by {
                    assert(after.drop_first()[j] == after[j + 1]);
                }
                Self::lemma_lookup_other(before.drop_first(), after.drop_first(), m);
            }
        }
    }

    /// Deletes the named file: succeeds exactly when the catalog holds
    /// it, and afterwards that entry — and only that entry — is gone:
    /// every other entry keeps its presence and its size. Deleting an
    /// absent name fails with `DeleteFailure` and changes nothing.
    pub fn delete(&mut self, name: &String) -> (r: Result<(), UploadError>)
        requires
            old(self).wf(),
        ensures
            final(self).wf(),
            r is Ok <==> old(self).lookup(name@) is Some,
            final(self).lookup(name@) is None,
            forall|m: Seq<char>| m != name@ ==> final(self).lookup(m) == old(self).lookup(m),
            r is Err ==> r == Err::<(), UploadError>(UploadError::DeleteFailure)
                && final(self).entries_seq() == old(self).entries_seq(),
    {
        let ghost before = self.entries@;
        let mut t: usize = 0;
        while t < self.entries.len()
            invariant
                old(self).wf(),
                before == old(self).entries@,
                self.entries@ == before,
                t <= before.len(),
                forall|j: int| 0 <= j < t ==> (#[trigger] before[j]).name@ != name@,
            decreases before.len() - t,
        {
            if self.entries[t].name.eq(name) {
                let ghost told = t as int;
                proof {
                    lemma_lookup_at(before, told);
                }
                self.entries.remove(t);
                proof {
                    let after = self.entries@;
                    assert forall|t1: int, t2: int|
                        0 <= t1 < t2 < after.len() implies (#[trigger] after[t1]).name@ != (
                    #[trigger] after[t2]).name@ by {
                        before.remove_ensures(told);
                    }
                    assert forall|j: int| 0 <= j < after.len() implies (#[trigger] after[j]).name@
                        != name@ by {
                        before.remove_ensures(told);
                    }
                    lemma_lookup_absent(after, name@);
                    assert forall|m: Seq<char>| m != name@ implies lookup_in(after, m)
                        == lookup_in(before, m) by {
                        Self::lemma_lookup_removed(before, told, m);
                    }
                }
                return Ok(());
            }
            t = t + 1;
        }
        proof {
            lemma_lookup_absent(before, name@);
        }
        Err(UploadError::DeleteFailure)
    }

    /// Removing one entry leaves the lookup of every other name as it
    /// was.
    proof fn lemma_lookup_removed(entries: Seq<CatalogEntry>, t: int, m: Seq<char>)
        requires
            0 <= t < entries.len(),
            entries[t].name@ != m,
        ensures
            lookup_in(entries.remove(t), m) == lookup_in(entries, m),
        decreases entries.len(),
    {
        entries.remove_ensures(t);
        if t == 0 {
            assert(entries.remove(0) =~= entries.drop_first());
        } else {
            if entries[0].name@ == m {
                assert(entries.remove(t)[0] == entries[0]);
            } else {
                assert(entries.remove(t)[0] == entries[0]);
                Self::lemma_lookup_removed(entries.drop_first(), t - 1, m);
                assert(entries.drop_first()[t - 1] == entries[t]);
                assert(entries.remove(t).drop_first() =~= entries.drop_first().remove(t - 1));
            }
        }
    }
}

} // verus!
