//! The entries of one directory, sorted by path, below an entry for the parent
//! directory.

use crate::handle::entry::{Entry, EntryType, EntryView, Listed};
use crate::text::{lemma_bytes_le_total, lemma_bytes_le_transitive, str_le};
use vstd::prelude::*;
use vstd::seq_lib::to_multiset_insert;
use vstd::string::*;
use vstd::utf8::encode_utf8;

verus! {

/// A file is hidden when its name begins with a dot.
pub open spec fn hidden(name: Seq<char>) -> bool {
    name.len() > 0 && name[0] == '.'
}

/// What a listing keeps of what was read: the files and directories that are
/// not hidden, in the order in which they were read.
pub open spec fn kept(listing: Seq<(Seq<char>, Seq<char>, Option<EntryType>)>) -> Seq<EntryView>
    decreases listing.len(),
{
    if listing.len() == 0 {
        Seq::empty()
    } else {
        let rest = kept(listing.drop_last());
        let read = listing.last();
        match read.2 {
            Some(ftype) => if hidden(read.0) {
                rest
            } else {
                rest.push((read.1, ftype))
            },
            None => rest,
        }
    }
}

/// The entries stand in the order of their paths.
pub open spec fn sorted(files: Seq<EntryView>) -> bool {
    forall|i: int, j: int|
        0 <= i <= j < files.len() ==> str_le((#[trigger] files[i]).0, (#[trigger] files[j]).0)
}

/// What was read, in specifications.
pub open spec fn listed(listing: Seq<Listed>) -> Seq<(Seq<char>, Seq<char>, Option<EntryType>)> {
    Seq::new(listing.len(), |i: int| listing[i]@)
}

/// The entry for the parent directory.
pub open spec fn parent_entry() -> EntryView {
    (".."@, EntryType::Directory)
}

/// The listing of a directory.
#[derive(Debug)]
pub struct Entries {
    path: String,
    parent: Entry,
    entries: Vec<Entry>,
    has_parent: bool,
}

impl View for Entries {
    type V = Seq<EntryView>;

    /// All entries as the screen shows them: the parent directory first, where
    /// the listing has it, then the files.
    open spec fn view(&self) -> Seq<EntryView> {
        if self.with_parent() {
            seq![parent_entry()] + self.files()
        } else {
            self.files()
        }
    }
}

impl Entries {
    /// The entries that were read and kept.
    pub closed spec fn files(&self) -> Seq<EntryView> {
        Seq::new(self.entries@.len(), |i: int| self.entries@[i]@)
    }

    /// Whether the listing begins with an entry for the parent directory.
    pub closed spec fn with_parent(&self) -> bool {
        self.has_parent
    }

    /// The directory that is listed.
    pub closed spec fn directory(&self) -> Seq<char> {
        self.path@
    }

    /// The listing's invariant: the files stand in the order of their paths, and
    /// all entries can be counted in a `usize`.
    pub closed spec fn wf(&self) -> bool {
        &&& self.parent@ == parent_entry()
        &&& self.entries@.len() < usize::MAX
        &&& sorted(self.files())
    }

    /// The listing of `path`, of which `listing` was read.
    pub fn new(path: String, listing: &Vec<Listed>) -> (entries: Entries)
        requires
            listing@.len() < usize::MAX,
        ensures
            entries.wf(),
            entries.with_parent(),
            entries.directory() == path@,
            sorted(entries.files()),
            entries.files().to_multiset() == kept(listed(listing@)).to_multiset(),
    {
        let mut entries = Entries {
            path: String::new(),
            parent: Entry { path: "..".to_owned(), ftype: EntryType::Directory },
            entries: Vec::new(),
            has_parent: true,
        };
        entries.update(path, listing);
        entries
    }

    /// The place at which an entry with the path `path` is put among the sorted
    /// entries: behind all that stand no later than it.
    fn place_of(&self, path: &str) -> (place: usize)
        requires
            sorted(self.files()),
        ensures
            place <= self.files().len(),
            forall|i: int| 0 <= i < place ==> str_le(#[trigger] self.files()[i].0, path@),
            forall|i: int|
                place <= i < self.files().len() ==> str_le(path@, #[trigger] self.files()[i].0),
    {
        let mut place: usize = 0;
        while place < self.entries.len()
            invariant
                place <= self.entries@.len(),
                sorted(self.files()),
                forall|i: int| 0 <= i < place ==> str_le(#[trigger] self.files()[i].0, path@),
            decreases self.entries@.len() - place,
        {
            if !crate::text::str_precedes(self.entries[place].path.as_str(), path) {
                proof {
                    let found = self.files()[place as int].0;
                    lemma_bytes_le_total(encode_utf8(found), encode_utf8(path@));
                    assert forall|i: int| place <= i < self.files().len() implies str_le(
                        path@,
                        #[trigger] self.files()[i].0,
                    ) by {
                        assert(str_le(self.files()[place as int].0, self.files()[i].0));
                        lemma_bytes_le_transitive(
                            encode_utf8(path@),
                            encode_utf8(found),
                            encode_utf8(self.files()[i].0),
                        );
                    }
                }
                return place;
            }
            place += 1;
        }
        place
    }

    /// Lists `path` anew from what was read of it: the hidden files and what is
    /// neither file nor directory are left out, and the rest is sorted by path.
    pub fn update(&mut self, path: String, listing: &Vec<Listed>)
        requires
            old(self).wf(),
            listing@.len() < usize::MAX,
        ensures
            final(self).wf(),
            final(self).with_parent() == old(self).with_parent(),
            final(self).directory() == path@,
            sorted(final(self).files()),
            final(self).files().to_multiset() == kept(listed(listing@)).to_multiset(),
    {
        self.path = path;
        self.entries.clear();
        let mut i: usize = 0;
        proof {
            assert(listed(listing@).take(0) =~= Seq::<
                (Seq<char>, Seq<char>, Option<EntryType>),
            >::empty());
            assert(self.files() =~= Seq::<EntryView>::empty());
        }
        while i < listing.len()
            invariant
                i <= listing@.len(),
                listing@.len() < usize::MAX,
                self.parent@ == parent_entry(),
                self.has_parent == old(self).has_parent,
                self.path@ == path@,
                self.files().len() <= i,
                sorted(self.files()),
                self.files().to_multiset() == kept(listed(listing@).take(i as int)).to_multiset(),
            decreases listing@.len() - i,
        {
            let read = &listing[i];
            proof {
                let upto = listed(listing@).take(i + 1);
                assert(upto.drop_last() =~= listed(listing@).take(i as int));
                assert(upto.last() == read@);
            }
            let is_hidden = !read.name.as_str().is_empty() && read.name.as_str().get_char(0) == '.';
            match read.kind {
                Some(ftype) => {
                    if !is_hidden {
                        let place = self.place_of(read.path.as_str());
                        let entry = Entry { path: read.path.clone(), ftype };
                        let ghost before = self.files();
                        self.entries.insert(place, entry);
                        proof {
                            assert(self.files() =~= before.insert(place as int, entry@));
                            to_multiset_insert(before, place as int, entry@);
                            vstd::seq_lib::to_multiset_build(
                                kept(listed(listing@).take(i as int)),
                                entry@,
                            );
                            assert forall|a: int, b: int|
                                0 <= a <= b < self.files().len() implies str_le(
                                self.files()[a].0,
                                self.files()[b].0,
                            ) by {
                                let from = |k: int|
                                    if k < place {
                                        k
                                    } else {
                                        k - 1
                                    };
                                if a != place {
                                    assert(self.files()[a] == before[from(a)]);
                                }
                                if b != place {
                                    assert(self.files()[b] == before[from(b)]);
                                }
                                if a == place && b == place {
                                    lemma_bytes_le_total(encode_utf8(entry@.0), encode_utf8(entry@.0));
                                }
                            }
                        }
                    }
                },
                None => {},
            }
            i += 1;
        }
        proof {
            assert(listed(listing@).take(listing@.len() as int) =~= listed(listing@));
        }
    }

    /// The directory that is listed.
    pub fn path(&self) -> (path: &str)
        ensures
            path@ == self.directory(),
    {
        self.path.as_str()
    }

    /// The number of entries, the parent directory among them.
    pub fn len(&self) -> (count: usize)
        requires
            self.wf(),
        ensures
            count == self@.len(),
    {
        if self.has_parent {
            self.entries.len() + 1
        } else {
            self.entries.len()
        }
    }

    /// The entry at place `index` of the listing as the screen shows it.
    pub fn get(&self, index: usize) -> (entry: &Entry)
        requires
            self.wf(),
            index < self@.len(),
        ensures
            entry@ == self@[index as int],
    {
        if self.has_parent {
            if index == 0 {
                &self.parent
            } else {
                &self.entries[index - 1]
            }
        } else {
            &self.entries[index]
        }
    }
}

} // verus!
