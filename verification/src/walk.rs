//! Walking a directory tree for the files to search.
//!
//! The library decides; its caller reads the directories. A [`Walk`] hands
//! out one directory at a time, and takes back what that directory holds.

use vstd::prelude::*;
use vstd::string::*;
use crate::text::{
    ends_in_plain_name, extension_of_name, is_plain_name, last_part, occurs_in, path_extension,
};

verus! {

/// One entry of a directory.
pub struct DirEntry {
    /// The path of the entry.
    pub path: String,
    /// Whether the entry is a directory.
    pub is_dir: bool,
    /// The extension of the entry's name, without the dot.
    pub extension: Option<String>,
}

/// The mathematical value of a [`DirEntry`].
pub ghost struct EntryView {
    pub path: Seq<char>,
    pub is_dir: bool,
    pub extension: Option<Seq<char>>,
}

impl View for DirEntry {
    type V = EntryView;

    open spec fn view(&self) -> EntryView {
        EntryView {
            path: self.path@,
            is_dir: self.is_dir,
            extension: match self.extension {
                Some(extension) => Some(extension@),
                None => None,
            },
        }
    }
}

/// The values of a sequence of entries.
pub open spec fn entry_views(entries: Seq<DirEntry>) -> Seq<EntryView> {
    entries.map_values(|entry: DirEntry| entry@)
}

/// The values of a sequence of strings.
pub open spec fn texts(strings: Seq<String>) -> Seq<Seq<char>> {
    strings.map_values(|s: String| s@)
}

/// Whether an entry is a file to search: no directory, and with an
/// extension that is among `filters`.
pub open spec fn is_selected(entry: EntryView, filters: Seq<Seq<char>>) -> bool {
    !entry.is_dir && entry.extension.is_some() && filters.contains(entry.extension.unwrap())
}

/// The paths of the files to search among `entries`, in order.
pub open spec fn selected_files(entries: Seq<EntryView>, filters: Seq<Seq<char>>) -> Seq<
    Seq<char>,
>
    decreases entries.len(),
{
    if entries.len() == 0 {
        Seq::empty()
    } else if is_selected(entries.last(), filters) {
        selected_files(entries.drop_last(), filters).push(entries.last().path)
    } else {
        selected_files(entries.drop_last(), filters)
    }
}

/// The paths of the directories among `entries`, in order.
pub open spec fn subdirectories(entries: Seq<EntryView>) -> Seq<Seq<char>>
    decreases entries.len(),
{
    if entries.len() == 0 {
        Seq::empty()
    } else if entries.last().is_dir {
        subdirectories(entries.drop_last()).push(entries.last().path)
    } else {
        subdirectories(entries.drop_last())
    }
}

/// Where no entry is a file to search, none is found: an empty directory,
/// or one without a file of a wanted extension, adds nothing.
pub proof fn nothing_selected(entries: Seq<EntryView>, filters: Seq<Seq<char>>)
    requires
        forall|i: int| 0 <= i < entries.len() ==> !is_selected(#[trigger] entries[i], filters),
    ensures
        selected_files(entries, filters).len() == 0,
    decreases entries.len(),
{
    if entries.len() > 0 {
        nothing_selected(entries.drop_last(), filters);
    }
}

/// Every file found is the path of an entry that is a file to search.
pub proof fn selected_are_entries(entries: Seq<EntryView>, filters: Seq<Seq<char>>, k: int)
    requires
        0 <= k < selected_files(entries, filters).len(),
    ensures
        exists|i: int|
            0 <= i < entries.len() && is_selected(#[trigger] entries[i], filters)
                && entries[i].path == selected_files(entries, filters)[k],
    decreases entries.len(),
{
    if entries.len() > 0 {
        let front = entries.drop_last();
        if is_selected(entries.last(), filters) && k == selected_files(front, filters).len() {
            assert(is_selected(entries[entries.len() - 1], filters));
        } else {
            selected_are_entries(front, filters, k);
            let i = choose|i: int|
                0 <= i < front.len() && is_selected(#[trigger] front[i], filters) && front[i].path
                    == selected_files(front, filters)[k];
            assert(entries[i] == front[i]);
        }
    }
}

/// Whether `text` is one of `filters`.
pub fn is_listed(text: &String, filters: &Vec<String>) -> (listed: bool)
    ensures
        listed == texts(filters@).contains(text@),
{
    let mut i: usize = 0;
    while i < filters.len()
        invariant
            i <= filters.len(),
            forall|k: int| 0 <= k < i ==> filters@[k]@ != text@,
        decreases filters.len() - i,
    {
        if filters[i] == *text {
            assert(texts(filters@)[i as int] == text@);
            return true;
        }
        i += 1;
    }
    false
}

impl DirEntry {
    /// The entry for `path`, with the extension that the path has: one
    /// without a dot, which stands in the path behind a dot. A path
    /// without a dot has none, a path that is one plain name has the
    /// extension of that name, and so has a path that ends in a plain name
    /// with an extension behind a `/`.
    pub fn new(path: String, is_dir: bool) -> (entry: Self)
        ensures
            entry@.path == path@,
            entry@.is_dir == is_dir,
            entry@.extension matches Some(e) ==> !e.contains('.') && occurs_in(
                seq!['.'] + e,
                path@,
            ),
            !path@.contains('.') ==> entry@.extension.is_none(),
            is_plain_name(path@) ==> entry@.extension == extension_of_name(path@),
            ends_in_plain_name(path@) ==> entry@.extension == extension_of_name(
                last_part(path@),
            ),
    {
        let extension: Option<String> = path_extension(path.as_str());
        DirEntry { path, is_dir, extension }
    }

    /// Whether the entry is a file to search.
    pub fn selected(&self, filters: &Vec<String>) -> (selected: bool)
        ensures
            selected == is_selected(self@, texts(filters@)),
    {
        if self.is_dir {
            false
        } else {
            match &self.extension {
                Some(extension) => is_listed(extension, filters),
                None => false,
            }
        }
    }
}

/// The state of a walk: the directories still to read, and the files found.
pub struct Walk {
    pub pending: Vec<String>,
    pub files: Vec<String>,
}

impl Walk {
    /// A walk that has `root` to read and has found nothing.
    pub fn new(root: String) -> (walk: Self)
        ensures
            texts(walk.pending@) == seq![root@],
            walk.files@.len() == 0,
    {
        let mut pending: Vec<String> = Vec::new();
        pending.push(root);
        let walk = Walk { pending, files: Vec::new() };
        assert(texts(walk.pending@) =~= seq![root@]);
        walk
    }

    /// The next directory to read, taken off the walk; none when the walk
    /// is over.
    pub fn next_directory(&mut self) -> (next: Option<String>)
        ensures
            final(self).files == old(self).files,
            old(self).pending@.len() == 0 ==> next.is_none() && final(self).pending@.len() == 0,
            old(self).pending@.len() > 0 ==> {
                &&& next == Some(old(self).pending@.last())
                &&& final(self).pending@ == old(self).pending@.drop_last()
            },
    {
        self.pending.pop()
    }

    /// Takes in what one directory holds: its files to search are found,
    /// its directories are still to read. A directory that could not be
    /// read holds nothing.
    pub fn record(&mut self, entries: &Vec<DirEntry>, filters: &Vec<String>)
        ensures
            texts(final(self).files@) == texts(old(self).files@) + selected_files(
                entry_views(entries@),
                texts(filters@),
            ),
            texts(final(self).pending@) == texts(old(self).pending@) + subdirectories(
                entry_views(entries@),
            ),
    {
        let ghost all = entry_views(entries@);
        let ghost wanted = texts(filters@);
        let mut i: usize = 0;
        assert(all.take(0) =~= Seq::empty());
        assert(texts(self.files@) =~= texts(old(self).files@) + selected_files(
            all.take(0),
            wanted,
        ));
        assert(texts(self.pending@) =~= texts(old(self).pending@) + subdirectories(all.take(0)));
        while i < entries.len()
            invariant
                i <= entries.len(),
                all == entry_views(entries@),
                wanted == texts(filters@),
                texts(self.files@) == texts(old(self).files@) + selected_files(
                    all.take(i as int),
                    wanted,
                ),
                texts(self.pending@) == texts(old(self).pending@) + subdirectories(
                    all.take(i as int),
                ),
            decreases entries.len() - i,
        {
            let entry: &DirEntry = &entries[i];
            let ghost files_before = self.files@;
            let ghost pending_before = self.pending@;
            proof {
                assert(all.take(i + 1).drop_last() =~= all.take(i as int));
                assert(all.take(i + 1).last() == entry@);
            }
            if entry.is_dir {
                self.pending.push(entry.path.clone());
                assert(texts(self.pending@) =~= texts(pending_before).push(entry@.path));
            } else if entry.selected(filters) {
                self.files.push(entry.path.clone());
                assert(texts(self.files@) =~= texts(files_before).push(entry@.path));
            }
            i += 1;
        }
        assert(all.take(entries@.len() as int) =~= all);
    }

    /// The files found, once the walk is over.
    pub fn into_files(self) -> (files: Vec<String>)
        ensures
            files == self.files,
    {
        self.files
    }
}

} // verus!
