//! Parsing the files, and the table of what was parsed.

use vstd::prelude::*;
use vstd::utf8::is_ascii_chars;
use tree_sitter::{Language, Tree};
use crate::engine::{accepted, parse_text, parsed, tree_facts};
use crate::error::SearchError;
use crate::shard::reversed;

verus! {

/// A file and its syntax tree.
pub struct ParsedFile {
    pub path: String,
    pub tree: Tree,
}

/// Parses `source`, the text of the file at `path`, with `language`.
///
/// With a grammar that the engine does not take there is `Language`. Else
/// there is a file with the path it was asked for, or `Parse` with that
/// path. For a text of ASCII there is a file exactly when a new parser
/// gives a tree for the text, and the file has that tree.
pub fn parse_file(path: String, source: &str, language: Language) -> (file: Result<
    ParsedFile,
    SearchError,
>)
    ensures
        !accepted(language) ==> file == Err::<ParsedFile, SearchError>(SearchError::Language),
        accepted(language) ==> match file {
            Ok(f) => f.path == path,
            Err(e) => e == (SearchError::Parse { path }),
        },
        accepted(language) && is_ascii_chars(source@) ==> match file {
            Ok(f) => parsed(language, source@) == Some(tree_facts(f.tree)),
            Err(_) => parsed(language, source@).is_none(),
        },
{
    match parse_text(language, source) {
        Ok(Some(tree)) => Ok(ParsedFile { path, tree }),
        Ok(None) => Err(SearchError::Parse { path }),
        Err(_) => Err(SearchError::Language),
    }
}

/// The paths of a sequence of files.
pub open spec fn file_paths(files: Seq<ParsedFile>) -> Seq<Seq<char>> {
    files.map_values(|file: ParsedFile| file.path@)
}

/// The table that comes of entering `files` one after the other: each path
/// with the tree that was entered for it last.
pub open spec fn table_of(files: Seq<ParsedFile>) -> Map<Seq<char>, Tree>
    decreases files.len(),
{
    if files.len() == 0 {
        Map::empty()
    } else {
        table_of(files.drop_last()).insert(files.last().path@, files.last().tree)
    }
}

/// The parsed files of a search, each path once.
pub struct FileTable {
    files: Vec<ParsedFile>,
}

impl View for FileTable {
    type V = Map<Seq<char>, Tree>;

    closed spec fn view(&self) -> Map<Seq<char>, Tree> {
        table_of(self.files@)
    }
}

/// A table of files without a repeated path holds each file's path, with
/// its tree.
pub proof fn table_of_distinct(files: Seq<ParsedFile>)
    requires
        file_paths(files).no_duplicates(),
    ensures
        table_of(files).dom() =~= file_paths(files).to_set(),
        forall|i: int|
            0 <= i < files.len() ==> table_of(files)[#[trigger] files[i].path@] == files[i].tree,
    decreases files.len(),
{
    if files.len() > 0 {
        let front = files.drop_last();
        assert(file_paths(front) =~= file_paths(files).drop_last());
        assert forall|i: int, j: int|
            0 <= i < front.len() && 0 <= j < front.len() && i != j implies file_paths(front)[i]
            != file_paths(front)[j] by {
            assert(file_paths(files)[i] != file_paths(files)[j]);
        }
        table_of_distinct(front);
        assert forall|i: int| 0 <= i < files.len() implies table_of(files)[#[trigger] files[i].path@]
            == files[i].tree by {
            if i < files.len() - 1 {
                assert(file_paths(files)[i] != file_paths(files)[files.len() - 1]);
                assert(front[i] == files[i]);
            }
        }
        let last = files.len() - 1;
        assert forall|p: Seq<char>|
            table_of(files).dom().contains(p) <==> file_paths(files).to_set().contains(p) by {
            assert(table_of(files).dom().contains(p) <==> (file_paths(front).to_set().contains(p)
                || p == files[last].path@));
            if file_paths(files).contains(p) {
                let i = choose|i: int| 0 <= i < files.len() && file_paths(files)[i] == p;
                if i < last {
                    assert(file_paths(front)[i] == p);
                }
            }
            if file_paths(front).contains(p) {
                let i = choose|i: int| 0 <= i < front.len() && file_paths(front)[i] == p;
                assert(file_paths(files)[i] == p);
            }
            if p == files[last].path@ {
                assert(file_paths(files)[last] == p);
            }
        }
    } else {
        assert(file_paths(files).to_set() =~= Set::empty());
    }
}

impl FileTable {
    /// No path stands twice in the table.
    #[verifier::type_invariant]
    spec fn wf(self) -> bool {
        file_paths(self.files@).no_duplicates()
    }

    /// The files of the table, in the order in which their paths first came.
    pub closed spec fn entries(self) -> Seq<ParsedFile> {
        self.files@
    }

    /// The empty table.
    pub fn new() -> (table: Self)
        ensures
            table@ == Map::<Seq<char>, Tree>::empty(),
            table.entries().len() == 0,
    {
        FileTable { files: Vec::new() }
    }

    /// The number of files in the table.
    pub fn len(&self) -> (count: usize)
        ensures
            count == self.entries().len(),
            count == self@.dom().len(),
    {
        proof {
            use_type_invariant(self);
            table_of_distinct(self.files@);
            file_paths(self.files@).unique_seq_to_set();
        }
        self.files.len()
    }

    /// Where in the table the file at `path` stands.
    pub fn position(&self, path: &String) -> (place: Option<usize>)
        ensures
            match place {
                Some(i) => i < self.entries().len() && self.entries()[i as int].path@ == path@,
                None => !file_paths(self.entries()).contains(path@),
            },
            place.is_some() == self@.dom().contains(path@),
    {
        proof {
            use_type_invariant(self);
            table_of_distinct(self.files@);
        }
        let mut i: usize = 0;
        while i < self.files.len()
            invariant
                i <= self.files.len(),
                forall|k: int| 0 <= k < i ==> self.files@[k].path@ != path@,
                self@.dom() == file_paths(self.files@).to_set(),
            decreases self.files.len() - i,
        {
            if self.files[i].path == *path {
                assert(file_paths(self.files@)[i as int] == path@);
                assert(file_paths(self.files@).contains(path@));
                return Some(i);
            }
            i += 1;
        }
        None
    }

    /// Enters `file`: in the place of the file of the same path, if there
    /// is one, else behind the others.
    pub fn insert(&mut self, file: ParsedFile)
        ensures
            final(self)@ == old(self)@.insert(file.path@, file.tree),
            old(self)@.dom().contains(file.path@) ==> file_paths(final(self).entries())
                == file_paths(old(self).entries()),
            !old(self)@.dom().contains(file.path@) ==> final(self).entries() == old(
                self,
            ).entries().push(file),
    {
        let ghost before = self.files@;
        proof {
            use_type_invariant(&*self);
            table_of_distinct(before);
        }
        let place: Option<usize> = self.position(&file.path);
        let mut files: Vec<ParsedFile> = Vec::new();
        core::mem::swap(&mut self.files, &mut files);
        match place {
            Some(i) => {
                proof {
                    assert forall|k: int| 0 <= k < before.len() && before[k].path@ == file.path@
                        implies k == i by {
                        assert(file_paths(before)[k] == file_paths(before)[i as int]);
                    }
                }
                files.set(i, file);
                proof {
                    let after = files@;
                    assert(file_paths(after) =~= file_paths(before));
                    table_of_distinct(after);
                    let wanted = table_of(before).insert(file.path@, file.tree);
                    assert(file_paths(before)[i as int] == file.path@);
                    assert(file_paths(before).to_set().contains(file.path@));
                    assert(table_of(after).dom() =~= wanted.dom());
                    assert forall|p: Seq<char>| table_of(after).dom().contains(p) implies table_of(
                        after,
                    )[p] == wanted[p] by {
                        let k = choose|k: int| 0 <= k < after.len() && file_paths(after)[k] == p;
                        assert(after[k].path@ == p);
                        if k != i {
                            assert(before[k].path@ == p);
                            assert(after[k] == before[k]);
                        }
                    }
                    assert(table_of(after) =~= wanted);
                }
            },
            None => {
                files.push(file);
                proof {
                    let after = files@;
                    assert(after.drop_last() =~= before);
                    assert(file_paths(after) =~= file_paths(before).push(file.path@));
                }
            },
        }
        core::mem::swap(&mut self.files, &mut files);
    }

    /// The table of `files`, entered one after the other.
    pub fn from_files(files: Vec<ParsedFile>) -> (table: Self)
        ensures
            table@ == table_of(files@),
    {
        let ghost all = files@;
        let mut stack: Vec<ParsedFile> = reversed(files);
        let mut table: FileTable = FileTable::new();
        let ghost mut done: int = 0;
        assert(all.take(0) =~= Seq::empty());
        while stack.len() > 0
            invariant
                0 <= done,
                stack@.len() + done == all.len(),
                forall|k: int| 0 <= k < stack@.len() ==> stack@[k] == all[all.len() - 1 - k],
                table@ == table_of(all.take(done)),
            decreases stack.len(),
        {
            let file: ParsedFile = stack.pop().unwrap();
            proof {
                assert(file == all[done]);
                assert(all.take(done + 1).drop_last() =~= all.take(done));
                assert(all.take(done + 1).last() == file);
            }
            table.insert(file);
            proof {
                done = done + 1;
            }
        }
        assert(all.take(done) =~= all);
        table
    }

    /// The files of the table, in the order in which their paths first came.
    pub fn into_files(self) -> (files: Vec<ParsedFile>)
        ensures
            files@ == self.entries(),
            file_paths(files@).no_duplicates(),
            table_of(files@) == self@,
    {
        proof {
            use_type_invariant(&self);
        }
        self.files
    }
}

} // verus!
