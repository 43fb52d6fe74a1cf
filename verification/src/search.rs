//! Matching a compiled query against parsed files, and the hits it gives.

use vstd::prelude::*;
use vstd::string::*;
use tree_sitter::{Language, Query, Tree};
use vstd::utf8::is_ascii_chars;
use crate::engine::{accepted, compiled_from, compiles, finds, found_in, query_matches};
use crate::error::SearchError;
use crate::node::NodeFacts;
use crate::quote::is_plain_pattern;
use crate::snippet::{
    compile_keyword, compiled_pattern, optional_tree_pattern, reads_snippet, snippet_pattern,
};
use crate::text::{decimal, render_decimal};

verus! {

/// A place where the query matched: a file, and the row and column at which
/// a captured node starts, both counted from 1.
#[derive(Debug, Clone, PartialEq, Eq)]
pub struct MatchHit {
    pub path: String,
    pub row: u64,
    pub column: u64,
}

/// The mathematical value of a [`MatchHit`].
pub ghost struct HitView {
    pub path: Seq<char>,
    pub row: nat,
    pub column: nat,
}

impl View for MatchHit {
    type V = HitView;

    open spec fn view(&self) -> HitView {
        HitView { path: self.path@, row: self.row as nat, column: self.column as nat }
    }
}

/// The line that reports a hit: `path:row:column`.
pub open spec fn hit_line(hit: HitView) -> Seq<char> {
    hit.path + ":"@ + decimal(hit.row) + ":"@ + decimal(hit.column)
}

/// The hit for a node of the file `path` that starts at `position`, a row
/// and a column counted from 0.
pub open spec fn hit_at(path: Seq<char>, position: (u32, u32)) -> HitView {
    HitView { path, row: (position.0 + 1) as nat, column: (position.1 + 1) as nat }
}

/// The hits of one match: one for each capture, in order.
pub open spec fn match_hits(path: Seq<char>, captures: Seq<(u32, u32)>) -> Seq<HitView> {
    captures.map_values(|position: (u32, u32)| hit_at(path, position))
}

/// The hits of one file: those of each match, in order. `found` holds, for
/// each match, where each captured node starts.
pub open spec fn file_hits(path: Seq<char>, found: Seq<Seq<(u32, u32)>>) -> Seq<HitView> {
    found.map_values(|captures: Seq<(u32, u32)>| match_hits(path, captures)).flatten()
}

/// The values of a sequence of hits.
pub open spec fn hit_views(hits: Seq<MatchHit>) -> Seq<HitView> {
    hits.map_values(|hit: MatchHit| hit@)
}

/// The hits of the matches up to a further one are the hits up to it,
/// followed by its own.
pub proof fn file_hits_push(path: Seq<char>, found: Seq<Seq<(u32, u32)>>, captures: Seq<(u32, u32)>)
    ensures
        file_hits(path, found.push(captures)) == file_hits(path, found) + match_hits(
            path,
            captures,
        ),
{
    let each = |captures: Seq<(u32, u32)>| match_hits(path, captures);
    assert(found.push(captures).map_values(each) =~= found.map_values(each).push(each(captures)));
    found.map_values(each).lemma_flatten_push(each(captures));
}

/// The number of captures in what the engine found in one file.
pub open spec fn capture_count(found: Seq<Seq<(u32, u32)>>) -> nat
    decreases found.len(),
{
    if found.len() == 0 {
        0
    } else {
        capture_count(found.drop_last()) + found.last().len()
    }
}

/// A file has one hit for each capture of each match: none is left out,
/// and none is taken for another.
pub proof fn file_hits_count(path: Seq<char>, found: Seq<Seq<(u32, u32)>>)
    ensures
        file_hits(path, found).len() == capture_count(found),
    decreases found.len(),
{
    if found.len() > 0 {
        file_hits_count(path, found.drop_last());
        assert(found.drop_last().push(found.last()) =~= found);
        file_hits_push(path, found.drop_last(), found.last());
    } else {
        assert(file_hits(path, found) =~= Seq::empty());
    }
}

impl MatchHit {
    /// The line that reports the hit.
    pub fn render(&self) -> (line: String)
        ensures
            line@ == hit_line(self@),
    {
        let mut line: String = self.path.clone();
        line.append(":");
        line.append(render_decimal(self.row).as_str());
        line.append(":");
        line.append(render_decimal(self.column).as_str());
        assert(line@ =~= hit_line(self@));
        line
    }
}

/// The hits of the file `path`, given where the captured nodes of each
/// match start.
pub fn hits_of_file(path: &str, found: &Vec<Vec<(u32, u32)>>) -> (hits: Vec<MatchHit>)
    ensures
        hit_views(hits@) == file_hits(path@, found.deep_view()),
{
    let mut hits: Vec<MatchHit> = Vec::new();
    let mut m: usize = 0;
    assert(found.deep_view().take(0) =~= Seq::empty());
    assert(hit_views(hits@) =~= file_hits(path@, found.deep_view().take(0)));
    while m < found.len()
        invariant
            m <= found.len(),
            hit_views(hits@) == file_hits(path@, found.deep_view().take(m as int)),
        decreases found.len() - m,
    {
        let captures: &Vec<(u32, u32)> = &found[m];
        let ghost before = hits@;
        let mut c: usize = 0;
        while c < captures.len()
            invariant
                c <= captures.len(),
                hits@.len() == before.len() + c,
                forall|k: int| 0 <= k < before.len() ==> hits@[k] == before[k],
                forall|k: int|
                    0 <= k < c ==> (#[trigger] hits@[before.len() + k])@ == hit_at(
                        path@,
                        captures@[k],
                    ),
            decreases captures.len() - c,
        {
            let position: (u32, u32) = captures[c];
            let row: u64 = position.0 as u64 + 1;
            let column: u64 = position.1 as u64 + 1;
            hits.push(MatchHit { path: String::from_str(path), row, column });
            c += 1;
        }
        proof {
            let all = found.deep_view();
            assert(all[m as int] =~= captures@);
            assert(all.take(m as int + 1) =~= all.take(m as int).push(captures@));
            file_hits_push(path@, all.take(m as int), captures@);
            let joined = hit_views(before) + match_hits(path@, captures@);
            assert forall|j: int| 0 <= j < hits@.len() implies hit_views(hits@)[j] == joined[j] by {
                if j >= before.len() {
                    let k = j - before.len();
                    assert(hits@[before.len() + k]@ == hit_at(path@, captures@[k]));
                }
            }
            assert(hit_views(hits@) =~= joined);
        }
        m += 1;
    }
    assert(found.deep_view().take(found.len() as int) =~= found.deep_view());
    hits
}

/// The lines that report a sequence of hits.
pub open spec fn hit_lines(hits: Seq<HitView>) -> Seq<Seq<char>> {
    hits.map_values(|hit: HitView| hit_line(hit))
}

/// The lines that report `hits`, in the same order.
pub fn render_hits(hits: &Vec<MatchHit>) -> (lines: Vec<String>)
    ensures
        lines.deep_view() == hit_lines(hit_views(hits@)),
{
    let mut lines: Vec<String> = Vec::new();
    let mut i: usize = 0;
    while i < hits.len()
        invariant
            i <= hits.len(),
            lines@.len() == i,
            forall|k: int| 0 <= k < i ==> (#[trigger] lines@[k])@ == hit_line(hits@[k]@),
        decreases hits.len() - i,
    {
        lines.push(hits[i].render());
        i += 1;
    }
    assert(lines.deep_view() =~= hit_lines(hit_views(hits@)));
    lines
}

/// A parsed file together with its bytes as they are now on disk.
pub struct LoadedFile {
    pub path: String,
    pub tree: Tree,
    pub bytes: Vec<u8>,
}

/// The hits of `query` in `files`, file after file: for each file, the
/// hits of what the engine finds in its tree with its bytes.
pub open spec fn search_of(query: Query, files: Seq<LoadedFile>) -> Seq<HitView>
    decreases files.len(),
{
    if files.len() == 0 {
        Seq::empty()
    } else {
        search_of(query, files.drop_last()) + file_hits(
            files.last().path@,
            found_in(query, files.last().tree, files.last().bytes@),
        )
    }
}

/// The hits of a query newly compiled from `pattern` for `language` in
/// `files`, file after file.
pub open spec fn pattern_search(
    language: Language,
    pattern: Seq<char>,
    files: Seq<LoadedFile>,
) -> Seq<HitView>
    decreases files.len(),
{
    if files.len() == 0 {
        Seq::empty()
    } else {
        pattern_search(language, pattern, files.drop_last()) + file_hits(
            files.last().path@,
            finds(language, pattern, files.last().tree, files.last().bytes@),
        )
    }
}

/// A query compiled from a pattern has the hits of the pattern.
pub proof fn search_of_compiled(
    query: Query,
    language: Language,
    pattern: Seq<char>,
    files: Seq<LoadedFile>,
)
    requires
        compiled_from(query, language, pattern),
    ensures
        search_of(query, files) == pattern_search(language, pattern, files),
    decreases files.len(),
{
    if files.len() > 0 {
        search_of_compiled(query, language, pattern, files.drop_last());
        assert(found_in(query, files.last().tree, files.last().bytes@) == finds(
            language,
            pattern,
            files.last().tree,
            files.last().bytes@,
        ));
    }
}

/// Searching one run of files and then another gives the hits of the
/// first, followed by those of the second.
pub proof fn search_of_concat(query: Query, files: Seq<LoadedFile>, more: Seq<LoadedFile>)
    ensures
        search_of(query, files + more) == search_of(query, files) + search_of(query, more),
    decreases more.len(),
{
    if more.len() == 0 {
        assert(files + more =~= files);
        assert(search_of(query, files) + Seq::<HitView>::empty() =~= search_of(query, files));
    } else {
        assert((files + more).drop_last() =~= files + more.drop_last());
        assert((files + more).last() == more.last());
        search_of_concat(query, files, more.drop_last());
        assert(search_of(query, files + more) =~= search_of(query, files) + search_of(
            query,
            more,
        ));
    }
}

/// The hits of each shard, shard after shard.
pub open spec fn shard_hits(query: Query, shards: Seq<Seq<LoadedFile>>) -> Seq<Seq<HitView>> {
    shards.map_values(|shard: Seq<LoadedFile>| search_of(query, shard))
}

/// Searching the shards apart and joining their hits gives the hits of
/// searching all the files at once: no file is left out, and none is
/// searched twice.
pub proof fn search_of_shards(query: Query, shards: Seq<Seq<LoadedFile>>)
    ensures
        shard_hits(query, shards).flatten() == search_of(query, shards.flatten()),
    decreases shards.len(),
{
    if shards.len() > 0 {
        search_of_shards(query, shards.drop_first());
        search_of_concat(query, shards.first(), shards.drop_first().flatten());
        assert(shard_hits(query, shards).drop_first() =~= shard_hits(query, shards.drop_first()));
        assert(shard_hits(query, shards).first() == search_of(query, shards.first()));
    }
}

/// The order in which two runs of files are searched changes the order of
/// the hits, and not which hits there are, nor how often each.
pub proof fn search_of_any_order(query: Query, files: Seq<LoadedFile>, more: Seq<LoadedFile>)
    ensures
        search_of(query, files + more).to_multiset() == search_of(
            query,
            more + files,
        ).to_multiset(),
{
    search_of_concat(query, files, more);
    search_of_concat(query, more, files);
    vstd::seq_lib::lemma_seq_union_to_multiset_commutative(
        search_of(query, files),
        search_of(query, more),
    );
}

/// Without a match in any file there is no hit.
pub proof fn search_of_nothing(query: Query, files: Seq<LoadedFile>)
    requires
        forall|i: int|
            0 <= i < files.len() ==> (#[trigger] found_in(
                query,
                files[i].tree,
                files[i].bytes@,
            )).len() == 0,
    ensures
        search_of(query, files).len() == 0,
    decreases files.len(),
{
    if files.len() > 0 {
        search_of_nothing(query, files.drop_last());
        let last = files[files.len() - 1];
        assert(found_in(query, last.tree, last.bytes@).len() == 0);
        assert(file_hits(last.path@, found_in(query, last.tree, last.bytes@)) =~= Seq::empty());
    }
}

/// The hits of `query` in one file: the engine's matches on the file's tree
/// and bytes, each capture turned into a hit.
pub fn match_file(query: &Query, file: &LoadedFile) -> (hits: Vec<MatchHit>)
    ensures
        hit_views(hits@) == file_hits(file.path@, found_in(*query, file.tree, file.bytes@)),
{
    let found: Vec<Vec<(u32, u32)>> = query_matches(query, &file.tree, file.bytes.as_slice());
    hits_of_file(file.path.as_str(), &found)
}

/// The hits of `query` in `files`, file after file.
pub fn search_hits(query: &Query, files: &Vec<LoadedFile>) -> (hits: Vec<MatchHit>)
    ensures
        hit_views(hits@) == search_of(*query, files@),
{
    let mut hits: Vec<MatchHit> = Vec::new();
    let mut i: usize = 0;
    assert(hit_views(hits@) =~= search_of(*query, files@.take(0)));
    while i < files.len()
        invariant
            i <= files.len(),
            hit_views(hits@) == search_of(*query, files@.take(i as int)),
        decreases files.len() - i,
    {
        let ghost before = hits@;
        let mut more: Vec<MatchHit> = match_file(query, &files[i]);
        let ghost added = more@;
        hits.append(&mut more);
        proof {
            assert(files@.take(i + 1).drop_last() =~= files@.take(i as int));
            assert(files@.take(i + 1).last() == files@[i as int]);
            assert(hit_views(hits@) =~= hit_views(before) + hit_views(added));
        }
        i += 1;
    }
    assert(files@.take(files@.len() as int) =~= files@);
    hits
}

/// The lines `path:row:column` for the hits of `query` in `files`, file
/// after file.
pub fn search(query: &Query, files: &Vec<LoadedFile>) -> (lines: Vec<String>)
    ensures
        lines.deep_view() == hit_lines(search_of(*query, files@)),
{
    let hits: Vec<MatchHit> = search_hits(query, files);
    render_hits(&hits)
}

/// What is left to do once the snippet has been compiled.
pub enum Plan {
    /// The files are to be matched against the query.
    Match(Query),
    /// The search is over, and these are its lines.
    Done(Vec<String>),
}

/// What is left to do once the snippet has been compiled: with a query,
/// to match it; where the snippet gave no pattern, nothing, and there is
/// no hit; any other error ends the search.
pub fn plan(compiled: Result<Query, SearchError>) -> (next: Result<Plan, SearchError>)
    ensures
        match compiled {
            Ok(query) => next == Ok::<Plan, SearchError>(Plan::Match(query)),
            Err(SearchError::NoPattern) => (next matches Ok(Plan::Done(lines)) && lines@.len()
                == 0),
            Err(e) => next == Err::<Plan, SearchError>(e),
        },
{
    match compiled {
        Ok(query) => Ok(Plan::Match(query)),
        Err(SearchError::NoPattern) => Ok(Plan::Done(Vec::new())),
        Err(e) => Err(e),
    }
}

/// Whether `lines` is what searching `files` can give, once generalising
/// the snippet has given `wanted`: no line where there is no pattern, any
/// other error handed on, and for a pattern the lines of its hits in the
/// files, or a `QueryCompile`; for a pattern that is plain outside its
/// string literals, lines exactly where the engine compiles it.
pub open spec fn searched_pattern(
    lines: Result<Vec<String>, SearchError>,
    language: Language,
    wanted: Result<Seq<char>, SearchError>,
    files: Seq<LoadedFile>,
) -> bool {
    match wanted {
        Err(SearchError::NoPattern) => (lines matches Ok(found) && found@.len() == 0),
        Err(e) => lines == Err::<Vec<String>, SearchError>(e),
        Ok(pattern) => {
            &&& match lines {
                Ok(found) => found.deep_view() == hit_lines(
                    pattern_search(language, pattern, files),
                ),
                Err(e) => e is QueryCompile,
            }
            &&& is_plain_pattern(pattern) ==> lines.is_ok() == compiles(language, pattern)
        },
    }
}

/// The lines `path:row:column` for the places in `files` that match the
/// snippet `keyword`, file after file.
///
/// With a grammar that the engine does not take there is `Language`. A
/// snippet that gives no pattern gives no line, whatever the files hold.
/// A pattern that the engine does not compile is an error. Else the lines
/// are those of the hits of the pattern in the files. The pattern is that
/// of the tree that the engine gives for the snippet; for a snippet of
/// ASCII it is the tree that `parsed` names.
pub fn search_keyword(keyword: &str, language: Language, files: &Vec<LoadedFile>) -> (lines: Result<
    Vec<String>,
    SearchError,
>)
    ensures
        !accepted(language) ==> lines == Err::<Vec<String>, SearchError>(SearchError::Language),
        accepted(language) ==> exists|tree: Option<Map<Seq<int>, NodeFacts>>|
            #[trigger] reads_snippet(language, keyword@, tree) && searched_pattern(
                lines,
                language,
                optional_tree_pattern(tree, keyword@),
                files@,
            ),
        accepted(language) && is_ascii_chars(keyword@) ==> searched_pattern(
            lines,
            language,
            snippet_pattern(language, keyword@),
            files@,
        ),
{
    let compiled: Result<Query, SearchError> = compile_keyword(keyword, language);
    let ghost tree = choose|tree: Option<Map<Seq<int>, NodeFacts>>|
        #[trigger] reads_snippet(language, keyword@, tree) && compiled_pattern(
            compiled,
            language,
            optional_tree_pattern(tree, keyword@),
        );
    let ghost wanted = optional_tree_pattern(tree, keyword@);
    let lines: Result<Vec<String>, SearchError> = match plan(compiled) {
        Ok(Plan::Match(query)) => {
            proof {
                if accepted(language) {
                    search_of_compiled(query, language, wanted->Ok_0, files@);
                }
            }
            Ok(search(&query, files))
        },
        Ok(Plan::Done(lines)) => Ok(lines),
        Err(e) => Err(e),
    };
    proof {
        if accepted(language) {
            assert(searched_pattern(lines, language, wanted, files@));
        }
    }
    lines
}

} // verus!
