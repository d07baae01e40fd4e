//! The search core: a name index and a line index of one directory tree, fuzzy
//! queries over them, and a cache of every query's matches.

use vstd::prelude::*;
use fuzzy_matcher::skim::SkimMatcherV2;
use crate::matcher::{fuzzy_indices, new_matcher, skim_match};
use crate::search_results::{
    duplicate_results, lemma_ranked_members, ranked, results_view, top, valid_positions,
    ResultsOfSearch, SearchResult, SearchResultView,
};
use crate::order::{lemma_text_total, lemma_text_transitive, text_less, text_lt};
use crate::text::{clean_line, clean_line_spec, display_width, strip_file_prefix, strip_prefix_spec};

verus! {

/// Files of this size in bytes or more keep their name in the index but not their lines.
pub const MAX_FILE_SIZE_BYTES: u64 = 1000000;

/// Most results handed out for one query.
pub const SEARCH_RESULTS_LIMIT: usize = 100;

/// Which indexes a `Search` builds and queries.
#[derive(PartialEq, Eq, Structural, Clone, Copy, Debug)]
pub enum SearchType {
    Names,
    Contents,
    NamesAndContents,
}

pub open spec fn names_enabled(t: SearchType) -> bool {
    t is Names || t is NamesAndContents
}

pub open spec fn contents_enabled(t: SearchType) -> bool {
    t is Contents || t is NamesAndContents
}

/// One indexed line: its file, its number counted from 1, its text.
pub struct ContentLine {
    pub path: String,
    pub line_number: usize,
    pub line: String,
}

pub type LineView = (Seq<char>, usize, Seq<char>);

pub type CacheView = Seq<(Seq<char>, Seq<SearchResultView>)>;

pub open spec fn lines_view(v: Seq<ContentLine>) -> Seq<LineView> {
    v.map_values(|l: ContentLine| (l.path@, l.line_number, l.line@))
}

pub open spec fn strings_view(v: Seq<String>) -> Seq<Seq<char>> {
    v.map_values(|s: String| s@)
}

/// The matches stored for `q`; the latest entry wins.
pub open spec fn lookup(cache: CacheView, q: Seq<char>) -> Option<Seq<SearchResultView>>
    decreases cache.len(),
{
    if cache.len() == 0 {
        None
    } else if cache.last().0 == q {
        Some(cache.last().1)
    } else {
        lookup(cache.drop_last(), q)
    }
}

/// The matches of `q` among file names, in index order.
pub open spec fn name_matches(names: Seq<Seq<char>>, q: Seq<char>) -> Seq<SearchResultView>
    decreases names.len(),
{
    if names.len() == 0 {
        Seq::empty()
    } else {
        let prev = name_matches(names.drop_last(), q);
        match skim_match(names.last(), q) {
            Some((score, indices)) => prev.push(
                SearchResultView::File { path: names.last(), score, indices },
            ),
            None => prev,
        }
    }
}

/// The matches of `q` among indexed lines, in index order.
pub open spec fn content_matches(lines: Seq<LineView>, q: Seq<char>) -> Seq<SearchResultView>
    decreases lines.len(),
{
    if lines.len() == 0 {
        Seq::empty()
    } else {
        let prev = content_matches(lines.drop_last(), q);
        let (path, line_number, line) = lines.last();
        match skim_match(line, q) {
            Some((score, indices)) => prev.push(
                SearchResultView::LineInFile { path, line, line_number, score, indices },
            ),
            None => prev,
        }
    }
}

/// The result was scored against `q`, and its positions lie in its text.
pub open spec fn scored_for(r: SearchResultView, q: Seq<char>) -> bool {
    &&& skim_match(r.text(), q) == Some((r.score(), r.indices()))
    &&& valid_positions(r.indices(), r.text())
}

pub open spec fn all_scored_for(s: Seq<SearchResultView>, q: Seq<char>) -> bool {
    forall|i: int| 0 <= i < s.len() ==> scored_for(#[trigger] s[i], q)
}

pub open spec fn cache_scored(cache: CacheView) -> bool {
    forall|i: int| 0 <= i < cache.len() ==> all_scored_for(#[trigger] cache[i].1, cache[i].0)
}

/// What one index gives for `q`: the stored matches, or else fresh ones.
pub open spec fn answer(cache: CacheView, q: Seq<char>, fresh: Seq<SearchResultView>) -> Seq<SearchResultView> {
    match lookup(cache, q) {
        Some(v) => v,
        None => fresh,
    }
}

/// The cache once `q` was answered: unchanged where it was stored, else with it added.
pub open spec fn cache_after(cache: CacheView, q: Seq<char>, fresh: Seq<SearchResultView>) -> CacheView {
    if lookup(cache, q) is Some {
        cache
    } else {
        cache.push((q, fresh))
    }
}

/// The ranked results of one index, as the query and its results.
pub type ResultsView = (Seq<char>, Seq<SearchResultView>);

pub open spec fn results_of(r: ResultsOfSearch) -> ResultsView {
    (r.search_term@, results_view(r.search_results@))
}

pub open spec fn opt_results(r: Option<ResultsOfSearch>) -> Option<ResultsView> {
    match r {
        None => None,
        Some(x) => Some(results_of(x)),
    }
}

/// The results of one search: one list per index that the search covers.
pub struct SearchOutput {
    pub file_names: Option<ResultsOfSearch>,
    pub file_contents: Option<ResultsOfSearch>,
}

/// The indexes of one tree and the matches of every query searched so far.
/// The caches outlive a rescan: an entry is never dropped.
pub struct Search {
    search_type: SearchType,
    file_names: Vec<String>,
    file_contents: Vec<ContentLine>,
    cached_file_name_results: Vec<(String, Vec<SearchResult>)>,
    cached_file_contents_results: Vec<(String, Vec<SearchResult>)>,
}

pub open spec fn cache_view(v: Seq<(String, Vec<SearchResult>)>) -> CacheView {
    v.map_values(|e: (String, Vec<SearchResult>)| (e.0@, results_view(e.1@)))
}

/// The output of `search(q)` on `old`, leaving `new`.
pub open spec fn searched(old: Search, q: Seq<char>, new: Search, out: SearchOutput) -> bool {
    &&& new.search_type() == old.search_type()
    &&& new.names() == old.names()
    &&& new.contents() == old.contents()
    &&& new.well_formed()
    &&& if names_enabled(old.search_type()) {
        let fresh = name_matches(old.names(), q);
        &&& new.name_cache() == cache_after(old.name_cache(), q, fresh)
        &&& opt_results(out.file_names) == Some((q, top(answer(old.name_cache(), q, fresh), SEARCH_RESULTS_LIMIT as nat)))
    } else {
        &&& new.name_cache() == old.name_cache()
        &&& out.file_names is None
    }
    &&& if contents_enabled(old.search_type()) {
        let fresh = content_matches(old.contents(), q);
        &&& new.content_cache() == cache_after(old.content_cache(), q, fresh)
        &&& opt_results(out.file_contents) == Some((q, top(answer(old.content_cache(), q, fresh), SEARCH_RESULTS_LIMIT as nat)))
    } else {
        &&& new.content_cache() == old.content_cache()
        &&& out.file_contents is None
    }
}

/// Texts in strictly rising lexical order.
pub open spec fn sorted_texts(s: Seq<Seq<char>>) -> bool {
    forall|i: int, j: int| 0 <= i < j < s.len() ==> text_lt(#[trigger] s[i], #[trigger] s[j])
}

/// How many leading texts of `s` come before `x`.
pub open spec fn position(s: Seq<Seq<char>>, x: Seq<char>) -> nat
    decreases s.len(),
{
    if s.len() > 0 && text_lt(s[0], x) {
        1 + position(s.drop_first(), x)
    } else {
        0
    }
}

/// The name index with `p` in its place, where it was absent.
pub open spec fn with_name(names: Seq<Seq<char>>, p: Seq<char>) -> Seq<Seq<char>> {
    if names.contains(p) {
        names
    } else {
        names.insert(position(names, p) as int, p)
    }
}

proof fn lemma_position(s: Seq<Seq<char>>, x: Seq<char>, i: int)
    requires
        0 <= i <= s.len(),
        forall|j: int| 0 <= j < i ==> text_lt(#[trigger] s[j], x),
        i < s.len() ==> !text_lt(s[i], x),
    ensures
        position(s, x) == i,
    decreases s.len(),
{
    if i > 0 {
        let t = s.drop_first();
        assert forall|j: int| 0 <= j < i - 1 implies text_lt(#[trigger] t[j], x) by {
            assert(t[j] == s[j + 1]);
        }
        lemma_position(t, x, i - 1);
    }
}

proof fn lemma_sorted_insert(s: Seq<Seq<char>>, x: Seq<char>, i: int)
    requires
        0 <= i <= s.len(),
        sorted_texts(s),
        forall|j: int| 0 <= j < i ==> text_lt(#[trigger] s[j], x),
        forall|k: int| i <= k < s.len() ==> text_lt(x, #[trigger] s[k]),
    ensures
        sorted_texts(s.insert(i, x)),
{
    let t = s.insert(i, x);
    assert forall|a: int, b: int| 0 <= a < b < t.len() implies text_lt(#[trigger] t[a], #[trigger] t[b]) by {
        if b < i {
            assert(t[a] == s[a] && t[b] == s[b]);
        } else if b == i {
            assert(t[a] == s[a]);
        } else if a < i {
            assert(t[a] == s[a] && t[b] == s[b - 1]);
        } else if a == i {
            assert(t[b] == s[b - 1]);
        } else {
            assert(t[a] == s[a - 1] && t[b] == s[b - 1]);
        }
    }
}

/// Indexed lines without those of `p`, in their order.
pub open spec fn without_path(lines: Seq<LineView>, p: Seq<char>) -> Seq<LineView>
    decreases lines.len(),
{
    if lines.len() == 0 {
        lines
    } else {
        let prev = without_path(lines.drop_last(), p);
        if lines.last().0 == p {
            prev
        } else {
            prev.push(lines.last())
        }
    }
}

/// Lines in rising order of path, then of line number.
pub open spec fn key_lt(a: LineView, b: LineView) -> bool {
    text_lt(a.0, b.0) || (a.0 == b.0 && a.1 < b.1)
}

pub open spec fn sorted_lines(s: Seq<LineView>) -> bool {
    forall|i: int, j: int| 0 <= i < j < s.len() ==> key_lt(#[trigger] s[i], #[trigger] s[j])
}

/// How many leading lines of `s` belong to paths before `p`.
pub open spec fn line_position(s: Seq<LineView>, p: Seq<char>) -> nat
    decreases s.len(),
{
    if s.len() > 0 && text_lt(s[0].0, p) {
        1 + line_position(s.drop_first(), p)
    } else {
        0
    }
}

/// The line index once the lines of `p` are replaced by `new_lines`, kept in order.
pub open spec fn with_lines(s: Seq<LineView>, p: Seq<char>, new_lines: Seq<LineView>) -> Seq<LineView> {
    let w = without_path(s, p);
    let k = line_position(w, p) as int;
    w.take(k) + new_lines + w.skip(k)
}

proof fn lemma_key_transitive(a: LineView, b: LineView, c: LineView)
    requires
        key_lt(a, b),
        key_lt(b, c),
    ensures
        key_lt(a, c),
{
    if text_lt(a.0, b.0) && text_lt(b.0, c.0) {
        lemma_text_transitive(a.0, b.0, c.0);
    }
}

proof fn lemma_without_path(s: Seq<LineView>, p: Seq<char>)
    requires
        sorted_lines(s),
    ensures
        sorted_lines(without_path(s, p)),
        forall|y: LineView| #[trigger] without_path(s, p).contains(y) ==> s.contains(y) && y.0 != p,
    decreases s.len(),
{
    if s.len() > 0 {
        let d = s.drop_last();
        assert forall|i: int, j: int| 0 <= i < j < d.len() implies key_lt(#[trigger] d[i], #[trigger] d[j]) by {
            assert(d[i] == s[i] && d[j] == s[j]);
        }
        lemma_without_path(d, p);
        let w0 = without_path(d, p);
        let w = without_path(s, p);
        assert forall|y: LineView| #[trigger] w.contains(y) implies s.contains(y) && y.0 != p by {
            let k = choose|k: int| 0 <= k < w.len() && w[k] == y;
            if k < w0.len() {
                assert(w0[k] == y);
                assert(w0.contains(y));
                let m = choose|m: int| 0 <= m < d.len() && d[m] == y;
                assert(s[m] == y);
            } else {
                assert(s[s.len() - 1] == y);
            }
        }
        if s.last().0 != p {
            assert forall|i: int, j: int| 0 <= i < j < w.len() implies key_lt(#[trigger] w[i], #[trigger] w[j]) by {
                if j == w.len() - 1 {
                    assert(w0.contains(w[i]));
                    let m = choose|m: int| 0 <= m < d.len() && d[m] == w[i];
                    assert(s[m] == w[i]);
                    assert(w[j] == s[s.len() - 1]);
                } else {
                    assert(w[i] == w0[i] && w[j] == w0[j]);
                }
            }
        }
    }
}

proof fn lemma_line_position(s: Seq<LineView>, p: Seq<char>, i: int)
    requires
        0 <= i <= s.len(),
        forall|j: int| 0 <= j < i ==> text_lt(#[trigger] s[j].0, p),
        i < s.len() ==> !text_lt(s[i].0, p),
    ensures
        line_position(s, p) == i,
    decreases s.len(),
{
    if i > 0 {
        let t = s.drop_first();
        assert forall|j: int| 0 <= j < i - 1 implies text_lt(#[trigger] t[j].0, p) by {
            assert(t[j] == s[j + 1]);
        }
        lemma_line_position(t, p, i - 1);
    }
}

/// The lines of a file as stored, numbered from 1.
pub open spec fn numbered(p: Seq<char>, lines: Seq<Seq<char>>) -> Seq<LineView> {
    Seq::new(lines.len(), |i: int| (p, (i + 1) as usize, clean_line_spec(lines[i])))
}

/// Whether a file's lines go into the line index.
pub open spec fn reads_contents(t: SearchType, is_file: bool, file_size: u64) -> bool {
    contents_enabled(t) && is_file && file_size < MAX_FILE_SIZE_BYTES
}

impl Search {
    pub closed spec fn search_type(&self) -> SearchType {
        self.search_type
    }

    pub closed spec fn names(&self) -> Seq<Seq<char>> {
        strings_view(self.file_names@)
    }

    pub closed spec fn contents(&self) -> Seq<LineView> {
        lines_view(self.file_contents@)
    }

    pub closed spec fn name_cache(&self) -> CacheView {
        cache_view(self.cached_file_name_results@)
    }

    pub closed spec fn content_cache(&self) -> CacheView {
        cache_view(self.cached_file_contents_results@)
    }

    /// Both indexes are in lexical order, so no name and no (path, line) pair
    /// repeats; every stored match was scored against its query.
    pub open spec fn well_formed(&self) -> bool {
        &&& sorted_texts(self.names())
        &&& sorted_lines(self.contents())
        &&& cache_scored(self.name_cache())
        &&& cache_scored(self.content_cache())
    }

    pub fn new(search_type: SearchType) -> (r: Self)
        ensures
            r.search_type() == search_type,
            r.names().len() == 0,
            r.contents().len() == 0,
            r.name_cache().len() == 0,
            r.content_cache().len() == 0,
            r.well_formed(),
    {
        let r = Search {
            search_type,
            file_names: Vec::new(),
            file_contents: Vec::new(),
            cached_file_name_results: Vec::new(),
            cached_file_contents_results: Vec::new(),
        };
        assert(r.names() =~= Seq::empty());
        r
    }

    pub fn get_search_type(&self) -> (r: SearchType)
        ensures
            r == self.search_type(),
    {
        self.search_type
    }

    /// The indexed paths, in index order.
    pub fn file_names(&self) -> (r: &Vec<String>)
        ensures
            strings_view(r@) == self.names(),
    {
        &self.file_names
    }

    /// The indexed lines, in index order.
    pub fn file_contents(&self) -> (r: &Vec<ContentLine>)
        ensures
            lines_view(r@) == self.contents(),
    {
        &self.file_contents
    }

    /// Empties both indexes before a new scan; the caches stay.
    pub fn clear_index(&mut self)
        requires
            old(self).well_formed(),
        ensures
            final(self).search_type() == old(self).search_type(),
            final(self).names().len() == 0,
            final(self).contents().len() == 0,
            final(self).name_cache() == old(self).name_cache(),
            final(self).content_cache() == old(self).content_cache(),
            final(self).well_formed(),
    {
        self.file_names = Vec::new();
        self.file_contents = Vec::new();
        assert(self.names() =~= Seq::<Seq<char>>::empty());
    }
}

/// The stored matches for `q`, copied, where the cache holds `q`.
fn find_cached(cache: &Vec<(String, Vec<SearchResult>)>, q: &String) -> (r: Option<Vec<SearchResult>>)
    ensures
        match r {
            None => lookup(cache_view(cache@), q@) is None,
            Some(v) => lookup(cache_view(cache@), q@) == Some(results_view(v@)),
        },
{
    let mut i: usize = cache.len();
    assert(cache_view(cache@).take(i as int) =~= cache_view(cache@));
    while i > 0
        invariant
            i <= cache@.len(),
            lookup(cache_view(cache@), q@) == lookup(cache_view(cache@).take(i as int), q@),
        decreases i,
    {
        let ghost c = cache_view(cache@).take(i as int);
        assert(c.drop_last() =~= cache_view(cache@).take(i - 1));
        if cache[i - 1].0 == *q {
            return Some(duplicate_results(&cache[i - 1].1));
        }
        i = i - 1;
    }
    None
}

impl Search {
    /// Adds one entry of a scan: its path relative to `root` goes into the name
    /// index and, where contents are indexed, `is_file` holds and the file is
    /// under the size limit, the `lines` that could be read replace the lines
    /// stored for that path.
    pub fn add_file_entry(&mut self, file_name: &str, root: &str, is_file: bool, file_size: u64, lines: &Vec<String>)
        requires
            old(self).well_formed(),
            lines@.len() < usize::MAX,
        ensures
            ({
                let p = strip_prefix_spec(file_name@, display_width(root@));
                &&& final(self).names() == with_name(old(self).names(), p)
                &&& final(self).contents() == if reads_contents(old(self).search_type(), is_file, file_size) {
                    with_lines(old(self).contents(), p, numbered(p, strings_view(lines@)))
                } else {
                    old(self).contents()
                }
            }),
            final(self).search_type() == old(self).search_type(),
            final(self).name_cache() == old(self).name_cache(),
            final(self).content_cache() == old(self).content_cache(),
            final(self).well_formed(),
    {
        let path = strip_file_prefix(file_name, root);
        let ghost p = path@;
        let mut i: usize = 0;
        while i < self.file_names.len() && text_less(self.file_names[i].as_str(), path.as_str())
            invariant
                i <= self.names().len(),
                self.names() == strings_view(self.file_names@),
                path@ == p,
                forall|j: int| 0 <= j < i ==> text_lt(#[trigger] self.names()[j], p),
            decreases self.names().len() - i,
        {
            i = i + 1;
        }
        let ghost names = self.names();
        let known = i < self.file_names.len() && self.file_names[i] == path;
        proof {
            if i < names.len() {
                assert(names[i as int] == self.file_names@[i as int]@);
            }
            lemma_position(names, p, i as int);
            if !known {
                assert forall|k: int| i <= k < names.len() implies text_lt(p, #[trigger] names[k]) by {
                    lemma_text_total(names[i as int], p);
                    if k > i {
                        lemma_text_transitive(p, names[i as int], names[k]);
                    }
                }
                if names.contains(p) {
                    let k = choose|k: int| 0 <= k < names.len() && names[k] == p;
                    lemma_text_total(p, p);
                    if k < i {
                        assert(text_lt(names[k], p));
                    } else {
                        assert(text_lt(p, names[k]));
                    }
                }
                lemma_sorted_insert(names, p, i as int);
            } else {
                assert(names[i as int] == p);
                assert(names.contains(p));
            }
        }
        if !known {
            self.file_names.insert(i, path.clone());
            assert(self.names() =~= names.insert(i as int, p));
        }
        if self.read_contents_of(is_file, file_size) {
            let ghost old_lines = self.contents();
            let mut kept: Vec<ContentLine> = Vec::new();
            let mut j: usize = 0;
            while j < self.file_contents.len()
                invariant
                    j <= old_lines.len(),
                    old_lines == lines_view(self.file_contents@),
                    path@ == p,
                    lines_view(kept@) == without_path(old_lines.take(j as int), p),
                decreases old_lines.len() - j,
            {
                let e = &self.file_contents[j];
                assert(old_lines.take(j + 1).drop_last() =~= old_lines.take(j as int));
                assert(old_lines.take(j + 1).last() == old_lines[j as int]);
                assert(old_lines[j as int] == (e.path@, e.line_number, e.line@));
                if !(e.path == path) {
                    let ghost prev = kept@;
                    kept.push(ContentLine { path: e.path.clone(), line_number: e.line_number, line: e.line.clone() });
                    assert(lines_view(kept@) =~= lines_view(prev).push(old_lines[j as int]));
                }
                j = j + 1;
            }
            assert(old_lines.take(j as int) =~= old_lines);
            let ghost w = lines_view(kept@);
            proof {
                lemma_without_path(old_lines, p);
            }
            let mut k: usize = 0;
            while k < kept.len() && text_less(kept[k].path.as_str(), path.as_str())
                invariant
                    k <= w.len(),
                    w == lines_view(kept@),
                    path@ == p,
                    forall|m: int| 0 <= m < k ==> text_lt(#[trigger] w[m].0, p),
                decreases w.len() - k,
            {
                k = k + 1;
            }
            proof {
                if k < w.len() {
                    assert(w[k as int].0 == kept@[k as int].path@);
                }
                lemma_line_position(w, p, k as int);
                assert forall|m: int| k <= m < w.len() implies text_lt(p, #[trigger] w[m].0) by {
                    assert(w.contains(w[k as int]));
                    assert(w.contains(w[m]));
                    lemma_text_total(w[k as int].0, p);
                    if m > k {
                        assert(key_lt(w[k as int], w[m]));
                        if text_lt(w[k as int].0, w[m].0) {
                            lemma_text_transitive(p, w[k as int].0, w[m].0);
                        }
                    }
                }
            }
            let mut tail = kept.split_off(k);
            let ghost head = lines_view(kept@);
            assert(head =~= w.take(k as int));
            assert(lines_view(tail@) =~= w.skip(k as int));
            let mut n: usize = 0;
            while n < lines.len()
                invariant
                    n <= lines@.len(),
                    lines@.len() < usize::MAX,
                    path@ == p,
                    lines_view(kept@) == head + numbered(p, strings_view(lines@).take(n as int)),
                decreases lines@.len() - n,
            {
                let text = clean_line(lines[n].as_str());
                let ghost prev = kept@;
                kept.push(ContentLine { path: path.clone(), line_number: n + 1, line: text });
                assert(strings_view(lines@)[n as int] == lines@[n as int]@);
                assert(numbered(p, strings_view(lines@).take(n + 1)) =~= numbered(p, strings_view(lines@).take(n as int)).push(
                    (p, (n + 1) as usize, clean_line_spec(lines@[n as int]@)),
                ));
                assert(lines_view(kept@) =~= lines_view(prev).push((p, (n + 1) as usize, clean_line_spec(lines@[n as int]@))));
                n = n + 1;
            }
            assert(strings_view(lines@).take(n as int) =~= strings_view(lines@));
            let ghost fresh = numbered(p, strings_view(lines@));
            let ghost tail_view = lines_view(tail@);
            kept.append(&mut tail);
            assert(lines_view(kept@) =~= head + fresh + tail_view);
            proof {
                let r = head + fresh + tail_view;
                assert forall|a: int, b: int| 0 <= a < b < r.len() implies key_lt(#[trigger] r[a], #[trigger] r[b]) by {
                    let hl = head.len() as int;
                    let fl = fresh.len() as int;
                    if b < hl {
                        assert(r[a] == w[a] && r[b] == w[b]);
                    } else if b < hl + fl {
                        if a < hl {
                            assert(r[a] == w[a]);
                            assert(r[b].0 == p);
                        }
                    } else {
                        assert(r[b] == w[b - fl]);
                        if a < hl {
                            assert(r[a] == w[a]);
                        } else if a >= hl + fl {
                            assert(r[a] == w[a - fl]);
                        }
                    }
                }
            }
            self.file_contents = kept;
        }
    }

    /// Whether a file's lines are read into the line index.
    pub fn read_contents_of(&self, is_file: bool, file_size: u64) -> (r: bool)
        ensures
            r == reads_contents(self.search_type(), is_file, file_size),
    {
        match self.search_type {
            SearchType::Names => false,
            _ => is_file && file_size < MAX_FILE_SIZE_BYTES,
        }
    }

    /// Every file name that matches `search_term`, in index order.
    fn search_file_names(&self, search_term: &str, matcher: &SkimMatcherV2) -> (r: Vec<SearchResult>)
        ensures
            results_view(r@) == name_matches(self.names(), search_term@),
            all_scored_for(results_view(r@), search_term@),
    {
        let mut matches: Vec<SearchResult> = Vec::new();
        let mut i: usize = 0;
        while i < self.file_names.len()
            invariant
                i <= self.names().len(),
                self.names() == strings_view(self.file_names@),
                results_view(matches@) == name_matches(self.names().take(i as int), search_term@),
                all_scored_for(results_view(matches@), search_term@),
            decreases self.names().len() - i,
        {
            let entry = &self.file_names[i];
            assert(self.names().take(i + 1).drop_last() =~= self.names().take(i as int));
            match fuzzy_indices(matcher, entry.as_str(), search_term) {
                Some((score, indices)) => {
                    let ghost prev = matches@;
                    matches.push(SearchResult::new_file_name(score, indices, entry.clone()));
                    assert(results_view(matches@) =~= results_view(prev).push(
                        SearchResultView::File { path: entry@, score, indices: indices@ },
                    ));
                },
                None => {},
            }
            i = i + 1;
        }
        assert(self.names().take(i as int) =~= self.names());
        matches
    }

    /// Every indexed line that matches `search_term`, in index order.
    fn search_file_contents(&self, search_term: &str, matcher: &SkimMatcherV2) -> (r: Vec<SearchResult>)
        ensures
            results_view(r@) == content_matches(self.contents(), search_term@),
            all_scored_for(results_view(r@), search_term@),
    {
        let mut matches: Vec<SearchResult> = Vec::new();
        let mut i: usize = 0;
        while i < self.file_contents.len()
            invariant
                i <= self.contents().len(),
                self.contents() == lines_view(self.file_contents@),
                results_view(matches@) == content_matches(self.contents().take(i as int), search_term@),
                all_scored_for(results_view(matches@), search_term@),
            decreases self.contents().len() - i,
        {
            let entry = &self.file_contents[i];
            assert(self.contents().take(i + 1).drop_last() =~= self.contents().take(i as int));
            match fuzzy_indices(matcher, entry.line.as_str(), search_term) {
                Some((score, indices)) => {
                    let ghost prev = matches@;
                    matches.push(SearchResult::new_file_line(
                        score,
                        indices,
                        entry.path.clone(),
                        entry.line.clone(),
                        entry.line_number,
                    ));
                    assert(results_view(matches@) =~= results_view(prev).push(
                        SearchResultView::LineInFile {
                            path: entry.path@,
                            line: entry.line@,
                            line_number: entry.line_number,
                            score,
                            indices: indices@,
                        },
                    ));
                },
                None => {},
            }
            i = i + 1;
        }
        assert(self.contents().take(i as int) =~= self.contents());
        matches
    }
}

proof fn lemma_lookup_scored(cache: CacheView, q: Seq<char>)
    requires
        cache_scored(cache),
        lookup(cache, q) is Some,
    ensures
        all_scored_for(lookup(cache, q)->Some_0, q),
    decreases cache.len(),
{
    if cache.last().0 != q {
        let c = cache.drop_last();
        assert forall|i: int| 0 <= i < c.len() implies all_scored_for(#[trigger] c[i].1, c[i].0) by {
            assert(c[i] == cache[i]);
        }
        lemma_lookup_scored(c, q);
    } else {
        assert(cache[cache.len() - 1] == cache.last());
    }
}

/// The best results of a list that was all scored against `q` were scored against `q`.
pub proof fn lemma_top_scored(s: Seq<SearchResultView>, q: Seq<char>, limit: nat)
    requires
        all_scored_for(s, q),
    ensures
        all_scored_for(top(s, limit), q),
        top(s, limit).len() <= limit,
{
    lemma_ranked_members(s);
    let r = ranked(s);
    assert forall|i: int| 0 <= i < r.len() implies scored_for(#[trigger] r[i], q) by {
        assert(r.contains(r[i]));
        let k = choose|k: int| 0 <= k < s.len() && s[k] == r[i];
    }
    let t = top(s, limit);
    assert forall|i: int| 0 <= i < t.len() implies scored_for(#[trigger] t[i], q) by {
        assert(t[i] == r[i]);
    }
}

/// Searching the same query twice, with no scan between, gives the same results
/// twice, and the second search leaves the caches as the first left them.
pub proof fn lemma_search_repeats(
    s0: Search,
    q: Seq<char>,
    s1: Search,
    o1: SearchOutput,
    s2: Search,
    o2: SearchOutput,
)
    requires
        searched(s0, q, s1, o1),
        searched(s1, q, s2, o2),
    ensures
        opt_results(o2.file_names) == opt_results(o1.file_names),
        opt_results(o2.file_contents) == opt_results(o1.file_contents),
        s2.name_cache() == s1.name_cache(),
        s2.content_cache() == s1.content_cache(),
{
    let c = s0.name_cache();
    let f = name_matches(s0.names(), q);
    if lookup(c, q) is None {
        assert(cache_after(c, q, f).drop_last() == c);
    }
    let d = s0.content_cache();
    let g = content_matches(s0.contents(), q);
    if lookup(d, q) is None {
        assert(cache_after(d, q, g).drop_last() == d);
    }
}

/// The query to search next: the current term where it differs from the one
/// just searched; none where the results of the searched term can go out.
pub fn next_search_term(searched_term: &String, current_search_term: Option<String>) -> (r: Option<String>)
    ensures
        match current_search_term {
            None => r is None,
            Some(c) => if c@ == searched_term@ {
                r is None
            } else {
                r is Some && r->Some_0@ == c@
            },
        },
{
    match current_search_term {
        None => None,
        Some(c) => {
            if c == *searched_term {
                None
            } else {
                Some(c)
            }
        },
    }
}

impl Search {
    /// Results of `search_term` over each index this search covers: the matches
    /// stored for it, or else those of the index, which are then stored; then
    /// ranked by score and cut to the limit.
    pub fn search(&mut self, search_term: String) -> (out: SearchOutput)
        requires
            old(self).well_formed(),
        ensures
            searched(*old(self), search_term@, *final(self), out),
            match out.file_names {
                Some(r) => all_scored_for(results_view(r.search_results@), search_term@)
                    && r.search_results@.len() <= SEARCH_RESULTS_LIMIT,
                None => true,
            },
            match out.file_contents {
                Some(r) => all_scored_for(results_view(r.search_results@), search_term@)
                    && r.search_results@.len() <= SEARCH_RESULTS_LIMIT,
                None => true,
            },
    {
        let ghost q = search_term@;
        let ghost s0 = *self;
        let mut file_names_search_results: Option<ResultsOfSearch> = None;
        let mut file_contents_search_results: Option<ResultsOfSearch> = None;
        if !matches!(self.search_type, SearchType::Contents) {
            let file_names_matches = match find_cached(&self.cached_file_name_results, &search_term) {
                Some(cached_results) => {
                    proof {
                        lemma_lookup_scored(s0.name_cache(), q);
                    }
                    cached_results
                },
                None => {
                    let matcher = new_matcher();
                    let results = self.search_file_names(search_term.as_str(), &matcher);
                    let stored = duplicate_results(&results);
                    let ghost before = self.cached_file_name_results@;
                    self.cached_file_name_results.push((search_term.clone(), stored));
                    assert(cache_view(self.cached_file_name_results@) =~= cache_view(before).push(
                        (q, results_view(results@)),
                    ));
                    results
                },
            };
            proof {
                lemma_top_scored(results_view(file_names_matches@), q, SEARCH_RESULTS_LIMIT as nat);
            }
            file_names_search_results = Some(
                ResultsOfSearch::new(search_term.clone(), file_names_matches).limit_search_results(
                    SEARCH_RESULTS_LIMIT,
                ),
            );
        }
        let ghost s1 = *self;
        if !matches!(self.search_type, SearchType::Names) {
            let file_contents_matches = match find_cached(&self.cached_file_contents_results, &search_term) {
                Some(cached_results) => {
                    proof {
                        lemma_lookup_scored(s1.content_cache(), q);
                    }
                    cached_results
                },
                None => {
                    let matcher = new_matcher();
                    let results = self.search_file_contents(search_term.as_str(), &matcher);
                    let stored = duplicate_results(&results);
                    let ghost before = self.cached_file_contents_results@;
                    self.cached_file_contents_results.push((search_term.clone(), stored));
                    assert(cache_view(self.cached_file_contents_results@) =~= cache_view(before).push(
                        (q, results_view(results@)),
                    ));
                    results
                },
            };
            proof {
                lemma_top_scored(results_view(file_contents_matches@), q, SEARCH_RESULTS_LIMIT as nat);
            }
            file_contents_search_results = Some(
                ResultsOfSearch::new(search_term.clone(), file_contents_matches).limit_search_results(
                    SEARCH_RESULTS_LIMIT,
                ),
            );
        }
        SearchOutput { file_names: file_names_search_results, file_contents: file_contents_search_results }
    }
}

} // verus!
