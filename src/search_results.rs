//! Scored matches and their ranking.

use vstd::prelude::*;

verus! {

/// A match of a query, with the positions of the matched characters.
pub enum SearchResult {
    File { path: String, score: i64, indices: Vec<usize> },
    LineInFile { path: String, line: String, line_number: usize, score: i64, indices: Vec<usize> },
}

/// What a `SearchResult` holds, as mathematical values.
pub ghost enum SearchResultView {
    File { path: Seq<char>, score: i64, indices: Seq<usize> },
    LineInFile { path: Seq<char>, line: Seq<char>, line_number: usize, score: i64, indices: Seq<usize> },
}

impl SearchResultView {
    pub open spec fn score(self) -> i64 {
        match self {
            SearchResultView::File { score, .. } => score,
            SearchResultView::LineInFile { score, .. } => score,
        }
    }

    pub open spec fn indices(self) -> Seq<usize> {
        match self {
            SearchResultView::File { indices, .. } => indices,
            SearchResultView::LineInFile { indices, .. } => indices,
        }
    }

    /// The text that was matched: the path of a file, or the text of a line.
    pub open spec fn text(self) -> Seq<char> {
        match self {
            SearchResultView::File { path, .. } => path,
            SearchResultView::LineInFile { line, .. } => line,
        }
    }
}

impl View for SearchResult {
    type V = SearchResultView;

    open spec fn view(&self) -> SearchResultView {
        match self {
            SearchResult::File { path, score, indices } => SearchResultView::File {
                path: path@,
                score: *score,
                indices: indices@,
            },
            SearchResult::LineInFile { path, line, line_number, score, indices } =>
                SearchResultView::LineInFile {
                    path: path@,
                    line: line@,
                    line_number: *line_number,
                    score: *score,
                    indices: indices@,
                },
        }
    }
}

pub open spec fn results_view(v: Seq<SearchResult>) -> Seq<SearchResultView> {
    v.map_values(|r: SearchResult| r@)
}

/// Positions are strictly increasing and each names a character of `text`.
pub open spec fn valid_positions(indices: Seq<usize>, text: Seq<char>) -> bool {
    &&& forall|i: int, j: int| 0 <= i < j < indices.len() ==> indices[i] < indices[j]
    &&& forall|i: int| 0 <= i < indices.len() ==> #[trigger] indices[i] < text.len()
}

/// `x` placed after every leading element that scores at least as high.
pub open spec fn insert_ranked(s: Seq<SearchResultView>, x: SearchResultView) -> Seq<SearchResultView>
    decreases s.len(),
{
    if s.len() == 0 {
        seq![x]
    } else if s[0].score() >= x.score() {
        seq![s[0]] + insert_ranked(s.drop_first(), x)
    } else {
        seq![x] + s
    }
}

/// Stable sort by descending score.
pub open spec fn ranked(s: Seq<SearchResultView>) -> Seq<SearchResultView>
    decreases s.len(),
{
    if s.len() == 0 {
        s
    } else {
        insert_ranked(ranked(s.drop_last()), s.last())
    }
}

/// The best `limit` results, best first.
pub open spec fn top(s: Seq<SearchResultView>, limit: nat) -> Seq<SearchResultView> {
    let r = ranked(s);
    if r.len() > limit {
        r.take(limit as int)
    } else {
        r
    }
}

proof fn lemma_insert_at(s: Seq<SearchResultView>, x: SearchResultView, p: int)
    requires
        0 <= p <= s.len(),
        forall|j: int| 0 <= j < p ==> s[j].score() >= x.score(),
        p < s.len() ==> s[p].score() < x.score(),
    ensures
        insert_ranked(s, x) == s.insert(p, x),
    decreases s.len(),
{
    if s.len() == 0 {
        assert(s.insert(p, x) =~= seq![x]);
    } else if p == 0 {
        assert(s.insert(p, x) =~= seq![x] + s);
    } else {
        let t = s.drop_first();
        lemma_insert_at(t, x, p - 1);
        assert(s.insert(p, x) =~= seq![s[0]] + t.insert(p - 1, x));
    }
}

proof fn lemma_insert_members(s: Seq<SearchResultView>, x: SearchResultView)
    ensures
        insert_ranked(s, x).len() == s.len() + 1,
        forall|y: SearchResultView| #[trigger] insert_ranked(s, x).contains(y) ==> y == x || s.contains(y),
    decreases s.len(),
{
    if s.len() > 0 && s[0].score() >= x.score() {
        let t = s.drop_first();
        lemma_insert_members(t, x);
        assert forall|y: SearchResultView| #[trigger] insert_ranked(s, x).contains(y) implies y == x
            || s.contains(y) by {
            let k = choose|k: int| 0 <= k < insert_ranked(s, x).len() && insert_ranked(s, x)[k] == y;
            if k > 0 {
                assert(insert_ranked(t, x)[k - 1] == y);
                assert(insert_ranked(t, x).contains(y));
                if y != x {
                    let m = choose|m: int| 0 <= m < t.len() && t[m] == y;
                    assert(s[m + 1] == y);
                }
            } else {
                assert(s[0] == y);
            }
        }
    } else if s.len() > 0 {
        assert forall|y: SearchResultView| #[trigger] insert_ranked(s, x).contains(y) implies y == x
            || s.contains(y) by {
            let k = choose|k: int| 0 <= k < insert_ranked(s, x).len() && insert_ranked(s, x)[k] == y;
            if k > 0 {
                assert(s[k - 1] == y);
            }
        }
    } else {
        assert forall|y: SearchResultView| #[trigger] insert_ranked(s, x).contains(y) implies y == x
            || s.contains(y) by {
            assert(insert_ranked(s, x)[0] == x);
        }
    }
}

/// Ranking neither adds nor drops results.
pub proof fn lemma_ranked_members(s: Seq<SearchResultView>)
    ensures
        ranked(s).len() == s.len(),
        forall|y: SearchResultView| #[trigger] ranked(s).contains(y) ==> s.contains(y),
    decreases s.len(),
{
    if s.len() > 0 {
        let t = s.drop_last();
        lemma_ranked_members(t);
        lemma_insert_members(ranked(t), s.last());
        assert forall|y: SearchResultView| #[trigger] ranked(s).contains(y) implies s.contains(y) by {
            if y != s.last() {
                assert(ranked(t).contains(y));
                let m = choose|m: int| 0 <= m < t.len() && t[m] == y;
                assert(s[m] == y);
            } else {
                assert(s[s.len() - 1] == y);
            }
        }
    }
}

/// A copy of `v` that holds the same values.
fn copy_indices(v: &Vec<usize>) -> (r: Vec<usize>)
    ensures
        r@ == v@,
{
    let mut r: Vec<usize> = Vec::new();
    let mut i: usize = 0;
    while i < v.len()
        invariant
            i <= v@.len(),
            r@ == v@.take(i as int),
        decreases v@.len() - i,
    {
        r.push(v[i]);
        i = i + 1;
        assert(r@ =~= v@.take(i as int));
    }
    assert(v@.take(i as int) =~= v@);
    r
}

impl SearchResult {
    pub fn new_file_name(score: i64, indices: Vec<usize>, path: String) -> (r: Self)
        ensures
            r@ == (SearchResultView::File { path: path@, score, indices: indices@ }),
    {
        SearchResult::File { path, score, indices }
    }

    pub fn new_file_line(
        score: i64,
        indices: Vec<usize>,
        path: String,
        line: String,
        line_number: usize,
    ) -> (r: Self)
        ensures
            r@ == (SearchResultView::LineInFile { path: path@, line: line@, line_number, score, indices: indices@ }),
    {
        SearchResult::LineInFile { path, line, line_number, score, indices }
    }

    pub fn score(&self) -> (r: i64)
        ensures
            r == self@.score(),
    {
        match self {
            SearchResult::File { score, .. } => *score,
            SearchResult::LineInFile { score, .. } => *score,
        }
    }

    /// A copy that holds the same values.
    pub fn duplicate(&self) -> (r: Self)
        ensures
            r@ == self@,
    {
        match self {
            SearchResult::File { path, score, indices } => SearchResult::File {
                path: path.clone(),
                score: *score,
                indices: copy_indices(indices),
            },
            SearchResult::LineInFile { path, line, line_number, score, indices } =>
                SearchResult::LineInFile {
                    path: path.clone(),
                    line: line.clone(),
                    line_number: *line_number,
                    score: *score,
                    indices: copy_indices(indices),
                },
        }
    }
}

/// A copy of a list of results that holds the same values.
pub fn duplicate_results(v: &Vec<SearchResult>) -> (r: Vec<SearchResult>)
    ensures
        results_view(r@) == results_view(v@),
{
    let mut r: Vec<SearchResult> = Vec::new();
    let mut i: usize = 0;
    while i < v.len()
        invariant
            i <= v@.len(),
            results_view(r@) =~= results_view(v@.take(i as int)),
        decreases v@.len() - i,
    {
        let d = v[i].duplicate();
        let ghost prev = r@;
        r.push(d);
        assert(results_view(r@) =~= results_view(prev).push(v@[i as int]@));
        i = i + 1;
        assert(results_view(r@) =~= results_view(v@.take(i as int)));
    }
    assert(v@.take(i as int) =~= v@);
    r
}

/// The results of one query, best first once limited.
pub struct ResultsOfSearch {
    pub search_term: String,
    pub search_results: Vec<SearchResult>,
}

impl ResultsOfSearch {
    pub fn new(search_term: String, search_results: Vec<SearchResult>) -> (r: Self)
        ensures
            r.search_term@ == search_term@,
            results_view(r.search_results@) == results_view(search_results@),
    {
        ResultsOfSearch { search_term, search_results }
    }

    /// Sorts by descending score, keeping the order of equal scores, and keeps
    /// the first `max_results`.
    pub fn limit_search_results(self, max_results: usize) -> (r: Self)
        ensures
            r.search_term@ == self.search_term@,
            results_view(r.search_results@) == top(results_view(self.search_results@), max_results as nat),
            r.search_results@.len() <= max_results,
    {
        let ghost input = results_view(self.search_results@);
        let ResultsOfSearch { search_term, search_results } = self;
        let mut sorted: Vec<SearchResult> = Vec::new();
        let mut source = search_results;
        let mut i: usize = 0;
        let n = source.len();
        // Take items off the front by reversing once, then popping.
        let mut rev: Vec<SearchResult> = Vec::new();
        while source.len() > 0
            invariant
                source@.len() + rev@.len() == n,
                n == input.len(),
                forall|k: int| 0 <= k < source@.len() ==> #[trigger] source@[k]@ == input[k],
                forall|k: int| 0 <= k < rev@.len() ==> #[trigger] rev@[k]@ == input[n - 1 - k],
            decreases source@.len(),
        {
            let x = source.pop().unwrap();
            rev.push(x);
        }
        while i < n
            invariant
                i <= n,
                n == input.len(),
                rev@.len() == n - i,
                forall|k: int| 0 <= k < rev@.len() ==> #[trigger] rev@[k]@ == input[n - 1 - k],
                results_view(sorted@) == ranked(input.take(i as int)),
            decreases n - i,
        {
            let x = rev.pop().unwrap();
            let ghost xv = x@;
            assert(xv == input[i as int]);
            let ghost before = results_view(sorted@);
            let xs = x.score();
            let mut p: usize = 0;
            while p < sorted.len() && sorted[p].score() >= xs
                invariant
                    p <= sorted@.len(),
                    before == results_view(sorted@),
                    xs == xv.score(),
                    forall|j: int| 0 <= j < p ==> #[trigger] before[j].score() >= xv.score(),
                decreases sorted@.len() - p,
            {
                p = p + 1;
            }
            proof {
                lemma_insert_at(before, xv, p as int);
                assert(input.take(i + 1).drop_last() =~= input.take(i as int));
            }
            sorted.insert(p, x);
            i = i + 1;
            assert(results_view(sorted@) =~= before.insert((p as int), xv));
        }
        assert(input.take(n as int) =~= input);
        proof {
            lemma_ranked_members(input);
        }
        if sorted.len() > max_results {
            sorted.truncate(max_results);
            assert(results_view(sorted@) =~= ranked(input).take(max_results as int));
        }
        ResultsOfSearch { search_term, search_results: sorted }
    }
}

} // verus!
