use fuzzy_matcher::skim::SkimMatcherV2;
use fuzzy_matcher::FuzzyMatcher;
use strider::order::text_less;
use strider::search::{next_search_term, Search, SearchType, MAX_FILE_SIZE_BYTES};
use strider::search_results::{ResultsOfSearch, SearchResult};
use strider::text::{clean_line, strip_file_prefix, strip_prefix_width};
use strider::worker::{FileContentsWorker, FileNameWorker};

fn lines(v: &[&str]) -> Vec<String> {
    v.iter().map(|s| s.to_string()).collect()
}

fn names_of(s: &Search) -> Vec<String> {
    s.file_names().clone()
}

fn content_of(s: &Search) -> Vec<(String, usize, String)> {
    s.file_contents()
        .iter()
        .map(|l| (l.path.clone(), l.line_number, l.line.clone()))
        .collect()
}

fn score_and_indices(r: &SearchResult) -> (i64, Vec<usize>) {
    match r {
        SearchResult::File { score, indices, .. } => (*score, indices.clone()),
        SearchResult::LineInFile { score, indices, .. } => (*score, indices.clone()),
    }
}

fn text_of(r: &SearchResult) -> String {
    match r {
        SearchResult::File { path, .. } => path.clone(),
        SearchResult::LineInFile { line, .. } => line.clone(),
    }
}

fn two_file_tree(search_type: SearchType) -> Search {
    let mut s = Search::new(search_type);
    s.add_file_entry("/root", "/root", false, 0, &vec![]);
    s.add_file_entry("/root/bar.txt", "/root", true, 11, &lines(&["hello there"]));
    s.add_file_entry("/root/foo.txt", "/root", true, 20, &lines(&["hello world", "goodbye"]));
    s
}

#[test]
fn name_index_strips_root_and_separator() {
    let mut s = Search::new(SearchType::Names);
    s.add_file_entry("/a/b/c/d.txt", "/a/b", true, 10, &lines(&["x"]));
    assert_eq!(names_of(&s), vec!["c/d.txt".to_string()]);
    assert!(content_of(&s).is_empty());
}

#[test]
fn strip_prefix_by_display_width() {
    assert_eq!(strip_file_prefix("/a/b/c/d.txt", "/a/b"), "c/d.txt");
    assert_eq!(strip_file_prefix("/a/b", "/a/b"), "");
    // two wide characters take four columns
    assert_eq!(strip_file_prefix("/\u{65e5}\u{672c}/x/y", "/\u{65e5}\u{672c}"), "y");
    assert_eq!(strip_prefix_width("abc", 10), "");
    assert_eq!(strip_prefix_width("ab/cd", 2), "cd");
    assert_eq!(strip_prefix_width("ab//cd", 2), "/cd");
}

#[test]
fn clean_line_removes_escapes() {
    assert_eq!(clean_line("\u{1b}[31mred\u{1b}[0m text"), "red text");
    assert_eq!(clean_line("plain"), "plain");
    assert_eq!(clean_line(""), "");
}

#[test]
fn content_search_finds_one_line_per_file() {
    let mut s = two_file_tree(SearchType::Contents);
    let out = s.search("hello".to_string());
    assert!(out.file_names.is_none());
    let r = out.file_contents.unwrap();
    assert_eq!(r.search_term, "hello");
    assert_eq!(r.search_results.len(), 2);
    let mut found: Vec<(String, usize, String)> = r
        .search_results
        .iter()
        .map(|x| match x {
            SearchResult::LineInFile { path, line_number, line, .. } => (path.clone(), *line_number, line.clone()),
            SearchResult::File { .. } => panic!("a line search gave a file result"),
        })
        .collect();
    let scores: Vec<i64> = r.search_results.iter().map(|x| x.score()).collect();
    assert!(scores[0] >= scores[1]);
    found.sort();
    assert_eq!(
        found,
        vec![
            ("bar.txt".to_string(), 1, "hello there".to_string()),
            ("foo.txt".to_string(), 1, "hello world".to_string()),
        ]
    );
}

#[test]
fn content_index_numbers_lines_from_one() {
    let s = two_file_tree(SearchType::NamesAndContents);
    assert_eq!(names_of(&s), vec!["".to_string(), "bar.txt".to_string(), "foo.txt".to_string()]);
    assert_eq!(
        content_of(&s),
        vec![
            ("bar.txt".to_string(), 1, "hello there".to_string()),
            ("foo.txt".to_string(), 1, "hello world".to_string()),
            ("foo.txt".to_string(), 2, "goodbye".to_string()),
        ]
    );
}

#[test]
fn large_file_keeps_name_but_no_lines() {
    let mut s = Search::new(SearchType::NamesAndContents);
    s.add_file_entry("/r/big.bin", "/r", true, MAX_FILE_SIZE_BYTES, &lines(&["big"]));
    s.add_file_entry("/r/small.txt", "/r", true, MAX_FILE_SIZE_BYTES - 1, &lines(&["small"]));
    assert_eq!(names_of(&s), vec!["big.bin".to_string(), "small.txt".to_string()]);
    assert_eq!(content_of(&s), vec![("small.txt".to_string(), 1, "small".to_string())]);
    assert!(!s.read_contents_of(true, MAX_FILE_SIZE_BYTES));
    assert!(s.read_contents_of(true, 999_999));
    assert!(!s.read_contents_of(false, 10));
    let names_only = Search::new(SearchType::Names);
    assert!(!names_only.read_contents_of(true, 10));
}

#[test]
fn re_adding_a_file_replaces_its_lines() {
    let mut s = Search::new(SearchType::Contents);
    s.add_file_entry("/r/a", "/r", true, 5, &lines(&["one", "two", "three"]));
    s.add_file_entry("/r/b", "/r", true, 5, &lines(&["bee"]));
    s.add_file_entry("/r/a", "/r", true, 5, &lines(&["uno"]));
    assert_eq!(names_of(&s), vec!["a".to_string(), "b".to_string()]);
    assert_eq!(
        content_of(&s),
        vec![("a".to_string(), 1, "uno".to_string()), ("b".to_string(), 1, "bee".to_string())]
    );
}

#[test]
fn clear_index_empties_both_indexes() {
    let mut s = two_file_tree(SearchType::NamesAndContents);
    s.clear_index();
    assert!(names_of(&s).is_empty());
    assert!(content_of(&s).is_empty());
}

#[test]
fn empty_tree_gives_empty_results() {
    let mut s = Search::new(SearchType::NamesAndContents);
    s.clear_index();
    for term in ["", "a", "hello"] {
        let out = s.search(term.to_string());
        assert_eq!(out.file_names.unwrap().search_results.len(), 0);
        assert_eq!(out.file_contents.unwrap().search_results.len(), 0);
    }
}

#[test]
fn repeated_search_is_identical() {
    let mut s = two_file_tree(SearchType::NamesAndContents);
    let first = s.search("o".to_string());
    let second = s.search("o".to_string());
    let a: Vec<(String, i64, Vec<usize>)> = first
        .file_contents
        .unwrap()
        .search_results
        .iter()
        .map(|r| (text_of(r), score_and_indices(r).0, score_and_indices(r).1))
        .collect();
    let b: Vec<(String, i64, Vec<usize>)> = second
        .file_contents
        .unwrap()
        .search_results
        .iter()
        .map(|r| (text_of(r), score_and_indices(r).0, score_and_indices(r).1))
        .collect();
    assert_eq!(a, b);
    assert_eq!(a.len(), 3);
}

#[test]
fn results_are_scored_against_their_own_query() {
    let mut s = two_file_tree(SearchType::NamesAndContents);
    let matcher = SkimMatcherV2::default();
    for term in ["he", "good", "txt", "zz"] {
        let out = s.search(term.to_string());
        for r in out.file_names.unwrap().search_results.iter().chain(out.file_contents.unwrap().search_results.iter()) {
            let text = text_of(r);
            let expected = matcher.fuzzy_indices(&text, term).unwrap();
            assert_eq!(score_and_indices(r), expected);
        }
    }
    let out = s.search("zz".to_string());
    assert!(out.file_names.unwrap().search_results.is_empty());
}

#[test]
fn match_positions_rise_and_stay_in_range() {
    let mut s = two_file_tree(SearchType::NamesAndContents);
    let out = s.search("hlo".to_string());
    let all: Vec<SearchResult> = out.file_contents.unwrap().search_results;
    assert!(!all.is_empty());
    for r in &all {
        let (_, ix) = score_and_indices(r);
        let n = text_of(r).chars().count();
        for w in ix.windows(2) {
            assert!(w[0] < w[1]);
        }
        for i in ix {
            assert!(i < n);
        }
    }
}

#[test]
fn results_are_capped_at_one_hundred() {
    let mut s = Search::new(SearchType::Names);
    for i in 0..150 {
        let name = format!("/r/file{}.txt", i);
        s.add_file_entry(&name, "/r", true, 1, &vec![]);
    }
    let out = s.search("file".to_string());
    let r = out.file_names.unwrap();
    assert_eq!(r.search_results.len(), 100);
}

#[test]
fn stale_term_is_searched_again() {
    let mut s = two_file_tree(SearchType::Names);
    let term = "ab".to_string();
    let _discarded = s.search(term.clone());
    let next = next_search_term(&term, Some("abc".to_string()));
    assert_eq!(next, Some("abc".to_string()));
    let term = next.unwrap();
    let out = s.search(term.clone());
    assert_eq!(next_search_term(&term, Some("abc".to_string())), None);
    assert_eq!(out.file_names.unwrap().search_term, "abc");
    assert_eq!(next_search_term(&term, None), None);
}

#[test]
fn ranking_is_stable_and_descending() {
    let results = vec![
        SearchResult::new_file_name(5, vec![0], "a".to_string()),
        SearchResult::new_file_name(9, vec![0], "b".to_string()),
        SearchResult::new_file_name(5, vec![0], "c".to_string()),
        SearchResult::new_file_line(7, vec![1], "d".to_string(), "xy".to_string(), 3),
    ];
    let r = ResultsOfSearch::new("q".to_string(), results).limit_search_results(3);
    assert_eq!(r.search_term, "q");
    let order: Vec<String> = r
        .search_results
        .iter()
        .map(|x| match x {
            SearchResult::File { path, .. } => path.clone(),
            SearchResult::LineInFile { path, .. } => path.clone(),
        })
        .collect();
    assert_eq!(order, vec!["b".to_string(), "d".to_string(), "a".to_string()]);
    let empty = ResultsOfSearch::new("q".to_string(), vec![]).limit_search_results(100);
    assert!(empty.search_results.is_empty());
}

#[test]
fn duplicate_keeps_every_field() {
    let r = SearchResult::new_file_line(4, vec![1, 2], "p".to_string(), "line".to_string(), 8);
    match r.duplicate() {
        SearchResult::LineInFile { path, line, line_number, score, indices } => {
            assert_eq!((path.as_str(), line.as_str(), line_number, score, indices), ("p", "line", 8, 4, vec![1, 2]));
        }
        SearchResult::File { .. } => panic!("variant changed"),
    }
}

#[test]
fn workers_start_empty_with_their_kind() {
    let n = FileNameWorker::default();
    assert_eq!(n.search.get_search_type(), SearchType::Names);
    assert!(n.search.file_names().is_empty());
    let c = FileContentsWorker::default();
    assert_eq!(c.search.get_search_type(), SearchType::Contents);
    assert!(c.search.file_contents().is_empty());
}

#[test]
fn indexes_keep_lexical_order() {
    let mut s = Search::new(SearchType::NamesAndContents);
    s.add_file_entry("/r/zeta", "/r", true, 3, &lines(&["z1", "z2"]));
    s.add_file_entry("/r/alpha", "/r", true, 3, &lines(&["a1"]));
    s.add_file_entry("/r/Beta", "/r", true, 3, &lines(&["b1"]));
    s.add_file_entry("/r/alpha", "/r", true, 3, &lines(&["a1", "a2"]));
    assert_eq!(names_of(&s), vec!["Beta".to_string(), "alpha".to_string(), "zeta".to_string()]);
    assert_eq!(
        content_of(&s),
        vec![
            ("Beta".to_string(), 1, "b1".to_string()),
            ("alpha".to_string(), 1, "a1".to_string()),
            ("alpha".to_string(), 2, "a2".to_string()),
            ("zeta".to_string(), 1, "z1".to_string()),
            ("zeta".to_string(), 2, "z2".to_string()),
        ]
    );
}

#[test]
fn text_order_follows_bytes() {
    assert!(text_less("a", "b"));
    assert!(!text_less("b", "a"));
    assert!(text_less("ab", "abc"));
    assert!(!text_less("abc", "abc"));
    assert!(text_less("Z", "a"));
    assert!(text_less("z", "\u{e9}"));
    assert!(!text_less("", ""));
    assert!(text_less("", "a"));
}
