use colgrep::matcher::CodeUnit;
use colgrep::parts::FilePath;
use colgrep::ranking::{
    combine_hits, line_number_width, merge_hits, rank_hits, select_hits, split_by_kind, top_hits, unique_files,
    SearchHit,
};

fn hit(id: usize, file: &str, line: usize, rank: i64) -> SearchHit {
    SearchHit {
        unit: CodeUnit {
            file: FilePath::new(file),
            line,
            end_line: line + 5,
            code: String::new(),
            text_format: file.ends_with(".md"),
        },
        rank,
        id,
    }
}

fn ids(hits: &[SearchHit]) -> Vec<usize> {
    hits.iter().map(|h| h.id).collect()
}

fn sample() -> Vec<SearchHit> {
    vec![
        hit(0, "/a.rs", 1, 10),
        hit(1, "/b.md", 1, 30),
        hit(2, "/a.rs", 9, 20),
        hit(3, "/c.rs", 1, 30),
        hit(4, "/d.rs", 1, -1),
    ]
}

#[test]
fn better_hits_come_first_and_equal_ones_keep_their_order() {
    let ranked = rank_hits(sample());
    assert_eq!(ids(&ranked), vec![1, 3, 2, 0, 4]);
    assert_eq!(ids(&rank_hits(ranked)), vec![1, 3, 2, 0, 4]);
    assert!(rank_hits(Vec::new()).is_empty());
}

#[test]
fn the_first_of_those_that_may_be_shown_are_selected() {
    assert_eq!(ids(&select_hits(rank_hits(sample()), false, 3)), vec![1, 3, 2]);
    assert_eq!(ids(&select_hits(rank_hits(sample()), true, 3)), vec![3, 2, 0]);
    assert_eq!(ids(&select_hits(rank_hits(sample()), true, 9)), vec![3, 2, 0, 4]);
    assert!(select_hits(sample(), false, 0).is_empty());
    assert_eq!(ids(&select_hits(sample(), true, 2)), vec![0, 2]);
    assert_eq!(ids(&top_hits(sample(), true, 2)), vec![3, 2]);
}

#[test]
fn each_unit_is_found_once_with_its_best_rank() {
    let semantic = vec![hit(0, "/a.rs", 1, 10), hit(1, "/b.rs", 1, 5)];
    let hybrid = vec![
        hit(2, "/a.rs", 1, 11),
        hit(3, "/b.rs", 1, 5),
        hit(4, "/b.rs", 2, 1),
        hit(5, "//a.rs", 7, 1),
    ];
    let mut found = ids(&merge_hits(semantic, hybrid));
    found.sort();
    assert_eq!(found, vec![1, 2, 4, 5]);
    let merged = merge_hits(vec![hit(0, "a/./b", 1, 1)], vec![hit(1, "a//b", 1, 2)]);
    assert_eq!(ids(&merged), vec![1]);
}

#[test]
fn with_a_pattern_nothing_is_merged() {
    let twice = || vec![hit(0, "/a.rs", 1, 10), hit(1, "/a.rs", 1, 11)];
    assert_eq!(ids(&combine_hits(true, twice(), vec![hit(2, "/b.rs", 1, 1)])), vec![0, 1]);
    assert_eq!(ids(&combine_hits(false, twice(), Vec::new())), vec![1]);
}

#[test]
fn files_are_listed_once() {
    assert_eq!(
        unique_files(&sample()),
        vec!["/a.rs", "/b.md", "/c.rs", "/d.rs"]
    );
    assert!(unique_files(&Vec::new()).is_empty());
}

#[test]
fn code_and_documents_are_parted() {
    let (code, documents) = split_by_kind(sample());
    assert_eq!(ids(&code), vec![0, 2, 3, 4]);
    assert_eq!(ids(&documents), vec![1]);
}

#[test]
fn line_numbers_take_four_columns_or_more() {
    assert_eq!(line_number_width(&Vec::new()), 4);
    assert_eq!(line_number_width(&sample()), 4);
    assert_eq!(line_number_width(&vec![hit(0, "/a.rs", 9994, 1)]), 4);
    assert_eq!(line_number_width(&vec![hit(0, "/a.rs", 9995, 1), hit(1, "/a.rs", 3, 1)]), 5);
    assert_eq!(line_number_width(&vec![hit(0, "/a.rs", 123456, 1)]), 6);
}
