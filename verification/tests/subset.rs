use colgrep::subset::{
    keep_allowed, planned_stages, search_limit, text_search, without_repetitions, FilterRequest,
    FilterStage, IdFilter,
};

fn nothing() -> FilterRequest {
    FilterRequest {
        subdirectory: false,
        text_pattern: false,
        included_files: false,
        single_file: false,
        excluded_files: false,
        excluded_dirs: false,
    }
}

#[test]
fn stages_are_applied_in_their_order() {
    assert!(planned_stages(&nothing()).is_empty());
    let all = FilterRequest {
        subdirectory: true,
        text_pattern: true,
        included_files: true,
        single_file: true,
        excluded_files: true,
        excluded_dirs: true,
    };
    assert_eq!(
        planned_stages(&all),
        vec![
            FilterStage::Subdirectory,
            FilterStage::TextPattern,
            FilterStage::IncludedFiles,
            FilterStage::SingleFile,
            FilterStage::ExcludedFiles,
            FilterStage::ExcludedDirs,
        ]
    );
    let some = FilterRequest {
        single_file: true,
        text_pattern: true,
        ..nothing()
    };
    assert_eq!(
        planned_stages(&some),
        vec![FilterStage::TextPattern, FilterStage::SingleFile]
    );
}

#[test]
fn what_passes_passes_every_stage() {
    let mut filter = IdFilter::new();
    assert!(!filter.is_exhausted());
    assert!(!filter.apply(FilterStage::Subdirectory, vec![4, 1, 2, 3]));
    // The order of what is found last is kept.
    assert!(!filter.apply(FilterStage::TextPattern, vec![3, 9, 1, 2]));
    assert_eq!(filter.ids, Some(vec![3, 1, 2]));
    // The order of what passed before is kept.
    assert!(!filter.apply(FilterStage::ExcludedFiles, vec![1, 2, 3, 3]));
    assert_eq!(filter.ids, Some(vec![3, 1, 2]));
    assert!(!filter.apply(FilterStage::ExcludedDirs, vec![2]));
    assert_eq!(filter.ids, Some(vec![2]));
    assert_eq!(filter.restrict(vec![5, 2, 2]), vec![2, 2]);
    assert!(!filter.apply(FilterStage::IncludedFiles, vec![]));
    assert!(filter.is_exhausted());
}

#[test]
fn an_empty_stage_may_end_a_search() {
    for stage in [
        FilterStage::Subdirectory,
        FilterStage::TextPattern,
        FilterStage::SingleFile,
    ] {
        let mut filter = IdFilter::new();
        assert!(filter.apply(stage, vec![]));
        assert!(filter.is_exhausted());
    }
    for stage in [
        FilterStage::IncludedFiles,
        FilterStage::ExcludedFiles,
        FilterStage::ExcludedDirs,
    ] {
        let mut filter = IdFilter::new();
        assert!(!filter.apply(stage, vec![]));
        assert!(filter.is_exhausted());
    }
}

#[test]
fn a_filter_without_stages_restricts_nothing() {
    let filter = IdFilter::new();
    assert_eq!(filter.restrict(vec![7, 7, 1]), vec![7, 7, 1]);
}

#[test]
fn the_text_of_the_query_is_searched_for_where_it_stands() {
    let mut filter = IdFilter::new();
    assert_eq!(text_search(false, &filter, vec![3, 1]), Some(vec![3, 1]));
    assert_eq!(text_search(true, &filter, vec![3, 1]), None);
    assert_eq!(text_search(false, &filter, vec![]), None);
    filter.apply(FilterStage::Subdirectory, vec![1, 2]);
    assert_eq!(text_search(false, &filter, vec![3, 1]), Some(vec![1]));
    assert_eq!(text_search(false, &filter, vec![3]), None);
}

#[test]
fn what_is_spared_first_is_spared_once() {
    let mut filter = IdFilter::new();
    assert!(!filter.apply(FilterStage::ExcludedDirs, vec![5, 5, 1]));
    assert_eq!(filter.ids, Some(vec![5, 1]));
    assert_eq!(without_repetitions(&vec![2, 1, 2, 3, 1]), vec![2, 1, 3]);
    assert_eq!(keep_allowed(&vec![2, 1, 2], &vec![2, 8]), vec![2, 2]);
}

#[test]
fn more_results_are_asked_for_than_are_shown() {
    assert_eq!(search_limit(15, false), 45);
    assert_eq!(search_limit(15, true), 60);
    assert_eq!(search_limit(0, true), 0);
}
