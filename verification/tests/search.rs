//! Tests of the search-request helpers.

use index_scheduler::search::{add_search_rules, fix_sort_query_parameters, FilterValue};

#[test]
fn test_fix_sort_query_parameters() {
    let sort = fix_sort_query_parameters("_geoPoint(12, 13):asc");
    assert_eq!(sort, vec!["_geoPoint(12,13):asc".to_string()]);
    let sort = fix_sort_query_parameters("doggo:asc,_geoPoint(12.45,13.56):desc");
    assert_eq!(sort, vec!["doggo:asc".to_string(), "_geoPoint(12.45,13.56):desc".to_string(),]);
    let sort =
        fix_sort_query_parameters("doggo:asc , _geoPoint(12.45, 13.56, 2590352):desc , catto:desc");
    assert_eq!(
        sort,
        vec![
            "doggo:asc".to_string(),
            "_geoPoint(12.45,13.56,2590352):desc".to_string(),
            "catto:desc".to_string(),
        ]
    );
    let sort = fix_sort_query_parameters("doggo:asc , _geoPoint(1, 2), catto:desc");
    assert_eq!(sort, vec!["doggo:asc".to_string(), "_geoPoint(1,2),catto:desc".to_string(),]);
}

#[test]
fn fix_sort_plain_list() {
    let sort = fix_sort_query_parameters("\"price:asc, name:desc\"");
    assert_eq!(sort, vec!["price:asc".to_string(), "name:desc".to_string()]);
}

#[test]
fn merge_filters_both_sides() {
    let merged = add_search_rules(
        Some(FilterValue::Single("genre = horror".to_string())),
        Some(FilterValue::Array(vec!["tenant = 7".to_string()])),
    );
    match merged {
        Some(FilterValue::Array(clauses)) => {
            assert_eq!(clauses, vec!["genre = horror".to_string(), "tenant = 7".to_string()]);
        }
        _ => panic!("expected a merged clause array"),
    }
}

#[test]
fn merge_filters_one_side() {
    assert!(add_search_rules(None, None).is_none());
    let only_rules = add_search_rules(None, Some(FilterValue::Single("tenant = 7".to_string())));
    match only_rules {
        Some(FilterValue::Array(clauses)) => assert_eq!(clauses, vec!["tenant = 7".to_string()]),
        _ => panic!("expected the rules filter"),
    }
}
