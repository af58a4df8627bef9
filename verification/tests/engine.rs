use soundscout::engine::{result_page, search_route, SearchRoute};
use soundscout::models::{SearchMode, SearchQuery};

#[test]
fn blank_text_always_searches_lexically() {
    for mode in [SearchMode::Lexical, SearchMode::Vector, SearchMode::Both] {
        let q = SearchQuery { text: "  \t".into(), search_mode: mode, ..Default::default() };
        assert_eq!(search_route(&q), SearchRoute::Lexical);
    }
}

#[test]
fn modes_map_to_routes() {
    let q = |m| SearchQuery { text: "rain".into(), search_mode: m, ..Default::default() };
    assert_eq!(search_route(&q(SearchMode::Lexical)), SearchRoute::Lexical);
    assert_eq!(search_route(&q(SearchMode::Vector)), SearchRoute::Vector);
    assert_eq!(search_route(&q(SearchMode::Both)), SearchRoute::Hybrid);
}

#[test]
fn pages_are_cut_to_the_results() {
    assert_eq!(result_page(0, 50, 120), Some((0, 50)));
    assert_eq!(result_page(100, 50, 120), Some((100, 120)));
    assert_eq!(result_page(120, 50, 120), None);
    assert_eq!(result_page(0, 0, 5), Some((0, 0)));
}
