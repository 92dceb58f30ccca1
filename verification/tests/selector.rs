use gitgre::ranking::rerank;
use gitgre::scorer::str_chars;
use gitgre::scorer::wagner_fischer;
use gitgre::session::App;
use gitgre::session::InputEvent;

fn chars(s: &str) -> Vec<char> {
    str_chars(s)
}

fn pool() -> Vec<String> {
    vec!["main".to_string(), "develop".to_string(), "feature/login".to_string()]
}

fn app_with(query: Option<&str>) -> App {
    App::new(pool(), query.map(|q| q.to_string()), "main".to_string())
}

#[test]
fn score_of_string_against_itself_is_zero() {
    assert_eq!(wagner_fischer(&chars("main"), &chars("main")), 0);
    assert_eq!(wagner_fischer(&chars("a"), &chars("a")), 0);
    assert_eq!(wagner_fischer(&chars("feature/login"), &chars("feature/login")), 0);
}

#[test]
fn empty_query_scores_every_candidate_identically() {
    assert_eq!(wagner_fischer(&chars(""), &chars("main")), 0);
    assert_eq!(wagner_fischer(&chars(""), &chars("develop")), 0);
    assert_eq!(wagner_fischer(&chars(""), &chars("")), 0);
}

#[test]
fn score_exact_values() {
    // distance 4 over length 7, scaled and rounded: (4000 + 3) / 7 == 571
    assert_eq!(wagner_fischer(&chars("dev"), &chars("develop")), 571);
    // distance 4 over length 4: exactly 1000
    assert_eq!(wagner_fischer(&chars("dev"), &chars("main")), 1000);
    // distance 12 over length 13: (12000 + 6) / 13 == 923
    assert_eq!(wagner_fischer(&chars("dev"), &chars("feature/login")), 923);
    // empty candidate: raw distance is the query length, normalized by 1
    assert_eq!(wagner_fischer(&chars("ab"), &chars("")), 2000);
}

#[test]
fn rerank_with_empty_query_keeps_original_order() {
    let ranked = rerank(&pool(), &chars(""));
    assert_eq!(ranked, pool());
}

#[test]
fn rerank_is_a_permutation_of_the_pool() {
    let ranked = rerank(&pool(), &chars("dev"));
    let mut got = ranked.clone();
    let mut want = pool();
    got.sort();
    want.sort();
    assert_eq!(got, want);
}

#[test]
fn rerank_keeps_tied_candidates_in_pool_order() {
    // "aa" and "ab" both score 500 against the query "a"
    assert_eq!(wagner_fischer(&chars("a"), &chars("aa")), 500);
    assert_eq!(wagner_fischer(&chars("a"), &chars("ab")), 500);
    let tied = vec!["aa".to_string(), "ab".to_string()];
    let ranked = rerank(&tied, &chars("a"));
    assert_eq!(ranked, tied);
}

#[test]
fn rerank_is_reproducible() {
    let first = rerank(&pool(), &chars("dev"));
    let second = rerank(&pool(), &chars("dev"));
    assert_eq!(first, second);
}

#[test]
fn scenario_empty_query_view_and_cursor() {
    let app = app_with(None);
    assert_eq!(app.view_branches(), &pool());
    assert_eq!(app.cursor(), 0);
    assert!(!app.is_terminated());
}

#[test]
fn scenario_typing_dev_ranks_develop_first() {
    let mut app = app_with(None);
    app.handle_key_event(InputEvent::Char('d'));
    app.handle_key_event(InputEvent::Char('e'));
    app.handle_key_event(InputEvent::Char('v'));
    assert_eq!(app.query_chars(), &chars("dev"));
    assert_eq!(app.view_branches()[0], "develop".to_string());
    assert_eq!(app.cursor(), 0);
}

#[test]
fn scenario_cursor_down_walks_and_wraps() {
    let mut app = app_with(Some("dev"));
    assert_eq!(app.cursor(), 0);
    app.handle_key_event(InputEvent::CursorDown);
    assert_eq!(app.cursor(), 1);
    app.handle_key_event(InputEvent::CursorDown);
    assert_eq!(app.cursor(), 2);
    app.handle_key_event(InputEvent::CursorDown);
    assert_eq!(app.cursor(), 0);
}

#[test]
fn n_moves_down_return_to_top_and_so_do_n_moves_up() {
    let mut app = app_with(None);
    for _ in 0..3 {
        app.handle_key_event(InputEvent::CursorDown);
    }
    assert_eq!(app.cursor(), 0);
    for _ in 0..3 {
        app.handle_key_event(InputEvent::CursorUp);
    }
    assert_eq!(app.cursor(), 0);
}

#[test]
fn cursor_up_wraps_to_bottom() {
    let mut app = app_with(None);
    app.handle_key_event(InputEvent::CursorUp);
    assert_eq!(app.cursor(), 2);
    app.handle_key_event(InputEvent::CursorUp);
    assert_eq!(app.cursor(), 1);
}

#[test]
fn any_query_mutation_resets_the_cursor() {
    let mut app = app_with(None);
    app.handle_key_event(InputEvent::CursorDown);
    assert_eq!(app.cursor(), 1);
    app.handle_key_event(InputEvent::Char('d'));
    assert_eq!(app.cursor(), 0);
    app.handle_key_event(InputEvent::CursorDown);
    assert_eq!(app.cursor(), 1);
    app.handle_key_event(InputEvent::DeleteChar);
    assert_eq!(app.cursor(), 0);
    // deleting from an empty query still resets
    app.handle_key_event(InputEvent::CursorDown);
    assert_eq!(app.cursor(), 1);
    app.handle_key_event(InputEvent::DeleteChar);
    assert_eq!(app.cursor(), 0);
    assert_eq!(app.query_chars(), &chars(""));
}

#[test]
fn scenario_type_then_delete_restores_original_view() {
    let mut app = app_with(None);
    app.handle_key_event(InputEvent::Char('x'));
    app.handle_key_event(InputEvent::DeleteChar);
    assert_eq!(app.query_chars(), &chars(""));
    assert_eq!(app.view_branches(), &pool());
    assert_eq!(app.cursor(), 0);
}

#[test]
fn scenario_cancel_yields_no_selection() {
    let mut app = app_with(Some("dev"));
    app.handle_key_event(InputEvent::CursorDown);
    app.handle_key_event(InputEvent::Cancel);
    assert!(app.is_terminated());
    let result = app.session_result();
    assert!(!result.confirmed);
    assert_eq!(result.candidate, None);
}

#[test]
fn scenario_confirm_selects_candidate_under_cursor() {
    let mut app = app_with(None);
    app.handle_key_event(InputEvent::CursorDown);
    app.handle_key_event(InputEvent::CursorDown);
    assert_eq!(app.cursor(), 2);
    let expected = app.view_branches()[2].clone();
    app.handle_key_event(InputEvent::Confirm);
    assert!(app.is_terminated());
    assert!(app.is_confirmed());
    let result = app.session_result();
    assert!(result.confirmed);
    assert_eq!(result.candidate, Some(expected));
}

#[test]
fn other_events_are_ignored() {
    let mut app = app_with(Some("de"));
    app.handle_key_event(InputEvent::CursorDown);
    let view = app.view_branches().clone();
    let cursor = app.cursor();
    app.handle_key_event(InputEvent::Other);
    assert_eq!(app.view_branches(), &view);
    assert_eq!(app.cursor(), cursor);
    assert_eq!(app.query_chars(), &chars("de"));
    assert!(!app.is_terminated());
}

#[test]
fn preseeded_query_ranks_before_first_render() {
    let app = app_with(Some("dev"));
    assert_eq!(app.view_branches()[0], "develop".to_string());
    assert_eq!(app.query_chars(), &chars("dev"));
    assert_eq!(app.cursor(), 0);
}

#[test]
fn duplicate_candidates_are_all_kept() {
    let twice = vec!["main".to_string(), "main".to_string()];
    let ranked = rerank(&twice, &chars("m"));
    assert_eq!(ranked, twice);
}
