use fuzzy_matcher::skim::SkimMatcherV2;
use fuzzy_matcher::FuzzyMatcher;
use launcher_filter::item::App;
use launcher_filter::ui::UI;

fn app(name: &str) -> App {
    App {
        name: name.to_string(),
        description: format!("{} description", name),
        command: name.to_lowercase(),
        is_terminal: false,
        history: 0,
        score: 0,
    }
}

fn three_items() -> Vec<App> {
    vec![app("Firefox"), app("Files"), app("Terminal")]
}

fn shown_names(ui: &UI) -> Vec<String> {
    ui.shown.iter().map(|a| a.name.clone()).collect()
}

fn hidden_names(ui: &UI) -> Vec<String> {
    ui.hidden.iter().map(|a| a.name.clone()).collect()
}

/// The order the library promises: score descending, names ascending on ties.
fn expected_order(mut scored: Vec<(String, i64)>) -> Vec<String> {
    scored.sort_by(|a, b| b.1.cmp(&a.1).then(a.0.cmp(&b.0)));
    scored.into_iter().map(|p| p.0).collect()
}

#[test]
fn partial_query_partitions_and_ranks() {
    let matcher = SkimMatcherV2::default();
    let s_firefox = matcher.fuzzy_match("Firefox", "fi").expect("Firefox matches 'fi'");
    let s_files = matcher.fuzzy_match("Files", "fi").expect("Files matches 'fi'");
    assert!(matcher.fuzzy_match("Terminal", "fi").is_none());

    let mut ui = UI::new(three_items());
    ui.query = "fi".to_string();
    ui.filter();

    assert_eq!(ui.shown.len(), 2);
    assert_eq!(hidden_names(&ui), vec!["Terminal".to_string()]);
    assert_eq!(ui.selected, Some(0));
    assert_eq!(
        shown_names(&ui),
        expected_order(vec![
            ("Firefox".to_string(), s_firefox),
            ("Files".to_string(), s_files),
        ])
    );
    for a in &ui.shown {
        let expected = if a.name == "Firefox" { s_firefox } else { s_files };
        assert_eq!(a.score, expected);
    }
    assert_eq!(ui.hidden[0].score, 0);
}

#[test]
fn hopeless_query_empties_shown_and_logs() {
    let mut ui = UI::new(three_items());
    ui.query = "fi".to_string();
    ui.filter();
    let log_before = ui.log.len();

    ui.query = "xyz".to_string();
    ui.filter();

    assert!(ui.shown.is_empty());
    assert_eq!(ui.hidden.len(), 3);
    assert_eq!(ui.selected, None);
    assert_eq!(ui.log[log_before], "NO ITEMS!");
    assert_eq!(ui.log.last().unwrap(), "update_filter\n");
}

#[test]
fn cleared_query_shows_everything_again() {
    let mut ui = UI::new(three_items());
    ui.query = "xyz".to_string();
    ui.filter();
    assert!(ui.shown.is_empty());

    ui.query = String::new();
    ui.filter();

    assert_eq!(ui.shown.len(), 3);
    assert!(ui.hidden.is_empty());
    assert_eq!(ui.selected, Some(0));
    // The empty query matches everything with the neutral score, so the order
    // falls back to names ascending.
    assert_eq!(
        shown_names(&ui),
        vec!["Files".to_string(), "Firefox".to_string(), "Terminal".to_string()]
    );
    for a in &ui.shown {
        assert_eq!(a.score, 0);
    }
}

#[test]
fn partition_is_preserved_for_any_query() {
    for query in ["", "fi", "e", "xyz", "Terminal"] {
        let mut ui = UI::new(three_items());
        ui.query = query.to_string();
        ui.filter();
        assert_eq!(ui.shown.len() + ui.hidden.len(), 3);
        let mut names: Vec<String> = shown_names(&ui);
        names.extend(hidden_names(&ui));
        names.sort();
        assert_eq!(
            names,
            vec!["Files".to_string(), "Firefox".to_string(), "Terminal".to_string()]
        );
    }
}

#[test]
fn selection_is_none_exactly_when_nothing_shown() {
    let mut ui = UI::new(three_items());
    for query in ["", "fi", "xyz", "files"] {
        ui.query = query.to_string();
        ui.filter();
        if ui.shown.is_empty() {
            assert_eq!(ui.selected, None);
        } else {
            assert_eq!(ui.selected, Some(0));
        }
    }
}

#[test]
fn shown_scores_never_increase_along_the_list() {
    for query in ["", "e", "fi", "r"] {
        let mut ui = UI::new(three_items());
        ui.query = query.to_string();
        ui.filter();
        for pair in ui.shown.windows(2) {
            assert!(pair[0].score >= pair[1].score);
        }
    }
}

#[test]
fn refiltering_twice_changes_nothing() {
    for query in ["", "fi", "xyz", "e"] {
        let mut ui = UI::new(three_items());
        ui.query = query.to_string();
        ui.filter();
        let shown1: Vec<(String, i64)> =
            ui.shown.iter().map(|a| (a.name.clone(), a.score)).collect();
        let hidden1: Vec<(String, i64)> =
            ui.hidden.iter().map(|a| (a.name.clone(), a.score)).collect();
        ui.filter();
        let shown2: Vec<(String, i64)> =
            ui.shown.iter().map(|a| (a.name.clone(), a.score)).collect();
        let hidden2: Vec<(String, i64)> =
            ui.hidden.iter().map(|a| (a.name.clone(), a.score)).collect();
        assert_eq!(shown1, shown2);
        assert_eq!(hidden1, hidden2);
    }
}

#[test]
fn new_session_shows_everything_in_supplied_order() {
    let ui = UI::new(three_items());
    assert_eq!(
        shown_names(&ui),
        vec!["Firefox".to_string(), "Files".to_string(), "Terminal".to_string()]
    );
    assert!(ui.hidden.is_empty());
    assert_eq!(ui.selected, Some(0));
    assert_eq!(ui.query, "");
    assert_eq!(ui.verbose, 0);
    assert!(ui.text.is_empty());
    assert!(ui.log.is_empty());
}

#[test]
fn new_session_over_no_items_selects_nothing() {
    let ui = UI::new(Vec::new());
    assert!(ui.shown.is_empty());
    assert!(ui.hidden.is_empty());
    assert_eq!(ui.selected, None);
}

#[test]
fn every_filter_pass_logs_its_completion() {
    let mut ui = UI::new(three_items());
    ui.query = "fi".to_string();
    ui.filter();
    assert_eq!(ui.log.len(), 1);
    assert_eq!(ui.log[0], "update_filter\n");
    ui.filter();
    assert_eq!(ui.log.len(), 2);
}

#[test]
fn demoted_items_keep_score_zero_while_hidden() {
    let mut ui = UI::new(three_items());
    ui.query = "Terminal".to_string();
    ui.filter();
    assert_eq!(shown_names(&ui), vec!["Terminal".to_string()]);
    for a in &ui.hidden {
        assert_eq!(a.score, 0);
    }
}
