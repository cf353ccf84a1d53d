use launcher_filter::item::App;
use launcher_filter::segment::SegmentKind;
use launcher_filter::ui::UI;

fn firefox() -> App {
    App {
        name: "Firefox".to_string(),
        description: "Web browser".to_string(),
        command: "firefox %u".to_string(),
        is_terminal: false,
        history: 7,
        score: 0,
    }
}

fn session_with(item: App) -> UI {
    let mut ui = UI::new(vec![item]);
    ui.filter();
    ui
}

fn texts(ui: &UI) -> Vec<String> {
    ui.text.iter().map(|s| s.text.clone()).collect()
}

#[test]
fn base_level_shows_name_and_description_only() {
    let mut ui = session_with(firefox());
    ui.verbosity(0);
    ui.info();
    assert_eq!(texts(&ui), vec!["Firefox".to_string(), "Web browser".to_string()]);
    assert_eq!(ui.text[0].kind, SegmentKind::Title);
    assert_eq!(ui.text[1].kind, SegmentKind::Plain);
    assert!(!texts(&ui).iter().any(|t| t.contains("Exec")));
}

#[test]
fn full_level_adds_exec_count_and_score() {
    let mut ui = session_with(firefox());
    let score = ui.shown[0].score;
    ui.verbosity(2);
    ui.info();
    assert_eq!(
        texts(&ui),
        vec![
            "Firefox".to_string(),
            "Web browser".to_string(),
            "Exec: ".to_string(),
            "firefox %u".to_string(),
            "Times run: 7".to_string(),
            format!("Matching score: {}", score),
        ]
    );
    assert_eq!(ui.text[3].kind, SegmentKind::Command);
}

#[test]
fn terminal_items_carry_the_terminal_exec_label() {
    let mut item = firefox();
    item.name = "Htop".to_string();
    item.command = "htop".to_string();
    item.is_terminal = true;
    let mut ui = session_with(item);
    ui.verbosity(1);
    ui.info();
    assert_eq!(texts(&ui)[2], "Exec (terminal): ");
    assert_eq!(texts(&ui)[3], "htop");
    assert_eq!(texts(&ui).len(), 4);
}

#[test]
fn each_verbosity_level_extends_the_one_below() {
    let mut previous: Vec<String> = Vec::new();
    for level in 0..4u64 {
        let mut ui = session_with(firefox());
        ui.verbosity(level);
        ui.info();
        let current = texts(&ui);
        assert!(current.starts_with(&previous));
        if level < 3 {
            // strictly more segments below the top level
            assert!(current.len() > previous.len() || level == 0);
        }
        if level >= 2 {
            assert_eq!(current.len(), 6);
        }
        previous = current;
    }
}

#[test]
fn no_selection_clears_the_projection() {
    let mut ui = session_with(firefox());
    ui.verbosity(2);
    ui.info();
    assert!(!ui.text.is_empty());
    ui.query = "zzz".to_string();
    ui.filter();
    assert_eq!(ui.selected, None);
    ui.info();
    assert!(ui.text.is_empty());
}

#[test]
fn run_counts_render_in_full_decimal() {
    let mut item = firefox();
    item.history = 0;
    let mut ui = session_with(item);
    ui.verbosity(2);
    ui.info();
    assert_eq!(texts(&ui)[4], "Times run: 0");

    let mut item = firefox();
    item.history = u64::MAX;
    let mut ui = session_with(item);
    ui.verbosity(2);
    ui.info();
    assert_eq!(texts(&ui)[4], "Times run: 18446744073709551615");
}

#[test]
fn negative_scores_render_with_their_sign() {
    let ui = UI {
        shown: vec![App { score: -5, ..firefox() }],
        hidden: Vec::new(),
        selected: Some(0),
        text: Vec::new(),
        query: String::new(),
        log: Vec::new(),
        verbose: 2,
    };
    let mut ui = ui;
    ui.info();
    assert_eq!(texts(&ui)[5], "Matching score: -5");

    let mut ui = UI {
        shown: vec![App { score: i64::MIN, ..firefox() }],
        hidden: Vec::new(),
        selected: Some(0),
        text: Vec::new(),
        query: String::new(),
        log: Vec::new(),
        verbose: 2,
    };
    ui.info();
    assert_eq!(texts(&ui)[5], "Matching score: -9223372036854775808");
}

#[test]
fn verbosity_only_sets_the_level() {
    let mut ui = session_with(firefox());
    ui.verbosity(3);
    assert_eq!(ui.verbose, 3);
    assert_eq!(ui.shown.len(), 1);
    assert!(ui.text.is_empty());
}
