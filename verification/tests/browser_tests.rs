use ananicy_rule_o_matic::application::browser::{Action, App, InputMode, Key, ITEMS_PER_PAGE};
use ananicy_rule_o_matic::domain::models::{AnanicyRule, EnrichedRule};

fn rule(name: &str) -> EnrichedRule {
    EnrichedRule {
        data: AnanicyRule {
            name: Some(name.to_string()),
            rule_type: None,
            nice: None,
            latency_nice: None,
            sched: None,
            rtprio: None,
            ioclass: None,
            oom_score_adj: None,
            cgroup: None,
        },
        context_comment: None,
        source_file: "/r/x.rules".to_string(),
        shadowed: false,
    }
}

fn rules(n: usize) -> Vec<EnrichedRule> {
    (0..n).map(|i| rule(&format!("rule{:03}", i))).collect()
}

#[test]
fn a_new_view_selects_the_first_rule() {
    let app = App::new(rules(3));
    assert_eq!(app.selected(), Some(0));
    assert_eq!(app.current_page(), 0);
    assert_eq!(app.filtered_rules().len(), 3);
    assert_eq!(app.search_query(), "");
    assert_eq!(app.input_mode(), InputMode::Normal);
    assert_eq!(app.selected_rule().unwrap().data.name.as_deref(), Some("rule000"));

    let empty = App::new(Vec::new());
    assert_eq!(empty.selected(), None);
    assert!(empty.selected_rule().is_none());
    assert_eq!(empty.total_pages(), 1);
    assert_eq!(empty.page_bounds(), (0, 0));
}

#[test]
fn selection_stays_on_the_page() {
    let mut app = App::new(rules(3));
    app.previous();
    assert_eq!(app.selected(), Some(0));
    app.next();
    app.next();
    assert_eq!(app.selected(), Some(2));
    app.next();
    assert_eq!(app.selected(), Some(2));
    app.previous();
    assert_eq!(app.selected(), Some(1));
    assert_eq!(app.selected_rule().unwrap().data.name.as_deref(), Some("rule001"));

    let mut empty = App::new(Vec::new());
    empty.next();
    empty.previous();
    empty.next_page();
    empty.previous_page();
    assert_eq!(empty.selected(), None);
    assert_eq!(empty.current_page(), 0);
}

#[test]
fn pages_hold_fifty_rules() {
    assert_eq!(ITEMS_PER_PAGE, 50);
    let mut app = App::new(rules(101));
    assert_eq!(app.total_pages(), 3);
    assert_eq!(app.page_bounds(), (0, 50));
    for _ in 0..60 {
        app.next();
    }
    assert_eq!(app.selected(), Some(49));
    app.next_page();
    assert_eq!((app.current_page(), app.selected()), (1, Some(0)));
    assert_eq!(app.page_bounds(), (50, 100));
    app.next_page();
    assert_eq!((app.current_page(), app.selected()), (2, Some(0)));
    assert_eq!(app.page_bounds(), (100, 101));
    assert_eq!(app.selected_rule().unwrap().data.name.as_deref(), Some("rule100"));
    app.next();
    assert_eq!(app.selected(), Some(0));
    app.next_page();
    assert_eq!(app.current_page(), 2);
    app.previous_page();
    assert_eq!((app.current_page(), app.selected()), (1, Some(0)));
    app.previous_page();
    app.previous_page();
    assert_eq!(app.current_page(), 0);

    assert_eq!(App::new(rules(50)).total_pages(), 1);
    assert_eq!(App::new(rules(51)).total_pages(), 2);
    assert_eq!(App::new(rules(100)).total_pages(), 2);
    let mut full = App::new(rules(100));
    full.next_page();
    full.next_page();
    assert_eq!(full.current_page(), 1);
}

#[test]
fn keys_browse_and_edit() {
    let mut app = App::new(rules(120));
    assert_eq!(app.handle_key(Key::Down), Action::Continue);
    assert_eq!(app.selected(), Some(1));
    app.handle_key(Key::Up);
    assert_eq!(app.selected(), Some(0));
    app.handle_key(Key::Right);
    assert_eq!(app.current_page(), 1);
    app.handle_key(Key::Left);
    assert_eq!(app.current_page(), 0);
    app.handle_key(Key::Char('x'));
    app.handle_key(Key::Enter);
    app.handle_key(Key::Backspace);
    app.handle_key(Key::Other);
    assert_eq!(app.search_query(), "");
    assert_eq!(app.input_mode(), InputMode::Normal);

    assert_eq!(app.handle_key(Key::Char('/')), Action::Continue);
    assert_eq!(app.input_mode(), InputMode::Editing);
    app.handle_key(Key::Right);
    app.handle_key(Key::Down);
    assert_eq!((app.current_page(), app.selected()), (0, Some(0)));
    assert_eq!(app.handle_key(Key::Char('q')), Action::Continue);
    assert_eq!(app.search_query(), "q");
    assert_eq!(app.filtered_rules().len(), 0);
    assert_eq!(app.selected(), None);
    app.handle_key(Key::Backspace);
    assert_eq!(app.filtered_rules().len(), 120);
    assert_eq!(app.selected(), Some(0));
    app.handle_key(Key::Backspace);
    assert_eq!(app.search_query(), "");
    for c in "RULE01".chars() {
        app.handle_key(Key::Char(c));
    }
    assert_eq!(app.search_query(), "RULE01");
    assert_eq!(app.filtered_rules().len(), 10);
    assert_eq!(app.filtered_rules()[0].data.name.as_deref(), Some("rule010"));
    assert_eq!(app.handle_key(Key::Esc), Action::Continue);
    assert_eq!(app.input_mode(), InputMode::Normal);
    assert_eq!(app.filtered_rules().len(), 10);

    app.handle_key(Key::Char('s'));
    assert_eq!(app.input_mode(), InputMode::Editing);
    app.handle_key(Key::Enter);
    assert_eq!(app.handle_key(Key::Char('q')), Action::Quit);
    assert_eq!(app.handle_key(Key::Esc), Action::Quit);
}

#[test]
fn a_search_goes_back_to_the_first_page() {
    let mut app = App::new(rules(120));
    app.next_page();
    app.next();
    app.handle_key(Key::Char('s'));
    app.handle_key(Key::Char('1'));
    assert_eq!((app.current_page(), app.selected()), (0, Some(0)));
    assert_eq!(app.filtered_rules().len(), 39);
    app.update_search();
    assert_eq!(app.filtered_rules().len(), 39);
}

#[test]
fn an_empty_query_shows_every_rule() {
    let mut unnamed = rule("x");
    unnamed.data.name = None;
    let mut app = App::new(vec![rule("a"), unnamed, rule("b")]);
    app.handle_key(Key::Char('/'));
    app.handle_key(Key::Char('a'));
    assert_eq!(app.filtered_rules().len(), 1);
    app.handle_key(Key::Backspace);
    assert_eq!(app.search_query(), "");
    assert_eq!(app.filtered_rules().len(), 3);
    app.update_search();
    assert_eq!(app.filtered_rules().len(), 3);
    assert_eq!(app.selected(), Some(0));
}
