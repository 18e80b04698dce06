use commit_race::app::{total_ticks, App, InputMode, KeyCode, KeyPress, CONTROL};
use commit_race::contributors::{Author, Contributor, Week};
use tui_input::Input;

fn contributor(login: &str, weeks: &[(u32, u32)]) -> Contributor {
    Contributor {
        total: 0,
        author: Author { login: login.to_string() },
        weeks: weeks.iter().map(|&(w, c)| Week { w, a: 0, d: 0, c }).collect(),
    }
}

fn feed() -> Vec<Contributor> {
    vec![
        contributor("octocat", &[(1361059200, 1), (1361664000, 0), (1362268800, 0)]),
        contributor("octobot", &[(1361059200, 3), (1361664000, 1), (1362268800, 1)]),
    ]
}

fn named(list: &[(&str, u32)]) -> Vec<(String, u32)> {
    list.iter().map(|&(name, count)| (name.to_string(), count)).collect()
}

#[test]
fn a_new_race_waits_for_a_repository() {
    let app = App::new(vec!["bot".to_string()]);
    assert_eq!(app.author_blacklist, vec!["bot".to_string()]);
    assert!(app.commits.is_none());
    assert_eq!(app.current_tick, 0);
    assert_eq!(app.current_tick_authors, None);
    assert_eq!(app.current_week, None);
    assert_eq!(app.error, None);
    assert_eq!(app.input.value(), "");
    assert_eq!(app.input_mode, InputMode::Editing);
    assert_eq!(app.repository_url, "");
    assert!(!app.should_load_repository);
    assert!(!app.should_quit);
    assert_eq!(app.current_week_label(), None);
}

#[test]
fn q_asks_to_quit_and_no_other_key_does() {
    let mut app = App::new(vec![]);
    app.on_key('x');
    app.on_key('Q');
    assert!(!app.should_quit);
    app.on_key('q');
    assert!(app.should_quit);
    app.on_key('x');
    assert!(app.should_quit);
}

#[test]
fn entering_the_text_names_the_repository_and_asks_for_a_load() {
    let mut app = App::new(vec![]);
    app.input = Input::new("rust-lang/rust".to_string());
    app.submit_repository();
    assert_eq!(app.repository_url, "rust-lang/rust");
    assert_eq!(app.input.value(), "");
    assert_eq!(app.input_mode, InputMode::Normal);
    assert!(app.should_load_repository);
    assert_eq!(
        app.contributors_url(),
        "https://github.com/rust-lang/rust/graphs/contributors-data"
    );
}

#[test]
fn a_tick_without_a_timeline_changes_nothing() {
    let mut app = App::new(vec![]);
    app.on_tick(10, None);
    assert_eq!(app.current_tick, 0);
    assert_eq!(app.current_week, None);
    assert_eq!(app.current_tick_authors, None);
    assert_eq!(app.error, None);
}

#[test]
fn a_pending_load_waits_for_its_fetch() {
    let mut app = App::new(vec![]);
    app.load_repository_insights_from_json(Ok(feed()));
    app.input = Input::new("a/b".to_string());
    app.submit_repository();
    app.on_tick(3, None);
    assert!(app.should_load_repository);
    assert_eq!(app.current_tick, 0);
    assert_eq!(app.current_week, None);
    app.on_tick(3, Some(Ok(feed())));
    assert!(!app.should_load_repository);
    assert_eq!(app.current_tick, 1);
    assert_eq!(app.current_week, Some(1361059200));
}

#[test]
fn a_fetch_that_nobody_asked_for_is_left_aside() {
    let mut app = App::new(vec![]);
    app.on_tick(3, Some(Ok(feed())));
    assert!(app.commits.is_none());
    assert_eq!(app.current_week, None);
    app.on_tick(3, Some(Err("no network".to_string())));
    assert_eq!(app.error, None);
    assert_eq!(app.input_mode, InputMode::Editing);
}

#[test]
fn the_race_runs_tick_by_tick_and_holds_on_the_last_week() {
    let mut app = App::new(vec![]);
    app.load_repository_insights_from_json(Ok(feed()));
    assert_eq!(app.input_mode, InputMode::Normal);
    assert_eq!(app.error, None);
    assert_eq!(app.commits.as_ref().unwrap().total_weeks, 3);

    app.on_tick(3, None);
    assert_eq!(app.current_tick, 1);
    assert_eq!(app.current_week, Some(1361059200));
    assert_eq!(app.current_tick_authors, Some(named(&[("octobot", 3), ("octocat", 1)])));
    assert_eq!(app.current_week_label(), Some("Feb 2013".to_string()));

    app.on_tick(3, None);
    assert_eq!(app.current_tick, 2);
    assert_eq!(app.current_week, Some(1361664000));
    assert_eq!(app.current_tick_authors, Some(named(&[("octobot", 4), ("octocat", 1)])));

    app.on_tick(3, None);
    assert_eq!(app.current_tick, 3);
    assert_eq!(app.current_week, Some(1362268800));
    assert_eq!(app.current_tick_authors, Some(named(&[("octobot", 5), ("octocat", 1)])));
    assert_eq!(app.current_week_label(), Some("Mar 2013".to_string()));

    app.on_tick(3, None);
    assert_eq!(app.current_tick, 4);
    assert_eq!(app.current_week, Some(1362268800));

    app.on_tick(3, None);
    assert_eq!(app.current_tick, 4);
    assert_eq!(app.current_week, Some(1362268800));
    assert_eq!(app.current_tick_authors, Some(named(&[("octobot", 5), ("octocat", 1)])));
}

#[test]
fn a_fetched_feed_starts_the_race_in_the_same_tick() {
    let mut app = App::new(vec!["octocat".to_string()]);
    app.input = Input::new("octo/repo".to_string());
    app.submit_repository();
    app.on_tick(3, Some(Ok(feed())));
    assert!(!app.should_load_repository);
    assert_eq!(app.error, None);
    assert_eq!(app.input_mode, InputMode::Normal);
    assert_eq!(app.current_tick, 1);
    assert_eq!(app.current_week, Some(1361059200));
    assert_eq!(app.current_tick_authors, Some(named(&[("octobot", 3)])));
}

#[test]
fn a_failed_fetch_gives_the_keyboard_back_with_the_message() {
    let mut app = App::new(vec![]);
    app.input = Input::new("octo/repo".to_string());
    app.submit_repository();
    app.on_tick(3, Some(Err("Could not load contributors".to_string())));
    assert!(!app.should_load_repository);
    assert_eq!(app.input_mode, InputMode::Editing);
    assert_eq!(app.error, Some("Could not load contributors".to_string()));
    assert!(app.commits.is_none());
    assert_eq!(app.current_tick, 0);
}

#[test]
fn a_new_load_starts_the_race_anew() {
    let mut app = App::new(vec![]);
    app.load_repository_insights_from_json(Ok(feed()));
    app.on_tick(3, None);
    app.on_tick(3, None);
    assert_eq!(app.current_tick, 2);
    app.input = Input::new("octo/other".to_string());
    app.submit_repository();
    let other = vec![contributor("ann", &[(100, 7), (200, 1)])];
    app.on_tick(3, Some(Ok(other)));
    assert_eq!(app.current_tick, 1);
    assert_eq!(app.current_week, Some(100));
    assert_eq!(app.current_tick_authors, Some(named(&[("ann", 7)])));
}

#[test]
fn a_malformed_feed_is_refused_and_the_timeline_stays() {
    let mut app = App::new(vec![]);
    app.load_repository_insights(Ok(feed()));
    app.load_repository_insights(Ok(vec![contributor("ann", &[])]));
    assert_eq!(
        app.error,
        Some("malformed input: a contributor's week list is empty or inconsistent".to_string())
    );
    assert_eq!(app.input_mode, InputMode::Editing);
    assert_eq!(app.commits.as_ref().unwrap().total_weeks, 3);

    let mut app = App::new(vec![]);
    app.load_repository_insights_from_json(Ok(vec![contributor("ann", &[])]));
    assert!(app.commits.is_none());
    assert_eq!(app.input_mode, InputMode::Editing);
    assert!(app.error.is_some());
}

#[test]
fn a_file_that_cannot_be_read_leaves_its_message() {
    let mut app = App::new(vec![]);
    app.load_repository_insights_from_json(Err("No such file or directory".to_string()));
    assert_eq!(app.error, Some("No such file or directory".to_string()));
    assert_eq!(app.input_mode, InputMode::Editing);
    assert!(app.commits.is_none());
}

#[test]
fn sampling_errors_are_shown_and_the_tick_stays() {
    let mut app = App::new(vec![]);
    app.load_repository_insights_from_json(Ok(feed()));
    app.on_tick(0, None);
    assert_eq!(
        app.error,
        Some("configuration: the number of ticks must be positive".to_string())
    );
    assert_eq!(app.current_tick, 0);
    assert_eq!(app.current_week, None);

    let mut app = App::new(vec![]);
    app.load_repository_insights_from_json(Ok(vec![]));
    app.on_tick(5, None);
    assert_eq!(app.error, Some("the timeline holds no week".to_string()));
    assert_eq!(app.current_tick, 0);
}

#[test]
fn the_tick_counter_stops_where_it_cannot_count_on() {
    let mut app = App::new(vec![]);
    app.load_repository_insights_from_json(Ok(feed()));
    app.current_tick = u32::MAX;
    app.on_tick(u32::MAX, None);
    assert_eq!(app.current_tick, u32::MAX);
    assert_eq!(app.current_week, Some(1362268800));
}

#[test]
fn a_race_of_thirty_seconds_at_ten_ticks_a_second_has_three_hundred_ticks() {
    assert_eq!(total_ticks(30_000, 100), 300);
    assert_eq!(total_ticks(30_000, 7), 4285);
    assert_eq!(total_ticks(0, 100), 0);
    assert_eq!(total_ticks(99, 100), 0);
    assert_eq!(total_ticks(u32::MAX as u128, 1), u32::MAX);
    assert_eq!(total_ticks(1 << 32, 1), 0);
    assert_eq!(total_ticks((1 << 32) + 5, 1), 5);
}

fn press(code: KeyCode, modifiers: u8) -> KeyPress {
    KeyPress { code, modifiers }
}

#[test]
fn keys_go_to_the_race_while_it_has_the_keyboard() {
    let mut app = App::new(vec![]);
    app.input_mode = InputMode::Normal;
    assert!(!app.handle_key(press(KeyCode::Enter, 0)));
    assert!(!app.should_load_repository);
    assert!(!app.handle_key(press(KeyCode::Other, 0)));
    assert!(!app.handle_key(press(KeyCode::Char('c'), CONTROL)));
    assert!(!app.should_quit);
    assert!(!app.handle_key(press(KeyCode::Char('q'), CONTROL)));
    assert!(app.should_quit);
    assert_eq!(app.input_mode, InputMode::Normal);
}

#[test]
fn keys_go_to_the_line_editor_while_it_has_the_keyboard() {
    let mut app = App::new(vec![]);
    assert!(app.handle_key(press(KeyCode::Char('q'), 0)));
    assert!(app.handle_key(press(KeyCode::Char('c'), 0)));
    assert!(app.handle_key(press(KeyCode::Char('c'), CONTROL | 1)));
    assert!(app.handle_key(press(KeyCode::Char('x'), CONTROL)));
    assert!(app.handle_key(press(KeyCode::Other, CONTROL)));
    assert!(!app.should_quit);
    assert!(!app.should_load_repository);
    assert_eq!(app.input_mode, InputMode::Editing);

    app.input = Input::new("octo/repo".to_string());
    assert!(!app.handle_key(press(KeyCode::Enter, 0)));
    assert_eq!(app.repository_url, "octo/repo");
    assert_eq!(app.input_mode, InputMode::Normal);
    assert!(app.should_load_repository);
}

#[test]
fn control_c_in_the_line_editor_asks_to_quit() {
    let mut app = App::new(vec![]);
    assert!(!app.handle_key(press(KeyCode::Char('c'), CONTROL)));
    assert!(app.should_quit);
    let mut app = App::new(vec![]);
    assert!(!app.handle_key(press(KeyCode::Char('C'), CONTROL)));
    assert!(app.should_quit);
    assert_eq!(app.input_mode, InputMode::Editing);
}
