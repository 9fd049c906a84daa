use days::date::Date;
use days::event::Event;
use days::event_manager::{EventManager, ImportError};

fn ymd(year: i32, month: u32, day: u32) -> Date {
    Date::from_ymd(year, month, day).unwrap()
}

fn some(s: &str) -> Option<String> {
    Some(s.to_string())
}

fn descriptions(m: &EventManager) -> Vec<String> {
    m.events().iter().map(|e| e.description()).collect()
}

fn history() -> EventManager {
    let mut m = EventManager::new();
    m.add_event(Event::new_with_values(ymd(1969, 7, 20), "Moon landing", "Space"));
    m.add_event(Event::new_with_values(ymd(1991, 8, 6), "WWW goes live", "Internet"));
    m.add_event(Event::new_with_values(ymd(2007, 6, 29), "iPhone released", "Apple"));
    m
}

fn row(fields: &[&str]) -> Vec<String> {
    fields.iter().map(|f| f.to_string()).collect()
}

#[test]
fn test_new_event_manager() {
    let event_manager = EventManager::new();
    assert_eq!(event_manager.len(), 0);
}

#[test]
fn test_add_event() {
    let mut event_manager = EventManager::new();
    let event = Event::new();
    event_manager.add_event(event);
    assert_eq!(event_manager.len(), 1);
}

#[test]
fn test_fetch_events_all() {
    let mut event_manager = EventManager::new();
    let event1 = Event::new();
    let event2 = Event::new();
    event_manager.add_event(event1);
    event_manager.add_event(event2);

    let indices = event_manager.fetch_events(None, None, None, vec![], false);
    assert_eq!(indices.len(), 2);
}

#[test]
fn test_delete_event() {
    let mut event_manager = EventManager::new();
    let event1 = Event::new();
    let event2 = Event::new();
    event_manager.add_event(event1);
    event_manager.add_event(event2);

    event_manager.delete_event(vec![0]);
    assert_eq!(event_manager.len(), 1);
}

#[test]
fn test_print_events() {
    let mut event_manager = EventManager::new();
    let event1 = Event::new();
    let event2 = Event::new();
    event_manager.add_event(event1);
    event_manager.add_event(event2);

    let print_indices = vec![0, 1];
    let lines = event_manager.render_events(print_indices);
    assert_eq!(lines.len(), 2);
    assert_eq!(lines[0], event_manager.events()[0].to_string());
    assert_eq!(lines[1], event_manager.events()[1].to_string());
}

#[test]
fn moon_www_iphone_scenario() {
    let mut m = history();
    assert_eq!(m.fetch_events(Some(ymd(1970, 1, 1)), None, None, vec![], false), vec![1, 2]);
    let space = m.fetch_events(None, None, None, vec![some("Space")], false);
    assert_eq!(space, vec![0]);
    m.delete_event(space);
    let all = m.fetch_events(None, None, None, vec![], false);
    assert_eq!(all, vec![0, 1]);
    assert_eq!(descriptions(&m), vec!["WWW goes live", "iPhone released"]);
}

#[test]
fn export_then_import_gives_the_same_events() {
    let mut m = history();
    m.add_event(Event::new_with_values(ymd(-44, 3, 15), "Ides, of March", ""));
    m.add_event(Event::new_with_values(ymd(12345, 6, 7), "far \"future\"", "Sci-Fi"));
    let rows = m.export_rows();
    assert_eq!(rows[0], row(&["1969-07-20", "Moon landing", "Space"]));
    assert_eq!(rows[3], row(&["-0044-03-15", "Ides, of March", ""]));
    assert_eq!(rows[4], row(&["+12345-06-07", "far \"future\"", "Sci-Fi"]));
    let mut back = EventManager::new();
    assert_eq!(back.import_rows(rows), Ok(vec![]));
    assert_eq!(back.len(), m.len());
    for (a, b) in back.events().iter().zip(m.events().iter()) {
        assert_eq!(a.date(), b.date());
        assert_eq!(a.description(), b.description());
        assert_eq!(a.category(), b.category());
    }
}

#[test]
fn export_header_names_the_columns() {
    assert_eq!(EventManager::export_header(), row(&["date", "description", "category"]));
}

#[test]
fn import_falls_back_on_unreadable_dates() {
    let mut m = history();
    let rows = vec![
        row(&["2020-02-30", "bad day", "x"]),
        row(&["2021-03-04", "good day", "y", "extra"]),
        row(&["", "no day", "z"]),
    ];
    assert_eq!(m.import_rows_dated(rows, ymd(2000, 1, 1)), Ok(vec![0, 2]));
    assert_eq!(m.len(), 6);
    let e = &m.events()[3];
    assert_eq!((e.date(), e.description(), e.category()), (ymd(2000, 1, 1), "bad day".to_string(), "x".to_string()));
    let e = &m.events()[4];
    assert_eq!((e.date(), e.description(), e.category()), (ymd(2021, 3, 4), "good day".to_string(), "y".to_string()));
    assert_eq!(m.events()[5].date(), ymd(2000, 1, 1));
}

#[test]
fn import_with_a_missing_field_imports_nothing() {
    let mut m = history();
    let rows = vec![
        row(&["2020-01-01", "fine", "x"]),
        row(&["2020-01-02", "short"]),
        row(&["2020-01-03"]),
    ];
    assert_eq!(m.import_rows(rows), Err(ImportError::MissingField { row: 1 }));
    assert_eq!(m.len(), 3);
    assert_eq!(descriptions(&m), vec!["Moon landing", "WWW goes live", "iPhone released"]);
}

#[test]
fn filter_twice_gives_the_same_positions() {
    let m = history();
    let first = m.fetch_events(Some(ymd(1980, 1, 1)), Some(ymd(2010, 1, 1)), some("i"), vec![some("Apple"), some("Space")], false);
    let second = m.fetch_events(Some(ymd(1980, 1, 1)), Some(ymd(2010, 1, 1)), some("i"), vec![some("Apple"), some("Space")], false);
    assert_eq!(first, second);
    assert_eq!(first, vec![2]);
}

#[test]
fn delete_removes_exactly_the_listed_positions() {
    let mut m = history();
    m.add_event(Event::new_with_values(ymd(2010, 1, 27), "iPad", "Apple"));
    m.add_event(Event::new_with_values(ymd(2012, 1, 1), "Nothing", "Misc"));
    m.delete_event(vec![0, 2, 4]);
    assert_eq!(m.fetch_events(None, None, None, vec![], false), vec![0, 1]);
    assert_eq!(descriptions(&m), vec!["WWW goes live", "iPad"]);
}

#[test]
fn delete_nothing_changes_nothing() {
    let mut m = history();
    m.delete_event(vec![]);
    assert_eq!(descriptions(&m), vec!["Moon landing", "WWW goes live", "iPhone released"]);
}

#[test]
fn delete_everything() {
    let mut m = history();
    m.delete_event(vec![0, 1, 2]);
    assert_eq!(m.len(), 0);
    assert_eq!(m.fetch_events(None, None, None, vec![], false), Vec::<usize>::new());
}

#[test]
fn single_day_matches_only_that_day() {
    let mut m = EventManager::new();
    m.add_event(Event::new_with_values(ymd(2024, 5, 1), "before", "c"));
    m.add_event(Event::new_with_values(ymd(2024, 5, 2), "on", "c"));
    m.add_event(Event::new_with_values(ymd(2024, 5, 3), "after", "c"));
    m.add_event(Event::new_with_values(ymd(2024, 5, 2), "on again", "c"));
    let d = ymd(2024, 5, 2);
    assert_eq!(m.fetch_events(Some(d), Some(d), None, vec![], false), vec![1, 3]);
    assert_eq!(m.fetch_events(Some(d), Some(ymd(2024, 5, 4)), None, vec![], false), vec![1, 2, 3]);
    assert_eq!(m.fetch_events(Some(d), Some(ymd(2024, 5, 3)), None, vec![], false), vec![1, 3]);
}

#[test]
fn single_bounds_are_inclusive_below_and_exclusive_above() {
    let m = history();
    assert_eq!(m.fetch_events(Some(ymd(1991, 8, 6)), None, None, vec![], false), vec![1, 2]);
    assert_eq!(m.fetch_events(None, Some(ymd(1991, 8, 6)), None, vec![], false), vec![0]);
    assert_eq!(m.fetch_events(None, Some(ymd(1991, 8, 7)), None, vec![], false), vec![0, 1]);
}

#[test]
fn exclusion_of_categories() {
    let mut m = history();
    m.add_event(Event::new_with_values(ymd(2010, 1, 27), "iPad", "Apple"));
    assert_eq!(m.fetch_events(None, None, None, vec![some("Apple"), some("Space")], true), vec![1]);
    assert_eq!(m.fetch_events(None, None, None, vec![], true), vec![0, 1, 2, 3]);
    assert_eq!(m.fetch_events(None, None, None, vec![some("Apple"), some("Space")], false), vec![0, 2, 3]);
}

#[test]
fn absent_category_entries_match_nothing() {
    let m = history();
    assert_eq!(m.fetch_events(None, None, None, vec![None], false), Vec::<usize>::new());
    assert_eq!(m.fetch_events(None, None, None, vec![None], true), vec![0, 1, 2]);
}

#[test]
fn category_match_is_exact() {
    let m = history();
    assert_eq!(m.fetch_events(None, None, None, vec![some("space")], false), Vec::<usize>::new());
    assert_eq!(m.fetch_events(None, None, None, vec![some("Spac")], false), Vec::<usize>::new());
}

#[test]
fn description_prefix_is_case_sensitive() {
    let mut m = history();
    m.add_event(Event::new_with_values(ymd(2020, 1, 1), "Mondträger ö", "x"));
    assert_eq!(m.fetch_events(None, None, some("Moon"), vec![], false), vec![0]);
    assert_eq!(m.fetch_events(None, None, some("moon"), vec![], false), Vec::<usize>::new());
    assert_eq!(m.fetch_events(None, None, some(""), vec![], false), vec![0, 1, 2, 3]);
    assert_eq!(m.fetch_events(None, None, some("Mondträger ö"), vec![], false), vec![3]);
    assert_eq!(m.fetch_events(None, None, some("Mondträger öö"), vec![], false), Vec::<usize>::new());
}

#[test]
fn render_selected_events() {
    let m = history();
    assert_eq!(
        m.render_events(vec![2, 0]),
        vec!["2007-06-29: iPhone released (Apple)".to_string(), "1969-07-20: Moon landing (Space)".to_string()]
    );
}
