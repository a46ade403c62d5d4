use vnm_player::commands::parse_loop_mode;
use vnm_player::playlist::{LoopMode, Playlist};

fn list_of(paths: &[&str]) -> Playlist {
    let mut pl = Playlist::new();
    for p in paths {
        pl.add(p.to_string(), 0);
    }
    pl
}

#[test]
fn new_list_is_empty() {
    let pl = Playlist::new();
    assert!(pl.entries.is_empty());
    assert_eq!(pl.current_index, None);
    assert_eq!(pl.loop_mode, LoopMode::Off);
    assert!(pl.current_entry().is_none());
}

#[test]
fn add_appends_and_answers_index() {
    let mut pl = Playlist::new();
    assert_eq!(pl.add("a.mp3".to_string(), 10), 0);
    assert_eq!(pl.add("b.nwa".to_string(), 20), 1);
    assert_eq!(pl.entries.len(), 2);
    assert_eq!(pl.entries[1].path, "b.nwa");
    assert_eq!(pl.entries[1].duration_ms, 20);
}

#[test]
fn add_same_path_twice_keeps_one_entry() {
    let mut pl = Playlist::new();
    pl.add("a.mp3".to_string(), 10);
    pl.add("b.mp3".to_string(), 20);
    assert_eq!(pl.add("a.mp3".to_string(), 99), 0);
    assert_eq!(pl.entries.len(), 2);
    assert_eq!(pl.entries[0].duration_ms, 10);
    assert_eq!(pl.add("a.mp3".to_string(), 5), 0);
    assert_eq!(pl.entries.len(), 2);
}

#[test]
fn update_duration_sets_matching_entry_only() {
    let mut pl = list_of(&["a.mp3", "b.mp3"]);
    pl.update_duration("b.mp3", 1234);
    assert_eq!(pl.entries[0].duration_ms, 0);
    assert_eq!(pl.entries[1].duration_ms, 1234);
    pl.update_duration("missing.mp3", 5);
    assert_eq!(pl.entries[0].duration_ms, 0);
    assert_eq!(pl.entries[1].duration_ms, 1234);
}

#[test]
fn remove_before_current_shifts_cursor() {
    let mut pl = list_of(&["a", "b", "c"]);
    pl.set_current(2);
    pl.remove(0);
    assert_eq!(pl.current_index, Some(1));
    assert_eq!(pl.current_entry().unwrap().path, "c");
}

#[test]
fn remove_current_clears_cursor() {
    let mut pl = list_of(&["a", "b", "c"]);
    pl.set_current(1);
    pl.remove(1);
    assert_eq!(pl.current_index, None);
    assert_eq!(pl.entries.len(), 2);
    assert_eq!(pl.entries[1].path, "c");
}

#[test]
fn remove_after_current_keeps_cursor() {
    let mut pl = list_of(&["a", "b", "c"]);
    pl.set_current(0);
    pl.remove(2);
    assert_eq!(pl.current_index, Some(0));
    assert_eq!(pl.entries.len(), 2);
}

#[test]
fn remove_out_of_range_changes_nothing() {
    let mut pl = list_of(&["a", "b"]);
    pl.set_current(1);
    pl.remove(5);
    assert_eq!(pl.entries.len(), 2);
    assert_eq!(pl.current_index, Some(1));
}

#[test]
fn set_current_checks_range() {
    let mut pl = list_of(&["a", "b"]);
    assert_eq!(pl.set_current(1).unwrap().path, "b");
    assert!(pl.set_current(2).is_none());
    assert_eq!(pl.current_index, Some(1));
}

#[test]
fn next_and_previous_stop_at_the_ends() {
    let mut pl = list_of(&["a", "b", "c"]);
    assert_eq!(pl.next(), None);
    pl.set_current(0);
    assert_eq!(pl.previous(), None);
    assert_eq!(pl.next(), Some(1));
    assert_eq!(pl.next(), Some(2));
    assert_eq!(pl.next(), None);
    assert_eq!(pl.current_index, Some(2));
    assert_eq!(pl.previous(), Some(1));
}

#[test]
fn previous_undoes_next() {
    let mut pl = list_of(&["a", "b", "c"]);
    pl.set_current(1);
    assert_eq!(pl.next(), Some(2));
    assert_eq!(pl.previous(), Some(1));
    assert_eq!(pl.current_index, Some(1));
}

#[test]
fn state_copies_everything() {
    let mut pl = list_of(&["a", "b"]);
    pl.set_current(1);
    pl.set_loop_mode(LoopMode::List);
    let st = pl.state();
    assert_eq!(st.entries.len(), 2);
    assert_eq!(st.entries[0].path, "a");
    assert_eq!(st.current_index, Some(1));
    assert_eq!(st.loop_mode, LoopMode::List);
}

#[test]
fn clear_empties_but_keeps_loop_mode() {
    let mut pl = list_of(&["a", "b"]);
    pl.set_current(0);
    pl.set_loop_mode(LoopMode::Single);
    pl.clear();
    assert!(pl.entries.is_empty());
    assert_eq!(pl.current_index, None);
    assert_eq!(pl.loop_mode, LoopMode::Single);
}

#[test]
fn loop_mode_names_parse() {
    assert_eq!(parse_loop_mode("none"), Ok(LoopMode::Off));
    assert_eq!(parse_loop_mode("single"), Ok(LoopMode::Single));
    assert_eq!(parse_loop_mode("list"), Ok(LoopMode::List));
    assert_eq!(parse_loop_mode("List"), Err("Invalid loop mode: List".to_string()));
    assert_eq!(parse_loop_mode(""), Err("Invalid loop mode: ".to_string()));
}
