use cube_tui::router::{Block, Dir};
use cube_tui::session::{Action, Session};
use cube_tui::stats::History;

#[test]
fn finished_solve_is_recorded_with_new_scramble() {
    let mut s = Session::new(History::new(), 3);
    let first = s.scramble.clone();
    s.handle(Action::Primary, 100);
    s.handle(Action::Tick, 600);
    assert_eq!(s.history.len(), 0);
    s.handle(Action::Primary, 12_440);
    assert_eq!(s.history.len(), 1);
    assert_eq!(s.history.get(0).unwrap().time, 12_340);
    assert_ne!(s.scramble, first);
    s.handle(Action::Primary, 13_000);
    assert_eq!(s.history.len(), 1);
    assert_eq!(s.timer.last_result, Some(12_340));
}

#[test]
fn delete_through_times_table() {
    let mut s = Session::new(History::from_times(&vec![1000, 2000, 3000]), 3);
    s.handle(Action::Delete, 0);
    assert_eq!(s.history.len(), 3);
    s.handle(Action::Move(Dir::Down), 0);
    s.handle(Action::Enter, 0);
    assert_eq!(s.router.selected_block, Some(Block::Times));
    s.handle(Action::Move(Dir::Down), 0);
    s.handle(Action::Delete, 0);
    let times: Vec<u64> = s.history.records().iter().map(|r| r.time).collect();
    assert_eq!(times, vec![1000, 3000]);
    s.handle(Action::Move(Dir::Down), 0);
    s.handle(Action::Delete, 0);
    let times: Vec<u64> = s.history.records().iter().map(|r| r.time).collect();
    assert_eq!(times, vec![3000]);
    assert_eq!(s.router.times_cursor, 0);
}

#[test]
fn delete_works_while_help_is_shown() {
    let mut s = Session::new(History::from_times(&vec![1000, 2000, 3000]), 9);
    s.handle(Action::Move(Dir::Down), 0);
    s.handle(Action::Enter, 0);
    s.handle(Action::Help, 0);
    s.handle(Action::Delete, 0);
    let times: Vec<u64> = s.history.records().iter().map(|r| r.time).collect();
    assert_eq!(times, vec![1000, 2000]);
}

#[test]
fn only_finished_solves_advance_the_scramble() {
    let mut a = Session::new(History::new(), 11);
    let mut b = Session::new(History::new(), 11);
    let first = a.scramble.clone();
    a.handle(Action::Primary, 0);
    a.handle(Action::Tick, 50);
    a.handle(Action::Help, 60);
    a.handle(Action::Delete, 70);
    assert_eq!(a.scramble, first);
    assert_eq!(a.scrambler.state, b.scrambler.state);
    a.handle(Action::Primary, 100);
    b.handle(Action::Primary, 0);
    b.handle(Action::Primary, 100);
    assert_eq!(a.scramble, b.scramble);
    assert_ne!(a.scramble, first);
}
