use cube_tui::router::{neighbor_of, Block, Dir, Router, Screen, Tool};

#[test]
fn move_left_from_left_edge_is_noop() {
    for b in [Block::Help, Block::Timer, Block::Times] {
        let mut r = Router::new();
        r.active_block = b;
        let before = r;
        r.move_dir(Dir::Left, 0);
        assert_eq!(r, before);
    }
}

#[test]
fn moves_follow_the_grid() {
    let mut r = Router::new();
    assert_eq!(r.active_block, Block::Timer);
    r.move_dir(Dir::Up, 0);
    assert_eq!(r.active_block, Block::Help);
    r.move_dir(Dir::Right, 0);
    assert_eq!(r.active_block, Block::Tools);
    r.move_dir(Dir::Right, 0);
    assert_eq!(r.active_block, Block::Scramble);
    r.move_dir(Dir::Right, 0);
    assert_eq!(r.active_block, Block::Scramble);
    r.move_dir(Dir::Down, 0);
    r.move_dir(Dir::Down, 0);
    assert_eq!(r.active_block, Block::Main);
    assert_eq!(neighbor_of(Block::Main, Dir::Left), Some(Block::Times));
}

#[test]
fn escape_without_selection_is_noop() {
    let mut r = Router::new();
    let before = r;
    r.escape();
    assert_eq!(r, before);
}

#[test]
fn help_then_escape_restores_state() {
    let mut r = Router::new();
    r.move_dir(Dir::Down, 3);
    let before = r;
    r.help();
    assert_eq!(r.screen, Screen::Help);
    r.escape();
    assert_eq!(r, before);
}

#[test]
fn escape_on_help_screen_also_leaves_entered_panel() {
    let mut r = Router::new();
    r.move_dir(Dir::Down, 3);
    r.enter();
    r.help();
    r.escape();
    assert_eq!(r.screen, Screen::Default);
    assert_eq!(r.active_block, Block::Times);
    assert_eq!(r.selected_block, None);
}

#[test]
fn keys_act_while_help_is_shown() {
    let mut r = Router::new();
    r.help();
    r.move_dir(Dir::Up, 0);
    assert_eq!(r.active_block, Block::Help);
    r.move_dir(Dir::Down, 0);
    r.move_dir(Dir::Down, 4);
    r.enter();
    assert_eq!(r.selected_block, Some(Block::Times));
    r.move_dir(Dir::Down, 4);
    assert_eq!(r.screen, Screen::Help);
    assert_eq!(r.delete_target(), Some(1));
}

#[test]
fn enter_tools_and_choose_chart() {
    let mut r = Router::new();
    r.move_dir(Dir::Up, 0);
    r.move_dir(Dir::Right, 0);
    r.enter();
    assert_eq!(r.selected_block, Some(Block::Tools));
    r.move_dir(Dir::Down, 0);
    r.enter();
    assert_eq!(r.active_tool, Tool::Chart);
    r.move_dir(Dir::Down, 0);
    r.move_dir(Dir::Down, 0);
    r.enter();
    assert_eq!(r.active_tool, Tool::Cube);
    r.escape();
    assert_eq!(r.selected_block, None);
}

#[test]
fn delete_routed_only_inside_times() {
    let mut r = Router::new();
    assert_eq!(r.delete_target(), None);
    r.move_dir(Dir::Down, 5);
    r.enter();
    assert_eq!(r.selected_block, Some(Block::Times));
    r.move_dir(Dir::Down, 5);
    r.move_dir(Dir::Down, 5);
    assert_eq!(r.delete_target(), Some(2));
    r.clamp_times_cursor(2);
    assert_eq!(r.delete_target(), Some(1));
}
