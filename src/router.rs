//! Navigation between the panels of the screen: which panel has focus,
//! which one has been entered, and what the entered panel does with keys.
use vstd::prelude::*;

verus! {

#[derive(Clone, Copy, Debug, PartialEq, Eq, Structural)]
pub enum Screen {
    Default,
    Help,
}

/// The focusable panels. On screen they form this grid:
/// `Help Tools | Scramble`, then `Timer | Stats`, then `Times | Main`.
#[derive(Clone, Copy, Debug, PartialEq, Eq, Structural)]
pub enum Block {
    Help,
    Tools,
    Timer,
    Times,
    Scramble,
    Stats,
    Main,
}

#[derive(Clone, Copy, Debug, PartialEq, Eq, Structural)]
pub enum Dir {
    Left,
    Right,
    Up,
    Down,
}

/// The views that the main panel can show.
#[derive(Clone, Copy, Debug, PartialEq, Eq, Structural)]
pub enum Tool {
    Welcome,
    Chart,
    Cube,
}

/// Number of entries in the tools list.
pub const TOOL_COUNT: usize = 3;

/// The panel next to `b` in direction `d`, if there is one.
pub open spec fn neighbor(b: Block, d: Dir) -> Option<Block> {
    match (b, d) {
        (Block::Help, Dir::Right) => Some(Block::Tools),
        (Block::Help, Dir::Down) => Some(Block::Timer),
        (Block::Tools, Dir::Left) => Some(Block::Help),
        (Block::Tools, Dir::Right) => Some(Block::Scramble),
        (Block::Tools, Dir::Down) => Some(Block::Timer),
        (Block::Timer, Dir::Up) => Some(Block::Help),
        (Block::Timer, Dir::Right) => Some(Block::Stats),
        (Block::Timer, Dir::Down) => Some(Block::Times),
        (Block::Times, Dir::Up) => Some(Block::Timer),
        (Block::Times, Dir::Right) => Some(Block::Main),
        (Block::Scramble, Dir::Left) => Some(Block::Tools),
        (Block::Scramble, Dir::Down) => Some(Block::Stats),
        (Block::Stats, Dir::Up) => Some(Block::Scramble),
        (Block::Stats, Dir::Left) => Some(Block::Timer),
        (Block::Stats, Dir::Down) => Some(Block::Main),
        (Block::Main, Dir::Up) => Some(Block::Stats),
        (Block::Main, Dir::Left) => Some(Block::Times),
        _ => None,
    }
}

/// The panel next to `b` in direction `d`, if there is one.
pub fn neighbor_of(b: Block, d: Dir) -> (r: Option<Block>)
    ensures
        r == neighbor(b, d),
{
    match (b, d) {
        (Block::Help, Dir::Right) => Some(Block::Tools),
        (Block::Help, Dir::Down) => Some(Block::Timer),
        (Block::Tools, Dir::Left) => Some(Block::Help),
        (Block::Tools, Dir::Right) => Some(Block::Scramble),
        (Block::Tools, Dir::Down) => Some(Block::Timer),
        (Block::Timer, Dir::Up) => Some(Block::Help),
        (Block::Timer, Dir::Right) => Some(Block::Stats),
        (Block::Timer, Dir::Down) => Some(Block::Times),
        (Block::Times, Dir::Up) => Some(Block::Timer),
        (Block::Times, Dir::Right) => Some(Block::Main),
        (Block::Scramble, Dir::Left) => Some(Block::Tools),
        (Block::Scramble, Dir::Down) => Some(Block::Stats),
        (Block::Stats, Dir::Up) => Some(Block::Scramble),
        (Block::Stats, Dir::Left) => Some(Block::Timer),
        (Block::Stats, Dir::Down) => Some(Block::Main),
        (Block::Main, Dir::Up) => Some(Block::Stats),
        (Block::Main, Dir::Left) => Some(Block::Times),
        _ => None,
    }
}

/// The tool listed at position `i` of the tools list.
pub open spec fn tool_at(i: usize) -> Tool {
    if i == 0 {
        Tool::Welcome
    } else if i == 1 {
        Tool::Chart
    } else {
        Tool::Cube
    }
}

/// Focus and selection. `tool_cursor` is the highlighted entry of the tools
/// list and `times_cursor` the highlighted row of the newest-first times
/// table.
#[derive(Clone, Copy, Debug, PartialEq, Eq, Structural)]
pub struct Router {
    pub screen: Screen,
    pub active_block: Block,
    pub selected_block: Option<Block>,
    pub active_tool: Tool,
    pub tool_cursor: usize,
    pub times_cursor: usize,
}

/// A cursor moved one step up (towards zero) or down, staying below `count`.
pub open spec fn cursor_step(c: usize, d: Dir, count: usize) -> usize {
    match d {
        Dir::Up => if c > 0 { (c - 1) as usize } else { c },
        Dir::Down => if c + 1 < count { (c + 1) as usize } else { c },
        _ => c,
    }
}

/// The times cursor kept on an existing row of a table of `rows` rows.
pub open spec fn clamped_cursor(c: usize, rows: usize) -> usize {
    if c < rows || rows == 0 {
        c
    } else {
        (rows - 1) as usize
    }
}

/// A directional key, with `rows` rows in the times table.
pub open spec fn move_step(r: Router, d: Dir, rows: usize) -> Router {
    match r.selected_block {
        None => match neighbor(r.active_block, d) {
            Some(b) => Router { active_block: b, ..r },
            None => r,
        },
        Some(Block::Tools) => Router { tool_cursor: cursor_step(r.tool_cursor, d, TOOL_COUNT), ..r },
        Some(Block::Times) => Router { times_cursor: cursor_step(r.times_cursor, d, rows), ..r },
        Some(_) => r,
    }
}

/// The confirm key: enters the focused panel, or inside the tools list
/// makes the highlighted tool the active one.
pub open spec fn enter_step(r: Router) -> Router {
    match r.selected_block {
        None => Router { selected_block: Some(r.active_block), ..r },
        Some(Block::Tools) => Router { active_tool: tool_at(r.tool_cursor), ..r },
        Some(_) => r,
    }
}

/// The cancel key: leaves the entered panel, and also the help screen.
pub open spec fn escape_step(r: Router) -> Router {
    Router { selected_block: None, screen: Screen::Default, ..r }
}

/// The help key: shows or hides the help screen.
pub open spec fn help_step(r: Router) -> Router {
    if r.screen == Screen::Help {
        Router { screen: Screen::Default, ..r }
    } else {
        Router { screen: Screen::Help, ..r }
    }
}

fn cursor_move(c: usize, d: Dir, count: usize) -> (r: usize)
    ensures
        r == cursor_step(c, d, count),
{
    match d {
        Dir::Up => if c > 0 {
            c - 1
        } else {
            c
        },
        Dir::Down => if count > 0 && c < count - 1 {
            c + 1
        } else {
            c
        },
        _ => c,
    }
}

impl Router {
    /// The default screen with the timer focused and nothing entered.
    pub open spec fn new_spec() -> Router {
        Router {
            screen: Screen::Default,
            active_block: Block::Timer,
            selected_block: None,
            active_tool: Tool::Welcome,
            tool_cursor: 0,
            times_cursor: 0,
        }
    }

    /// The default screen with the timer focused and nothing entered.
    pub fn new() -> (r: Router)
        ensures
            r == Router::new_spec(),
    {
        Router {
            screen: Screen::Default,
            active_block: Block::Timer,
            selected_block: None,
            active_tool: Tool::Welcome,
            tool_cursor: 0,
            times_cursor: 0,
        }
    }

    /// Handles a directional key; `rows` is the number of rows of the times
    /// table.
    pub fn move_dir(&mut self, d: Dir, rows: usize)
        ensures
            *final(self) == move_step(*old(self), d, rows),
    {
        match self.selected_block {
            None => match neighbor_of(self.active_block, d) {
                Some(b) => self.active_block = b,
                None => {},
            },
            Some(Block::Tools) => self.tool_cursor = cursor_move(self.tool_cursor, d, TOOL_COUNT),
            Some(Block::Times) => self.times_cursor = cursor_move(self.times_cursor, d, rows),
            Some(_) => {},
        }
    }

    /// Handles the confirm key.
    pub fn enter(&mut self)
        ensures
            *final(self) == enter_step(*old(self)),
    {
        match self.selected_block {
            None => self.selected_block = Some(self.active_block),
            Some(Block::Tools) => {
                self.active_tool = if self.tool_cursor == 0 {
                    Tool::Welcome
                } else if self.tool_cursor == 1 {
                    Tool::Chart
                } else {
                    Tool::Cube
                };
            },
            Some(_) => {},
        }
    }

    /// Handles the cancel key.
    pub fn escape(&mut self)
        ensures
            *final(self) == escape_step(*old(self)),
    {
        self.selected_block = None;
        self.screen = Screen::Default;
    }

    /// Handles the help key.
    pub fn help(&mut self)
        ensures
            *final(self) == help_step(*old(self)),
    {
        self.screen = match self.screen {
            Screen::Help => Screen::Default,
            Screen::Default => Screen::Help,
        };
    }

    /// The row of the times table that the delete key removes: the
    /// highlighted one, while the times table is entered.
    pub fn delete_target(&self) -> (r: Option<usize>)
        ensures
            r == (if self.selected_block == Some(Block::Times) {
                Some(self.times_cursor)
            } else {
                None
            }),
    {
        if self.selected_block == Some(Block::Times) {
            Some(self.times_cursor)
        } else {
            None
        }
    }

    /// Keeps the times cursor on an existing row once the table has `rows`
    /// rows.
    pub fn clamp_times_cursor(&mut self, rows: usize)
        ensures
            final(self).times_cursor == clamped_cursor(old(self).times_cursor, rows),
            *final(self) == (Router { times_cursor: final(self).times_cursor, ..*old(self) }),
    {
        if rows > 0 && self.times_cursor >= rows {
            self.times_cursor = rows - 1;
        }
    }
}

/// Moving left from a panel of the left edge changes nothing.
pub proof fn lemma_left_edge_noop(r: Router, rows: usize)
    requires
        r.selected_block.is_none(),
        r.active_block == Block::Help || r.active_block == Block::Timer || r.active_block
            == Block::Times,
    ensures
        move_step(r, Dir::Left, rows) == r,
{
}

/// With nothing entered on the default screen, the cancel key changes
/// nothing.
pub proof fn lemma_escape_noop(r: Router)
    requires
        r.selected_block.is_none(),
        r.screen == Screen::Default,
    ensures
        escape_step(r) == r,
{
}

/// Opening help and then cancelling returns to the screen and the focus
/// that were there before.
pub proof fn lemma_help_then_escape(r: Router)
    requires
        r.screen == Screen::Default,
    ensures
        escape_step(help_step(r)).screen == r.screen,
        escape_step(help_step(r)).active_block == r.active_block,
{
}

} // verus!
