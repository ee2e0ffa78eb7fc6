//! The in-kernel terminal application.
//!
//! Characters accumulate in a line buffer until enter; the line is then
//! split on spaces, the first token names a command and the rest are its
//! arguments. Two commands exist: one powers the machine off (surfaced as an
//! action for the boot code to perform) and one toggles whether log records
//! render into the terminal window. Unknown commands are reported.

use vstd::prelude::*;
use crate::graphics::{blend_spec, glyph_raster, CHAR_HEIGHT, CHAR_WIDTH, Color, FrameBufferRenderer, Vec2, WindowSettings};
use crate::keyboard::KeyInput;

verus! {

/// Color of the cursor glyph.
pub fn cursor_color() -> (r: Color)
    ensures
        r == (Color { r: 252, g: 230, b: 169 }),
{
    Color { r: 252, g: 230, b: 169 }
}

/// Color of typed text.
pub fn text_color() -> (r: Color)
    ensures
        r == (Color { r: 169, g: 234, b: 252 }),
{
    Color { r: 169, g: 234, b: 252 }
}

/// Background of the scrollback area.
pub fn background_history() -> (r: Color)
    ensures
        r == (Color { r: 20, g: 20, b: 20 }),
{
    Color { r: 20, g: 20, b: 20 }
}

/// Background of the command line row.
pub fn background_command() -> (r: Color)
    ensures
        r == (Color { r: 40, g: 40, b: 40 }),
{
    Color { r: 40, g: 40, b: 40 }
}

/// The commands the terminal knows.
#[derive(Clone, Copy, Debug, PartialEq, Eq, Structural)]
pub enum Command {
    /// Write the success exit code to the hypervisor's exit port.
    Poweroff,
    /// Toggle whether log records render into the terminal window.
    Logs,
}

/// What a key press asks the surrounding system to do.
#[derive(Clone, Copy, Debug, PartialEq, Eq, Structural)]
pub enum TerminalAction {
    /// Nothing beyond terminal-local state and drawing.
    Nothing,
    /// A known command ran against the terminal's state.
    Ran,
    /// The machine should power off.
    Poweroff,
    /// The command name matched nothing; the caller reports the known set.
    UnknownCommand,
}

/// The characters of the power-off command's name.
pub open spec fn poweroff_chars() -> Seq<char> {
    seq!['p', 'o', 'w', 'e', 'r', 'o', 'f', 'f']
}

/// The characters of the log-toggle command's name.
pub open spec fn logs_chars() -> Seq<char> {
    seq!['l', 'o', 'g', 's']
}

/// The characters of the boolean literal a log-toggle argument must match.
pub open spec fn true_chars() -> Seq<char> {
    seq!['t', 'r', 'u', 'e']
}

/// A line split on single spaces: always at least one token, empty tokens
/// between consecutive spaces, the empty line giving one empty token.
pub open spec fn split_spaces(s: Seq<char>) -> Seq<Seq<char>>
    decreases s.len(),
{
    if s.len() == 0 {
        seq![Seq::<char>::empty()]
    } else if s[0] == ' ' {
        seq![Seq::<char>::empty()] + split_spaces(s.drop_first())
    } else {
        let rest = split_spaces(s.drop_first());
        seq![seq![s[0]] + rest[0]] + rest.drop_first()
    }
}

/// A split line has at least one token.
pub proof fn lemma_split_nonempty(s: Seq<char>)
    ensures
        split_spaces(s).len() >= 1,
    decreases s.len(),
{
    if s.len() > 0 {
        lemma_split_nonempty(s.drop_first());
    }
}

/// Split a line on spaces, exactly as [`split_spaces`] describes.
pub fn split_input(input: &Vec<char>) -> (r: Vec<Vec<char>>)
    ensures
        r@.len() == split_spaces(input@).len(),
        forall|t: int|
            0 <= t < r@.len() ==> (#[trigger] r@[t])@ == split_spaces(input@)[t],
{
    let ghost whole = split_spaces(input@);
    let mut finished: Vec<Vec<char>> = Vec::new();
    let mut cur: Vec<char> = Vec::new();
    let mut i: usize = 0;
    proof {
        assert(input@.skip(0) =~= input@);
        lemma_split_nonempty(input@);
    }
    while i < input.len()
        invariant
            i <= input@.len(),
            whole == split_spaces(input@),
            split_spaces(input@.skip(i as int)).len() >= 1,
            whole.len() == finished@.len() + split_spaces(input@.skip(i as int)).len(),
            forall|t: int|
                0 <= t < finished@.len() ==> (#[trigger] finished@[t])@ == whole[t],
            cur@ + split_spaces(input@.skip(i as int))[0] == whole[finished@.len() as int],
            forall|t: int|
                1 <= t < split_spaces(input@.skip(i as int)).len() ==> #[trigger] split_spaces(
                    input@.skip(i as int),
                )[t] == whole[finished@.len() + t],
        decreases input@.len() - i,
    {
        let c = input[i];
        let ghost sp_i = split_spaces(input@.skip(i as int));
        let ghost sp_i1 = split_spaces(input@.skip(i as int + 1));
        let ghost f = finished@.len() as int;
        proof {
            assert(input@.skip(i as int).len() > 0);
            assert(input@.skip(i as int)[0] == input@[i as int]);
            assert(input@.skip(i as int).drop_first() =~= input@.skip(i as int + 1));
            lemma_split_nonempty(input@.skip(i as int + 1));
        }
        if c == ' ' {
            proof {
                assert(sp_i =~= seq![Seq::<char>::empty()] + sp_i1);
                assert(cur@ + sp_i[0] =~= cur@);
                assert(cur@ == whole[f]);
            }
            finished.push(cur);
            cur = Vec::new();
            proof {
                assert(sp_i[1] == sp_i1[0]);
                assert(whole[f + 1] == sp_i1[0]);
                assert(cur@ + sp_i1[0] =~= sp_i1[0]);
                assert forall|t: int| 1 <= t < sp_i1.len() implies #[trigger] sp_i1[t] == whole[(f
                    + 1) + t] by {
                    assert(sp_i[t + 1] == sp_i1[t]);
                    assert(sp_i[t + 1] == whole[f + (t + 1)]);
                }
            }
        } else {
            proof {
                assert(sp_i =~= seq![seq![c] + sp_i1[0]] + sp_i1.drop_first());
                assert(sp_i[0] == seq![c] + sp_i1[0]);
                assert(cur@ + sp_i[0] == whole[f]);
                assert((cur@ + seq![c]) + sp_i1[0] =~= cur@ + (seq![c] + sp_i1[0]));
                assert(cur@.push(c) =~= cur@ + seq![c]);
            }
            cur.push(c);
            proof {
                assert(cur@ + sp_i1[0] == whole[f]);
                assert(sp_i.len() == sp_i1.len());
                assert forall|t: int| 1 <= t < sp_i1.len() implies #[trigger] sp_i1[t] == whole[f
                    + t] by {
                    assert(sp_i[t] == sp_i1.drop_first()[t - 1]);
                    assert(sp_i1.drop_first()[t - 1] == sp_i1[t]);
                    assert(sp_i[t] == whole[f + t]);
                }
            }
        }
        i = i + 1;
    }
    proof {
        assert(input@.skip(i as int) =~= Seq::<char>::empty());
        assert(cur@ + split_spaces(Seq::<char>::empty())[0] =~= cur@);
    }
    finished.push(cur);
    finished
}

/// Character-wise equality of two token buffers.
fn chars_eq(a: &Vec<char>, b: &Vec<char>) -> (r: bool)
    ensures
        r == (a@ == b@),
{
    if a.len() != b.len() {
        return false;
    }
    let mut i: usize = 0;
    while i < a.len()
        invariant
            i <= a@.len(),
            a@.len() == b@.len(),
            forall|j: int| 0 <= j < i ==> a@[j] == b@[j],
        decreases a@.len() - i,
    {
        if a[i] != b[i] {
            return false;
        }
        i = i + 1;
    }
    proof {
        assert(a@ =~= b@);
    }
    true
}

/// The table of known commands, keyed by name.
pub fn init_commands() -> (r: Vec<(Vec<char>, Command)>)
    ensures
        r@.len() == 2,
        r@[0].0@ == poweroff_chars(),
        r@[0].1 == Command::Poweroff,
        r@[1].0@ == logs_chars(),
        r@[1].1 == Command::Logs,
{
    let mut poweroff: Vec<char> = Vec::new();
    poweroff.push('p');
    poweroff.push('o');
    poweroff.push('w');
    poweroff.push('e');
    poweroff.push('r');
    poweroff.push('o');
    poweroff.push('f');
    poweroff.push('f');
    let mut logs: Vec<char> = Vec::new();
    logs.push('l');
    logs.push('o');
    logs.push('g');
    logs.push('s');
    proof {
        assert(poweroff@ =~= poweroff_chars());
        assert(logs@ =~= logs_chars());
    }
    let mut r: Vec<(Vec<char>, Command)> = Vec::new();
    r.push((poweroff, Command::Poweroff));
    r.push((logs, Command::Logs));
    r
}

/// The boolean value of a command's first argument: `true` for the literal
/// `true`, and the default `false` for `false`, for anything unparseable and
/// for a missing argument.
pub open spec fn spec_first_bool_arg(args: Seq<Seq<char>>) -> bool {
    args.len() > 0 && args[0] == true_chars()
}

/// First argument parsed as a boolean, with `false` as the default for a
/// missing or unparseable argument.
pub fn get_first_arg(args: &Vec<Vec<char>>) -> (r: bool)
    ensures
        r == (args@.len() > 0 && args@[0]@ == true_chars()),
{
    if args.len() == 0 {
        return false;
    }
    let mut pat: Vec<char> = Vec::new();
    pat.push('t');
    pat.push('r');
    pat.push('u');
    pat.push('e');
    proof {
        assert(pat@ =~= true_chars());
    }
    chars_eq(&args[0], &pat)
}

/// The action a command line asks for.
pub open spec fn spec_command_action(input: Seq<char>) -> TerminalAction {
    let toks = split_spaces(input);
    if toks[0] == poweroff_chars() {
        TerminalAction::Poweroff
    } else if toks[0] == logs_chars() {
        TerminalAction::Ran
    } else {
        TerminalAction::UnknownCommand
    }
}

/// The log-toggle flag after a command line ran.
pub open spec fn spec_logs_after(input: Seq<char>, old_logs: bool) -> bool {
    let toks = split_spaces(input);
    if toks[0] == logs_chars() {
        spec_first_bool_arg(toks.drop_first())
    } else {
        old_logs
    }
}

/// The terminal: one command line of input, a cursor column, the log-render
/// flag, and the window it draws into.
pub struct Terminal {
    pub window_settings: WindowSettings,
    pub current_str_input: Vec<char>,
    pub current_char_x: u16,
    pub logs: bool,
    pub commands: Vec<(Vec<char>, Command)>,
}

impl Terminal {
    /// The command table holds exactly the two known commands.
    pub open spec fn commands_wf(self) -> bool {
        &&& self.commands@.len() == 2
        &&& self.commands@[0].0@ == poweroff_chars()
        &&& self.commands@[0].1 == Command::Poweroff
        &&& self.commands@[1].0@ == logs_chars()
        &&& self.commands@[1].1 == Command::Logs
    }

    /// The cursor column mirrors the input length.
    pub open spec fn wf(self) -> bool {
        &&& self.commands_wf()
        &&& self.current_str_input@.len() == self.current_char_x
    }

    /// The window leaves room for the current line, one more character and
    /// the cursor, and lies inside the drawing surface.
    pub open spec fn window_ok(self, fb: FrameBufferRenderer) -> bool {
        &&& (self.current_char_x + 2) * CHAR_WIDTH <= self.window_settings.window_size_pixels.x
        &&& CHAR_HEIGHT + self.window_settings.window_offset_pixels.y + 1
            < self.window_settings.window_size_pixels.y
        &&& self.window_settings.window_offset_pixels.x
            + self.window_settings.window_size_pixels.x <= fb.stride
        &&& self.window_settings.window_size_pixels.y <= fb.height
        &&& fb.wf()
    }

    /// A fresh terminal: empty line, cursor at the left edge, log rendering
    /// on, the standard command table, and no window yet.
    pub fn new() -> (r: Terminal)
        ensures
            r.wf(),
            r.window_settings == (WindowSettings {
                window_size_pixels: Vec2 { x: 0, y: 0 },
                window_offset_pixels: Vec2 { x: 0, y: 0 },
            }),
            r.current_str_input@ == Seq::<char>::empty(),
            r.current_char_x == 0,
            r.logs,
    {
        Terminal {
            window_settings: WindowSettings::blank(),
            current_str_input: Vec::new(),
            current_char_x: 0,
            logs: true,
            commands: init_commands(),
        }
    }

    /// Pixel position of the cursor column on the command row.
    pub fn new_char_pos(&self) -> (r: Vec2)
        requires
            self.current_char_x * CHAR_WIDTH <= u16::MAX,
        ensures
            r.x == self.current_char_x * CHAR_WIDTH,
            r.y == 0,
    {
        Vec2 { x: self.current_char_x * CHAR_WIDTH, y: 0 }
    }

    /// Run the current command line: resolve the first token against the
    /// command table and apply the command. Only the log-toggle command
    /// changes terminal state; the power-off command is handed back to the
    /// caller as an action.
    pub fn parse_and_run_current_command(&mut self) -> (r: TerminalAction)
        requires
            old(self).commands_wf(),
        ensures
            r == spec_command_action(old(self).current_str_input@),
            final(self).logs == spec_logs_after(old(self).current_str_input@, old(self).logs),
            final(self).current_str_input@ == old(self).current_str_input@,
            final(self).current_char_x == old(self).current_char_x,
            final(self).window_settings == old(self).window_settings,
            final(self).commands@ == old(self).commands@,
    {
        proof {
            lemma_split_nonempty(self.current_str_input@);
        }
        let tokens = split_input(&self.current_str_input);
        let name = &tokens[0];
        if chars_eq(name, &self.commands[0].0) {
            return TerminalAction::Poweroff;
        }
        if chars_eq(name, &self.commands[1].0) {
            let mut args: Vec<Vec<char>> = Vec::new();
            let mut i: usize = 1;
            while i < tokens.len()
                invariant
                    1 <= i <= tokens@.len(),
                    args@.len() == i - 1,
                    forall|j: int| 0 <= j < args@.len() ==> (#[trigger] args@[j])@ == tokens@[j + 1]@,
                decreases tokens@.len() - i,
            {
                args.push(tokens[i].clone());
                i = i + 1;
            }
            set_log_level(self, &args);
            proof {
                let toks = split_spaces(old(self).current_str_input@);
                if args@.len() > 0 {
                    assert(args@[0]@ == toks[1]);
                    assert(toks.drop_first()[0] == toks[1]);
                }
                assert(toks.drop_first().len() == toks.len() - 1);
            }
            return TerminalAction::Ran;
        }
        TerminalAction::UnknownCommand
    }
}

/// Set the terminal's log-render flag from a command's first argument.
pub fn set_log_level(terminal: &mut Terminal, args: &Vec<Vec<char>>)
    ensures
        final(terminal).logs == (args@.len() > 0 && args@[0]@ == true_chars()),
        final(terminal).current_str_input@ == old(terminal).current_str_input@,
        final(terminal).current_char_x == old(terminal).current_char_x,
        final(terminal).window_settings == old(terminal).window_settings,
        final(terminal).commands@ == old(terminal).commands@,
{
    terminal.logs = get_first_arg(args);
}

/// Pixel position of a character cell.
pub fn char_pos(x: u16, y: u16) -> (r: Vec2)
    requires
        x * CHAR_WIDTH <= u16::MAX,
        y * CHAR_HEIGHT <= u16::MAX,
    ensures
        r.x == x * CHAR_WIDTH,
        r.y == y * CHAR_HEIGHT,
{
    Vec2 { x: x * CHAR_WIDTH, y: y * CHAR_HEIGHT }
}

impl Terminal {
    /// React to one decoded key.
    ///
    /// Enter runs the command line and clears it; backspace removes the last
    /// character; any other printable character is appended and drawn. The
    /// returned action is what the command line asked for, if enter ran one.
    pub fn on_key_pressed(&mut self, key: KeyInput, fb: &mut FrameBufferRenderer) -> (r:
        TerminalAction)
        requires
            old(self).wf(),
            old(self).window_ok(*old(fb)),
        ensures
            final(self).wf(),
            final(self).window_settings == old(self).window_settings,
            final(self).commands@ == old(self).commands@,
            final(fb).wf(),
            final(fb).width == old(fb).width,
            final(fb).height == old(fb).height,
            final(fb).stride == old(fb).stride,
            final(fb).bytes_per_pixel == old(fb).bytes_per_pixel,
            ({
                match key {
                    KeyInput::Unicode(c) => {
                        if c == '\n' {
                            &&& r == spec_command_action(old(self).current_str_input@)
                            &&& final(self).logs == spec_logs_after(
                                old(self).current_str_input@,
                                old(self).logs,
                            )
                            &&& final(self).current_str_input@ == Seq::<char>::empty()
                            &&& final(self).current_char_x == 0
                            &&& (forall|gy: int, gx: int|
                                0 <= gy < CHAR_HEIGHT && 0 <= gx < CHAR_WIDTH
                                    && #[trigger] glyph_raster('|')[gy][gx] != 0
                                    ==> final(fb).cell_is(
                                    old(self).window_settings,
                                    gx,
                                    CHAR_HEIGHT - gy,
                                    blend_spec(
                                        Color { r: 252, g: 230, b: 169 },
                                        Color { r: 40, g: 40, b: 40 },
                                        glyph_raster('|')[gy][gx],
                                    ),
                                ))
                            &&& (forall|px: int, py: int|
                                CHAR_WIDTH <= px < (old(self).current_char_x + 1) * CHAR_WIDTH
                                    && 0 <= py < CHAR_HEIGHT ==> #[trigger] final(fb).cell_is(
                                    old(self).window_settings,
                                    px,
                                    py,
                                    Color { r: 40, g: 40, b: 40 },
                                ))
                        } else if c == '\u{8}' {
                            &&& r == TerminalAction::Nothing
                            &&& final(self).logs == old(self).logs
                            &&& (old(self).current_char_x == 0 ==> *final(self) == *old(self))
                            &&& (old(self).current_char_x > 0
                                ==> final(self).current_str_input@
                                == old(self).current_str_input@.drop_last()
                                && final(self).current_char_x == old(self).current_char_x - 1)
                        } else if c == '\t' || c == '\r' || c == '\u{1b}' {
                            r == TerminalAction::Nothing && *final(self) == *old(self)
                        } else {
                            &&& r == TerminalAction::Nothing
                            &&& final(self).logs == old(self).logs
                            &&& final(self).current_str_input@
                                == old(self).current_str_input@.push(c)
                            &&& final(self).current_char_x == old(self).current_char_x + 1
                            &&& (forall|gy: int, gx: int|
                                0 <= gy < CHAR_HEIGHT && 0 <= gx < CHAR_WIDTH
                                    && #[trigger] glyph_raster(c)[gy][gx] != 0
                                    ==> final(fb).cell_is(
                                    old(self).window_settings,
                                    old(self).current_char_x * CHAR_WIDTH + gx,
                                    CHAR_HEIGHT - gy,
                                    blend_spec(
                                        Color { r: 169, g: 234, b: 252 },
                                        Color { r: 40, g: 40, b: 40 },
                                        glyph_raster(c)[gy][gx],
                                    ),
                                ))
                        }
                    },
                    _ => r == TerminalAction::Nothing && *final(self) == *old(self),
                }
            }),
    {
        match key {
            KeyInput::Unicode(c) => {
                if c == '\n' {
                    let action = self.parse_and_run_current_command();
                    let mut x: u16 = 0;
                    while x < self.current_char_x + 1
                        invariant
                            self.wf(),
                            self.window_ok(*fb),
                            self.window_settings == old(self).window_settings,
                            self.current_char_x == old(self).current_char_x,
                            fb.wf(),
                            fb.width == old(fb).width,
                            fb.height == old(fb).height,
                            fb.stride == old(fb).stride,
                            fb.bytes_per_pixel == old(fb).bytes_per_pixel,
                            x <= self.current_char_x + 1,
                            forall|px: int, py: int|
                                0 <= px < x * CHAR_WIDTH && 0 <= py < CHAR_HEIGHT
                                    ==> #[trigger] fb.cell_is(
                                    self.window_settings,
                                    px,
                                    py,
                                    Color { r: 40, g: 40, b: 40 },
                                ),
                        decreases self.current_char_x + 1 - x,
                    {
                        let ghost pre = *fb;
                        fb.draw_block_char(
                            &self.window_settings,
                            char_pos(x, 0),
                            background_command(),
                        );
                        proof {
                            assert forall|px: int, py: int|
                                0 <= px < (x + 1) * CHAR_WIDTH && 0 <= py < CHAR_HEIGHT implies
                                #[trigger] fb.cell_is(
                                self.window_settings,
                                px,
                                py,
                                Color { r: 40, g: 40, b: 40 },
                            ) by {
                                if px < x * CHAR_WIDTH {
                                    assert(pre.cell_is(
                                        self.window_settings,
                                        px,
                                        py,
                                        Color { r: 40, g: 40, b: 40 },
                                    ));
                                }
                            }
                        }
                        x = x + 1;
                    }
                    self.current_str_input = Vec::new();
                    self.current_char_x = 0;
                    let ghost mid = *fb;
                    fb.draw_char(
                        &self.window_settings,
                        char_pos(self.current_char_x, 0),
                        '|',
                        cursor_color(),
                        background_command(),
                    );
                    proof {
                        // the repainted row outside the cursor cell survives
                        // the cursor draw
                        assert forall|px: int, py: int|
                            CHAR_WIDTH <= px < (old(self).current_char_x + 1) * CHAR_WIDTH && 0
                                <= py < CHAR_HEIGHT implies #[trigger] fb.cell_is(
                            old(self).window_settings,
                            px,
                            py,
                            Color { r: 40, g: 40, b: 40 },
                        ) by {
                            assert(mid.cell_is(
                                old(self).window_settings,
                                px,
                                py,
                                Color { r: 40, g: 40, b: 40 },
                            ));
                        }
                    }
                    action
                } else if c == '\u{8}' {
                    if self.current_char_x == 0 {
                        return TerminalAction::Nothing;
                    }
                    fb.draw_char_no_anti_aliasing(
                        &self.window_settings,
                        char_pos(self.current_char_x, 0),
                        '|',
                        background_command(),
                    );
                    self.current_char_x = self.current_char_x - 1;
                    let pos = self.new_char_pos();
                    let removed = self.current_str_input.pop();
                    fb.draw_block_char(&self.window_settings, pos, background_command());
                    fb.draw_char(&self.window_settings, pos, '|', cursor_color(), background_command());
                    TerminalAction::Nothing
                } else if c == '\t' || c == '\r' || c == '\u{1b}' {
                    TerminalAction::Nothing
                } else {
                    fb.draw_char_no_anti_aliasing(
                        &self.window_settings,
                        char_pos(self.current_char_x, 0),
                        '|',
                        background_command(),
                    );
                    let pos = self.new_char_pos();
                    self.current_str_input.push(c);
                    fb.draw_char(&self.window_settings, pos, c, text_color(), background_command());
                    self.current_char_x = self.current_char_x + 1;
                    let ghost mid = *fb;
                    fb.draw_char(
                        &self.window_settings,
                        char_pos(self.current_char_x, 0),
                        '|',
                        cursor_color(),
                        background_command(),
                    );
                    proof {
                        // the typed glyph's cells lie left of the cursor
                        // cell, so the cursor draw leaves them as drawn
                        assert forall|gy: int, gx: int|
                            0 <= gy < CHAR_HEIGHT && 0 <= gx < CHAR_WIDTH && #[trigger] glyph_raster(
                                c,
                            )[gy][gx] != 0 implies fb.cell_is(
                            old(self).window_settings,
                            old(self).current_char_x * CHAR_WIDTH + gx,
                            CHAR_HEIGHT - gy,
                            blend_spec(
                                Color { r: 169, g: 234, b: 252 },
                                Color { r: 40, g: 40, b: 40 },
                                glyph_raster(c)[gy][gx],
                            ),
                        ) by {
                            assert(mid.cell_is(
                                old(self).window_settings,
                                old(self).current_char_x * CHAR_WIDTH + gx,
                                CHAR_HEIGHT - gy,
                                blend_spec(
                                    Color { r: 169, g: 234, b: 252 },
                                    Color { r: 40, g: 40, b: 40 },
                                    glyph_raster(c)[gy][gx],
                                ),
                            ));
                        }
                    }
                    TerminalAction::Nothing
                }
            },
            _ => TerminalAction::Nothing,
        }
    }

    /// Attach the terminal to its window and draw the empty command row with
    /// the cursor at the left edge.
    pub fn init(&mut self, graphics_data: WindowSettings, fb: &mut FrameBufferRenderer)
        requires
            old(self).wf(),
            old(self).current_char_x == 0,
            old(fb).wf(),
            graphics_data.window_offset_pixels.y == 0,
            graphics_data.window_offset_pixels.x + graphics_data.window_size_pixels.x <= old(
                fb,
            ).stride,
            graphics_data.window_size_pixels.y <= old(fb).height,
            CHAR_HEIGHT + 1 < graphics_data.window_size_pixels.y,
            2 * CHAR_WIDTH <= graphics_data.window_size_pixels.x,
        ensures
            final(self).wf(),
            final(self).window_settings == graphics_data,
            final(self).current_str_input@ == old(self).current_str_input@,
            final(self).current_char_x == old(self).current_char_x,
            final(self).logs == old(self).logs,
            final(fb).wf(),
            final(fb).width == old(fb).width,
            final(fb).height == old(fb).height,
            final(fb).stride == old(fb).stride,
            final(fb).bytes_per_pixel == old(fb).bytes_per_pixel,
            forall|gy: int, gx: int|
                0 <= gy < CHAR_HEIGHT && 0 <= gx < CHAR_WIDTH && #[trigger] glyph_raster('|')[gy][
                gx] != 0 ==> final(fb).cell_is(
                    graphics_data,
                    gx,
                    CHAR_HEIGHT - gy,
                    blend_spec(
                        Color { r: 252, g: 230, b: 169 },
                        Color { r: 40, g: 40, b: 40 },
                        glyph_raster('|')[gy][gx],
                    ),
                ),
            forall|px: int, py: int|
                CHAR_WIDTH <= px < (graphics_data.window_size_pixels.x / CHAR_WIDTH) * CHAR_WIDTH
                    && 0 <= py < CHAR_HEIGHT ==> #[trigger] final(fb).cell_is(
                    graphics_data,
                    px,
                    py,
                    Color { r: 40, g: 40, b: 40 },
                ),
            forall|px: int, py: int|
                0 <= px < graphics_data.window_size_pixels.x && CHAR_HEIGHT + 1 <= py
                    < graphics_data.window_size_pixels.y ==> #[trigger] final(fb).cell_is(
                    graphics_data,
                    px,
                    py,
                    Color { r: 20, g: 20, b: 20 },
                ),
    {
        self.window_settings = graphics_data;
        fb.fill_window_with_color(&self.window_settings, background_history());
        let cells: u16 = self.window_settings.window_size_pixels.x / CHAR_WIDTH;
        let mut x: u16 = 0;
        while x < cells
            invariant
                self.window_settings == graphics_data,
                cells == graphics_data.window_size_pixels.x / CHAR_WIDTH,
                fb.wf(),
                fb.width == old(fb).width,
                fb.height == old(fb).height,
                fb.stride == old(fb).stride,
                fb.bytes_per_pixel == old(fb).bytes_per_pixel,
                graphics_data.window_offset_pixels.y == 0,
                graphics_data.window_offset_pixels.x + graphics_data.window_size_pixels.x
                    <= fb.stride,
                graphics_data.window_size_pixels.y <= fb.height,
                CHAR_HEIGHT + 1 < graphics_data.window_size_pixels.y,
                x <= cells,
                forall|px: int, py: int|
                    0 <= px < x * CHAR_WIDTH && 0 <= py < CHAR_HEIGHT ==> #[trigger] fb.cell_is(
                        graphics_data,
                        px,
                        py,
                        Color { r: 40, g: 40, b: 40 },
                    ),
                forall|px: int, py: int|
                    0 <= px < graphics_data.window_size_pixels.x && CHAR_HEIGHT + 1 <= py
                        < graphics_data.window_size_pixels.y ==> #[trigger] fb.cell_is(
                        graphics_data,
                        px,
                        py,
                        Color { r: 20, g: 20, b: 20 },
                    ),
            decreases cells - x,
        {
            proof {
                vstd::arithmetic::div_mod::lemma_fundamental_div_mod(
                    graphics_data.window_size_pixels.x as int,
                    CHAR_WIDTH as int,
                );
                assert((x + 1) * CHAR_WIDTH <= cells * CHAR_WIDTH) by (nonlinear_arith)
                    requires
                        x + 1 <= cells,
                        CHAR_WIDTH as int >= 0,
                ;
                assert(cells * CHAR_WIDTH <= graphics_data.window_size_pixels.x) by (
                nonlinear_arith)
                    requires
                        cells == graphics_data.window_size_pixels.x as int / (CHAR_WIDTH as int),
                        graphics_data.window_size_pixels.x as int == (CHAR_WIDTH as int) * (
                        graphics_data.window_size_pixels.x as int / (CHAR_WIDTH as int)) + (
                        graphics_data.window_size_pixels.x as int % (CHAR_WIDTH as int)),
                        graphics_data.window_size_pixels.x as int % (CHAR_WIDTH as int) >= 0,
                ;
            }
            let ghost pre = *fb;
            fb.draw_block_char(
                &self.window_settings,
                Vec2 { x: x * CHAR_WIDTH, y: 0 },
                background_command(),
            );
            proof {
                assert forall|px: int, py: int|
                    0 <= px < (x + 1) * CHAR_WIDTH && 0 <= py < CHAR_HEIGHT implies
                    #[trigger] fb.cell_is(graphics_data, px, py, Color { r: 40, g: 40, b: 40 }) by {
                    if px < x * CHAR_WIDTH {
                        assert(pre.cell_is(graphics_data, px, py, Color { r: 40, g: 40, b: 40 }));
                    }
                }
                assert forall|px: int, py: int|
                    0 <= px < graphics_data.window_size_pixels.x && CHAR_HEIGHT + 1 <= py
                        < graphics_data.window_size_pixels.y implies #[trigger] fb.cell_is(
                    graphics_data,
                    px,
                    py,
                    Color { r: 20, g: 20, b: 20 },
                ) by {
                    assert(pre.cell_is(graphics_data, px, py, Color { r: 20, g: 20, b: 20 }));
                }
            }
            x = x + 1;
        }
        let ghost mid = *fb;
        fb.draw_char(
            &self.window_settings,
            char_pos(self.current_char_x, 0),
            '|',
            cursor_color(),
            background_command(),
        );
        proof {
            // the bar right of the cursor cell and the history area survive
            // the cursor draw
            assert forall|px: int, py: int|
                CHAR_WIDTH <= px < (graphics_data.window_size_pixels.x / CHAR_WIDTH) * CHAR_WIDTH
                    && 0 <= py < CHAR_HEIGHT implies #[trigger] fb.cell_is(
                graphics_data,
                px,
                py,
                Color { r: 40, g: 40, b: 40 },
            ) by {
                assert((graphics_data.window_size_pixels.x / CHAR_WIDTH) * CHAR_WIDTH
                    <= graphics_data.window_size_pixels.x) by (nonlinear_arith)
                    requires
                        graphics_data.window_size_pixels.x as int == (CHAR_WIDTH as int) * (
                        graphics_data.window_size_pixels.x as int / (CHAR_WIDTH as int)) + (
                        graphics_data.window_size_pixels.x as int % (CHAR_WIDTH as int)),
                        graphics_data.window_size_pixels.x as int % (CHAR_WIDTH as int) >= 0,
                ;
                assert(mid.cell_is(graphics_data, px, py, Color { r: 40, g: 40, b: 40 }));
            }
            assert forall|px: int, py: int|
                0 <= px < graphics_data.window_size_pixels.x && CHAR_HEIGHT + 1 <= py
                    < graphics_data.window_size_pixels.y implies #[trigger] fb.cell_is(
                graphics_data,
                px,
                py,
                Color { r: 20, g: 20, b: 20 },
            ) by {
                assert(mid.cell_is(graphics_data, px, py, Color { r: 20, g: 20, b: 20 }));
            }
        }
    }

    /// A log record arrived for the terminal. Deliberately a no-op: the
    /// `logs` flag says whether the surrounding application layer should
    /// render records into the window, and that rendering lives there; the
    /// terminal's own state is untouched by a record.
    pub fn on_log(&mut self, log_data: &[u8; 80])
        ensures
            *final(self) == *old(self),
    {
    }
}

} // verus!
