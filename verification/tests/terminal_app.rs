//! Exercises the terminal end to end: decoding scancodes through the real
//! PS/2 decoder, typing, running commands, and the split/parse helpers.

use kernel_core::graphics::FrameBufferRenderer;
use kernel_core::keyboard::{KeyInput, KeyboardDecoder};
use kernel_core::terminal::{
    get_first_arg, init_commands, split_input, Command, Terminal, TerminalAction,
};

fn surface() -> FrameBufferRenderer {
    FrameBufferRenderer::new(400, 64, 400, 4)
}

fn attached() -> (Terminal, FrameBufferRenderer) {
    let mut fb = surface();
    let mut t = Terminal::new();
    let ws = kernel_core::graphics::WindowSettings::new(
        kernel_core::graphics::Vec2 { x: 400, y: 64 },
        kernel_core::graphics::Vec2 { x: 0, y: 0 },
    );
    t.init(ws, &mut fb);
    (t, fb)
}

fn type_line(t: &mut Terminal, fb: &mut FrameBufferRenderer, line: &str) -> TerminalAction {
    let mut last = TerminalAction::Nothing;
    for c in line.chars() {
        last = t.on_key_pressed(KeyInput::Unicode(c), fb);
    }
    last
}

#[test]
fn keyboard_pipeline_draws_and_advances_cursor() {
    // press and release of the first letter key: the press decodes to a
    // character, the release to nothing; the terminal draws the glyph and
    // advances by one column.
    let (mut t, mut fb) = attached();
    let before = fb.buffer.clone();
    let mut kbd = KeyboardDecoder::new();
    let mut decoded = Vec::new();
    for scancode in [0x1Eu8, 0x9E] {
        if let Some(ev) = kbd.add_byte(scancode) {
            decoded.push(kbd.decode_event(ev));
        }
    }
    assert!(decoded.contains(&KeyInput::Unicode('a')));
    for key in decoded {
        if let KeyInput::Unicode(_) = key {
            t.on_key_pressed(key, &mut fb);
        }
    }
    assert_eq!(t.current_char_x, 1);
    assert_eq!(t.current_str_input, vec!['a']);
    assert_ne!(fb.buffer, before, "the glyph was drawn");
}

#[test]
fn release_only_scancode_decodes_to_nothing() {
    let mut kbd = KeyboardDecoder::new();
    let mut keys = Vec::new();
    if let Some(ev) = kbd.add_byte(0x9E) {
        keys.push(kbd.decode_event(ev));
    }
    assert!(!keys.contains(&KeyInput::Unicode('a')));
}

#[test]
fn logs_false_clears_the_flag() {
    let (mut t, mut fb) = attached();
    assert!(t.logs);
    let action = type_line(&mut t, &mut fb, "logs false\n");
    assert_eq!(action, TerminalAction::Ran);
    assert!(!t.logs);
    assert_eq!(t.current_char_x, 0);
    assert!(t.current_str_input.is_empty());
    let action = type_line(&mut t, &mut fb, "logs true\n");
    assert_eq!(action, TerminalAction::Ran);
    assert!(t.logs);
}

#[test]
fn poweroff_returns_the_shutdown_action() {
    let (mut t, mut fb) = attached();
    let action = type_line(&mut t, &mut fb, "poweroff\n");
    assert_eq!(action, TerminalAction::Poweroff);
}

#[test]
fn unknown_command_is_reported() {
    let (mut t, mut fb) = attached();
    let action = type_line(&mut t, &mut fb, "reboot\n");
    assert_eq!(action, TerminalAction::UnknownCommand);
    let action = type_line(&mut t, &mut fb, "\n");
    assert_eq!(action, TerminalAction::UnknownCommand);
}

#[test]
fn backspace_edits_the_line() {
    let (mut t, mut fb) = attached();
    type_line(&mut t, &mut fb, "logz");
    t.on_key_pressed(KeyInput::Unicode('\u{8}'), &mut fb);
    assert_eq!(t.current_str_input, vec!['l', 'o', 'g']);
    assert_eq!(t.current_char_x, 3);
    // backspace on an empty line is a no-op
    let (mut t2, mut fb2) = attached();
    t2.on_key_pressed(KeyInput::Unicode('\u{8}'), &mut fb2);
    assert_eq!(t2.current_char_x, 0);
    // the edited command still runs
    let action = type_line(&mut t, &mut fb, "s true\n");
    assert_eq!(action, TerminalAction::Ran);
    assert!(t.logs);
}

#[test]
fn raw_and_incomplete_keys_do_nothing() {
    let (mut t, mut fb) = attached();
    assert_eq!(t.on_key_pressed(KeyInput::Raw, &mut fb), TerminalAction::Nothing);
    assert_eq!(t.on_key_pressed(KeyInput::NoKey, &mut fb), TerminalAction::Nothing);
    assert_eq!(t.on_key_pressed(KeyInput::Unicode('\t'), &mut fb), TerminalAction::Nothing);
    assert_eq!(t.current_char_x, 0);
}

#[test]
fn split_matches_rust_split_semantics() {
    let line: Vec<char> = "logs false".chars().collect();
    let toks = split_input(&line);
    assert_eq!(toks.len(), 2);
    assert_eq!(toks[0], vec!['l', 'o', 'g', 's']);
    assert_eq!(toks[1], vec!['f', 'a', 'l', 's', 'e']);

    let empty: Vec<char> = Vec::new();
    assert_eq!(split_input(&empty), vec![Vec::<char>::new()]);

    let doubled: Vec<char> = "a  b ".chars().collect();
    let toks = split_input(&doubled);
    assert_eq!(toks.len(), 4);
    assert_eq!(toks[0], vec!['a']);
    assert!(toks[1].is_empty());
    assert_eq!(toks[2], vec!['b']);
    assert!(toks[3].is_empty());
}

#[test]
fn first_arg_parses_booleans_with_default() {
    let to_args = |s: &str| -> Vec<Vec<char>> {
        s.split(' ').map(|t| t.chars().collect()).collect()
    };
    assert!(get_first_arg(&to_args("true")));
    assert!(!get_first_arg(&to_args("false")));
    assert!(!get_first_arg(&to_args("nonsense")));
    assert!(!get_first_arg(&Vec::new()));
}

#[test]
fn command_table_holds_the_known_set() {
    let table = init_commands();
    assert_eq!(table.len(), 2);
    let names: Vec<String> = table.iter().map(|(n, _)| n.iter().collect()).collect();
    assert_eq!(names, vec!["poweroff".to_string(), "logs".to_string()]);
    assert_eq!(table[0].1, Command::Poweroff);
    assert_eq!(table[1].1, Command::Logs);
}

fn pixel_bytes(fb: &FrameBufferRenderer, x: usize, y: usize) -> [u8; 4] {
    // the window's y axis grows upwards over a 400 by 64 surface
    let row = 64 - 1 - y;
    let off = (row * 400 + x) * 4;
    [fb.buffer[off], fb.buffer[off + 1], fb.buffer[off + 2], fb.buffer[off + 3]]
}

#[test]
fn init_paints_command_bar_and_history() {
    let (_t, fb) = attached();
    // a command-bar cell right of the cursor cell: (B, G, R, 255) of the bar color
    assert_eq!(pixel_bytes(&fb, 30, 5), [40, 40, 40, 255]);
    // a history cell above the bar keeps the history background
    assert_eq!(pixel_bytes(&fb, 30, 40), [20, 20, 20, 255]);
}

#[test]
fn typed_glyph_lands_at_the_cursor_column() {
    let (mut t, mut fb) = attached();
    type_line(&mut t, &mut fb, "a");
    // some pixel of column 0's cell differs from the plain bar color and
    // blends toward the text color
    let mut saw_text_pixel = false;
    for x in 0..7usize {
        for y in 1..17usize {
            let [b, g, r, _] = pixel_bytes(&fb, x, y);
            if (b, g, r) != (40, 40, 40) && b > g && g > r {
                saw_text_pixel = true;
            }
        }
    }
    assert!(saw_text_pixel, "no blended text pixel in the typed cell");
}
