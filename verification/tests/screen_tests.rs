//! What output does to a screen, and what clients are sent of it.
use dinotty::grid::{Cell, CellAttrs, Color, ScreenBuffer};
use dinotty::modes::{MouseEncoding, MouseProtocol, PrivateModes};
use dinotty::parser::{Action, ActionSink};
use dinotty::render::{attrs_eq, has_attrs};
use dinotty::screen::{OscAction, SyncEvent, VirtualScreen};
use dinotty::sgr::{apply_sgr, encode_sgr};
use std::collections::VecDeque;

/// A screen that has been fed some output.
fn shown(cols: usize, rows: usize, output: &str) -> VirtualScreen {
    let mut screen = VirtualScreen::new(cols, rows);
    screen.feed(output.as_bytes());
    screen
}

#[test]
fn printing_wraps_and_scrolls_into_the_history() {
    let screen = shown(3, 2, "abcdefgh");
    assert_eq!(screen.snapshot_plain(), "def\ngh");
    assert_eq!(screen.snapshot_scrollback_plain(None), ["abc"]);
    assert_eq!(screen.cursor_position(), (1, 2));
    assert_eq!((screen.cols(), screen.rows()), (3, 2));
}

#[test]
fn cursor_moves_stay_inside() {
    let mut screen = shown(10, 5, "\x1b[3;4H");
    assert_eq!(screen.cursor_position(), (2, 3));
    screen.feed(b"\x1b[A\x1b[2C");
    assert_eq!(screen.cursor_position(), (1, 5));
    screen.feed(b"\x1b[99B\x1b[99D");
    assert_eq!(screen.cursor_position(), (4, 0));
    screen.feed(b"\x1b[99A\x1b[99C\x08");
    assert_eq!(screen.cursor_position(), (0, 8));
    screen.feed(b"\r\t");
    assert_eq!(screen.cursor_position(), (0, 8));
    screen.feed(b"\t");
    assert_eq!(screen.cursor_position(), (0, 9));
    screen.feed(b"\x1b[H\x1b[f");
    assert_eq!(screen.cursor_position(), (0, 0));
}

#[test]
fn erasing_in_line_and_display() {
    let mut screen = shown(4, 3, "abcd\r\nefgh\r\nijkl\x1b[2;2H");
    screen.feed(b"\x1b[K");
    assert_eq!(screen.snapshot_plain(), "abcd\ne\nijkl");
    screen.feed(b"\x1b[1J");
    assert_eq!(screen.snapshot_plain(), "\n\nijkl");
    screen.feed(b"\x1b[2J");
    assert_eq!(screen.snapshot_plain(), "\n\n");
    let mut screen = shown(4, 3, "abcd\r\nefgh\r\nijkl\x1b[2;2H\x1b[J");
    assert_eq!(screen.snapshot_plain(), "abcd\ne\n");
    screen.feed(b"\x1b[1;3H\x1b[1K");
    assert_eq!(screen.snapshot_plain(), "   d\ne\n");
    screen.feed(b"\x1b[2K");
    assert_eq!(screen.snapshot_plain(), "\ne\n");
}

#[test]
fn only_the_scrolling_part_scrolls() {
    let mut screen = shown(2, 4, "a\r\nb\r\nc\r\nd\x1b[2;3r\x1b[3;1H\n");
    assert_eq!(screen.snapshot_plain(), "a\nc\n\nd");
    assert_eq!(screen.scrollback_len(), 0);
    screen.feed(b"\x1b[2;1H\x1bM");
    assert_eq!(screen.snapshot_plain(), "a\n\nc\nd");
    screen.feed(b"\x1b[r\x1b[4;1H\x1bD");
    assert_eq!(screen.snapshot_plain(), "\nc\nd\n");
    assert_eq!(screen.snapshot_scrollback_plain(None), ["a"]);
    screen.feed(b"\x1b[1;2H\x1bEx");
    assert_eq!(screen.snapshot_plain(), "\nx\nd\n");
}

#[test]
fn saved_cursor_comes_back_with_its_look() {
    let mut screen = shown(10, 4, "\x1b[2;3H\x1b[1m\x1b7\x1b[0m\x1b[4;4H\x1b8");
    assert_eq!(screen.cursor_position(), (1, 2));
    assert!(screen.primary.cursor.attrs.bold);
    screen.feed(b"\x1b[m");
    assert!(!has_attrs(&screen.primary.cursor.attrs));
}

#[test]
fn alternate_screen_gives_the_primary_one_back() {
    let mut screen = shown(5, 2, "one\r\ntwo");
    screen.feed(b"\x1b[?1049h");
    assert!(screen.is_using_alternate());
    assert_eq!(screen.snapshot_plain(), "\n");
    screen.feed(b"x\r\ny\r\nz");
    assert_eq!(screen.snapshot_plain(), "y\nz");
    assert_eq!(screen.scrollback_len(), 0);
    screen.feed(b"\x1b[?1049l");
    assert!(!screen.is_using_alternate());
    assert_eq!(screen.snapshot_plain(), "one\ntwo");
    assert_eq!(screen.cursor_position(), (1, 3));
}

#[test]
fn requests_for_attention_are_drained_once() {
    let mut screen = shown(20, 2, "\x07\x1b]9;a;b\x07\x1b]777;notify;t;u;v\x1b\\\x1b]0;title\x07");
    let actions = screen.drain_osc_actions();
    assert_eq!(
        actions,
        [
            OscAction::Bell,
            OscAction::Notify { title: None, body: "a;b".to_string() },
            OscAction::Notify { title: Some("t".to_string()), body: "u;v".to_string() },
        ]
    );
    assert!(screen.drain_osc_actions().is_empty());
}

#[test]
fn invalid_text_of_a_notice_is_replaced() {
    let mut screen = VirtualScreen::new(20, 2);
    screen.feed(b"\x1b]9;\xff!\x07");
    assert_eq!(
        screen.drain_osc_actions(),
        [OscAction::Notify { title: None, body: "\u{fffd}!".to_string() }]
    );
}

#[test]
fn synchronized_output_is_noted() {
    let mut screen = shown(20, 2, "\x1b[?2026h.\x1b[?2026l");
    assert_eq!(screen.drain_sync_events(), [SyncEvent::Start, SyncEvent::Stop]);
    assert!(screen.drain_sync_events().is_empty());
}

#[test]
fn private_modes_follow_the_output() {
    let mut screen = shown(20, 2, "\x1b[?1;1002;1006;2004;1004h\x1b=");
    assert_eq!(
        screen.private_modes,
        PrivateModes {
            mouse: MouseProtocol::Button,
            encoding: MouseEncoding::Sgr,
            cursor_keys: true,
            keypad: true,
            bracketed_paste: true,
            focus_event: true,
        }
    );
    screen.feed(b"\x1b[!p");
    assert_eq!(
        screen.private_modes,
        PrivateModes {
            mouse: MouseProtocol::Button,
            encoding: MouseEncoding::Sgr,
            ..PrivateModes::default()
        }
    );
    screen.feed(b"\x1b[?1002l\x1b[?1006l\x1b>");
    assert_eq!(screen.private_modes, PrivateModes::default());
}

/// The encoding comes first, and focus events do not come at all.
#[test]
fn modes_are_replayed_in_order() {
    let mut modes = PrivateModes::default();
    for mode in [1, 66, 2004, 1004, 1003, 1016] {
        modes.set(mode, true);
    }
    let mut out = String::from(">");
    modes.write_replay(&mut out);
    assert_eq!(out, ">\x1b[?1016h\x1b[?1003h\x1b[?1h\x1b[?66h\x1b[?2004h");
    let mut quiet = String::new();
    PrivateModes { focus_event: true, ..PrivateModes::default() }.write_replay(&mut quiet);
    assert_eq!(quiet, "");
    for (mode, text) in [(9, "\x1b[?9h"), (1000, "\x1b[?1000h"), (1002, "\x1b[?1002h")] {
        let mut modes = PrivateModes::default();
        modes.set(mode, true);
        let mut out = String::new();
        modes.write_replay(&mut out);
        assert_eq!(out, text);
    }
}

/// What is replayed tells all of the modes but focus events.
#[test]
fn replay_tells_the_modes() {
    let mouse = [
        MouseProtocol::Off,
        MouseProtocol::X10,
        MouseProtocol::Normal,
        MouseProtocol::Button,
        MouseProtocol::Any,
    ];
    let encoding = [MouseEncoding::Default, MouseEncoding::Sgr, MouseEncoding::SgrPixels];
    let mut texts = Vec::new();
    for mouse in mouse {
        for encoding in encoding {
            for bits in 0..8 {
                let modes = PrivateModes {
                    mouse,
                    encoding,
                    cursor_keys: bits & 1 != 0,
                    keypad: bits & 2 != 0,
                    bracketed_paste: bits & 4 != 0,
                    focus_event: false,
                };
                let mut text = String::new();
                modes.write_replay(&mut text);
                let mut focused = String::new();
                PrivateModes { focus_event: true, ..modes }.write_replay(&mut focused);
                assert_eq!(focused, text);
                texts.push(text);
            }
        }
    }
    texts.sort();
    texts.dedup();
    assert_eq!(texts.len(), 120);
    assert_eq!(texts[0], "");
}

#[test]
fn snapshot_text() {
    let screen = shown(4, 2, "a\x1b[1mb\x1b[0m");
    let drawn = "\x1b[1;1H\x1b[Ka\x1b[0;1mb\x1b[0m\x1b[2;1H\x1b[K";
    let snapshot = format!("\x1b[?25l\x1b[0m{drawn}\x1b[1;3H\x1b[0m\x1b[?25h");
    assert_eq!(screen.snapshot(), snapshot);
    assert_eq!(screen.snapshot_for_replay(), snapshot);
}

/// The history is scrolled out of view before the screen is drawn over it.
#[test]
fn replay_scrolls_the_history_out_of_view() {
    let screen = shown(4, 3, "1\r\n2\r\n3\r\n4\r\n5\r\n6");
    assert_eq!(screen.scrollback_len(), 3);
    assert!(screen.snapshot_for_replay().starts_with("\x1b[?25l\x1b[3;1H\n\n\x1b[0m\x1b[1;1H"));
}

/// A client that is sent the history and the replay shows what was there.
#[test]
fn replay_restores_both_screens() {
    let mut screen = shown(6, 3, "1\r\n2\r\n3\r\n4\r\n\x1b[32mfive\x1b[m!\x1b[?1006;1000h");
    screen.feed(b"\x1b[?1049h\x1b[2;2Halt");
    let mut client = VirtualScreen::new(6, 3);
    for chunk in screen.snapshot_scrollback_chunks(1) {
        client.feed(chunk.as_bytes());
    }
    client.feed(screen.snapshot_for_replay().as_bytes());
    assert!(client.is_using_alternate());
    assert_eq!(client.snapshot(), screen.snapshot());
    assert_eq!(client.private_modes, screen.private_modes);
    client.feed(b"\x1b[?1049l");
    screen.feed(b"\x1b[?1049l");
    assert_eq!(client.snapshot(), screen.snapshot());
    assert_eq!(client.snapshot_scrollback_plain(None), screen.snapshot_scrollback_plain(None));
}

/// A client that is sent the history and the replay holds every row once.
#[test]
fn history_and_replay_restore_a_pane() {
    for lines in [0, 1, 2, 3, 4, 9] {
        for rows in [1, 2, 3] {
            let mut screen = VirtualScreen::new(6, rows);
            for i in 0..lines {
                screen.feed(format!("\x1b[3{i}mrow {i}\x1b[m\r\n").as_bytes());
            }
            screen.feed(b"last");
            let mut client = VirtualScreen::new(6, rows);
            for chunk in screen.snapshot_scrollback_chunks(2) {
                client.feed(chunk.as_bytes());
            }
            client.feed(screen.snapshot_for_replay().as_bytes());
            assert_eq!(
                client.snapshot_scrollback_chunks(1),
                screen.snapshot_scrollback_chunks(1)
            );
            assert_eq!(client.snapshot(), screen.snapshot());
        }
    }
}

/// Marks go to the character before them, and wide characters take two cells.
#[test]
fn marks_and_wide_characters() {
    let mut screen = shown(4, 2, "e\u{301}好\u{20dd}");
    let row = &screen.primary.cells[0];
    assert_eq!((row[0].ch, row[0].combining_len, row[0].combining[0]), ('e', 1, '\u{301}'));
    assert_eq!((row[1].ch, row[1].combining_len, row[2].ch), ('好', 1, '\0'));
    assert_eq!(screen.cursor_position(), (0, 3));
    assert!(screen.snapshot().contains("e\u{301}好\u{20dd}"));
    screen.feed("你".as_bytes());
    assert_eq!(screen.cursor_position(), (1, 2));
    assert_eq!(screen.snapshot_plain(), "e好\n你");
    let mut client = VirtualScreen::new(4, 2);
    client.feed(screen.snapshot().as_bytes());
    assert_eq!(client.snapshot(), screen.snapshot());
    let mut narrow = shown(1, 2, "\u{301}好");
    assert_eq!((narrow.primary.cells[0][0].ch, narrow.cursor_position()), ('好', (0, 1)));
    narrow.feed("\u{301}".as_bytes());
    assert_eq!(narrow.primary.cells[0][0].combining_len, 1);
}

/// A client that is sent a snapshot shows the same screen.
#[test]
fn snapshot_restores_the_screen() {
    for enter in ["", "\x1b[?1049h"] {
        let mut screen = shown(7, 3, "a\r\nb\x1b[7;33mc\x1b[?2004h");
        screen.feed(enter.as_bytes());
        screen.feed(b"\x1b[3;2Hend\x1b[?1004h");
        let mut client = shown(7, 3, "old\r\nold\r\nold");
        client.feed(screen.snapshot().as_bytes());
        assert_eq!(client.snapshot(), screen.snapshot());
        assert_eq!(client.cursor_position(), screen.cursor_position());
        assert!(client.private_modes.bracketed_paste && !client.private_modes.focus_event);
        assert_eq!(client.scrollback_len(), 0);
    }
}

/// A cursor behind the last column comes back in it; the cells are all there.
#[test]
fn cursor_behind_the_last_column_is_brought_near() {
    let screen = shown(4, 2, "1\r\n2\r\nfull");
    assert_eq!(screen.cursor_position(), (1, 4));
    let mut client = VirtualScreen::new(4, 2);
    for chunk in screen.snapshot_scrollback_chunks(1) {
        client.feed(chunk.as_bytes());
    }
    client.feed(screen.snapshot_for_replay().as_bytes());
    assert_eq!(client.cursor_position(), (1, 3));
    assert_eq!(client.snapshot_plain(), screen.snapshot_plain());
    assert_eq!(client.snapshot_scrollback_plain(None), screen.snapshot_scrollback_plain(None));
}

/// A screen that was left does not matter to a replay, whatever it holds.
#[test]
fn left_screen_is_not_replayed() {
    let mut screen = shown(4, 2, "here");
    screen.feed("\x1b[?1049h\x1b[1;1H好\x1b[1;2Hx\x1b[?1049l".as_bytes());
    assert!(!screen.is_using_alternate());
    assert_eq!(screen.alternate.cells[0][1].ch, 'x');
    let mut client = VirtualScreen::new(4, 2);
    client.feed(screen.snapshot_for_replay().as_bytes());
    assert_eq!(client.snapshot_plain(), screen.snapshot_plain());
    assert_eq!(client.snapshot_plain(), "here\n");
    assert!(!client.is_using_alternate());
}

/// Control functions and ordinary characters leave rows that can be drawn again.
#[test]
fn ordinary_output_can_be_replayed() {
    let mut screen = VirtualScreen::new(5, 3);
    for part in [
        "one\r\ntwo\r\nthree\r\nfour",
        "\x1b[2;2H\x1b[K\x1b[44m\x1b[1K\x1b[m",
        "\x1b[1;2H\x1b[2P\x1b[1@\x1b[L\x1b[2X",
        "\x1b[2;3r\n\x1bM\x1bM\x1b[S\x1b[T\x1b[r",
        "\t\x08!\x1b7\x1b[3;1Hlonger than a row\x1b8",
        "\x1b[?1049hfull\x1b[1J",
    ] {
        screen.feed(part.as_bytes());
        let mut client = VirtualScreen::new(5, 3);
        for chunk in screen.snapshot_scrollback_chunks(2) {
            client.feed(chunk.as_bytes());
        }
        client.feed(screen.snapshot_for_replay().as_bytes());
        assert_eq!(
            format!("{:?}", client.primary.cells),
            format!("{:?}", screen.primary.cells)
        );
        assert_eq!(client.is_using_alternate(), screen.is_using_alternate());
        assert_eq!(client.snapshot_plain(), screen.snapshot_plain());
        assert_eq!(client.snapshot_scrollback_chunks(1), screen.snapshot_scrollback_chunks(1));
    }
}

/// Each step of a snapshot ends with the one action that it asks for.
#[test]
fn snapshots_are_read_as_they_are_written() {
    let control = |numbers: &[u16], private: &[u8], action: char| Action::Csi {
        params: numbers.iter().map(|number| vec![*number]).collect(),
        intermediates: private.to_vec(),
        ignore: false,
        action,
    };
    let steps = [
        ("\x1b[?25l", control(&[25], b"?", 'l')),
        ("\x1b[0m", control(&[0], b"", 'm')),
        ("\x1b[12;3H", control(&[12, 3], b"", 'H')),
        ("\x1b[K", control(&[0], b"", 'K')),
        ("\x1b[0;1;38;2;1;2;3m", control(&[0, 1, 38, 2, 1, 2, 3], b"", 'm')),
        ("好", Action::Print('好')),
        ("\u{301}", Action::Print('\u{301}')),
        ("x", Action::Print('x')),
        ("\r", Action::Execute(0x0d)),
        ("\n", Action::Execute(0x0a)),
        ("\x1b[?1049h", control(&[1049], b"?", 'h')),
    ];
    let mut parser = vte::Parser::new();
    for (text, action) in steps {
        let mut sink = ActionSink { actions: Vec::new() };
        let (last, front) = text.as_bytes().split_last().unwrap();
        for byte in front {
            parser.advance(&mut sink, *byte);
        }
        assert!(sink.actions.is_empty());
        parser.advance(&mut sink, *last);
        assert_eq!(format!("{:?}", sink.actions), format!("{:?}", vec![action]));
    }
}

#[test]
fn chunks_hold_the_whole_history() {
    let screen = shown(4, 1, "1\r\n\x1b[31m2\x1b[m\r\n3\r\n4\r\n5\r\n.");
    let whole = "1\r\n\x1b[0;31m2\x1b[0m\r\n3\r\n4\r\n5\r\n";
    for lines in [0, 1, 2, 3, 5, 9] {
        assert_eq!(screen.snapshot_scrollback_chunks(lines).concat(), whole);
    }
    assert_eq!(screen.snapshot_scrollback_chunks(2).len(), 3);
    assert_eq!(screen.snapshot_scrollback_chunks(0).len(), 5);
    assert!(VirtualScreen::new(4, 1).snapshot_scrollback_chunks(2).is_empty());
}

#[test]
fn plain_history_can_be_cut() {
    let screen = shown(4, 1, "1\r\n2\r\n3\r\n.");
    assert_eq!(screen.snapshot_scrollback_plain(Some(2)), ["2", "3"]);
    assert_eq!(screen.snapshot_scrollback_plain(Some(9)), ["1", "2", "3"]);
    assert!(screen.snapshot_scrollback_plain(Some(0)).is_empty());
}

#[test]
fn history_keeps_to_its_limit() {
    let mut screen = VirtualScreen::new(5, 1);
    for i in 0..10010 {
        screen.feed(format!("{i}\r\n").as_bytes());
    }
    assert_eq!(screen.scrollback_len(), 10000);
    let lines = screen.snapshot_scrollback_plain(None);
    assert_eq!((lines[0].as_str(), lines[9999].as_str()), ("10", "10009"));
}

/// Blank rows below the cursor go first, then rows at the top.
#[test]
fn resizing_keeps_the_newest_rows() {
    let mut screen = shown(4, 4, "1\r\n2\r\n3");
    screen.resize(4, 3);
    assert_eq!(screen.snapshot_plain(), "1\n2\n3");
    assert_eq!(screen.scrollback_len(), 0);
    screen.resize(2, 2);
    assert_eq!(screen.snapshot_plain(), "2\n3");
    assert_eq!(screen.snapshot_scrollback_plain(None), ["1"]);
    assert_eq!(screen.cursor_position(), (1, 1));
    screen.resize(6, 3);
    assert_eq!(screen.snapshot_plain(), "2\n3\n");
    assert_eq!((screen.cols(), screen.rows()), (6, 3));
}

/// A cursor that was saved on a larger screen may come back outside.
#[test]
fn cursor_outside_the_grid_is_harmless() {
    let mut screen = shown(8, 6, "\x1b[6;8H\x1b7");
    screen.resize(3, 2);
    screen.feed(b"\x1b8");
    assert_eq!(screen.cursor_position(), (5, 7));
    let _receiver = screen.begin_execution().unwrap();
    screen.feed(b"\x1b[K\x1b[Jab\x1bM\t");
    assert!(!screen.detect_prompt_after(Some(500)));
    assert_eq!(screen.snapshot_plain().lines().count(), 2);
}

#[test]
fn grids_scroll_both_ways() {
    let mut grid = ScreenBuffer::new(1, 3);
    for (i, c) in ['a', 'b', 'c'].into_iter().enumerate() {
        grid.cells[i][0].ch = c;
    }
    let mut history = VecDeque::new();
    grid.scroll_up(&mut history);
    let column: String = grid.cells.iter().map(|row| row[0].ch).collect();
    assert_eq!((column.as_str(), history.len()), ("bc ", 1));
    assert_eq!(history[0][0].ch, 'a');
    grid.scroll_down();
    let column: String = grid.cells.iter().map(|row| row[0].ch).collect();
    assert_eq!(column, " bc");
    grid.resize(2, 1, None);
    assert_eq!((grid.cells.len(), grid.cells[0].len()), (1, 2));
    assert_eq!(history.len(), 1);
}

#[test]
fn cells_hold_three_marks() {
    let mut cell = Cell::default();
    cell.ch = 'e';
    for c in ['\u{301}', '\u{302}', '\u{303}', '\u{304}'] {
        cell.push_combining(c);
    }
    let mut out = String::from("<");
    cell.write_to(&mut out);
    assert_eq!(out, "<e\u{301}\u{302}\u{303}");
}

#[test]
fn looks_are_written_and_read_back() {
    let attrs = CellAttrs {
        fg: Some(Color::Indexed(1)),
        bg: Some(Color::Rgb(1, 20, 255)),
        bold: true,
        dim: false,
        italic: true,
        underline: false,
        inverse: true,
        strikethrough: true,
    };
    let sequence = encode_sgr(&attrs);
    assert_eq!(sequence, "\x1b[0;1;3;7;9;31;48;2;1;20;255m");
    let mut screen = shown(2, 1, "\x1b[2;4m");
    screen.feed(sequence.as_bytes());
    assert!(attrs_eq(&screen.primary.cursor.attrs, &attrs));
    let mut read = CellAttrs::default();
    apply_sgr(&mut read, &vec![vec![38, 5, 200], vec![101]]);
    assert!(matches!(read.fg, Some(Color::Indexed(200))));
    assert!(matches!(read.bg, Some(Color::Indexed(9))));
    assert_eq!(encode_sgr(&read), "\x1b[0;38;5;200;101m");
}

/// Actions do the same whether a parser has made them or a caller.
#[test]
fn actions_without_a_parser() {
    let mut screen = VirtualScreen::new(4, 2);
    screen.perform_all(&vec![
        Action::Print('x'),
        Action::Execute(0x0a),
        Action::Csi {
            params: vec![vec![1], vec![3]],
            intermediates: vec![],
            ignore: false,
            action: 'H',
        },
        Action::Print('y'),
        Action::Csi { params: vec![], intermediates: vec![], ignore: true, action: 'H' },
        Action::Esc { intermediates: vec![0x28], ignore: false, byte: 0x45 },
        Action::Osc { fields: vec![b"9".to_vec(), b"hi".to_vec()], bell_terminated: true },
    ]);
    assert_eq!(screen.snapshot_plain(), "x y\n");
    assert_eq!(screen.cursor_position(), (0, 3));
    assert_eq!(
        screen.drain_osc_actions(),
        [OscAction::Notify { title: None, body: "hi".to_string() }]
    );
}

/// A change of screens is made once the actions of a byte are done.
#[test]
fn screens_change_when_settled() {
    let mut screen = VirtualScreen::new(4, 2);
    let enter = vec![Action::Csi {
        params: vec![vec![1049]],
        intermediates: b"?".to_vec(),
        ignore: false,
        action: 'h',
    }];
    screen.perform_all(&enter);
    assert!(!screen.is_using_alternate());
    screen.settle();
    assert!(screen.is_using_alternate());
}

/// Output may be cut anywhere, even inside a sequence or a character.
#[test]
fn cutting_output_makes_no_difference() {
    let output = "é\x1b[31mred\x1b]133;C\x07\r\n\x1b[?1049h✓";
    let whole = shown(8, 2, output);
    for at in 0..output.len() {
        let mut screen = VirtualScreen::new(8, 2);
        screen.feed(&output.as_bytes()[..at]);
        screen.feed(&output.as_bytes()[at..]);
        assert_eq!(screen.snapshot(), whole.snapshot());
    }
}
