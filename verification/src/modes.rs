//! The private modes of a terminal that a reconnecting client needs again.
use vstd::prelude::*;

use crate::text::{lemma_append, push_when};

verus! {

/// Which mouse events the terminal reports.
#[derive(Clone, Copy, Debug, PartialEq, Eq, Structural)]
pub enum MouseProtocol {
    Off,
    X10,
    Normal,
    Button,
    Any,
}

/// How the terminal writes mouse events down.
#[derive(Clone, Copy, Debug, PartialEq, Eq, Structural)]
pub enum MouseEncoding {
    Default,
    Sgr,
    SgrPixels,
}

/// The private modes that are followed.
#[derive(Clone, Copy, Debug, PartialEq, Eq, Structural)]
pub struct PrivateModes {
    pub mouse: MouseProtocol,
    pub encoding: MouseEncoding,
    pub cursor_keys: bool,
    pub keypad: bool,
    pub bracketed_paste: bool,
    pub focus_event: bool,
}

impl MouseEncoding {
    /// This encoding, or the default where it is switched off.
    pub open spec fn when(self, on: bool) -> MouseEncoding {
        if on {
            self
        } else {
            MouseEncoding::Default
        }
    }

    /// This encoding, or the default where it is switched off.
    fn if_on(self, on: bool) -> (encoding: MouseEncoding)
        ensures
            encoding == self.when(on),
    {
        if on {
            self
        } else {
            MouseEncoding::Default
        }
    }

    /// The sequence that asks for this encoding; nothing for the default.
    pub open spec fn replay(self) -> Seq<char> {
        match self {
            MouseEncoding::Default => Seq::empty(),
            MouseEncoding::Sgr => "\x1b[?1006h"@,
            MouseEncoding::SgrPixels => "\x1b[?1016h"@,
        }
    }

    /// Appends the sequence that asks for this encoding.
    fn write_replay(self, out: &mut String)
        ensures
            final(out)@ == old(out)@ + self.replay(),
    {
        match self {
            MouseEncoding::Default => {
                assert(out@ =~= out@ + self.replay());
            },
            MouseEncoding::Sgr => out.push_str("\x1b[?1006h"),
            MouseEncoding::SgrPixels => out.push_str("\x1b[?1016h"),
        }
    }
}

impl MouseProtocol {
    /// These events, or none where they are switched off.
    pub open spec fn when(self, on: bool) -> MouseProtocol {
        if on {
            self
        } else {
            MouseProtocol::Off
        }
    }

    /// These events, or none where they are switched off.
    fn if_on(self, on: bool) -> (mouse: MouseProtocol)
        ensures
            mouse == self.when(on),
    {
        if on {
            self
        } else {
            MouseProtocol::Off
        }
    }

    /// The sequence that asks for these events; nothing for none.
    pub open spec fn replay(self) -> Seq<char> {
        match self {
            MouseProtocol::Off => Seq::empty(),
            MouseProtocol::X10 => "\x1b[?9h"@,
            MouseProtocol::Normal => "\x1b[?1000h"@,
            MouseProtocol::Button => "\x1b[?1002h"@,
            MouseProtocol::Any => "\x1b[?1003h"@,
        }
    }

    /// Appends the sequence that asks for these events.
    fn write_replay(self, out: &mut String)
        ensures
            final(out)@ == old(out)@ + self.replay(),
    {
        match self {
            MouseProtocol::Off => {
                assert(out@ =~= out@ + self.replay());
            },
            MouseProtocol::X10 => out.push_str("\x1b[?9h"),
            MouseProtocol::Normal => out.push_str("\x1b[?1000h"),
            MouseProtocol::Button => out.push_str("\x1b[?1002h"),
            MouseProtocol::Any => out.push_str("\x1b[?1003h"),
        }
    }
}

/// `sequence` where a mode is on, nothing where it is off.
pub open spec fn when_on(on: bool, sequence: Seq<char>) -> Seq<char> {
    if on {
        sequence
    } else {
        Seq::empty()
    }
}

impl PrivateModes {
    /// Every mode off.
    pub open spec fn off() -> PrivateModes {
        PrivateModes {
            mouse: MouseProtocol::Off,
            encoding: MouseEncoding::Default,
            cursor_keys: false,
            keypad: false,
            bracketed_paste: false,
            focus_event: false,
        }
    }

    /// The sequences that switch these modes on in a terminal where all are
    /// off. The encoding of mouse events comes before their report. Focus
    /// events are left out: reports of a reconnect could set off new ones.
    pub open spec fn replay(self) -> Seq<char> {
        self.encoding.replay() + self.mouse.replay() + when_on(self.cursor_keys, "\x1b[?1h"@)
            + when_on(self.keypad, "\x1b[?66h"@) + when_on(
            self.bracketed_paste,
            "\x1b[?2004h"@,
        )
    }

    /// With the mode of one number switched on or off. A mouse mode that goes
    /// off leaves no events, or the default encoding, behind.
    pub open spec fn with_mode(self, mode: u16, on: bool) -> PrivateModes {
        if mode == 1 {
            PrivateModes { cursor_keys: on, ..self }
        } else if mode == 66 {
            PrivateModes { keypad: on, ..self }
        } else if mode == 1004 {
            PrivateModes { focus_event: on, ..self }
        } else if mode == 2004 {
            PrivateModes { bracketed_paste: on, ..self }
        } else if mode == 9 {
            PrivateModes { mouse: MouseProtocol::X10.when(on), ..self }
        } else if mode == 1000 {
            PrivateModes { mouse: MouseProtocol::Normal.when(on), ..self }
        } else if mode == 1002 {
            PrivateModes { mouse: MouseProtocol::Button.when(on), ..self }
        } else if mode == 1003 {
            PrivateModes { mouse: MouseProtocol::Any.when(on), ..self }
        } else if mode == 1006 {
            PrivateModes { encoding: MouseEncoding::Sgr.when(on), ..self }
        } else if mode == 1016 {
            PrivateModes { encoding: MouseEncoding::SgrPixels.when(on), ..self }
        } else {
            self
        }
    }

    /// Switches the mode of one number on or off.
    pub fn set(&mut self, mode: u16, on: bool)
        ensures
            *final(self) == old(self).with_mode(mode, on),
    {
        match mode {
            1 => self.cursor_keys = on,
            66 => self.keypad = on,
            1004 => self.focus_event = on,
            2004 => self.bracketed_paste = on,
            9 => self.mouse = MouseProtocol::X10.if_on(on),
            1000 => self.mouse = MouseProtocol::Normal.if_on(on),
            1002 => self.mouse = MouseProtocol::Button.if_on(on),
            1003 => self.mouse = MouseProtocol::Any.if_on(on),
            1006 => self.encoding = MouseEncoding::Sgr.if_on(on),
            1016 => self.encoding = MouseEncoding::SgrPixels.if_on(on),
            _ => {},
        }
    }

    /// Switches off what a soft reset switches off; the mouse keeps its modes.
    pub fn soft_reset(&mut self)
        ensures
            *final(self) == (PrivateModes {
                mouse: old(self).mouse,
                encoding: old(self).encoding,
                ..PrivateModes::off()
            }),
    {
        self.cursor_keys = false;
        self.keypad = false;
        self.bracketed_paste = false;
        self.focus_event = false;
    }

    /// Appends the sequences that switch these modes on.
    pub fn write_replay(self, out: &mut String)
        ensures
            final(out)@ == old(out)@ + self.replay(),
    {
        let ghost start = out@;
        let ghost a = self.encoding.replay();
        let ghost b = self.mouse.replay();
        let ghost c = when_on(self.cursor_keys, "\x1b[?1h"@);
        let ghost d = when_on(self.keypad, "\x1b[?66h"@);
        let ghost e = when_on(self.bracketed_paste, "\x1b[?2004h"@);
        self.encoding.write_replay(out);
        self.mouse.write_replay(out);
        push_when(out, self.cursor_keys, "\x1b[?1h");
        push_when(out, self.keypad, "\x1b[?66h");
        push_when(out, self.bracketed_paste, "\x1b[?2004h");
        proof {
            lemma_append(start, a, b);
            lemma_append(start, a + b, c);
            lemma_append(start, a + b + c, d);
            lemma_append(start, a + b + c + d, e);
        }
    }
}

impl Default for PrivateModes {
    fn default() -> (modes: Self)
        ensures
            modes == PrivateModes::off(),
    {
        PrivateModes {
            mouse: MouseProtocol::Off,
            encoding: MouseEncoding::Default,
            cursor_keys: false,
            keypad: false,
            bracketed_paste: false,
            focus_event: false,
        }
    }
}

} // verus!
