use crate::lua::{debug_text, error_text, evaluate, number_text, peel, print_number, text_of, Peeled};
use vstd::prelude::*;
use vstd::string::*;

verus! {

/// How far the panel moves with each step of its slide.
pub const SLIDE: u32 = 20;

/// One line of text on the open panel: the row it stands in, counted in
/// character heights from the top, and what it says.
pub struct Line {
    pub row: u32,
    pub text: String,
}

/// A drop-down command console: a command line being edited, the commands
/// already run (newest first) with their outputs, and the state of the
/// slide-in animation.
pub struct Terminal {
    commands: Vec<String>,
    outputs: Vec<String>,
    commandline: String,
    height: u32,
    on: bool,
    h: u32,
    char_width: u32,
    char_height: u32,
}

/// How many rows of the panel a character height gives, less one: the row of
/// the command line.
pub open spec fn prompt_row(height: u32, char_height: u32) -> int {
    height as int / char_height as int - 1
}

/// How many commands of the history fit on the panel: each takes two rows,
/// they fill the upper half below the title, and none may stand above the
/// first row.
pub open spec fn history_fit(height: u32, char_height: u32) -> int {
    let by_half = (height as int / 2) / char_height as int - 2;
    let by_rows = (height as int / char_height as int - 4) / 2 + 1;
    let fit = if by_half <= by_rows {
        by_half
    } else {
        by_rows
    };
    if fit < 0 || (height as int / char_height as int) < 4 {
        0
    } else {
        fit
    }
}

/// The quotient of `a` by `b`, rounded towards zero.
pub open spec fn truncated_quotient(a: int, b: int) -> int {
    if a >= 0 {
        a / b
    } else {
        -((-a) / b)
    }
}

/// The remainder of `a` by `b` that belongs to the quotient rounded towards
/// zero: it has the sign of `a`.
pub open spec fn truncated_remainder(a: int, b: int) -> int {
    if a >= 0 {
        a % b
    } else {
        -((-a) % b)
    }
}

/// Where a character's glyph starts in a font sheet that is `font_width`
/// wide and holds glyphs of `char_width` by `char_height` row by row,
/// starting with the space character. `None` where not even one glyph fits in
/// a row.
pub fn glyph_origin(c: char, font_width: u32, char_width: u32, char_height: u32) -> (r: Option<
    (i64, i64),
>)
    ensures
        r is Some <==> char_width > 0 && font_width >= char_width,
        r matches Some((x, y)) ==> {
            let per_row = font_width as int / char_width as int;
            let position = c as u32 as int - 32;
            &&& x == truncated_remainder(position, per_row) * char_width
            &&& y == truncated_quotient(position, per_row) * char_height
        },
{
    if char_width == 0 || font_width < char_width {
        return None;
    }
    let per_row: i64 = (font_width / char_width) as i64;
    assert(per_row >= 1) by (nonlinear_arith)
        requires
            per_row == font_width as int / char_width as int,
            font_width >= char_width,
            char_width > 0,
    ;
    let code: u32 = c as u32;
    let position: i64 = code as i64 - 32;
    let (column, row): (i64, i64) = if position >= 0 {
        (position % per_row, position / per_row)
    } else {
        (-((-position) % per_row), -((-position) / per_row))
    };
    assert(-0x11_0000 <= column <= 0x11_0000 && -0x11_0000 <= row <= 0x11_0000) by (nonlinear_arith)
        requires
            -32 <= position <= 0x11_0000,
            per_row >= 1,
            column == truncated_remainder(position as int, per_row as int),
            row == truncated_quotient(position as int, per_row as int),
    ;
    assert(-0x11_0000 * 0x1_0000_0000 <= column * char_width <= 0x11_0000 * 0x1_0000_0000)
        by (nonlinear_arith)
        requires
            -0x11_0000 <= column <= 0x11_0000,
            0 <= char_width <= 0xffff_ffff,
    ;
    assert(-0x11_0000 * 0x1_0000_0000 <= row * char_height <= 0x11_0000 * 0x1_0000_0000)
        by (nonlinear_arith)
        requires
            -0x11_0000 <= row <= 0x11_0000,
            0 <= char_height <= 0xffff_ffff,
    ;
    Some((column * (char_width as i64), row * (char_height as i64)))
}

/// The text that the console shows for a value that a command evaluated
/// to: a boolean, an integer or a number as it prints, a string as it is,
/// nil as `Nil`, anything else in the form that debugging output gives it.
pub fn result_text<'lua>(value: rlua::Value<'lua>) -> String {
    let other = debug_text(&value);
    let peeled = peel(value);
    let spelled = match &peeled {
        Peeled::Str(s) => text_of(s),
        _ => None,
    };
    console_text(&peeled, spelled, other)
}

/// The text that the console shows for a value of the kind `peeled`: nil as
/// `Nil`, a boolean as `true` or `false`, an integer or a number as it
/// prints, a string as `spelled` where its text could be read, and anything
/// else as `other`, the form that debugging output gives it.
pub(crate) fn console_text<'lua>(peeled: &Peeled<'lua>, spelled: Option<String>, other: String) -> (text:
    String)
    ensures
        match *peeled {
            Peeled::Nil => text@ == "Nil"@,
            Peeled::Bool(b) => text@ == (if b {
                "true"@
            } else {
                "false"@
            }),
            Peeled::Int(i) => to_string_from_display_ensures::<i64>(&i, text),
            Peeled::Float(bits) => text@ == number_text(bits),
            Peeled::Str(_) => text@ == (match spelled {
                Some(s) => s@,
                None => other@,
            }),
            _ => text@ == other@,
        },
{
    match peeled {
        Peeled::Nil => String::from_str("Nil"),
        Peeled::Bool(b) => if *b {
            String::from_str("true")
        } else {
            String::from_str("false")
        },
        Peeled::Int(i) => i.to_string(),
        Peeled::Float(bits) => print_number(*bits),
        Peeled::Str(_) => match spelled {
            Some(s) => s,
            None => other,
        },
        _ => other,
    }
}

impl Terminal {
    /// The text of the command line being edited.
    pub closed spec fn line(&self) -> Seq<char> {
        self.commandline@
    }

    /// Whether the console is switched on.
    pub closed spec fn active(&self) -> bool {
        self.on
    }

    /// The commands that were run, newest first.
    pub closed spec fn commands(&self) -> Seq<Seq<char>> {
        Seq::new(self.commands@.len(), |i: int| self.commands@[i]@)
    }

    /// The output of each command that was run, newest first.
    pub closed spec fn outputs(&self) -> Seq<Seq<char>> {
        Seq::new(self.outputs@.len(), |i: int| self.outputs@[i]@)
    }

    /// How far the panel has slid in.
    pub closed spec fn slid(&self) -> u32 {
        self.h
    }

    /// The height of the panel when it is fully open.
    pub closed spec fn height(&self) -> u32 {
        self.height
    }

    /// The width of a character cell.
    pub closed spec fn char_width(&self) -> u32 {
        self.char_width
    }

    /// The height of a character cell.
    pub closed spec fn char_height(&self) -> u32 {
        self.char_height
    }

    /// Every command has its output.
    pub closed spec fn inv(&self) -> bool {
        self.commands@.len() == self.outputs@.len()
    }

    /// The invariant says that the history has as many outputs as commands.
    pub proof fn lemma_inv(&self)
        requires
            self.inv(),
        ensures
            self.commands().len() == self.outputs().len(),
    {
    }

    /// Whether the panel is fully open and high enough for a title, a
    /// command line and a row between them.
    pub open spec fn open(&self) -> bool {
        &&& self.slid() >= self.height()
        &&& self.char_height() > 0
        &&& (self.height() as int / self.char_height() as int) >= 3
    }

    /// How many commands of the history the open panel shows.
    pub open spec fn shown(&self) -> int {
        let fit = history_fit(self.height(), self.char_height());
        if self.commands().len() <= fit {
            self.commands().len() as int
        } else {
            fit
        }
    }

    /// A console that is switched off, slid out, with an empty command line
    /// and no history.
    pub fn new(height: u32, char_width: u32, char_height: u32) -> (t: Terminal)
        ensures
            t.inv(),
            !t.active(),
            t.line() == Seq::<char>::empty(),
            t.commands() == Seq::<Seq<char>>::empty(),
            t.outputs() == Seq::<Seq<char>>::empty(),
            t.slid() == 0,
            t.height() == height,
            t.char_width() == char_width,
            t.char_height() == char_height,
    {
        let t = Terminal {
            commandline: String::new(),
            commands: Vec::new(),
            outputs: Vec::new(),
            height,
            char_width,
            char_height,
            on: false,
            h: 0,
        };
        assert(t.commands() =~= Seq::<Seq<char>>::empty());
        assert(t.outputs() =~= Seq::<Seq<char>>::empty());
        t
    }

    /// Whether nothing but the named parts differs between two consoles.
    pub open spec fn same_but_line(&self, other: &Terminal) -> bool {
        &&& self.active() == other.active()
        &&& self.same_history(other)
        &&& self.same_panel(other)
    }

    /// The same commands with the same outputs.
    pub open spec fn same_history(&self, other: &Terminal) -> bool {
        &&& self.inv() == other.inv()
        &&& self.commands() == other.commands()
        &&& self.outputs() == other.outputs()
    }

    /// The same sizes and the same state of the slide.
    pub open spec fn same_panel(&self, other: &Terminal) -> bool {
        &&& self.slid() == other.slid()
        &&& self.height() == other.height()
        &&& self.char_width() == other.char_width()
        &&& self.char_height() == other.char_height()
    }

    pub fn toggle(&mut self)
        ensures
            final(self).active() == !old(self).active(),
            final(self).line() == old(self).line(),
            final(self).same_history(old(self)),
            final(self).same_panel(old(self)),
    {
        self.on = !self.on;
    }

    pub fn is_active(&self) -> (b: bool)
        ensures
            b == self.active(),
    {
        self.on
    }

    pub fn update_commandline(&mut self, commandline: String)
        ensures
            final(self).line() == commandline@,
            final(self).same_but_line(old(self)),
    {
        self.commandline = commandline;
    }

    pub fn append_commandline(&mut self, commandline: &str)
        ensures
            final(self).line() == old(self).line() + commandline@,
            final(self).same_but_line(old(self)),
    {
        self.commandline.append(commandline);
    }

    /// Removes the last character of the command line, if it has one.
    pub fn backspace(&mut self)
        ensures
            final(self).line() == (if old(self).line().len() > 0 {
                old(self).line().drop_last()
            } else {
                old(self).line()
            }),
            final(self).same_but_line(old(self)),
    {
        let n: usize = self.commandline.as_str().unicode_len();
        if n > 0 {
            let shorter = String::from_str(self.commandline.as_str().substring_char(0, n - 1));
            self.commandline = shorter;
        }
    }

    /// The command line being edited.
    pub fn commandline(&self) -> (s: &str)
        ensures
            s@ == self.line(),
    {
        self.commandline.as_str()
    }

    /// How many commands were run.
    pub fn history_len(&self) -> (n: usize)
        ensures
            n == self.commands().len(),
    {
        self.commands.len()
    }

    /// The command in position `i` of the history, newest first, and its
    /// output.
    pub fn history(&self, i: usize) -> (r: (&str, &str))
        requires
            self.inv(),
            i < self.commands().len(),
        ensures
            r.0@ == self.commands()[i as int],
            r.1@ == self.outputs()[i as int],
    {
        (self.commands[i].as_str(), self.outputs[i].as_str())
    }

    /// How far the panel has slid in, and its full height.
    pub fn panel(&self) -> (r: (u32, u32))
        ensures
            r.0 == self.slid(),
            r.1 == self.height(),
    {
        (self.h, self.height)
    }

    /// Puts a command that was run, with its output, at the head of the
    /// history, and clears the command line.
    pub fn record(&mut self, command: String, output: String)
        requires
            old(self).inv(),
        ensures
            final(self).inv(),
            final(self).line() == Seq::<char>::empty(),
            final(self).commands() == old(self).commands().insert(0, command@),
            final(self).outputs() == old(self).outputs().insert(0, output@),
            final(self).active() == old(self).active(),
            final(self).same_panel(old(self)),
    {
        self.commandline = String::new();
        self.commands.insert(0, command);
        self.outputs.insert(0, output);
        assert(self.commands() =~= old(self).commands().insert(0, command@));
        assert(self.outputs() =~= old(self).outputs().insert(0, output@));
    }

    /// Runs `command` in the scripting environment and records it with what
    /// it evaluated to, or with the environment's error message. Returns
    /// the output that was recorded.
    pub fn process_command<'lua>(&mut self, ctx: rlua::Context<'lua>, command: String) -> (output:
        String)
        requires
            old(self).inv(),
        ensures
            final(self).inv(),
            final(self).line() == Seq::<char>::empty(),
            final(self).commands() == old(self).commands().insert(0, command@),
            final(self).outputs() == old(self).outputs().insert(0, output@),
            final(self).active() == old(self).active(),
            final(self).same_panel(old(self)),
    {
        let output = match evaluate(ctx, command.as_str()) {
            Ok(value) => result_text(value),
            Err(error) => error_text(&error),
        };
        let shown = output.clone();
        self.record(command, output);
        shown
    }

    /// Runs the command line as a command: see [`Terminal::process_command`].
    pub fn process_commandline<'lua>(&mut self, ctx: rlua::Context<'lua>) -> (output: String)
        requires
            old(self).inv(),
        ensures
            final(self).inv(),
            final(self).line() == Seq::<char>::empty(),
            final(self).commands() == old(self).commands().insert(0, old(self).line()),
            final(self).outputs() == old(self).outputs().insert(0, output@),
            final(self).active() == old(self).active(),
            final(self).same_panel(old(self)),
    {
        let command = self.commandline.clone();
        self.process_command(ctx, command)
    }

    /// Moves the panel one step of its slide: in while the console is
    /// switched on and not fully open, out while it is switched off and not
    /// fully closed. The panel stops at zero and at the largest height that
    /// the machine can hold.
    pub fn slide(&mut self)
        ensures
            final(self).slid() == (if !old(self).active() && old(self).slid() > 0 {
                if old(self).slid() >= SLIDE {
                    (old(self).slid() - SLIDE) as u32
                } else {
                    0u32
                }
            } else if old(self).active() && old(self).slid() < old(self).height() {
                if old(self).slid() <= u32::MAX - SLIDE {
                    (old(self).slid() + SLIDE) as u32
                } else {
                    u32::MAX
                }
            } else {
                old(self).slid()
            }),
            final(self).active() == old(self).active(),
            final(self).line() == old(self).line(),
            final(self).same_history(old(self)),
            final(self).height() == old(self).height(),
            final(self).char_width() == old(self).char_width(),
            final(self).char_height() == old(self).char_height(),
    {
        if !self.on && self.h > 0 {
            self.h = if self.h >= SLIDE {
                self.h - SLIDE
            } else {
                0
            };
        } else if self.on && self.h < self.height {
            self.h = if self.h <= u32::MAX - SLIDE {
                self.h + SLIDE
            } else {
                u32::MAX
            };
        }
    }

    /// The text on the open panel: the command line in the row above the
    /// last, then the newest commands that fit, each in its row with its
    /// output in the row below, going up from the third row above the
    /// command line, then `title` in the first row. `None` while the panel is
    /// not open.
    pub fn lines(&self, title: &str) -> (r: Option<Vec<Line>>)
        requires
            self.inv(),
        ensures
            r is Some <==> self.open(),
            r matches Some(lines) ==> {
                let prompt = prompt_row(self.height(), self.char_height());
                &&& lines@.len() == 2 * self.shown() + 2
                &&& lines@[0].row == prompt
                &&& lines@[0].text@ == self.line()
                &&& forall|k: int|
                    0 <= k < self.shown() ==> {
                        &&& (#[trigger] lines@[2 * k + 1]).row == prompt - 3 - 2 * k
                        &&& lines@[2 * k + 1].text@ == self.commands()[k]
                        &&& lines@[2 * k + 2].row == prompt - 2 - 2 * k
                        &&& lines@[2 * k + 2].text@ == self.outputs()[k]
                    }
                &&& lines@[lines@.len() - 1].row == 0
                &&& lines@[lines@.len() - 1].text@ == title@
            },
    {
        if self.h < self.height || self.char_height == 0 {
            return None;
        }
        let rows: u32 = self.height / self.char_height;
        if rows < 3 {
            return None;
        }
        let by_half: u32 = (self.height / 2) / self.char_height;
        let by_half: u32 = if by_half >= 2 {
            by_half - 2
        } else {
            0
        };
        let by_rows: u32 = if rows >= 4 {
            (rows - 4) / 2 + 1
        } else {
            0
        };
        let fit: u32 = if by_half <= by_rows {
            by_half
        } else {
            by_rows
        };
        assert(fit == history_fit(self.height(), self.char_height()));
        let count: usize = if self.commands.len() <= fit as usize {
            self.commands.len()
        } else {
            fit as usize
        };
        assert(count == self.shown());
        let prompt: u32 = rows - 1;
        let mut lines: Vec<Line> = Vec::new();
        lines.push(Line { row: prompt, text: self.commandline.clone() });
        let mut k: usize = 0;
        while k < count
            invariant
                self.inv(),
                k <= count,
                count == self.shown(),
                prompt == prompt_row(self.height(), self.char_height()),
                count <= self.commands@.len(),
                count <= fit,
                fit <= by_rows,
                rows >= 3,
                prompt == rows - 1,
                by_rows == (if rows >= 4 {
                    (rows - 4) / 2 + 1
                } else {
                    0
                }),
                lines@.len() == 2 * k + 1,
                lines@[0].row == prompt,
                lines@[0].text@ == self.line(),
                forall|j: int|
                    0 <= j < k ==> {
                        &&& (#[trigger] lines@[2 * j + 1]).row == prompt - 3 - 2 * j
                        &&& lines@[2 * j + 1].text@ == self.commands()[j]
                        &&& lines@[2 * j + 2].row == prompt - 2 - 2 * j
                        &&& lines@[2 * j + 2].text@ == self.outputs()[j]
                    },
            decreases count - k,
        {
            let up: u32 = 2 * (k as u32);
            lines.push(Line { row: prompt - 3 - up, text: self.commands[k].clone() });
            lines.push(Line { row: prompt - 2 - up, text: self.outputs[k].clone() });
            proof {
                assert forall|j: int| 0 <= j < k + 1 implies {
                    &&& (#[trigger] lines@[2 * j + 1]).row == prompt - 3 - 2 * j
                    &&& lines@[2 * j + 1].text@ == self.commands()[j]
                    &&& lines@[2 * j + 2].row == prompt - 2 - 2 * j
                    &&& lines@[2 * j + 2].text@ == self.outputs()[j]
                } by {
                    if j < k {
                        assert(lines@[2 * j + 1].row == prompt - 3 - 2 * j);
                    }
                }
            }
            k += 1;
        }
        let ghost before = lines@;
        lines.push(Line { row: 0, text: String::from_str(title) });
        proof {
            assert(lines@[0] == before[0]);
            assert forall|j: int| 0 <= j < self.shown() implies {
                &&& (#[trigger] lines@[2 * j + 1]).row == prompt - 3 - 2 * j
                &&& lines@[2 * j + 1].text@ == self.commands()[j]
                &&& lines@[2 * j + 2].row == prompt - 2 - 2 * j
                &&& lines@[2 * j + 2].text@ == self.outputs()[j]
            } by {
                assert(before[2 * j + 1].row == prompt - 3 - 2 * j);
                assert(lines@[2 * j + 1] == before[2 * j + 1]);
                assert(lines@[2 * j + 2] == before[2 * j + 2]);
            }
        }
        Some(lines)
    }
}

} // verus!
