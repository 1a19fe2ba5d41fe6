//! Serialising a canvas to text: Braille glyphs or text overrides, row by
//! row, with color escapes emitted only where the color changes.

use crate::canvas::{lemma_cell_index, BrailleCanvas, CanvasModel};
use crate::color::{ansi_seq, decimal, digit, digit_char, named_code_of, reset_seq, same_color, Color};
use vstd::prelude::*;
use vstd::string::StrSliceExecFns;

verus! {

/// The Braille glyph whose dots are the bits of `mask`.
pub open spec fn glyph(mask: u8) -> char {
    (0x2800 + mask as u32) as char
}

/// `n` copies of `c`.
pub open spec fn repeat(c: char, n: nat) -> Seq<char> {
    Seq::new(n, |i: int| c)
}

/// `t` centered in a field of `width` characters, the odd space going
/// right; a longer `t` is kept whole.
pub open spec fn centered(t: Seq<char>, width: nat) -> Seq<char> {
    if t.len() >= width {
        t
    } else {
        let pad = (width - t.len()) as nat;
        repeat(' ', pad / 2) + t + repeat(' ', (pad - pad / 2) as nat)
    }
}

/// The escapes written when the color in effect changes from `prev` to `cur`.
pub open spec fn color_change(prev: Option<Color>, cur: Option<Color>) -> Seq<char> {
    if prev == cur {
        Seq::empty()
    } else {
        match cur {
            Some(c) => ansi_seq(c),
            None => reset_seq(),
        }
    }
}

pub open spec fn title_view(title: Option<&str>) -> Option<Seq<char>> {
    match title {
        Some(t) => Some(t@),
        None => None,
    }
}

/// `s` when `b` holds, nothing otherwise.
pub open spec fn when(b: bool, s: Seq<char>) -> Seq<char> {
    if b {
        s
    } else {
        Seq::empty()
    }
}

impl CanvasModel {
    /// The character shown for cell `i`: its text override, else its glyph.
    pub open spec fn cell_char(self, i: int) -> char {
        match self.text[i] {
            Some(c) => c,
            None => glyph(self.masks[i]),
        }
    }

    /// The color in effect when cell `col` of row `row` is reached.
    pub open spec fn color_before(self, row: int, col: int) -> Option<Color> {
        if col <= 0 {
            None
        } else {
            self.colors[row * self.width + col - 1]
        }
    }

    /// The first `n` cells of row `row`, each preceded by the escapes its
    /// color change needs.
    pub open spec fn row_body(self, row: int, n: int) -> Seq<char>
        decreases n,
    {
        if n <= 0 {
            Seq::empty()
        } else {
            let i = row * self.width + n - 1;
            self.row_body(row, n - 1) + color_change(self.color_before(row, n - 1), self.colors[i])
                + seq![self.cell_char(i)]
        }
    }

    /// One rendered row, with the reset a colored last cell needs.
    pub open spec fn row_line(self, row: int, border: bool) -> Seq<char> {
        when(border, seq!['│']) + self.row_body(row, self.width as int) + when(
            self.color_before(row, self.width as int) is Some,
            reset_seq(),
        ) + when(border, seq!['│']) + seq!['\n']
    }

    /// The first `n` rendered rows.
    pub open spec fn rows(self, n: int, border: bool) -> Seq<char>
        decreases n,
    {
        if n <= 0 {
            Seq::empty()
        } else {
            self.rows(n - 1, border) + self.row_line(n - 1, border)
        }
    }

    /// The full text: optional centered title line, optional box border,
    /// and the rows.
    pub open spec fn rendered(self, border: bool, title: Option<Seq<char>>) -> Seq<char> {
        let title_line = match title {
            Some(t) => centered(t, self.width + 2) + seq!['\n'],
            None => Seq::empty(),
        };
        title_line + when(border, seq!['┌'] + repeat('─', self.width) + seq!['┐', '\n'])
            + self.rows(self.height as int, border) + when(
            border,
            seq!['└'] + repeat('─', self.width) + seq!['┘'],
        )
    }

    /// Row `row` as bare glyphs, ignoring colors and text overrides.
    pub open spec fn plain_row(self, row: int) -> Seq<char> {
        Seq::new(self.width, |c: int| glyph(self.masks[row * self.width + c])).push('\n')
    }

    /// The first `n` rows as bare glyphs.
    pub open spec fn plain_rows(self, n: int) -> Seq<char>
        decreases n,
    {
        if n <= 0 {
            Seq::empty()
        } else {
            self.plain_rows(n - 1) + self.plain_row(n - 1)
        }
    }
}

/// Relies on `char::from_u32`: it returns the character with that scalar
/// value, and succeeds on every value outside the surrogate range up to
/// `0x10FFFF`.
#[verifier::external_body]
fn char_from_u32(code: u32) -> (r: Option<char>)
    ensures
        r is Some <==> (code < 0xD800 || (0xE000 <= code && code <= 0x10FFFF)),
        r matches Some(c) ==> c as u32 == code,
{
    char::from_u32(code)
}

/// Relies on `String::push`: the character is appended at the end.
#[verifier::external_body]
fn push_char(s: &mut String, c: char)
    ensures
        final(s)@ == old(s)@.push(c),
{
    s.push(c)
}

/// The Braille glyph of `mask`.
pub fn braille_glyph(mask: u8) -> (c: char)
    ensures
        c == glyph(mask),
{
    match char_from_u32(0x2800 + mask as u32) {
        Some(c) => {
            proof {
                vstd::utf8::char_u32_cast(c, c as u32);
            }
            c
        },
        None => ' ',
    }
}

/// Appends `n` copies of `c`.
fn write_repeat(w: &mut String, c: char, n: usize)
    ensures
        final(w)@ == old(w)@ + repeat(c, n as nat),
{
    let mut i: usize = 0;
    while i < n
        invariant
            i <= n,
            w@ == old(w)@ + repeat(c, i as nat),
        decreases n - i,
    {
        push_char(w, c);
        i = i + 1;
        assert(w@ =~= old(w)@ + repeat(c, i as nat));
    }
}

/// Appends the decimal notation of `n`.
fn write_decimal(w: &mut String, n: u8)
    ensures
        final(w)@ == old(w)@ + decimal(n as nat),
{
    if n >= 100 {
        assert(decimal(n as nat) == seq![digit((n / 100) as nat), digit(((n / 10) % 10) as nat)].push(
            digit((n % 10) as nat),
        )) by {
            assert(decimal((n / 10) as nat) == decimal((n / 100) as nat).push(
                digit(((n / 10) % 10) as nat),
            ));
        }
        push_char(w, digit_char(n / 100));
        push_char(w, digit_char((n / 10) % 10));
        push_char(w, digit_char(n % 10));
    } else if n >= 10 {
        assert(decimal(n as nat) == seq![digit((n / 10) as nat)].push(digit((n % 10) as nat))) by {
            assert((n as nat) / 10 == (n / 10) as nat);
            assert(decimal((n / 10) as nat) == seq![digit((n / 10) as nat)]);
        }
        push_char(w, digit_char(n / 10));
        push_char(w, digit_char(n % 10));
    } else {
        push_char(w, digit_char(n));
    }
    assert(w@ =~= old(w)@ + decimal(n as nat));
}

/// Appends the escape that resets all attributes.
fn write_reset(w: &mut String)
    ensures
        final(w)@ == old(w)@ + reset_seq(),
{
    push_char(w, '\x1b');
    push_char(w, '[');
    push_char(w, '0');
    push_char(w, 'm');
    assert(w@ =~= old(w)@ + reset_seq());
}

/// Appends the escape that selects `color` as foreground color.
fn write_ansi_color(w: &mut String, color: Color)
    ensures
        final(w)@ == old(w)@ + ansi_seq(color),
{
    push_char(w, '\x1b');
    push_char(w, '[');
    match color {
        Color::TrueColor { r, g, b } => {
            push_char(w, '3');
            push_char(w, '8');
            push_char(w, ';');
            push_char(w, '2');
            push_char(w, ';');
            write_decimal(w, r);
            push_char(w, ';');
            write_decimal(w, g);
            push_char(w, ';');
            write_decimal(w, b);
            push_char(w, 'm');
        },
        _ => {
            write_decimal(w, named_code_of(color));
            push_char(w, 'm');
        },
    }
    assert(w@ =~= old(w)@ + ansi_seq(color));
}

/// One step of the color state machine: given the color last emitted and
/// the color of the next cell, appends the escapes the change needs
/// (nothing when they are equal) and returns the new state.
pub fn color_transition(out: &mut String, last: Option<Color>, cur: Option<Color>) -> (next: Option<Color>)
    ensures
        final(out)@ == old(out)@ + color_change(last, cur),
        next == cur,
{
    if !same_color(cur, last) {
        match cur {
            Some(c) => write_ansi_color(out, c),
            None => write_reset(out),
        }
    } else {
        assert(old(out)@ + color_change(last, cur) =~= old(out)@);
    }
    cur
}

/// Appends `t` centered in a field of `width` characters, then a newline.
fn write_title(w: &mut String, t: &str, width: usize)
    ensures
        final(w)@ == old(w)@ + centered(t@, width as nat) + seq!['\n'],
{
    let n = t.unicode_len();
    let pad: usize = if n < width {
        width - n
    } else {
        0
    };
    write_repeat(w, ' ', pad / 2);
    let ghost mid = w@;
    let mut i: usize = 0;
    while i < n
        invariant
            i <= n,
            n == t@.len(),
            w@ == mid + t@.subrange(0, i as int),
        decreases n - i,
    {
        push_char(w, t.get_char(i));
        i = i + 1;
        assert(w@ =~= mid + t@.subrange(0, i as int));
    }
    write_repeat(w, ' ', pad - pad / 2);
    push_char(w, '\n');
    assert(t@.subrange(0, n as int) =~= t@);
    assert(w@ =~= old(w)@ + centered(t@, width as nat) + seq!['\n']);
}

impl BrailleCanvas {
    /// Appends row `row`: the cells with their color escapes, the closing
    /// reset if a color is still active, the side borders and a newline.
    fn write_row(&self, w: &mut String, row: usize, border: bool)
        requires
            self.wf(),
            row < self@.height,
        ensures
            final(w)@ == old(w)@ + self@.row_line(row as int, border),
    {
        let width = self.width();
        let height = self.height();
        if border {
            push_char(w, '│');
        }
        assert(w@ =~= old(w)@ + when(border, seq!['│']));
        let mut last: Option<Color> = None;
        let mut col: usize = 0;
        while col < width
            invariant
                self.wf(),
                width == self@.width,
                height == self@.height,
                row < height,
                col <= width,
                w@ == old(w)@ + when(border, seq!['│']) + self@.row_body(row as int, col as int),
                last == self@.color_before(row as int, col as int),
            decreases width - col,
        {
            proof {
                lemma_cell_index(width as int, height as int, col as int, row as int);
            }
            let i = row * width + col;
            let ch = match self.char_at(i) {
                Some(c) => c,
                None => braille_glyph(self.mask_at(i)),
            };
            let cur = self.color_at(i);
            last = color_transition(w, last, cur);
            push_char(w, ch);
            col = col + 1;
            assert(w@ =~= old(w)@ + when(border, seq!['│']) + self@.row_body(row as int, col as int));
        }
        let ghost body = w@;
        if last.is_some() {
            write_reset(w);
        }
        assert(w@ == body + when(last is Some, reset_seq()));
        if border {
            push_char(w, '│');
        }
        push_char(w, '\n');
        assert(w@ =~= old(w)@ + self@.row_line(row as int, border));
    }

    /// Appends the rendered canvas to `out`, a buffer the caller may reuse
    /// between frames: an optional title line centered over the bordered
    /// width, an optional box border, and the rows.
    pub fn render_to(&self, out: &mut String, show_border: bool, title: Option<&str>)
        requires
            self.wf(),
        ensures
            final(out)@ == old(out)@ + self@.rendered(show_border, title_view(title)),
    {
        let width = self.width();
        let height = self.height();
        let ghost title_line = match title_view(title) {
            Some(t) => centered(t, self@.width + 2) + seq!['\n'],
            None => Seq::<char>::empty(),
        };
        if let Some(t) = title {
            write_title(out, t, width + 2);
        }
        assert(out@ =~= old(out)@ + title_line);
        let ghost after_title = out@;
        if show_border {
            push_char(out, '┌');
            write_repeat(out, '─', width);
            push_char(out, '┐');
            push_char(out, '\n');
        }
        let ghost top = when(show_border, seq!['┌'] + repeat('─', self@.width) + seq!['┐', '\n']);
        assert(out@ =~= after_title + top);
        let mut row: usize = 0;
        while row < height
            invariant
                self.wf(),
                height == self@.height,
                row <= height,
                out@ == old(out)@ + title_line + top + self@.rows(row as int, show_border),
            decreases height - row,
        {
            self.write_row(out, row, show_border);
            row = row + 1;
            assert(out@ =~= old(out)@ + title_line + top + self@.rows(row as int, show_border));
        }
        let ghost body = out@;
        if show_border {
            push_char(out, '└');
            write_repeat(out, '─', width);
            push_char(out, '┘');
        }
        assert(out@ =~= body + when(show_border, seq!['└'] + repeat('─', self@.width) + seq!['┘']));
        assert(out@ =~= old(out)@ + self@.rendered(show_border, title_view(title)));
    }

    /// The rendered canvas as a string, with or without border and title.
    pub fn render_with_options(&self, show_border: bool, title: Option<&str>) -> (r: String)
        requires
            self.wf(),
        ensures
            r@ == self@.rendered(show_border, title_view(title)),
    {
        let mut out = String::new();
        self.render_to(&mut out, show_border, title);
        assert(out@ =~= self@.rendered(show_border, title_view(title)));
        out
    }

    /// The rendered canvas with its border and no title.
    pub fn render(&self) -> (r: String)
        requires
            self.wf(),
        ensures
            r@ == self@.rendered(true, None),
    {
        self.render_with_options(true, None)
    }

    /// The dots alone: one glyph per cell, a newline after each row, no
    /// colors, no text overrides, no border.
    pub fn render_no_color(&self) -> (r: String)
        requires
            self.wf(),
        ensures
            r@ == self@.plain_rows(self@.height as int),
    {
        let width = self.width();
        let height = self.height();
        let mut out = String::new();
        let mut row: usize = 0;
        while row < height
            invariant
                self.wf(),
                width == self@.width,
                height == self@.height,
                row <= height,
                out@ == self@.plain_rows(row as int),
            decreases height - row,
        {
            let ghost start = out@;
            let mut col: usize = 0;
            while col < width
                invariant
                    self.wf(),
                    width == self@.width,
                    height == self@.height,
                    row < height,
                    col <= width,
                    out@ == start + Seq::new(
                        col as nat,
                        |c: int| glyph(self@.masks[row * self@.width + c]),
                    ),
                decreases width - col,
            {
                proof {
                    lemma_cell_index(width as int, height as int, col as int, row as int);
                }
                push_char(&mut out, braille_glyph(self.mask_at(row * width + col)));
                col = col + 1;
                assert(out@ =~= start + Seq::new(
                    col as nat,
                    |c: int| glyph(self@.masks[row * self@.width + c]),
                ));
            }
            push_char(&mut out, '\n');
            row = row + 1;
            assert(out@ =~= self@.plain_rows(row as int));
        }
        out
    }
}

} // verus!
