//! Styled text for the terminal.
//!
//! A frame is put together from pieces: texts, and changes of colour between them. As
//! characters for the terminal it is what the pieces give one behind the other.
use crossterm::style::{ResetColor, SetBackgroundColor, SetForegroundColor};
use crossterm::Command;
use vstd::prelude::*;
use crate::text::decimal;

verus! {

/// A colour of the terminal.
#[derive(Clone, Copy, Debug, PartialEq, Eq, Structural)]
pub enum Color {
    DarkGrey,
    Red,
    Green,
    Yellow,
    Cyan,
    White,
    Rgb { r: u8, g: u8, b: u8 },
}

/// A piece of a frame.
#[derive(Debug, PartialEq, Eq)]
pub enum Piece {
    /// From here on text has this colour.
    Foreground(Color),
    /// From here on text stands on this colour.
    Background { r: u8, g: u8, b: u8 },
    /// From here on text has the colours that the terminal started with.
    Reset,
    /// Text.
    Text(String),
}

/// A piece of a frame, its text as characters.
pub enum PieceModel {
    Foreground(Color),
    Background { r: u8, g: u8, b: u8 },
    Reset,
    Text(Seq<char>),
}

impl View for Piece {
    type V = PieceModel;

    open spec fn view(&self) -> PieceModel {
        match *self {
            Piece::Foreground(color) => PieceModel::Foreground(color),
            Piece::Background { r, g, b } => PieceModel::Background { r, g, b },
            Piece::Reset => PieceModel::Reset,
            Piece::Text(text) => PieceModel::Text(text@),
        }
    }
}

/// The piece that sets the colour of the text behind it.
pub open spec fn fg(color: Color) -> PieceModel {
    PieceModel::Foreground(color)
}

/// A piece of text.
pub open spec fn txt(text: Seq<char>) -> PieceModel {
    PieceModel::Text(text)
}

/// Pieces added in two steps are added in one.
pub proof fn lemma_append(a: Seq<PieceModel>, b: Seq<PieceModel>, c: Seq<PieceModel>)
    ensures
        (a + b) + c == a + (b + c),
{
    assert((a + b) + c =~= a + (b + c));
}

/// A frame: what one refresh of the screen shows.
pub struct Frame {
    pub pieces: Vec<Piece>,
}

impl View for Frame {
    type V = Seq<PieceModel>;

    open spec fn view(&self) -> Seq<PieceModel> {
        self.pieces@.map_values(|piece: Piece| piece@)
    }
}

impl Frame {
    /// An empty frame.
    pub fn new() -> (frame: Frame)
        ensures
            frame@ == Seq::<PieceModel>::empty(),
    {
        let frame = Frame { pieces: Vec::new() };
        assert(frame@ =~= Seq::<PieceModel>::empty());
        frame
    }

    /// Adds a piece.
    pub fn push(&mut self, piece: Piece)
        ensures
            final(self)@ == old(self)@.push(piece@),
    {
        self.pieces.push(piece);
        assert(self@ =~= old(self)@.push(piece@));
    }

    /// Sets the colour of the text that follows.
    pub fn color(&mut self, color: Color)
        ensures
            final(self)@ == old(self)@.push(fg(color)),
    {
        self.push(Piece::Foreground(color));
    }

    /// Sets the colour that the text that follows stands on.
    pub fn background(&mut self, r: u8, g: u8, b: u8)
        ensures
            final(self)@ == old(self)@.push((PieceModel::Background { r, g, b })),
    {
        self.push(Piece::Background { r, g, b });
    }

    /// Goes back to the colours that the terminal started with.
    pub fn reset(&mut self)
        ensures
            final(self)@ == old(self)@.push(PieceModel::Reset),
    {
        self.push(Piece::Reset);
    }

    /// Adds text.
    pub fn text(&mut self, text: &str)
        ensures
            final(self)@ == old(self)@.push(txt(text@)),
    {
        self.push(Piece::Text(text.to_owned()));
    }
}

/// The escape sequence with the given parameters that sets how text is shown.
pub open spec fn escape(parameters: Seq<char>) -> Seq<char> {
    "\x1b["@ + parameters + "m"@
}

/// The parameters that choose a colour by its parts.
pub open spec fn rgb_parameters(r: u8, g: u8, b: u8) -> Seq<char> {
    "2;"@ + decimal(r as nat) + ";"@ + decimal(g as nat) + ";"@ + decimal(b as nat)
}

/// The parameters that choose a colour.
pub open spec fn color_parameters(color: Color) -> Seq<char> {
    match color {
        Color::DarkGrey => "5;8"@,
        Color::Red => "5;9"@,
        Color::Green => "5;10"@,
        Color::Yellow => "5;11"@,
        Color::Cyan => "5;14"@,
        Color::White => "5;15"@,
        Color::Rgb { r, g, b } => rgb_parameters(r, g, b),
    }
}

/// What `crossterm::style::SetForegroundColor` writes with `Command::write_ansi`: the
/// escape sequence for the colour of text, or one without parameters where the
/// environment (`NO_COLOR`) or a call of `force_color_output` has switched colours off.
#[verifier::external_body]
fn foreground_code(color: Color) -> (code: String)
    ensures
        code@ == escape("38;"@ + color_parameters(color)) || code@ == escape(Seq::empty()),
{
    let chosen = match color {
        Color::DarkGrey => crossterm::style::Color::DarkGrey,
        Color::Red => crossterm::style::Color::Red,
        Color::Green => crossterm::style::Color::Green,
        Color::Yellow => crossterm::style::Color::Yellow,
        Color::Cyan => crossterm::style::Color::Cyan,
        Color::White => crossterm::style::Color::White,
        Color::Rgb { r, g, b } => crossterm::style::Color::Rgb { r, g, b },
    };
    let mut code = String::new();
    let _ = SetForegroundColor(chosen).write_ansi(&mut code);
    code
}

/// What `crossterm::style::SetBackgroundColor` writes with `Command::write_ansi` for a
/// colour given by its parts: the escape sequence for the colour that text stands on, or
/// one without parameters where the environment (`NO_COLOR`) or a call of
/// `force_color_output` has switched colours off.
#[verifier::external_body]
fn background_code(r: u8, g: u8, b: u8) -> (code: String)
    ensures
        code@ == escape("48;"@ + rgb_parameters(r, g, b)) || code@ == escape(Seq::empty()),
{
    let mut code = String::new();
    let _ = SetBackgroundColor(crossterm::style::Color::Rgb { r, g, b }).write_ansi(&mut code);
    code
}

/// What `crossterm::style::ResetColor` writes with `Command::write_ansi`: the escape
/// sequence with the parameter 0, whether colours are switched off or not.
#[verifier::external_body]
fn reset_code() -> (code: String)
    ensures
        code@ == escape("0"@),
{
    let mut code = String::new();
    let _ = ResetColor.write_ansi(&mut code);
    code
}

/// Whether a piece gives `text` on the terminal. A change of colour gives its escape
/// sequence, or one without parameters where colours are switched off.
pub open spec fn shows(piece: PieceModel, text: Seq<char>) -> bool {
    match piece {
        PieceModel::Foreground(color) => text == escape("38;"@ + color_parameters(color)) || text
            == escape(Seq::empty()),
        PieceModel::Background { r, g, b } => text == escape("48;"@ + rgb_parameters(r, g, b))
            || text == escape(Seq::empty()),
        PieceModel::Reset => text == escape("0"@),
        PieceModel::Text(content) => text == content,
    }
}

/// Texts one behind the other.
pub open spec fn joined(texts: Seq<Seq<char>>) -> Seq<char>
    decreases texts.len(),
{
    if texts.len() == 0 {
        Seq::empty()
    } else {
        joined(texts.drop_last()) + texts.last()
    }
}

/// Whether each of `pieces` gives the one of `texts` in its place.
pub open spec fn all_show(pieces: Seq<PieceModel>, texts: Seq<Seq<char>>) -> bool {
    &&& texts.len() == pieces.len()
    &&& forall|i: int| 0 <= i < pieces.len() ==> shows(#[trigger] pieces[i], texts[i])
}

/// Whether `pieces`, one behind the other, give `text` on the terminal.
pub open spec fn renders(pieces: Seq<PieceModel>, text: Seq<char>) -> bool {
    exists|texts: Seq<Seq<char>>| #[trigger] all_show(pieces, texts) && text == joined(texts)
}

/// The number of line feeds in a text.
pub open spec fn line_feeds(text: Seq<char>) -> nat
    decreases text.len(),
{
    if text.len() == 0 {
        0
    } else {
        line_feeds(text.drop_last()) + (if text.last() == '\n' {
            1nat
        } else {
            0
        })
    }
}

/// The number of line feeds in the texts of a frame.
pub open spec fn frame_lines(pieces: Seq<PieceModel>) -> nat
    decreases pieces.len(),
{
    if pieces.len() == 0 {
        0
    } else {
        frame_lines(pieces.drop_last()) + (match pieces.last() {
            PieceModel::Text(content) => line_feeds(content),
            _ => 0,
        })
    }
}

/// Joining two texts adds up their line feeds.
pub proof fn lemma_line_feeds_concat(a: Seq<char>, b: Seq<char>)
    ensures
        line_feeds(a + b) == line_feeds(a) + line_feeds(b),
    decreases b.len(),
{
    if b.len() == 0 {
        assert(a + b =~= a);
    } else {
        lemma_line_feeds_concat(a, b.drop_last());
        assert((a + b).drop_last() =~= a + b.drop_last());
    }
}

/// A text without line feeds has none.
pub proof fn lemma_no_line_feeds(text: Seq<char>)
    requires
        forall|i: int| 0 <= i < text.len() ==> text[i] != '\n',
    ensures
        line_feeds(text) == 0,
    decreases text.len(),
{
    if text.len() > 0 {
        lemma_no_line_feeds(text.drop_last());
    }
}

/// A text has no more line feeds than characters.
proof fn lemma_line_feeds_at_most_len(text: Seq<char>)
    ensures
        line_feeds(text) <= text.len(),
    decreases text.len(),
{
    if text.len() > 0 {
        lemma_line_feeds_at_most_len(text.drop_last());
    }
}

/// Joining pieces adds up their line feeds.
pub proof fn lemma_frame_lines_concat(a: Seq<PieceModel>, b: Seq<PieceModel>)
    ensures
        frame_lines(a + b) == frame_lines(a) + frame_lines(b),
    decreases b.len(),
{
    if b.len() == 0 {
        assert(a + b =~= a);
    } else {
        lemma_frame_lines_concat(a, b.drop_last());
        assert((a + b).drop_last() =~= a + b.drop_last());
        assert((a + b).last() == b.last());
    }
}

/// One more piece adds the line feeds of its text.
pub proof fn lemma_frame_lines_push(a: Seq<PieceModel>, piece: PieceModel)
    ensures
        frame_lines(a.push(piece)) == frame_lines(a) + (match piece {
            PieceModel::Text(content) => line_feeds(content),
            _ => 0,
        }),
{
    assert(a.push(piece).drop_last() =~= a);
}

/// A number is written without line feeds.
pub proof fn lemma_decimal_no_line_feeds(n: nat)
    ensures
        line_feeds(decimal(n)) == 0,
    decreases n,
{
    if n < 10 {
        lemma_no_line_feeds(decimal(n));
    } else {
        lemma_decimal_no_line_feeds(n / 10);
        assert(decimal(n).drop_last() =~= decimal(n / 10));
    }
}

/// Parameters of a colour are written without line feeds.
proof fn lemma_rgb_no_line_feeds(r: u8, g: u8, b: u8)
    ensures
        line_feeds(rgb_parameters(r, g, b)) == 0,
{
    reveal_strlit("2;");
    reveal_strlit(";");
    let (x, y, z) = (decimal(r as nat), decimal(g as nat), decimal(b as nat));
    lemma_decimal_no_line_feeds(r as nat);
    lemma_decimal_no_line_feeds(g as nat);
    lemma_decimal_no_line_feeds(b as nat);
    lemma_no_line_feeds("2;"@);
    lemma_no_line_feeds(";"@);
    lemma_line_feeds_concat("2;"@, x);
    lemma_line_feeds_concat("2;"@ + x, ";"@);
    lemma_line_feeds_concat("2;"@ + x + ";"@, y);
    lemma_line_feeds_concat("2;"@ + x + ";"@ + y, ";"@);
    lemma_line_feeds_concat("2;"@ + x + ";"@ + y + ";"@, z);
}

/// An escape sequence has as many line feeds as its parameters.
proof fn lemma_escape_line_feeds(parameters: Seq<char>)
    ensures
        line_feeds(escape(parameters)) == line_feeds(parameters),
{
    reveal_strlit("\x1b[");
    reveal_strlit("m");
    lemma_no_line_feeds("\x1b["@);
    lemma_no_line_feeds("m"@);
    lemma_line_feeds_concat("\x1b["@, parameters);
    lemma_line_feeds_concat("\x1b["@ + parameters, "m"@);
}

/// What a piece gives on the terminal has the line feeds of its text.
proof fn lemma_shown_line_feeds(piece: PieceModel, text: Seq<char>)
    requires
        shows(piece, text),
    ensures
        line_feeds(text) == (match piece {
            PieceModel::Text(content) => line_feeds(content),
            _ => 0,
        }),
{
    lemma_no_line_feeds(Seq::empty());
    lemma_escape_line_feeds(Seq::empty());
    match piece {
        PieceModel::Foreground(color) => {
            let parameters = color_parameters(color);
            reveal_strlit("38;");
            reveal_strlit("5;8");
            reveal_strlit("5;9");
            reveal_strlit("5;10");
            reveal_strlit("5;11");
            reveal_strlit("5;14");
            reveal_strlit("5;15");
            lemma_no_line_feeds("38;"@);
            match color {
                Color::Rgb { r, g, b } => {
                    lemma_rgb_no_line_feeds(r, g, b);
                },
                _ => {
                    lemma_no_line_feeds(parameters);
                },
            }
            lemma_line_feeds_concat("38;"@, parameters);
            lemma_escape_line_feeds("38;"@ + parameters);
        },
        PieceModel::Background { r, g, b } => {
            reveal_strlit("48;");
            lemma_no_line_feeds("48;"@);
            lemma_rgb_no_line_feeds(r, g, b);
            lemma_line_feeds_concat("48;"@, rgb_parameters(r, g, b));
            lemma_escape_line_feeds("48;"@ + rgb_parameters(r, g, b));
        },
        PieceModel::Reset => {
            reveal_strlit("0");
            lemma_no_line_feeds("0"@);
            lemma_escape_line_feeds("0"@);
        },
        PieceModel::Text(_) => {},
    }
}

/// What pieces give on the terminal has the line feeds of their texts.
proof fn lemma_joined_line_feeds(pieces: Seq<PieceModel>, texts: Seq<Seq<char>>)
    requires
        all_show(pieces, texts),
    ensures
        line_feeds(joined(texts)) == frame_lines(pieces),
    decreases pieces.len(),
{
    if pieces.len() > 0 {
        let init = pieces.drop_last();
        assert forall|i: int| 0 <= i < init.len() implies shows(
            #[trigger] init[i],
            texts.drop_last()[i],
        ) by {
            assert(shows(pieces[i], texts[i]));
        }
        lemma_joined_line_feeds(init, texts.drop_last());
        assert(shows(pieces[pieces.len() - 1], texts[texts.len() - 1]));
        lemma_shown_line_feeds(pieces.last(), texts.last());
        lemma_line_feeds_concat(joined(texts.drop_last()), texts.last());
    }
}

/// Changes of colour do not change the height of a frame: on the terminal it has the
/// line feeds of its texts.
pub proof fn colors_keep_height(pieces: Seq<PieceModel>, text: Seq<char>)
    requires
        renders(pieces, text),
    ensures
        line_feeds(text) == frame_lines(pieces),
{
    let texts = choose|texts: Seq<Seq<char>>| #[trigger]
        all_show(pieces, texts) && text == joined(texts);
    lemma_joined_line_feeds(pieces, texts);
}

/// What pieces give on the terminal with `codes` for those that are not text, each in the
/// place of its piece.
pub open spec fn texts_with(pieces: Seq<PieceModel>, codes: Seq<String>) -> Seq<Seq<char>> {
    Seq::new(
        pieces.len(),
        |i: int|
            match pieces[i] {
                PieceModel::Text(content) => content,
                _ => codes[i]@,
            },
    )
}

/// The text of a frame for the terminal with the given codes: one behind the other, the
/// text of each piece that is text, and for each other piece the code in its place.
pub fn join_codes(frame: &Frame, codes: &[String]) -> (text: String)
    requires
        codes@.len() == frame@.len(),
    ensures
        text@ == joined(texts_with(frame@, codes@)),
{
    let ghost texts = texts_with(frame@, codes@);
    let mut text = String::new();
    for i in 0..frame.pieces.len()
        invariant
            codes@.len() == frame@.len(),
            texts == texts_with(frame@, codes@),
            text@ == joined(texts.take(i as int)),
    {
        assert(frame@[i as int] == frame.pieces@[i as int]@);
        match &frame.pieces[i] {
            Piece::Text(content) => {
                text.append(content.as_str());
            },
            _ => {
                text.append(codes[i].as_str());
            },
        }
        assert(texts.take(i + 1).drop_last() =~= texts.take(i as int));
    }
    assert(texts.take(texts.len() as int) =~= texts);
    text
}

/// The code of a piece for the terminal; text has none.
fn code_of(piece: &Piece) -> (code: String)
    ensures
        piece is Text || shows(piece@, code@),
        piece is Text ==> code@.len() == 0,
{
    match piece {
        Piece::Foreground(color) => foreground_code(*color),
        Piece::Background { r, g, b } => background_code(*r, *g, *b),
        Piece::Reset => reset_code(),
        Piece::Text(_) => String::new(),
    }
}

/// The text of a frame for the terminal.
pub fn encode(frame: &Frame) -> (text: String)
    ensures
        renders(frame@, text@),
{
    let mut codes: Vec<String> = Vec::new();
    for i in 0..frame.pieces.len()
        invariant
            codes@.len() == i,
            forall|k: int|
                0 <= k < i ==> (#[trigger] frame.pieces@[k]) is Text || shows(
                    frame.pieces@[k]@,
                    codes@[k]@,
                ),
    {
        let code = code_of(&frame.pieces[i]);
        codes.push(code);
    }
    proof {
        let texts = texts_with(frame@, codes@);
        assert forall|k: int| 0 <= k < frame@.len() implies shows(#[trigger] frame@[k], texts[k]) by {
            assert(frame@[k] == frame.pieces@[k]@);
        }
        assert(all_show(frame@, texts));
    }
    join_codes(frame, &codes)
}

/// The number of line feeds in a text.
pub fn count_lines(text: &str) -> (lines: usize)
    ensures
        lines == line_feeds(text@),
{
    let count: usize = text.unicode_len();
    let mut lines: usize = 0;
    for c in it: text.chars()
        invariant
            it.seq() == text@,
            count == text@.len(),
            lines == line_feeds(text@.take(it.index())),
    {
        proof {
            assert(text@.take(it.index() + 1).drop_last() =~= text@.take(it.index()));
            lemma_line_feeds_at_most_len(text@.take(it.index()));
        }
        if c == '\n' {
            lines = lines + 1;
        }
    }
    assert(text@.take(text@.len() as int) =~= text@);
    lines
}

/// The frame that is on the screen.
pub struct RenderState {
    /// The number of its rows.
    pub last_height: usize,
}

/// What is to be written to the terminal to show a frame, and the number of its rows.
pub struct Rendering {
    pub output: String,
    pub height: usize,
}

/// The characters that bring `text` on the screen in one go, from its upper left corner
/// on; what is below it is cleared if `clear_tail` holds.
pub open spec fn update_text(text: Seq<char>, clear_tail: bool) -> Seq<char> {
    "\x1b[?2026h"@ + "\x1b[H"@ + text + (if clear_tail {
        "\x1b[J"@
    } else {
        Seq::empty()
    }) + "\x1b[?2026l"@
}

impl RenderState {
    /// What is to be written to the terminal to show `text` in place of the frame that is
    /// on the screen. Rows that a higher frame has left behind are cleared.
    pub fn update(&self, text: &str) -> (rendering: Rendering)
        ensures
            rendering.height == line_feeds(text@),
            rendering.output@ == update_text(text@, line_feeds(text@) < self.last_height),
    {
        let height: usize = count_lines(text);
        let clear_tail: bool = height < self.last_height;
        let mut output = "\x1b[?2026h".to_owned();
        output.append("\x1b[H");
        output.append(text);
        if clear_tail {
            output.append("\x1b[J");
        }
        output.append("\x1b[?2026l");
        assert(output@ =~= update_text(text@, clear_tail));
        Rendering { output, height }
    }

    /// What is to be written to the terminal to show `frame` in place of the frame that is
    /// on the screen.
    pub fn show(&self, frame: &Frame) -> (rendering: Rendering)
        ensures
            rendering.height == frame_lines(frame@),
            exists|text: Seq<char>| #[trigger]
                renders(frame@, text) && rendering.output@ == update_text(
                    text,
                    frame_lines(frame@) < self.last_height,
                ),
    {
        let text = encode(frame);
        proof {
            colors_keep_height(frame@, text@);
        }
        self.update(text.as_str())
    }
}

/// Texts are joined in their order, each as it is.
pub proof fn texts_join_in_order(texts: Seq<Seq<char>>, more: Seq<Seq<char>>, text: Seq<char>)
    ensures
        joined(Seq::empty()) == Seq::<char>::empty(),
        joined(seq![text]) == text,
        joined(texts + more) == joined(texts) + joined(more),
    decreases more.len(),
{
    reveal_with_fuel(joined, 2);
    assert(seq![text].drop_last() =~= Seq::<Seq<char>>::empty());
    assert(joined(seq![text]) =~= text);
    if more.len() == 0 {
        assert(texts + more =~= texts);
        assert(joined(texts) + joined(more) =~= joined(texts));
    } else {
        texts_join_in_order(texts, more.drop_last(), text);
        assert((texts + more).drop_last() =~= texts + more.drop_last());
        assert(joined(texts + more) =~= joined(texts) + joined(more));
    }
}

/// A text stands for itself, and every other piece for the code in its place.
pub proof fn codes_stand_in_their_places(pieces: Seq<PieceModel>, codes: Seq<String>, i: int)
    requires
        0 <= i < pieces.len(),
    ensures
        texts_with(pieces, codes).len() == pieces.len(),
        pieces[i] matches PieceModel::Text(content) ==> texts_with(pieces, codes)[i] == content,
        !(pieces[i] is Text) ==> texts_with(pieces, codes)[i] == codes[i]@,
{
}

/// Every line feed of a text counts, and nothing else does.
pub proof fn line_feeds_are_counted(text: Seq<char>, c: char)
    ensures
        line_feeds(Seq::empty()) == 0,
        line_feeds(text.push(c)) == line_feeds(text) + (if c == '\n' {
            1nat
        } else {
            0
        }),
{
    assert(text.push(c).drop_last() =~= text);
}

/// An update moves to the corner of the screen, shows the text and nothing else, and clears
/// what is below it if that is asked for; the terminal is told where it begins and ends.
pub proof fn updates_show_the_text(text: Seq<char>)
    ensures
        update_text(text, false) == "\x1b[?2026h\x1b[H"@ + text + "\x1b[?2026l"@,
        update_text(text, true) == "\x1b[?2026h\x1b[H"@ + text + "\x1b[J\x1b[?2026l"@,
{
    reveal_strlit("\x1b[?2026h");
    reveal_strlit("\x1b[H");
    reveal_strlit("\x1b[J");
    reveal_strlit("\x1b[?2026l");
    reveal_strlit("\x1b[?2026h\x1b[H");
    reveal_strlit("\x1b[J\x1b[?2026l");
    assert(update_text(text, false) =~= "\x1b[?2026h\x1b[H"@ + text + "\x1b[?2026l"@);
    assert(update_text(text, true) =~= "\x1b[?2026h\x1b[H"@ + text + "\x1b[J\x1b[?2026l"@);
}

/// The codes for the terminal: an escape character and a bracket, parameters, and an `m`.
pub proof fn codes_are_escape_sequences(parameters: Seq<char>)
    ensures
        escape(parameters).len() == parameters.len() + 3,
        escape(parameters)[0] == '\x1b',
        escape(parameters)[1] == '[',
        escape(parameters).last() == 'm',
        escape(parameters).subrange(2, (parameters.len() + 2) as int) == parameters,
{
    reveal_strlit("\x1b[");
    reveal_strlit("m");
    assert(escape(parameters).subrange(2, (parameters.len() + 2) as int) =~= parameters);
}

/// The parameters of the colours.
pub proof fn colors_have_their_parameters(r: u8, g: u8, b: u8)
    ensures
        color_parameters(Color::DarkGrey) == "5;8"@,
        color_parameters(Color::Red) == "5;9"@,
        color_parameters(Color::Green) == "5;10"@,
        color_parameters(Color::Yellow) == "5;11"@,
        color_parameters(Color::Cyan) == "5;14"@,
        color_parameters(Color::White) == "5;15"@,
        color_parameters(Color::Rgb { r, g, b }) == rgb_parameters(r, g, b),
        rgb_parameters(r, g, b) == "2;"@ + decimal(r as nat) + ";"@ + decimal(g as nat) + ";"@
            + decimal(b as nat),
{
}

/// On the terminal a text is itself, a reset the code for it, and a colour its code, or the
/// one without parameters.
pub proof fn pieces_give_their_codes(
    color: Color,
    r: u8,
    g: u8,
    b: u8,
    content: Seq<char>,
    text: Seq<char>,
)
    ensures
        shows(PieceModel::Text(content), text) <==> text == content,
        shows(PieceModel::Reset, text) <==> text == escape("0"@),
        shows(PieceModel::Foreground(color), text) <==> text == escape(
            "38;"@ + color_parameters(color),
        ) || text == escape(Seq::empty()),
        shows(PieceModel::Background { r, g, b }, text) <==> text == escape(
            "48;"@ + rgb_parameters(r, g, b),
        ) || text == escape(Seq::empty()),
{
}

/// A frame gives what its pieces give, one behind the other: one more piece adds what it
/// gives by itself.
pub proof fn frames_are_given_piece_by_piece(
    pieces: Seq<PieceModel>,
    piece: PieceModel,
    text: Seq<char>,
)
    ensures
        renders(Seq::empty(), text) <==> text.len() == 0,
        renders(pieces.push(piece), text) <==> exists|before: Seq<char>, last: Seq<char>| #[trigger]
            renders(pieces, before) && #[trigger] shows(piece, last) && text == before + last,
{
    let none = Seq::<PieceModel>::empty();
    let no_texts = Seq::<Seq<char>>::empty();
    assert(all_show(none, no_texts));
    if renders(none, text) {
        let texts = choose|texts: Seq<Seq<char>>| #[trigger]
            all_show(none, texts) && text == joined(texts);
        assert(texts =~= no_texts);
    }
    if text.len() == 0 {
        assert(text =~= joined(no_texts));
    }
    let more = pieces.push(piece);
    if renders(more, text) {
        let texts = choose|texts: Seq<Seq<char>>| #[trigger]
            all_show(more, texts) && text == joined(texts);
        let init = texts.drop_last();
        assert forall|i: int| 0 <= i < pieces.len() implies shows(#[trigger] pieces[i], init[i]) by {
            assert(shows(more[i], texts[i]));
        }
        assert(all_show(pieces, init));
        assert(renders(pieces, joined(init)));
        assert(shows(more[pieces.len() as int], texts[pieces.len() as int]));
        assert(shows(piece, texts.last()));
    }
    if exists|before: Seq<char>, last: Seq<char>| #[trigger]
        renders(pieces, before) && #[trigger] shows(piece, last) && text == before + last {
        let (before, last) = choose|before: Seq<char>, last: Seq<char>| #[trigger]
            renders(pieces, before) && #[trigger] shows(piece, last) && text == before + last;
        let init = choose|texts: Seq<Seq<char>>| #[trigger]
            all_show(pieces, texts) && before == joined(texts);
        let texts = init.push(last);
        assert(texts.drop_last() =~= init);
        assert forall|i: int| 0 <= i < more.len() implies shows(#[trigger] more[i], texts[i]) by {
            if i < pieces.len() {
                assert(shows(pieces[i], init[i]));
            }
        }
        assert(all_show(more, texts));
    }
}

/// Every line feed of the texts of a frame counts, and nothing else does.
pub proof fn frame_lines_are_counted(pieces: Seq<PieceModel>, piece: PieceModel)
    ensures
        frame_lines(Seq::empty()) == 0,
        frame_lines(pieces.push(piece)) == frame_lines(pieces) + (match piece {
            PieceModel::Text(content) => line_feeds(content),
            _ => 0,
        }),
{
    lemma_frame_lines_push(pieces, piece);
}

} // verus!
