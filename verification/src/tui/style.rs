//! Styled text: what a panel shows, without saying how it is drawn.

use crate::text::Text;
use vstd::prelude::*;

verus! {

/// A color of the terminal.
#[derive(Debug, Clone, Copy, PartialEq, Eq, Structural)]
pub enum Color {
    Black,
    Red,
    Green,
    Yellow,
    Blue,
    Cyan,
    Gray,
    DarkGray,
    LightGreen,
    White,
    Rgb(u8, u8, u8),
}

/// How text looks.
#[derive(Debug, Clone, Copy, PartialEq, Eq, Structural)]
pub struct TextStyle {
    pub fg: Option<Color>,
    pub bg: Option<Color>,
    pub bold: bool,
    pub dim: bool,
}

/// Text as the terminal shows it by itself.
pub open spec fn plain() -> TextStyle {
    TextStyle { fg: None, bg: None, bold: false, dim: false }
}

/// Text of one color.
pub open spec fn colored(color: Color) -> TextStyle {
    TextStyle { fg: Some(color), ..plain() }
}

/// Bold text of one color.
pub open spec fn bold(color: Color) -> TextStyle {
    TextStyle { fg: Some(color), bold: true, ..plain() }
}

/// Dim text of one color.
pub open spec fn dim(color: Color) -> TextStyle {
    TextStyle { fg: Some(color), dim: true, ..plain() }
}

/// Text of one color on another.
pub open spec fn on(color: Color, ground: Color) -> TextStyle {
    TextStyle { fg: Some(color), bg: Some(ground), ..plain() }
}

impl TextStyle {
    pub fn plain() -> (res: Self)
        ensures
            res == plain(),
    {
        TextStyle { fg: None, bg: None, bold: false, dim: false }
    }

    pub fn colored(color: Color) -> (res: Self)
        ensures
            res == colored(color),
    {
        TextStyle { fg: Some(color), bg: None, bold: false, dim: false }
    }

    pub fn bold(color: Color) -> (res: Self)
        ensures
            res == bold(color),
    {
        TextStyle { fg: Some(color), bg: None, bold: true, dim: false }
    }

    pub fn dim(color: Color) -> (res: Self)
        ensures
            res == dim(color),
    {
        TextStyle { fg: Some(color), bg: None, bold: false, dim: true }
    }

    pub fn on(color: Color, ground: Color) -> (res: Self)
        ensures
            res == on(color, ground),
    {
        TextStyle { fg: Some(color), bg: Some(ground), bold: false, dim: false }
    }
}

/// Text in one style.
#[derive(Debug, PartialEq, Eq)]
pub struct SpanText {
    pub text: String,
    pub style: TextStyle,
}

/// The content of a [`SpanText`].
#[verifier::ext_equal]
pub struct SpanModel {
    pub text: Text,
    pub style: TextStyle,
}

impl View for SpanText {
    type V = SpanModel;

    open spec fn view(&self) -> SpanModel {
        SpanModel { text: self.text@, style: self.style }
    }
}

impl DeepView for SpanText {
    type V = SpanModel;

    open spec fn deep_view(&self) -> SpanModel {
        self.view()
    }
}

/// A line of spans, whose own styles go over that of the line.
#[derive(Debug, PartialEq, Eq)]
pub struct LineText {
    pub style: TextStyle,
    pub spans: Vec<SpanText>,
}

/// The content of a [`LineText`].
#[verifier::ext_equal]
pub struct LineModel {
    pub style: TextStyle,
    pub spans: Seq<SpanModel>,
}

impl View for LineText {
    type V = LineModel;

    open spec fn view(&self) -> LineModel {
        LineModel { style: self.style, spans: self.spans.deep_view() }
    }
}

impl DeepView for LineText {
    type V = LineModel;

    open spec fn deep_view(&self) -> LineModel {
        self.view()
    }
}

/// Text in one style.
pub open spec fn span(text: Text, style: TextStyle) -> SpanModel {
    SpanModel { text, style }
}

/// A line of plain text.
pub open spec fn raw_line(text: Text) -> LineModel {
    LineModel { style: plain(), spans: seq![span(text, plain())] }
}

/// A line in one style.
pub open spec fn styled_line(text: Text, style: TextStyle) -> LineModel {
    LineModel { style, spans: seq![span(text, plain())] }
}

/// A line of spans.
pub open spec fn spans_line(spans: Seq<SpanModel>) -> LineModel {
    LineModel { style: plain(), spans }
}

impl LineText {
    /// A line in one style.
    pub fn styled(text: String, style: TextStyle) -> (res: Self)
        ensures
            res@ == styled_line(text@, style),
    {
        let ghost content = text@;
        let mut spans: Vec<SpanText> = Vec::new();
        spans.push(SpanText { text, style: TextStyle::plain() });
        assert(spans.deep_view() =~= seq![span(content, plain())]);
        LineText { style, spans }
    }

    /// A line of plain text.
    pub fn raw(text: &str) -> (res: Self)
        ensures
            res@ == raw_line(text@),
    {
        LineText::styled(text.to_owned(), TextStyle::plain())
    }

    /// A line of no spans yet.
    pub fn empty() -> (res: Self)
        ensures
            res@ == spans_line(Seq::empty()),
    {
        let res = LineText { style: TextStyle::plain(), spans: Vec::new() };
        assert(res@ =~= spans_line(Seq::empty()));
        res
    }

    /// The line with a span added.
    pub fn with(self, text: &str, style: TextStyle) -> (res: Self)
        ensures
            res@ == (LineModel { spans: self@.spans.push(span(text@, style)), ..self@ }),
    {
        let ghost before = self@;
        let mut spans = self.spans;
        spans.push(SpanText { text: text.to_owned(), style });
        assert(spans.deep_view() =~= before.spans.push(span(text@, style)));
        LineText { style: self.style, spans }
    }
}

/// Adds a line.
pub fn push_line(lines: &mut Vec<LineText>, line: LineText)
    ensures
        final(lines).deep_view() == old(lines).deep_view().push(line@),
{
    let ghost content = line@;
    lines.push(line);
    assert(lines.deep_view() =~= old(lines).deep_view().push(content));
}

/// A bordered panel of lines.
#[derive(Debug, PartialEq, Eq)]
pub struct Panel {
    pub title: String,
    pub border: Color,
    /// Whether wrapped lines lose their leading spaces.
    pub trim: bool,
    pub lines: Vec<LineText>,
}

/// The content of a [`Panel`].
#[verifier::ext_equal]
pub struct PanelModel {
    pub title: Text,
    pub border: Color,
    pub trim: bool,
    pub lines: Seq<LineModel>,
}

impl View for Panel {
    type V = PanelModel;

    open spec fn view(&self) -> PanelModel {
        PanelModel {
            title: self.title@,
            border: self.border,
            trim: self.trim,
            lines: self.lines.deep_view(),
        }
    }
}

} // verus!
