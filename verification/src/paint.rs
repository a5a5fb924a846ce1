//! Styled text: what is drawn, without saying how.
use vstd::prelude::*;
use vstd::string::*;

verus! {

/// The colour of a text.
#[derive(Clone, Copy, Debug, PartialEq, Eq, Structural)]
pub enum Ink {
    /// That of the terminal, or of the row.
    Plain,
    Magenta,
    Cyan,
    Green,
    DarkGray,
    Yellow,
    White,
}

/// The colour behind a text.
#[derive(Clone, Copy, Debug, PartialEq, Eq, Structural)]
pub enum Ground {
    /// That of the terminal, or of the row.
    Plain,
    Blue,
    /// A dark shade: the colour 236 of the palette.
    Shade,
}

/// How a text looks.
#[derive(Clone, Copy, Debug, PartialEq, Eq, Structural)]
pub struct Style {
    pub ink: Ink,
    pub ground: Ground,
    pub bold: bool,
}

/// The style of plain text.
#[verifier::allow_in_spec]
pub fn plain() -> Style
    returns
        (Style { ink: Ink::Plain, ground: Ground::Plain, bold: false }),
{
    Style { ink: Ink::Plain, ground: Ground::Plain, bold: false }
}

/// The style of text in one colour.
#[verifier::allow_in_spec]
pub fn inked(ink: Ink) -> Style
    returns
        (Style { ink, ground: Ground::Plain, bold: false }),
{
    Style { ink, ground: Ground::Plain, bold: false }
}

/// The style of bold text in one colour.
#[verifier::allow_in_spec]
pub fn bold(ink: Ink) -> Style
    returns
        (Style { ink, ground: Ground::Plain, bold: true }),
{
    Style { ink, ground: Ground::Plain, bold: true }
}

/// The style of what the cursor stands on.
#[verifier::allow_in_spec]
pub fn highlighted() -> Style
    returns
        (Style { ink: Ink::White, ground: Ground::Blue, bold: false }),
{
    Style { ink: Ink::White, ground: Ground::Blue, bold: false }
}

/// A text in one style.
#[derive(Clone, Debug)]
pub struct Span {
    pub text: String,
    pub style: Style,
}

/// What a [`Span`] says.
pub struct SpanView {
    pub text: Seq<char>,
    pub style: Style,
}

impl View for Span {
    type V = SpanView;

    open spec fn view(&self) -> SpanView {
        SpanView { text: self.text@, style: self.style }
    }
}

/// A text in one style.
pub open spec fn piece(text: Seq<char>, style: Style) -> SpanView {
    SpanView { text, style }
}

/// A line of text in several styles.
#[derive(Clone, Debug)]
pub struct Line {
    pub spans: Vec<Span>,
}

impl View for Line {
    type V = Seq<SpanView>;

    open spec fn view(&self) -> Seq<SpanView> {
        self.spans@.map_values(|s: Span| s@)
    }
}

/// What each line of a list says.
pub open spec fn line_views(list: Seq<Line>) -> Seq<Seq<SpanView>> {
    list.map_values(|l: Line| l@)
}

impl Line {
    /// The empty line.
    pub fn new() -> (r: Line)
        ensures
            r@ == Seq::<SpanView>::empty(),
    {
        let r = Line { spans: Vec::new() };
        assert(r@ =~= Seq::empty());
        r
    }

    /// The line of one text.
    pub fn of(text: &str, style: Style) -> (r: Line)
        ensures
            r@ == seq![piece(text@, style)],
    {
        let mut r = Line::new();
        r.put(text, style);
        assert(r@ =~= seq![piece(text@, style)]);
        r
    }

    /// Adds a text at the end.
    pub fn put(&mut self, text: &str, style: Style)
        ensures
            final(self)@ == old(self)@.push(piece(text@, style)),
    {
        let ghost before = self@;
        self.spans.push(Span { text: text.to_string(), style });
        assert(self@ =~= before.push(piece(text@, style)));
    }
}

}
