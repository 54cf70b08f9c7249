//! Text decoration: the capability that renderers paint fragments with.

use vstd::prelude::*;

verus! {

/// What a [`Style`] is to the contracts: the text written before a fragment
/// and the text written after it.
pub struct StyleView {
    pub prefix: Seq<char>,
    pub suffix: Seq<char>,
}

impl StyleView {
    /// The decorated form of `text`.
    pub open spec fn paint(self, text: Seq<char>) -> Seq<char> {
        self.prefix + text + self.suffix
    }

    /// A style that leaves every text as it is.
    pub open spec fn is_plain(self) -> bool {
        self.prefix.len() == 0 && self.suffix.len() == 0
    }
}

/// One decoration: a fragment is wrapped between `prefix` and `suffix`, the
/// way a terminal escape sequence and its reset wrap a word.
#[derive(Clone, Debug, PartialEq, Eq)]
pub struct Style {
    prefix: String,
    suffix: String,
}

impl View for Style {
    type V = StyleView;

    closed spec fn view(&self) -> StyleView {
        StyleView { prefix: self.prefix@, suffix: self.suffix@ }
    }
}

impl Style {
    /// The identity decoration.
    pub fn plain() -> (style: Style)
        ensures
            style@.is_plain(),
            style@.prefix == Seq::<char>::empty(),
            style@.suffix == Seq::<char>::empty(),
    {
        Style { prefix: String::new(), suffix: String::new() }
    }

    /// A decoration that writes `prefix` before a fragment and `suffix`
    /// after it.
    pub fn new(prefix: &str, suffix: &str) -> (style: Style)
        ensures
            style@.prefix == prefix@,
            style@.suffix == suffix@,
    {
        Style { prefix: String::from_str(prefix), suffix: String::from_str(suffix) }
    }

    /// Decorates `text`.
    pub fn paint(&self, text: &str) -> (painted: String)
        ensures
            painted@ == self@.paint(text@),
    {
        let mut painted = self.prefix.clone();
        painted.append(text);
        painted.append(self.suffix.as_str());
        painted
    }
}

/// The colour capability handed to a renderer: one [`Style`] for each
/// semantic role a fragment can play.
#[derive(Clone, Debug, PartialEq, Eq)]
pub struct Color {
    annotation: Style,
    parameter: Style,
    string: Style,
}

/// What a [`Color`] is to the contracts.
pub struct ColorView {
    pub annotation: StyleView,
    pub parameter: StyleView,
    pub string: StyleView,
}

impl ColorView {
    /// No role decorates anything.
    pub open spec fn is_plain(self) -> bool {
        self.annotation.is_plain() && self.parameter.is_plain() && self.string.is_plain()
    }
}

impl View for Color {
    type V = ColorView;

    closed spec fn view(&self) -> ColorView {
        ColorView {
            annotation: self.annotation@,
            parameter: self.parameter@,
            string: self.string@,
        }
    }
}

impl Color {
    /// The capability that decorates nothing: rendering through it gives
    /// plain text.
    pub fn plain() -> (color: Color)
        ensures
            color@.is_plain(),
    {
        Color { annotation: Style::plain(), parameter: Style::plain(), string: Style::plain() }
    }

    /// A capability with the given style for each role.
    pub fn new(annotation: Style, parameter: Style, string: Style) -> (color: Color)
        ensures
            color@.annotation == annotation@,
            color@.parameter == parameter@,
            color@.string == string@,
    {
        Color { annotation, parameter, string }
    }

    /// The style of modifier prefixes.
    pub fn annotation(&self) -> (style: &Style)
        ensures
            style@ == self@.annotation,
    {
        &self.annotation
    }

    /// The style of identifier names.
    pub fn parameter(&self) -> (style: &Style)
        ensures
            style@ == self@.parameter,
    {
        &self.parameter
    }

    /// The style of default-value text.
    pub fn string(&self) -> (style: &Style)
        ensures
            style@ == self@.string,
    {
        &self.string
    }
}

/// A plain style is the identity on every text.
pub proof fn lemma_plain_paint_is_identity(style: StyleView, text: Seq<char>)
    requires
        style.is_plain(),
    ensures
        style.paint(text) == text,
{
    assert(style.prefix =~= Seq::<char>::empty());
    assert(style.suffix =~= Seq::<char>::empty());
    assert(style.paint(text) =~= text);
}

} // verus!
