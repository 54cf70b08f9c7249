//! Declaration parameters and their canonical text.

use crate::color::{lemma_plain_paint_is_identity, Color, ColorView};
use vstd::prelude::*;

verus! {

/// How many arguments a parameter takes.
#[derive(Clone, Copy, Debug, PartialEq, Eq, Structural)]
pub enum ParameterKind {
    /// Exactly one value is required.
    Singular,
    /// Zero or one value.
    Optional,
    /// Zero or more values: the parameter collects the remaining arguments.
    Variadic,
}

impl ParameterKind {
    /// The symbol written before the name of a parameter of this kind, if
    /// the kind has one.
    pub open spec fn spec_prefix(self) -> Option<Seq<char>> {
        match self {
            ParameterKind::Singular => None,
            ParameterKind::Optional => Some(seq!['+']),
            ParameterKind::Variadic => Some(seq!['*']),
        }
    }

    /// The symbol written before the name of a parameter of this kind, if
    /// the kind has one.
    pub fn prefix(self) -> (symbol: Option<&'static str>)
        ensures
            match symbol {
                Some(text) => self.spec_prefix() == Some(text@),
                None => self.spec_prefix().is_none(),
            },
    {
        match self {
            ParameterKind::Singular => None,
            ParameterKind::Optional => {
                proof {
                    reveal_strlit("+");
                    assert("+"@ =~= seq!['+']);
                }
                Some("+")
            },
            ParameterKind::Variadic => {
                proof {
                    reveal_strlit("*");
                    assert("*"@ =~= seq!['*']);
                }
                Some("*")
            },
        }
    }
}

/// An identifier, kept as the lexeme it was written with.
#[derive(Clone, Debug, PartialEq, Eq)]
pub struct Name {
    lexeme: String,
}

impl View for Name {
    type V = Seq<char>;

    closed spec fn view(&self) -> Seq<char> {
        self.lexeme@
    }
}

impl Name {
    /// The identifier written as `lexeme`.
    pub fn new(lexeme: &str) -> (name: Name)
        ensures
            name@ == lexeme@,
    {
        Name { lexeme: String::from_str(lexeme) }
    }

    /// The text of the identifier.
    pub fn lexeme(&self) -> (lexeme: &str)
        ensures
            lexeme@ == self@,
    {
        self.lexeme.as_str()
    }
}

/// An expression, of which rendering needs nothing but its source text.
#[derive(Clone, Debug, PartialEq, Eq)]
pub struct Expression {
    text: String,
}

impl View for Expression {
    type V = Seq<char>;

    closed spec fn view(&self) -> Seq<char> {
        self.text@
    }
}

impl Expression {
    /// The expression whose source text is `text`.
    pub fn new(text: &str) -> (expression: Expression)
        ensures
            expression@ == text@,
    {
        Expression { text: String::from_str(text) }
    }

    /// The source text of the expression.
    pub fn text(&self) -> (text: &str)
        ensures
            text@ == self@,
    {
        self.text.as_str()
    }
}

/// One piece of a rendered parameter, tagged with the step that emitted it.
/// The decorated pieces carry their text as it is written out.
pub enum Fragment {
    /// The mark of a parameter that is exported to the environment.
    ExportSigil,
    /// The decorated prefix symbol of the parameter's kind.
    Prefix(Seq<char>),
    /// The decorated name.
    Name(Seq<char>),
    /// The `=` between the name and the default value.
    Separator,
    /// The decorated text of the default value.
    Default(Seq<char>),
}

impl Fragment {
    /// The characters that the fragment contributes.
    pub open spec fn text(self) -> Seq<char> {
        match self {
            Fragment::ExportSigil => seq!['$'],
            Fragment::Prefix(text) => text,
            Fragment::Name(text) => text,
            Fragment::Separator => seq!['='],
            Fragment::Default(text) => text,
        }
    }
}

/// The fragments written one after the other, with nothing between them.
pub open spec fn joined(fragments: Seq<Fragment>) -> Seq<char>
    decreases fragments.len(),
{
    if fragments.len() == 0 {
        Seq::empty()
    } else {
        joined(fragments.drop_last()) + fragments.last().text()
    }
}

/// What a [`Parameter`] is to the contracts.
pub struct ParameterView {
    pub name: Seq<char>,
    pub kind: ParameterKind,
    pub default: Option<Seq<char>>,
    pub export: bool,
}

impl ParameterView {
    /// The export step: the sigil, for an exported parameter only.
    pub open spec fn export_fragments(self) -> Seq<Fragment> {
        if self.export {
            seq![Fragment::ExportSigil]
        } else {
            Seq::empty()
        }
    }

    /// The prefix step: the kind's symbol in the annotation style, for a
    /// kind that has a symbol.
    pub open spec fn prefix_fragments(self, color: ColorView) -> Seq<Fragment> {
        match self.kind.spec_prefix() {
            Some(symbol) => seq![Fragment::Prefix(color.annotation.paint(symbol))],
            None => Seq::empty(),
        }
    }

    /// The name step: the lexeme in the parameter style, always.
    pub open spec fn name_fragments(self, color: ColorView) -> Seq<Fragment> {
        seq![Fragment::Name(color.parameter.paint(self.name))]
    }

    /// The default step: `=` and the value's text in the string style, for
    /// a parameter that has a default only.
    pub open spec fn default_fragments(self, color: ColorView) -> Seq<Fragment> {
        match self.default {
            Some(text) => seq![Fragment::Separator, Fragment::Default(color.string.paint(text))],
            None => Seq::empty(),
        }
    }

    /// Every fragment of the rendering, in the order of emission.
    pub open spec fn fragments(self, color: ColorView) -> Seq<Fragment> {
        self.export_fragments() + self.prefix_fragments(color) + self.name_fragments(color)
            + self.default_fragments(color)
    }

    /// The canonical text of the parameter under `color`.
    pub open spec fn rendered(self, color: ColorView) -> Seq<char> {
        joined(self.fragments(color))
    }
}

/// A parameter of a declaration.
#[derive(Clone, Debug, PartialEq, Eq)]
pub struct Parameter {
    /// The parameter's name.
    pub name: Name,
    /// How many arguments it takes.
    pub kind: ParameterKind,
    /// The default value, where the declaration gives one.
    pub default: Option<Expression>,
    /// Whether the argument is also exported as an environment variable.
    pub export: bool,
}

impl View for Parameter {
    type V = ParameterView;

    open spec fn view(&self) -> ParameterView {
        ParameterView {
            name: self.name@,
            kind: self.kind,
            default: match self.default {
                Some(expression) => Some(expression@),
                None => None,
            },
            export: self.export,
        }
    }
}

impl Parameter {
    /// The canonical text of the parameter: the export sigil, the kind's
    /// prefix, the name, and `=` with the default value, each present only
    /// where the parameter calls for it, with nothing between them.
    pub fn render(&self, color: &Color) -> (out: String)
        ensures
            out@ == self@.rendered(color@),
    {
        let mut out = String::new();
        if self.export {
            proof {
                reveal_strlit("$");
                assert("$"@ =~= seq!['$']);
            }
            out.append("$");
        }
        assert(out@ =~= joined(self@.export_fragments())) by {
            lemma_joined_short(self@.export_fragments());
        }
        match self.kind.prefix() {
            Some(symbol) => {
                let painted = color.annotation().paint(symbol);
                out.append(painted.as_str());
            },
            None => {},
        }
        assert(out@ =~= joined(self@.export_fragments()) + joined(
            self@.prefix_fragments(color@),
        )) by {
            lemma_joined_short(self@.prefix_fragments(color@));
        }
        let painted = color.parameter().paint(self.name.lexeme());
        out.append(painted.as_str());
        match &self.default {
            Some(expression) => {
                proof {
                    reveal_strlit("=");
                    assert("="@ =~= seq!['=']);
                }
                out.append("=");
                let painted = color.string().paint(expression.text());
                out.append(painted.as_str());
            },
            None => {},
        }
        proof {
            let p = self@;
            let c = color@;
            lemma_joined_short(p.name_fragments(c));
            lemma_joined_short(p.default_fragments(c));
            lemma_joined_concat(p.export_fragments(), p.prefix_fragments(c));
            lemma_joined_concat(
                p.export_fragments() + p.prefix_fragments(c),
                p.name_fragments(c),
            );
            lemma_joined_concat(
                p.export_fragments() + p.prefix_fragments(c) + p.name_fragments(c),
                p.default_fragments(c),
            );
            assert(out@ =~= p.rendered(c));
        }
        out
    }
}

/// Rendering is a function of the four attributes and the three styles:
/// two parameters with the same view, under capabilities with the same view,
/// have the same text, so rendering one parameter twice gives one text.
pub proof fn lemma_render_deterministic(
    first: Parameter,
    second: Parameter,
    first_color: Color,
    second_color: Color,
)
    requires
        first@ == second@,
        first_color@ == second_color@,
    ensures
        first@.rendered(first_color@) == second@.rendered(second_color@),
{
}

/// The separator is emitted exactly for a parameter with a default value.
/// Without one, the fragments hold neither a separator nor a default
/// fragment, and the text ends with the decorated name.
pub proof fn lemma_separator_iff_default(parameter: ParameterView, color: ColorView)
    ensures
        parameter.fragments(color).contains(Fragment::Separator) <==> parameter.default.is_some(),
        parameter.default.is_none() ==> forall|i: int|
            0 <= i < parameter.fragments(color).len() ==> !(#[trigger] parameter.fragments(
                color,
            )[i] is Default),
        parameter.default.is_none() ==> parameter.rendered(color) == joined(
            parameter.export_fragments() + parameter.prefix_fragments(color),
        ) + color.parameter.paint(parameter.name),
{
    let fragments = parameter.fragments(color);
    let front = parameter.export_fragments() + parameter.prefix_fragments(color);
    if parameter.default.is_some() {
        assert(fragments[fragments.len() - 2] == Fragment::Separator);
    } else {
        assert(fragments =~= front + parameter.name_fragments(color));
        lemma_joined_concat(front, parameter.name_fragments(color));
        lemma_joined_short(parameter.name_fragments(color));
    }
}

/// The export sigil is emitted exactly for an exported parameter, and then
/// it comes first. Without it the text begins with the prefix step.
pub proof fn lemma_sigil_iff_export(parameter: ParameterView, color: ColorView)
    ensures
        parameter.fragments(color).contains(Fragment::ExportSigil) <==> parameter.export,
        parameter.export ==> parameter.fragments(color)[0] == Fragment::ExportSigil,
        !parameter.export ==> parameter.rendered(color) == joined(
            parameter.prefix_fragments(color) + parameter.name_fragments(color)
                + parameter.default_fragments(color),
        ),
{
    let fragments = parameter.fragments(color);
    if parameter.export {
        assert(fragments[0] == Fragment::ExportSigil);
    } else {
        assert(fragments =~= parameter.prefix_fragments(color) + parameter.name_fragments(color)
            + parameter.default_fragments(color));
    }
}

/// Under a capability that decorates nothing, the text is the sigil, the
/// kind's symbol, the lexeme, and `=` with the default's text, each where
/// the parameter has it, with nothing added.
pub proof fn lemma_plain_rendering(parameter: ParameterView, color: ColorView)
    requires
        color.is_plain(),
    ensures
        parameter.rendered(color) == (if parameter.export {
            seq!['$']
        } else {
            Seq::empty()
        }) + (match parameter.kind.spec_prefix() {
            Some(symbol) => symbol,
            None => Seq::empty(),
        }) + parameter.name + (match parameter.default {
            Some(text) => seq!['='] + text,
            None => Seq::empty(),
        }),
{
    lemma_joined_short(parameter.export_fragments());
    lemma_joined_short(parameter.prefix_fragments(color));
    lemma_joined_short(parameter.name_fragments(color));
    lemma_joined_short(parameter.default_fragments(color));
    lemma_joined_concat(parameter.export_fragments(), parameter.prefix_fragments(color));
    lemma_joined_concat(
        parameter.export_fragments() + parameter.prefix_fragments(color),
        parameter.name_fragments(color),
    );
    lemma_joined_concat(
        parameter.export_fragments() + parameter.prefix_fragments(color)
            + parameter.name_fragments(color),
        parameter.default_fragments(color),
    );
    lemma_plain_paint_is_identity(color.parameter, parameter.name);
    if let Some(symbol) = parameter.kind.spec_prefix() {
        lemma_plain_paint_is_identity(color.annotation, symbol);
    }
    if let Some(text) = parameter.default {
        lemma_plain_paint_is_identity(color.string, text);
    }
}

/// Joining distributes over concatenation.
pub proof fn lemma_joined_concat(front: Seq<Fragment>, back: Seq<Fragment>)
    ensures
        joined(front + back) == joined(front) + joined(back),
    decreases back.len(),
{
    if back.len() == 0 {
        assert(front + back =~= front);
        assert(joined(front) + joined(back) =~= joined(front));
    } else {
        assert((front + back).drop_last() =~= front + back.drop_last());
        assert((front + back).last() == back.last());
        lemma_joined_concat(front, back.drop_last());
        assert(joined(front + back) =~= joined(front) + joined(back));
    }
}

/// The text of a list of at most two fragments.
proof fn lemma_joined_short(fragments: Seq<Fragment>)
    requires
        fragments.len() <= 2,
    ensures
        fragments.len() == 0 ==> joined(fragments) == Seq::<char>::empty(),
        fragments.len() == 1 ==> joined(fragments) == fragments[0].text(),
        fragments.len() == 2 ==> joined(fragments) == fragments[0].text() + fragments[1].text(),
{
    reveal_with_fuel(joined, 3);
    if fragments.len() == 1 {
        assert(joined(fragments) =~= fragments[0].text());
    } else if fragments.len() == 2 {
        assert(fragments.drop_last().last() == fragments[0]);
        assert(joined(fragments) =~= fragments[0].text() + fragments[1].text());
    }
}

} // verus!
