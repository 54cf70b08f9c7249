use unparse::color::{Color, Style};
use unparse::parameter::{Expression, Name, Parameter, ParameterKind};

fn parameter(name: &str, kind: ParameterKind, default: Option<&str>, export: bool) -> Parameter {
    Parameter { name: Name::new(name), kind, default: default.map(Expression::new), export }
}

fn tagged() -> Color {
    Color::new(Style::new("<a>", "</a>"), Style::new("<p>", "</p>"), Style::new("<s>", "</s>"))
}

#[test]
fn modifier_composition() {
    let p = parameter("files", ParameterKind::Variadic, Some("*.txt"), true);
    assert_eq!(p.render(&Color::plain()), "$*files=*.txt");
}

#[test]
fn bare_name() {
    let p = parameter("target", ParameterKind::Singular, None, false);
    assert_eq!(p.render(&Color::plain()), "target");
}

#[test]
fn no_default_omits_separator() {
    for kind in [ParameterKind::Singular, ParameterKind::Optional, ParameterKind::Variadic] {
        for export in [false, true] {
            let text = parameter("files", kind, None, export).render(&Color::plain());
            assert!(!text.contains('='), "{text}");
            assert!(text.ends_with("files"), "{text}");
        }
    }
}

#[test]
fn default_follows_separator() {
    let p = parameter("mode", ParameterKind::Singular, Some("'debug'"), false);
    assert_eq!(p.render(&Color::plain()), "mode='debug'");
}

#[test]
fn empty_default_keeps_separator() {
    let p = parameter("mode", ParameterKind::Singular, Some(""), false);
    assert_eq!(p.render(&Color::plain()), "mode=");
}

#[test]
fn non_export_omits_sigil() {
    for kind in [ParameterKind::Singular, ParameterKind::Optional, ParameterKind::Variadic] {
        for default in [None, Some("x")] {
            let text = parameter("files", kind, default, false).render(&Color::plain());
            assert!(!text.contains('$'), "{text}");
        }
    }
}

#[test]
fn export_sigil_comes_first() {
    let plain = Color::plain();
    assert_eq!(parameter("home", ParameterKind::Singular, None, true).render(&plain), "$home");
    assert_eq!(parameter("args", ParameterKind::Optional, None, true).render(&plain), "$+args");
    assert_eq!(parameter("args", ParameterKind::Variadic, None, true).render(&plain), "$*args");
}

#[test]
fn kind_prefixes() {
    assert_eq!(ParameterKind::Singular.prefix(), None);
    assert_eq!(ParameterKind::Optional.prefix(), Some("+"));
    assert_eq!(ParameterKind::Variadic.prefix(), Some("*"));
}

#[test]
fn prefix_precedes_name() {
    let plain = Color::plain();
    assert_eq!(parameter("rest", ParameterKind::Optional, None, false).render(&plain), "+rest");
    assert_eq!(parameter("rest", ParameterKind::Variadic, None, false).render(&plain), "*rest");
    assert_eq!(
        parameter("rest", ParameterKind::Variadic, Some("''"), false).render(&plain),
        "*rest=''"
    );
}

#[test]
fn rendering_twice_gives_one_text() {
    let p = parameter("files", ParameterKind::Variadic, Some("*.txt"), true);
    for color in [Color::plain(), tagged()] {
        let first = p.render(&color);
        let second = p.render(&color);
        assert_eq!(first, second);
        assert_eq!(p.clone().render(&color.clone()), first);
    }
}

#[test]
fn each_role_decorates_its_fragment() {
    let p = parameter("files", ParameterKind::Variadic, Some("*.txt"), true);
    assert_eq!(p.render(&tagged()), "$<a>*</a><p>files</p>=<s>*.txt</s>");
}

#[test]
fn sigil_and_separator_stay_undecorated() {
    let p = parameter("x", ParameterKind::Singular, Some("1"), true);
    assert_eq!(p.render(&tagged()), "$<p>x</p>=<s>1</s>");
}

#[test]
fn singular_emits_no_annotation() {
    let p = parameter("x", ParameterKind::Singular, None, false);
    assert_eq!(p.render(&tagged()), "<p>x</p>");
}

#[test]
fn no_default_emits_no_string_style() {
    let p = parameter("x", ParameterKind::Optional, None, false);
    assert_eq!(p.render(&tagged()), "<a>+</a><p>x</p>");
}

#[test]
fn unicode_text_is_kept() {
    let p = parameter("größe", ParameterKind::Singular, Some("\"näher\""), false);
    assert_eq!(p.render(&Color::plain()), "größe=\"näher\"");
}

#[test]
fn name_and_expression_keep_their_text() {
    assert_eq!(Name::new("files").lexeme(), "files");
    assert_eq!(Expression::new("a + b").text(), "a + b");
    assert_eq!(Name::new("").lexeme(), "");
}

#[test]
fn style_wraps_text() {
    let style = Style::new("\u{1b}[32m", "\u{1b}[0m");
    assert_eq!(style.paint("ok"), "\u{1b}[32mok\u{1b}[0m");
    assert_eq!(style.paint(""), "\u{1b}[32m\u{1b}[0m");
}

#[test]
fn plain_style_is_identity() {
    assert_eq!(Style::plain().paint("files"), "files");
    assert_eq!(Style::plain().paint(""), "");
    assert_eq!(Style::plain(), Style::new("", ""));
}

#[test]
fn plain_color_is_identity_in_each_role() {
    let color = Color::plain();
    assert_eq!(color.annotation().paint("*"), "*");
    assert_eq!(color.parameter().paint("files"), "files");
    assert_eq!(color.string().paint("*.txt"), "*.txt");
}

#[test]
fn color_keeps_one_style_per_role() {
    let color = tagged();
    assert_eq!(color.annotation().paint("x"), "<a>x</a>");
    assert_eq!(color.parameter().paint("x"), "<p>x</p>");
    assert_eq!(color.string().paint("x"), "<s>x</s>");
}
