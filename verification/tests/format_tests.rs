use barfmt::Alignment;
use barfmt::AwesomeFormatter;
use barfmt::ClickAction;
use barfmt::Format;
use barfmt::MouseButton;

#[test]
fn test_format_unescaped_str() {
    let mut formatter = AwesomeFormatter::new();
    let expected = "<markup><span>Test &amp; Thing</span></markup>".to_string();
    assert_eq!(
        formatter.format(&Format::UnescapedStr("Test & Thing".to_string())),
        expected
    )
}

#[test]
fn test_format_str() {
    let mut formatter = AwesomeFormatter::new();
    let expected = "<markup><span>Test &amp; Thing</span></markup>".to_string();
    assert_eq!(
        formatter.format(&Format::Str("Test & Thing".to_string())),
        expected
    )
}

#[test]
fn test_format_concat() {
    let mut formatter = AwesomeFormatter::new();
    let expected = "<markup><span>One</span><span>Two</span></markup>".to_string();
    let format = Format::Concat(vec![
        Box::new(Format::Str("One".to_string())),
        Box::new(Format::Str("Two".to_string())),
    ]);
    assert_eq!(formatter.format(&format), expected)
}

#[test]
fn test_format_align() {
    let mut formatter = AwesomeFormatter::new();
    let expected = "<markup><span>Center</span></markup>".to_string();
    let format = Format::Align(
        Alignment::Center,
        Box::new(Format::Str("Center".to_string())),
    );
    assert_eq!(formatter.format(&format), expected)
}

#[test]
fn test_format_fgcolor() {
    let mut formatter = AwesomeFormatter::new();
    let expected =
        "<markup><span foreground=\"#00FF00\"><span>Green</span></span></markup>".to_string();
    let format = Format::FgColor(
        "#00FF00".to_string(),
        Box::new(Format::Str("Green".to_string())),
    );
    assert_eq!(formatter.format(&format), expected)
}

#[test]
fn test_format_bgcolor() {
    let mut formatter = AwesomeFormatter::new();
    let expected =
        "<markup><span background=\"#00FF00\"><span>Green BG</span></span></markup>".to_string();
    let format = Format::BgColor(
        "#00FF00".to_string(),
        Box::new(Format::Str("Green BG".to_string())),
    );
    assert_eq!(formatter.format(&format), expected)
}

#[test]
fn test_format_no_separator() {
    let mut formatter = AwesomeFormatter::new();
    let expected = "<markup><span>Test</span></markup>".to_string();
    let format = Format::NoSeparator(Box::new(Format::Str("Test".to_string())));
    assert_eq!(formatter.format(&format), expected)
}

#[test]
fn test_format_padding() {
    let mut formatter = AwesomeFormatter::new();
    let expected = "<markup><span>   </span><span>Test</span></markup>".to_string();
    let format = Format::Padding(3, Box::new(Format::Str("Test".to_string())));
    assert_eq!(formatter.format(&format), expected)
}

#[test]
fn test_format_clickable() {
    let mut formatter = AwesomeFormatter::new();
    let expected = "<markup><span>Test</span></markup>".to_string();
    let format = Format::Clickable(
        ClickAction::ShellCommand(MouseButton::Left, "echo 'hello world'".to_string()),
        Box::new(Format::Str("Test".to_string())),
    );
    assert_eq!(formatter.format(&format), expected)
}

#[test]
fn test_format_padding_zero_omits_span() {
    let mut formatter = AwesomeFormatter::new();
    let expected = "<markup><span>Test</span></markup>".to_string();
    let format = Format::Padding(0, Box::new(Format::Str("Test".to_string())));
    assert_eq!(formatter.format(&format), expected)
}

#[test]
fn test_format_color_nesting() {
    let mut formatter = AwesomeFormatter::new();
    let format = Format::FgColor(
        "#FF0000".to_string(),
        Box::new(Format::Concat(vec![
            Box::new(Format::FgColor(
                "#00FF00".to_string(),
                Box::new(Format::Str("a".to_string())),
            )),
            Box::new(Format::Str("b".to_string())),
        ])),
    );
    let expected = "<markup><span foreground=\"#FF0000\"><span foreground=\"#00FF00\">\
                    <span>a</span></span><span>b</span></span></markup>";
    assert_eq!(formatter.format(&format), expected)
}

#[test]
fn test_format_escapes_every_special_character() {
    let mut formatter = AwesomeFormatter::new();
    let expected =
        "<markup><span>&lt;&gt;&amp;&quot;&apos;</span></markup>".to_string();
    let format = Format::Str("<>&\"'".to_string());
    assert_eq!(formatter.format(&format), expected)
}

#[test]
fn test_format_escapes_color_attribute() {
    let mut formatter = AwesomeFormatter::new();
    let expected = "<markup><span foreground=\"a&quot;b\"><span>x</span></span></markup>";
    let format = Format::FgColor(
        "a\"b".to_string(),
        Box::new(Format::Str("x".to_string())),
    );
    assert_eq!(formatter.format(&format), expected)
}

#[test]
fn test_format_empty_concat() {
    let mut formatter = AwesomeFormatter::new();
    let expected = "<markup></markup>".to_string();
    assert_eq!(formatter.format(&Format::Concat(vec![])), expected)
}

#[test]
fn test_format_empty_str() {
    let mut formatter = AwesomeFormatter::new();
    let expected = "<markup><span></span></markup>".to_string();
    assert_eq!(formatter.format(&Format::Str(String::new())), expected)
}

#[test]
fn test_format_empty_color_span() {
    let mut formatter = AwesomeFormatter::new();
    let expected = "<markup><span foreground=\"#123456\"></span></markup>".to_string();
    let format = Format::FgColor("#123456".to_string(), Box::new(Format::Concat(vec![])));
    assert_eq!(formatter.format(&format), expected)
}

#[test]
fn test_format_twice_is_byte_identical() {
    let mut formatter = AwesomeFormatter::new();
    let format = Format::Concat(vec![
        Box::new(Format::Padding(2, Box::new(Format::Str("x".to_string())))),
        Box::new(Format::FgColor(
            "red".to_string(),
            Box::new(Format::UnescapedStr("<b>raw</b>".to_string())),
        )),
    ]);
    let first = formatter.format(&format);
    let second = formatter.format(&format);
    assert_eq!(first, second)
}

#[test]
fn test_format_align_variants_all_passthrough() {
    let mut formatter = AwesomeFormatter::new();
    let expected = "<markup><span>x</span></markup>".to_string();
    for alignment in [Alignment::Left, Alignment::Center, Alignment::Right] {
        let format = Format::Align(alignment, Box::new(Format::Str("x".to_string())));
        assert_eq!(formatter.format(&format), expected)
    }
}
