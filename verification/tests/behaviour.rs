use satysfi_formatter::comment::get_comments;
use satysfi_formatter::formatter::{indent_space, string_of, tidy_of, Formatter};
use satysfi_formatter::options::{formatting_options_from_cli, FormattingOptions, FormattingProperties, FormattingProperty};
use satysfi_formatter::source::CstText;
use satysfi_formatter::width::max_line_width_of;

fn option() -> FormattingOptions {
    FormattingOptions {
        tab_size: 4,
        insert_spaces: true,
        ..Default::default()
    }
}

fn chars(s: &str) -> Vec<char> {
    s.chars().collect()
}

#[test]
fn text_that_does_not_parse_is_given_back() {
    let text = "let x = in";
    assert_eq!(satysfi_formatter::format(text, option()), text);
}

#[test]
fn final_newline_can_be_left_out() {
    let mut o = option();
    o.insert_final_newline = Some(false);
    assert_eq!(
        satysfi_formatter::format("type t = | Center | North", o),
        "type t = Center | North"
    );
}

#[test]
fn final_newline_when_asked_for() {
    let mut o = option();
    o.insert_final_newline = Some(true);
    assert_eq!(
        satysfi_formatter::format("type t = | Center | North", o),
        "type t = Center | North\n"
    );
}

#[test]
fn no_line_ends_in_white_space() {
    let text = "document(||)'<\n+p{ abc   }   \n\n+p{def}\n>   ";
    let output = satysfi_formatter::format(text, option());
    for line in output.lines() {
        assert_eq!(line, line.trim_end());
    }
    assert!(output.ends_with('\n'));
}

#[test]
fn conditional_branches_on_lines_of_their_own() {
    let text = "if true then 1 else 2";
    assert_eq!(
        satysfi_formatter::format(text, option()),
        "if true\nthen\n    1\nelse\n    2\n"
    );
}

#[test]
fn comment_is_kept() {
    let text = "% a comment\nlet x = 1 in x";
    let output = satysfi_formatter::format(text, option());
    assert!(output.contains("% a comment"), "{:?}", output);
    assert_eq!(output, "% a comment\nlet x = 1\nin\n\nx\n");
}

#[test]
fn comments_are_found_in_order() {
    let text = "% one\nlet x = 1 % two\nin x";
    let csttext = CstText::parse(text).unwrap();
    let comments = get_comments(&csttext);
    let spans: Vec<(usize, usize)> = comments.iter().map(|c| (c.span.start, c.span.end)).collect();
    assert_eq!(spans, vec![(0, 5), (16, 21)]);
}

#[test]
fn percent_in_a_string_starts_no_comment() {
    let text = "let s = `100%` in s";
    let csttext = CstText::parse(text).unwrap();
    assert_eq!(get_comments(&csttext).len(), 0);
}

#[test]
fn lines_start_after_line_breaks() {
    assert_eq!(CstText::parse("let x = 1 in\nx\n").unwrap().lines, vec![0, 13, 15]);
    assert_eq!(CstText::parse("let s = `日` in\ns").unwrap().lines, vec![0, 17]);
}

#[test]
fn formatter_keeps_text_lines_and_options() {
    let csttext = CstText::parse("let x = 1 in\nx").unwrap();
    let f = Formatter::new(&csttext, option());
    assert_eq!(f.depth, 0);
    assert_eq!(f.lines, vec![0, 13]);
    assert_eq!(f.text, chars("let x = 1 in\nx"));
    assert_eq!(f.output, "");
    assert_eq!(f.format("let x = 1 in\nx", &csttext.cst, 0), "let x = 1\nin\n\nx\n");
}

#[test]
fn indentation_is_unit_times_depth_spaces() {
    assert_eq!(indent_space(4, 2), "        ");
    assert_eq!(indent_space(2, 3), "      ");
    assert_eq!(indent_space(0, 5), "");
    assert_eq!(indent_space(3, 0), "");
}

#[test]
fn command_line_width() {
    assert_eq!(formatting_options_from_cli(4, 140).line_width(), 140);
    assert_eq!(formatting_options_from_cli(4, 0).line_width(), 120);
    assert_eq!(formatting_options_from_cli(4, usize::MAX).line_width(), i32::MAX as usize);
}

#[test]
fn line_width_property() {
    let mut o = option();
    assert_eq!(o.line_width(), 120);
    o.properties.insert("lineWidth".to_string(), FormattingProperty::Number(80));
    assert_eq!(o.line_width(), 80);
    o.properties.insert("lineWidth".to_string(), FormattingProperty::Number(0));
    assert_eq!(o.line_width(), 120);
    o.properties.insert("lineWidth".to_string(), FormattingProperty::Number(-5));
    assert_eq!(o.line_width(), 120);
    o.properties.insert("lineWidth".to_string(), FormattingProperty::Text("90".to_string()));
    assert_eq!(o.line_width(), 120);
}

#[test]
fn later_setting_of_a_property_wins() {
    let mut p = FormattingProperties::new();
    assert_eq!(p.get("a"), None);
    p.insert("a".to_string(), FormattingProperty::Bool(true));
    p.insert("b".to_string(), FormattingProperty::Number(1));
    p.insert("a".to_string(), FormattingProperty::Number(7));
    assert_eq!(p.get("a"), Some(&FormattingProperty::Number(7)));
    assert_eq!(p.get("b"), Some(&FormattingProperty::Number(1)));
    assert_eq!(p.get("c"), None);
}

#[test]
fn display_width_counts_wide_characters_twice() {
    assert_eq!(max_line_width_of(&chars("abc")), 3);
    assert_eq!(max_line_width_of(&chars("日本語")), 6);
    assert_eq!(max_line_width_of(&chars("")), 0);
    assert_eq!(max_line_width_of(&chars("ab\n日本語\nc")), 6);
}

#[test]
fn tidy_trims_lines_and_ends_with_newline() {
    assert_eq!(tidy_of(&chars("a  \nb\t\n  "), true), chars("a\nb\n"));
    assert_eq!(tidy_of(&chars("a  \nb"), false), chars("a\nb"));
    assert_eq!(string_of(&chars("xyz")), "xyz");
}

#[test]
fn math_keeps_letters_together() {
    let text = "document(||)'<\n+p{${a b + c}}\n>";
    assert_eq!(
        satysfi_formatter::format(text, option()),
        "document(||)'<\n    +p { ${ab + c} }\n>\n"
    );
}

#[test]
fn blank_lines_between_blocks_after_wide_text() {
    let text = "document(||)'<\n+p{日本}\n\n\n+p{x}\n\n+p{y}\n>";
    assert_eq!(
        satysfi_formatter::format(text, option()),
        "document(||)'<\n    +p { 日本 }\n\n    +p { x }\n    +p { y }\n>\n"
    );
}
