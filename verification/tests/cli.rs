use satysfi_formatter::options::{formatting_options_from_cli, FormattingProperty};

#[test]
fn cli_line_width_option_sets_formatting_property() {
    let option = formatting_options_from_cli(4, 140);

    assert_eq!(
        option.properties.get("lineWidth"),
        Some(&FormattingProperty::Number(140))
    );
}
