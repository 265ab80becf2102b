use satysfi_formatter::options::{FormattingOptions, FormattingProperty};
use unicode_width::UnicodeWidthStr;

fn default_option() -> FormattingOptions {
    FormattingOptions {
        tab_size: 4,
        insert_spaces: true,
        ..Default::default()
    }
}

fn option_with_line_width(width: i32) -> FormattingOptions {
    let mut option = default_option();
    option
        .properties
        .insert("lineWidth".to_string(), FormattingProperty::Number(width));
    option
}

fn assert_max_line_width(output: &str, width: usize) {
    for (index, line) in output.lines().enumerate() {
        assert!(
            UnicodeWidthStr::width(line) <= width,
            "line {} exceeds width {}: {:?}",
            index + 1,
            width,
            line,
        );
    }
}

fn test_tmpl_with_option(input: &str, expect: &str, option: FormattingOptions) {
    let output = satysfi_formatter::format(input, option);
    assert_eq!(output, expect);
}

fn test_tmpl(input: &str, expect: &str) {
    test_tmpl_with_option(input, expect, default_option());
}

fn test_match_tmpl(input: &str, expect: &str) {
    test_tmpl(input, expect);
    test_tmpl(expect, expect);
}

#[test]
fn test_unicode() {
    let text = r#"

document(||)'<
+section{ section }<
+p {日本語}
>>"#;

    let expect = r#"document(||)'<
    +section { section } <
        +p { 日本語 }
    >
>
"#;
    test_tmpl(text, expect)
}

#[test]
fn single_line_variant_without_leading_bar() {
    let text = r#"type t = | Center | North | South"#;
    let expect = r#"type t = Center | North | South
"#;
    test_tmpl(text, expect);
}

#[test]
fn single_line_variant_with_payload() {
    let text = r#"type point-source = | Point of point | AnchorPoint of Node.t * Anchor.t"#;
    let expect = r#"type point-source = Point of point | AnchorPoint of Node.t * Anchor.t
"#;
    test_tmpl(text, expect);
}

#[test]
fn multiline_variant_preserved() {
    let text = r#"type t =
  | Center
  | North
  | South"#;
    let expect = r#"type t =
    | Center
    | North
    | South
"#;
    test_tmpl(text, expect);
}

#[test]
fn multiline_variant_with_and() {
    let text = r#"type t =
  | Center
  | North
and u = int"#;
    let expect = r#"type t =
    | Center
    | North
and u = int
"#;
    test_tmpl(text, expect);
}

#[test]
fn structured_bind_rhs_breaks_after_arrow() {
    let text = r#"@stage: persistent

module M: sig
    val f: int -> int
end = struct
    let f x = match x with | A -> let y = x in y
end"#;

    let expect = r#"@stage: persistent

module M: sig
    val f: int -> int
end = struct
    let f x =
        match x with
            | A ->
                let y = x in
                y
end
"#;

    test_match_tmpl(text, expect);
}

#[test]
fn structured_bind_rhs_preserves_guard_header() {
    let text = r#"@stage: persistent

module M: sig
    val f: int -> int
end = struct
    let f x = match x with | A when x < 5 -> let y = x in y
end"#;

    let expect = r#"@stage: persistent

module M: sig
    val f: int -> int
end = struct
    let f x =
        match x with
            | A when x < 5 ->
                let y = x in
                y
end
"#;

    test_match_tmpl(text, expect);
}

#[test]
fn structured_lambda_rhs_breaks_after_arrow() {
    let text = r#"@stage: persistent

module M: sig
    val f: int -> int
end = struct
    let f x = match x with | A -> fun y -> y
end"#;

    let expect = r#"@stage: persistent

module M: sig
    val f: int -> int
end = struct
    let f x =
        match x with
            | A ->
                fun y -> y
end
"#;

    test_match_tmpl(text, expect);
}

#[test]
fn structured_and_simple_match_arms_mix_cleanly() {
    let text = r#"@stage: persistent

module M: sig
    val f: int -> int
end = struct
    let f x = match x with | A -> x | B -> let y = x in y | C -> fun y -> y
end"#;

    let expect = r#"@stage: persistent

module M: sig
    val f: int -> int
end = struct
    let f x =
        match x with
            | A -> x
            | B ->
                let y = x in
                y
            | C ->
                fun y -> y
end
"#;

    test_match_tmpl(text, expect);
}

#[test]
fn structured_bind_rhs_keeps_nested_match_indented() {
    let text = r#"@stage: persistent

module M: sig
    val f: int -> int
end = struct
    let f x = match x with | A -> let y = x in match y with | B -> y
end"#;

    let expect = r#"@stage: persistent

module M: sig
    val f: int -> int
end = struct
    let f x =
        match x with
            | A ->
                let y = x in
                    match y with
                        | B -> y
end
"#;

    test_match_tmpl(text, expect);
}

#[test]
fn wraps_long_nested_application_at_default_width() {
    let text = r#"let group drawables = Drawable(fun origin -> List.fold-left (fun acc drawable -> List.append acc (render drawable origin)) [] drawables)
in

group"#;
    let expect = r#"let group drawables =
    Drawable(fun origin ->
        List.fold-left
            (fun acc drawable -> List.append acc (render drawable origin))
            []
            drawables)
in

group
"#;

    let output = satysfi_formatter::format(text, default_option());
    assert_eq!(output, expect);
    assert_max_line_width(&output, 120);
}

#[test]
fn wraps_match_branch_application_at_default_width() {
    let text = r#"let render-shape shape =
  match shape with
  | Rectangle((centerx, centery), width, height) -> Anchor.fold (centerx, centery) (centerx, centery +' height *' 0.5) (centerx, centery -' height *' 0.5) (centerx +' width *' 0.5, centery) (centerx -' width *' 0.5, centery) which
in

render-shape"#;
    let expect = r#"let render-shape shape =
    match shape with
        | Rectangle((centerx, centery), width, height) ->
            Anchor.fold
                (centerx, centery)
                (centerx, centery +' height *' 0.5)
                (centerx, centery -' height *' 0.5)
                (centerx +' width *' 0.5, centery)
                (centerx -' width *' 0.5, centery)
                which
in

render-shape
"#;

    let output = satysfi_formatter::format(text, default_option());
    assert_eq!(output, expect);
    assert_max_line_width(&output, 120);
}

#[test]
fn wider_line_width_keeps_long_application_flat() {
    let text = r#"let group drawables = Drawable(fun origin -> List.fold-left (fun acc drawable -> List.append acc (render drawable origin)) [] drawables)
in

group"#;
    let expect = r#"let group drawables = Drawable(fun origin -> List.fold-left (fun acc drawable -> List.append acc (render drawable origin)) [] drawables)
in

group
"#;

    let output = satysfi_formatter::format(text, option_with_line_width(200));
    assert_eq!(output, expect);
    assert_max_line_width(&output, 200);
}

#[test]
fn smaller_line_width_wraps_earlier_than_default() {
    let text = r#"let render-all origin drawables = List.map (fun drawable -> render drawable origin) drawables
in

render-all"#;
    let expect = r#"let render-all origin drawables =
    List.map
        (fun drawable -> render drawable origin)
        drawables
in

render-all
"#;

    let output = satysfi_formatter::format(text, option_with_line_width(60));
    assert_eq!(output, expect);
    assert_max_line_width(&output, 60);
}

#[test]
fn short_application_stays_flat_at_default_width() {
    let text = r#"let render-all origin drawables = List.map (fun drawable -> render drawable origin) drawables
in

render-all"#;
    let expect = r#"let render-all origin drawables = List.map (fun drawable -> render drawable origin) drawables
in

render-all
"#;

    let output = satysfi_formatter::format(text, default_option());
    assert_eq!(output, expect);
    assert_max_line_width(&output, 120);
}
