use ttree::theme::{
    first_fg_in_format, parse_color, parse_style, Color, Theme,
};

#[test]
fn parses_hex() {
    assert_eq!(parse_color("#191724"), Some(Color::Rgb(0x19, 0x17, 0x24)));
}

#[test]
fn parses_indexed_forms() {
    assert_eq!(parse_color("colour234"), Some(Color::Indexed(234)));
    assert_eq!(parse_color("color8"), Some(Color::Indexed(8)));
    assert_eq!(parse_color("7"), Some(Color::Indexed(7)));
}

#[test]
fn parses_named_and_default() {
    assert_eq!(parse_color("cyan"), Some(Color::Cyan));
    assert_eq!(parse_color("brightblack"), Some(Color::DarkGray));
    assert_eq!(parse_color("default"), Some(Color::Reset));
    assert_eq!(parse_color("bogus"), None);
}

#[test]
fn parses_style_value() {
    let (fg, bg) = parse_style("bg=#191724,fg=#e0def4");
    assert_eq!(bg, Some(Color::Rgb(0x19, 0x17, 0x24)));
    assert_eq!(fg, Some(Color::Rgb(0xe0, 0xde, 0xf4)));
}

#[test]
fn ignores_attributes_in_style() {
    let (fg, bg) = parse_style("fg=#31748f,bold");
    assert_eq!(fg, Some(Color::Rgb(0x31, 0x74, 0x8f)));
    assert_eq!(bg, None);
}

#[test]
fn extracts_fg_from_format() {
    assert_eq!(first_fg_in_format("#[fg=#31748f,bold] #S "), Some(Color::Rgb(0x31, 0x74, 0x8f)));
    assert_eq!(first_fg_in_format("#[bold]#[fg=cyan]x"), Some(Color::Cyan));
    assert_eq!(first_fg_in_format("plain text"), None);
}

#[test]
fn color_edge_cases() {
    assert_eq!(parse_color("  white "), Some(Color::Gray));
    assert_eq!(parse_color("brightwhite"), Some(Color::White));
    assert_eq!(parse_color(""), None);
    assert_eq!(parse_color("#12345"), None);
    assert_eq!(parse_color("#12345g"), None);
    assert_eq!(parse_color("#+f+f+f"), Some(Color::Rgb(15, 15, 15)));
    assert_eq!(parse_color("colour256"), None);
    assert_eq!(parse_color("colourx"), None);
    assert_eq!(parse_color("+9"), Some(Color::Indexed(9)));
    assert_eq!(parse_color("#ABCDEF"), Some(Color::Rgb(0xab, 0xcd, 0xef)));
    // Six bytes whose pieces are not hex: no color, and no panic.
    assert_eq!(parse_color("#ééé"), None);
}

#[test]
fn a_later_token_overrides_and_an_unparseable_one_clears() {
    assert_eq!(parse_style("fg=red,fg=blue"), (Some(Color::Blue), None));
    assert_eq!(parse_style("fg=red,fg=bogus"), (None, None));
    assert_eq!(parse_style(" bg = red"), (None, None));
    assert_eq!(parse_style(" bg=red "), (None, Some(Color::Red)));
}

#[test]
fn formats_without_a_closing_bracket_have_no_color() {
    assert_eq!(first_fg_in_format("#[fg=red"), None);
    assert_eq!(first_fg_in_format("#[bg=red]#[fg=colour3]"), Some(Color::Indexed(3)));
}

#[test]
fn a_hex_color_that_cannot_be_cut_into_pairs_is_unparseable() {
    assert_eq!(parse_color("#abxéy"), None);
    assert_eq!(parse_style("fg=#abxéy,bg=red"), (None, Some(Color::Red)));
    assert_eq!(parse_style("fg=#ééé,bg=red"), (None, Some(Color::Red)));
    assert_eq!(first_fg_in_format("#[fg=#abxéy]"), None);
    assert_eq!(first_fg_in_format("#[fg=#abxéy]#[fg=red]"), Some(Color::Red));
    let t = Theme::from_options(Some("fg=#abxéy".into()), None, Some("#[fg=#abxéy]".into()), None);
    assert_eq!(t, Theme::default());
}

#[test]
fn theme_takes_each_option_it_can_read() {
    let t = Theme::from_options(
        Some("bg=#191724,fg=#e0def4".into()),
        None,
        Some("#[fg=#31748f,bold] #S ".into()),
        Some("plain".into()),
    );
    assert_eq!(t.bar_bg, Color::Rgb(0x19, 0x17, 0x24));
    assert_eq!(t.bar_fg, Color::Rgb(0xe0, 0xde, 0xf4));
    assert_eq!(t.pill_bg, Color::Green);
    assert_eq!(t.pill_fg, Color::Black);
    assert_eq!(t.icon, Color::Rgb(0x31, 0x74, 0x8f));
    assert_eq!(t.active, Color::Cyan);
    assert_eq!(t.selection_bg, Color::DarkGray);
}
