use herdr_floax::config::{clamp_pct, fallback_title, parse_hex_color, BorderKind, Config};

fn env_of(pairs: &'static [(&'static str, &'static str)]) -> impl Fn(&str) -> Option<String> {
    move |k: &str| pairs.iter().find(|(name, _)| *name == k).map(|(_, v)| v.to_string())
}

#[test]
fn clamp_pct_bounds() {
    assert_eq!(clamp_pct(0), 20);
    assert_eq!(clamp_pct(19), 20);
    assert_eq!(clamp_pct(20), 20);
    assert_eq!(clamp_pct(57), 57);
    assert_eq!(clamp_pct(100), 100);
    assert_eq!(clamp_pct(101), 100);
    assert_eq!(clamp_pct(65535), 100);
}

#[test]
fn hex_colors_exact_values() {
    assert_eq!(parse_hex_color("#0d2b1d"), Some((13, 43, 29)));
    assert_eq!(parse_hex_color("0d2b1d"), Some((13, 43, 29)));
    assert_eq!(parse_hex_color("##AbCdEf"), Some((171, 205, 239)));
    assert_eq!(parse_hex_color("  #ff0080 \t"), Some((255, 0, 128)));
    assert_eq!(parse_hex_color("000000"), Some((0, 0, 0)));
}

#[test]
fn hex_colors_rejected() {
    assert_eq!(parse_hex_color(""), None);
    assert_eq!(parse_hex_color("#"), None);
    assert_eq!(parse_hex_color("#12345"), None);
    assert_eq!(parse_hex_color("#1234567"), None);
    assert_eq!(parse_hex_color("#12345g"), None);
    assert_eq!(parse_hex_color("# 123456"), None);
    assert_eq!(parse_hex_color("12 456"), None);
    assert_eq!(parse_hex_color("éééééé"), None);
}

#[test]
fn set_parses_numbers_like_u16_from_str() {
    let mut c = Config::default();
    c.set("width_pct", "+55");
    assert_eq!(c.width_pct, 55);
    c.set("width_pct", " 60");
    assert_eq!(c.width_pct, 55); // untrimmed value does not parse
    c.set("width_pct", "70000");
    assert_eq!(c.width_pct, 55); // out of u16 range
    c.set("width_pct", "-5");
    assert_eq!(c.width_pct, 55);
    c.set("width_pct", "");
    assert_eq!(c.width_pct, 55);
    c.set("width_pct", "0");
    assert_eq!(c.width_pct, 20);
    c.set("height_pct", "0099");
    assert_eq!(c.height_pct, 99);
}

#[test]
fn set_border_type_is_exact() {
    let mut c = Config::default();
    c.set("border_type", "Plain");
    assert_eq!(c.border_type, BorderKind::Rounded);
    c.set("border_type", "plain");
    assert_eq!(c.border_type, BorderKind::Plain);
    c.set("border_type", "square");
    assert_eq!(c.border_type, BorderKind::Plain);
    c.set("border_type", "rounded");
    assert_eq!(c.border_type, BorderKind::Rounded);
}

#[test]
fn unknown_key_changes_nothing() {
    let mut c = Config::default();
    c.set("Width_pct", "50");
    c.set("colour", "#ffffff");
    c.set("", "x");
    assert_eq!(c, Config::default());
}

#[test]
fn setting_one_key_leaves_the_others() {
    let mut c = Config::default();
    c.set("box_bg", "#010203");
    let mut expected = Config::default();
    expected.box_bg = Some((1, 2, 3));
    assert_eq!(c, expected);
    c.set("border", "#040506");
    expected.border = Some((4, 5, 6));
    assert_eq!(c, expected);
}

#[test]
fn later_value_wins_in_one_file() {
    let mut c = Config::default();
    c.apply_conf("width_pct=30\nwidth_pct=70\ntitle=a\ntitle=b\n");
    assert_eq!(c.width_pct, 70);
    assert_eq!(c.title, "b");
}

#[test]
fn rejected_later_value_keeps_earlier_one() {
    let mut c = Config::default();
    c.apply_conf("backdrop=#112233\nbackdrop=#zzzzzz\nkey_hint=C-a f\nkey_hint=\n");
    assert_eq!(c.backdrop, (0x11, 0x22, 0x33));
    assert_eq!(c.key_hint, "C-a f");
}

#[test]
fn conf_lines_trimmed_and_split_at_first_equals() {
    let mut c = Config::default();
    c.apply_conf("  title  =  a = b  \r\n\t# width_pct=50\nheight_pct\t=\t33\r\n");
    assert_eq!(c.title, "a = b");
    assert_eq!(c.width_pct, 94);
    assert_eq!(c.height_pct, 33);
}

#[test]
fn crlf_conf_and_no_final_newline() {
    let mut c = Config::default();
    c.apply_conf("width_pct=33\r\nheight_pct=44");
    assert_eq!((c.width_pct, c.height_pct), (33, 44));
}

#[test]
fn conf_in_two_parts_equals_conf_in_one() {
    let a = "width_pct=40\nborder=#abcdef";
    let b = "height_pct=50\nborder_type=plain";
    let mut whole = Config::default();
    whole.apply_conf(&format!("{a}\n{b}"));
    let mut parts = Config::default();
    parts.apply_conf(a);
    parts.apply_conf(b);
    assert_eq!(whole, parts);
    assert_eq!(whole.border, Some((0xab, 0xcd, 0xef)));
    assert_eq!(whole.border_type, BorderKind::Plain);
}

#[test]
fn env_values_are_not_trimmed() {
    let mut c = Config::default();
    c.apply_conf("width_pct=60\n");
    c.apply_env(env_of(&[("HERDR_FLOAX_WIDTH_PCT", " 80")]));
    assert_eq!(c.width_pct, 60);
}

#[test]
fn env_rejected_value_keeps_conf_value() {
    let mut c = Config::default();
    c.apply_conf("border=#102030\nheight_pct=50\n");
    c.apply_env(env_of(&[("HERDR_FLOAX_BORDER", "red"), ("HERDR_FLOAX_HEIGHT_PCT", "lots")]));
    assert_eq!(c.border, Some((0x10, 0x20, 0x30)));
    assert_eq!(c.height_pct, 50);
}

#[test]
fn env_sets_every_key() {
    let mut c = Config::default();
    c.apply_env(env_of(&[
        ("HERDR_FLOAX_WIDTH_PCT", "10"),
        ("HERDR_FLOAX_HEIGHT_PCT", "200"),
        ("HERDR_FLOAX_KEY_HINT", "M-f"),
        ("HERDR_FLOAX_BACKDROP", "#000001"),
        ("HERDR_FLOAX_BORDER", "#000002"),
        ("HERDR_FLOAX_BORDER_TYPE", "plain"),
        ("HERDR_FLOAX_TITLE", "scratch"),
        ("HERDR_FLOAX_BOX_BG", "#000003"),
    ]));
    assert_eq!(c.width_pct, 20);
    assert_eq!(c.height_pct, 100);
    assert_eq!(c.key_hint, "M-f");
    assert_eq!(c.backdrop, (0, 0, 1));
    assert_eq!(c.border, Some((0, 0, 2)));
    assert_eq!(c.border_type, BorderKind::Plain);
    assert_eq!(c.title, "scratch");
    assert_eq!(c.box_bg, Some((0, 0, 3)));
}

#[test]
fn env_without_overrides_changes_nothing() {
    let mut c = Config::default();
    c.apply_conf("width_pct=61\n");
    let before = c.clone();
    c.apply_env(|_| None);
    assert_eq!(c, before);
}

#[test]
fn title_from_start_directory() {
    let mut c = Config::default();
    c.resolve_title(Some("/home/u/proj"));
    assert_eq!(c.title, "proj");
    let mut c = Config::default();
    c.resolve_title(Some("/home/u/proj/"));
    assert_eq!(c.title, "proj");
}

#[test]
fn title_falls_back_to_floax() {
    let mut c = Config::default();
    c.resolve_title(None);
    assert_eq!(c.title, "floax");
    let mut c = Config::default();
    c.resolve_title(Some("/"));
    assert_eq!(c.title, "floax");
    let mut c = Config::default();
    c.resolve_title(Some("/home/.."));
    assert_eq!(c.title, "floax");
}

#[test]
fn configured_title_is_kept() {
    let mut c = Config::default();
    c.set("title", "mine");
    c.resolve_title(Some("/home/u/proj"));
    assert_eq!(c.title, "mine");
}

#[test]
fn fallback_title_values() {
    assert_eq!(fallback_title(Some("work".to_string())), "work");
    assert_eq!(fallback_title(None), "floax");
}

#[test]
fn clone_is_equal() {
    let mut c = Config::default();
    c.apply_conf("title=x\nbox_bg=#0a0b0c\n");
    assert_eq!(c.clone(), c);
}

#[test]
fn trailing_comments_after_values_are_dropped() {
    let mut c = Config::default();
    c.apply_conf(
        "width_pct = 60    # box width, % of the pane (20..100)\nkey_hint = prefix+g   # shown in the bottom border (display only)\nbackdrop = #112233    # backdrop fill color, #rrggbb\nborder = #445566\n",
    );
    assert_eq!(c.width_pct, 60);
    assert_eq!(c.key_hint, "prefix+g");
    assert_eq!(c.backdrop, (0x11, 0x22, 0x33));
    assert_eq!(c.border, Some((0x44, 0x55, 0x66)));
}

#[test]
fn hash_inside_a_word_is_not_a_comment() {
    let mut c = Config::default();
    c.apply_conf("title = a#b # note\nkey_hint = #\n");
    assert_eq!(c.title, "a#b");
    assert_eq!(c.key_hint, "#");
    c.apply_conf("title = # only a comment\n");
    assert_eq!(c.title, "# only a comment");
}

#[test]
fn hex_round_trip_every_channel_value() {
    for v in 0u8..=255 {
        let (r, g, b) = (v, v.wrapping_mul(7), v.wrapping_add(91));
        assert_eq!(parse_hex_color(&format!("#{:02x}{:02x}{:02x}", r, g, b)), Some((r, g, b)));
        assert_eq!(parse_hex_color(&format!("{:02X}{:02X}{:02X}", r, g, b)), Some((r, g, b)));
    }
}

#[test]
fn resolved_title_is_never_empty() {
    for cwd in [None, Some(""), Some("/"), Some(".."), Some("/a/b"), Some("rel")] {
        let mut c = Config::default();
        c.resolve_title(cwd);
        assert!(!c.title.is_empty());
    }
}
