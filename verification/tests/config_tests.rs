use herdr_floax::config::{BorderKind, Config};

#[test]
fn defaults() {
    let c = Config::default();
    assert_eq!((c.width_pct, c.height_pct), (94, 92));
}

#[test]
fn conf_lines_parse_with_comments_and_junk() {
    let mut c = Config::default();
    c.apply_conf("# floax\nwidth_pct = 60\n\nheight_pct=45\nnot a kv line\nunknown=1\n");
    assert_eq!((c.width_pct, c.height_pct), (60, 45));
}

#[test]
fn pct_clamped_and_bad_values_ignored() {
    let mut c = Config::default();
    c.apply_conf("width_pct=5\nheight_pct=999\n");
    assert_eq!((c.width_pct, c.height_pct), (20, 100));
    c.apply_conf("width_pct=banana\n");
    assert_eq!(c.width_pct, 20); // unchanged by unparsable value
}

#[test]
fn env_overrides_conf() {
    let mut c = Config::default();
    c.apply_conf("width_pct=60\n");
    c.apply_env(|k| if k == "HERDR_FLOAX_WIDTH_PCT" { Some("90".to_string()) } else { None });
    assert_eq!(c.width_pct, 90);
}

#[test]
fn key_hint_set_and_empty_ignored() {
    let mut c = Config::default();
    c.apply_conf("key_hint=prefix+g\nkey_hint=\n");
    assert_eq!(c.key_hint, "prefix+g");
}

#[test]
fn border_and_title_keys_parse() {
    let mut c = Config::default();
    c.apply_conf("border = #89b4fa\nborder_type = plain\ntitle = mybox\n");
    assert_eq!(c.border, Some((0x89, 0xb4, 0xfa)));
    assert_eq!(c.border_type, BorderKind::Plain);
    assert_eq!(c.title, "mybox");
    c.apply_conf("border_type = wiggly\nborder = nope\ntitle =\n");
    assert_eq!(c.border, Some((0x89, 0xb4, 0xfa))); // bad values ignored
    assert_eq!(c.border_type, BorderKind::Plain);
    assert_eq!(c.title, "mybox");
}

#[test]
fn backdrop_defaults_to_dark_green() {
    assert_eq!(Config::default().backdrop, (0x0d, 0x2b, 0x1d));
}

#[test]
fn backdrop_parses_hex_with_and_without_hash() {
    let mut c = Config::default();
    c.apply_conf("backdrop = #102030\n");
    assert_eq!(c.backdrop, (0x10, 0x20, 0x30));
    c.apply_conf("backdrop = A1B2C3\n");
    assert_eq!(c.backdrop, (0xa1, 0xb2, 0xc3));
}

#[test]
fn backdrop_bad_values_ignored() {
    let mut c = Config::default();
    for bad in ["#12345", "#1234567", "not-a-color", "#zzzzzz", ""] {
        c.apply_conf(&format!("backdrop={bad}\n"));
        assert_eq!(c.backdrop, Config::default().backdrop, "should ignore {bad:?}");
    }
}

#[test]
fn backdrop_env_override() {
    let mut c = Config::default();
    c.apply_env(|k| if k == "HERDR_FLOAX_BACKDROP" { Some("#334455".to_string()) } else { None });
    assert_eq!(c.backdrop, (0x33, 0x44, 0x55));
}
