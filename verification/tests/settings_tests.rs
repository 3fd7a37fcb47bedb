use ponopush::settings::{apply_override, load, parse_settings, save_text, Settings};

#[test]
fn defaults_when_no_file() {
    let s = load(None);
    assert_eq!(s.token, "");
    assert_eq!(s.url, "https://api.openai.com/v1/chat/completions");
    assert_eq!(s.model, "gpt-4o");
    assert_eq!(s.max_tokens, 300);
}

#[test]
fn defaults_when_file_is_garbage() {
    let s = load(Some("this is not a settings file"));
    assert_eq!(s.token, "");
    assert_eq!(s.url, "https://api.openai.com/v1/chat/completions");
    assert_eq!(s.model, "gpt-4o");
    assert_eq!(s.max_tokens, 300);
}

#[test]
fn defaults_when_file_is_truncated() {
    let full = save_text(&Settings::default());
    let cut = &full[..full.len() - 5];
    let s = load(Some(cut));
    assert_eq!(s.token, "");
    assert_eq!(s.max_tokens, 300);
}

#[test]
fn no_partial_parse_on_bad_tail() {
    // A good token line followed by garbage must not keep the token.
    let text = "[api]\ntoken = \"sk-live\"\nnonsense";
    let s = load(Some(text));
    assert_eq!(s.token, "");
    assert_eq!(s.max_tokens, 300);
}

#[test]
fn defaults_when_max_tokens_not_a_number() {
    let text = "[api]\ntoken = \"t\"\nurl = \"u\"\nmodel = \"m\"\nmax_tokens = many\n";
    let s = load(Some(text));
    assert_eq!(s.token, "");
    assert_eq!(s.url, "https://api.openai.com/v1/chat/completions");
}

#[test]
fn save_then_load_returns_same_settings() {
    let s = Settings {
        token: "sk-test".to_string(),
        url: "https://example.test/v1".to_string(),
        model: "gpt-4o".to_string(),
        max_tokens: 512,
    };
    let text = save_text(&s);
    let back = load(Some(&text));
    assert_eq!(back.token, "sk-test");
    assert_eq!(back.url, "https://example.test/v1");
    assert_eq!(back.model, "gpt-4o");
    assert_eq!(back.max_tokens, 512);
}

#[test]
fn save_after_load_is_byte_for_byte_stable() {
    let s = Settings {
        token: "sk with \"quotes\" and \\slashes\\ and\nnewlines".to_string(),
        url: "https://api.openai.com/v1/chat/completions".to_string(),
        model: "gpt-4o".to_string(),
        max_tokens: -17,
    };
    let text = save_text(&s);
    let back = load(Some(&text));
    assert_eq!(back.token, s.token);
    assert_eq!(back.max_tokens, -17);
    let text2 = save_text(&back);
    assert_eq!(text, text2);
}

#[test]
fn rendered_text_is_the_expected_shape() {
    let s = Settings {
        token: "sk-test".to_string(),
        url: "https://example.test/v1".to_string(),
        model: "gpt-4o".to_string(),
        max_tokens: 300,
    };
    let text = save_text(&s);
    assert_eq!(
        text,
        "[api]\ntoken = \"sk-test\"\nurl = \"https://example.test/v1\"\nmodel = \"gpt-4o\"\nmax_tokens = 300\n"
    );
}

#[test]
fn parse_accepts_exactly_what_save_writes() {
    let text = "[api]\ntoken = \"a\\\"b\"\nurl = \"u\"\nmodel = \"m\"\nmax_tokens = 42\n";
    let s = parse_settings(text).expect("well-formed text must parse");
    assert_eq!(s.token, "a\"b");
    assert_eq!(s.max_tokens, 42);
}

#[test]
fn parse_rejects_out_of_range_max_tokens() {
    let text = "[api]\ntoken = \"t\"\nurl = \"u\"\nmodel = \"m\"\nmax_tokens = 2147483648\n";
    assert!(parse_settings(text).is_none());
    let ok = "[api]\ntoken = \"t\"\nurl = \"u\"\nmodel = \"m\"\nmax_tokens = 2147483647\n";
    assert_eq!(parse_settings(ok).unwrap().max_tokens, 2147483647);
}

#[test]
fn parse_accepts_reordered_keys_and_extra_space() {
    let text = "\n[api]\n\nmax_tokens =  42\n  model\t= \"m\"\n\nurl = \"u\"\ntoken=\"t\"\n";
    let s = load(Some(text));
    assert_eq!(s.token, "t");
    assert_eq!(s.url, "u");
    assert_eq!(s.model, "m");
    assert_eq!(s.max_tokens, 42);
}

#[test]
fn parse_accepts_missing_final_newline() {
    let text = "[api]\ntoken = \"t\"\nurl = \"u\"\nmodel = \"m\"\nmax_tokens = 42";
    let s = load(Some(text));
    assert_eq!(s.max_tokens, 42);
    assert_eq!(s.token, "t");
}

#[test]
fn defaults_when_a_key_repeats() {
    let text = "[api]\ntoken = \"a\"\ntoken = \"b\"\nurl = \"u\"\nmodel = \"m\"\nmax_tokens = 1\n";
    let s = load(Some(text));
    assert_eq!(s.token, "");
    assert_eq!(s.max_tokens, 300);
}

#[test]
fn defaults_when_a_key_is_missing() {
    let text = "[api]\ntoken = \"a\"\nurl = \"u\"\nmodel = \"m\"\n";
    let s = load(Some(text));
    assert_eq!(s.token, "");
    assert_eq!(s.max_tokens, 300);
}

#[test]
fn defaults_when_an_unknown_key_appears() {
    let text =
        "[api]\ntoken = \"t\"\nurl = \"u\"\nmodel = \"m\"\nmax_tokens = 1\nextra = \"x\"\n";
    let s = load(Some(text));
    assert_eq!(s.token, "");
    assert_eq!(s.max_tokens, 300);
}

#[test]
fn override_token_key() {
    let mut s = Settings::default();
    assert!(apply_override(&mut s, "api.token", "sk-new"));
    assert_eq!(s.token, "sk-new");
    assert_eq!(s.model, "gpt-4o");
}

#[test]
fn override_url_and_model_keys() {
    let mut s = Settings::default();
    assert!(apply_override(&mut s, "api.url", "https://other.test"));
    assert!(apply_override(&mut s, "api.model", "gpt-4o-mini"));
    assert_eq!(s.url, "https://other.test");
    assert_eq!(s.model, "gpt-4o-mini");
}

#[test]
fn override_max_tokens_parses_number() {
    let mut s = Settings::default();
    assert!(apply_override(&mut s, "api.max_tokens", "500"));
    assert_eq!(s.max_tokens, 500);
}

#[test]
fn override_max_tokens_keeps_old_on_bad_number() {
    let mut s = Settings::default();
    assert!(apply_override(&mut s, "api.max_tokens", "lots"));
    assert_eq!(s.max_tokens, 300);
    assert!(apply_override(&mut s, "api.max_tokens", "2147483648"));
    assert_eq!(s.max_tokens, 300);
    assert!(apply_override(&mut s, "api.max_tokens", "-25"));
    assert_eq!(s.max_tokens, -25);
}

#[test]
fn override_unknown_key_changes_nothing() {
    let mut s = Settings::default();
    assert!(!apply_override(&mut s, "api.nonsense", "x"));
    assert_eq!(s.token, "");
    assert_eq!(s.url, "https://api.openai.com/v1/chat/completions");
    assert_eq!(s.model, "gpt-4o");
    assert_eq!(s.max_tokens, 300);
}
