use arrow_stock::config::{parse_email_config, parse_products};

#[test]
fn products_split_and_trimmed() {
    assert_eq!(parse_products("LM258DR\nLM393"), vec!["LM258DR".to_string(), "LM393".to_string()]);
}

#[test]
fn products_keep_blank_lines() {
    assert_eq!(
        parse_products(" a \n\n\tb\r\n"),
        vec!["a".to_string(), "".to_string(), "b".to_string(), "".to_string()]
    );
}

#[test]
fn products_of_empty_file() {
    assert_eq!(parse_products(""), vec!["".to_string()]);
}

#[test]
fn email_config_parsed() {
    let cfg = parse_email_config("a@x.com\nsecret\nb@y.com\nc@y.com");
    assert_eq!(cfg.from, "a@x.com");
    assert_eq!(cfg.password, "secret");
    assert_eq!(cfg.recipients, vec!["b@y.com".to_string(), "c@y.com".to_string()]);
}

#[test]
fn email_config_trims_and_skips_blank_recipients() {
    let cfg = parse_email_config(" a@x.com \r\n secret\r\n\r\n  \nb@y.com\r\n");
    assert_eq!(cfg.from, "a@x.com");
    assert_eq!(cfg.password, "secret");
    assert_eq!(cfg.recipients, vec!["b@y.com".to_string()]);
}

#[test]
fn email_config_too_short_is_empty() {
    let cfg = parse_email_config("a@x.com\nsecret");
    assert_eq!(cfg.from, "");
    assert_eq!(cfg.password, "");
    assert!(cfg.recipients.is_empty());
}

#[test]
fn email_config_three_lines_blank_recipient() {
    let cfg = parse_email_config("a@x.com\nsecret\n");
    assert_eq!(cfg.from, "a@x.com");
    assert_eq!(cfg.password, "secret");
    assert!(cfg.recipients.is_empty());
}
