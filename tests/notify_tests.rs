use arrow_stock::config::{parse_email_config, parse_products, EmailConfig};
use arrow_stock::notify::{decimal_chars, message_for, plan_notifications, unit_notifications};
use arrow_stock::stock::FetchError;

fn two_recipients() -> EmailConfig {
    EmailConfig {
        from: "a@x.com".to_string(),
        password: "secret".to_string(),
        recipients: vec!["b@y.com".to_string(), "c@y.com".to_string()],
    }
}

#[test]
fn decimal_digits() {
    assert_eq!(decimal_chars(0), vec!['0']);
    assert_eq!(decimal_chars(4970), vec!['4', '9', '7', '0']);
    assert_eq!(decimal_chars(u64::MAX), u64::MAX.to_string().chars().collect::<Vec<char>>());
}

#[test]
fn message_text_exact() {
    assert_eq!(message_for("LM258DR", 4970), "[arrow艾睿] LM258DR 产品有 4970 个新库存");
}

#[test]
fn no_mail_for_zero_stock() {
    assert!(plan_notifications("LM258DR", Some(0), &two_recipients()).is_empty());
}

#[test]
fn no_mail_for_absent_stock() {
    assert!(plan_notifications("LM258DR", None, &two_recipients()).is_empty());
}

#[test]
fn one_mail_per_recipient_in_order() {
    let ms = plan_notifications("LM393", Some(3), &two_recipients());
    assert_eq!(ms.len(), 2);
    assert_eq!(ms[0].to, "b@y.com");
    assert_eq!(ms[1].to, "c@y.com");
    for m in &ms {
        assert!(m.subject.contains("LM393"));
        assert!(m.subject.contains('3'));
        assert_eq!(m.subject, m.body);
    }
}

#[test]
fn no_recipients_no_mail() {
    let cfg = parse_email_config("a@x.com\nsecret\n\n");
    assert!(plan_notifications("LM393", Some(3), &cfg).is_empty());
}

#[test]
fn failed_fetch_sends_no_mail() {
    assert!(unit_notifications("LM258DR", &Err(FetchError::Timeout), &two_recipients()).is_empty());
    assert!(unit_notifications("LM258DR", &Err(FetchError::Connect), &two_recipients()).is_empty());
}

#[test]
fn products_and_mail_files_scenario() {
    let products = parse_products("LM258DR\nLM393");
    let cfg = parse_email_config("a@x.com\nsecret\nb@y.com\nc@y.com");
    assert_eq!(products, vec!["LM258DR".to_string(), "LM393".to_string()]);

    let first = Ok("<div>4,970 parts</div>".to_string());
    assert_eq!(arrow_stock::stock::stock_from_response(&first), Some(4970));
    let ms = unit_notifications(&products[0], &first, &cfg);
    assert_eq!(ms.len(), 2);
    assert_eq!(ms[0].to, "b@y.com");
    assert_eq!(ms[1].to, "c@y.com");
    for m in &ms {
        assert!(m.subject.contains("LM258DR"));
        assert!(m.subject.contains("4970"));
    }

    let second = Ok("<div>no results</div>".to_string());
    assert!(unit_notifications(&products[1], &second, &cfg).is_empty());
}
