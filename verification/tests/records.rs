use export_stats::messages::{parse_csv, tokenize};
use export_stats::models::{ExtractedData, Payment, PaymentInfo, User};
use export_stats::payments::process_payments;
use export_stats::pipeline::Parser;
use export_stats::json::parse_json;
use export_stats::archive::{Archive, ArchiveEntry};
use export_stats::models::ProgressSink;

#[test]
fn default_snapshot_is_initial() {
    let d = ExtractedData::default();
    assert_eq!(d.hours_values, vec![0; 24]);
    assert_eq!(d.message_count, 0);
    assert!(d.user.is_none());
    assert!(d.open_count.is_none());
    assert_eq!(d.payments.list, "");
}

#[test]
fn parse_json_rejects_empty() {
    let e = parse_json("   \t ").err().unwrap();
    assert_eq!(e.message, "Empty JSON content");
}

#[test]
fn parse_json_rejects_wrong_opening() {
    let e = parse_json("hello world").err().unwrap();
    assert_eq!(e.message, "Invalid JSON format - doesn't start with { or [");
}

#[test]
fn parse_json_reports_both_decoders() {
    let e = parse_json("{broken").err().unwrap();
    assert!(e.message.starts_with("Both JSON parsers failed. simd_json: "));
    assert!(e.message.contains(", serde_json: "));
}

#[test]
fn parse_json_accepts_bom_prefixed_object() {
    assert!(parse_json("\u{feff} {\"a\": 1}").is_ok());
}

#[test]
fn json_messages_array() {
    let parser = Parser::new();
    let ms = parser
        .parse_json_messages(
            r#"[{"ID": 10, "Timestamp": "t1", "Contents": "alpha beta"},
                {"ID": 11, "Timestamp": "t2", "Contents": ""},
                {"ID": 12, "Timestamp": "t3", "Contents": "gamma"}]"#,
        )
        .unwrap();
    // the empty-content message is dropped
    assert_eq!(ms.len(), 2);
    assert_eq!(ms[0].id, 10);
    assert_eq!(ms[0].length, "alpha beta".len());
    assert_eq!(ms[0].words, vec!["alpha", "beta"]);
    assert_eq!(ms[1].id, 12);
}

#[test]
fn json_messages_single_object_wrapped() {
    let parser = Parser::new();
    let ms = parser
        .parse_json_messages(r#"{"ID": 5, "Timestamp": "t", "Contents": "solo record"}"#)
        .unwrap();
    assert_eq!(ms.len(), 1);
    assert_eq!(ms[0].id, 5);
    assert_eq!(ms[0].words, vec!["solo", "record"]);
}

#[test]
fn json_messages_malformed_is_error() {
    let parser = Parser::new();
    assert!(parser.parse_json_messages(r#"{"ID": "not a number"}"#).is_err());
    assert!(parser.parse_json_messages("[1, 2, 3]").is_err());
}

#[test]
fn csv_messages_decode() {
    let text = "ID,Timestamp,Contents,Attachments\n\
                21,2024-01-01T10:00:00+00:00,\"hello, quoted world\",\n\
                22,2024-01-01T11:00:00+00:00,,\n\
                23,2024-01-01T12:00:00+00:00,plain,file.png\n";
    let ms = parse_csv(text).unwrap();
    assert_eq!(ms.len(), 2);
    assert_eq!(ms[0].id, 21);
    // the quoted comma stays inside one field
    assert_eq!(ms[0].length, "hello, quoted world".len());
    assert_eq!(ms[0].words, vec!["hello,", "quoted", "world"]);
    assert_eq!(ms[1].id, 23);
}

#[test]
fn csv_without_id_column_is_error() {
    assert!(parse_csv("Timestamp,Contents\nt,c\n").is_err());
}

#[test]
fn tokenizer_splits_on_whitespace_runs() {
    let ws: Vec<String> = tokenize("  one\ttwo  three\n");
    assert_eq!(ws, vec!["one", "two", "three"]);
    assert_eq!(tokenize(""), Vec::<String>::new());
    assert_eq!(tokenize("   "), Vec::<String>::new());
}

struct Quiet;

impl ProgressSink for Quiet {
    fn emit(&mut self, _message: String) {}
}

#[test]
fn utc_hour_respects_offsets() {
    // 03:04 at +01:00 is 02:04 in UTC; 00:30 at -02:00 is 02:30;
    // the unparseable timestamp counts toward totals but not the histogram
    let messages = r#"[
        {"ID": 1, "Timestamp": "2024-01-02T03:04:05+01:00", "Contents": "a"},
        {"ID": 2, "Timestamp": "2024-01-02T00:30:00-02:00", "Contents": "b"},
        {"ID": 3, "Timestamp": "2024-01-02T23:59:59Z", "Contents": "c"},
        {"ID": 4, "Timestamp": "not a timestamp", "Contents": "d"}
    ]"#;
    let archive = Archive::from_entries(vec![
        ArchiveEntry { name: "account/user.json".to_string(), data: b"{}".to_vec() },
        ArchiveEntry {
            name: "servers/1000000000000001/guild.json".to_string(),
            data: b"{}".to_vec(),
        },
        ArchiveEntry { name: "messages/c8888888888888888/".to_string(), data: Vec::new() },
        ArchiveEntry {
            name: "messages/c8888888888888888/channel.json".to_string(),
            data: br#"{"id":"8888888888888888","guild":{"name":"g"}}"#.to_vec(),
        },
        ArchiveEntry {
            name: "messages/c8888888888888888/messages.json".to_string(),
            data: messages.as_bytes().to_vec(),
        },
    ]);
    let parser = Parser::new();
    let mut sink = Quiet;
    let data = parser.extract_data(&archive, None, &mut sink).unwrap();
    assert_eq!(data.message_count, 4);
    assert_eq!(data.hours_values[2], 2);
    assert_eq!(data.hours_values[23], 1);
    let total: usize = data.hours_values.iter().sum();
    assert_eq!(total, 3);
}

#[test]
fn default_avatar_url_by_discriminator() {
    let parser = Parser::new();
    // legacy scheme: discriminator modulo five
    assert_eq!(
        parser.get_default_avatar_url("999", 1234),
        "https://cdn.discordapp.com/embed/avatars/4.png"
    );
    // newer scheme: the id shifted right by 22 bits, modulo six
    assert_eq!(
        parser.get_default_avatar_url("4194304", 0),
        "https://cdn.discordapp.com/embed/avatars/1.png"
    );
    // an id that is not a plain number counts as zero
    assert_eq!(
        parser.get_default_avatar_url("abc", 0),
        "https://cdn.discordapp.com/embed/avatars/0.png"
    );
}

fn pay(amount: u64, currency: &str, status: i64, created_at: &str, description: &str) -> Payment {
    Payment {
        amount,
        currency: currency.to_string(),
        status,
        created_at: created_at.to_string(),
        description: description.to_string(),
    }
}

fn user_with(payments: Vec<Payment>) -> User {
    User {
        id: "1".to_string(),
        username: "u".to_string(),
        discriminator: 1,
        avatar: None,
        default_avatar_url: None,
        payments,
    }
}

#[test]
fn payment_totals_per_currency() {
    let user = user_with(vec![
        pay(100, "usd", 1, "2020-01-03T00:00:00Z", "c"),
        pay(250, "eur", 1, "2020-01-01T00:00:00Z", "a"),
        pay(77, "usd", 1, "2020-01-02T00:00:00Z", "b"),
        pay(500, "usd", 0, "2020-01-04T00:00:00Z", "ignored"),
        pay(500, "eur", 3, "2020-01-05T00:00:00Z", "ignored too"),
    ]);
    let mut info = PaymentInfo { total: Vec::new(), list: String::new() };
    process_payments(&mut info, &user);
    // the sum of (amount/100) per currency, kept here in minor units:
    // usd 1.77, eur 2.50; unconfirmed statuses never contribute
    assert_eq!(info.total.len(), 2);
    assert_eq!(info.total[0], ("usd".to_string(), 177));
    assert_eq!(info.total[1], ("eur".to_string(), 250));
    assert_eq!(
        info.list,
        "a (EUR 2.50)<br>b (USD 0.77)<br>c (USD 1.00)"
    );
}

#[test]
fn payments_empty_without_confirmed() {
    let user = user_with(vec![pay(100, "usd", 2, "t", "d")]);
    let mut info = PaymentInfo { total: Vec::new(), list: String::new() };
    process_payments(&mut info, &user);
    assert!(info.total.is_empty());
    assert_eq!(info.list, "");
}

#[test]
fn payment_ties_keep_first_encountered_order() {
    let user = user_with(vec![
        pay(100, "usd", 1, "2020-01-01T00:00:00Z", "one"),
        pay(200, "usd", 1, "2020-01-01T00:00:00Z", "two"),
    ]);
    let mut info = PaymentInfo { total: Vec::new(), list: String::new() };
    process_payments(&mut info, &user);
    assert_eq!(info.list, "one (USD 1.00)<br>two (USD 2.00)");
}

#[test]
fn tokenizer_splits_on_unicode_whitespace() {
    // no-break space and em-space separate words, as the platform's
    // whitespace class does
    let ws: Vec<String> = tokenize("alpha\u{a0}beta\u{2003}gamma");
    assert_eq!(ws, vec!["alpha", "beta", "gamma"]);
}

#[test]
fn unicode_whitespace_only_record_reads_as_absent() {
    let archive = Archive::from_entries(vec![ArchiveEntry {
        name: "a/file.txt".to_string(),
        data: "\u{a0}\u{2003} \n".as_bytes().to_vec(),
    }]);
    assert_eq!(archive.read_text("a/file.txt"), None);
}
