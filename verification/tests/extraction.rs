use export_stats::archive::{Archive, ArchiveEntry};
use export_stats::models::{ProgressSink, StructuralError};
use export_stats::pipeline::Parser;
use std::io::Write;

struct Recorder {
    events: Vec<String>,
}

impl ProgressSink for Recorder {
    fn emit(&mut self, message: String) {
        self.events.push(message);
    }
}

fn entry(name: &str, data: &str) -> ArchiveEntry {
    ArchiveEntry { name: name.to_string(), data: data.as_bytes().to_vec() }
}

fn scenario_archive() -> Archive {
    let user = r#"{
        "id": "42",
        "username": "someone",
        "discriminator": 1234,
        "payments": [
            {"amount": 1234, "currency": "usd", "status": 1,
             "created_at": "2020-02-01T00:00:00+00:00", "description": "Second"},
            {"amount": 250, "currency": "usd", "status": 1,
             "created_at": "2020-01-01T00:00:00+00:00", "description": "First"},
            {"amount": 999, "currency": "eur", "status": 2,
             "created_at": "2020-03-01T00:00:00+00:00", "description": "Refused"}
        ]
    }"#;
    let dm_channel = r#"{"id": "1111111111111111", "recipients": ["42", "77"]}"#;
    let dm_messages = r#"[
        {"ID": 1, "Timestamp": "2024-05-01T01:10:00+00:00", "Contents": "hello there"},
        {"ID": 2, "Timestamp": "2024-05-01T02:20:00+00:00", "Contents": "wonderful evening"},
        {"ID": 3, "Timestamp": "2024-05-01T03:30:00+00:00", "Contents": "bye"}
    ]"#;
    let guild_channel = r#"{"id": "2222222222222222", "guild": {"name": "The Guild"}}"#;
    let guild_messages = r#"[
        {"ID": 4, "Timestamp": "later", "Contents": "wonderful wonderful"},
        {"ID": 5, "Timestamp": "later", "Contents": "wonderful"},
        {"ID": 6, "Timestamp": "later", "Contents": "ok"},
        {"ID": 7, "Timestamp": "later", "Contents": "short one"},
        {"ID": 8, "Timestamp": "later", "Contents": "x"}
    ]"#;
    Archive::from_entries(vec![
        entry("account/user.json", user),
        entry("messages/index.json", r#"{"2222222222222222": "general"}"#),
        entry("messages/c1111111111111111/", ""),
        entry("messages/c1111111111111111/channel.json", dm_channel),
        entry("messages/c1111111111111111/messages.json", dm_messages),
        entry("messages/c2222222222222222/", ""),
        entry("messages/c2222222222222222/channel.json", guild_channel),
        entry("messages/c2222222222222222/messages.json", guild_messages),
        entry("servers/1000000000000001/guild.json", "{}"),
        entry("servers/index.json", r#"{"g1": "One", "g2": "Two"}"#),
    ])
}

#[test]
fn scenario_counts() {
    let archive = scenario_archive();
    let parser = Parser::new();
    let mut sink = Recorder { events: Vec::new() };
    let data = parser.extract_data(&archive, None, &mut sink).expect("extraction must succeed");

    assert_eq!(data.channel_count, 1);
    assert_eq!(data.dm_channel_count, 1);
    assert_eq!(data.message_count, 8);
    assert_eq!(data.guild_count, 2);
    assert_eq!(data.top_channels.len(), 1);
    assert_eq!(data.top_dms.len(), 1);
}

#[test]
fn scenario_histogram_three_buckets() {
    let archive = scenario_archive();
    let parser = Parser::new();
    let mut sink = Recorder { events: Vec::new() };
    let data = parser.extract_data(&archive, None, &mut sink).unwrap();

    assert_eq!(data.hours_values.len(), 24);
    let nonzero: Vec<(usize, usize)> = data
        .hours_values
        .iter()
        .cloned()
        .enumerate()
        .filter(|(_, c)| *c > 0)
        .collect();
    // only the direct messages carry parseable timestamps: hours 1, 2, 3
    assert_eq!(nonzero, vec![(1, 1), (2, 1), (3, 1)]);
    let total: usize = data.hours_values.iter().sum();
    assert!(total <= 3);
}

#[test]
fn scenario_top_entries() {
    let archive = scenario_archive();
    let parser = Parser::new();
    let mut sink = Recorder { events: Vec::new() };
    let data = parser.extract_data(&archive, None, &mut sink).unwrap();

    assert_eq!(data.top_channels[0].name, "general");
    assert_eq!(data.top_channels[0].message_count, 5);
    assert_eq!(data.top_channels[0].guild_name.as_deref(), Some("The Guild"));
    assert_eq!(data.top_dms[0].id, "1111111111111111");
    assert_eq!(data.top_dms[0].dm_user_id, "77");
    assert_eq!(data.top_dms[0].message_count, 3);
}

#[test]
fn scenario_favorite_words_all_long() {
    let archive = scenario_archive();
    let parser = Parser::new();
    let mut sink = Recorder { events: Vec::new() };
    let data = parser.extract_data(&archive, None, &mut sink).unwrap();

    assert!(!data.favorite_words.is_empty());
    for w in &data.favorite_words {
        assert!(w.word.len() > 5, "favorite word too short: {}", w.word);
    }
    // "wonderful" appears three times in the guild channel and once in a DM
    let wonderful = data.favorite_words.iter().find(|w| w.word == "wonderful").unwrap();
    assert_eq!(wonderful.count, 4);
    assert_eq!(data.favorite_words[0].word, "wonderful");
}

#[test]
fn scenario_payments_and_user() {
    let archive = scenario_archive();
    let parser = Parser::new();
    let mut sink = Recorder { events: Vec::new() };
    let data = parser.extract_data(&archive, None, &mut sink).unwrap();

    let user = data.user.as_ref().expect("user record loads");
    // the identity collaborator reported nothing: placeholder identity
    assert_eq!(user.username, "Unknown");
    assert_eq!(user.discriminator, 0);
    assert!(user.avatar.is_none());
    // the id 42 shifted right by 22 bits is 0
    assert_eq!(
        user.default_avatar_url.as_deref(),
        Some("https://cdn.discordapp.com/embed/avatars/0.png")
    );

    // only confirmed payments count: 1234 + 250 minor units of usd
    let totals = &data.payments.total;
    assert_eq!(totals.len(), 1);
    assert_eq!(totals[0].0, "usd");
    assert_eq!(totals[0].1, 1484);
    // chronological, uppercased currency, two decimals
    assert_eq!(data.payments.list, "First (USD 2.50)<br>Second (USD 12.34)");
}

#[test]
fn scenario_character_count() {
    let archive = scenario_archive();
    let parser = Parser::new();
    let mut sink = Recorder { events: Vec::new() };
    let data = parser.extract_data(&archive, None, &mut sink).unwrap();
    let expected = "hello there".len() + "wonderful evening".len() + "bye".len()
        + "wonderful wonderful".len() + "wonderful".len() + "ok".len() + "short one".len()
        + "x".len();
    assert_eq!(data.character_count, expected);
}

#[test]
fn missing_all_roots_aborts_before_channels() {
    let archive = Archive::from_entries(vec![entry("readme.txt", "nothing here")]);
    let parser = Parser::new();
    let mut sink = Recorder { events: Vec::new() };
    let r = parser.extract_data(&archive, None, &mut sink);
    match r {
        Err(e) => {
            assert_eq!(e, StructuralError::MissingMessageRoot);
            assert_eq!(e.message(), "Could not find Messages folder structure");
        }
        Ok(_) => panic!("extraction must abort"),
    }
    // the run stopped at structural analysis: no channel progress was emitted
    assert_eq!(sink.events, vec!["Analyzing package structure...".to_string()]);
}

#[test]
fn missing_server_root_aborts() {
    let archive = Archive::from_entries(vec![
        entry("messages/c1111111111111111/channel.json", "{}"),
        entry("account/user.json", "{}"),
    ]);
    let parser = Parser::new();
    let mut sink = Recorder { events: Vec::new() };
    let r = parser.extract_data(&archive, None, &mut sink);
    assert_eq!(r.err(), Some(StructuralError::MissingServerRoot));
}

#[test]
fn missing_user_root_aborts() {
    let archive = Archive::from_entries(vec![
        entry("messages/c1111111111111111/channel.json", "{}"),
        entry("servers/1000000000000001/guild.json", "{}"),
    ]);
    let parser = Parser::new();
    let mut sink = Recorder { events: Vec::new() };
    let r = parser.extract_data(&archive, None, &mut sink);
    assert_eq!(r.err(), Some(StructuralError::MissingUserRoot));
}

#[test]
fn whitespace_only_user_record_is_absent() {
    // an empty or whitespace-only record file reads as absent: the user
    // feature stays unpopulated instead of failing the run
    let archive = Archive::from_entries(vec![
        entry("messages/c1111111111111111/channel.json", "{}"),
        entry("servers/1000000000000001/guild.json", "{}"),
        entry("account/user.json", " \t\r\n  "),
    ]);
    let parser = Parser::new();
    let mut sink = Recorder { events: Vec::new() };
    let data = parser.extract_data(&archive, None, &mut sink).unwrap();
    assert!(data.user.is_none());
    assert_eq!(data.payments.total.len(), 0);
    assert_eq!(data.payments.list, "");
}

#[test]
fn bom_and_whitespace_cleaned() {
    let archive = Archive::from_entries(vec![entry("a/file.txt", "\u{feff}  {\"k\": 1} \n")]);
    assert_eq!(archive.read_text("a/file.txt").as_deref(), Some("{\"k\": 1}"));
    assert_eq!(archive.read_text("a/missing.txt"), None);
    assert!(archive.file_exists("a/file.txt"));
    assert!(!archive.file_exists("a/file.TXT"));
}

#[test]
fn top_channels_ranking_descending_and_stable() {
    // twelve guild channels; two pairs tie, and ties keep discovery order
    let mut entries = vec![
        entry("account/user.json", r#"{"id":"1","username":"u","discriminator":7,"payments":[]}"#),
        entry("servers/1000000000000001/guild.json", "{}"),
    ];
    let counts = [3usize, 9, 1, 9, 5, 0, 2, 7, 4, 6, 8, 5];
    for (k, c) in counts.iter().enumerate() {
        let id = format!("{:016}", 7000000000000000u64 + k as u64);
        entries.push(entry(&format!("messages/c{}/", id), ""));
        entries.push(entry(
            &format!("messages/c{}/channel.json", id),
            &format!(r#"{{"id":"{}","guild":{{"name":"g"}}}}"#, id),
        ));
        let mut msgs = String::from("[");
        for m in 0..*c {
            if m > 0 {
                msgs.push(',');
            }
            msgs.push_str(&format!(
                r#"{{"ID":{},"Timestamp":"t","Contents":"m"}}"#,
                m + 1
            ));
        }
        msgs.push(']');
        entries.push(entry(&format!("messages/c{}/messages.json", id), &msgs));
    }
    let archive = Archive::from_entries(entries);
    let parser = Parser::new();
    let mut sink = Recorder { events: Vec::new() };
    let data = parser.extract_data(&archive, None, &mut sink).unwrap();

    assert_eq!(data.channel_count, 12);
    assert_eq!(data.top_channels.len(), 10);
    let got: Vec<usize> = data.top_channels.iter().map(|t| t.message_count).collect();
    assert_eq!(got, vec![9, 9, 8, 7, 6, 5, 5, 4, 3, 2]);
    // stability: the 9 at position 1 of the input precedes the 9 at position 3,
    // and the 5 at position 4 precedes the 5 at position 11
    let names: Vec<&str> = data.top_channels.iter().map(|t| t.name.as_str()).collect();
    assert_eq!(names[0], "7000000000000001");
    assert_eq!(names[1], "7000000000000003");
    assert_eq!(names[5], "7000000000000004");
    assert_eq!(names[6], "7000000000000011");
    // message totals equal the sum over both channel classes
    assert_eq!(data.message_count, counts.iter().sum::<usize>());
    assert_eq!(data.dm_channel_count, 0);
}

#[test]
fn analytics_marker_populates_zeroes() {
    let archive = Archive::from_entries(vec![
        entry("messages/c1111111111111111/channel.json", "{}"),
        entry("servers/1000000000000001/guild.json", "{}"),
        entry("account/user.json", "{}"),
        entry("activity/analytics/events-2024-00000-of-00001.json", ""),
    ]);
    let parser = Parser::new();
    let mut sink = Recorder { events: Vec::new() };
    let data = parser.extract_data(&archive, None, &mut sink).unwrap();
    assert_eq!(data.open_count, Some(0));
    assert_eq!(data.sent_message_count, Some(0));
    assert_eq!(data.average_open_count_per_day, None);
    assert_eq!(data.average_message_count_per_day, None);
}

#[test]
fn analytics_absent_leaves_fields_unset() {
    let archive = Archive::from_entries(vec![
        entry("messages/c1111111111111111/channel.json", "{}"),
        entry("servers/1000000000000001/guild.json", "{}"),
        entry("account/user.json", "{}"),
    ]);
    let parser = Parser::new();
    let mut sink = Recorder { events: Vec::new() };
    let data = parser.extract_data(&archive, None, &mut sink).unwrap();
    assert_eq!(data.open_count, None);
    assert_eq!(data.sent_message_count, None);
}

#[test]
fn zip_container_round_trip() {
    let mut writer = zip::ZipWriter::new(std::io::Cursor::new(Vec::new()));
    let options = zip::write::SimpleFileOptions::default();
    writer.start_file("messages/c1111111111111111/channel.json", options).unwrap();
    writer
        .write_all(br#"{"id":"1111111111111111","recipients":["1","2"]}"#)
        .unwrap();
    writer.start_file("servers/1000000000000001/guild.json", options).unwrap();
    writer.write_all(b"{}").unwrap();
    writer
        .start_file("account/user.json", options)
        .unwrap();
    writer
        .write_all(br#"{"id":"1","username":"u","discriminator":1,"payments":[]}"#)
        .unwrap();
    let bytes = writer.finish().unwrap().into_inner();

    let archive = Archive::from_zip_bytes(bytes).expect("container opens");
    assert!(archive.file_exists("account/user.json"));
    let parser = Parser::new();
    let mut sink = Recorder { events: Vec::new() };
    let data = parser.extract_data(&archive, None, &mut sink).unwrap();
    assert!(data.user.is_some());
}

#[test]
fn corrupt_container_is_rejected() {
    let r = Archive::from_zip_bytes(vec![1, 2, 3, 4]);
    assert!(r.is_err());
}

#[test]
fn legacy_layout_unprefixed_csv() {
    // the oldest generation: unprefixed directories, tabular messages
    let csv = "ID,Timestamp,Contents,Attachments\n1,2020-01-01T09:00:00+00:00,legacy body,\n";
    let archive = Archive::from_entries(vec![
        entry("account/user.json", "{}"),
        entry("servers/1000000000000001/guild.json", "{}"),
        entry("messages/4444444444444444/", ""),
        entry(
            "messages/4444444444444444/channel.json",
            r#"{"id":"4444444444444444","guild":{"name":"Old"}}"#,
        ),
        entry("messages/4444444444444444/messages.csv", csv),
    ]);
    let parser = Parser::new();
    let mut sink = Recorder { events: Vec::new() };
    let data = parser.extract_data(&archive, None, &mut sink).unwrap();
    assert_eq!(data.channel_count, 1);
    assert_eq!(data.message_count, 1);
    assert_eq!(data.hours_values[9], 1);
    assert_eq!(data.top_channels[0].guild_name.as_deref(), Some("Old"));
}

#[test]
fn unprefixed_names_with_json_messages() {
    // the probes are independent: unprefixed directories, but some channel
    // has a prefixed message file with the newer extension, so message
    // files keep that extension
    let archive = Archive::from_entries(vec![
        entry("account/user.json", "{}"),
        entry("servers/1000000000000001/guild.json", "{}"),
        entry("messages/4545454545454545/", ""),
        entry(
            "messages/4545454545454545/channel.json",
            r#"{"id":"4545454545454545","guild":{"name":"Mixed"}}"#,
        ),
        entry(
            "messages/4545454545454545/messages.json",
            r#"[{"ID":1,"Timestamp":"t","Contents":"kept message"}]"#,
        ),
        entry("messages/c4545454545454545/messages.json", "[]"),
    ]);
    let parser = Parser::new();
    let mut sink = Recorder { events: Vec::new() };
    let data = parser.extract_data(&archive, None, &mut sink).unwrap();
    assert_eq!(data.channel_count, 1);
    assert_eq!(data.message_count, 1);
}

#[test]
fn intermediate_layout_prefixed_csv() {
    let csv = "ID,Timestamp,Contents,Attachments\n\
               31,2024-03-01T07:00:00+00:00,tabular greetings,\n\
               32,2024-03-01T08:00:00+00:00,,\n";
    let archive = Archive::from_entries(vec![
        entry("account/user.json", "{}"),
        entry("servers/1000000000000001/guild.json", "{}"),
        entry("messages/c5555555555555555/", ""),
        entry(
            "messages/c5555555555555555/channel.json",
            r#"{"id":"5555555555555555","guild":{"name":"Mid"}}"#,
        ),
        entry("messages/c5555555555555555/messages.csv", csv),
    ]);
    let parser = Parser::new();
    let mut sink = Recorder { events: Vec::new() };
    let data = parser.extract_data(&archive, None, &mut sink).unwrap();
    // the empty-content row is dropped; the other lands in the 07:00 bucket
    assert_eq!(data.channel_count, 1);
    assert_eq!(data.message_count, 1);
    assert_eq!(data.hours_values[7], 1);
    assert!(data.favorite_words.iter().any(|w| w.word == "greetings"));
}

#[test]
fn unclassifiable_channel_counts_no_messages() {
    // no recipients and no guild: the channel joins neither aggregate,
    // but its messages still feed characters, histogram and words
    let archive = Archive::from_entries(vec![
        entry(
            "account/user.json",
            r#"{"id":"42","username":"u","discriminator":1,"payments":[]}"#,
        ),
        entry("servers/1000000000000001/guild.json", "{}"),
        entry("messages/c6666666666666666/", ""),
        entry("messages/c6666666666666666/channel.json", r#"{"id":"6666666666666666"}"#),
        entry(
            "messages/c6666666666666666/messages.json",
            r#"[{"ID":1,"Timestamp":"2024-03-01T05:00:00+00:00","Contents":"orphaned message"}]"#,
        ),
    ]);
    let parser = Parser::new();
    let mut sink = Recorder { events: Vec::new() };
    let data = parser.extract_data(&archive, None, &mut sink).unwrap();
    assert_eq!(data.channel_count, 0);
    assert_eq!(data.dm_channel_count, 0);
    assert_eq!(data.message_count, 0);
    assert_eq!(data.character_count, "orphaned message".len());
    assert_eq!(data.hours_values[5], 1);
    assert!(data.favorite_words.iter().any(|w| w.word == "orphaned"));
}

#[test]
fn dm_without_counterpart_joins_no_aggregate() {
    // both participants carry the user's own id: no counterpart resolves
    let archive = Archive::from_entries(vec![
        entry(
            "account/user.json",
            r#"{"id":"42","username":"u","discriminator":1,"payments":[]}"#,
        ),
        entry("servers/1000000000000001/guild.json", "{}"),
        entry("messages/c7777777777777777/", ""),
        entry(
            "messages/c7777777777777777/channel.json",
            r#"{"id":"7777777777777777","recipients":["42","42"]}"#,
        ),
        entry(
            "messages/c7777777777777777/messages.json",
            r#"[{"ID":1,"Timestamp":"t","Contents":"note to self"}]"#,
        ),
    ]);
    let parser = Parser::new();
    let mut sink = Recorder { events: Vec::new() };
    let data = parser.extract_data(&archive, None, &mut sink).unwrap();
    assert_eq!(data.dm_channel_count, 0);
    assert_eq!(data.channel_count, 0);
    assert_eq!(data.message_count, 0);
    assert_eq!(data.character_count, "note to self".len());
}

#[test]
fn duplicate_entry_names_first_wins() {
    let archive = Archive::from_entries(vec![
        entry("a/user.json", r#"{"first": true}"#),
        entry("a/user.json", r#"{"second": true}"#),
    ]);
    assert_eq!(archive.read_text("a/user.json").as_deref(), Some(r#"{"first": true}"#));
    assert_eq!(
        archive.read_binary("a/user.json"),
        Some(br#"{"first": true}"#.to_vec())
    );
}

#[test]
fn incomplete_user_record_is_not_stored() {
    // a user record missing required fields decodes as JSON but not as a
    // user: the feature stays unpopulated and the run continues
    let archive = Archive::from_entries(vec![
        entry("messages/c1111111111111111/channel.json", "{}"),
        entry("servers/1000000000000001/guild.json", "{}"),
        entry("account/user.json", r#"{"id": "1"}"#),
    ]);
    let parser = Parser::new();
    let mut sink = Recorder { events: Vec::new() };
    let data = parser.extract_data(&archive, None, &mut sink).unwrap();
    assert!(data.user.is_none());
    assert!(data.payments.total.is_empty());
}
