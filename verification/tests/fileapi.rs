//! The Wi-Fi file API.

use luma_core::fileapi::{
    BASE_URL, DeleteReply, FileList, Folder, HOST, MediaKind, PASSPHRASE, PHONE_ADDRESS,
    ParseError, SyncPlan, SyncStep, Timestamp, base_url, delete_url, download_is_complete,
    download_path, download_url, expected_byte_range, json, list_url, parse_file_list,
    percent_encode_file_arg, thumbnail_url,
};

/// The listing from a live session: four photos in EVENT, three empty folders. Cut verbatim
/// from the HTTP body of a `/app/getfilelist` reply.
const LIVE_LISTING: &str = r#"{"result":0,"info":[{"folder":"EVENT","files":[{"name":"EVENT/20260727223717716.jpg","size":313,"createtimestr":"20260727223716","type":1},{"name":"EVENT/20260727223720719.jpg","size":338,"createtimestr":"20260727223720","type":1},{"name":"EVENT/20260727223853716.jpg","size":289,"createtimestr":"20260727223852","type":1},{"name":"EVENT/20260727223856717.jpg","size":270,"createtimestr":"20260727223856","type":1}],"count":4},{"folder":"AAC","files":[],"count":0},{"folder":"LOOP","files":[],"count":0},{"folder":"EMR","files":[],"count":0}]}"#;

const SPEC_SAMPLE: &str = r#"{"result":0,"info":[{"folder":"EVENT","files":[{"name":"EVENT/20260727225147720.jpg","size":378,"createtimestr":"20260727225146","type":1}],"count":2},{"folder":"AAC","files":[],"count":0},{"folder":"LOOP","files":[],"count":0},{"folder":"EMR","files":[],"count":0}]}"#;

#[test]
fn the_live_listing_parses_into_four_photos_and_three_empty_folders() {
    let list = FileList::parse(LIVE_LISTING).expect("a listing");
    assert_eq!(list.result, 0);
    assert_eq!(list.folders.len(), 4);
    assert_eq!(list.total_files(), 4);
    assert_eq!(list.files_in(Folder::Aac), &[]);
    assert_eq!(list.files_in(Folder::Loop), &[]);
    assert_eq!(list.files_in(Folder::Emr), &[]);

    let first = &list.files_in(Folder::Event)[0];
    assert_eq!(first.name, "EVENT/20260727223717716.jpg");
    assert_eq!(first.basename(), "20260727223717716.jpg");
    assert_eq!(first.size_kib, 313);
    assert_eq!(first.kind, MediaKind::Photo);
    assert_eq!(first.raw_type, 1);
    assert_eq!(
        first.created,
        Some(Timestamp {
            year: 2026,
            month: 7,
            day: 27,
            hour: 22,
            minute: 37,
            second: 16
        })
    );
    assert_eq!(first.created.unwrap().to_string(), "2026-07-27 22:37:16");
}

/// The four `Content-Length`s the four rows above actually downloaded as, in the same
/// session. This is the pair of numbers the KiB rule exists for.
#[test]
fn every_download_in_the_live_session_satisfies_the_kib_rule() {
    for (size_kib, bytes) in [
        (313u64, 320_900u64),
        (338, 346_328),
        (289, 296_340),
        (270, 277_308),
    ] {
        assert!(
            download_is_complete(size_kib, bytes),
            "{size_kib} KiB should accept {bytes} bytes"
        );
        assert_eq!(size_kib, bytes / 1024, "the listing is floor(bytes/1024)");
        assert!(!download_is_complete(size_kib, bytes - 1024));
        assert!(!download_is_complete(size_kib, bytes + 1024));
    }
}

#[test]
fn a_byte_exact_check_against_size_would_reject_every_download() {
    // The two wrong rules, stated so a future edit cannot quietly reintroduce one.
    assert!(!download_is_complete(313, 313));
    assert!(!download_is_complete(313, 313 * 1024 + 1024));
    assert_eq!(expected_byte_range(313), 320_512..=321_535);
    assert!(expected_byte_range(313).contains(&320_900));
}

#[test]
fn a_file_under_one_kib_lists_as_zero_and_still_has_a_range() {
    assert_eq!(expected_byte_range(0), 0..=1023);
    assert!(download_is_complete(0, 1));
    assert!(download_is_complete(0, 1023));
    assert!(!download_is_complete(0, 1024));
}

#[test]
fn the_spec_sample_parses_and_its_count_disagrees_with_its_rows() {
    let list = FileList::parse(SPEC_SAMPLE).expect("a listing");
    assert_eq!(list.total_files(), 1);
    let event = &list.folders[0];
    assert_eq!(event.count, 2);
    assert_eq!(event.files.len(), 1);
    assert!(
        !event.count_matches_rows(),
        "the device's own count is kept raw so the disagreement is visible"
    );
}

#[test]
fn field_order_does_not_matter_and_unknown_fields_are_ignored() {
    let shuffled = r#"{"info":[{"count":1,"unknown":{"a":[1,2,3]},"files":[{"type":1,"size":378,"unseen":null,"createtimestr":"20260727225146","name":"EVENT/20260727225147720.jpg"}],"folder":"EVENT"}],"result":0}"#;
    let list = FileList::parse(shuffled).expect("a listing");
    assert_eq!(list.total_files(), 1);
    assert_eq!(list.all_files()[0].size_kib, 378);
}

#[test]
fn an_entirely_empty_gallery_parses_as_four_empty_folders() {
    let empty = r#"{"result":0,"info":[{"folder":"EVENT","files":[],"count":0},{"folder":"AAC","files":[],"count":0},{"folder":"LOOP","files":[],"count":0},{"folder":"EMR","files":[],"count":0}]}"#;
    let list = FileList::parse(empty).expect("a listing");
    assert!(list.is_empty());
    assert_eq!(list.folders.len(), 4);
    assert_eq!(list.total_size_kib(), 0);
    assert_eq!(
        SyncPlan::for_list(&list, true).steps(),
        &[SyncStep::TearDown]
    );
}

#[test]
fn a_hundred_percent_ascii_name_survives_the_url_builders() {
    let name = "EVENT/20260727223717716.jpg";
    assert_eq!(
        thumbnail_url(name),
        "http://192.168.169.1/app/getthumbnail?file=EVENT/20260727223717716.jpg"
    );
    assert_eq!(
        download_url(name),
        "http://192.168.169.1/EVENT/20260727223717716.jpg"
    );
    assert_eq!(
        delete_url(name),
        "http://192.168.169.1/app/deletefile?file=EVENT/20260727223717716.jpg"
    );
    assert_eq!(list_url(), "http://192.168.169.1/app/getfilelist");
}

#[test]
fn anything_outside_the_unreserved_set_is_percent_encoded_but_the_slash_is_not() {
    assert_eq!(percent_encode_file_arg("EVENT/a b.jpg"), "EVENT/a%20b.jpg");
    assert_eq!(percent_encode_file_arg("EVENT/a&b=c"), "EVENT/a%26b%3Dc");
    assert_eq!(percent_encode_file_arg("EVENT/../etc"), "EVENT/../etc");
    assert_eq!(percent_encode_file_arg("A-Z_a.z~0"), "A-Z_a.z~0");
    // A leading slash in a name would otherwise produce `//EVENT/…`.
    assert_eq!(download_path("/EVENT/x.jpg"), "/EVENT/x.jpg");
}

#[test]
fn an_unknown_folder_is_rejected_rather_than_silently_dropped() {
    let body = r#"{"result":0,"info":[{"folder":"MOVIES","files":[],"count":0}]}"#;
    assert_eq!(
        FileList::parse(body),
        Err(ParseError::UnknownFolder {
            folder: "MOVIES".to_string()
        })
    );
}

#[test]
fn truncated_json_is_a_different_error_from_garbage() {
    let cut = &LIVE_LISTING[..LIVE_LISTING.len() - 20];
    assert_eq!(FileList::parse(cut), Err(ParseError::Truncated));
    assert_eq!(FileList::parse(""), Err(ParseError::Truncated));

    // A captive portal or an error page, which is what a wrong network actually returns.
    assert!(matches!(
        FileList::parse("<html><body>404</body></html>"),
        Err(ParseError::NotJson { at: 0 })
    ));
    assert!(matches!(
        FileList::parse(r#"{"result":0} trailing"#),
        Err(ParseError::TrailingBytes { .. })
    ));
}

#[test]
fn a_listing_missing_a_required_field_names_the_field() {
    assert_eq!(
        FileList::parse(r#"{"info":[]}"#),
        Err(ParseError::MissingField { field: "result" })
    );
    assert_eq!(
        FileList::parse(r#"{"result":0}"#),
        Err(ParseError::MissingField { field: "info" })
    );
    assert_eq!(
        FileList::parse(r#"{"result":0,"info":[{"folder":"EVENT","count":0}]}"#),
        Err(ParseError::MissingField { field: "files" })
    );
    assert_eq!(
        FileList::parse(r#"{"result":"0","info":[]}"#),
        Err(ParseError::WrongType {
            field: "result",
            expected: "a number"
        })
    );
}

#[test]
fn a_bad_createtimestr_leaves_the_row_usable_with_no_timestamp() {
    let body = r#"{"result":0,"info":[{"folder":"EVENT","count":1,"files":[{"name":"EVENT/x.jpg","size":1,"createtimestr":"nonsense","type":1}]}]}"#;
    let list = FileList::parse(body).expect("a listing");
    let row = list.all_files()[0];
    assert_eq!(
        row.created, None,
        "unparseable, not fatal — the file is still there"
    );
    assert_eq!(row.name, "EVENT/x.jpg");
}

#[test]
fn nesting_past_the_cap_is_refused_rather_than_overflowing_the_stack() {
    let deep = "[".repeat(json::MAX_DEPTH + 2);
    assert_eq!(json::parse(&deep), Err(ParseError::TooDeep));
}

/// The delete reply, cut verbatim from a live session.
#[test]
fn the_delete_reply_parses_and_result_zero_is_the_authority() {
    let reply = DeleteReply::parse(r#"{"result":0,"info":"success."}"#).expect("a reply");
    assert_eq!(reply.result, 0);
    assert_eq!(reply.info, DeleteReply::SUCCESS_INFO);
    assert!(reply.is_success());

    let failed = DeleteReply::parse(r#"{"result":-1,"info":"no such file"}"#).unwrap();
    assert!(!failed.is_success());

    // `info` is an array in the listing and a string here — one field name, two shapes.
    assert_eq!(
        DeleteReply::parse(r#"{"result":0,"info":[]}"#),
        Err(ParseError::WrongType {
            field: "info",
            expected: "a string"
        })
    );
}

#[test]
fn a_folder_knows_what_it_holds_and_a_name_knows_its_folder() {
    assert_eq!(Folder::Event.holds(), MediaKind::Photo);
    assert_eq!(Folder::Aac.holds(), MediaKind::VoiceRecording);
    assert_eq!(Folder::Loop.holds(), MediaKind::VideoClip);
    assert_eq!(Folder::Emr.holds(), MediaKind::Emergency);
    assert_eq!(Folder::of_name("AAC/2026.aac"), Some(Folder::Aac));
    assert_eq!(Folder::of_name("nope/x"), None);
    for f in Folder::ALL {
        assert_eq!(Folder::from_name(f.name()), Some(f));
    }
    assert_eq!(Folder::from_name("event"), None, "the wire is upper case");
}

#[test]
fn the_sync_plan_lists_then_thumbnails_then_downloads_each_file_before_deleting_it() {
    let list = FileList::parse(SPEC_SAMPLE).unwrap();
    let plan = SyncPlan::full(&list, true);
    assert_eq!(
        plan.steps(),
        &[
            SyncStep::List,
            SyncStep::Thumbnail {
                name: "EVENT/20260727225147720.jpg".into()
            },
            SyncStep::Download {
                name: "EVENT/20260727225147720.jpg".into(),
                size_kib: 378
            },
            SyncStep::Delete {
                name: "EVENT/20260727225147720.jpg".into()
            },
            SyncStep::TearDown,
        ]
    );
    assert_eq!(plan.max_download_bytes(), 378 * 1024 + 1023);
}

#[test]
fn a_read_only_sync_plan_never_emits_a_delete() {
    let list = FileList::parse(LIVE_LISTING).unwrap();
    let plan = SyncPlan::for_list(&list, false);
    assert!(!plan.iter().any(|s| matches!(s, SyncStep::Delete { .. })));
    assert_eq!(plan.len(), 4 + 4 + 1);
    assert_eq!(plan.steps().last(), Some(&SyncStep::TearDown));
}

#[test]
fn the_ap_facts_are_the_ones_in_the_protocol_reference() {
    assert_eq!(HOST, "192.168.169.1");
    assert_eq!(PHONE_ADDRESS, "192.168.169.100");
    assert_eq!(PASSPHRASE, "12345678");
    assert_eq!(BASE_URL, base_url(HOST));
}

#[test]
fn the_kib_rule_is_floor_division() {
    for bytes in [0u64, 1023, 1024, 320_900, 1_048_575] {
        assert!(download_is_complete(bytes / 1024, bytes));
        assert!(!download_is_complete(bytes / 1024 + 1, bytes));
    }
}

#[test]
fn every_delete_follows_the_download_of_the_same_file() {
    let list = FileList::parse(LIVE_LISTING).unwrap();
    let plan = SyncPlan::full(&list, true);
    let steps = plan.steps();
    for (i, step) in steps.iter().enumerate() {
        if let SyncStep::Delete { name } = step {
            assert!(matches!(&steps[i - 1], SyncStep::Download { name: n, .. } if n == name));
        }
    }
    for f in list.all_files() {
        assert!(steps.contains(&SyncStep::Thumbnail { name: f.name.clone() }));
        assert!(steps
            .contains(&SyncStep::Download { name: f.name.clone(), size_kib: f.size_kib }));
    }
    assert_eq!(plan.max_download_bytes(), (313 + 338 + 289 + 270) * 1024 + 4 * 1023);
    assert_eq!(SyncPlan::from_cold().steps(), &[SyncStep::List]);
}

#[test]
fn a_timestamp_survives_its_wire_form() {
    let t = Timestamp { year: 7, month: 12, day: 31, hour: 23, minute: 59, second: 60 };
    assert_eq!(t.to_compact(), "00071231235960");
    assert_eq!(Timestamp::parse(&t.to_compact()), Some(t));
    assert_eq!(Timestamp::parse("20261331000000"), None, "month 13");
    assert_eq!(Timestamp::parse("2026013100000"), None, "thirteen digits");
}

#[test]
fn percent_encoding_leaves_only_what_stands_for_itself() {
    let coded = percent_encode_file_arg("EVENT/é ?#\u{0}.jpg");
    assert_eq!(coded, "EVENT/%C3%A9%20%3F%23%00.jpg");
    assert_eq!(percent_encode_file_arg(&coded.replace('%', "")), coded.replace('%', ""));
}

#[test]
fn every_prefix_of_a_reply_can_be_waited_on() {
    let body = r#"{"result":0,"info":"aé\"b"}"#;
    for (n, _) in body.char_indices() {
        assert_eq!(json::parse(&body[..n]), Err(ParseError::Truncated), "{n} bytes");
    }
    assert!(json::parse(body).is_ok());
}

#[test]
fn escapes_and_raw_text_give_their_characters() {
    let reply = DeleteReply::parse(r#"{"result":0,"info":"Aé\ud83d é\n\/"}"#).unwrap();
    assert_eq!(reply.info, "Aé\u{FFFD} é\n/");
    assert_eq!(
        DeleteReply::parse(r#"{"result":0,"info":"\x"}"#),
        Err(ParseError::NotJson { at: 22 })
    );
    assert_eq!(
        DeleteReply::parse(r#"{"result":0,"info":"\u+04g"}"#),
        Err(ParseError::NotJson { at: 22 })
    );
    assert_eq!(DeleteReply::parse(r#"{"result":0,"info":"\u+041"}"#).unwrap().info, "A");
}

#[test]
fn each_way_a_reply_fails_has_its_own_error_and_its_own_words() {
    let cases: [(&str, ParseError, &str); 7] = [
        ("nope", ParseError::NotJson { at: 0 }, "not JSON, at byte 0"),
        ("{", ParseError::Truncated, "JSON ended early"),
        ("{} x", ParseError::TrailingBytes { at: 3 }, "trailing bytes at 3"),
        ("{}", ParseError::MissingField { field: "result" }, "missing field `result`"),
        (
            r#"{"result":"0"}"#,
            ParseError::WrongType { field: "result", expected: "a number" },
            "field `result` is not a number",
        ),
        (
            r#"{"result":1.5}"#,
            ParseError::BadNumber { field: "result" },
            "field `result` is not an integer",
        ),
        (
            r#"{"result":0,"info":[{"folder":"X","files":[],"count":0}]}"#,
            ParseError::UnknownFolder { folder: "X".to_string() },
            "unknown folder `X`",
        ),
    ];
    for (body, error, words) in cases {
        assert_eq!(FileList::parse(body), Err(error.clone()), "{body}");
        assert_eq!(error.to_string(), words);
    }
    assert_eq!(ParseError::TooDeep.to_string(), "nested deeper than 32");
}

#[test]
fn a_sign_with_no_digits_yet_can_still_become_a_number() {
    assert_eq!(json::parse("-"), Err(ParseError::Truncated));
    assert_eq!(json::parse("-x"), Err(ParseError::NotJson { at: 1 }));
    assert_eq!(json::parse("-12").unwrap().as_i64(), Some(-12));
    assert_eq!(json::parse("9223372036854775808").unwrap().as_i64(), None);
}

#[test]
fn nesting_up_to_the_cap_is_accepted() {
    let body = format!("{}{}", "[".repeat(json::MAX_DEPTH), "]".repeat(json::MAX_DEPTH));
    assert!(json::parse(&body).is_ok());
    let body = format!("{}{}", "[".repeat(json::MAX_DEPTH + 1), "]".repeat(json::MAX_DEPTH + 1));
    assert_eq!(json::parse(&body), Err(ParseError::TooDeep));
}

#[test]
fn a_row_is_found_by_its_name() {
    let list = parse_file_list(LIVE_LISTING).unwrap();
    assert_eq!(list.find("EVENT/20260727223853716.jpg").map(|f| f.size_kib), Some(289));
    assert_eq!(list.find("EVENT/none.jpg"), None);
    assert_eq!(list.total_size_kib(), 313 + 338 + 289 + 270);
    assert!(!list.is_empty());
    let f = list.all_files()[0];
    assert!(f.download_is_complete(320_900));
    assert_eq!(f.expected_byte_range(), 320_512..=321_535);
}

#[test]
fn the_largest_listing_size_has_a_range() {
    assert!(!download_is_complete(u64::MAX, 0));
    assert!(expected_byte_range(u64::MAX).contains(&u64::MAX));
}

#[test]
fn a_listing_shuffled_and_padded_at_every_level_reads_the_same() {
    let plain = r#"{"result":0,"info":[{"folder":"EVENT","count":7,"files":[{"name":"EVENT/a.jpg","size":3,"type":1,"createtimestr":"20260727225146"},{"name":"EVENT/b.jpg","size":4}]},{"folder":"AAC","files":[]}]}"#;
    let other = r#"{"new":[{}],"info":[{"files":[{"x":{"name":0},"createtimestr":"20260727225146","type":1,"size":3,"name":"EVENT/a.jpg"},{"size":4,"y":null,"name":"EVENT/b.jpg"}],"z":[1,2],"count":7,"folder":"EVENT"},{"files":[],"w":true,"folder":"AAC"}],"result":0}"#;
    let list = FileList::parse(plain).unwrap();
    assert_eq!(FileList::parse(other), Ok(list.clone()));
    assert_eq!(list.folders[0].count, 7);
    assert_eq!(list.folders[0].files.len(), 2);
}
