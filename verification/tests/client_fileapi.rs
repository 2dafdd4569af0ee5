//! What the Wi-Fi file client decides.

use luma_core::client::fileapi::{
    ClientError, FileClient, MAX_BODY_BYTES, REACH_TIMEOUT, REQUEST_TIMEOUT, SyncAction,
    SyncOutcome, SyncReport, SyncRun,
};
use luma_core::fileapi::{DeleteReply, FileList, ParseError, base_url};

#[test]
fn a_client_addresses_the_glasses_at_the_documented_host() {
    let c = FileClient::new();
    assert_eq!(c.host(), luma_core::fileapi::HOST);
    assert_eq!(c.base_url(), "http://192.168.169.1");
}

#[test]
fn a_client_can_be_pointed_at_a_replay_host_without_touching_the_url_builders() {
    let c = FileClient::with_host("127.0.0.1:8080");
    assert_eq!(c.base_url(), "http://127.0.0.1:8080");
    assert_eq!(
        luma_core::fileapi::list_url_on(c.host()),
        "http://127.0.0.1:8080/app/getfilelist"
    );
}

#[test]
fn a_short_download_error_says_what_it_expected() {
    let e = ClientError::ShortDownload {
        name: "EVENT/x.jpg".into(),
        size_kib: 313,
        bytes: 12,
    };
    assert_eq!(
        e.to_string(),
        "EVENT/x.jpg: got 12 bytes, a 313 KiB listing means 320512..=321535"
    );
}

const ONE_FILE: &str = r#"{"result":0,"info":[{"folder":"EVENT","count":1,"files":[{"name":"EVENT/x.jpg","size":1,"createtimestr":"20260727225146","type":1}]}]}"#;

#[test]
fn a_listing_reply_with_bad_bytes_is_read_with_them_replaced() {
    let c = FileClient::new();
    assert_eq!(c.list_reply(ONE_FILE.as_bytes()).unwrap().all_files()[0].name, "EVENT/x.jpg");
    let body = b"{\"result\":0,\"info\":[{\"folder\":\"\xFF\",\"files\":[],\"count\":0}]}";
    assert_eq!(
        c.list_reply(body),
        Err(ClientError::Parse {
            url: "http://192.168.169.1/app/getfilelist".into(),
            source: ParseError::UnknownFolder { folder: "\u{FFFD}".into() },
        })
    );
}

#[test]
fn a_delete_reply_that_says_no_is_an_error() {
    let c = FileClient::default();
    assert!(c.delete_reply("EVENT/x.jpg", br#"{"result":0,"info":"success."}"#).is_ok());
    let e = c.delete_reply("EVENT/x.jpg", b"{\"result\":-1,\"info\":\"no\xFF\"}").unwrap_err();
    assert_eq!(e.to_string(), "EVENT/x.jpg: delete returned -1 (no\u{FFFD})");
    let e = c.delete_reply("EVENT/x y.jpg", b"<html>").unwrap_err();
    assert_eq!(
        e,
        ClientError::Parse {
            url: "http://192.168.169.1/app/deletefile?file=EVENT/x%20y.jpg".into(),
            source: ParseError::NotJson { at: 0 },
        }
    );
}

#[test]
fn a_status_outside_the_two_hundreds_is_an_error() {
    let c = FileClient::new();
    assert_eq!(c.check_status("u", 200), Ok(()));
    assert_eq!(c.check_status("u", 299), Ok(()));
    for status in [199u16, 300, 404] {
        assert_eq!(
            c.check_status("u", status),
            Err(ClientError::Status { url: "u".into(), status })
        );
    }
}

#[test]
fn a_body_of_the_wrong_length_is_refused() {
    let c = FileClient::new();
    assert_eq!(c.download_reply("n", 0, vec![1; 1023]), Ok(vec![1; 1023]));
    assert_eq!(
        c.download_reply("n", 0, vec![1; 1024]),
        Err(ClientError::ShortDownload { name: "n".into(), size_kib: 0, bytes: 1024 })
    );
}

#[test]
fn each_client_error_has_its_own_words() {
    let url = || "http://h".to_string();
    assert_eq!(
        ClientError::Transport { url: url(), detail: "refused".into() }.to_string(),
        "http://h: refused"
    );
    assert_eq!(ClientError::Status { url: url(), status: 404 }.to_string(), "http://h: HTTP 404");
    assert_eq!(
        ClientError::Parse { url: url(), source: ParseError::Truncated }.to_string(),
        "http://h: JSON ended early"
    );
    assert_eq!(
        ClientError::Io { path: "/tmp/x".into(), detail: "denied".into() }.to_string(),
        "/tmp/x: denied"
    );
    let reply = DeleteReply { result: 3, info: "busy".into() };
    assert_eq!(
        ClientError::DeleteRefused { name: "n".into(), reply }.to_string(),
        "n: delete returned 3 (busy)"
    );
}

#[test]
fn a_sync_deletes_only_what_landed_and_goes_on_after_a_failure() {
    let list = FileList::parse(&ONE_FILE.replace(
        r#"{"name":"EVENT/x.jpg","size":1,"createtimestr":"20260727225146","type":1}"#,
        r#"{"name":"a","size":1,"createtimestr":"","type":1},{"name":"b","size":1,"createtimestr":"","type":1}"#,
    ))
    .unwrap();
    let files = list.all_files();
    let mut run = SyncRun::new(&files, true);
    assert_eq!(run.action(), SyncAction::Download(0));
    run.take(SyncOutcome::DownloadFailed { detail: "short".into() });
    assert_eq!(run.action(), SyncAction::Download(1), "what did not land is never deleted");
    run.take(SyncOutcome::Downloaded { path: "/d/b".into(), bytes: 5 });
    assert_eq!(run.action(), SyncAction::Delete(1));
    run.take(SyncOutcome::Deleted);
    assert_eq!(run.action(), SyncAction::Done);
    let report = run.report();
    assert_eq!(report.downloaded, vec!["/d/b".to_string()]);
    assert_eq!(report.deleted, vec!["b".to_string()]);
    assert_eq!(report.bytes, 5);
    assert_eq!(report.failures, vec![("a".to_string(), "short".to_string())]);
    assert!(!report.is_clean());
}

#[test]
fn a_clean_report_is_the_whole_gallery() {
    let list = FileList::parse(ONE_FILE).unwrap();
    let files = list.all_files();
    for delete_after in [false, true] {
        let mut run = SyncRun::new(&files, delete_after);
        run.take(SyncOutcome::Downloaded { path: "x.jpg".into(), bytes: 1_500 });
        if delete_after {
            run.take(SyncOutcome::Deleted);
        }
        assert_eq!(run.action(), SyncAction::Done);
        assert!(run.report().is_clean());
        assert_eq!(run.report().downloaded.len(), 1);
        assert_eq!(run.report().deleted.len(), usize::from(delete_after));
    }
    assert!(SyncReport::default().is_clean());
    assert_eq!((MAX_BODY_BYTES, REQUEST_TIMEOUT, REACH_TIMEOUT), (512 * 1024 * 1024, 60_000, 3_000));
}
