use stoclove::domain::error::DomainError;
use stoclove::infra::sync::{
    build_multipart, download_url, export_path, file_query, first_file_id, folder_query,
    remote_path, upload_metadata, upload_url, DriveRequest, DriveSession, DriveStage, DriveSync, DriveTask, SyncStep,
    APP_FOLDER_NAME, DB_FILENAME, FOLDER_MIME_TYPE, UPLOAD_CONTENT_TYPE,
};

fn value(text: &str) -> serde_json::Value {
    serde_json::from_str(text).expect("a JSON value")
}

#[test]
fn requests_show_the_token() {
    assert_eq!(DriveSync::new("abc".to_string()).auth_header(), "Bearer abc");
}

#[test]
fn queries_name_the_folder_and_the_file() {
    assert_eq!(
        folder_query(),
        "name='stoclove-sync' and mimeType='application/vnd.google-apps.folder' and trashed=false"
    );
    assert_eq!(file_query("F1"), "name='stoclove.sqlite' and 'F1' in parents and trashed=false");
    assert_eq!(APP_FOLDER_NAME, "stoclove-sync");
    assert_eq!(DB_FILENAME, "stoclove.sqlite");
    assert_eq!(FOLDER_MIME_TYPE, "application/vnd.google-apps.folder");
}

#[test]
fn addresses_name_the_file() {
    assert_eq!(
        upload_url(&Some("X".to_string())),
        "https://www.googleapis.com/upload/drive/v3/files/X?uploadType=multipart"
    );
    assert_eq!(
        upload_url(&None),
        "https://www.googleapis.com/upload/drive/v3/files?uploadType=multipart"
    );
    assert_eq!(download_url("X"), "https://www.googleapis.com/drive/v3/files/X?alt=media");
    assert_eq!(UPLOAD_CONTENT_TYPE, "multipart/related; boundary=boundary_stoclove");
}

#[test]
fn the_first_file_counts() {
    assert_eq!(first_file_id(&value("{\"files\": [{\"id\": \"1\"}, {\"id\": \"2\"}]}")), Some("1".to_string()));
    for bad in ["{}", "{\"files\": []}", "{\"files\": [{}, {\"id\": \"2\"}]}", "{\"files\": [{\"id\": 3}]}", "[]"] {
        assert_eq!(first_file_id(&value(bad)), None, "{}", bad);
    }
}

#[test]
fn an_upload_has_two_parts() {
    let body = build_multipart("{\"name\":\"卵\"}", &[0, 255, 13, 10]);
    let mut expected = Vec::new();
    expected.extend_from_slice(
        "--boundary_stoclove\r\nContent-Type: application/json; charset=UTF-8\r\n\r\n{\"name\":\"卵\"}\r\n--boundary_stoclove\r\nContent-Type: application/x-sqlite3\r\n\r\n"
            .as_bytes(),
    );
    let start = expected.len();
    expected.extend_from_slice(&[0, 255, 13, 10]);
    expected.extend_from_slice(b"\r\n--boundary_stoclove--");
    assert_eq!(body, expected);
    assert_eq!(&body[start..start + 4], &[0, 255, 13, 10]);
}

#[test]
fn the_metadata_names_the_file_and_the_folder() {
    assert_eq!(upload_metadata("F1"), "{\"name\":\"stoclove.sqlite\",\"parents\":[\"F1\"]}");
    assert_eq!(
        upload_metadata("a\"\\\n\u{1f}"),
        "{\"name\":\"stoclove.sqlite\",\"parents\":[\"a\\\"\\\\\\n\\u001f\"]}"
    );
}

/// A text as a JSON string, character by character.
fn quoted(text: &str) -> String {
    let mut out = String::from("\"");
    for c in text.chars() {
        match c {
            '"' => out.push_str("\\\""),
            '\\' => out.push_str("\\\\"),
            '\n' => out.push_str("\\n"),
            '\r' => out.push_str("\\r"),
            '\t' => out.push_str("\\t"),
            '\u{8}' => out.push_str("\\b"),
            '\u{c}' => out.push_str("\\f"),
            c if (c as u32) < 0x20 => out.push_str(&format!("\\u{:04x}", c as u32)),
            c => out.push(c),
        }
    }
    out.push('"');
    out
}

#[test]
fn every_folder_id_is_escaped_and_read_back() {
    let all: String = (0..=0xffff_u32).filter_map(char::from_u32).collect();
    for id in [all.as_str(), "", "卵😀", "plain-ID_1"] {
        let text = upload_metadata(id);
        assert_eq!(
            text,
            format!("{{\"name\":\"stoclove.sqlite\",\"parents\":[{}]}}", quoted(id))
        );
        let back = value(&text);
        assert_eq!(back["name"].as_str(), Some("stoclove.sqlite"));
        assert_eq!(back["parents"][0].as_str(), Some(id));
        assert_eq!(back.to_string(), text);
    }
}

#[test]
fn an_upload_over_a_file_that_is_there() {
    let mut s = DriveSession::begin(DriveTask::Upload);
    match s.request() {
        DriveRequest::List { query, fields } => {
            assert_eq!(query, folder_query());
            assert_eq!(fields, "files(id,name)");
        }
        _ => panic!("a list was due"),
    }
    s.reply(&value("{\"files\": [{\"id\": \"F\", \"name\": \"stoclove-sync\"}]}")).expect("in order");
    assert_eq!(s.folder_id, "F");
    match s.request() {
        DriveRequest::List { query, fields } => {
            assert_eq!(query, file_query("F"));
            assert_eq!(fields, "files(id)");
        }
        _ => panic!("a list was due"),
    }
    s.reply(&value("{\"files\": [{\"id\": \"D\"}]}")).expect("in order");
    match s.request() {
        DriveRequest::Update { url } => assert_eq!(url, upload_url(&Some("D".to_string()))),
        _ => panic!("an update was due"),
    }
    s.reply(&value("{}")).expect("in order");
    assert_eq!(s.stage, DriveStage::Transfer);
}

#[test]
fn an_upload_makes_the_folder_and_the_file() {
    let mut s = DriveSession::begin(DriveTask::Upload);
    s.reply(&value("{\"files\": []}")).expect("in order");
    assert!(matches!(s.request(), DriveRequest::CreateFolder));
    s.reply(&value("{\"id\": \"N\"}")).expect("in order");
    s.reply(&value("{\"files\": []}")).expect("in order");
    match s.request() {
        DriveRequest::Create { url } => assert_eq!(url, upload_url(&None)),
        _ => panic!("a new file was due"),
    }
}

#[test]
fn a_folder_without_an_id_is_an_error() {
    let mut s = DriveSession::begin(DriveTask::Download);
    s.reply(&value("{}")).expect("in order");
    match s.reply(&value("{\"name\": \"x\"}")) {
        Err(DomainError::SyncError(d)) => assert_eq!(d, "No id in folder create response"),
        _ => panic!("an error was due"),
    }
    assert_eq!(s.stage, DriveStage::MakeFolder);
}

#[test]
fn a_transfer_goes_by_the_ids_that_it_is_told() {
    let id = |s: &str| Some(s.to_string());
    let mut s = DriveSession::begin(DriveTask::Download);
    s.tell(None, id("unasked")).expect("in order");
    assert_eq!(s.stage, DriveStage::MakeFolder);
    assert!(s.tell(id("unasked"), None).is_err());
    s.tell(None, id("N")).expect("in order");
    assert_eq!(s.folder_id, "N");
    assert!(s.tell(None, id("unasked")).is_err());
    s.tell(id("D"), None).expect("in order");
    assert_eq!(s.file_id, id("D"));
    assert_eq!(s.stage, DriveStage::Transfer);
}

#[test]
fn a_download_needs_the_file() {
    let mut s = DriveSession::begin(DriveTask::Download);
    s.reply(&value("{\"files\": [{\"id\": \"F\"}]}")).expect("in order");
    match s.reply(&value("{\"files\": []}")) {
        Err(DomainError::SyncError(d)) => assert_eq!(d, "No remote DB file found in Drive"),
        _ => panic!("an error was due"),
    }
    s.reply(&value("{\"files\": [{\"id\": \"D\"}]}")).expect("in order");
    match s.request() {
        DriveRequest::Fetch { url } => assert_eq!(url, download_url("D")),
        _ => panic!("a download was due"),
    }
}

#[test]
fn a_synchronisation_goes_step_by_step() {
    let mut all = vec![SyncStep::Download];
    while all[all.len() - 1] != SyncStep::Done {
        let last = all[all.len() - 1];
        all.push(last.after(true));
    }
    assert_eq!(
        all,
        vec![
            SyncStep::Download,
            SyncStep::Merge,
            SyncStep::RemoveDownload,
            SyncStep::Export,
            SyncStep::Upload,
            SyncStep::RemoveExport,
            SyncStep::Done,
        ]
    );
}

#[test]
fn a_synchronisation_stops_where_it_must() {
    assert_eq!(SyncStep::Download.after(false), SyncStep::Export);
    assert_eq!(SyncStep::Merge.after(false), SyncStep::Failed);
    assert_eq!(SyncStep::RemoveDownload.after(false), SyncStep::Export);
    assert_eq!(SyncStep::Export.after(false), SyncStep::Failed);
    assert_eq!(SyncStep::Upload.after(false), SyncStep::Failed);
    assert_eq!(SyncStep::RemoveExport.after(false), SyncStep::Done);
    assert_eq!(SyncStep::Done.after(false), SyncStep::Done);
    assert_eq!(SyncStep::Failed.after(true), SyncStep::Failed);
}

#[test]
fn files_lie_beside_the_database() {
    assert_eq!(remote_path("/d/stoclove.sqlite"), "/d/stoclove.sqlite.remote.sqlite");
    assert_eq!(export_path("/d/stoclove.sqlite"), "/d/stoclove.sqlite.export.sqlite");
}
