use localshare::common::{Files, Sessions, UploadQuery};
use localshare::localsend::upload_file_entry;
use localshare::sessions::{handle_incoming_request, saving_dir, PrepareUploadReply, PrepareUploadStep};
use localshare::strmap::StrMap;

fn files(names: &[(&str, &str)]) -> Files {
    let mut m = StrMap::new();
    for (id, name) in names {
        m.insert(id.to_string(), upload_file_entry(id.to_string(), name.to_string(), 10));
    }
    Files { files: m }
}

fn query(session: &str, file: &str, token: &str) -> UploadQuery {
    UploadQuery { sessionId: session.to_string(), fileId: file.to_string(), token: token.to_string() }
}

#[test]
fn a_new_session_waits_and_refuses_uploads() {
    let mut s = Sessions::new();
    let id = s.begin_prepare_upload();
    assert_eq!(id.len(), 64);
    assert!(id.chars().all(|c| c.is_ascii_hexdigit() && !c.is_ascii_uppercase()));
    match s.prepare_upload_step(&id, files(&[("f1", "a.txt")])) {
        PrepareUploadStep::Waiting(f) => assert_eq!(f.files.len(), 1),
        _ => panic!("expected to wait"),
    }
    assert_eq!(
        s.check_upload(&query(&id, "f1", "t")),
        Err("Session not accepted or user feedback not received".to_string())
    );
    assert_eq!(s.check_upload(&query("nope", "f1", "t")), Err("Session not found".to_string()));
}

#[test]
fn an_accepted_session_issues_one_token_per_file() {
    let mut s = Sessions::new();
    let id = s.begin_prepare_upload();
    assert_eq!(handle_incoming_request(&mut s, id.clone(), true), Ok("ok".to_string()));
    let tokens = match s.prepare_upload_step(&id, files(&[("f1", "a.txt"), ("f2", "b.bin")])) {
        PrepareUploadStep::Accepted(t) => t,
        _ => panic!("expected acceptance"),
    };
    assert_eq!(tokens.len(), 2);
    let t1 = tokens.get(&"f1".to_string()).unwrap().clone();
    let t2 = tokens.get(&"f2".to_string()).unwrap().clone();
    assert_eq!(t1.len(), 64);
    assert_ne!(t1, t2);
    assert_eq!(s.check_upload(&query(&id, "f1", &t1)), Ok("a.txt".to_string()));
    assert_eq!(s.check_upload(&query(&id, "f2", &t2)), Ok("b.bin".to_string()));
    assert_eq!(s.check_upload(&query(&id, "f1", &t2)), Err("Invalid token".to_string()));
    assert_eq!(s.check_upload(&query(&id, "f3", &t1)), Err("Invalid fileId".to_string()));
}

#[test]
fn accept_upload_uses_the_given_tokens_in_entry_order() {
    let mut s = Sessions::new();
    let id = "session".to_string();
    s.open_session(id.clone());
    let reply = s.accept_upload(&id, files(&[("f1", "a.txt"), ("f2", "b.txt")]), vec!["T1".to_string(), "T2".to_string()]);
    assert_eq!(reply.get(&"f1".to_string()), Some(&"T1".to_string()));
    assert_eq!(reply.get(&"f2".to_string()), Some(&"T2".to_string()));
    assert_eq!(s.check_upload(&query("session", "f2", "T2")), Ok("b.txt".to_string()));
    assert_eq!(
        s.upload_destination(&query("session", "f1", "T1"), Some("/sdcard/Download//".to_string())),
        Ok("/sdcard/Download/a.txt".to_string())
    );
    assert_eq!(s.upload_destination(&query("session", "f1", "T1"), None), Ok("/tmp/a.txt".to_string()));
    assert_eq!(
        s.upload_destination(&query("session", "f1", "T2"), None),
        Err("Invalid token".to_string())
    );
}

#[test]
fn a_rejected_session_is_dropped() {
    let mut s = Sessions::new();
    let id = s.begin_prepare_upload();
    handle_incoming_request(&mut s, id.clone(), false);
    assert_eq!(
        s.check_upload(&query(&id, "f1", "t")),
        Err("Session not accepted or user feedback not received".to_string())
    );
    match s.prepare_upload_step(&id, files(&[("f1", "a.txt")])) {
        PrepareUploadStep::Rejected => {}
        _ => panic!("expected rejection"),
    }
    assert!(!s.sessions.contains_key(&id));
    assert_eq!(s.check_upload(&query(&id, "f1", "t")), Err("Session not found".to_string()));
}

#[test]
fn answering_an_unknown_session_changes_nothing() {
    let mut s = Sessions::new();
    assert_eq!(handle_incoming_request(&mut s, "ghost".to_string(), true), Ok("ok".to_string()));
    assert_eq!(s.sessions.len(), 0);
}

#[test]
fn reply_texts_and_saving_dir() {
    assert_eq!(PrepareUploadReply::Rejected.error_message(), Some("User rejected the request".to_string()));
    assert_eq!(
        PrepareUploadReply::TimedOut.error_message(),
        Some("Timeout waiting for user to accept the request".to_string())
    );
    let acc = PrepareUploadReply::Accepted { session_id: "s".to_string(), files: StrMap::new() };
    assert_eq!(acc.error_message(), None);
    assert_eq!(saving_dir(None), "/tmp");
    assert_eq!(saving_dir(Some("/".to_string())), "");
    assert_eq!(saving_dir(Some("/data/".to_string())), "/data");
}
