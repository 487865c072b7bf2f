//! Tests of the framing discipline, the wire envelopes, the session
//! state machine and the authentication handshake.

use std::num::NonZeroU32;

use rustbase_cli::auth::{
    apply_handshake, handle_server_final, handle_server_first, start_handshake, AuthError,
};
use rustbase_cli::framing::{FrameReader, FrameState, BUFFER_SIZE};
use rustbase_cli::render::to_text;
use rustbase_cli::session::{
    check_frame_complete, connect_plan, AuthConfig, AuthState, ClientError, Rustbase,
    RustbaseConfig, TlsConfig,
};
use rustbase_cli::value::Value;
use rustbase_cli::wire::{build_query_request, render_response, ResHeader, Response, Status, Type};

#[test]
fn framing_three_chunks_reconstructs_concatenation() {
    let a = vec![1u8; BUFFER_SIZE];
    let b = vec![2u8; BUFFER_SIZE];
    let c = vec![3u8; 17];
    let mut reader = FrameReader::new();
    reader.feed(&a);
    assert!(reader.wants_more());
    reader.feed(&b);
    assert!(reader.wants_more());
    reader.feed(&c);
    assert!(!reader.wants_more());
    let (data, state) = reader.into_message();
    assert_eq!(state, FrameState::Complete);
    assert_eq!(data.len(), 2 * BUFFER_SIZE + 17);
    assert_eq!(&data[..BUFFER_SIZE], &a[..]);
    assert_eq!(&data[BUFFER_SIZE..2 * BUFFER_SIZE], &b[..]);
    assert_eq!(&data[2 * BUFFER_SIZE..], &c[..]);
}

#[test]
fn framing_zero_chunk_reports_closed() {
    let mut reader = FrameReader::new();
    reader.feed(&[]);
    assert!(!reader.wants_more());
    let (data, state) = reader.into_message();
    assert_eq!(state, FrameState::Closed);
    assert!(data.is_empty());
}

#[test]
fn framing_boundary_chunk_keeps_reading() {
    // a message ending exactly on the buffer boundary is indistinguishable
    // from more data following: the reader keeps waiting until the peer
    // closes, and the close is reported, never an empty success
    let full = vec![9u8; BUFFER_SIZE];
    let mut reader = FrameReader::new();
    reader.feed(&full);
    assert!(reader.wants_more());
    reader.feed(&[]);
    let (data, state) = reader.into_message();
    assert_eq!(state, FrameState::Closed);
    assert_eq!(data, full);
    assert_eq!(check_frame_complete(state), Err(ClientError::ConnectionClosed));
}

#[test]
fn incomplete_frame_is_connection_closed() {
    assert_eq!(
        check_frame_complete(FrameState::Closed),
        Err(ClientError::ConnectionClosed)
    );
    assert_eq!(
        check_frame_complete(FrameState::Reading),
        Err(ClientError::ConnectionClosed)
    );
    assert_eq!(check_frame_complete(FrameState::Complete), Ok(()));
    assert!(!ClientError::ConnectionClosed.message().is_empty());
    assert!(!ClientError::BadResponse.message().is_empty());
    assert!(!ClientError::NotReady.message().is_empty());
}

#[test]
fn syntax_error_renders_two_lines() {
    let resp = Response {
        header: ResHeader {
            status: Status::SyntaxError,
            messages: Some(vec![
                "unexpected token".to_string(),
                "expected a closing parenthesis".to_string(),
            ]),
            is_error: true,
        },
        body: None,
    };
    let lines = render_response(&resp);
    assert_eq!(lines.len(), 2);
    assert_eq!(lines[0], "unexpected token");
    assert_eq!(lines[1], "expected a closing parenthesis");
}

#[test]
fn success_with_body_renders_document() {
    let doc = Value::Object(vec![("answer".to_string(), Value::Int(42))]);
    let expected = to_text(&doc);
    let resp = Response {
        header: ResHeader { status: Status::Okay, messages: None, is_error: false },
        body: Some(doc),
    };
    let lines = render_response(&resp);
    assert_eq!(lines.len(), 1);
    assert_eq!(lines[0], expected);
    assert_eq!(lines[0], "{\"answer\":42}");
}

#[test]
fn success_without_body_renders_status_name() {
    let resp = Response {
        header: ResHeader { status: Status::Inserted, messages: None, is_error: false },
        body: None,
    };
    assert_eq!(render_response(&resp), vec!["Inserted".to_string()]);
}

#[test]
fn error_without_messages_renders_nothing() {
    let resp = Response {
        header: ResHeader { status: Status::NotFound, messages: None, is_error: true },
        body: None,
    };
    assert_eq!(render_response(&resp).len(), 0);
}

#[test]
fn query_request_has_expected_shape() {
    let req = build_query_request("get(\"k\")", "mydb");
    assert_eq!(req.header.type_, Type::Query);
    assert_eq!(req.header.auth, None);
    assert_eq!(
        req.body,
        Value::Object(vec![
            ("query".to_string(), Value::Str("get(\"k\")".to_string())),
            ("database".to_string(), Value::Str("mydb".to_string())),
        ])
    );
}

#[test]
fn session_refuses_queries_before_and_after_failure() {
    let mut session = Rustbase::new("db".to_string());
    assert!(session.request_query("get(\"k\")").is_ok());
    session.auth_state = AuthState::Authenticating;
    assert_eq!(
        session.request_query("get(\"k\")").err(),
        Some(ClientError::NotReady)
    );
    session.auth_state = AuthState::Failed;
    assert_eq!(
        session.request_query("get(\"k\")").err(),
        Some(ClientError::NotReady)
    );
    session.auth_state = AuthState::Authenticated;
    let req = session.request_query("get(\"k\")").unwrap();
    assert_eq!(req.header.type_, Type::Query);
}

#[test]
fn switch_database_changes_only_the_name() {
    let mut session = Rustbase::new("one".to_string());
    session.auth_state = AuthState::Authenticated;
    session.switch_database("two".to_string());
    assert_eq!(session.database, "two");
    assert_eq!(session.auth_state, AuthState::Authenticated);
}

#[test]
fn connect_plan_follows_configuration() {
    let plain = RustbaseConfig {
        tls: None,
        host: "localhost".to_string(),
        port: "23561".to_string(),
        database: "db".to_string(),
        auth: None,
    };
    let plan = connect_plan(&plain);
    assert!(!plan.use_tls);
    assert_eq!(plan.ca_file, None);
    assert!(!plan.authenticate);

    let secured = RustbaseConfig {
        tls: Some(TlsConfig { ca_file: "/tmp/ca.pem".to_string() }),
        host: "localhost".to_string(),
        port: "23561".to_string(),
        database: "db".to_string(),
        auth: Some(AuthConfig {
            username: "admin".to_string(),
            password: "hunter2".to_string(),
        }),
    };
    let plan = connect_plan(&secured);
    assert!(plan.use_tls);
    assert_eq!(plan.ca_file, Some("/tmp/ca.pem".to_string()));
    assert!(plan.authenticate);
}

#[test]
fn status_names_render() {
    assert_eq!(Status::Okay.name(), "Ok");
    assert_eq!(Status::SyntaxError.name(), "SyntaxError");
    assert!(Status::Okay.success());
    assert!(Status::Updated.success());
    assert!(!Status::InternalError.success());
}

struct OneUser;

impl scram::AuthenticationProvider for OneUser {
    fn get_password_for(&self, username: &str) -> Option<scram::PasswordInfo> {
        if username != "admin" {
            return None;
        }
        let salt = b"0123456789abcdef".to_vec();
        let hashed =
            scram::hash_password("hunter2", NonZeroU32::new(4096).unwrap(), &salt);
        Some(scram::PasswordInfo::new(hashed.to_vec(), 4096, salt))
    }
}

#[test]
fn scram_handshake_authenticates_against_scripted_server() {
    let cfg = AuthConfig { username: "admin".to_string(), password: "hunter2".to_string() };
    let (step, client_first) = start_handshake(&cfg);
    // the first client message: gs2 header, username, fresh nonce
    assert!(client_first.starts_with("n,,n=admin,r="));

    let server = scram::ScramServer::new(OneUser);
    let server_state = server.handle_client_first(&client_first).unwrap();
    let (server_state, server_first) = server_state.server_first();

    let (step, client_final) = handle_server_first(step, &server_first);
    let client_final = client_final.unwrap();
    // the final client message carries the channel binding and the proof
    assert!(client_final.starts_with("c=biws,r="));
    assert!(client_final.contains(",p="));

    let server_state = server_state.handle_client_final(&client_final).unwrap();
    let (status, server_final) = server_state.server_final();
    assert_eq!(status, scram::AuthenticationStatus::Authenticated);

    let (step, outcome) = handle_server_final(step, &server_final);
    assert!(outcome.is_ok());

    let mut session = Rustbase::new("db".to_string());
    apply_handshake(&mut session, &step);
    assert_eq!(session.auth_state, AuthState::Authenticated);
    assert!(session.request_query("get(\"k\")").is_ok());
}

#[test]
fn scram_corrupted_signature_fails_closed() {
    let cfg = AuthConfig { username: "admin".to_string(), password: "hunter2".to_string() };
    let (step, client_first) = start_handshake(&cfg);

    let server = scram::ScramServer::new(OneUser);
    let server_state = server.handle_client_first(&client_first).unwrap();
    let (server_state, server_first) = server_state.server_first();

    let (step, client_final) = handle_server_first(step, &server_first);
    let client_final = client_final.unwrap();

    let server_state = server_state.handle_client_final(&client_final).unwrap();
    let (_, _server_final) = server_state.server_final();
    // a verification signature the shared secret cannot have produced
    let corrupted = "v=aGVsbG8gd29ybGQgaGVsbG8gd29ybGQgaGVsbG8gd28=";

    let (step, outcome) = handle_server_final(step, corrupted);
    assert_eq!(outcome, Err(AuthError::Rejected));

    let mut session = Rustbase::new("db".to_string());
    apply_handshake(&mut session, &step);
    assert_eq!(session.auth_state, AuthState::Failed);
    assert_eq!(
        session.request_query("get(\"k\")").err(),
        Some(ClientError::NotReady)
    );
}

#[test]
fn session_marks_transport_failures_fatal() {
    let mut session = Rustbase::new("db".to_string());
    session.auth_state = AuthState::Authenticated;
    assert!(session.request_query("get(\"k\")").is_ok());
    session.mark_failed();
    assert_eq!(session.auth_state, AuthState::Failed);
    assert_eq!(session.database, "db");
    assert_eq!(
        session.request_query("get(\"k\")").err(),
        Some(ClientError::NotReady)
    );
}

#[test]
fn scram_short_parts_fail_closed_without_panicking() {
    // comma-separated parts shorter than two characters would send the
    // scram crate's parser out of bounds; the handshake rejects them first
    for bad in ["a,b", ",,", "r=", "xy,", "r=a,s", "m"] {
        let cfg = AuthConfig { username: "admin".to_string(), password: "hunter2".to_string() };
        let (step, _client_first) = start_handshake(&cfg);
        let (step, outcome) = handle_server_first(step, bad);
        assert_eq!(outcome, Err(AuthError::Malformed));
        let mut session = Rustbase::new("db".to_string());
        apply_handshake(&mut session, &step);
        assert_eq!(session.auth_state, AuthState::Failed);
    }
}

#[test]
fn scram_non_ascii_server_final_fails_closed_without_panicking() {
    // a multibyte first character would send the scram crate's parser off
    // a character boundary; the handshake rejects non-ASCII text first
    let cfg = AuthConfig { username: "admin".to_string(), password: "hunter2".to_string() };
    let (step, client_first) = start_handshake(&cfg);
    let server = scram::ScramServer::new(OneUser);
    let server_state = server.handle_client_first(&client_first).unwrap();
    let (_, server_first) = server_state.server_first();
    let (step, client_final) = handle_server_first(step, &server_first);
    assert!(client_final.is_ok());
    let (step, outcome) = handle_server_final(step, "日本語のメッセージ");
    assert_eq!(outcome, Err(AuthError::Malformed));
    let mut session = Rustbase::new("db".to_string());
    apply_handshake(&mut session, &step);
    assert_eq!(session.auth_state, AuthState::Failed);
}

#[test]
fn scram_malformed_server_first_fails_closed() {
    let cfg = AuthConfig { username: "admin".to_string(), password: "hunter2".to_string() };
    let (step, _client_first) = start_handshake(&cfg);
    let (step, outcome) = handle_server_first(step, "not a scram message");
    assert_eq!(outcome, Err(AuthError::Malformed));
    assert!(!AuthError::Malformed.message().is_empty());

    let mut session = Rustbase::new("db".to_string());
    apply_handshake(&mut session, &step);
    assert_eq!(session.auth_state, AuthState::Failed);
}
