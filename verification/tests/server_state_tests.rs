use tt_signalr_server::server::connection_metadata;
use tt_signalr_server::server::negotiate;
use tt_signalr_server::server::negotiate_response;
use tt_signalr_server::server::ConnectionTracker;
use tt_signalr_server::JsonNumber;
use tt_signalr_server::JsonValue;

fn field<'a>(v: &'a JsonValue, key: &str) -> Option<&'a JsonValue> {
    match v {
        JsonValue::Object(entries) => entries.iter().find(|(k, _)| k == key).map(|(_, v)| v),
        _ => None,
    }
}

fn keys(v: &JsonValue) -> Vec<String> {
    match v {
        JsonValue::Object(entries) => entries.iter().map(|(k, _)| k.clone()).collect(),
        _ => vec![],
    }
}

#[test]
fn negotiate_version_0_names_connection_id_only() {
    let r = negotiate_response(Some(0), "tok".to_string());
    assert_eq!(keys(&r), vec!["connectionId".to_string(), "availableTransports".to_string()]);
    assert_eq!(field(&r, "connectionId"), Some(&JsonValue::String("tok".to_string())));
}

#[test]
fn negotiate_version_1_gives_token_and_version() {
    let r = negotiate_response(Some(1), "tok".to_string());
    assert_eq!(
        keys(&r),
        vec![
            "connectionId".to_string(),
            "connectionToken".to_string(),
            "negotiateVersion".to_string(),
            "availableTransports".to_string()
        ]
    );
    assert_eq!(field(&r, "connectionToken"), Some(&JsonValue::String("tok".to_string())));
    assert_eq!(field(&r, "negotiateVersion"), Some(&JsonValue::Number(JsonNumber::PosInt(1))));
}

#[test]
fn negotiate_default_is_version_1() {
    let r = negotiate_response(None, "tok".to_string());
    assert_eq!(field(&r, "negotiateVersion"), Some(&JsonValue::Number(JsonNumber::PosInt(1))));
}

#[test]
fn negotiate_offers_websockets_in_text_and_binary() {
    let r = negotiate_response(Some(7), "tok".to_string());
    let expected = JsonValue::Array(vec![JsonValue::Object(vec![
        ("transport".to_string(), JsonValue::String("WebSockets".to_string())),
        (
            "transferFormats".to_string(),
            JsonValue::Array(vec![
                JsonValue::String("Text".to_string()),
                JsonValue::String("Binary".to_string()),
            ]),
        ),
    ])]);
    assert_eq!(field(&r, "availableTransports"), Some(&expected));
}

#[test]
fn negotiate_makes_a_fresh_uuid_token() {
    let a = negotiate(None);
    let b = negotiate(None);
    let ta = field(&a, "connectionToken").unwrap().clone();
    assert_ne!(Some(&ta), field(&b, "connectionToken"));
    assert_eq!(field(&a, "connectionId"), Some(&ta));
    match ta {
        JsonValue::String(t) => {
            assert_eq!(t.len(), 36);
            assert_eq!(t.chars().nth(14), Some('4'));
        }
        _ => panic!("Expected string token"),
    }
}

#[test]
fn metadata_prefers_access_token() {
    let q = vec![
        ("token".to_string(), "t1".to_string()),
        ("access_token".to_string(), "a1".to_string()),
    ];
    let m = connection_metadata(&q);
    assert_eq!(field(&m, "access_token"), Some(&JsonValue::String("a1".to_string())));
    let query = field(&m, "query").unwrap();
    assert_eq!(keys(query), vec!["token".to_string(), "access_token".to_string()]);
}

#[test]
fn metadata_falls_back_to_token_then_null() {
    let q = vec![("token".to_string(), "t1".to_string())];
    let m = connection_metadata(&q);
    assert_eq!(field(&m, "access_token"), Some(&JsonValue::String("t1".to_string())));
    let m = connection_metadata(&vec![]);
    assert_eq!(field(&m, "access_token"), Some(&JsonValue::Null));
    assert_eq!(field(&m, "query"), Some(&JsonValue::Object(vec![])));
}

#[test]
fn tracker_counts_and_drains() {
    let mut t = ConnectionTracker::new();
    assert!(t.try_register());
    assert!(t.try_register());
    assert_eq!(t.active_connections(), 2);
    assert!(!t.release());
    assert!(!t.begin_shutdown());
    assert!(t.is_draining());
    assert!(!t.try_register());
    assert_eq!(t.active_connections(), 1);
    assert!(t.release());
    assert_eq!(t.active_connections(), 0);
}

#[test]
fn tracker_shutdown_with_no_connections_is_drained() {
    let mut t = ConnectionTracker::new();
    assert!(t.begin_shutdown());
    assert!(!t.try_register());
}
