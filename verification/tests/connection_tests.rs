use tt_signalr_server::ConnectionId;

#[test]
fn test_connection_id_creation() {
    let id1 = ConnectionId::new();
    let id2 = ConnectionId::new();
    assert_ne!(id1, id2, "Each connection ID should be unique");
}

#[test]
fn test_connection_id_default() {
    let id1 = ConnectionId::default();
    let id2 = ConnectionId::default();
    assert_ne!(id1, id2, "Default connection IDs should be unique");
}

#[test]
fn test_connection_id_display() {
    let id = ConnectionId::new();
    let display_str = id.to_string();
    assert!(!display_str.is_empty());
    assert!(display_str.contains('-'));
}

#[test]
fn test_connection_id_as_uuid() {
    let id = ConnectionId::new();
    let uuid = id.as_uuid();
    assert_eq!(format!("{}", uuid), id.to_string());
}

#[test]
fn connection_id_text_is_a_version_4_uuid() {
    let text = ConnectionId::new().to_string();
    let chars: Vec<char> = text.chars().collect();
    assert_eq!(chars.len(), 36);
    for (i, c) in chars.iter().enumerate() {
        if i == 8 || i == 13 || i == 18 || i == 23 {
            assert_eq!(*c, '-');
        } else {
            assert!(c.is_ascii_hexdigit() && !c.is_ascii_uppercase());
        }
    }
    assert_eq!(chars[14], '4');
    assert!(matches!(chars[19], '8' | '9' | 'a' | 'b'));
}
