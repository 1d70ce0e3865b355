use rusty_lock::message_bus::{Message, MessageBus};
use rusty_lock::password_list::PasswordListItem;

#[test]
fn messages_come_out_in_order_once() {
    let mut bus = MessageBus::new();
    assert_eq!(bus.poll_messages().len(), 0);
    bus.submit_message(Message::LoginCredentials("a".to_string(), "1".to_string()));
    bus.submit_message(Message::LoginCredentials("b".to_string(), "2".to_string()));
    let got = bus.poll_messages();
    assert_eq!(got.len(), 2);
    match &got[0] {
        Message::LoginCredentials(l, p) => assert_eq!((l.as_str(), p.as_str()), ("a", "1")),
    }
    match &got[1] {
        Message::LoginCredentials(l, p) => assert_eq!((l.as_str(), p.as_str()), ("b", "2")),
    }
    assert_eq!(bus.poll_messages().len(), 0);
}

#[test]
fn list_item_from_pair() {
    let item = PasswordListItem::from(("mail".to_string(), "AQID".to_string()));
    assert_eq!(item.label, "mail");
    assert_eq!(item.encrypted_value, "AQID");
}
