use crypto_mgr::chat::{ChatAction, ChatEvent, GlobalChatHandler};
use crypto_mgr::connection::Connection;
use crypto_mgr::lending::LendQueue;
use crypto_mgr::messages::ProtocolError;

#[test]
fn borrow_requests_are_served_in_submission_order() {
    let mut q = LendQueue::new();
    let tickets: Vec<u64> = (0..5).map(|_| q.submit()).collect();
    assert_eq!(tickets, vec![0, 1, 2, 3, 4]);
    let mut served = Vec::new();
    while q.has_pending() {
        let t = q.lend().unwrap();
        assert!(!q.owner_may_proceed());
        assert!(!q.has_pending() || q.lend().is_none());
        assert_eq!(q.finish(), Some(t));
        assert!(q.owner_may_proceed());
        served.push(t);
    }
    assert_eq!(served, tickets);
}

#[test]
fn lend_on_empty_queue_gives_nothing() {
    let mut q = LendQueue::new();
    assert!(!q.has_pending());
    assert_eq!(q.lend(), None);
    assert_eq!(q.finish(), None);
}

#[test]
fn chat_handler_needs_register_first() {
    let mut h = GlobalChatHandler::new(Connection::new(3, String::from("/srv")));
    assert_eq!(h.handle(ChatEvent::Packet), Err(ProtocolError::UnexpectedMessage));
    assert!(!h.is_registered());
    assert_eq!(h.handle(ChatEvent::Register), Ok(ChatAction::Wait));
    assert_eq!(h.handle(ChatEvent::Packet), Ok(ChatAction::Wait));
    assert_eq!(h.handle(ChatEvent::BorrowPending), Ok(ChatAction::Lend));
    assert_eq!(h.connection().id, 3);
}

#[test]
fn chat_greeting_bytes() {
    let g = GlobalChatHandler::greeting(0x5, 0xfd, 0x2);
    assert_eq!(
        g,
        vec![0xff, 0xff, 0xff, 0x7f, 0, 0xff, 0, 0xff, 5, 0, 0, 0, 0, 0xfd, 2, 0, 0, 0, 0, 1]
    );
}
