use relay_patterns::channels::{
    Envelope, Mailbox, RelayError, ReplySlot, RequestHandler, SendRefusal,
};

#[test]
fn test_request_handler() {
    let mut handler = RequestHandler::new(|x: i32| x * 2);
    let result = handler.request(5).unwrap();
    assert_eq!(result, 10);
}

#[test]
fn ten_callers_each_get_their_own_answer() {
    let mut relay = RequestHandler::new(|x: u64| x * 2);
    let inputs: Vec<u64> = (0..10).collect();
    let replies = relay.request_all(inputs);
    assert_eq!(replies.len(), 10);
    for (i, reply) in replies.into_iter().enumerate() {
        assert_eq!(reply, Ok(2 * i as u64));
    }
}

#[test]
fn exactly_one_invocation_per_request() {
    let calls = std::cell::Cell::new(0u64);
    let mut relay = RequestHandler::new(|x: u64| {
        calls.set(calls.get() + 1);
        x
    });
    let replies = relay.request_all((0..5).collect());
    assert_eq!(replies.len(), 5);
    assert_eq!(calls.get(), 5);
}

#[test]
fn handler_invocations_do_not_overlap() {
    let busy = std::cell::Cell::new(false);
    let mut relay = RequestHandler::new(|x: u64| {
        assert!(!busy.get());
        busy.set(true);
        let y = x + 1;
        busy.set(false);
        y
    });
    let replies = relay.request_all((0..40).collect());
    assert!(replies.into_iter().all(|r| r.is_ok()));
}

#[test]
fn batch_larger_than_mailbox_bound() {
    let mut relay = RequestHandler::new(|x: u64| x + 1);
    let inputs: Vec<u64> = (0..100).collect();
    let replies = relay.request_all(inputs);
    assert_eq!(replies.len(), 100);
    for (i, reply) in replies.into_iter().enumerate() {
        assert_eq!(reply, Ok(i as u64 + 1));
    }
}

#[test]
fn request_after_shutdown_is_channel_closed() {
    let mut relay = RequestHandler::new(|x: i32| x * 2);
    assert_eq!(relay.request(1), Ok(2));
    relay.shutdown();
    assert_eq!(relay.request(1), Err(RelayError::ChannelClosed));
}

#[test]
fn batch_after_shutdown_all_channel_closed() {
    let mut relay = RequestHandler::new(|x: i32| x * 2);
    relay.shutdown();
    let replies = relay.request_all(vec![1, 2, 3]);
    assert_eq!(replies, vec![Err(RelayError::ChannelClosed); 3]);
}

#[test]
fn mailbox_preserves_admission_order() {
    let mut mailbox: Mailbox<u32, u32> = Mailbox::new(4);
    for r in [7u32, 8, 9] {
        let sent = mailbox.try_send(Envelope { request: r, reply: ReplySlot::Awaiting });
        assert!(sent.is_ok());
    }
    assert_eq!(mailbox.recv().unwrap().request, 7);
    assert_eq!(mailbox.recv().unwrap().request, 8);
    assert_eq!(mailbox.recv().unwrap().request, 9);
}

#[test]
fn full_mailbox_refuses_and_returns_envelope() {
    let mut mailbox: Mailbox<u32, u32> = Mailbox::new(1);
    let first = mailbox.try_send(Envelope { request: 1, reply: ReplySlot::Awaiting });
    assert!(first.is_ok());
    match mailbox.try_send(Envelope { request: 2, reply: ReplySlot::Awaiting }) {
        Err(SendRefusal::Full(env)) => assert_eq!(env.request, 2),
        _ => panic!("a full mailbox must refuse admission"),
    }
}

#[test]
fn closed_mailbox_refuses_but_still_drains() {
    let mut mailbox: Mailbox<u32, u32> = Mailbox::new(4);
    let first = mailbox.try_send(Envelope { request: 1, reply: ReplySlot::Awaiting });
    assert!(first.is_ok());
    mailbox.close();
    match mailbox.try_send(Envelope { request: 2, reply: ReplySlot::Awaiting }) {
        Err(SendRefusal::Closed(env)) => assert_eq!(env.request, 2),
        _ => panic!("a closed mailbox must refuse admission"),
    }
    assert_eq!(mailbox.recv().unwrap().request, 1);
    assert!(mailbox.recv().is_none());
}

#[test]
fn fulfilling_an_abandoned_slot_is_a_no_op() {
    let slot: ReplySlot<u32> = ReplySlot::Abandoned;
    assert!(matches!(slot.fulfill(9), ReplySlot::Abandoned));
}

#[test]
fn fulfilling_an_awaiting_slot_delivers() {
    let slot: ReplySlot<u32> = ReplySlot::Awaiting;
    assert!(matches!(slot.fulfill(9), ReplySlot::Fulfilled(9)));
}
