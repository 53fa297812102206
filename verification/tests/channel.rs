use coordination::channel::{make_channel, RecvError, SendError, TryRecvError};

#[test]
fn new_channel_is_open_and_empty() {
    let (mut channel, sender, receiver) = make_channel::<String>();
    assert_eq!(sender.id(), 0);
    assert!(channel.has_sender(&sender));
    assert!(channel.has_receiver());
    assert_eq!(channel.sender_count(), 1);
    assert_eq!(channel.pending(), 0);
    assert!(!channel.is_closed());
    assert_eq!(receiver.try_recv(&mut channel), Err(TryRecvError::Empty));
    assert_eq!(receiver.recv(&mut channel), None);
}

#[test]
fn one_message_from_one_task() {
    let (mut channel, sender, receiver) = make_channel::<String>();
    assert_eq!(sender.send(&mut channel, "Hi".to_string()), Ok(()));
    assert_eq!(channel.pending(), 1);
    assert_eq!(receiver.recv(&mut channel), Some(Ok("Hi".to_string())));
    assert_eq!(channel.pending(), 0);
    sender.release(&mut channel);
    assert_eq!(receiver.recv(&mut channel), Some(Err(RecvError)));
}

#[test]
fn messages_of_one_sender_arrive_in_the_order_sent() {
    let (mut channel, sender, receiver) = make_channel::<u32>();
    for value in 1..=5 {
        assert_eq!(sender.send(&mut channel, value), Ok(()));
    }
    for value in 1..=5 {
        assert_eq!(receiver.try_recv(&mut channel), Ok(value));
    }
    assert_eq!(receiver.try_recv(&mut channel), Err(TryRecvError::Empty));
}

#[test]
fn each_sender_keeps_its_own_order_when_two_interleave() {
    let (mut channel, odd, receiver) = make_channel::<u32>();
    let even = odd.clone_sender(&mut channel);
    assert_eq!(odd.send(&mut channel, 1), Ok(()));
    assert_eq!(even.send(&mut channel, 2), Ok(()));
    assert_eq!(even.send(&mut channel, 4), Ok(()));
    assert_eq!(odd.send(&mut channel, 3), Ok(()));
    assert_eq!(receiver.try_recv(&mut channel), Ok(1));
    assert_eq!(odd.send(&mut channel, 5), Ok(()));
    assert_eq!(even.send(&mut channel, 6), Ok(()));
    odd.release(&mut channel);
    even.release(&mut channel);
    let rest = receiver.drain(&mut channel);
    assert!(rest.finished);
    assert_eq!(rest.items, vec![2, 4, 3, 5, 6]);
    let odds: Vec<u32> = rest.items.iter().copied().filter(|v| v % 2 == 1).collect();
    let evens: Vec<u32> = rest.items.iter().copied().filter(|v| v % 2 == 0).collect();
    assert_eq!(odds, vec![3, 5]);
    assert_eq!(evens, vec![2, 4, 6]);
}

#[test]
fn clones_get_fresh_identities() {
    let (mut channel, first, _receiver) = make_channel::<u8>();
    let second = first.clone_sender(&mut channel);
    let third = second.clone_sender(&mut channel);
    assert_eq!(second.id(), 1);
    assert_eq!(third.id(), 2);
    assert_eq!(channel.sender_count(), 3);
    second.release(&mut channel);
    assert_eq!(channel.sender_count(), 2);
    let fourth = first.clone_sender(&mut channel);
    assert_eq!(fourth.id(), 3);
    assert!(channel.has_sender(&first));
    assert!(channel.has_sender(&third));
    assert!(channel.has_sender(&fourth));
    assert_eq!(channel.sender_count(), 3);
}

#[test]
fn four_clones_and_the_first_sender_released_end_the_loop_after_four() {
    let (mut channel, first, receiver) = make_channel::<String>();
    let messages = vec!["hi", "from", "the", "thread"];
    let mut locals = Vec::new();
    for _ in 0..4 {
        locals.push(first.clone_sender(&mut channel));
    }
    first.release(&mut channel);
    for (local, message) in locals.into_iter().zip(messages.iter()) {
        assert_eq!(local.send(&mut channel, message.to_string()), Ok(()));
        local.release(&mut channel);
    }
    let mut received = Vec::new();
    let ended = loop {
        match receiver.recv(&mut channel) {
            Some(Ok(message)) => received.push(message),
            Some(Err(RecvError)) => break true,
            None => break false,
        }
    };
    assert!(ended);
    assert_eq!(received.len(), 4);
    assert_eq!(received, vec!["hi", "from", "the", "thread"]);
}

#[test]
fn a_forgotten_first_sender_keeps_the_loop_waiting() {
    let (mut channel, first, receiver) = make_channel::<String>();
    for message in ["hi", "from", "the", "thread"] {
        let local = first.clone_sender(&mut channel);
        assert_eq!(local.send(&mut channel, message.to_string()), Ok(()));
        local.release(&mut channel);
    }
    let drained = receiver.drain(&mut channel);
    assert_eq!(drained.items, vec!["hi", "from", "the", "thread"]);
    assert!(!drained.finished);
    assert_eq!(receiver.recv(&mut channel), None);
    assert_eq!(receiver.try_recv(&mut channel), Err(TryRecvError::Empty));
    assert_eq!(channel.sender_count(), 1);
    first.release(&mut channel);
    assert_eq!(receiver.recv(&mut channel), Some(Err(RecvError)));
    assert_eq!(receiver.try_recv(&mut channel), Err(TryRecvError::Disconnected));
    let after = receiver.drain(&mut channel);
    assert!(after.items.is_empty());
    assert!(after.finished);
}

#[test]
fn one_live_clone_keeps_the_channel_open() {
    let (mut channel, first, receiver) = make_channel::<u8>();
    let clone = first.clone_sender(&mut channel);
    first.release(&mut channel);
    assert!(!channel.is_closed());
    assert!(channel.has_sender(&clone));
    assert_eq!(receiver.recv(&mut channel), None);
    assert_eq!(clone.send(&mut channel, 9), Ok(()));
    clone.release(&mut channel);
    assert!(channel.is_closed());
    assert_eq!(channel.sender_count(), 0);
}

#[test]
fn closure_is_seen_only_after_the_queue_is_drained() {
    let (mut channel, sender, receiver) = make_channel::<u8>();
    assert_eq!(sender.send(&mut channel, 1), Ok(()));
    assert_eq!(sender.send(&mut channel, 2), Ok(()));
    sender.release(&mut channel);
    assert!(channel.is_closed());
    assert_eq!(receiver.recv(&mut channel), Some(Ok(1)));
    assert_eq!(receiver.try_recv(&mut channel), Ok(2));
    assert_eq!(receiver.recv(&mut channel), Some(Err(RecvError)));
    assert_eq!(receiver.try_recv(&mut channel), Err(TryRecvError::Disconnected));
}

#[test]
fn empty_and_closed_are_told_apart() {
    let (mut channel, sender, receiver) = make_channel::<u8>();
    assert_eq!(receiver.try_recv(&mut channel), Err(TryRecvError::Empty));
    sender.release(&mut channel);
    assert_eq!(receiver.try_recv(&mut channel), Err(TryRecvError::Disconnected));
}

#[test]
fn sending_without_a_receiver_hands_the_value_back() {
    let (mut channel, sender, receiver) = make_channel::<String>();
    assert_eq!(sender.send(&mut channel, "kept".to_string()), Ok(()));
    receiver.close(&mut channel);
    assert!(!channel.has_receiver());
    assert_eq!(channel.pending(), 0);
    assert_eq!(
        sender.send(&mut channel, "lost".to_string()),
        Err(SendError("lost".to_string()))
    );
    assert_eq!(channel.pending(), 0);
    let clone = sender.clone_sender(&mut channel);
    assert_eq!(clone.send(&mut channel, "too".to_string()), Err(SendError("too".to_string())));
    assert_eq!(channel.sender_count(), 2);
}

#[test]
fn drain_takes_everything_in_order_and_leaves_the_channel_open() {
    let (mut channel, sender, receiver) = make_channel::<u32>();
    for value in [10, 20, 30] {
        assert_eq!(sender.send(&mut channel, value), Ok(()));
    }
    let drained = receiver.drain(&mut channel);
    assert_eq!(drained.items, vec![10, 20, 30]);
    assert!(!drained.finished);
    assert_eq!(channel.pending(), 0);
    assert_eq!(sender.send(&mut channel, 40), Ok(()));
    let more = receiver.drain(&mut channel);
    assert_eq!(more.items, vec![40]);
    assert!(!more.finished);
}

#[test]
fn a_released_sender_is_no_sender_any_more() {
    let (mut channel, first, _receiver) = make_channel::<u8>();
    let second = first.clone_sender(&mut channel);
    let id = second.id();
    second.release(&mut channel);
    assert_eq!(id, 1);
    assert_eq!(channel.sender_count(), 1);
    assert!(channel.has_sender(&first));
    let (other, foreign, _other_receiver) = make_channel::<u8>();
    let foreign_clone = {
        let mut other = other;
        foreign.clone_sender(&mut other)
    };
    assert_eq!(foreign_clone.id(), 1);
    assert!(!channel.has_sender(&foreign_clone));
}
