use lcm::dispatch::trampoline;
use lcm::error::{DecodeError, TrampolineError};
use lcm::message::encode_with_hash;
use lcm::spsc::{channel, RingBuffer};

#[test]
fn basic_in_out() {
    const LIMIT: usize = 3;
    let (p, c) = channel(LIMIT);

    for x in 0..LIMIT {
        p.send(x);
    }

    for x in 0..LIMIT {
        assert_eq!(c.recv(), Some(x));
    }

    assert_eq!(c.recv(), None);
}

#[test]
fn overwriting() {
    const LIMIT: usize = 3;
    const OVERWRITE: usize = 2;
    let (p, c) = channel(LIMIT);

    for x in 0..LIMIT + OVERWRITE {
        p.send(x);
    }

    for x in (0..LIMIT + OVERWRITE).skip(OVERWRITE) {
        assert_eq!(c.recv(), Some(x));
    }

    assert_eq!(c.recv(), None);
}

#[test]
fn interleaved_pushes_and_pops_keep_order() {
    let mut ring: RingBuffer<u32> = RingBuffer::new(2);
    assert_eq!(ring.capacity(), 2);
    ring.push(1);
    assert_eq!(ring.pop(), Some(1));
    ring.push(2);
    ring.push(3);
    ring.push(4);
    ring.push(5);
    assert_eq!(ring.len(), 2);
    assert_eq!(ring.pop(), Some(4));
    ring.push(6);
    assert_eq!(ring.pop(), Some(5));
    assert_eq!(ring.pop(), Some(6));
    assert_eq!(ring.pop(), None);
}

#[test]
fn closed_channel_is_seen_by_sender() {
    let (p, c) = channel::<u8>(4);
    assert!(!p.is_closed());
    assert_eq!(p.capacity(), 4);
    assert_eq!(c.capacity(), 4);
    drop(c);
    assert!(p.is_closed());
}

#[test]
fn trampoline_decodes_and_queues() {
    let (tx, rx) = channel::<(String, i32)>(2);
    let payload = encode_with_hash(99, &-7i32).unwrap();
    assert_eq!(trampoline::<i32>(99, &tx, "CH", &payload), Ok(()));
    assert_eq!(rx.recv(), Some(("CH".to_string(), -7)));
    assert_eq!(
        trampoline::<i32>(98, &tx, "CH", &payload),
        Err(TrampolineError::Decode(DecodeError::HashMismatch { expected: 98, found: 99 }))
    );
    drop(rx);
    assert_eq!(
        trampoline::<i32>(99, &tx, "CH", &payload),
        Err(TrampolineError::MessageChannelClosed)
    );
}

