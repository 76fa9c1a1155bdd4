use lcm::dispatch::{delivery, ChannelRegex, Delivery, Dispatcher};
use lcm::error::{PublishError, SubscribeError, TrampolineError, DecodeError};
use lcm::fragment::{build_datagrams, Publisher, MAX_MESSAGE_SIZE};
use lcm::reassembly::{Datagram, Reassembler};

fn frag_header(seq: u32, size: u32, offset: u32, index: u16, count: u16) -> Vec<u8> {
    let mut d = vec![0x4c, 0x43, 0x30, 0x33];
    d.extend_from_slice(&seq.to_be_bytes());
    d.extend_from_slice(&size.to_be_bytes());
    d.extend_from_slice(&offset.to_be_bytes());
    d.extend_from_slice(&index.to_be_bytes());
    d.extend_from_slice(&count.to_be_bytes());
    d
}

#[test]
fn small_publish() {
    let payload: Vec<u8> = (0..24u8).collect();
    let mut publisher = Publisher::new();
    publisher.finish_publish();
    let ds = publisher.datagrams("TEMP", &payload).unwrap();
    assert_eq!(ds.len(), 1);
    let d = &ds[0];
    assert_eq!(d.len(), 37);
    assert_eq!(&d[0..8], &[0x4c, 0x43, 0x30, 0x32, 0, 0, 0, 1]);
    assert_eq!(&d[8..13], &[0x54, 0x45, 0x4d, 0x50, 0x00]);
    assert_eq!(&d[13..], &payload[..]);
}

#[test]
fn sequence_number_advances_once_per_publish() {
    let mut publisher = Publisher::new();
    assert_eq!(publisher.sequence_number, 0);
    publisher.finish_publish();
    publisher.finish_publish();
    assert_eq!(publisher.sequence_number, 2);
    publisher.sequence_number = u32::MAX;
    publisher.finish_publish();
    assert_eq!(publisher.sequence_number, 0);
}

#[test]
fn fragmented_publish() {
    let payload: Vec<u8> = (0..5000u32).map(|i| (i % 251) as u8).collect();
    let ds = build_datagrams(0, "BIG", &payload).unwrap();
    // 1 + ceil((5000 - 1376) / 1380) fragments.
    assert_eq!(ds.len(), 4);
    let mut total = 0;
    for (k, d) in ds.iter().enumerate() {
        assert_eq!(&d[0..4], &[0x4c, 0x43, 0x30, 0x33]);
        assert_eq!(&d[4..8], &0u32.to_be_bytes());
        assert_eq!(&d[8..12], &5000u32.to_be_bytes());
        assert_eq!(&d[16..18], &(k as u16).to_be_bytes());
        assert_eq!(&d[18..20], &4u16.to_be_bytes());
        assert!(d.len() <= 1400);
        let offset = u32::from_be_bytes([d[12], d[13], d[14], d[15]]) as usize;
        let body = if k == 0 {
            assert_eq!(&d[20..24], b"BIG\0");
            &d[24..]
        } else {
            &d[20..]
        };
        if k == 0 {
            assert_eq!(body.len(), 1376);
        } else if k < 3 {
            assert_eq!(body.len(), 1380);
        }
        assert_eq!(body, &payload[offset..offset + body.len()]);
        total += body.len();
    }
    assert_eq!(total, 5000);
}

#[test]
fn payload_that_just_fits_a_small_datagram() {
    let payload = vec![7u8; 1400 - 8 - 4];
    assert_eq!(build_datagrams(0, "BIG", &payload).unwrap().len(), 1);
    let payload = vec![7u8; 1400 - 8 - 4 + 1];
    assert_eq!(build_datagrams(0, "BIG", &payload).unwrap().len(), 2);
}

#[test]
fn long_channel_is_refused() {
    let channel = "c".repeat(64);
    assert_eq!(build_datagrams(0, &channel, &[1, 2, 3]), Err(PublishError::ProviderIssue));
    let channel = "c".repeat(63);
    assert!(build_datagrams(0, &channel, &[1, 2, 3]).is_ok());
}

#[test]
fn oversized_payload_is_refused() {
    let payload = vec![0u8; MAX_MESSAGE_SIZE + 1];
    assert_eq!(build_datagrams(0, "BIG", &payload), Err(PublishError::ProviderIssue));
}

#[test]
fn short_or_unknown_datagrams_are_dropped() {
    let mut r = Reassembler::new();
    assert_eq!(Datagram::parse(&[0x4c, 0x43, 0x30]), None);
    assert_eq!(r.process_datagram(&[0x4c, 0x43, 0x30], 1), None);
    assert_eq!(Datagram::parse(&[1, 2, 3, 4, 5, 6, 7, 8, b'a', 0]), None);
    assert_eq!(r.process_datagram(&[1, 2, 3, 4, 5, 6, 7, 8, b'a', 0], 1), None);
    assert_eq!(Datagram::parse(&[0x4c, 0x43, 0x30, 0x32]), Some(Datagram::Complete));
    assert_eq!(Datagram::parse(&[0x4c, 0x43, 0x30, 0x33]), Some(Datagram::Fragment));
    // A fragment header cut short is dropped too.
    assert_eq!(r.process_datagram(&[0x4c, 0x43, 0x30, 0x33, 0, 0], 1), None);
}

#[test]
fn small_datagram_round_trip() {
    let payload = vec![9u8, 8, 7];
    let ds = build_datagrams(5, "TEMP", &payload).unwrap();
    let mut r = Reassembler::new();
    let (channel, body) = r.process_datagram(&ds[0], 42).unwrap();
    assert_eq!(channel, "TEMP");
    assert_eq!(body, payload);
}

#[test]
fn reassembly_from_two_senders() {
    let a: Vec<u8> = (0..3000u32).map(|i| (i % 7) as u8).collect();
    let b: Vec<u8> = (0..3000u32).map(|i| (i % 13) as u8).collect();
    let da = build_datagrams(0, "CHAN_A", &a).unwrap();
    let db = build_datagrams(0, "CHAN_B", &b).unwrap();
    assert_eq!(da.len(), db.len());
    let mut r = Reassembler::new();
    let mut done = vec![];
    // Interleave, sending the fragments of each sender in reverse order.
    for k in (0..da.len()).rev() {
        if let Some(m) = r.process_datagram(&da[k], 1) {
            done.push(m);
        }
        if let Some(m) = r.process_datagram(&db[k], 2) {
            done.push(m);
        }
    }
    assert_eq!(done.len(), 2);
    assert_eq!(done[0], ("CHAN_A".to_string(), a));
    assert_eq!(done[1], ("CHAN_B".to_string(), b));
}

#[test]
fn sequence_mismatch_drops_buffer() {
    let old: Vec<u8> = vec![1u8; 3000];
    let new: Vec<u8> = vec![2u8; 4000];
    let d7 = build_datagrams(7, "X", &old).unwrap();
    let d8 = build_datagrams(8, "X", &new).unwrap();
    let mut r = Reassembler::new();
    assert_eq!(r.process_datagram(&d7[0], 1), None);
    assert_eq!(r.process_datagram(&d8[0], 1), None);
    // The rest of message 7 now finds a buffer of message 8 and starts over.
    for d in &d7[1..] {
        assert_eq!(r.process_datagram(d, 1), None);
    }
    // Message 8 was lost when message 7 came back; its own remaining fragments
    // start yet another buffer that lacks fragment 0.
    let mut out = None;
    for d in &d8[1..] {
        out = r.process_datagram(d, 1);
    }
    assert_eq!(out, None);
    // A complete, uninterrupted message 9 goes through.
    let d9 = build_datagrams(9, "X", &new).unwrap();
    let mut out = None;
    for d in &d9 {
        out = r.process_datagram(d, 1);
    }
    assert_eq!(out, Some(("X".to_string(), new)));
}

#[test]
fn fragment_writing_past_its_message_is_dropped() {
    let mut d = frag_header(1, 10, 8, 1, 2);
    d.extend_from_slice(&[1, 2, 3, 4]);
    let mut r = Reassembler::new();
    assert_eq!(r.process_datagram(&d, 3), None);
    let mut ok = frag_header(1, 10, 6, 1, 2);
    ok.extend_from_slice(&[1, 2, 3, 4]);
    assert_eq!(r.process_datagram(&ok, 3), None);
    let mut first = frag_header(1, 10, 0, 0, 2);
    first.extend_from_slice(b"C\0");
    first.extend_from_slice(&[9, 9, 9, 9, 9, 9]);
    assert_eq!(
        r.process_datagram(&first, 3),
        Some(("C".to_string(), vec![9, 9, 9, 9, 9, 9, 1, 2, 3, 4]))
    );
}

#[test]
fn invalid_regex_is_refused() {
    match ChannelRegex::new("(unclosed") {
        Err(SubscribeError::InvalidRegex(_)) => {}
        _ => panic!("expected InvalidRegex"),
    }
}

#[test]
fn unanchored_matching() {
    let mut d: Dispatcher<u32> = Dispatcher::new();
    d.subscribe(ChannelRegex::new("TEMP").unwrap(), 1);
    d.subscribe(ChannelRegex::new("^TEMP$").unwrap(), 2);
    d.subscribe(ChannelRegex::new("OTHER").unwrap(), 3);
    assert_eq!(d.matching("MY_TEMP_2"), vec![true, false, false]);
    assert_eq!(d.matching("TEMP"), vec![true, true, false]);
}

#[test]
fn unsubscribe_is_lazy() {
    let mut d: Dispatcher<u32> = Dispatcher::new();
    d.subscribe(ChannelRegex::new("A").unwrap(), 10);
    d.subscribe(ChannelRegex::new("B").unwrap(), 20);
    // Before anything matches, both subscriptions stay.
    assert_eq!(d.len(), 2);
    let outcomes = vec![Delivery::Skipped, Delivery::Skipped];
    assert!(!d.retain_delivered(&outcomes));
    assert_eq!(d.len(), 2);
    // The first match after the receiver went away removes it.
    let outcomes = vec![
        delivery(&Err(TrampolineError::MessageChannelClosed)),
        delivery(&Ok(())),
    ];
    assert!(d.retain_delivered(&outcomes));
    assert_eq!(d.len(), 1);
    assert_eq!(*d.trampoline(0), 20);
    // A decoding failure keeps the subscription.
    let outcomes = vec![delivery(&Err(TrampolineError::Decode(DecodeError::IoError)))];
    assert!(!d.retain_delivered(&outcomes));
    assert_eq!(d.len(), 1);
}

fn accept(_: &str, _: &[u8]) -> Result<(), TrampolineError> {
    Ok(())
}

fn closed(_: &str, _: &[u8]) -> Result<(), TrampolineError> {
    Err(TrampolineError::MessageChannelClosed)
}

fn undecodable(_: &str, _: &[u8]) -> Result<(), TrampolineError> {
    Err(TrampolineError::Decode(DecodeError::IoError))
}

#[test]
fn forward_runs_matching_trampolines_and_drops_closed_ones() {
    type T = fn(&str, &[u8]) -> Result<(), TrampolineError>;
    let mut d: Dispatcher<T> = Dispatcher::new();
    d.subscribe(ChannelRegex::new("TEMP").unwrap(), closed as T);
    d.subscribe(ChannelRegex::new("OTHER").unwrap(), closed as T);
    d.subscribe(ChannelRegex::new("TE").unwrap(), undecodable as T);
    d.subscribe(ChannelRegex::new("^TEMP$").unwrap(), accept as T);
    let (forwarded, _) = d.forward("TEMP", &[1, 2]);
    assert!(forwarded);
    // The closed subscription that matched is gone; the one that did not match stays.
    assert_eq!(d.len(), 3);
    assert_eq!(d.matching("OTHER"), vec![true, false, false]);
    let (forwarded, _) = d.forward("NOTHING", &[]);
    assert!(!forwarded);
    assert_eq!(d.len(), 3);
    let (forwarded, _) = d.forward("TEMPERATURE", &[]);
    assert!(!forwarded);
    assert_eq!(d.len(), 3);
}
