//! The publish path of the UDP multicast transport: limits, datagram headers,
//! and the split of a payload into one small datagram or a run of fragments.
use vstd::prelude::*;

use crate::error::PublishError;
use crate::message::utf8_of;
use crate::wire::{u16_bytes, u32_bytes, write_u16, write_u32};

verus! {

/// The largest payload that is published.
pub const MAX_MESSAGE_SIZE: usize = 268435456;

/// The largest channel name, in bytes.
pub const MAX_CHANNEL_NAME_LENGTH: usize = 63;

/// The largest datagram sent; it stays below the Ethernet MTU.
pub const MAX_DATAGRAM_SIZE: usize = 1400;

/// The header size of a small datagram.
pub const SMALL_HEADER_SIZE: usize = 8;

/// The header size of a fragment datagram.
pub const FRAG_HEADER_SIZE: usize = 20;

/// The tag of a small datagram ("LC02").
pub const SHORT_HEADER_MAGIC: u32 = 0x4C43_3032;

/// The tag of a fragment datagram ("LC03").
pub const LONG_HEADER_MAGIC: u32 = 0x4C43_3033;

/// The payload room of a fragment after its header.
pub open spec fn frag_room() -> int {
    MAX_DATAGRAM_SIZE - FRAG_HEADER_SIZE
}

/// The payload room of the first fragment, which also carries the channel.
pub open spec fn first_frag_room(chan_len: int) -> int {
    frag_room() - (chan_len + 1)
}

/// Whether a payload of `p` bytes goes out in one small datagram.
pub open spec fn fits_small(chan_len: int, p: int) -> bool {
    p <= MAX_DATAGRAM_SIZE - SMALL_HEADER_SIZE - (chan_len + 1)
}

/// The number of fragments of a payload of `p` bytes:
/// `1 + ceil((p - first) / room)`.
pub open spec fn fragment_count(chan_len: int, p: int) -> int {
    1 + (p - first_frag_room(chan_len) + frag_room() - 1) / frag_room()
}

/// Where fragment `k` starts in the payload.
pub open spec fn frag_offset(chan_len: int, k: int) -> int {
    if k == 0 {
        0
    } else {
        first_frag_room(chan_len) + (k - 1) * frag_room()
    }
}

/// How many payload bytes fragment `k` carries.
pub open spec fn frag_len(chan_len: int, p: int, k: int) -> int {
    let room = if k == 0 { first_frag_room(chan_len) } else { frag_room() };
    let off = frag_offset(chan_len, k);
    if off >= p {
        0
    } else if p - off < room {
        p - off
    } else {
        room
    }
}

/// The small datagram that carries `payload` on channel bytes `chan`.
pub open spec fn small_datagram(seq: u32, chan: Seq<u8>, payload: Seq<u8>) -> Seq<u8> {
    u32_bytes(SHORT_HEADER_MAGIC) + u32_bytes(seq) + chan + seq![0u8] + payload
}

/// Fragment `k` of `n` of `payload` on channel bytes `chan`.
pub open spec fn frag_datagram(seq: u32, chan: Seq<u8>, payload: Seq<u8>, n: int, k: int) -> Seq<
    u8,
> {
    let off = frag_offset(chan.len() as int, k);
    let start = if off < payload.len() { off } else { payload.len() as int };
    let len = frag_len(chan.len() as int, payload.len() as int, k);
    u32_bytes(LONG_HEADER_MAGIC) + u32_bytes(seq) + u32_bytes(payload.len() as u32) + u32_bytes(
        off as u32,
    ) + u16_bytes(k as u16) + u16_bytes(n as u16) + (if k == 0 {
        chan + seq![0u8]
    } else {
        Seq::empty()
    }) + payload.subrange(start, start + len)
}

/// Why publishing `payload` on `chan` is refused, if it is.
pub open spec fn publish_error(chan: Seq<u8>, payload: Seq<u8>) -> Option<PublishError> {
    if chan.len() > MAX_CHANNEL_NAME_LENGTH {
        Some(PublishError::ProviderIssue)
    } else if payload.len() > MAX_MESSAGE_SIZE {
        Some(PublishError::ProviderIssue)
    } else if !fits_small(chan.len() as int, payload.len() as int) && fragment_count(
        chan.len() as int,
        payload.len() as int,
    ) > 65535 {
        Some(PublishError::ProviderIssue)
    } else {
        None
    }
}

/// The datagrams that publish `payload` on `chan` with sequence number `seq`.
pub open spec fn datagrams_of(seq: u32, chan: Seq<u8>, payload: Seq<u8>) -> Seq<Seq<u8>> {
    if fits_small(chan.len() as int, payload.len() as int) {
        seq![small_datagram(seq, chan, payload)]
    } else {
        let n = fragment_count(chan.len() as int, payload.len() as int);
        Seq::new(n as nat, |k: int| frag_datagram(seq, chan, payload, n, k))
    }
}

/// Appends `src[from..to]` to `buf`.
pub fn append_range(buf: &mut Vec<u8>, src: &[u8], from: usize, to: usize)
    requires
        from <= to <= src@.len(),
    ensures
        final(buf)@ == old(buf)@ + src@.subrange(from as int, to as int),
{
    let mut i = from;
    while i < to
        invariant
            from <= i <= to <= src@.len(),
            buf@ == old(buf)@ + src@.subrange(from as int, i as int),
        decreases to - i,
    {
        buf.push(src[i]);
        assert(src@.subrange(from as int, i + 1) =~= src@.subrange(from as int, i as int).push(
            src@[i as int],
        ));
        i = i + 1;
    }
}

/// Builds the small datagram of `payload` on `channel`.
fn build_small(seq: u32, channel: &[u8], payload: &[u8]) -> (r: Vec<u8>)
    ensures
        r@ == small_datagram(seq, channel@, payload@),
{
    let mut buf: Vec<u8> = Vec::new();
    write_u32(&mut buf, SHORT_HEADER_MAGIC);
    write_u32(&mut buf, seq);
    append_range(&mut buf, channel, 0, channel.len());
    buf.push(0u8);
    append_range(&mut buf, payload, 0, payload.len());
    assert(channel@.subrange(0, channel@.len() as int) =~= channel@);
    assert(payload@.subrange(0, payload@.len() as int) =~= payload@);
    assert(buf@ =~= small_datagram(seq, channel@, payload@));
    buf
}

/// Builds fragment `k` of `n` of `payload` on `channel`.
fn build_fragment(seq: u32, channel: &[u8], payload: &[u8], n: usize, k: usize) -> (r: Vec<u8>)
    requires
        channel@.len() <= MAX_CHANNEL_NAME_LENGTH,
        payload@.len() <= MAX_MESSAGE_SIZE,
        k < n <= 65535,
    ensures
        r@ == frag_datagram(seq, channel@, payload@, n as int, k as int),
{
    let c = channel.len();
    let p = payload.len();
    let room: usize = MAX_DATAGRAM_SIZE - FRAG_HEADER_SIZE;
    let first: usize = room - (c + 1);
    let off: usize = if k == 0 {
        0
    } else {
        first + (k - 1) * room
    };
    let this_room = if k == 0 {
        first
    } else {
        room
    };
    let len: usize = if off >= p {
        0
    } else if p - off < this_room {
        p - off
    } else {
        this_room
    };
    let mut buf: Vec<u8> = Vec::new();
    write_u32(&mut buf, LONG_HEADER_MAGIC);
    write_u32(&mut buf, seq);
    write_u32(&mut buf, p as u32);
    write_u32(&mut buf, off as u32);
    write_u16(&mut buf, k as u16);
    write_u16(&mut buf, n as u16);
    let ghost header = buf@;
    if k == 0 {
        append_range(&mut buf, channel, 0, c);
        buf.push(0u8);
        assert(channel@.subrange(0, c as int) =~= channel@);
        assert(buf@ =~= header + (channel@ + seq![0u8]));
    } else {
        assert(buf@ =~= header + Seq::<u8>::empty());
    }
    let start = if off < p {
        off
    } else {
        p
    };
    append_range(&mut buf, payload, start, start + len);
    assert(buf@ =~= frag_datagram(seq, channel@, payload@, n as int, k as int));
    buf
}

/// Splits `payload` on `channel` into the datagrams that carry it, or reports
/// why it cannot be published.
pub fn build_datagrams(seq: u32, channel: &str, payload: &[u8]) -> (r: Result<
    Vec<Vec<u8>>,
    PublishError,
>)
    ensures
        match publish_error(utf8_of(channel@), payload@) {
            Some(e) => r == Err::<Vec<Vec<u8>>, PublishError>(e),
            None => r is Ok && r->Ok_0@.len() == datagrams_of(
                seq,
                utf8_of(channel@),
                payload@,
            ).len() && forall|i: int|
                0 <= i < r->Ok_0@.len() ==> #[trigger] r->Ok_0@[i]@ == datagrams_of(
                    seq,
                    utf8_of(channel@),
                    payload@,
                )[i],
        },
{
    let chan = channel.as_bytes();
    let c = chan.len();
    let p = payload.len();
    if c > MAX_CHANNEL_NAME_LENGTH {
        return Err(PublishError::ProviderIssue);
    }
    if p > MAX_MESSAGE_SIZE {
        return Err(PublishError::ProviderIssue);
    }
    let ghost spec_all = datagrams_of(seq, chan@, payload@);
    let mut out: Vec<Vec<u8>> = Vec::new();
    if p <= MAX_DATAGRAM_SIZE - SMALL_HEADER_SIZE - (c + 1) {
        out.push(build_small(seq, chan, payload));
        return Ok(out);
    }
    let room: usize = MAX_DATAGRAM_SIZE - FRAG_HEADER_SIZE;
    let first: usize = room - (c + 1);
    let n: usize = 1 + (p - first + room - 1) / room;
    if n > 65535 {
        return Err(PublishError::ProviderIssue);
    }
    let mut k: usize = 0;
    while k < n
        invariant
            n == fragment_count(c as int, p as int),
            n <= 65535,
            k <= n,
            c == chan@.len(),
            p == payload@.len(),
            c <= MAX_CHANNEL_NAME_LENGTH,
            p <= MAX_MESSAGE_SIZE,
            !fits_small(c as int, p as int),
            spec_all == datagrams_of(seq, chan@, payload@),
            spec_all.len() == n,
            out@.len() == k,
            forall|i: int| 0 <= i < k ==> #[trigger] out@[i]@ == spec_all[i],
        decreases n - k,
    {
        out.push(build_fragment(seq, chan, payload, n, k));
        k = k + 1;
    }
    Ok(out)
}

/// The sending side of a transport: it numbers the messages it publishes.
pub struct Publisher {
    /// The sequence number of the next message.
    pub sequence_number: u32,
}

impl Publisher {
    /// A publisher whose first message has sequence number 0.
    pub fn new() -> (r: Publisher)
        ensures
            r.sequence_number == 0,
    {
        Publisher { sequence_number: 0 }
    }

    /// The datagrams that publish `payload` on `channel` as the next message.
    pub fn datagrams(&self, channel: &str, payload: &[u8]) -> (r: Result<
        Vec<Vec<u8>>,
        PublishError,
    >)
        ensures
            match publish_error(utf8_of(channel@), payload@) {
                Some(e) => r == Err::<Vec<Vec<u8>>, PublishError>(e),
                None => r is Ok && r->Ok_0@.len() == datagrams_of(
                    self.sequence_number,
                    utf8_of(channel@),
                    payload@,
                ).len() && forall|i: int|
                    0 <= i < r->Ok_0@.len() ==> #[trigger] r->Ok_0@[i]@ == datagrams_of(
                        self.sequence_number,
                        utf8_of(channel@),
                        payload@,
                    )[i],
            },
    {
        build_datagrams(self.sequence_number, channel, payload)
    }

    /// Records that the current message went out: the next one gets the next
    /// sequence number.
    pub fn finish_publish(&mut self)
        ensures
            final(self).sequence_number == old(self).sequence_number.wrapping_add(1),
    {
        self.sequence_number = self.sequence_number.wrapping_add(1);
    }
}

} // verus!
