//! The receive path of the UDP multicast transport: classifying datagrams and
//! reassembling fragmented messages, one partial message per sender.
use std::collections::HashMap;
use vstd::prelude::*;
use vstd::utf8::{decode_utf8, valid_utf8};

use crate::fragment::{
    FRAG_HEADER_SIZE, LONG_HEADER_MAGIC, MAX_MESSAGE_SIZE, SHORT_HEADER_MAGIC, SMALL_HEADER_SIZE,
};
use crate::message::string_from_utf8;
use crate::wire::{be_u16_at, be_u32_at, read_u16, read_u32};

verus! {

/// The kind of a datagram, told by its magic tag.
#[derive(Debug, Clone, Copy, PartialEq, Eq, Structural)]
pub enum Datagram {
    /// A whole message in one datagram.
    Complete,
    /// One fragment of a larger message.
    Fragment,
}

/// The kind of the datagram `d`, or `None` when it is shorter than a tag or
/// its tag is unknown.
pub open spec fn datagram_kind(d: Seq<u8>) -> Option<Datagram> {
    if d.len() < 4 {
        None
    } else if be_u32_at(d, 0) == SHORT_HEADER_MAGIC {
        Some(Datagram::Complete)
    } else if be_u32_at(d, 0) == LONG_HEADER_MAGIC {
        Some(Datagram::Fragment)
    } else {
        None
    }
}

impl Datagram {
    /// Tells the kind of a datagram from its magic tag.
    pub fn parse(buf: &[u8]) -> (r: Option<Datagram>)
        ensures
            r == datagram_kind(buf@),
    {
        if buf.len() < 4 {
            return None;
        }
        let magic = read_u32(buf, 0);
        if magic == SHORT_HEADER_MAGIC {
            Some(Datagram::Complete)
        } else if magic == LONG_HEADER_MAGIC {
            Some(Datagram::Fragment)
        } else {
            None
        }
    }
}

/// The index of the first zero byte of `s` at or after `i`, or `-1`.
pub open spec fn find_zero(s: Seq<u8>, i: int) -> int
    decreases s.len() - i,
{
    if i < 0 || i >= s.len() {
        -1
    } else if s[i] == 0 {
        i
    } else {
        find_zero(s, i + 1)
    }
}

/// Finds the first zero byte of `s` at or after `from`.
fn find_nul(s: &[u8], from: usize) -> (r: Option<usize>)
    ensures
        match r {
            Some(i) => i as int == find_zero(s@, from as int) && from <= i < s@.len() && s@[i as int]
                == 0,
            None => find_zero(s@, from as int) == -1,
        },
{
    let mut i = from;
    while i < s.len()
        invariant
            from <= i,
            forall|j: int| from <= j < i ==> s@[j] != 0,
            find_zero(s@, from as int) == find_zero(s@, i as int),
        decreases s@.len() - i,
    {
        if s[i] == 0 {
            return Some(i);
        }
        i = i + 1;
    }
    None
}

/// The message of a small datagram: its channel and payload, or `None` when
/// no terminator follows the channel or the channel is not UTF-8.
pub open spec fn small_message(d: Seq<u8>) -> Option<(Seq<char>, Seq<u8>)> {
    let z = find_zero(d, SMALL_HEADER_SIZE as int);
    if z < 0 {
        None
    } else if !valid_utf8(d.subrange(SMALL_HEADER_SIZE as int, z)) {
        None
    } else {
        Some((decode_utf8(d.subrange(SMALL_HEADER_SIZE as int, z)), d.subrange(z + 1, d.len() as int)))
    }
}

/// The state of the partial message of one sender.
pub struct FragState {
    pub sequence_number: u32,
    pub parts_remaining: u16,
    pub channel: Seq<char>,
    pub buffer: Seq<u8>,
}

/// The partial message of one sender.
#[derive(Debug)]
pub struct FragmentBuffer {
    /// The number of fragments still missing.
    pub parts_remaining: u16,
    /// The sequence number of the message.
    pub sequence_number: u32,
    /// The channel of the message, once fragment 0 has come.
    pub channel: String,
    /// The payload, filled fragment by fragment.
    pub buffer: Vec<u8>,
}

impl View for FragmentBuffer {
    type V = FragState;

    open spec fn view(&self) -> FragState {
        FragState {
            sequence_number: self.sequence_number,
            parts_remaining: self.parts_remaining,
            channel: self.channel@,
            buffer: self.buffer@,
        }
    }
}

/// The state of a sender not heard from yet.
pub open spec fn empty_frag_state() -> FragState {
    FragState { sequence_number: 0, parts_remaining: 0, channel: Seq::empty(), buffer: Seq::empty() }
}

/// `buf` with `data` written over it from `off` on.
pub open spec fn overwrite(buf: Seq<u8>, off: int, data: Seq<u8>) -> Seq<u8> {
    buf.subrange(0, off) + data + buf.subrange(off + data.len(), buf.len() as int)
}

/// What a fragment datagram `d` does to its sender's state `cur`: the new
/// state (`None`: unchanged) and the completed message, if any.
pub open spec fn fragment_step(cur: FragState, d: Seq<u8>) -> (Option<FragState>, Option<
    (Seq<char>, Seq<u8>),
>) {
    if d.len() < FRAG_HEADER_SIZE {
        (None, None)
    } else {
        let seq = be_u32_at(d, 4);
        let size = be_u32_at(d, 8) as int;
        let off = be_u32_at(d, 12) as int;
        let index = be_u16_at(d, 16);
        let count = be_u16_at(d, 18);
        if size > MAX_MESSAGE_SIZE {
            (None, None)
        } else {
            // A new message from this sender replaces the partial one.
            let s1 = if cur.sequence_number != seq || cur.buffer.len() != size {
                FragState {
                    sequence_number: seq,
                    parts_remaining: count,
                    channel: Seq::empty(),
                    buffer: Seq::new(size as nat, |i: int| 0u8),
                }
            } else {
                cur
            };
            let z = find_zero(d, FRAG_HEADER_SIZE as int);
            if index == 0 && (z < 0 || !valid_utf8(d.subrange(FRAG_HEADER_SIZE as int, z))) {
                (Some(s1), None)
            } else {
                let data = if index == 0 {
                    d.subrange(z + 1, d.len() as int)
                } else {
                    d.subrange(FRAG_HEADER_SIZE as int, d.len() as int)
                };
                if s1.parts_remaining == 0 || off + data.len() > size {
                    (Some(s1), None)
                } else {
                    let channel = if index == 0 && s1.channel.len() == 0 {
                        decode_utf8(d.subrange(FRAG_HEADER_SIZE as int, z))
                    } else {
                        s1.channel
                    };
                    let s2 = FragState {
                        sequence_number: s1.sequence_number,
                        parts_remaining: (s1.parts_remaining - 1) as u16,
                        channel,
                        buffer: overwrite(s1.buffer, off, data),
                    };
                    if s2.parts_remaining == 0 {
                        (Some(s2), Some((s2.channel, s2.buffer)))
                    } else {
                        (Some(s2), None)
                    }
                }
            }
        }
    }
}

/// The partial messages of all senders, keyed by sender.
pub struct Reassembler {
    fragments: HashMap<u64, FragmentBuffer>,
}

impl Reassembler {
    /// The state of each sender that has one.
    pub closed spec fn entries(&self) -> Map<u64, FragState> {
        Map::new(|k: u64| self.fragments@.contains_key(k), |k: u64| self.fragments@[k]@)
    }

    /// The state of `sender`, the empty state when there is none.
    pub open spec fn entry(&self, sender: u64) -> FragState {
        if self.entries().contains_key(sender) {
            self.entries()[sender]
        } else {
            empty_frag_state()
        }
    }

    /// What the datagram `d` from `sender` does: the sender's new state
    /// (`None`: unchanged) and the message it completes, if any.
    pub open spec fn datagram_step(cur: FragState, d: Seq<u8>) -> (Option<FragState>, Option<
        (Seq<char>, Seq<u8>),
    >) {
        match datagram_kind(d) {
            None => (None, None),
            Some(Datagram::Complete) => (None, small_message(d)),
            Some(Datagram::Fragment) => fragment_step(cur, d),
        }
    }

    /// A reassembler that has heard from nobody.
    pub fn new() -> (r: Reassembler)
        ensures
            r.entries() == Map::<u64, FragState>::empty(),
    {
        let r = Reassembler { fragments: HashMap::new() };
        assert(r.entries() =~= Map::<u64, FragState>::empty());
        r
    }

    /// Takes the datagram `d` from `sender`; returns the channel and payload of
    /// the message it completes, if any. Datagrams that are too short, carry
    /// an unknown tag or are malformed are dropped.
    pub fn process_datagram(&mut self, d: &[u8], sender: u64) -> (r: Option<(String, Vec<u8>)>)
        ensures
            ({
                let (st, out) = Self::datagram_step(old(self).entry(sender), d@);
                &&& match st {
                    Some(s) => final(self).entries() == old(self).entries().insert(sender, s),
                    None => final(self).entries() == old(self).entries(),
                }
                &&& match out {
                    Some((c, p)) => r is Some && r->Some_0.0@ == c && r->Some_0.1@ == p,
                    None => r is None,
                }
            }),
    {
        match Datagram::parse(d) {
            None => None,
            Some(Datagram::Complete) => process_short_datagram(d),
            Some(Datagram::Fragment) => self.process_frag_datagram(d, sender),
        }
    }

    fn process_frag_datagram(&mut self, d: &[u8], sender: u64) -> (r: Option<(String, Vec<u8>)>)
        requires
            datagram_kind(d@) == Some(Datagram::Fragment),
        ensures
            ({
                let (st, out) = fragment_step(old(self).entry(sender), d@);
                &&& match st {
                    Some(s) => final(self).entries() == old(self).entries().insert(sender, s),
                    None => final(self).entries() == old(self).entries(),
                }
                &&& match out {
                    Some((c, p)) => r is Some && r->Some_0.0@ == c && r->Some_0.1@ == p,
                    None => r is None,
                }
            }),
    {
        broadcast use vstd::std_specs::hash::group_hash_axioms;

        if d.len() < FRAG_HEADER_SIZE {
            return None;
        }
        let seq = read_u32(d, 4);
        let size = read_u32(d, 8) as usize;
        let off = read_u32(d, 12) as usize;
        let index = read_u16(d, 16);
        let count = read_u16(d, 18);
        if size > MAX_MESSAGE_SIZE {
            return None;
        }
        let ghost cur = old(self).entry(sender);
        let mut fb = match self.fragments.remove(&sender) {
            Some(b) => b,
            None => FragmentBuffer {
                parts_remaining: 0,
                sequence_number: 0,
                channel: String::new(),
                buffer: Vec::new(),
            },
        };
        assert(fb@ == cur);
        assert(self.entries() =~= old(self).entries().remove(sender));
        if fb.sequence_number != seq || fb.buffer.len() != size {
            fb.parts_remaining = count;
            fb.sequence_number = seq;
            fb.channel = String::new();
            fb.buffer = zeros(size);
        }
        let mut new_channel: Option<String> = None;
        let mut data_start: usize = FRAG_HEADER_SIZE;
        if index == 0 {
            let parsed = channel_at(d, FRAG_HEADER_SIZE);
            if parsed.is_none() {
                self.put_back(sender, fb);
                return None;
            }
            let (text, after) = parsed.unwrap();
            new_channel = Some(text);
            data_start = after;
        }
        let data_len = d.len() - data_start;
        if fb.parts_remaining == 0 || off > size || data_len > size - off {
            self.put_back(sender, fb);
            return None;
        }
        if let Some(text) = new_channel {
            if fb.channel.as_str().is_empty() {
                fb.channel = text;
            }
        }
        fb.parts_remaining = fb.parts_remaining - 1;
        write_at(&mut fb.buffer, off, d, data_start);
        let done = fb.parts_remaining == 0;
        let out = if done {
            Some((fb.channel.clone(), copy_bytes(&fb.buffer)))
        } else {
            None
        };
        self.put_back(sender, fb);
        out
    }

    fn put_back(&mut self, sender: u64, fb: FragmentBuffer)
        requires
            !old(self).fragments@.contains_key(sender),
        ensures
            final(self).entries() == old(self).entries().insert(sender, fb@),
    {
        broadcast use vstd::std_specs::hash::group_hash_axioms;

        self.fragments.insert(sender, fb);
        assert(self.entries() =~= old(self).entries().insert(sender, fb@));
    }
}

/// `n` zero bytes.
fn zeros(n: usize) -> (r: Vec<u8>)
    ensures
        r@ == Seq::new(n as nat, |i: int| 0u8),
{
    let mut v: Vec<u8> = Vec::new();
    while v.len() < n
        invariant
            v@.len() <= n,
            forall|i: int| 0 <= i < v@.len() ==> v@[i] == 0u8,
        decreases n - v@.len(),
    {
        v.push(0u8);
    }
    assert(v@ =~= Seq::new(n as nat, |i: int| 0u8));
    v
}

/// A copy of `src`.
fn copy_bytes(src: &Vec<u8>) -> (r: Vec<u8>)
    ensures
        r@ == src@,
{
    let mut v: Vec<u8> = Vec::new();
    crate::fragment::append_range(&mut v, src.as_slice(), 0, src.len());
    assert(src@.subrange(0, src@.len() as int) =~= src@);
    v
}

/// Writes `src[from..]` over `buf` starting at `off`.
fn write_at(buf: &mut Vec<u8>, off: usize, src: &[u8], from: usize)
    requires
        from <= src@.len(),
        off + (src@.len() - from) <= old(buf)@.len(),
    ensures
        final(buf)@ == overwrite(old(buf)@, off as int, src@.subrange(from as int, src@.len() as int)),
{
    let total = src.len();
    let n = total - from;
    let limit = buf.len();
    let mut i: usize = 0;
    while i < n
        invariant
            n == src@.len() - from,
            from <= src@.len(),
            off + n <= old(buf)@.len(),
            i <= n,
            limit == old(buf)@.len(),
            total == src@.len(),
            buf@.len() == old(buf)@.len(),
            buf@ == overwrite(old(buf)@, off as int, src@.subrange(from as int, from + i)),
        decreases n - i,
    {
        buf.set(off + i, src[from + i]);
        assert(buf@ =~= overwrite(old(buf)@, off as int, src@.subrange(from as int, from + i + 1)));
        i = i + 1;
    }
}

/// The channel name that starts at `from` and ends at the next zero byte, and
/// the position after that byte; `None` when there is no such byte or the
/// name is not UTF-8.
fn channel_at(d: &[u8], from: usize) -> (r: Option<(String, usize)>)
    requires
        from <= d@.len(),
    ensures
        ({
            let z = find_zero(d@, from as int);
            match r {
                Some((c, after)) => z >= 0 && valid_utf8(d@.subrange(from as int, z)) && c@
                    == decode_utf8(d@.subrange(from as int, z)) && after == z + 1 && after
                    <= d@.len(),
                None => z < 0 || !valid_utf8(d@.subrange(from as int, z)),
            }
        }),
{
    let len = d.len();
    let z = match find_nul(d, from) {
        Some(z) => z,
        None => {
            return None;
        },
    };
    let mut name: Vec<u8> = Vec::new();
    crate::fragment::append_range(&mut name, d, from, z);
    let text = match string_from_utf8(name) {
        Some(text) => text,
        None => {
            return None;
        },
    };
    proof {
        vstd::utf8::encode_utf8_decode_utf8(text@);
    }
    Some((text, z + 1))
}

/// The channel and payload of a small datagram.
fn process_short_datagram(d: &[u8]) -> (r: Option<(String, Vec<u8>)>)
    ensures
        match small_message(d@) {
            Some((c, p)) => r is Some && r->Some_0.0@ == c && r->Some_0.1@ == p,
            None => r is None,
        },
{
    if d.len() < SMALL_HEADER_SIZE {
        return None;
    }
    let parsed = channel_at(d, SMALL_HEADER_SIZE);
    if parsed.is_none() {
        return None;
    }
    let (channel, z1) = parsed.unwrap();
    let z = z1 - 1;
    let mut payload: Vec<u8> = Vec::new();
    crate::fragment::append_range(&mut payload, d, z + 1, d.len());
    Some((channel, payload))
}

proof fn lemma_find_zero(s: Seq<u8>, i: int)
    requires
        0 <= i,
    ensures
        find_zero(s, i) == -1 || (i <= find_zero(s, i) < s.len() && s[find_zero(s, i)] == 0),
    decreases s.len() - i,
{
    if i < s.len() && s[i] != 0 {
        lemma_find_zero(s, i + 1);
    }
}

/// Fragment 0 of a message with another sequence number than the sender's
/// partial one discards it: the sender's state starts over for the new
/// message, with one part received, its channel, and its bytes in place; no
/// message completes while parts are missing.
pub proof fn lemma_new_sequence_resets(cur: FragState, d: Seq<u8>)
    requires
        d.len() >= FRAG_HEADER_SIZE,
        be_u32_at(d, 4) != cur.sequence_number,
        be_u32_at(d, 8) <= MAX_MESSAGE_SIZE,
        be_u16_at(d, 16) == 0,
        be_u16_at(d, 18) >= 2,
        find_zero(d, FRAG_HEADER_SIZE as int) >= 0,
        valid_utf8(d.subrange(FRAG_HEADER_SIZE as int, find_zero(d, FRAG_HEADER_SIZE as int))),
        be_u32_at(d, 12) as int + (d.len() - find_zero(d, FRAG_HEADER_SIZE as int) - 1) <= be_u32_at(d, 8) as int,
    ensures
        ({
            let z = find_zero(d, FRAG_HEADER_SIZE as int);
            let off = be_u32_at(d, 12) as int;
            let data = d.subrange(z + 1, d.len() as int);
            let (st, out) = fragment_step(cur, d);
            &&& out is None
            &&& st is Some
            &&& st->Some_0.sequence_number == be_u32_at(d, 4)
            &&& st->Some_0.parts_remaining == be_u16_at(d, 18) - 1
            &&& st->Some_0.channel == decode_utf8(d.subrange(FRAG_HEADER_SIZE as int, z))
            &&& st->Some_0.buffer.len() == be_u32_at(d, 8)
            &&& st->Some_0.buffer.subrange(off, off + data.len()) == data
        }),
{
    lemma_find_zero(d, FRAG_HEADER_SIZE as int);
    let z = find_zero(d, FRAG_HEADER_SIZE as int);
    let off = be_u32_at(d, 12) as int;
    let data = d.subrange(z + 1, d.len() as int);
    let (st, out) = fragment_step(cur, d);
    let zeros = Seq::new(be_u32_at(d, 8) as nat, |i: int| 0u8);
    assert(st->Some_0.buffer =~= overwrite(zeros, off, data));
    assert(st->Some_0.buffer.subrange(off, off + data.len()) =~= data);
}

} // verus!
