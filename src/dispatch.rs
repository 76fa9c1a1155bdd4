//! Channel dispatch: matching a channel name against each subscription's
//! regular expression, delivering the payload, and dropping subscriptions
//! whose receiver has gone away.
use regex::Regex;
use vstd::prelude::*;

use crate::error::{SubscribeError, TrampolineError};
use crate::message::{decode_with_hash, parse_with_hash, Marshall};
use crate::spsc::Sender;

verus! {

#[verifier::external_type_specification]
#[verifier::external_body]
pub struct ExRegex(Regex);

/// Whether `pattern` is a regular expression that the `regex` crate accepts.
pub uninterp spec fn regex_is_valid(pattern: Seq<char>) -> bool;

/// Whether the regular expression `pattern` matches somewhere in `text`
/// (unanchored).
pub uninterp spec fn regex_is_match(pattern: Seq<char>, text: Seq<char>) -> bool;

/// Relies on `regex::Regex::new`: it succeeds exactly on the patterns it
/// accepts; the error is carried as its message.
#[verifier::external_body]
fn compile_regex(pattern: &str) -> (r: Result<Regex, String>)
    ensures
        r is Ok == regex_is_valid(pattern@),
{
    Regex::new(pattern).map_err(|e| e.to_string())
}

/// A compiled channel expression together with its source text.
pub struct ChannelRegex {
    re: Regex,
    source: String,
}

impl ChannelRegex {
    /// The source text of the expression.
    pub closed spec fn pattern(&self) -> Seq<char> {
        self.source@
    }

    /// Compiles `pattern`; fails with `InvalidRegex` when it is not a valid
    /// regular expression.
    pub fn new(pattern: &str) -> (r: Result<ChannelRegex, SubscribeError>)
        ensures
            r is Ok == regex_is_valid(pattern@),
            r is Ok ==> r->Ok_0.pattern() == pattern@,
            r is Err ==> r->Err_0 is InvalidRegex,
    {
        match compile_regex(pattern) {
            Ok(re) => Ok(ChannelRegex { re, source: pattern.to_owned() }),
            Err(e) => Err(SubscribeError::InvalidRegex(e)),
        }
    }

    /// Whether the expression matches somewhere in `text`.
    pub fn is_match(&self, text: &str) -> (r: bool)
        ensures
            r == regex_is_match(self.pattern(), text@),
    {
        regex_find(self, text)
    }
}

/// Relies on `regex::Regex::is_match`, on a `ChannelRegex`, whose expression
/// was compiled from its source text by `ChannelRegex::new`.
#[verifier::external_body]
fn regex_find(cr: &ChannelRegex, text: &str) -> (r: bool)
    ensures
        r == regex_is_match(cr.pattern(), text@),
{
    cr.re.is_match(text)
}

/// What became of a payload offered to one subscription.
#[derive(Debug, Clone, Copy, PartialEq, Eq, Structural)]
pub enum Delivery {
    /// The channel did not match the subscription.
    Skipped,
    /// The message was queued for the subscriber.
    Delivered,
    /// The subscriber has gone away; the subscription is to be removed.
    Closed,
    /// The payload could not be decoded; the subscription stays.
    Failed,
}

/// The delivery that a trampoline's result stands for.
pub open spec fn delivery_of(r: Result<(), TrampolineError>) -> Delivery {
    match r {
        Ok(()) => Delivery::Delivered,
        Err(TrampolineError::MessageChannelClosed) => Delivery::Closed,
        Err(TrampolineError::Decode(_)) => Delivery::Failed,
    }
}

/// Classifies a trampoline's result.
pub fn delivery(r: &Result<(), TrampolineError>) -> (d: Delivery)
    ensures
        d == delivery_of(*r),
{
    match r {
        Ok(()) => Delivery::Delivered,
        Err(TrampolineError::MessageChannelClosed) => Delivery::Closed,
        Err(TrampolineError::Decode(_)) => Delivery::Failed,
    }
}

/// Decodes a hash-prefixed payload of type `M` and queues it, with its
/// channel, for the subscriber.
///
/// A payload that does not decode gives `Decode`; when the subscriber has
/// gone away the result is `MessageChannelClosed`; otherwise the message is
/// queued.
pub fn trampoline<M: Marshall>(hash: u64, tx: &Sender<(String, M)>, channel: &str, bytes: &[u8]) -> (r:
    Result<(), TrampolineError>)
    ensures
        match parse_with_hash::<M>(hash, bytes@) {
            Err(e) => r == Err::<(), TrampolineError>(TrampolineError::Decode(e)),
            Ok(_) => r is Ok || r == Err::<(), TrampolineError>(
                TrampolineError::MessageChannelClosed,
            ),
        },
{
    let message = match decode_with_hash::<M>(hash, bytes) {
        Ok(m) => m,
        Err(e) => {
            return Err(TrampolineError::Decode(e));
        },
    };
    if tx.is_closed() {
        return Err(TrampolineError::MessageChannelClosed);
    }
    tx.send((channel.to_owned(), message));
    Ok(())
}

/// Queues a payload as it is, with its channel, for a subscriber of raw bytes;
/// when the subscriber has gone away the result is `MessageChannelClosed`.
pub fn raw_trampoline(tx: &Sender<(String, Vec<u8>)>, channel: &str, bytes: &[u8]) -> (r: Result<
    (),
    TrampolineError,
>)
    ensures
        r is Ok || r == Err::<(), TrampolineError>(TrampolineError::MessageChannelClosed),
{
    if tx.is_closed() {
        return Err(TrampolineError::MessageChannelClosed);
    }
    let mut copy: Vec<u8> = Vec::new();
    crate::fragment::append_range(&mut copy, bytes, 0, bytes.len());
    tx.send((channel.to_owned(), copy));
    Ok(())
}

/// The subscriptions that are kept after a dispatch with the outcomes `ds`.
pub open spec fn kept<F>(subs: Seq<F>, ds: Seq<Delivery>) -> Seq<F>
    decreases subs.len(),
{
    if subs.len() == 0 || ds.len() == 0 {
        subs
    } else if ds.last() == Delivery::Closed {
        kept(subs.drop_last(), ds.drop_last())
    } else {
        kept(subs.drop_last(), ds.drop_last()).push(subs.last())
    }
}

/// Whether some outcome of `ds` is a delivery.
pub open spec fn any_delivered(ds: Seq<Delivery>) -> bool {
    exists|i: int| 0 <= i < ds.len() && ds[i] == Delivery::Delivered
}

/// The subscriptions of the receive side: one channel expression and one
/// trampoline (of type `F`) each, in the order they were added.
pub struct Dispatcher<F> {
    subscriptions: Vec<(ChannelRegex, F)>,
}

impl<F> Dispatcher<F> {
    /// The channel expressions, in order.
    pub closed spec fn patterns(&self) -> Seq<Seq<char>> {
        self.subscriptions@.map_values(|s: (ChannelRegex, F)| s.0.pattern())
    }

    /// The trampolines, in order.
    pub closed spec fn trampolines(&self) -> Seq<F> {
        self.subscriptions@.map_values(|s: (ChannelRegex, F)| s.1)
    }

    /// A dispatcher without subscriptions.
    pub fn new() -> (r: Dispatcher<F>)
        ensures
            r.patterns() == Seq::<Seq<char>>::empty(),
            r.trampolines() == Seq::<F>::empty(),
    {
        let r = Dispatcher { subscriptions: Vec::new() };
        assert(r.patterns() =~= Seq::<Seq<char>>::empty());
        assert(r.trampolines() =~= Seq::<F>::empty());
        r
    }

    /// The number of subscriptions.
    pub fn len(&self) -> (r: usize)
        ensures
            r == self.trampolines().len(),
    {
        self.subscriptions.len()
    }

    /// Adds a subscription at the end.
    pub fn subscribe(&mut self, re: ChannelRegex, f: F)
        ensures
            final(self).patterns() == old(self).patterns().push(re.pattern()),
            final(self).trampolines() == old(self).trampolines().push(f),
    {
        let ghost p = re.pattern();
        self.subscriptions.push((re, f));
        assert(self.patterns() =~= old(self).patterns().push(p));
        assert(self.trampolines() =~= old(self).trampolines().push(f));
    }

    /// The trampoline of subscription `i`.
    pub fn trampoline(&self, i: usize) -> (r: &F)
        requires
            i < self.trampolines().len(),
        ensures
            *r == self.trampolines()[i as int],
    {
        &self.subscriptions[i].1
    }

    /// For each subscription, whether its expression matches `channel`.
    pub fn matching(&self, channel: &str) -> (r: Vec<bool>)
        ensures
            r@.len() == self.patterns().len(),
            forall|i: int|
                0 <= i < r@.len() ==> r@[i] == regex_is_match(self.patterns()[i], channel@),
    {
        let mut r: Vec<bool> = Vec::new();
        let mut i: usize = 0;
        while i < self.subscriptions.len()
            invariant
                i <= self.subscriptions@.len(),
                r@.len() == i,
                forall|j: int|
                    0 <= j < i ==> r@[j] == regex_is_match(self.patterns()[j], channel@),
            decreases self.subscriptions@.len() - i,
        {
            r.push(self.subscriptions[i].0.is_match(channel));
            i = i + 1;
        }
        r
    }

    /// Applies the outcomes of a dispatch, one per subscription: subscriptions
    /// whose receiver has gone away are removed, the others kept in order.
    /// Returns whether some subscription took the message.
    pub fn retain_delivered(&mut self, ds: &Vec<Delivery>) -> (forwarded: bool)
        requires
            ds@.len() == old(self).trampolines().len(),
        ensures
            forwarded == any_delivered(ds@),
            final(self).trampolines() == kept(old(self).trampolines(), ds@),
            final(self).patterns() == kept(old(self).patterns(), ds@),
    {
        let ghost all = self.subscriptions@;
        let n = ds.len();
        let mut forwarded = false;
        let mut i: usize = 0;
        let mut k: usize = 0;
        while k < n
            invariant
                n == ds@.len(),
                n == all.len(),
                k <= n,
                i <= k,
                self.subscriptions@ == kept(all.subrange(0, k as int), ds@.subrange(0, k as int))
                    + all.subrange(k as int, n as int),
                i == kept(all.subrange(0, k as int), ds@.subrange(0, k as int)).len(),
                forwarded == (exists|j: int| 0 <= j < k && ds@[j] == Delivery::Delivered),
            decreases n - k,
        {
            let ghost before = kept(all.subrange(0, k as int), ds@.subrange(0, k as int));
            assert(all.subrange(0, k + 1).drop_last() =~= all.subrange(0, k as int));
            assert(ds@.subrange(0, k + 1).drop_last() =~= ds@.subrange(0, k as int));
            assert(self.subscriptions@[i as int] == all[k as int]);
            if ds[k] == Delivery::Closed {
                self.subscriptions.remove(i);
                assert(self.subscriptions@ =~= before + all.subrange(k + 1, n as int));
            } else {
                i = i + 1;
                assert(self.subscriptions@ =~= before.push(all[k as int]) + all.subrange(
                    k + 1,
                    n as int,
                ));
            }
            if ds[k] == Delivery::Delivered {
                forwarded = true;
            }
            k = k + 1;
        }
        assert(all.subrange(0, n as int) =~= all);
        assert(ds@.subrange(0, n as int) =~= ds@);
        assert(self.subscriptions@ =~= kept(all, ds@));
        proof {
            lemma_kept_map(all, ds@, |s: (ChannelRegex, F)| s.1);
            lemma_kept_map(all, ds@, |s: (ChannelRegex, F)| s.0.pattern());
        }
        forwarded
    }
}

impl<F: Fn(&str, &[u8]) -> Result<(), TrampolineError>> Dispatcher<F> {
    /// Offers a complete message to each subscription whose expression
    /// matches its channel, in order; the trampolines of the others are not
    /// called. Subscriptions whose receiver has gone away are removed.
    /// Returns whether some subscription took the message, and the outcome
    /// for each subscription.
    pub fn forward(&mut self, channel: &str, payload: &[u8]) -> (r: (bool, Ghost<Seq<Delivery>>))
        requires
            forall|i: int|
                0 <= i < old(self).trampolines().len() ==> #[trigger] old(self).trampolines()[i].requires(
                    (channel, payload),
                ),
        ensures
            r.1@.len() == old(self).trampolines().len(),
            forall|i: int|
                0 <= i < r.1@.len() && !regex_is_match(old(self).patterns()[i], channel@)
                    ==> #[trigger] r.1@[i] == Delivery::Skipped,
            forall|i: int|
                0 <= i < r.1@.len() && regex_is_match(old(self).patterns()[i], channel@)
                    ==> exists|res: Result<(), TrampolineError>|
                    old(self).trampolines()[i].ensures((channel, payload), res) && #[trigger] r.1@[i]
                        == delivery_of(res),
            r.0 == any_delivered(r.1@),
            final(self).trampolines() == kept(old(self).trampolines(), r.1@),
            final(self).patterns() == kept(old(self).patterns(), r.1@),
    {
        let matches = self.matching(channel);
        let n = self.subscriptions.len();
        let mut outcomes: Vec<Delivery> = Vec::new();
        let mut i: usize = 0;
        while i < n
            invariant
                n == self.trampolines().len(),
                self == old(self),
                matches@.len() == n,
                forall|j: int|
                    0 <= j < n ==> matches@[j] == regex_is_match(self.patterns()[j], channel@),
                forall|j: int|
                    0 <= j < n ==> #[trigger] self.trampolines()[j].requires((channel, payload)),
                i <= n,
                outcomes@.len() == i,
                forall|j: int|
                    0 <= j < i && !matches@[j] ==> #[trigger] outcomes@[j] == Delivery::Skipped,
                forall|j: int|
                    0 <= j < i && matches@[j] ==> exists|res: Result<(), TrampolineError>|
                        self.trampolines()[j].ensures((channel, payload), res) && #[trigger] outcomes@[j]
                            == delivery_of(res),
            decreases n - i,
        {
            if matches[i] {
                let f = self.trampoline(i);
                let res = f(channel, payload);
                let d = delivery(&res);
                outcomes.push(d);
                assert(self.trampolines()[i as int].ensures((channel, payload), res));
                assert(outcomes@[i as int] == delivery_of(res));
            } else {
                outcomes.push(Delivery::Skipped);
            }
            i = i + 1;
        }
        let forwarded = self.retain_delivered(&outcomes);
        (forwarded, Ghost(outcomes@))
    }
}

proof fn lemma_kept_map<A, B>(s: Seq<A>, ds: Seq<Delivery>, f: spec_fn(A) -> B)
    ensures
        kept(s.map_values(f), ds) == kept(s, ds).map_values(f),
    decreases s.len(),
{
    if s.len() > 0 && ds.len() > 0 {
        lemma_kept_map(s.drop_last(), ds.drop_last(), f);
        assert(s.map_values(f).drop_last() =~= s.drop_last().map_values(f));
        if ds.last() != Delivery::Closed {
            assert(kept(s.drop_last(), ds.drop_last()).push(s.last()).map_values(f) =~= kept(
                s.drop_last(),
                ds.drop_last(),
            ).map_values(f).push(f(s.last())));
        }
    }
}

} // verus!
