//! The pacing side of the prefetch pipeline: byte credit that a background
//! reader hands over as chunk lengths on a bounded channel.
use std::sync::mpsc::Receiver;
use vstd::prelude::*;

verus! {

#[verifier::external_type_specification]
#[verifier::external_body]
#[verifier::reject_recursive_types(T)]
pub struct ExReceiver<T>(Receiver<T>);

/// Relies on `std::sync::mpsc::Receiver::recv`: it blocks until a chunk
/// length arrives, and fails once every sender is gone and the queue is
/// drained. Which length comes depends on the producer thread, so nothing is
/// stated of it.
#[verifier::external_body]
fn receive(chan: &Receiver<usize>) -> (r: Option<usize>) {
    chan.recv().ok()
}

/// The outcome of asking for `need` bytes with `credit` in hand when the
/// chunks `q` are queued in that order: whether the stream ended first, how
/// many chunks were taken, and the credit left. While the credit in hand does
/// not exceed the need, the next chunk replaces it and the need shrinks by
/// the credit spent; a missing or empty chunk is the end of the stream, which
/// leaves the unspent credit in hand.
pub open spec fn pay(credit: int, need: int, q: Seq<usize>) -> (bool, nat, int)
    decreases q.len(),
{
    if credit > need {
        (false, 0, credit - need)
    } else if q.len() == 0 || q[0] == 0 {
        (true, 0, credit)
    } else {
        let r = pay(q[0] as int, need - credit, q.drop_first());
        (r.0, r.1 + 1, r.2)
    }
}

/// Starting with `credit` bytes in hand and `need` bytes wanted, receiving
/// the non-empty chunks `got` one after another, each while the credit in
/// hand did not exceed what was still wanted, leads to `credit_now` in hand
/// and `need_now` still wanted.
spec fn drawn(credit: int, need: int, got: Seq<usize>, credit_now: int, need_now: int) -> bool
    decreases got.len(),
{
    if got.len() == 0 {
        credit == credit_now && need == need_now
    } else {
        credit <= need && got[0] > 0 && drawn(
            got[0] as int,
            need - credit,
            got.drop_first(),
            credit_now,
            need_now,
        )
    }
}

proof fn lemma_drawn_push(credit: int, need: int, got: Seq<usize>, c: int, n: int, chunk: usize)
    requires
        drawn(credit, need, got, c, n),
        c <= n,
        chunk > 0,
    ensures
        drawn(credit, need, got.push(chunk), chunk as int, n - c),
    decreases got.len(),
{
    if got.len() > 0 {
        lemma_drawn_push(got[0] as int, need - credit, got.drop_first(), c, n, chunk);
        assert(got.push(chunk).drop_first() =~= got.drop_first().push(chunk));
        assert(got.push(chunk)[0] == got[0]);
    } else {
        assert(got.push(chunk).drop_first() =~= Seq::<usize>::empty());
        assert(got.push(chunk)[0] == chunk);
        assert(drawn(chunk as int, need - credit, Seq::<usize>::empty(), chunk as int, n - c));
    }
}

/// The chunks drawn so far lead `pay` to the state reached, whatever follows.
proof fn lemma_drawn_pay(credit: int, need: int, got: Seq<usize>, c: int, n: int, rest: Seq<usize>)
    requires
        drawn(credit, need, got, c, n),
    ensures
        ({
            let whole = pay(credit, need, got + rest);
            let tail = pay(c, n, rest);
            whole == (tail.0, tail.1 + got.len(), tail.2)
        }),
    decreases got.len(),
{
    if got.len() > 0 {
        lemma_drawn_pay(got[0] as int, need - credit, got.drop_first(), c, n, rest);
        assert((got + rest).drop_first() =~= got.drop_first() + rest);
        assert((got + rest)[0] == got[0]);
    } else {
        assert(got + rest =~= rest);
    }
}

proof fn lemma_pay_taken_bound(credit: int, need: int, q: Seq<usize>)
    ensures
        pay(credit, need, q).1 <= q.len(),
    decreases q.len(),
{
    if credit <= need && q.len() > 0 && q[0] > 0 {
        lemma_pay_taken_bound(q[0] as int, need - credit, q.drop_first());
    }
}

/// After a refill, the credit left over is at most the last chunk taken;
/// without one it is what was in hand less the request.
pub proof fn lemma_pay_left_within_chunk(credit: int, need: int, q: Seq<usize>)
    requires
        need >= 0,
        !pay(credit, need, q).0,
    ensures
        ({
            let r = pay(credit, need, q);
            &&& 1 <= r.2
            &&& r.1 == 0 ==> r.2 == credit - need
            &&& r.1 > 0 ==> r.2 <= q[r.1 - 1]
        }),
    decreases q.len(),
{
    if credit <= need {
        let t = q.drop_first();
        lemma_pay_left_within_chunk(q[0] as int, need - credit, t);
        let r = pay(q[0] as int, need - credit, t);
        lemma_pay_taken_bound(q[0] as int, need - credit, t);
        if r.1 > 0 {
            assert(q[r.1 as int] == t[r.1 - 1]);
        }
    }
}

/// Asking for `a1 + a2` bytes at once ends as asking for `a1` and then `a2`
/// from what is left: the same result, the same number of chunks taken in
/// all, and the same credit left when the stream has not ended.
pub proof fn lemma_pay_split(credit: int, a1: int, a2: int, q: Seq<usize>)
    requires
        credit >= 0,
        a1 >= 0,
        a2 >= 0,
        !pay(credit, a1, q).0,
    ensures
        ({
            let first = pay(credit, a1, q);
            let second = pay(first.2, a2, q.skip(first.1 as int));
            let both = pay(credit, a1 + a2, q);
            &&& both.0 == second.0
            &&& both.1 == first.1 + second.1
            &&& !both.0 ==> both.2 == second.2
        }),
    decreases q.len(),
{
    assert(q.skip(0) =~= q);
    if credit <= a1 {
        lemma_pay_split(q[0] as int, a1 - credit, a2, q.drop_first());
        let k = pay(q[0] as int, a1 - credit, q.drop_first()).1;
        lemma_pay_taken_bound(q[0] as int, a1 - credit, q.drop_first());
        assert(q.drop_first().skip(k as int) =~= q.skip(k as int + 1));
    }
}

/// A smaller request takes no more chunks than a larger one, and if it meets
/// the end of the stream, so does the larger one.
pub proof fn lemma_pay_monotone(credit: int, a1: int, a2: int, q: Seq<usize>)
    requires
        a1 <= a2,
    ensures
        pay(credit, a1, q).1 <= pay(credit, a2, q).1,
        pay(credit, a1, q).0 ==> pay(credit, a2, q).0,
    decreases q.len(),
{
    if credit <= a1 && q.len() > 0 && q[0] > 0 {
        lemma_pay_monotone(q[0] as int, a1 - credit, a2 - credit, q.drop_first());
    }
}

/// One refill: with `local` in hand not exceeding `need`, a non-empty chunk
/// replaces the credit and the need shrinks by the credit spent. A closed
/// channel or an empty chunk gives `None`, the end of the stream.
pub fn absorb(local: usize, need: usize, got: Option<usize>) -> (r: Option<(usize, usize)>)
    requires
        local <= need,
    ensures
        (got matches Some(m) && m > 0) ==> r == Some((got->0, (need - local) as usize)),
        !(got matches Some(m) && m > 0) ==> r is None,
{
    match got {
        Some(m) if m > 0 => Some((m, need - local)),
        _ => None,
    }
}

/// Asks for `amount` bytes with `local` in hand from the queued `chunks`.
/// Returns whether the stream ended first, how many chunks were taken, and
/// the credit left, exactly as `pay` says.
pub fn read_queue(local: usize, amount: usize, chunks: &Vec<usize>) -> (r: (bool, usize, usize))
    ensures
        pay(local as int, amount as int, chunks@) == (r.0, r.1 as nat, r.2 as int),
{
    let ghost q = chunks@;
    let mut credit = local;
    let mut need = amount;
    let mut k: usize = 0;
    assert(q.skip(0) =~= q);
    loop
        invariant
            q == chunks@,
            k <= q.len(),
            ({
                let whole = pay(local as int, amount as int, q);
                let tail = pay(credit as int, need as int, q.skip(k as int));
                whole == (tail.0, (tail.1 + k) as nat, tail.2)
            }),
        decreases q.len() - k,
    {
        if credit > need {
            return (false, k, credit - need);
        }
        let got = if k < chunks.len() {
            Some(chunks[k])
        } else {
            None
        };
        match absorb(credit, need, got) {
            Some((c, n)) => {
                assert(q.skip(k as int).drop_first() =~= q.skip(k as int + 1));
                assert(q.skip(k as int)[0] == q[k as int]);
                credit = c;
                need = n;
                k = k + 1;
            },
            None => {
                if k < chunks.len() {
                    assert(q.skip(k as int)[0] == q[k as int]);
                }
                return (true, k, credit);
            },
        }
    }
}

/// Credit already received from the prefetch reader and the channel it
/// arrives on.
pub struct Buffered {
    pub local: usize,
    pub chan: Receiver<usize>,
}

impl Buffered {
    /// Starts with no credit in hand.
    pub fn new(chan: Receiver<usize>) -> (r: Buffered)
        ensures
            r.local == 0,
    {
        Buffered { local: 0, chan }
    }
}

/// Consumes `amount` bytes of credit, receiving more chunks through `absorb`
/// while the credit in hand does not exceed what is still wanted. Returns
/// `false` once the credit covers the amount with some to spare, leaving the
/// spare in hand; returns `true` (end of stream) when the channel closes
/// first or hands over an empty chunk, which the reader never sends before
/// its end. Either way the outcome is `pay` over the chunks received, every
/// one of which was taken.
pub fn read_buffer(buffered: &mut Buffered, amount: usize) -> (eof: bool)
    ensures
        exists|got: Seq<usize>|
            pay(old(buffered).local as int, amount as int, got) == (
                eof,
                got.len(),
                final(buffered).local as int,
            ),
{
    let ghost start = buffered.local as int;
    let ghost mut got: Seq<usize> = Seq::empty();
    let mut need = amount;
    loop
        invariant
            drawn(start, amount as int, got, buffered.local as int, need as int),
            start == old(buffered).local,
        decreases need, (if buffered.local == 0 { 1int } else { 0int }),
    {
        if buffered.local > need {
            proof {
                lemma_drawn_pay(start, amount as int, got, buffered.local as int, need as int, Seq::empty());
                assert(got + Seq::<usize>::empty() =~= got);
            }
            buffered.local = buffered.local - need;
            return false;
        }
        let ghost before = got;
        let ghost c = buffered.local as int;
        match absorb(buffered.local, need, receive(&buffered.chan)) {
            Some((more, rest)) => {
                proof {
                    lemma_drawn_push(start, amount as int, before, c, need as int, more);
                    got = before.push(more);
                }
                need = rest;
                buffered.local = more;
            },
            None => {
                proof {
                    lemma_drawn_pay(start, amount as int, got, c, need as int, Seq::empty());
                    assert(got + Seq::<usize>::empty() =~= got);
                }
                return true;
            },
        }
    }
}

} // verus!
