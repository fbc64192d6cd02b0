//! Window controller: pure bookkeeping of the sender and receiver byte
//! budgets and the policy for emitting window-adjust acknowledgements.
//!
//! The sender window is a 64-bit counter credited by `BytesAdjust` frames
//! (saturating, never wrapping) and debited by the write path (saturating
//! at zero).  The receiver budget is debited as payload arrives; when it
//! reaches zero while a consumer is still listening, it is replenished to
//! exactly the advertisement quantum and an acknowledgement of that same
//! quantum is owed to the peer.

use vstd::prelude::*;

verus! {

/// Crediting a window saturates at the counter's top instead of wrapping.
pub open spec fn spec_credit(w: u64, add: u32) -> u64 {
    if w + add <= u64::MAX {
        (w + add) as u64
    } else {
        u64::MAX
    }
}

/// Debiting a window saturates at zero instead of wrapping.
pub open spec fn spec_debit(w: u64, sub: u64) -> u64 {
    if w >= sub {
        (w - sub) as u64
    } else {
        0
    }
}

/// One receiver-budget consumption: the budget after the call, and the
/// window-adjust amount owed to the peer, if any.
pub open spec fn spec_consume(win: u32, extend: u32, receivers: nat, cnt: u32) -> (u32, Option<
    u32,
>) {
    let reduced = if win >= cnt {
        (win - cnt) as u32
    } else {
        0u32
    };
    if reduced == 0 && receivers > 0 {
        (extend, Some(extend))
    } else {
        (reduced, None)
    }
}

/// Credits the peer-granted sender window, saturating instead of wrapping.
pub fn apply_sender_credit(sender_window_size: &mut u64, bytes_to_add: u32)
    ensures
        *final(sender_window_size) == spec_credit(*old(sender_window_size), bytes_to_add),
{
    if *sender_window_size <= u64::MAX - bytes_to_add as u64 {
        *sender_window_size = *sender_window_size + bytes_to_add as u64;
    } else {
        *sender_window_size = u64::MAX;
    }
}

/// Debits the sender window as the write path sends, saturating at zero.
pub fn debit_sender_window(sender_window_size: &mut u64, sent: u64)
    ensures
        *final(sender_window_size) == spec_debit(*old(sender_window_size), sent),
{
    if *sender_window_size >= sent {
        *sender_window_size = *sender_window_size - sent;
    } else {
        *sender_window_size = 0;
    }
}

/// Consumes `cnt` bytes of the receiver budget, saturating at zero.  If
/// the budget hits zero while `receivers_count > 0`, replenishes it to
/// the quantum `extend_window_size` and returns that amount, which the
/// dispatch loop must acknowledge to the peer; otherwise returns `None`.
pub fn consume_receiver_budget(
    receiver_win_size: &mut u32,
    extend_window_size: u32,
    receivers_count: usize,
    cnt: u32,
) -> (adjust: Option<u32>)
    ensures
        (*final(receiver_win_size), adjust) == spec_consume(
            *old(receiver_win_size),
            extend_window_size,
            receivers_count as nat,
            cnt,
        ),
{
    if *receiver_win_size >= cnt {
        *receiver_win_size = *receiver_win_size - cnt;
    } else {
        *receiver_win_size = 0;
    }
    if *receiver_win_size == 0 && receivers_count > 0 {
        *receiver_win_size = extend_window_size;
        Some(extend_window_size)
    } else {
        None
    }
}

/// The receiver budget after a whole sequence of consumptions, and how
/// many window-adjust acknowledgements the sequence emitted.
pub open spec fn spec_consume_seq(win: u32, extend: u32, receivers: nat, cnts: Seq<u32>) -> (
    u32,
    int,
)
    decreases cnts.len(),
{
    if cnts.len() == 0 {
        (win, 0)
    } else {
        let (w1, adj) = spec_consume(win, extend, receivers, cnts[0]);
        let (wr, n) = spec_consume_seq(w1, extend, receivers, cnts.drop_first());
        (
            wr,
            n + if adj is Some {
                1int
            } else {
                0int
            },
        )
    }
}

/// Total bytes a sequence of consumptions asks for.
pub open spec fn spec_total(cnts: Seq<u32>) -> int
    decreases cnts.len(),
{
    if cnts.len() == 0 {
        0
    } else {
        cnts[0] + spec_total(cnts.drop_first())
    }
}

pub proof fn lemma_total_nonneg(cnts: Seq<u32>)
    ensures
        spec_total(cnts) >= 0,
    decreases cnts.len(),
{
    if cnts.len() > 0 {
        lemma_total_nonneg(cnts.drop_first());
    }
}

/// Whether every consumption fits in the budget current when it happens:
/// the peer never sends past the window it was granted.
pub open spec fn spec_fits(win: u32, extend: u32, receivers: nat, cnts: Seq<u32>) -> bool
    decreases cnts.len(),
{
    if cnts.len() == 0 {
        true
    } else {
        cnts[0] <= win && spec_fits(
            spec_consume(win, extend, receivers, cnts[0]).0,
            extend,
            receivers,
            cnts.drop_first(),
        )
    }
}

/// While no consumer is listening, no window-adjust acknowledgement is
/// ever emitted, whatever arrives and however much.
pub proof fn lemma_no_receivers_no_adjust(win: u32, extend: u32, cnts: Seq<u32>)
    ensures
        spec_consume_seq(win, extend, 0, cnts).1 == 0,
    decreases cnts.len(),
{
    if cnts.len() > 0 {
        let (w1, adj) = spec_consume(win, extend, 0, cnts[0]);
        lemma_no_receivers_no_adjust(w1, extend, cnts.drop_first());
    }
}

/// With a consumer continuously present, a starting budget `win` and a
/// replenishment quantum `extend`, a sequence of in-window consumptions
/// totalling `C` emits no acknowledgement until the initial budget is
/// exhausted and one per quantum after that, and leaves the budget one
/// quantum-aligned distance short of full.
pub proof fn lemma_window_adjust_count(
    win: u32,
    extend: u32,
    receivers: nat,
    cnts: Seq<u32>,
)
    requires
        0 < win <= extend,
        receivers > 0,
        spec_fits(win, extend, receivers, cnts),
    ensures
        ({
            let c = spec_total(cnts);
            let (w, n) = spec_consume_seq(win, extend, receivers, cnts);
            &&& n == if c < win {
                0int
            } else {
                1 + (c - win) / (extend as int)
            }
            &&& w == if c < win {
                (win - c) as u32
            } else {
                (extend - ((c - win) % (extend as int))) as u32
            }
            &&& 0 < w <= extend
        }),
    decreases cnts.len(),
{
    let e = extend as int;
    lemma_total_nonneg(cnts);
    if cnts.len() == 0 {
    } else {
        let c0 = cnts[0];
        let (w1, adj) = spec_consume(win, extend, receivers, c0);
        let rest = cnts.drop_first();
        let crest = spec_total(rest);
        let c = spec_total(cnts);
        lemma_total_nonneg(rest);
        if c0 < win {
            lemma_window_adjust_count((win - c0) as u32, extend, receivers, rest);
        } else {
            assert(c0 == win);
            lemma_window_adjust_count(extend, extend, receivers, rest);
            let (wr, nr) = spec_consume_seq(extend, extend, receivers, rest);
            if crest < e {
                vstd::arithmetic::div_mod::lemma_basic_div(crest, e);
                vstd::arithmetic::div_mod::lemma_small_mod(crest as nat, extend as nat);
            } else {
                vstd::arithmetic::div_mod::lemma_div_plus_one(crest - e, e);
                vstd::arithmetic::div_mod::lemma_mod_add_multiples_vanish(crest - e, e);
                vstd::arithmetic::div_mod::lemma_mod_bound(crest - e, e);
            }
        }
    }
}

/// The published form of the replenishment count: starting from a full
/// budget equal to the quantum `extend`, a sequence of in-window
/// consumptions totalling `C` emits exactly `C / extend` window-adjust
/// acknowledgements.
pub proof fn lemma_window_monotonicity(extend: u32, receivers: nat, cnts: Seq<u32>)
    requires
        extend > 0,
        receivers > 0,
        spec_fits(extend, extend, receivers, cnts),
    ensures
        spec_consume_seq(extend, extend, receivers, cnts).1 == spec_total(cnts) / (extend as int),
{
    let e = extend as int;
    let c = spec_total(cnts);
    lemma_total_nonneg(cnts);
    lemma_window_adjust_count(extend, extend, receivers, cnts);
    if c < e {
        vstd::arithmetic::div_mod::lemma_basic_div(c, e);
    } else {
        vstd::arithmetic::div_mod::lemma_div_plus_one(c - e, e);
    }
}

/// Two maximal credits in a row stay exact: the 64-bit counter does not
/// saturate, let alone wrap, so sender credits are never lost this side
/// of a window 2^32 short of the counter's top.
pub proof fn lemma_double_max_credit(w: u64)
    requires
        w <= u64::MAX - 2 * (u32::MAX as u64),
    ensures
        spec_credit(spec_credit(w, u32::MAX), u32::MAX) == w + 2 * (u32::MAX as u64),
{
}

} // verus!
