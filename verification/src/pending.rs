//! Pending-request tracker: aggregates the outstanding request outcomes
//! of one channel into a single completion signal.
//!
//! Responses carry no correlation ids; they are consumed strictly in
//! issue order.  The tracker hydrates its count lazily: the first
//! response after a quiet period takes a snapshot of the channel's
//! outstanding-request counter, and the whole batch completes exactly
//! once, as `Failed` if any response in it failed.

use vstd::prelude::*;

use crate::error::Error;

verus! {

/// The one aggregated outcome of a batch of requests.
#[derive(Clone, Copy, Debug, PartialEq, Eq)]
pub enum Completion {
    Success,
    Failed,
}

/// Per-channel response bookkeeping, owned by the dispatch loop.
#[derive(Clone, Copy, Debug, PartialEq, Eq)]
pub struct PendingRequests {
    /// How many responses of the current batch are still owed; unset
    /// between batches, and never `Some(0)`.
    pub pending: Option<usize>,
    /// Whether any response of the current batch failed.
    pub has_failed: bool,
}

/// A tracker is well formed when a set count is positive.
pub open spec fn wf_pending(t: PendingRequests) -> bool {
    t.pending matches Some(n) ==> n > 0
}

/// A tracker between batches: nothing pending, no failure recorded.
pub open spec fn spec_idle_tracker() -> PendingRequests {
    PendingRequests { pending: None, has_failed: false }
}

/// What one recorded response does: the tracker and outstanding-count
/// snapshot afterwards, and the completion it reports, if any.
pub open spec fn spec_record(t: PendingRequests, outstanding: usize, success: bool) -> Result<
    (PendingRequests, usize, Option<Completion>),
    Error,
> {
    let (t1, out1) = if t.pending is None {
        (
            PendingRequests {
                pending: if outstanding > 0 {
                    Some(outstanding)
                } else {
                    None
                },
                has_failed: false,
            },
            0usize,
        )
    } else {
        (t, outstanding)
    };
    match t1.pending {
        None => Err(Error::UnexpectedRequestResponse),
        Some(n) => {
            let failed = t1.has_failed || !success;
            if n == 1 {
                Ok(
                    (
                        PendingRequests { pending: None, has_failed: failed },
                        out1,
                        Some(
                            if failed {
                                Completion::Failed
                            } else {
                                Completion::Success
                            },
                        ),
                    ),
                )
            } else {
                Ok(
                    (
                        PendingRequests { pending: Some((n - 1) as usize), has_failed: failed },
                        out1,
                        None,
                    ),
                )
            }
        },
    }
}

/// Records one request response.
///
/// If no batch is in flight, first takes the channel's current
/// outstanding-request count as the new batch; a response with nothing
/// outstanding is a protocol violation.  Decrements the batch, ORs the
/// failure flag, and reports the aggregated completion exactly when the
/// batch's last response arrives.
pub fn record_response(tracker: &mut PendingRequests, outstanding: &mut usize, success: bool) -> (r:
    Result<Option<Completion>, Error>)
    requires
        wf_pending(*old(tracker)),
    ensures
        wf_pending(*final(tracker)),
        ({
            let s = spec_record(*old(tracker), *old(outstanding), success);
            match r {
                Ok(c) => s matches Ok(x) && x == (*final(tracker), *final(outstanding), c),
                Err(e) => (s matches Err(e2) && e == e2) && *final(tracker)
                    == spec_idle_tracker() && *final(outstanding) == *old(outstanding),
            }
        }),
{
    if tracker.pending.is_none() {
        if *outstanding > 0 {
            tracker.pending = Some(*outstanding);
            *outstanding = 0;
        } else {
            tracker.pending = None;
        }
        tracker.has_failed = false;
    }
    let n = match tracker.pending {
        Some(n) => n,
        None => {
            return Err(Error::UnexpectedRequestResponse);
        },
    };
    tracker.has_failed = tracker.has_failed || !success;
    if n == 1 {
        tracker.pending = None;
        let completion = if tracker.has_failed {
            Completion::Failed
        } else {
            Completion::Success
        };
        Ok(Some(completion))
    } else {
        tracker.pending = Some(n - 1);
        Ok(None)
    }
}

/// The tracker, snapshot and reported completions after a sequence of
/// responses, processed in order.
pub open spec fn spec_record_seq(t: PendingRequests, outstanding: usize, s: Seq<bool>) -> Result<
    (PendingRequests, usize, Seq<Completion>),
    Error,
>
    decreases s.len(),
{
    if s.len() == 0 {
        Ok((t, outstanding, Seq::empty()))
    } else {
        match spec_record(t, outstanding, s[0]) {
            Err(e) => Err(e),
            Ok((t1, o1, c)) => match spec_record_seq(t1, o1, s.drop_first()) {
                Err(e) => Err(e),
                Ok((t2, o2, cs)) => {
                    let head = match c {
                        Some(x) => seq![x],
                        None => Seq::empty(),
                    };
                    Ok((t2, o2, head + cs))
                },
            },
        }
    }
}

/// Whether any response in the batch failed.
pub open spec fn spec_any_failed(s: Seq<bool>) -> bool {
    exists|i: int| 0 <= i < s.len() && !s[i]
}

proof fn lemma_any_failed_step(s: Seq<bool>)
    requires
        s.len() > 0,
    ensures
        spec_any_failed(s) == (!s[0] || spec_any_failed(s.drop_first())),
{
    if !s[0] {
        assert(spec_any_failed(s));
    }
    if spec_any_failed(s.drop_first()) {
        let i = choose|i: int| 0 <= i < s.drop_first().len() && !s.drop_first()[i];
        assert(!s[i + 1]);
        assert(spec_any_failed(s));
    }
    if spec_any_failed(s) && s[0] {
        let i = choose|i: int| 0 <= i < s.len() && !s[i];
        assert(!s.drop_first()[i - 1]);
        assert(spec_any_failed(s.drop_first()));
    }
}

/// A batch already counted at exactly the responses left reports its one
/// completion on the last response and not before.
proof fn lemma_record_seq_full(t: PendingRequests, o: usize, s: Seq<bool>)
    requires
        0 < s.len() <= usize::MAX,
        t.pending == Some(s.len() as usize),
    ensures
        spec_record_seq(t, o, s) matches Ok(x) && x == (
            PendingRequests {
                pending: None,
                has_failed: t.has_failed || spec_any_failed(s),
            },
            o,
            seq![
                if t.has_failed || spec_any_failed(s) {
                    Completion::Failed
                } else {
                    Completion::Success
                },
            ],
        ),
    decreases s.len(),
{
    lemma_any_failed_step(s);
    let rest = s.drop_first();
    let step = spec_record(t, o, s[0]);
    if s.len() == 1 {
        let ta = PendingRequests { pending: None, has_failed: t.has_failed || !s[0] };
        assert(rest.len() == 0);
        assert(spec_record_seq(ta, o, rest) == Ok::<_, Error>(
            (ta, o, Seq::<Completion>::empty()),
        ));
        assert(spec_record_seq(t, o, s) matches Ok(x) && x.2 =~= seq![
            if t.has_failed || spec_any_failed(s) {
                Completion::Failed
            } else {
                Completion::Success
            },
        ]);
    } else {
        let t1 = PendingRequests {
            pending: Some((s.len() - 1) as usize),
            has_failed: t.has_failed || !s[0],
        };
        lemma_record_seq_full(t1, o, rest);
        assert(spec_record_seq(t, o, s) matches Ok(x) && x.2 =~= seq![
            if t.has_failed || spec_any_failed(s) {
                Completion::Failed
            } else {
                Completion::Success
            },
        ]);
    }
}

/// A batch counted strictly above the responses fed to it reports no
/// completion at all.
proof fn lemma_record_seq_prefix(t: PendingRequests, o: usize, s: Seq<bool>)
    requires
        t.pending matches Some(n) && n > s.len(),
    ensures
        spec_record_seq(t, o, s) matches Ok(x) && x.1 == o && x.2 == Seq::<Completion>::empty()
            && x.0.pending == Some((t.pending.unwrap() - s.len()) as usize),
    decreases s.len(),
{
    if s.len() > 0 {
        let n = t.pending.unwrap();
        let t1 = PendingRequests { pending: Some((n - 1) as usize), has_failed: t.has_failed || !s[0] };
        lemma_record_seq_prefix(t1, o, s.drop_first());
        assert(spec_record_seq(t, o, s) matches Ok(x) && x.2 =~= Seq::<Completion>::empty());
    }
}

/// Pending-request aggregation: a batch of `n` responses, hydrated from
/// an outstanding count of `n`, reports its completion exactly once,
/// after the last response and never earlier, and reports `Success` iff
/// every response in the batch succeeded.
pub proof fn lemma_pending_aggregation(n: usize, s: Seq<bool>)
    requires
        n > 0,
        s.len() == n,
    ensures
        spec_record_seq(spec_idle_tracker(), n, s) matches Ok(x) && x == (
            PendingRequests { pending: None, has_failed: spec_any_failed(s) },
            0usize,
            seq![
                if spec_any_failed(s) {
                    Completion::Failed
                } else {
                    Completion::Success
                },
            ],
        ),
        forall|k: int|
            0 <= k < n ==> ((#[trigger] spec_record_seq(
                spec_idle_tracker(),
                n,
                s.subrange(0, k),
            )) matches Ok(x) && x.2 == Seq::<Completion>::empty()),
{
    let t0 = spec_idle_tracker();
    lemma_any_failed_step(s);
    let rest = s.drop_first();
    if n == 1 {
        let ta = PendingRequests { pending: None, has_failed: !s[0] };
        assert(rest.len() == 0);
        assert(spec_record_seq(ta, 0, rest) == Ok::<_, Error>(
            (ta, 0usize, Seq::<Completion>::empty()),
        ));
        assert(spec_record_seq(t0, n, s) matches Ok(x) && x.2 =~= seq![
            if spec_any_failed(s) {
                Completion::Failed
            } else {
                Completion::Success
            },
        ]);
    } else {
        let t1 = PendingRequests { pending: Some((n - 1) as usize), has_failed: !s[0] };
        lemma_record_seq_full(t1, 0, rest);
        assert(spec_record_seq(t0, n, s) matches Ok(x) && x.2 =~= seq![
            if spec_any_failed(s) {
                Completion::Failed
            } else {
                Completion::Success
            },
        ]);
    }
    assert forall|k: int| 0 <= k < n implies (#[trigger] spec_record_seq(
        t0,
        n,
        s.subrange(0, k),
    )) matches Ok(x) && x.2 == Seq::<Completion>::empty() by {
        let p = s.subrange(0, k);
        if k == 0 {
            assert(spec_record_seq(t0, n, p) == Ok::<_, Error>((t0, n, Seq::<Completion>::empty())));
        } else {
            let t1 = PendingRequests { pending: Some((n - 1) as usize), has_failed: !p[0] };
            lemma_record_seq_prefix(t1, 0, p.drop_first());
            assert(spec_record_seq(t0, n, p) matches Ok(x) && x.2 =~= Seq::<Completion>::empty());
        }
    };
}

} // verus!
