use mux_client::queue::BytesQueue;
use mux_client::window::apply_sender_credit;
use mux_client::window::consume_receiver_budget;
use mux_client::window::debit_sender_window;

#[test]
fn consume_within_budget_emits_nothing() {
    let mut win: u32 = 10;
    let adjust = consume_receiver_budget(&mut win, 10, 1, 4);
    assert_eq!(win, 6);
    assert_eq!(adjust, None);
}

#[test]
fn consume_to_zero_replenishes_the_quantum() {
    let mut win: u32 = 6;
    let adjust = consume_receiver_budget(&mut win, 10, 1, 6);
    assert_eq!(win, 10);
    assert_eq!(adjust, Some(10));
}

#[test]
fn oversend_saturates_then_replenishes() {
    let mut win: u32 = 5;
    let adjust = consume_receiver_budget(&mut win, 10, 2, 9);
    assert_eq!(win, 10);
    assert_eq!(adjust, Some(10));
}

#[test]
fn no_receivers_means_no_replenishment() {
    let mut win: u32 = 5;
    let adjust = consume_receiver_budget(&mut win, 10, 0, 9);
    assert_eq!(win, 0);
    assert_eq!(adjust, None);
}

#[test]
fn window_adjust_count_matches_quotient() {
    // Quantum 10, consumer present, every consumption within the
    // current budget: 7 consumptions of 5 bytes total 35, exactly
    // 35 / 10 == 3 acknowledgements.
    let mut win: u32 = 10;
    let mut adjusts: u32 = 0;
    for _ in 0..7 {
        assert!(5 <= win);
        if consume_receiver_budget(&mut win, 10, 1, 5).is_some() {
            adjusts += 1;
        }
    }
    assert_eq!(adjusts, 3);
    assert_eq!(win, 5);
}

#[test]
fn sender_credit_is_exact_below_the_top() {
    let mut w: u64 = 0;
    apply_sender_credit(&mut w, u32::MAX);
    apply_sender_credit(&mut w, u32::MAX);
    assert_eq!(w, 2 * (u32::MAX as u64));
}

#[test]
fn sender_credit_saturates_at_the_top() {
    let mut w: u64 = u64::MAX - 5;
    apply_sender_credit(&mut w, 10);
    assert_eq!(w, u64::MAX);
}

#[test]
fn sender_debit_saturates_at_zero() {
    let mut w: u64 = 50;
    debit_sender_window(&mut w, 100);
    assert_eq!(w, 0);
    debit_sender_window(&mut w, 1);
    assert_eq!(w, 0);
}

#[test]
fn queue_counts_and_pops_in_order() {
    let mut q = BytesQueue::new();
    assert_eq!(q.readable_bytes(), 0);
    q.push_bytes(vec![1, 2, 3]);
    q.push_bytes(vec![4]);
    assert_eq!(q.chunk_count(), 2);
    assert_eq!(q.readable_bytes(), 4);
    assert_eq!(q.pop_chunk(), Some(vec![1, 2, 3]));
    assert_eq!(q.pop_chunk(), Some(vec![4]));
    assert_eq!(q.pop_chunk(), None);
}

#[test]
fn queue_eof_is_idempotent() {
    let mut q = BytesQueue::new();
    q.push_bytes(vec![9]);
    q.mark_eof();
    assert!(q.is_eof());
    q.mark_eof();
    assert!(q.is_eof());
    assert_eq!(q.readable_bytes(), 1);
}
