use std::any::Any;
use std::sync::Arc;
use std::time::Instant;
use trade_lang_core::context::{HandleAction, WaitAction, WaitStage};
use trade_lang_core::{CancellationToken, ContextHeap, MonitorMessage, TradeTaskContext};

type Value = dyn Any + Send + Sync;
type Heap = ContextHeap<String, Value, u32>;

fn value<T: Any + Send + Sync>(v: T) -> Arc<Value> {
    Arc::new(v)
}

fn cast<T: Any + Send + Sync>(v: Arc<Value>) -> Option<Arc<T>> {
    v.downcast::<T>().ok()
}

/// Actions as text: `w` wakes, `+n` confirms, `-n` cancels.
fn shown(actions: Vec<HandleAction<u32>>) -> String {
    let mut text = String::new();
    for action in actions {
        match action {
            HandleAction::WakeWaiters => text.push_str("w "),
            HandleAction::Confirm(h) => text.push_str(&format!("+{} ", h)),
            HandleAction::Cancel(h) => text.push_str(&format!("-{} ", h)),
        }
    }
    text.trim_end().to_string()
}

#[test]
fn a_variable_reads_as_it_was_written() {
    let mut heap = Heap::new();
    let ctx = TradeTaskContext::new(&mut heap);
    assert_eq!(ctx.get_var_sync(&heap, "x"), None);
    ctx.set_var_sync(&mut heap, "x", "1".to_string());
    ctx.set_var_sync(&mut heap, "y", "2".to_string());
    ctx.set_var_sync(&mut heap, "x", "3".to_string());
    assert_eq!(ctx.get_var_sync(&heap, "x"), Some("3".to_string()));
    assert_eq!(ctx.get_var_sync(&heap, "y"), Some("2".to_string()));
}

#[test]
fn a_snapshot_keeps_what_was_there() {
    let mut heap = Heap::new();
    let ctx = TradeTaskContext::new(&mut heap);
    ctx.set_var_sync(&mut heap, "x", "1".to_string());
    ctx.set_var_sync(&mut heap, "y", "2".to_string());
    let copy = ctx.snapshot_vars_sync(&heap);
    ctx.set_var_sync(&mut heap, "x", "3".to_string());
    assert_eq!(copy.get("x"), Some(&"1".to_string()));
    assert_eq!(copy.get("z"), None);
    let mut entries = copy.into_entries();
    entries.sort();
    assert_eq!(
        entries,
        vec![("x".to_string(), "1".to_string()), ("y".to_string(), "2".to_string())]
    );
}

#[test]
fn a_child_shares_variables_values_and_the_buy_flag() {
    let mut heap = Heap::new();
    let parent = TradeTaskContext::new(&mut heap);
    let child = TradeTaskContext::spawn_child(&mut heap, &parent);
    assert_eq!(child.start, parent.start);
    child.set_var_sync(&mut heap, "x", "1".to_string());
    assert_eq!(parent.get_var_sync(&heap, "x"), Some("1".to_string()));
    parent.produce_context_sync(&mut heap, "hint", value(7u32));
    assert!(child.has_context_sync(&heap, "hint"));
    parent.confirm_all_handles(&mut heap);
    assert!(child.is_buy_confirmed(&heap));
}

#[test]
fn contexts_of_their_own_share_nothing() {
    let mut heap = Heap::new();
    let a = TradeTaskContext::new(&mut heap);
    let b = TradeTaskContext::new(&mut heap);
    a.set_var_sync(&mut heap, "x", "1".to_string());
    a.produce_context_sync(&mut heap, "p", value(1u8));
    a.confirm_all_handles(&mut heap);
    a.signal_done(&mut heap);
    assert_eq!(b.get_var_sync(&heap, "x"), None);
    assert!(!b.has_context_sync(&heap, "p"));
    assert!(!b.is_buy_confirmed(&heap));
    assert!(!b.is_done(&heap));
}

#[test]
fn a_copy_shares_everything() {
    let mut heap = Heap::new();
    let a = TradeTaskContext::new(&mut heap);
    let b = a.clone();
    assert_eq!(b.push_confirm_handle(&mut heap, 1).is_none(), true);
    assert_eq!(shown(a.confirm_all_handles(&mut heap)), "w +1");
    a.signal_done(&mut heap);
    assert!(b.is_done(&heap));
}

#[test]
fn a_signal_goes_down_and_not_up() {
    let mut heap = Heap::new();
    let parent = TradeTaskContext::new(&mut heap);
    let child = TradeTaskContext::spawn_child(&mut heap, &parent);
    let grandchild = TradeTaskContext::spawn_child(&mut heap, &child);
    let sibling = TradeTaskContext::spawn_child(&mut heap, &parent);
    child.signal_done(&mut heap);
    assert!(child.is_done(&heap));
    assert!(grandchild.is_done(&heap));
    assert!(!parent.is_done(&heap));
    assert!(!sibling.is_done(&heap));
    parent.signal_done(&mut heap);
    assert!(parent.is_done(&heap));
    assert!(sibling.is_done(&heap));
    let late = TradeTaskContext::spawn_child(&mut heap, &parent);
    assert!(late.is_done(&heap));
}

#[test]
fn tokens_are_cancelled_with_the_signal() {
    let mut heap = Heap::new();
    let parent = TradeTaskContext::new(&mut heap);
    let child = TradeTaskContext::spawn_child(&mut heap, &parent);
    let (p, c) = (parent.done_token(&heap), child.done_token(&heap));
    let handed = child.child_token(&heap);
    assert!(!p.is_cancelled() && !c.is_cancelled() && !handed.is_cancelled());
    assert!(handed != c);
    child.signal_done(&mut heap);
    assert!(!p.is_cancelled() && c.is_cancelled() && handed.is_cancelled());
    assert!(child.child_token(&heap).is_cancelled());
    parent.signal_done(&mut heap);
    assert!(p.is_cancelled());
}

#[test]
fn a_token_cancelled_elsewhere_is_seen() {
    let mut heap = Heap::new();
    let ctx = TradeTaskContext::new(&mut heap);
    let child = TradeTaskContext::spawn_child(&mut heap, &ctx);
    ctx.done_token(&heap).cancel();
    assert!(ctx.is_done(&heap));
    assert!(child.is_done(&heap));
}

#[test]
fn what_is_below_a_cancelled_token_is_done() {
    let token = CancellationToken::new();
    let other = CancellationToken::new();
    let mut heap = Heap::new();
    let ctx = TradeTaskContext::with_parent_cancel(&mut heap, &token);
    let child = TradeTaskContext::spawn_child(&mut heap, &ctx);
    assert!(!child.is_done_below(&heap, &token));
    other.cancel();
    assert!(!child.is_done_below(&heap, &other));
    token.cancel();
    assert!(ctx.is_done_below(&heap, &token));
    assert!(child.is_done_below(&heap, &token));
}

#[test]
fn tokens_handed_out_are_found_cancelled() {
    let mut heap = Heap::new();
    let ctx = TradeTaskContext::new(&mut heap);
    let handed = ctx.child_token(&heap);
    let (own, below) = (ctx.done_token(&heap), handed.child_token());
    let other = CancellationToken::new();
    assert!(!ctx.finds_cancelled(&heap, &handed));
    ctx.signal_done(&mut heap);
    assert!(ctx.finds_cancelled(&heap, &own));
    assert!(ctx.finds_cancelled(&heap, &handed));
    assert!(ctx.finds_cancelled(&heap, &below));
    assert!(!ctx.finds_cancelled(&heap, &other));
    other.cancel();
    assert!(ctx.finds_cancelled(&heap, &other));
}

#[test]
fn tokens_handed_out_late_are_cancelled_below_a_done_parent() {
    let mut heap = Heap::new();
    let parent = TradeTaskContext::new(&mut heap);
    let child = TradeTaskContext::spawn_child(&mut heap, &parent);
    parent.signal_done(&mut heap);
    assert!(child.is_done(&heap));
    assert!(child.done_token(&heap).is_cancelled());
    assert!(child.child_token(&heap).is_cancelled());
}

#[test]
fn a_signal_reaches_contexts_of_another_heap() {
    let (mut heap, mut far) = (Heap::new(), Heap::new());
    let ctx = TradeTaskContext::new(&mut heap);
    let token = ctx.done_token(&heap);
    let follower = TradeTaskContext::with_parent_cancel(&mut far, &token);
    let its_child = TradeTaskContext::spawn_child(&mut far, &follower);
    follower.signal_done(&mut far);
    assert!(!ctx.is_done(&heap));
    let second = TradeTaskContext::with_parent_cancel(&mut far, &token);
    assert!(!second.is_done_below(&far, &token));
    ctx.signal_done(&mut heap);
    assert!(second.is_done_below(&far, &token));
    assert!(its_child.is_done(&far));
}

#[test]
fn a_second_signal_changes_nothing() {
    let mut heap = Heap::new();
    let parent = TradeTaskContext::new(&mut heap);
    let child = TradeTaskContext::spawn_child(&mut heap, &parent);
    let sibling = TradeTaskContext::spawn_child(&mut heap, &parent);
    for _ in 0..2 {
        child.signal_done(&mut heap);
        assert!(child.is_done(&heap));
        assert!(!parent.is_done(&heap));
        assert!(!sibling.is_done(&heap));
    }
}

#[test]
fn a_parent_token_cancels_the_context_and_not_the_other_way() {
    let token = CancellationToken::new();
    let mut heap = Heap::new();
    let a = TradeTaskContext::with_parent_cancel(&mut heap, &token);
    let b = TradeTaskContext::with_parent_cancel(&mut heap, &token);
    a.signal_done(&mut heap);
    assert!(a.is_done(&heap));
    assert!(!token.is_cancelled());
    assert!(!b.is_done(&heap));
    token.cancel();
    assert!(b.is_done(&heap));
    let late = TradeTaskContext::with_parent_cancel(&mut heap, &token);
    assert!(late.is_done(&heap));
}

#[test]
fn the_heap_signals_a_parent_token_too() {
    let token = CancellationToken::new();
    let mut heap = Heap::new();
    let ctx = TradeTaskContext::with_parent_cancel(&mut heap, &token);
    heap.signal(ctx.cancel - 1);
    assert!(token.is_cancelled());
    assert!(ctx.is_done(&heap));
}

#[test]
fn the_first_value_of_a_protocol_is_found() {
    let mut heap = Heap::new();
    let ctx = TradeTaskContext::new(&mut heap);
    assert_eq!(ctx.get_context_sync(&heap, "p", cast::<u32>), None);
    ctx.produce_context_sync(&mut heap, "p", value(1u32));
    ctx.produce_context_sync(&mut heap, "q", value("text"));
    ctx.produce_context_sync(&mut heap, "p", value(2u32));
    assert_eq!(ctx.get_context_sync(&heap, "p", cast::<u32>), Some(Arc::new(1u32)));
    assert_eq!(ctx.get_context_sync(&heap, "q", cast::<&'static str>), Some(Arc::new("text")));
    assert_eq!(ctx.consume_context_sync(&mut heap, "p", cast::<u32>), Some(Arc::new(1u32)));
    assert_eq!(ctx.get_context_sync(&heap, "p", cast::<u32>), Some(Arc::new(2u32)));
    assert_eq!(ctx.consume_context_sync(&mut heap, "p", cast::<u32>), Some(Arc::new(2u32)));
    assert_eq!(ctx.consume_context_sync(&mut heap, "p", cast::<u32>), None);
    assert!(!ctx.has_context_sync(&heap, "p"));
    assert!(ctx.has_context_sync(&heap, "q"));
}

#[test]
fn the_last_value_takes_the_place_of_one_taken_out() {
    let mut heap = Heap::new();
    let ctx = TradeTaskContext::new(&mut heap);
    ctx.produce_context_sync(&mut heap, "a", value(1u32));
    ctx.produce_context_sync(&mut heap, "b", value(2u32));
    ctx.produce_context_sync(&mut heap, "b", value(3u32));
    ctx.consume_context_sync(&mut heap, "a", cast::<u32>);
    assert_eq!(ctx.get_context_sync(&heap, "b", cast::<u32>), Some(Arc::new(3u32)));
}

#[test]
fn a_value_of_another_type_is_not_given_back() {
    let mut heap = Heap::new();
    let ctx = TradeTaskContext::new(&mut heap);
    ctx.produce_context_sync(&mut heap, "p", value(1u32));
    assert_eq!(ctx.get_context_sync(&heap, "p", cast::<u64>), None);
    assert!(ctx.has_context_sync(&heap, "p"));
    assert_eq!(ctx.consume_context_sync(&mut heap, "p", cast::<u64>), None);
    assert!(!ctx.has_context_sync(&heap, "p"));
}

#[test]
fn handles_wait_and_are_confirmed_in_order() {
    let mut heap = Heap::new();
    let ctx = TradeTaskContext::new(&mut heap);
    assert!(ctx.push_confirm_handle(&mut heap, 1).is_none());
    assert!(ctx.push_confirm_handle(&mut heap, 2).is_none());
    assert!(!ctx.is_buy_confirmed(&heap));
    assert_eq!(shown(ctx.confirm_all_handles(&mut heap)), "w +1 +2");
    assert!(ctx.is_buy_confirmed(&heap));
    assert_eq!(shown(ctx.confirm_all_handles(&mut heap)), "w");
    let at_once = ctx.push_confirm_handle(&mut heap, 3);
    assert!(matches!(at_once, Some(HandleAction::Confirm(3))));
    assert_eq!(shown(ctx.cancel_all_handles(&mut heap)), "");
}

#[test]
fn handles_are_cancelled_when_the_buy_is_given_up() {
    let mut heap = Heap::new();
    let ctx = TradeTaskContext::new(&mut heap);
    ctx.push_confirm_handle(&mut heap, 1);
    ctx.push_confirm_handle(&mut heap, 2);
    assert_eq!(shown(ctx.cancel_all_handles(&mut heap)), "-1 -2");
    assert!(!ctx.is_buy_confirmed(&heap));
    assert!(ctx.push_confirm_handle(&mut heap, 3).is_none());
    assert_eq!(shown(ctx.confirm_all_handles(&mut heap)), "w +3");
}

#[test]
fn handles_of_a_child_are_its_own() {
    let mut heap = Heap::new();
    let parent = TradeTaskContext::new(&mut heap);
    parent.push_confirm_handle(&mut heap, 1);
    let child = TradeTaskContext::spawn_child(&mut heap, &parent);
    child.push_confirm_handle(&mut heap, 2);
    assert_eq!(shown(parent.confirm_all_handles(&mut heap)), "w +1");
    assert!(matches!(child.push_confirm_handle(&mut heap, 3), Some(HandleAction::Confirm(3))));
    assert_eq!(shown(child.cancel_all_handles(&mut heap)), "-2");
}

#[test]
fn a_wait_looks_twice_before_it_sleeps() {
    let mut heap = Heap::new();
    let ctx = TradeTaskContext::new(&mut heap);
    assert_eq!(ctx.wait_buy_confirmed(&heap, WaitStage::Entered), WaitAction::Register);
    assert_eq!(ctx.wait_buy_confirmed(&heap, WaitStage::Registered), WaitAction::Sleep);
    ctx.confirm_all_handles(&mut heap);
    assert_eq!(ctx.wait_buy_confirmed(&heap, WaitStage::Entered), WaitAction::Return);
    assert_eq!(ctx.wait_buy_confirmed(&heap, WaitStage::Registered), WaitAction::Return);
    assert_eq!(ctx.wait_buy_confirmed(&heap, WaitStage::Woken), WaitAction::Return);
}

#[test]
fn a_context_begins_when_it_is_made() {
    let mut heap = Heap::new();
    let before = Instant::now();
    let ctx = TradeTaskContext::new(&mut heap);
    let after = Instant::now();
    assert!(before <= ctx.start && ctx.start <= after);
    let under = TradeTaskContext::with_parent_cancel(&mut heap, &CancellationToken::new());
    assert!(after <= under.start && under.start <= Instant::now());
}

#[test]
fn a_context_lives_in_its_heap() {
    let mut heap = Heap::new();
    let ctx = TradeTaskContext::new(&mut heap);
    assert!(ctx.lives_in(&heap));
    assert!(!ctx.lives_in(&Heap::new()));
}

#[test]
fn a_message_with_one_value() {
    let message = MonitorMessage::single("new_token", 5u64);
    assert_eq!(message.contexts, vec![("new_token", Arc::new(5u64))]);
    assert!(message.sig_time.is_none());
}

#[test]
fn what_happened_stays_so() {
    let mut heap = Heap::new();
    let ctx = TradeTaskContext::new(&mut heap);
    let child = TradeTaskContext::spawn_child(&mut heap, &ctx);
    ctx.confirm_all_handles(&mut heap);
    ctx.signal_done(&mut heap);
    child.signal_done(&mut heap);
    ctx.push_confirm_handle(&mut heap, 1);
    ctx.cancel_all_handles(&mut heap);
    child.set_var_sync(&mut heap, "x", "1".to_string());
    let other = TradeTaskContext::with_parent_cancel(&mut heap, &CancellationToken::new());
    other.cancel_all_handles(&mut heap);
    for c in [ctx, child] {
        assert!(c.is_buy_confirmed(&heap));
        assert!(c.is_done(&heap));
        assert!(c.lives_in(&heap));
    }
    assert!(!other.is_buy_confirmed(&heap));
}

#[test]
fn every_handle_is_acted_on_once() {
    let mut heap = Heap::new();
    let ctx = TradeTaskContext::new(&mut heap);
    let mut actions = Vec::new();
    for h in 1..4 {
        actions.extend(ctx.push_confirm_handle(&mut heap, h));
    }
    actions.extend(ctx.cancel_all_handles(&mut heap));
    actions.extend(ctx.push_confirm_handle(&mut heap, 4));
    actions.extend(ctx.confirm_all_handles(&mut heap));
    actions.extend(ctx.push_confirm_handle(&mut heap, 5));
    actions.extend(ctx.cancel_all_handles(&mut heap));
    actions.extend(ctx.confirm_all_handles(&mut heap));
    assert_eq!(shown(actions), "-1 -2 -3 w +4 +5 w");
}

#[test]
fn a_child_that_confirms_leaves_its_parents_handles_waiting() {
    let mut heap = Heap::new();
    let parent = TradeTaskContext::new(&mut heap);
    let child = TradeTaskContext::spawn_child(&mut heap, &parent);
    parent.push_confirm_handle(&mut heap, 1);
    assert_eq!(shown(child.confirm_all_handles(&mut heap)), "w");
    assert!(parent.is_buy_confirmed(&heap));
    assert_eq!(shown(parent.confirm_all_handles(&mut heap)), "w +1");
}

#[test]
fn taking_out_one_protocol_spares_the_others() {
    let mut heap = Heap::new();
    let ctx = TradeTaskContext::new(&mut heap);
    ctx.produce_context_sync(&mut heap, "a", value(1u32));
    ctx.produce_context_sync(&mut heap, "b", value(2u32));
    ctx.produce_context_sync(&mut heap, "c", value(3u32));
    assert_eq!(ctx.consume_context_sync(&mut heap, "a", cast::<u32>), Some(Arc::new(1u32)));
    assert!(!ctx.has_context_sync(&heap, "a"));
    assert_eq!(ctx.get_context_sync(&heap, "b", cast::<u32>), Some(Arc::new(2u32)));
    assert_eq!(ctx.get_context_sync(&heap, "c", cast::<u32>), Some(Arc::new(3u32)));
    ctx.produce_context_sync(&mut heap, "d", value(4u32));
    assert_eq!(ctx.consume_context_sync(&mut heap, "d", cast::<u32>), Some(Arc::new(4u32)));
    assert_eq!(ctx.get_context_sync(&heap, "c", cast::<u32>), Some(Arc::new(3u32)));
}

#[test]
fn only_a_confirmation_wakes_and_the_woken_find_it() {
    let mut heap = Heap::new();
    let ctx = TradeTaskContext::new(&mut heap);
    assert!(matches!(
        ctx.wait_buy_confirmed(&heap, WaitStage::Registered),
        WaitAction::Sleep
    ));
    ctx.push_confirm_handle(&mut heap, 1);
    assert_eq!(shown(ctx.cancel_all_handles(&mut heap)), "-1");
    assert!(!ctx.is_buy_confirmed(&heap));
    assert_eq!(shown(ctx.confirm_all_handles(&mut heap)), "w");
    assert!(ctx.is_buy_confirmed(&heap));
    ctx.push_confirm_handle(&mut heap, 2);
    ctx.cancel_all_handles(&mut heap);
    ctx.signal_done(&mut heap);
    assert!(ctx.is_buy_confirmed(&heap));
    assert!(matches!(ctx.wait_buy_confirmed(&heap, WaitStage::Woken), WaitAction::Return));
}

#[test]
fn no_handle_waits_with_one_who_has_the_buy_confirmed() {
    let mut heap = Heap::new();
    let ctx = TradeTaskContext::new(&mut heap);
    let copy = ctx;
    ctx.push_confirm_handle(&mut heap, 1);
    assert_eq!(shown(copy.confirm_all_handles(&mut heap)), "w +1");
    assert_eq!(ctx.push_confirm_handle(&mut heap, 2).is_some(), true);
    assert_eq!(shown(ctx.cancel_all_handles(&mut heap)), "");
    assert_eq!(shown(ctx.confirm_all_handles(&mut heap)), "w");
}

#[test]
fn a_signal_reaches_a_follower_in_the_same_heap() {
    let mut heap = Heap::new();
    let ctx = TradeTaskContext::new(&mut heap);
    let token = ctx.done_token(&heap);
    let follower = TradeTaskContext::with_parent_cancel(&mut heap, &token);
    let its_child = TradeTaskContext::spawn_child(&mut heap, &follower);
    assert!(!follower.is_done(&heap));
    ctx.signal_done(&mut heap);
    assert!(follower.is_done(&heap));
    assert!(its_child.is_done(&heap));
    let late = TradeTaskContext::with_parent_cancel(&mut heap, &token);
    assert!(late.is_done(&heap));
    assert!(late.done_token(&heap).is_cancelled());
}

#[test]
fn a_signal_spares_parent_and_siblings_of_either_kind() {
    let mut heap = Heap::new();
    let parent = TradeTaskContext::new(&mut heap);
    let token = parent.done_token(&heap);
    let spawned = TradeTaskContext::spawn_child(&mut heap, &parent);
    let second = TradeTaskContext::spawn_child(&mut heap, &parent);
    let follower = TradeTaskContext::with_parent_cancel(&mut heap, &token);
    let below = TradeTaskContext::spawn_child(&mut heap, &second);
    let handed = parent.child_token(&heap);
    spawned.signal_done(&mut heap);
    assert!(spawned.is_done(&heap));
    assert!(!parent.is_done(&heap) && !token.is_cancelled() && !handed.is_cancelled());
    assert!(!second.is_done(&heap) && !below.is_done(&heap) && !follower.is_done(&heap));
    follower.signal_done(&mut heap);
    assert!(follower.is_done(&heap));
    assert!(!parent.is_done(&heap) && !second.is_done(&heap) && !below.is_done(&heap));
    handed.cancel();
    assert!(!parent.is_done(&heap) && !second.is_done(&heap));
}

#[test]
fn tokens_of_new_contexts_are_apart() {
    let mut heap = Heap::new();
    let a = TradeTaskContext::new(&mut heap);
    let b = TradeTaskContext::new(&mut heap);
    assert!(a.done_token(&heap) != b.done_token(&heap));
    assert!(a.done_token(&heap) == a.done_token(&heap));
    a.signal_done(&mut heap);
    assert!(a.is_done(&heap));
    assert!(!b.is_done(&heap));
}
