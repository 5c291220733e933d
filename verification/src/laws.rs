//! What holds of contexts through all that is done with them.
use crate::context::{
    cancel_actions, confirm_actions, wait_action, HandleAction, HeapView, TradeTaskContext,
    WaitAction, WaitStage,
};
use crate::implicit::{first_of, lemma_first_is, lemma_first_of, value_of, without_first};
use crate::tokens::{
    cancelled_above, cancelled_at, is_new_among, law_more_tokens, law_new_child_reached, law_signal_reaches_below,
    lemma_below_below, lemma_cancelled_below, lemma_child_below, made_under, reached, stands_below,
    stands_under, token_cancelled, token_line,
};
use std::sync::Arc;
use tokio_util::sync::CancellationToken;
use vstd::multiset::Multiset;
use vstd::prelude::*;

verus! {

/// A background task shares the variables, the implicit contexts, the buy flag and the start of its
/// parent, now and in whatever the heap becomes. Its handles are its own: none wait at first, and no
/// other context has them.
pub proof fn law_child_shares<R, V: ?Sized, H>(
    heap: HeapView<R, V, H>,
    parent: TradeTaskContext,
    child: TradeTaskContext,
    token: CancellationToken,
    later: HeapView<R, V, H>,
    other: TradeTaskContext,
)
    requires
        heap.holds(parent),
        heap.holds(other),
        child.is_child_in(heap, parent),
    ensures
        ({
            let spawned = heap.with_task(token);
            &&& spawned.holds(child) && spawned.holds(parent)
            &&& later.vars_of(child) == later.vars_of(parent)
            &&& later.contexts_of(child) == later.contexts_of(parent)
            &&& later.confirmed_for(child) == later.confirmed_for(parent)
            &&& child.start == parent.start
            &&& spawned.handles_of(child) == Seq::<H>::empty()
            &&& spawned.handles_of(parent) == heap.handles_of(parent)
            &&& child.confirm_handles != other.confirm_handles
        }),
{
}

/// A done signal of the parent reaches the background task. One of the background task does not
/// reach the parent, whose token is as it was.
pub proof fn law_child_done<R, V: ?Sized, H>(
    heap: HeapView<R, V, H>,
    parent: TradeTaskContext,
    child: TradeTaskContext,
    token: CancellationToken,
    by_parent: Seq<CancellationToken>,
    by_child: Seq<CancellationToken>,
)
    requires
        heap.holds(parent),
        child.is_child_in(heap, parent),
        made_under(token, token_line(heap.tokens[parent.cancel as int]), heap.tokens),
        cancelled_at(heap.with_task(token).tokens, by_parent, parent.cancel as int),
        cancelled_at(heap.with_task(token).tokens, by_child, child.cancel as int),
    ensures
        ({
            let spawned = heap.with_task(token);
            &&& spawned.with_tokens(by_parent).done_for(child)
            &&& spawned.with_tokens(by_child).done_for(child)
            &&& spawned.with_tokens(by_child).done_for(parent) == heap.done_for(parent)
            &&& by_child[parent.cancel as int] == heap.tokens[parent.cancel as int]
            &&& spawned.done_for(child) == heap.done_for(parent)
        }),
{
    let spawned = heap.with_task(token);
    let (p, c) = (parent.cancel as int, child.cancel as int);
    law_new_child_reached(heap.tokens, token, p);
    lemma_child_below(token_line(spawned.tokens[c]), token_line(spawned.tokens[p]));
    law_signal_reaches_below(spawned.tokens, by_parent, p, c);
    law_signal_reaches_below(spawned.tokens, by_child, c, c);
    law_signal_reaches_below(spawned.tokens, by_child, c, p);
    assert(by_child[p] == spawned.tokens[p]);
}

/// A cancelled parent token reaches the context that was made under it. The context's own signal
/// does not reach the parent token, which is as it was.
pub proof fn law_parent_cancel<R, V: ?Sized, H>(
    heap: HeapView<R, V, H>,
    parent: CancellationToken,
    token: CancellationToken,
    by_parent: Seq<CancellationToken>,
    by_child: Seq<CancellationToken>,
)
    requires
        made_under(token, token_line(parent), heap.tokens.push(parent)),
        cancelled_at(heap.tokens.push(parent).push(token), by_parent, heap.tokens.len() as int),
        cancelled_at(heap.tokens.push(parent).push(token), by_child, (heap.tokens.len() + 1) as int),
    ensures
        ({
            let p = heap.tokens.len() as int;
            let c = p + 1;
            let opened = heap.with_token(parent).with_strategy().with_task(token);
            &&& reached(opened.with_tokens(by_parent).tokens, c)
            &&& reached(opened.with_tokens(by_child).tokens, c)
            &&& reached(opened.with_tokens(by_child).tokens, p) == reached(opened.tokens, p)
            &&& by_child[p] == parent
        }),
{
    let p = heap.tokens.len() as int;
    let c = p + 1;
    let tokens = heap.tokens.push(parent).push(token);
    assert(tokens[p] == parent && tokens[c] == token);
    lemma_child_below(token_line(token), token_line(parent));
    law_signal_reaches_below(tokens, by_parent, p, c);
    law_signal_reaches_below(tokens, by_child, c, c);
    law_signal_reaches_below(tokens, by_child, c, p);
    assert(by_child[p] == tokens[p]);
}

/// A value that is written through one context is read through every context that shares the
/// variables. No other variable changes, and no variable of a context that does not share them.
pub proof fn law_written_is_read<R, V: ?Sized, H>(
    heap: HeapView<R, V, H>,
    writer: TradeTaskContext,
    reader: TradeTaskContext,
    name: Seq<char>,
    value: R,
)
    requires
        heap.holds(writer),
        heap.holds(reader),
    ensures
        ({
            let after = heap.with_vars(writer, heap.vars_of(writer).insert(name, value));
            if reader.vars == writer.vars {
                after.vars_of(reader) == heap.vars_of(reader).insert(name, value)
            } else {
                after.vars_of(reader) == heap.vars_of(reader)
            }
        }),
{
}

/// A context of its own has no place in common with those before it.
pub proof fn law_new_shares_nothing<R, V: ?Sized, H>(
    heap: HeapView<R, V, H>,
    ctx: TradeTaskContext,
    other: TradeTaskContext,
)
    requires
        ctx.is_new_in(heap),
        heap.holds(other),
    ensures
        ctx.vars != other.vars,
        ctx.contexts != other.contexts,
        ctx.confirm_handles != other.confirm_handles,
        ctx.buy_confirmed != other.buy_confirmed,
        ctx.cancel != other.cancel,
{
}

/// A value that is left for a protocol is found where none of that protocol was left before; where
/// one was, the earlier one is found. Values of other protocols are found as before.
pub proof fn law_produced_is_found<V: ?Sized>(
    entries: Seq<(Seq<char>, Arc<V>)>,
    protocol: Seq<char>,
    value: Arc<V>,
    other: Seq<char>,
)
    ensures
        value_of(entries.push((protocol, value)), protocol) == (match value_of(entries, protocol) {
            Some(earlier) => Some(earlier),
            None => Some(value),
        }),
        other != protocol ==> value_of(entries.push((protocol, value)), other) == value_of(
            entries,
            other,
        ),
{
    let after = entries.push((protocol, value));
    assert(after.drop_last() =~= entries);
    assert(after.last() == (protocol, value));
    lemma_first_of(entries, protocol);
    lemma_first_of(entries, other);
    if let Some(i) = first_of(entries, protocol) {
        assert(after[i] == entries[i]);
    }
    if let Some(i) = first_of(entries, other) {
        assert(after[i] == entries[i]);
    }
}

/// Taking out what was left undoes leaving it, where no value of the protocol was left before.
pub proof fn law_consume_undoes_produce<V: ?Sized>(
    entries: Seq<(Seq<char>, Arc<V>)>,
    protocol: Seq<char>,
    value: Arc<V>,
)
    requires
        first_of(entries, protocol) is None,
    ensures
        value_of(entries.push((protocol, value)), protocol) == Some(value),
        without_first(entries.push((protocol, value)), protocol) == entries,
{
    law_produced_is_found(entries, protocol, value, protocol);
    let after = entries.push((protocol, value));
    assert(after.drop_last() =~= entries);
    assert(first_of(after, protocol) == Some(after.len() - 1));
    assert(without_first(after, protocol) =~= entries);
}

/// Taking out a value takes out one value of that protocol and no other: what is left are the same
/// values without it.
pub proof fn law_consume_takes_one<V: ?Sized>(
    entries: Seq<(Seq<char>, Arc<V>)>,
    protocol: Seq<char>,
)
    ensures
        without_first(entries, protocol).to_multiset() == (match value_of(entries, protocol) {
            Some(value) => entries.to_multiset().remove((protocol, value)),
            None => entries.to_multiset(),
        }),
{
    broadcast use vstd::seq_lib::group_to_multiset_ensures;

    lemma_first_of(entries, protocol);
    if let Some(i) = first_of(entries, protocol) {
        let last = entries.last();
        let moved = entries.update(i, last);
        let rest = entries.remove(i);
        assert(rest.to_multiset() == entries.to_multiset().remove(entries[i]));
        if i == entries.len() - 1 {
            assert(moved.drop_last() =~= rest);
        } else {
            let out = moved.drop_last();
            assert(rest.drop_last() =~= out.remove(i)) by {
                assert(rest.drop_last().len() == out.remove(i).len());
            }
            assert(rest.drop_last().push(last) =~= rest);
            assert(out.remove(i).insert(i, last) =~= out);
            vstd::seq_lib::to_multiset_insert(out.remove(i), i, last);
            assert(rest.to_multiset() == out.remove(i).to_multiset().insert(last));
        }
    }
}

/// Where each protocol has at most one value, taking out that of one protocol leaves those of all
/// others to be found as before, and none of that protocol.
pub proof fn law_consume_spares_others<V: ?Sized>(
    entries: Seq<(Seq<char>, Arc<V>)>,
    protocol: Seq<char>,
    other: Seq<char>,
)
    requires
        forall|i: int, j: int|
            0 <= i < j < entries.len() ==> #[trigger] entries[i].0 != #[trigger] entries[j].0,
    ensures
        value_of(without_first(entries, protocol), other) == if other == protocol {
            None
        } else {
            value_of(entries, other)
        },
{
    let after = without_first(entries, protocol);
    lemma_first_of(entries, protocol);
    lemma_first_of(entries, other);
    lemma_first_of(after, other);
    match first_of(entries, protocol) {
        None => {},
        Some(i) => {
            let last = entries.len() - 1;
            assert forall|j: int| 0 <= j < after.len() implies #[trigger] after[j] == if j == i {
                entries[last]
            } else {
                entries[j]
            } by {}
            match first_of(entries, other) {
                Some(k) => {
                    if other != protocol {
                        let j = if k == last { i } else { k };
                        assert(after[j] == entries[k]);
                        assert forall|l: int| 0 <= l < j implies #[trigger] after[l].0 != other by {
                            let from = if l == i { last } else { l };
                            assert(after[l] == entries[from]);
                            assert(from != k);
                            if from < k {
                                assert(entries[from].0 != entries[k].0);
                            } else {
                                assert(entries[k].0 != entries[from].0);
                            }
                        }
                        lemma_first_is(after, other, j);
                    } else {
                        assert(k == i);
                        if let Some(j) = first_of(after, other) {
                            let from = if j == i { last } else { j };
                            assert(after[j] == entries[from]);
                            assert(from != i);
                            if from < i {
                                assert(entries[from].0 != entries[i].0);
                            } else {
                                assert(entries[i].0 != entries[from].0);
                            }
                        }
                    }
                },
                None => {
                    if let Some(j) = first_of(after, other) {
                        let from = if j == i { last } else { j };
                        assert(after[j] == entries[from]);
                    }
                },
            }
        },
    }
}

/// Whether there is a value of another protocol does not change when one is taken out.
pub proof fn law_consume_keeps_presence<V: ?Sized>(
    entries: Seq<(Seq<char>, Arc<V>)>,
    protocol: Seq<char>,
    other: Seq<char>,
)
    requires
        other != protocol,
    ensures
        first_of(without_first(entries, protocol), other) is Some <==> first_of(
            entries,
            other,
        ) is Some,
{
    let after = without_first(entries, protocol);
    lemma_first_of(entries, protocol);
    lemma_first_of(entries, other);
    lemma_first_of(after, other);
    if let Some(i) = first_of(entries, protocol) {
        let last = entries.len() - 1;
        if let Some(k) = first_of(entries, other) {
            let j = if k == last { i } else { k };
            assert(after[j] == entries[k]);
        }
        if let Some(j) = first_of(after, other) {
            let from = if j == i { last } else { j };
            assert(after[j] == entries[from]);
        }
    }
}

/// Everything that is done with a heap.
pub enum HeapOp<R, V: ?Sized, H> {
    /// `TradeTaskContext::new`.
    New { token: CancellationToken },
    /// `TradeTaskContext::with_parent_cancel`.
    WithParent { parent: CancellationToken, token: CancellationToken },
    /// `TradeTaskContext::spawn_child`.
    Spawn { of: TradeTaskContext, token: CancellationToken },
    /// `TradeTaskContext::set_var_sync`.
    SetVar { ctx: TradeTaskContext, name: Seq<char>, value: R },
    /// `TradeTaskContext::produce_context_sync`.
    Produce { ctx: TradeTaskContext, protocol: Seq<char>, left: Arc<V> },
    /// `TradeTaskContext::consume_context_sync`.
    Consume { ctx: TradeTaskContext, protocol: Seq<char> },
    /// `TradeTaskContext::push_confirm_handle`.
    Push { ctx: TradeTaskContext, handle: H },
    /// `TradeTaskContext::confirm_all_handles`.
    ConfirmAll { ctx: TradeTaskContext },
    /// `TradeTaskContext::cancel_all_handles`.
    CancelAll { ctx: TradeTaskContext },
    /// `ContextHeap::signal`, which `TradeTaskContext::signal_done` is.
    Signal { place: int, after: Seq<CancellationToken> },
}

impl<R, V: ?Sized, H> HeapOp<R, V, H> {
    /// Whether the operation can be done with a heap.
    pub open spec fn fits(self, heap: HeapView<R, V, H>) -> bool {
        match self {
            HeapOp::New { token } => token_line(token).len() == 1 && !token_cancelled(token)
                && is_new_among(token, heap.tokens),
            HeapOp::WithParent { parent, token } => made_under(
                token,
                token_line(parent),
                heap.tokens.push(parent),
            ),
            HeapOp::Spawn { of, token } => heap.holds(of) && made_under(
                token,
                token_line(heap.tokens[of.cancel as int]),
                heap.tokens,
            ),
            HeapOp::SetVar { ctx, name, value } => heap.holds(ctx),
            HeapOp::Produce { ctx, protocol, left } => heap.holds(ctx),
            HeapOp::Consume { ctx, protocol } => heap.holds(ctx),
            HeapOp::Push { ctx, handle } => heap.holds(ctx),
            HeapOp::ConfirmAll { ctx } => heap.holds(ctx),
            HeapOp::CancelAll { ctx } => heap.holds(ctx),
            HeapOp::Signal { place, after } => 0 <= place < heap.tokens.len() && cancelled_at(
                heap.tokens,
                after,
                place,
            ),
        }
    }

    /// The heap after the operation.
    pub open spec fn done_to(self, heap: HeapView<R, V, H>) -> HeapView<R, V, H> {
        match self {
            HeapOp::New { token } => heap.with_strategy().with_task(token),
            HeapOp::WithParent { parent, token } => heap.with_token(
                parent,
            ).with_strategy().with_task(token),
            HeapOp::Spawn { of, token } => heap.with_task(token),
            HeapOp::SetVar { ctx, name, value } => heap.with_vars(
                ctx,
                heap.vars_of(ctx).insert(name, value),
            ),
            HeapOp::Produce { ctx, protocol, left } => heap.with_contexts(
                ctx,
                heap.contexts_of(ctx).push((protocol, left)),
            ),
            HeapOp::Consume { ctx, protocol } => heap.with_contexts(
                ctx,
                without_first(heap.contexts_of(ctx), protocol),
            ),
            HeapOp::Push { ctx, handle } => if heap.confirmed_for(ctx) {
                heap
            } else {
                heap.with_handles(ctx, heap.handles_of(ctx).push(handle))
            },
            HeapOp::ConfirmAll { ctx } => heap.with_confirmation(ctx).with_handles(
                ctx,
                Seq::empty(),
            ),
            HeapOp::CancelAll { ctx } => heap.with_handles(ctx, Seq::empty()),
            HeapOp::Signal { place, after } => heap.with_tokens(after),
        }
    }
}

/// Whatever is done, a context keeps its places, a confirmed buy stays confirmed, and a context that
/// is done stays done.
pub proof fn law_nothing_is_taken_back<R, V: ?Sized, H>(
    heap: HeapView<R, V, H>,
    op: HeapOp<R, V, H>,
    ctx: TradeTaskContext,
)
    requires
        heap.holds(ctx),
        op.fits(heap),
    ensures
        op.done_to(heap).holds(ctx),
        heap.confirmed_for(ctx) ==> op.done_to(heap).confirmed_for(ctx),
        heap.done_for(ctx) ==> op.done_to(heap).done_for(ctx),
{
    let c = ctx.cancel as int;
    match op {
        HeapOp::New { token } => {
            law_more_tokens(heap.tokens, token, c);
        },
        HeapOp::WithParent { parent, token } => {
            law_more_tokens(heap.tokens, parent, c);
            law_more_tokens(heap.tokens.push(parent), token, c);
        },
        HeapOp::Spawn { of, token } => {
            law_more_tokens(heap.tokens, token, c);
        },
        HeapOp::Signal { place, after } => {
            law_signal_reaches_below(heap.tokens, after, place, c);
        },
        _ => {},
    }
}

/// Only `confirm_all_handles` confirms a buy.
pub proof fn law_only_confirming_confirms<R, V: ?Sized, H>(
    heap: HeapView<R, V, H>,
    op: HeapOp<R, V, H>,
    ctx: TradeTaskContext,
)
    requires
        heap.holds(ctx),
        op.fits(heap),
        !heap.confirmed_for(ctx),
        op.done_to(heap).confirmed_for(ctx),
    ensures
        op matches HeapOp::ConfirmAll { ctx: other } && other.buy_confirmed == ctx.buy_confirmed,
{
}

/// Nobody sleeps through the confirmation of the buy: one who sleeps has joined those who will be
/// woken while the buy was not yet confirmed, and what confirms the buy later wakes them first. A
/// wait is over only once the buy is confirmed or the waiter was woken.
pub proof fn law_no_missed_confirmation<R, V: ?Sized, H>(
    heap: HeapView<R, V, H>,
    ctx: TradeTaskContext,
    stage: WaitStage,
    handles: Seq<H>,
)
    requires
        heap.holds(ctx),
    ensures
        wait_action(stage, heap.confirmed_for(ctx)) == WaitAction::Sleep ==> stage
            == WaitStage::Registered && !heap.confirmed_for(ctx),
        wait_action(stage, heap.confirmed_for(ctx)) == WaitAction::Return ==> stage
            == WaitStage::Woken || heap.confirmed_for(ctx),
        confirm_actions(handles)[0] == HandleAction::<H>::WakeWaiters,
{
}

/// The handles that actions confirm or cancel.
pub open spec fn handles_in<H>(actions: Seq<HandleAction<H>>) -> Multiset<H>
    decreases actions.len(),
{
    if actions.len() == 0 {
        Multiset::empty()
    } else {
        let before = handles_in(actions.drop_last());
        match actions.last() {
            HandleAction::WakeWaiters => before,
            HandleAction::Confirm(h) => before.insert(h),
            HandleAction::Cancel(h) => before.insert(h),
        }
    }
}

impl<R, V: ?Sized, H> HeapOp<R, V, H> {
    /// The actions that the operation asks for.
    pub open spec fn actions(self, heap: HeapView<R, V, H>) -> Seq<HandleAction<H>> {
        match self {
            HeapOp::Push { ctx, handle } => if heap.confirmed_for(ctx) {
                seq![HandleAction::Confirm(handle)]
            } else {
                Seq::empty()
            },
            HeapOp::ConfirmAll { ctx } => confirm_actions(heap.handles_of(ctx)),
            HeapOp::CancelAll { ctx } => cancel_actions(heap.handles_of(ctx)),
            _ => Seq::empty(),
        }
    }

    /// The handles that the operation takes in.
    pub open spec fn taken_in(self) -> Multiset<H> {
        match self {
            HeapOp::Push { ctx, handle } => Multiset::empty().insert(handle),
            _ => Multiset::empty(),
        }
    }

    /// Whether the operation is about the handles that wait in `ctx`.
    pub open spec fn about_handles_of(self, ctx: TradeTaskContext) -> bool {
        match self {
            HeapOp::Push { ctx: other, handle } => other.confirm_handles == ctx.confirm_handles,
            HeapOp::ConfirmAll { ctx: other } => other.confirm_handles == ctx.confirm_handles,
            HeapOp::CancelAll { ctx: other } => other.confirm_handles == ctx.confirm_handles,
            _ => false,
        }
    }
}

/// Confirming or cancelling handles in their order is about just these handles.
proof fn lemma_handles_in<H>(handles: Seq<H>)
    ensures
        handles_in(confirm_actions(handles)) == handles.to_multiset(),
        handles_in(cancel_actions(handles)) == handles.to_multiset(),
    decreases handles.len(),
{
    broadcast use vstd::seq_lib::group_to_multiset_ensures;

    if handles.len() == 0 {
        assert(handles =~= Seq::<H>::empty());
        let wake = confirm_actions(handles);
        assert(wake =~= seq![HandleAction::WakeWaiters]);
        assert(wake.drop_last() =~= Seq::<HandleAction<H>>::empty());
        assert(wake.last() == HandleAction::<H>::WakeWaiters);
        assert(handles.to_multiset() =~= Multiset::<H>::empty());
        assert(handles_in(wake.drop_last()) =~= Multiset::<H>::empty());
    } else {
        let head = handles.drop_last();
        lemma_handles_in(head);
        assert(head.push(handles.last()) =~= handles);
        assert(confirm_actions(handles).drop_last() =~= confirm_actions(head));
        assert(confirm_actions(handles).last() == HandleAction::Confirm(handles.last()));
        assert(cancel_actions(handles).drop_last() =~= cancel_actions(head));
        assert(cancel_actions(handles).last() == HandleAction::Cancel(handles.last()));
    }
}

/// No handle is lost, and none is confirmed or cancelled twice: those that waited and those that an
/// operation takes in are those that wait afterwards and those that it asks to confirm or cancel. An
/// operation that is not about the handles of a context leaves them as they are.
pub proof fn law_no_handle_is_lost<R, V: ?Sized, H>(
    heap: HeapView<R, V, H>,
    op: HeapOp<R, V, H>,
    ctx: TradeTaskContext,
)
    requires
        heap.holds(ctx),
        op.fits(heap),
    ensures
        op.about_handles_of(ctx) ==> heap.handles_of(ctx).to_multiset().add(op.taken_in())
            == op.done_to(heap).handles_of(ctx).to_multiset().add(handles_in(op.actions(heap))),
        !op.about_handles_of(ctx) ==> op.done_to(heap).handles_of(ctx) == heap.handles_of(ctx),
{
    broadcast use vstd::seq_lib::group_to_multiset_ensures;

    let waiting = heap.handles_of(ctx);
    let none = Multiset::<H>::empty();
    lemma_handles_in(waiting);
    if op.about_handles_of(ctx) {
        match op {
            HeapOp::Push { ctx: other, handle } => {
                let asked = op.actions(heap);
                if heap.confirmed_for(other) {
                    assert(asked.drop_last() =~= Seq::<HandleAction<H>>::empty());
                    assert(asked.last() == HandleAction::Confirm(handle));
                    assert(handles_in(asked.drop_last()) =~= none);
                } else {
                    assert(handles_in(asked) =~= none);
                    assert(waiting.to_multiset().add(op.taken_in()) =~= waiting.push(
                        handle,
                    ).to_multiset().add(none));
                }
            },
            _ => {
                assert(Seq::<H>::empty().to_multiset() =~= none);
                assert(waiting.to_multiset().add(none) =~= none.add(waiting.to_multiset()));
            },
        }
    }
}

/// A heap, and the contexts that were made in it so far.
#[verifier::reject_recursive_types(R)]
#[verifier::reject_recursive_types(V)]
#[verifier::reject_recursive_types(H)]
pub struct World<R, V: ?Sized, H> {
    pub heap: HeapView<R, V, H>,
    pub made: Seq<TradeTaskContext>,
}

impl<R, V: ?Sized, H> HeapOp<R, V, H> {
    /// Whether the operation goes through contexts that were made.
    pub open spec fn goes_through(self, made: Seq<TradeTaskContext>) -> bool {
        match self {
            HeapOp::Spawn { of, token } => made.contains(of),
            HeapOp::SetVar { ctx, name, value } => made.contains(ctx),
            HeapOp::Produce { ctx, protocol, left } => made.contains(ctx),
            HeapOp::Consume { ctx, protocol } => made.contains(ctx),
            HeapOp::Push { ctx, handle } => made.contains(ctx),
            HeapOp::ConfirmAll { ctx } => made.contains(ctx),
            HeapOp::CancelAll { ctx } => made.contains(ctx),
            _ => true,
        }
    }

    /// Whether the operation makes a context.
    pub open spec fn makes_one(self) -> bool {
        self is New || self is WithParent || self is Spawn
    }

    /// Whether `ctx` is the context that the operation makes.
    pub open spec fn makes(self, heap: HeapView<R, V, H>, ctx: TradeTaskContext) -> bool {
        match self {
            HeapOp::New { token } => ctx.is_new_in(heap),
            HeapOp::WithParent { parent, token } => ctx.is_new_in(heap.with_token(parent)),
            HeapOp::Spawn { of, token } => ctx.is_child_in(heap, of),
            _ => false,
        }
    }
}

/// Whether one operation leads from `before` to `after`.
pub open spec fn is_step<R, V: ?Sized, H>(
    before: World<R, V, H>,
    op: HeapOp<R, V, H>,
    after: World<R, V, H>,
) -> bool {
    &&& op.fits(before.heap)
    &&& op.goes_through(before.made)
    &&& after.heap == op.done_to(before.heap)
    &&& if op.makes_one() {
        &&& after.made.len() == before.made.len() + 1
        &&& after.made.drop_last() == before.made
        &&& op.makes(before.heap, after.made.last())
    } else {
        after.made == before.made
    }
}

/// Whether the operations `ops`, one after the other, lead through `worlds`, from a heap with nothing
/// in it.
pub open spec fn is_run<R, V: ?Sized, H>(
    worlds: Seq<World<R, V, H>>,
    ops: Seq<HeapOp<R, V, H>>,
) -> bool {
    &&& worlds.len() == ops.len() + 1
    &&& worlds[0].heap == HeapView::<R, V, H>::empty()
    &&& worlds[0].made == Seq::<TradeTaskContext>::empty()
    &&& forall|i: int| 0 <= i < ops.len() ==> is_step(worlds[i], #[trigger] ops[i], worlds[i + 1])
}

/// Whether two contexts whose handles wait together wait for the same buy.
pub open spec fn waits_alike(a: TradeTaskContext, b: TradeTaskContext) -> bool {
    a.confirm_handles == b.confirm_handles ==> a.buy_confirmed == b.buy_confirmed
}

/// Whether the heap holds all contexts that were made, and they wait alike.
pub open spec fn world_ok<R, V: ?Sized, H>(world: World<R, V, H>) -> bool {
    &&& forall|i: int| 0 <= i < world.made.len() ==> world.heap.holds(#[trigger] world.made[i])
    &&& forall|i: int, j: int|
        0 <= i < world.made.len() && 0 <= j < world.made.len() ==> waits_alike(
            #[trigger] world.made[i],
            #[trigger] world.made[j],
        )
}

/// A step keeps what holds of a heap and its contexts, and all contexts that were made.
proof fn lemma_step_ok<R, V: ?Sized, H>(
    before: World<R, V, H>,
    op: HeapOp<R, V, H>,
    after: World<R, V, H>,
)
    requires
        world_ok(before),
        is_step(before, op, after),
    ensures
        world_ok(after),
        forall|ctx: TradeTaskContext| before.made.contains(ctx) ==> #[trigger] after.made.contains(
            ctx,
        ),
{
    let n = before.made.len() as int;
    assert forall|i: int| 0 <= i < n implies #[trigger] after.made[i] == before.made[i] by {
        if op.makes_one() {
            assert(after.made.drop_last()[i] == after.made[i]);
        }
    }
    assert forall|i: int| 0 <= i < after.made.len() implies after.heap.holds(
        #[trigger] after.made[i],
    ) by {
        if i < n {
            law_nothing_is_taken_back(before.heap, op, before.made[i]);
        } else if let HeapOp::Spawn { of, token } = op {
            assert(before.heap.holds(of));
        }
    }
    assert forall|i: int, j: int|
        0 <= i < after.made.len() && 0 <= j < after.made.len() implies waits_alike(
        #[trigger] after.made[i],
        #[trigger] after.made[j],
    ) by {
        if i < n {
            assert(before.heap.holds(before.made[i]));
        }
        if j < n {
            assert(before.heap.holds(before.made[j]));
        }
        if i < n && j < n {
            assert(waits_alike(before.made[i], before.made[j]));
        }
    }
    assert forall|ctx: TradeTaskContext| before.made.contains(
        ctx,
    ) implies #[trigger] after.made.contains(ctx) by {
        let i = choose|i: int| 0 <= i < n && before.made[i] == ctx;
        assert(after.made[i] == ctx);
    }
}

/// It holds throughout a run.
proof fn lemma_run_ok<R, V: ?Sized, H>(
    worlds: Seq<World<R, V, H>>,
    ops: Seq<HeapOp<R, V, H>>,
    i: int,
)
    requires
        is_run(worlds, ops),
        0 <= i <= ops.len(),
    ensures
        world_ok(worlds[i]),
    decreases i,
{
    if i > 0 {
        lemma_run_ok(worlds, ops, i - 1);
        assert(is_step(worlds[i - 1], ops[i - 1], worlds[i]));
        lemma_step_ok(worlds[i - 1], ops[i - 1], worlds[i]);
    }
}

/// What was made stays, and so does what was confirmed or done.
proof fn lemma_made_stays<R, V: ?Sized, H>(
    worlds: Seq<World<R, V, H>>,
    ops: Seq<HeapOp<R, V, H>>,
    i: int,
    j: int,
    ctx: TradeTaskContext,
)
    requires
        is_run(worlds, ops),
        0 <= i <= j <= ops.len(),
        worlds[i].made.contains(ctx),
    ensures
        worlds[j].made.contains(ctx),
        worlds[j].heap.holds(ctx),
        worlds[i].heap.confirmed_for(ctx) ==> worlds[j].heap.confirmed_for(ctx),
        worlds[i].heap.done_for(ctx) ==> worlds[j].heap.done_for(ctx),
    decreases j,
{
    lemma_run_ok(worlds, ops, j);
    let w = worlds[j];
    if i < j {
        lemma_made_stays(worlds, ops, i, j - 1, ctx);
        lemma_run_ok(worlds, ops, j - 1);
        assert(is_step(worlds[j - 1], ops[j - 1], worlds[j]));
        lemma_step_ok(worlds[j - 1], ops[j - 1], worlds[j]);
        law_nothing_is_taken_back(worlds[j - 1].heap, ops[j - 1], ctx);
    } else {
        let k = choose|k: int| 0 <= k < w.made.len() && w.made[k] == ctx;
        assert(w.heap.holds(w.made[k]));
    }
}

/// A token stays the same token.
proof fn lemma_token_stays<R, V: ?Sized, H>(
    worlds: Seq<World<R, V, H>>,
    ops: Seq<HeapOp<R, V, H>>,
    i: int,
    j: int,
    place: int,
)
    requires
        is_run(worlds, ops),
        0 <= i <= j <= ops.len(),
        0 <= place < worlds[i].heap.tokens.len(),
    ensures
        place < worlds[j].heap.tokens.len(),
        token_line(worlds[j].heap.tokens[place]) == token_line(worlds[i].heap.tokens[place]),
    decreases j,
{
    if i < j {
        lemma_token_stays(worlds, ops, i, j - 1, place);
        let before = worlds[j - 1].heap;
        let op = ops[j - 1];
        assert(is_step(worlds[j - 1], op, worlds[j]));
        assert(worlds[j].heap == op.done_to(before));
        if let HeapOp::Signal { place: at, after } = op {
            assert(token_line(after[place]) == token_line(before.tokens[place]));
        }
    }
}

/// All contexts that are made, in whatever order things are done, live in the heap, and those whose
/// handles wait together wait for the same buy.
pub proof fn law_made_contexts_wait_alike<R, V: ?Sized, H>(
    worlds: Seq<World<R, V, H>>,
    ops: Seq<HeapOp<R, V, H>>,
    i: int,
    a: TradeTaskContext,
    b: TradeTaskContext,
)
    requires
        is_run(worlds, ops),
        0 <= i <= ops.len(),
        worlds[i].made.contains(a),
        worlds[i].made.contains(b),
    ensures
        worlds[i].heap.holds(a),
        worlds[i].heap.holds(b),
        waits_alike(a, b),
{
    lemma_run_ok(worlds, ops, i);
    let w = worlds[i];
    let k = choose|k: int| 0 <= k < w.made.len() && w.made[k] == a;
    let l = choose|l: int| 0 <= l < w.made.len() && w.made[l] == b;
    assert(waits_alike(w.made[k], w.made[l]));
    assert(w.heap.holds(w.made[k]) && w.heap.holds(w.made[l]));
}

/// Once a context has confirmed the buy, the buy is confirmed and no handle waits in the context, at
/// every later time, whatever is done.
pub proof fn law_no_handle_waits_after_confirmation<R, V: ?Sized, H>(
    worlds: Seq<World<R, V, H>>,
    ops: Seq<HeapOp<R, V, H>>,
    i: int,
    j: int,
    ctx: TradeTaskContext,
)
    requires
        is_run(worlds, ops),
        0 <= i < j <= ops.len(),
        ops[i] == (HeapOp::<R, V, H>::ConfirmAll { ctx }),
    ensures
        worlds[j].heap.confirmed_for(ctx),
        worlds[j].heap.handles_of(ctx).len() == 0,
    decreases j,
{
    assert(is_step(worlds[i], ops[i], worlds[i + 1]));
    lemma_made_stays(worlds, ops, i, j - 1, ctx);
    if i + 1 < j {
        law_no_handle_waits_after_confirmation(worlds, ops, i, j - 1, ctx);
        let before = worlds[j - 1];
        let op = ops[j - 1];
        assert(is_step(before, op, worlds[j]));
        assert(before.heap.holds(ctx));
        if let HeapOp::Push { ctx: other, handle } = op {
            law_made_contexts_wait_alike(worlds, ops, j - 1, other, ctx);
        }
    }
}

/// Who is woken finds the buy confirmed: only `confirm_all_handles` asks to wake those who wait, and
/// from then on the buy is confirmed, for all contexts that share the flag.
pub proof fn law_woken_finds_confirmed<R, V: ?Sized, H>(
    worlds: Seq<World<R, V, H>>,
    ops: Seq<HeapOp<R, V, H>>,
    i: int,
    j: int,
    waiter: TradeTaskContext,
)
    requires
        is_run(worlds, ops),
        0 <= i < j <= ops.len(),
        ops[i].actions(worlds[i].heap).contains(HandleAction::<H>::WakeWaiters),
    ensures
        ops[i] matches HeapOp::ConfirmAll { ctx } && (waiter.buy_confirmed == ctx.buy_confirmed
            ==> worlds[j].heap.confirmed_for(waiter)),
{
    let heap = worlds[i].heap;
    let asked = ops[i].actions(heap);
    let k = choose|k: int| 0 <= k < asked.len() && asked[k] == HandleAction::<H>::WakeWaiters;
    match ops[i] {
        HeapOp::ConfirmAll { ctx } => {
            law_no_handle_waits_after_confirmation(worlds, ops, i, j, ctx);
        },
        HeapOp::CancelAll { ctx } => {
            assert(asked[k] == HandleAction::Cancel(heap.handles_of(ctx)[k]));
        },
        HeapOp::Push { ctx, handle } => {
            if heap.confirmed_for(ctx) {
                assert(asked[k] == HandleAction::Confirm(handle));
            }
        },
        _ => {},
    }
}

impl<R, V: ?Sized, H> HeapOp<R, V, H> {
    /// The line of the token that the done signal of the context stands under that the operation
    /// makes, where it stands under one.
    pub open spec fn parent_line(self, heap: HeapView<R, V, H>) -> Option<Seq<int>> {
        match self {
            HeapOp::Spawn { of, token } => Some(token_line(heap.tokens[of.cancel as int])),
            HeapOp::WithParent { parent, token } => Some(token_line(parent)),
            _ => None,
        }
    }
}

/// The done signal of a context that was made under a token stays a child of that token, and is none
/// of those that there were before.
proof fn lemma_made_under<R, V: ?Sized, H>(
    worlds: Seq<World<R, V, H>>,
    ops: Seq<HeapOp<R, V, H>>,
    i: int,
    j: int,
)
    requires
        is_run(worlds, ops),
        0 <= i < j <= ops.len(),
        ops[i].parent_line(worlds[i].heap) is Some,
    ensures
        ({
            let c = worlds[i + 1].made.last().cancel as int;
            &&& worlds[i].heap.tokens.len() <= c < worlds[j].heap.tokens.len()
            &&& stands_under(
                token_line(worlds[j].heap.tokens[c]),
                ops[i].parent_line(worlds[i].heap)->0,
            )
            &&& forall|k: int|
                0 <= k < worlds[i].heap.tokens.len() ==> !stands_below(
                    token_line(#[trigger] worlds[i].heap.tokens[k]),
                    token_line(worlds[j].heap.tokens[c]),
                )
        }),
{
    let c = worlds[i + 1].made.last().cancel as int;
    let heap = worlds[i].heap;
    assert(is_step(worlds[i], ops[i], worlds[i + 1]));
    lemma_token_stays(worlds, ops, i + 1, j, c);
    if let HeapOp::WithParent { parent, token } = ops[i] {
        assert forall|k: int| 0 <= k < heap.tokens.len() implies !stands_below(
            token_line(#[trigger] heap.tokens[k]),
            token_line(token),
        ) by {
            assert(heap.tokens.push(parent)[k] == heap.tokens[k]);
        }
    }
}

/// At every time after a background task was made, it is done if its parent is; and whatever token
/// stands above that of its parent stands above its own.
pub proof fn law_child_follows_parent<R, V: ?Sized, H>(
    worlds: Seq<World<R, V, H>>,
    ops: Seq<HeapOp<R, V, H>>,
    i: int,
    j: int,
    upper: CancellationToken,
)
    requires
        is_run(worlds, ops),
        0 <= i < j <= ops.len(),
        ops[i] is Spawn,
    ensures
        ({
            let parent = ops[i]->of;
            let child = worlds[i + 1].made.last();
            let heap = worlds[j].heap;
            let (p, c) = (
                token_line(heap.tokens[parent.cancel as int]),
                token_line(heap.tokens[child.cancel as int]),
            );
            &&& heap.done_for(parent) ==> heap.done_for(child)
            &&& stands_below(c, p)
            &&& stands_below(p, token_line(upper)) ==> stands_below(c, token_line(upper))
        }),
{
    let parent = ops[i]->of;
    let child = worlds[i + 1].made.last();
    let heap = worlds[j].heap;
    assert(is_step(worlds[i], ops[i], worlds[i + 1]));
    lemma_token_stays(worlds, ops, i, j, parent.cancel as int);
    lemma_made_under(worlds, ops, i, j);
    let (p, c) = (
        token_line(heap.tokens[parent.cancel as int]),
        token_line(heap.tokens[child.cancel as int]),
    );
    lemma_child_below(c, p);
    if heap.done_for(parent) {
        lemma_cancelled_below(heap.tokens, c, p);
    }
    if stands_below(p, token_line(upper)) {
        lemma_below_below(c, p, token_line(upper));
    }
}

/// At every time after a context was made under a token, its own stands below that token, and it is
/// done if that token is known to be cancelled by any handle that the heap keeps of it. Where another
/// holder has cancelled it, `is_done_below` finds the context done.
pub proof fn law_parent_token_stays_above<R, V: ?Sized, H>(
    worlds: Seq<World<R, V, H>>,
    ops: Seq<HeapOp<R, V, H>>,
    i: int,
    j: int,
)
    requires
        is_run(worlds, ops),
        0 <= i < j <= ops.len(),
        ops[i] is WithParent,
    ensures
        ({
            let ctx = worlds[i + 1].made.last();
            let heap = worlds[j].heap;
            let line = token_line(ops[i]->parent);
            &&& stands_below(token_line(heap.tokens[ctx.cancel as int]), line)
            &&& cancelled_above(heap.tokens, line) ==> heap.done_for(ctx)
        }),
{
    let heap = worlds[j].heap;
    let own = token_line(heap.tokens[worlds[i + 1].made.last().cancel as int]);
    let line = token_line(ops[i]->parent);
    lemma_made_under(worlds, ops, i, j);
    lemma_child_below(own, line);
    if cancelled_above(heap.tokens, line) {
        lemma_cancelled_below(heap.tokens, own, line);
    }
}

/// At every time after a token was made from that of a context and handed out, it stands below that
/// of the context. So `finds_cancelled` finds it cancelled whenever the context is done.
pub proof fn law_handed_out_stays_below<R, V: ?Sized, H>(
    worlds: Seq<World<R, V, H>>,
    ops: Seq<HeapOp<R, V, H>>,
    i: int,
    j: int,
    ctx: TradeTaskContext,
    handed: CancellationToken,
)
    requires
        is_run(worlds, ops),
        0 <= i <= j <= ops.len(),
        worlds[i].made.contains(ctx),
        stands_under(
            token_line(handed),
            token_line(worlds[i].heap.tokens[ctx.cancel as int]),
        ),
    ensures
        stands_below(
            token_line(handed),
            token_line(worlds[j].heap.tokens[ctx.cancel as int]),
        ),
{
    lemma_made_stays(worlds, ops, i, i, ctx);
    lemma_token_stays(worlds, ops, i, j, ctx.cancel as int);
    lemma_child_below(
        token_line(handed),
        token_line(worlds[i].heap.tokens[ctx.cancel as int]),
    );
}

/// At every time after a context of one heap was made under the token of a context of another heap,
/// its own stands below that token. So once the other context is done, `is_done_below` finds it done,
/// given what `done_token` hands out.
pub proof fn law_follower_stays_below<R, V: ?Sized, H, S, W: ?Sized, K>(
    worlds: Seq<World<R, V, H>>,
    ops: Seq<HeapOp<R, V, H>>,
    i: int,
    j: int,
    ctx: TradeTaskContext,
    far_worlds: Seq<World<S, W, K>>,
    far_ops: Seq<HeapOp<S, W, K>>,
    k: int,
    l: int,
)
    requires
        is_run(worlds, ops),
        0 <= i <= j <= ops.len(),
        worlds[i].made.contains(ctx),
        is_run(far_worlds, far_ops),
        0 <= k < l <= far_ops.len(),
        far_ops[k] is WithParent,
        token_line(far_ops[k]->parent) == token_line(worlds[i].heap.tokens[ctx.cancel as int]),
    ensures
        stands_below(
            token_line(
                far_worlds[l].heap.tokens[far_worlds[k + 1].made.last().cancel as int],
            ),
            token_line(worlds[j].heap.tokens[ctx.cancel as int]),
        ),
{
    lemma_made_stays(worlds, ops, i, i, ctx);
    lemma_token_stays(worlds, ops, i, j, ctx.cancel as int);
    law_parent_token_stays_above(far_worlds, far_ops, k, l);
}

/// Two contexts whose done signals were made under the same token, by `spawn_child` or by
/// `with_parent_cancel`, are apart: neither signal stands below the other, at any later time.
pub proof fn law_siblings_are_apart<R, V: ?Sized, H>(
    worlds: Seq<World<R, V, H>>,
    ops: Seq<HeapOp<R, V, H>>,
    i: int,
    k: int,
    j: int,
)
    requires
        is_run(worlds, ops),
        0 <= i < j <= ops.len(),
        0 <= k < j,
        i != k,
        ops[i].parent_line(worlds[i].heap) is Some,
        ops[k].parent_line(worlds[k].heap) == ops[i].parent_line(worlds[i].heap),
    ensures
        ({
            let tokens = worlds[j].heap.tokens;
            let a = token_line(tokens[worlds[i + 1].made.last().cancel as int]);
            let b = token_line(tokens[worlds[k + 1].made.last().cancel as int]);
            !stands_below(a, b) && !stands_below(b, a)
        }),
{
    let tokens = worlds[j].heap.tokens;
    let (c, d) = (
        worlds[i + 1].made.last().cancel as int,
        worlds[k + 1].made.last().cancel as int,
    );
    let (a, b) = (token_line(tokens[c]), token_line(tokens[d]));
    lemma_made_under(worlds, ops, i, j);
    lemma_made_under(worlds, ops, k, j);
    assert(a.take(b.len() as int) =~= a && b.take(a.len() as int) =~= b);
    if i < k {
        lemma_made_under(worlds, ops, i, k);
        lemma_token_stays(worlds, ops, k, j, c);
        assert(!stands_below(token_line(worlds[k].heap.tokens[c]), b));
    } else {
        lemma_made_under(worlds, ops, k, i);
        lemma_token_stays(worlds, ops, i, j, d);
        assert(!stands_below(token_line(worlds[i].heap.tokens[d]), a));
    }
}

/// The done signal of a context that was made under a token goes down and not up: at any time, the
/// context is done, while the token that it was made under and those above that are as they were, and
/// so is whether they are reached. Here `other` is the place of such a token.
pub proof fn law_signal_spares_parent<R, V: ?Sized, H>(
    worlds: Seq<World<R, V, H>>,
    ops: Seq<HeapOp<R, V, H>>,
    i: int,
    j: int,
    other: int,
)
    requires
        is_run(worlds, ops),
        0 <= i < j < ops.len(),
        ops[i].parent_line(worlds[i].heap) is Some,
        ops[j] matches HeapOp::Signal { place, after } && place
            == worlds[i + 1].made.last().cancel,
        0 <= other < worlds[j].heap.tokens.len(),
        stands_below(
            ops[i].parent_line(worlds[i].heap)->0,
            token_line(worlds[j].heap.tokens[other]),
        ),
    ensures
        worlds[j + 1].heap.done_for(worlds[i + 1].made.last()),
        worlds[j + 1].heap.tokens[other] == worlds[j].heap.tokens[other],
        reached(worlds[j + 1].heap.tokens, other) == reached(worlds[j].heap.tokens, other),
{
    lemma_made_under(worlds, ops, i, j);
    lemma_signal_spares(worlds, ops, j, other);
}

/// The done signal of a context that was made under a token goes down and not aside: where another
/// context was made under the same token, by `spawn_child` or by `with_parent_cancel`, the token of
/// that one and those below it are as they were, and so is whether they are reached. Here `other` is
/// the place of such a token.
pub proof fn law_signal_spares_siblings<R, V: ?Sized, H>(
    worlds: Seq<World<R, V, H>>,
    ops: Seq<HeapOp<R, V, H>>,
    i: int,
    k: int,
    j: int,
    other: int,
)
    requires
        is_run(worlds, ops),
        0 <= i < j < ops.len(),
        0 <= k < j,
        i != k,
        ops[i].parent_line(worlds[i].heap) is Some,
        ops[k].parent_line(worlds[k].heap) == ops[i].parent_line(worlds[i].heap),
        ops[j] matches HeapOp::Signal { place, after } && place
            == worlds[i + 1].made.last().cancel,
        0 <= other < worlds[j].heap.tokens.len(),
        stands_below(
            token_line(worlds[j].heap.tokens[other]),
            token_line(worlds[j].heap.tokens[worlds[k + 1].made.last().cancel as int]),
        ),
    ensures
        worlds[j + 1].heap.done_for(worlds[i + 1].made.last()),
        worlds[j + 1].heap.tokens[other] == worlds[j].heap.tokens[other],
        reached(worlds[j + 1].heap.tokens, other) == reached(worlds[j].heap.tokens, other),
{
    let tokens = worlds[j].heap.tokens;
    let own = token_line(tokens[worlds[i + 1].made.last().cancel as int]);
    lemma_made_under(worlds, ops, i, j);
    lemma_made_under(worlds, ops, k, j);
    law_siblings_are_apart(worlds, ops, i, k, j);
    assert(own.take(own.len() as int) =~= own);
    lemma_signal_spares(worlds, ops, j, other);
}

/// A signal reaches the token that it is raised at, and spares one that does not stand below that.
proof fn lemma_signal_spares<R, V: ?Sized, H>(
    worlds: Seq<World<R, V, H>>,
    ops: Seq<HeapOp<R, V, H>>,
    j: int,
    other: int,
)
    requires
        is_run(worlds, ops),
        0 <= j < ops.len(),
        0 <= other < worlds[j].heap.tokens.len(),
        ops[j] matches HeapOp::Signal { place, after } && !stands_below(
            token_line(worlds[j].heap.tokens[other]),
            token_line(worlds[j].heap.tokens[place]),
        ),
    ensures
        reached(worlds[j + 1].heap.tokens, ops[j]->place),
        worlds[j + 1].heap.tokens[other] == worlds[j].heap.tokens[other],
        reached(worlds[j + 1].heap.tokens, other) == reached(worlds[j].heap.tokens, other),
{
    let tokens = worlds[j].heap.tokens;
    assert(is_step(worlds[j], ops[j], worlds[j + 1]));
    if let HeapOp::Signal { place, after } = ops[j] {
        let line = token_line(tokens[place]);
        assert(line.take(line.len() as int) =~= line);
        law_signal_reaches_below(tokens, after, place, place);
        law_signal_reaches_below(tokens, after, place, other);
        assert(after[other] == tokens[other]);
    }
}

} // verus!
