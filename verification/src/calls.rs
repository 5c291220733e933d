//! What the calls on a context do, by what goes in and what comes out.
use crate::context::{ContextHeap, HandleAction, TradeTaskContext, WaitAction, WaitStage};
use crate::implicit::{lemma_first_is, lemma_first_of};
use crate::laws::HeapOp;
use crate::message::MonitorMessage;
use crate::tokens::{stands_below, token_cancelled, token_line};
use crate::vars::VarTable;
use std::sync::Arc;
use std::time::Instant;
use tokio_util::sync::CancellationToken;
use vstd::prelude::*;

verus! {

/// A heap begins with nothing in it.
pub proof fn law_heap_begins_empty<R, V: ?Sized, H>(
    heap: ContextHeap<R, V, H>,
)
    requires
        call_ensures(ContextHeap::<R, V, H>::new, (), heap),
    ensures
        heap.wf(),
        heap@.vars.len() == 0,
        heap@.contexts.len() == 0,
        heap@.handles.len() == 0,
        heap@.confirmed.len() == 0,
        heap@.tokens.len() == 0,
{
}

/// A context lives in a heap exactly if each of its places is there.
pub proof fn law_lives_in<R, V: ?Sized, H>(
    ctx: &TradeTaskContext,
    heap: &ContextHeap<R, V, H>,
    lives: bool,
)
    requires
        call_ensures(TradeTaskContext::lives_in::<R, V, H>, (ctx, heap), lives),
    ensures
        lives == (ctx.vars < heap@.vars.len() && ctx.contexts < heap@.contexts.len()
            && ctx.confirm_handles < heap@.handles.len() && ctx.buy_confirmed
            < heap@.confirmed.len() && ctx.cancel < heap@.tokens.len()),
{
}

/// Whatever state a heap is in, everything that changes it can be done through a context that lives
/// in it: no stage of a strategy rules anything out.
pub proof fn law_changes_may_always_be_made<R, V: ?Sized, H>(
    ctx: &TradeTaskContext,
    heap: &mut ContextHeap<R, V, H>,
    parent: &CancellationToken,
    name: &str,
    value: R,
    protocol: &'static str,
    left: Arc<V>,
    handle: H,
)
    requires
        heap.wf(),
        ctx.vars < heap@.vars.len(),
        ctx.contexts < heap@.contexts.len(),
        ctx.confirm_handles < heap@.handles.len(),
        ctx.buy_confirmed < heap@.confirmed.len(),
        ctx.cancel < heap@.tokens.len(),
    ensures
        call_requires(TradeTaskContext::new::<R, V, H>, (heap,)),
        call_requires(TradeTaskContext::with_parent_cancel::<R, V, H>, (heap, parent)),
        call_requires(TradeTaskContext::spawn_child::<R, V, H>, (heap, ctx)),
        call_requires(TradeTaskContext::set_var_sync::<R, V, H>, (ctx, heap, name, value)),
        call_requires(
            TradeTaskContext::produce_context_sync::<R, V, H>,
            (ctx, heap, protocol, left),
        ),
        call_requires(TradeTaskContext::push_confirm_handle::<R, V, H>, (ctx, heap, handle)),
        call_requires(TradeTaskContext::confirm_all_handles::<R, V, H>, (ctx, heap)),
        call_requires(TradeTaskContext::cancel_all_handles::<R, V, H>, (ctx, heap)),
        call_requires(TradeTaskContext::signal_done::<R, V, H>, (ctx, heap)),
{
}

/// Whatever state a heap is in, everything can be asked through a context that lives in it.
pub proof fn law_questions_may_always_be_asked<R: Clone, V: ?Sized, H>(
    ctx: &TradeTaskContext,
    heap: &ContextHeap<R, V, H>,
    upper: &CancellationToken,
    name: &str,
    protocol: &'static str,
    stage: WaitStage,
)
    requires
        heap.wf(),
        ctx.vars < heap@.vars.len(),
        ctx.contexts < heap@.contexts.len(),
        ctx.confirm_handles < heap@.handles.len(),
        ctx.buy_confirmed < heap@.confirmed.len(),
        ctx.cancel < heap@.tokens.len(),
    ensures
        call_requires(TradeTaskContext::get_var_sync::<R, V, H>, (ctx, heap, name)),
        call_requires(TradeTaskContext::snapshot_vars_sync::<R, V, H>, (ctx, heap)),
        call_requires(TradeTaskContext::has_context_sync::<R, V, H>, (ctx, heap, protocol)),
        call_requires(TradeTaskContext::is_done::<R, V, H>, (ctx, heap)),
        call_requires(TradeTaskContext::is_done_below::<R, V, H>, (ctx, heap, upper)),
        call_requires(TradeTaskContext::finds_cancelled::<R, V, H>, (ctx, heap, upper)),
        call_requires(TradeTaskContext::done_token::<R, V, H>, (ctx, heap)),
        call_requires(TradeTaskContext::child_token::<R, V, H>, (ctx, heap)),
        call_requires(TradeTaskContext::is_buy_confirmed::<R, V, H>, (ctx, heap)),
        call_requires(TradeTaskContext::wait_buy_confirmed::<R, V, H>, (ctx, heap, stage)),
{
}

/// A context of its own begins with no variable, no value, no handle and a buy not confirmed, all
/// at new places. Its token is a new one that stands under none and is not cancelled. What the
/// heap held before is as it was.
pub proof fn law_new_context<R, V: ?Sized, H>(
    heap: &mut ContextHeap<R, V, H>,
    ctx: TradeTaskContext,
)
    requires
        call_ensures(TradeTaskContext::new::<R, V, H>, (heap,), ctx),
    ensures
        final(heap).wf(),
        final(heap)@.vars == old(heap)@.vars.push(Map::empty()),
        final(heap)@.contexts == old(heap)@.contexts.push(Seq::empty()),
        final(heap)@.handles == old(heap)@.handles.push(Seq::empty()),
        final(heap)@.confirmed == old(heap)@.confirmed.push(false),
        final(heap)@.tokens == old(heap)@.tokens.push(final(heap)@.tokens.last()),
        ctx.vars == old(heap)@.vars.len(),
        ctx.contexts == old(heap)@.contexts.len(),
        ctx.confirm_handles == old(heap)@.handles.len(),
        ctx.buy_confirmed == old(heap)@.confirmed.len(),
        ctx.cancel == old(heap)@.tokens.len(),
        call_ensures(Instant::now, (), ctx.start),
        token_line(final(heap)@.tokens.last()).len() == 1,
        !token_cancelled(final(heap)@.tokens.last()),
        forall|i: int|
            0 <= i < old(heap)@.tokens.len() ==> {
                let (low, high) = (
                    token_line(#[trigger] old(heap)@.tokens[i]),
                    token_line(final(heap)@.tokens.last()),
                );
                !(high.len() <= low.len() && low.take(high.len() as int) == high)
            },
{
}

/// A context under a token begins as one of its own does, but that its new token is a child of
/// that token, and cancelled from the start where that token is known to be. The heap keeps the
/// token, as the same token, one place before.
pub proof fn law_context_under_token<R, V: ?Sized, H>(
    heap: &mut ContextHeap<R, V, H>,
    parent: &CancellationToken,
    ctx: TradeTaskContext,
)
    requires
        call_ensures(TradeTaskContext::with_parent_cancel::<R, V, H>, (heap, parent), ctx),
    ensures
        final(heap).wf(),
        final(heap)@.vars == old(heap)@.vars.push(Map::empty()),
        final(heap)@.contexts == old(heap)@.contexts.push(Seq::empty()),
        final(heap)@.handles == old(heap)@.handles.push(Seq::empty()),
        final(heap)@.confirmed == old(heap)@.confirmed.push(false),
        final(heap)@.tokens == old(heap)@.tokens.push(
            final(heap)@.tokens[old(heap)@.tokens.len() as int],
        ).push(final(heap)@.tokens.last()),
        ctx.vars == old(heap)@.vars.len(),
        ctx.contexts == old(heap)@.contexts.len(),
        ctx.confirm_handles == old(heap)@.handles.len(),
        ctx.buy_confirmed == old(heap)@.confirmed.len(),
        ctx.cancel == old(heap)@.tokens.len() + 1,
        call_ensures(Instant::now, (), ctx.start),
        token_line(final(heap)@.tokens[old(heap)@.tokens.len() as int]) == token_line(*parent),
        token_cancelled(final(heap)@.tokens.last()) <==> token_cancelled(*parent) || (exists|j: int|
            {
                let (low, high) = (token_line(*parent), token_line(old(heap)@.tokens[j]));
                &&& 0 <= j < old(heap)@.tokens.len()
                &&& token_cancelled(#[trigger] old(heap)@.tokens[j])
                &&& high.len() <= low.len() && low.take(high.len() as int) == high
            }),
        token_cancelled(final(heap)@.tokens[old(heap)@.tokens.len() as int]) == token_cancelled(
            final(heap)@.tokens.last(),
        ),
        token_line(final(heap)@.tokens.last()).len() == token_line(*parent).len() + 1,
        token_line(final(heap)@.tokens.last()).drop_last() == token_line(*parent),
        forall|i: int|
            0 <= i < old(heap)@.tokens.len() ==> {
                let (low, high) = (
                    token_line(#[trigger] old(heap)@.tokens[i]),
                    token_line(final(heap)@.tokens.last()),
                );
                !(high.len() <= low.len() && low.take(high.len() as int) == high)
            },
{
    let n = old(heap)@.tokens.len() as int;
    let kept = final(heap)@.tokens.drop_last();
    let line = token_line(*parent);
    assert(kept =~= old(heap)@.tokens.push(final(heap)@.tokens[n]));
    assert(line.take(line.len() as int) =~= line);
    if token_cancelled(kept[n]) {
        assert(token_cancelled(final(heap)@.tokens.last()));
    }
    if token_cancelled(final(heap)@.tokens.last()) && !token_cancelled(kept[n]) {
        let j = choose|j: int|
            0 <= j < kept.len() && token_cancelled(#[trigger] kept[j]) && stands_below(
                line,
                token_line(kept[j]),
            );
        assert(kept[j] == old(heap)@.tokens[j]);
    }
    assert forall|i: int| 0 <= i < n implies {
        let (low, high) = (
            token_line(#[trigger] old(heap)@.tokens[i]),
            token_line(final(heap)@.tokens.last()),
        );
        !(high.len() <= low.len() && low.take(high.len() as int) == high)
    } by {
        assert(kept[i] == old(heap)@.tokens[i]);
    }
}

/// A background task sees what its parent saw before: the same variables with the same values, the
/// same implicit contexts, the same buy flag, at the same places. Nothing that the heap held is
/// changed by spawning it. No handle waits in it, and its new token is a child of its parent's.
pub proof fn law_spawned_child<R, V: ?Sized, H>(
    heap: &mut ContextHeap<R, V, H>,
    parent: &TradeTaskContext,
    child: TradeTaskContext,
)
    requires
        call_ensures(TradeTaskContext::spawn_child::<R, V, H>, (heap, parent), child),
    ensures
        final(heap).wf(),
        final(heap)@.vars[child.vars as int] == old(heap)@.vars[parent.vars as int],
        final(heap)@.contexts[child.contexts as int] == old(heap)@.contexts[parent.contexts as int],
        final(heap)@.confirmed[child.buy_confirmed as int]
            == old(heap)@.confirmed[parent.buy_confirmed as int],
        final(heap)@.vars == old(heap)@.vars,
        final(heap)@.contexts == old(heap)@.contexts,
        final(heap)@.confirmed == old(heap)@.confirmed,
        final(heap)@.handles == old(heap)@.handles.push(Seq::empty()),
        final(heap)@.tokens == old(heap)@.tokens.push(final(heap)@.tokens.last()),
        child.vars == parent.vars,
        child.contexts == parent.contexts,
        child.buy_confirmed == parent.buy_confirmed,
        child.start == parent.start,
        child.confirm_handles == old(heap)@.handles.len(),
        child.cancel == old(heap)@.tokens.len(),
        token_line(final(heap)@.tokens.last()).len() == token_line(
            old(heap)@.tokens[parent.cancel as int],
        ).len() + 1,
        token_line(final(heap)@.tokens.last()).drop_last() == token_line(
            old(heap)@.tokens[parent.cancel as int],
        ),
        token_cancelled(final(heap)@.tokens.last()) <==> (exists|j: int|
            {
                let (low, high) = (
                    token_line(old(heap)@.tokens[parent.cancel as int]),
                    token_line(old(heap)@.tokens[j]),
                );
                &&& 0 <= j < old(heap)@.tokens.len()
                &&& token_cancelled(#[trigger] old(heap)@.tokens[j])
                &&& high.len() <= low.len() && low.take(high.len() as int) == high
            }),
        forall|i: int|
            0 <= i < old(heap)@.tokens.len() ==> {
                let (low, high) = (
                    token_line(#[trigger] old(heap)@.tokens[i]),
                    token_line(final(heap)@.tokens.last()),
                );
                !(high.len() <= low.len() && low.take(high.len() as int) == high)
            },
{
}

/// Whatever its parent's variables were when a background task was spawned, the background task
/// reads: a variable that the parent would have read is read with that value, and no other is.
pub proof fn law_child_reads_parents_variables<R: Clone, V: ?Sized, H>(
    heap: &mut ContextHeap<R, V, H>,
    parent: &TradeTaskContext,
    child: TradeTaskContext,
    name: &str,
    before: Option<R>,
    after: Option<R>,
)
    requires
        call_ensures(
            TradeTaskContext::get_var_sync::<R, V, H>,
            (parent, &*old(heap), name),
            before,
        ),
        call_ensures(TradeTaskContext::spawn_child::<R, V, H>, (heap, parent), child),
        call_ensures(
            TradeTaskContext::get_var_sync::<R, V, H>,
            (&child, &*final(heap), name),
            after,
        ),
    ensures
        before is Some <==> after is Some,
        after is Some ==> old(heap)@.vars[parent.vars as int].contains_key(name@) && cloned(
            old(heap)@.vars[parent.vars as int][name@],
            after->0,
        ),
{
    law_spawned_child(heap, parent, child);
}

/// A variable is read as a clone of its value exactly if it has one.
pub proof fn law_variable_read<R: Clone, V: ?Sized, H>(
    ctx: &TradeTaskContext,
    heap: &ContextHeap<R, V, H>,
    name: &str,
    value: Option<R>,
)
    requires
        call_ensures(TradeTaskContext::get_var_sync::<R, V, H>, (ctx, heap, name), value),
    ensures
        value is Some <==> heap@.vars[ctx.vars as int].contains_key(name@),
        value is Some ==> cloned(heap@.vars[ctx.vars as int][name@], value->0),
{
}

/// Setting a variable gives it the value, in every state of the heap, and changes nothing else: no
/// other variable, no other table, and nothing but variables.
pub proof fn law_variable_set<R, V: ?Sized, H>(
    ctx: &TradeTaskContext,
    heap: &mut ContextHeap<R, V, H>,
    name: &str,
    value: R,
)
    requires
        ctx.vars < heap@.vars.len(),
        call_ensures(TradeTaskContext::set_var_sync::<R, V, H>, (ctx, heap, name, value), ()),
    ensures
        final(heap).wf(),
        final(heap)@.vars.len() == old(heap)@.vars.len(),
        final(heap)@.vars[ctx.vars as int] == old(heap)@.vars[ctx.vars as int].insert(name@, value),
        forall|i: int|
            0 <= i < old(heap)@.vars.len() && i != ctx.vars ==> #[trigger] final(heap)@.vars[i]
                == old(heap)@.vars[i],
        final(heap)@.contexts == old(heap)@.contexts,
        final(heap)@.handles == old(heap)@.handles,
        final(heap)@.confirmed == old(heap)@.confirmed,
        final(heap)@.tokens == old(heap)@.tokens,
{
}

/// What is written through one context is read, as a clone, through every context that has its
/// variables at the same place. Other names are read as before.
pub proof fn law_set_is_read<R: Clone, V: ?Sized, H>(
    ctx: &TradeTaskContext,
    heap: &mut ContextHeap<R, V, H>,
    name: &str,
    value: R,
    reader: &TradeTaskContext,
    other: &str,
    got: Option<R>,
)
    requires
        ctx.vars < heap@.vars.len(),
        reader.vars == ctx.vars,
        call_ensures(TradeTaskContext::set_var_sync::<R, V, H>, (ctx, heap, name, value), ()),
        call_ensures(
            TradeTaskContext::get_var_sync::<R, V, H>,
            (reader, &*final(heap), other),
            got,
        ),
    ensures
        other@ == name@ ==> got is Some && cloned(value, got->0),
        other@ != name@ ==> (got is Some <==> old(heap)@.vars[ctx.vars as int].contains_key(other@))
            && (got is Some ==> cloned(old(heap)@.vars[ctx.vars as int][other@], got->0)),
{
    law_variable_set(ctx, heap, name, value);
}

/// A snapshot has the variables of the context and no others, name by name, each with a clone of
/// its value.
pub proof fn law_snapshot_name_by_name<R: Clone, V: ?Sized, H>(
    ctx: &TradeTaskContext,
    heap: &ContextHeap<R, V, H>,
    copy: VarTable<R>,
    name: Seq<char>,
)
    requires
        call_ensures(TradeTaskContext::snapshot_vars_sync::<R, V, H>, (ctx, heap), copy),
    ensures
        copy.wf(),
        copy@.contains_key(name) <==> heap@.vars[ctx.vars as int].contains_key(name),
        copy@.contains_key(name) ==> cloned(heap@.vars[ctx.vars as int][name], copy@[name]),
{
    assert(copy@.dom().contains(name) == heap@.vars[ctx.vars as int].dom().contains(name));
}

/// What a snapshot gives for a name is what the context reads for it at the time of the snapshot:
/// there is a value in the one exactly if there is in the other, and both are clones of the same.
pub proof fn law_snapshot_gives_what_is_read<R: Clone, V: ?Sized, H>(
    ctx: &TradeTaskContext,
    heap: &ContextHeap<R, V, H>,
    copy: VarTable<R>,
    name: &str,
    kept: Option<&R>,
    read: Option<R>,
)
    requires
        call_ensures(TradeTaskContext::snapshot_vars_sync::<R, V, H>, (ctx, heap), copy),
        call_ensures(VarTable::<R>::get, (&copy, name), kept),
        call_ensures(TradeTaskContext::get_var_sync::<R, V, H>, (ctx, heap, name), read),
    ensures
        kept is Some <==> read is Some,
        kept is Some ==> heap@.vars[ctx.vars as int].contains_key(name@) && cloned(
            heap@.vars[ctx.vars as int][name@],
            *kept->0,
        ) && cloned(heap@.vars[ctx.vars as int][name@], read->0),
{
    law_snapshot_name_by_name(ctx, heap, copy, name@);
}

/// A table lists each of its variables once, with its value, and nothing else.
pub proof fn law_entries_name_by_name<R>(
    table: VarTable<R>,
    entries: Vec<(String, R)>,
    name: Seq<char>,
)
    requires
        call_ensures(VarTable::<R>::into_entries, (table,), entries),
    ensures
        table@.contains_key(name) <==> (exists|i: int|
            0 <= i < entries@.len() && #[trigger] entries@[i].0@ == name),
        forall|i: int|
            0 <= i < entries@.len() && #[trigger] entries@[i].0@ == name ==> entries@[i].1
                == table@[name],
        forall|i: int, j: int|
            0 <= i < j < entries@.len() ==> #[trigger] entries@[i].0@ != #[trigger] entries@[j].0@,
{
}

/// A table gives back the value that it holds under a name, and nothing under a name that it does
/// not hold.
pub proof fn law_table_gives_its_values<R>(
    table: &VarTable<R>,
    name: &str,
    kept: Option<&R>,
)
    requires
        call_ensures(VarTable::<R>::get, (table, name), kept),
    ensures
        kept is Some <==> table@.contains_key(name@),
        kept is Some ==> *kept->0 == table@[name@],
{
}

/// Leaving a value puts it at the end of the list, in every state of the heap, a confirmed buy
/// included, and changes nothing else. Every context with the list at the same place sees it there.
pub proof fn law_value_left<R, V: ?Sized, H>(
    ctx: &TradeTaskContext,
    heap: &mut ContextHeap<R, V, H>,
    protocol: &'static str,
    value: Arc<V>,
    other: TradeTaskContext,
)
    requires
        ctx.contexts < heap@.contexts.len(),
        other.contexts < heap@.contexts.len(),
        call_ensures(
            TradeTaskContext::produce_context_sync::<R, V, H>,
            (ctx, heap, protocol, value),
            (),
        ),
    ensures
        final(heap).wf(),
        final(heap)@.contexts.len() == old(heap)@.contexts.len(),
        other.contexts == ctx.contexts ==> final(heap)@.contexts[other.contexts as int]
            == old(heap)@.contexts[other.contexts as int].push((protocol@, value)),
        other.contexts != ctx.contexts ==> final(heap)@.contexts[other.contexts as int]
            == old(heap)@.contexts[other.contexts as int],
        final(heap)@.vars == old(heap)@.vars,
        final(heap)@.handles == old(heap)@.handles,
        final(heap)@.confirmed == old(heap)@.confirmed,
        final(heap)@.tokens == old(heap)@.tokens,
{
}

/// Taking out a value takes out the first of its protocol, in every state of the heap, and the
/// last value of the list takes its place. It comes back as `cast` gives it. Where there is none
/// of the protocol, nothing comes back and nothing changes. Nothing else changes, and every
/// context with the list at the same place sees the change.
pub proof fn law_value_taken_out<
    R,
    V: ?Sized,
    H,
    T,
    F: FnOnce(Arc<V>) -> Option<Arc<T>>,
>(
    ctx: &TradeTaskContext,
    heap: &mut ContextHeap<R, V, H>,
    protocol: &'static str,
    cast: F,
    value: Option<Arc<T>>,
    other: TradeTaskContext,
    first: int,
)
    requires
        ctx.contexts < heap@.contexts.len(),
        other.contexts < heap@.contexts.len(),
        call_ensures(
            TradeTaskContext::consume_context_sync::<R, V, H, T, F>,
            (ctx, heap, protocol, cast),
            value,
        ),
    ensures
        final(heap).wf(),
        final(heap)@.contexts.len() == old(heap)@.contexts.len(),
        ({
            let list = old(heap)@.contexts[ctx.contexts as int];
            (forall|j: int| 0 <= j < list.len() ==> #[trigger] list[j].0 != protocol@)
                ==> value is None && final(heap)@.contexts[ctx.contexts as int] == list
        }),
        ({
            let list = old(heap)@.contexts[ctx.contexts as int];
            let after = final(heap)@.contexts[ctx.contexts as int];
            0 <= first < list.len() && list[first].0 == protocol@ && (forall|j: int|
                0 <= j < first ==> #[trigger] list[j].0 != protocol@) ==> {
                &&& call_ensures(cast, (list[first].1,), value)
                &&& after.len() == list.len() - 1
                &&& forall|j: int|
                    0 <= j < after.len() ==> #[trigger] after[j] == if j == first {
                        list[list.len() - 1]
                    } else {
                        list[j]
                    }
            }
        }),
        other.contexts != ctx.contexts ==> final(heap)@.contexts[other.contexts as int]
            == old(heap)@.contexts[other.contexts as int],
        final(heap)@.vars == old(heap)@.vars,
        final(heap)@.handles == old(heap)@.handles,
        final(heap)@.confirmed == old(heap)@.confirmed,
        final(heap)@.tokens == old(heap)@.tokens,
{
    let list = old(heap)@.contexts[ctx.contexts as int];
    lemma_first_of(list, protocol@);
    if 0 <= first < list.len() && list[first].0 == protocol@ && (forall|j: int|
        0 <= j < first ==> #[trigger] list[j].0 != protocol@) {
        lemma_first_is(list, protocol@, first);
    }
}

/// The value that is found is the first of its protocol, as `cast` gives it; where there is none of
/// the protocol, none is found.
pub proof fn law_value_found<
    R,
    V: ?Sized,
    H,
    T,
    F: FnOnce(Arc<V>) -> Option<Arc<T>>,
>(
    ctx: &TradeTaskContext,
    heap: &ContextHeap<R, V, H>,
    protocol: &'static str,
    cast: F,
    value: Option<Arc<T>>,
    first: int,
)
    requires
        call_ensures(
            TradeTaskContext::get_context_sync::<R, V, H, T, F>,
            (ctx, heap, protocol, cast),
            value,
        ),
    ensures
        ({
            let list = heap@.contexts[ctx.contexts as int];
            &&& (forall|j: int| 0 <= j < list.len() ==> #[trigger] list[j].0 != protocol@)
                ==> value is None
            &&& 0 <= first < list.len() && list[first].0 == protocol@ && (forall|j: int|
                0 <= j < first ==> #[trigger] list[j].0 != protocol@) ==> call_ensures(
                cast,
                (list[first].1,),
                value,
            )
        }),
{
    let list = heap@.contexts[ctx.contexts as int];
    lemma_first_of(list, protocol@);
    if 0 <= first < list.len() && list[first].0 == protocol@ && (forall|j: int|
        0 <= j < first ==> #[trigger] list[j].0 != protocol@) {
        lemma_first_is(list, protocol@, first);
    }
}

/// There is a value of a protocol exactly if one is in the list.
pub proof fn law_value_there<R, V: ?Sized, H>(
    ctx: &TradeTaskContext,
    heap: &ContextHeap<R, V, H>,
    protocol: &'static str,
    has: bool,
)
    requires
        call_ensures(TradeTaskContext::has_context_sync::<R, V, H>, (ctx, heap, protocol), has),
    ensures
        has <==> (exists|i: int|
            0 <= i < heap@.contexts[ctx.contexts as int].len()
                && #[trigger] heap@.contexts[ctx.contexts as int][i].0 == protocol@),
{
    lemma_first_of(heap@.contexts[ctx.contexts as int], protocol@);
}

/// A value that is left where there was none of its protocol is found by whoever has the list at
/// the same place, whether or not the buy is confirmed.
pub proof fn law_left_is_found<
    R,
    V: ?Sized,
    H,
    T,
    F: FnOnce(Arc<V>) -> Option<Arc<T>>,
>(
    ctx: &TradeTaskContext,
    heap: &mut ContextHeap<R, V, H>,
    protocol: &'static str,
    left: Arc<V>,
    finder: &TradeTaskContext,
    cast: F,
    value: Option<Arc<T>>,
)
    requires
        ctx.contexts < heap@.contexts.len(),
        finder.contexts == ctx.contexts,
        forall|j: int|
            0 <= j < heap@.contexts[ctx.contexts as int].len()
                ==> #[trigger] heap@.contexts[ctx.contexts as int][j].0 != protocol@,
        call_ensures(
            TradeTaskContext::produce_context_sync::<R, V, H>,
            (ctx, heap, protocol, left),
            (),
        ),
        call_ensures(
            TradeTaskContext::get_context_sync::<R, V, H, T, F>,
            (finder, &*final(heap), protocol, cast),
            value,
        ),
    ensures
        call_ensures(cast, (left,), value),
{
    let list = old(heap)@.contexts[ctx.contexts as int];
    law_value_left(ctx, heap, protocol, left, *finder);
    assert forall|j: int| 0 <= j < list.len() implies #[trigger] list.push((protocol@, left))[j].0
        != protocol@ by {
        assert(list[j].0 != protocol@);
    }
    law_value_found(finder, &*final(heap), protocol, cast, value, list.len() as int);
}

/// A handle waits behind those before it, unless the buy is confirmed: then it is to be confirmed,
/// and nothing changes.
pub proof fn law_handle_pushed<R, V: ?Sized, H>(
    ctx: &TradeTaskContext,
    heap: &mut ContextHeap<R, V, H>,
    handle: H,
    action: Option<HandleAction<H>>,
)
    requires
        ctx.confirm_handles < heap@.handles.len(),
        call_ensures(
            TradeTaskContext::push_confirm_handle::<R, V, H>,
            (ctx, heap, handle),
            action,
        ),
    ensures
        final(heap).wf(),
        old(heap)@.confirmed[ctx.buy_confirmed as int] ==> action == Some(
            HandleAction::Confirm(handle),
        ) && final(heap)@.handles == old(heap)@.handles,
        !old(heap)@.confirmed[ctx.buy_confirmed as int] ==> action is None && final(heap)@.handles
            == old(heap)@.handles.update(
            ctx.confirm_handles as int,
            old(heap)@.handles[ctx.confirm_handles as int].push(handle),
        ),
        final(heap)@.vars == old(heap)@.vars,
        final(heap)@.contexts == old(heap)@.contexts,
        final(heap)@.confirmed == old(heap)@.confirmed,
        final(heap)@.tokens == old(heap)@.tokens,
{
}

/// Confirming the buy asks for one action more than handles wait: first to wake those who wait for
/// the buy, then to confirm each handle, in the order in which they came. No handle is cancelled
/// and none left waiting, the buy is confirmed, and nothing else changes.
pub proof fn law_buy_confirmed<R, V: ?Sized, H>(
    ctx: &TradeTaskContext,
    heap: &mut ContextHeap<R, V, H>,
    actions: Vec<HandleAction<H>>,
)
    requires
        ctx.confirm_handles < heap@.handles.len(),
        ctx.buy_confirmed < heap@.confirmed.len(),
        call_ensures(TradeTaskContext::confirm_all_handles::<R, V, H>, (ctx, heap), actions),
    ensures
        final(heap).wf(),
        actions@.len() == old(heap)@.handles[ctx.confirm_handles as int].len() + 1,
        actions@[0] is WakeWaiters,
        forall|i: int|
            1 <= i < actions@.len() ==> #[trigger] actions@[i] == HandleAction::Confirm(
                old(heap)@.handles[ctx.confirm_handles as int][i - 1],
            ),
        forall|i: int| 0 <= i < actions@.len() ==> !(#[trigger] actions@[i] is Cancel),
        final(heap)@.handles == old(heap)@.handles.update(
            ctx.confirm_handles as int,
            Seq::empty(),
        ),
        final(heap)@.confirmed == old(heap)@.confirmed.update(ctx.buy_confirmed as int, true),
        final(heap)@.vars == old(heap)@.vars,
        final(heap)@.contexts == old(heap)@.contexts,
        final(heap)@.tokens == old(heap)@.tokens,
{
}

/// Giving up the buy asks to cancel each waiting handle, in the order in which they came, and for
/// nothing else. None is left waiting, and nothing else changes.
pub proof fn law_buy_given_up<R, V: ?Sized, H>(
    ctx: &TradeTaskContext,
    heap: &mut ContextHeap<R, V, H>,
    actions: Vec<HandleAction<H>>,
)
    requires
        ctx.confirm_handles < heap@.handles.len(),
        call_ensures(TradeTaskContext::cancel_all_handles::<R, V, H>, (ctx, heap), actions),
    ensures
        final(heap).wf(),
        actions@.len() == old(heap)@.handles[ctx.confirm_handles as int].len(),
        forall|i: int|
            0 <= i < actions@.len() ==> #[trigger] actions@[i] == HandleAction::Cancel(
                old(heap)@.handles[ctx.confirm_handles as int][i],
            ),
        final(heap)@.handles == old(heap)@.handles.update(
            ctx.confirm_handles as int,
            Seq::empty(),
        ),
        final(heap)@.vars == old(heap)@.vars,
        final(heap)@.contexts == old(heap)@.contexts,
        final(heap)@.confirmed == old(heap)@.confirmed,
        final(heap)@.tokens == old(heap)@.tokens,
{
}

/// A handle that came before the buy was confirmed is confirmed with it, after all that came before
/// it.
pub proof fn law_pushed_is_confirmed<R, V: ?Sized, H>(
    ctx: &TradeTaskContext,
    heap: &mut ContextHeap<R, V, H>,
    handle: H,
    later: &mut ContextHeap<R, V, H>,
    actions: Vec<HandleAction<H>>,
)
    requires
        ctx.confirm_handles < heap@.handles.len(),
        ctx.buy_confirmed < heap@.confirmed.len(),
        !heap@.confirmed[ctx.buy_confirmed as int],
        call_ensures(TradeTaskContext::push_confirm_handle::<R, V, H>, (ctx, heap, handle), None),
        *old(later) == *final(heap),
        call_ensures(TradeTaskContext::confirm_all_handles::<R, V, H>, (ctx, later), actions),
    ensures
        actions@.last() == HandleAction::Confirm(handle),
        actions@.len() == old(heap)@.handles[ctx.confirm_handles as int].len() + 2,
        final(later)@.confirmed[ctx.buy_confirmed as int],
{
    law_handle_pushed(ctx, heap, handle, None);
    law_buy_confirmed(ctx, later, actions);
}

/// The buy is confirmed for a context exactly if the flag at its place is set.
pub proof fn law_buy_flag_read<R, V: ?Sized, H>(
    ctx: &TradeTaskContext,
    heap: &ContextHeap<R, V, H>,
    confirmed: bool,
)
    requires
        call_ensures(TradeTaskContext::is_buy_confirmed::<R, V, H>, (ctx, heap), confirmed),
    ensures
        confirmed == heap@.confirmed[ctx.buy_confirmed as int],
{
}

/// One who was not woken returns from a wait exactly if the buy is confirmed. One who enters while
/// it is not joins those who will be woken, and sleeps only after it has looked again. One who was
/// woken returns.
pub proof fn law_wait_step<R, V: ?Sized, H>(
    ctx: &TradeTaskContext,
    heap: &ContextHeap<R, V, H>,
    stage: WaitStage,
    action: WaitAction,
)
    requires
        call_ensures(TradeTaskContext::wait_buy_confirmed::<R, V, H>, (ctx, heap, stage), action),
    ensures
        action is Return <==> stage is Woken || heap@.confirmed[ctx.buy_confirmed as int],
        action is Register <==> stage is Entered && !heap@.confirmed[ctx.buy_confirmed as int],
        action is Sleep <==> stage is Registered && !heap@.confirmed[ctx.buy_confirmed as int],
{
}

/// A done signal cancels the token of the context and those that stand below it. Every other token,
/// and all else in the heap, is as it was.
pub proof fn law_done_signalled<R, V: ?Sized, H>(
    ctx: &TradeTaskContext,
    heap: &mut ContextHeap<R, V, H>,
    i: int,
)
    requires
        0 <= i < heap@.tokens.len(),
        ctx.cancel < heap@.tokens.len(),
        call_ensures(TradeTaskContext::signal_done::<R, V, H>, (ctx, heap), ()),
    ensures
        final(heap).wf(),
        final(heap)@.tokens.len() == old(heap)@.tokens.len(),
        token_line(final(heap)@.tokens[i]) == token_line(old(heap)@.tokens[i]),
        ({
            let (low, high) = (
                token_line(old(heap)@.tokens[i]),
                token_line(old(heap)@.tokens[ctx.cancel as int]),
            );
            if high.len() <= low.len() && low.take(high.len() as int) == high {
                token_cancelled(final(heap)@.tokens[i])
            } else {
                final(heap)@.tokens[i] == old(heap)@.tokens[i]
            }
        }),
        final(heap)@.vars == old(heap)@.vars,
        final(heap)@.contexts == old(heap)@.contexts,
        final(heap)@.handles == old(heap)@.handles,
        final(heap)@.confirmed == old(heap)@.confirmed,
{
    assert(token_line(final(heap)@.tokens[i]) == token_line(old(heap)@.tokens[i]));
}

/// A context is done if its token answers so, and the token answers so where one at or above it is
/// known to be cancelled.
pub proof fn law_done_asked<R, V: ?Sized, H>(
    ctx: &TradeTaskContext,
    heap: &ContextHeap<R, V, H>,
    done: bool,
    j: int,
)
    requires
        call_ensures(TradeTaskContext::is_done::<R, V, H>, (ctx, heap), done),
    ensures
        call_ensures(
            CancellationToken::is_cancelled,
            (&heap@.tokens[ctx.cancel as int],),
            done,
        ),
        ({
            let (low, high) = (
                token_line(heap@.tokens[ctx.cancel as int]),
                token_line(heap@.tokens[j]),
            );
            0 <= j < heap@.tokens.len() && token_cancelled(heap@.tokens[j]) && high.len()
                <= low.len() && low.take(high.len() as int) == high ==> done
        }),
{
}

/// Once a context is done, it is found done, and so is every context whose token stands below its
/// own, however deep.
pub proof fn law_signalled_is_done<R, V: ?Sized, H>(
    ctx: &TradeTaskContext,
    heap: &mut ContextHeap<R, V, H>,
    other: &TradeTaskContext,
    done: bool,
)
    requires
        ctx.cancel < heap@.tokens.len(),
        other.cancel < heap@.tokens.len(),
        ({
            let (low, high) = (
                token_line(heap@.tokens[other.cancel as int]),
                token_line(heap@.tokens[ctx.cancel as int]),
            );
            high.len() <= low.len() && low.take(high.len() as int) == high
        }),
        call_ensures(TradeTaskContext::signal_done::<R, V, H>, (ctx, heap), ()),
        call_ensures(TradeTaskContext::is_done::<R, V, H>, (other, &*final(heap)), done),
    ensures
        done,
{
    let line = token_line(old(heap)@.tokens[other.cancel as int]);
    law_done_signalled(ctx, heap, other.cancel as int);
    assert(line.take(line.len() as int) =~= line);
    law_done_asked(other, &*final(heap), done, other.cancel as int);
}

/// One who holds a token that is known to be cancelled finds every context below it done.
pub proof fn law_done_below_asked<R, V: ?Sized, H>(
    ctx: &TradeTaskContext,
    heap: &ContextHeap<R, V, H>,
    upper: &CancellationToken,
    done: bool,
)
    requires
        call_ensures(TradeTaskContext::is_done_below::<R, V, H>, (ctx, heap, upper), done),
    ensures
        call_ensures(
            CancellationToken::is_cancelled,
            (&heap@.tokens[ctx.cancel as int],),
            done,
        ),
        ({
            let (low, high) = (
                token_line(heap@.tokens[ctx.cancel as int]),
                token_line(*upper),
            );
            token_cancelled(*upper) && high.len() <= low.len() && low.take(high.len() as int)
                == high ==> done
        }),
{
}

/// A token below that of a context is found cancelled once one at or above the context's is known
/// to be.
pub proof fn law_handed_out_asked<R, V: ?Sized, H>(
    ctx: &TradeTaskContext,
    heap: &ContextHeap<R, V, H>,
    token: &CancellationToken,
    cancelled: bool,
    j: int,
)
    requires
        call_ensures(TradeTaskContext::finds_cancelled::<R, V, H>, (ctx, heap, token), cancelled),
    ensures
        call_ensures(CancellationToken::is_cancelled, (token,), cancelled),
        ({
            let (low, mid, high) = (
                token_line(*token),
                token_line(heap@.tokens[ctx.cancel as int]),
                token_line(heap@.tokens[j]),
            );
            0 <= j < heap@.tokens.len() && token_cancelled(heap@.tokens[j]) && high.len()
                <= mid.len() && mid.take(high.len() as int) == high && mid.len() <= low.len()
                && low.take(mid.len() as int) == mid ==> cancelled
        }),
{
}

/// The token that is handed out for those who wait is that of the context, and it is known to be
/// cancelled exactly if one at or above it is.
pub proof fn law_done_token<R, V: ?Sized, H>(
    ctx: &TradeTaskContext,
    heap: &ContextHeap<R, V, H>,
    token: CancellationToken,
)
    requires
        call_ensures(TradeTaskContext::done_token::<R, V, H>, (ctx, heap), token),
    ensures
        token_line(token) == token_line(heap@.tokens[ctx.cancel as int]),
        token_cancelled(token) <==> (exists|j: int|
            {
                let (low, high) = (
                    token_line(heap@.tokens[ctx.cancel as int]),
                    token_line(heap@.tokens[j]),
                );
                &&& 0 <= j < heap@.tokens.len()
                &&& token_cancelled(#[trigger] heap@.tokens[j])
                &&& high.len() <= low.len() && low.take(high.len() as int) == high
            }),
{
}

/// The token that is made for use elsewhere is a new child of that of the context, and it is known
/// to be cancelled exactly if one at or above the context's is.
pub proof fn law_child_token<R, V: ?Sized, H>(
    ctx: &TradeTaskContext,
    heap: &ContextHeap<R, V, H>,
    token: CancellationToken,
)
    requires
        call_ensures(TradeTaskContext::child_token::<R, V, H>, (ctx, heap), token),
    ensures
        token_line(token).len() == token_line(heap@.tokens[ctx.cancel as int]).len() + 1,
        token_line(token).drop_last() == token_line(heap@.tokens[ctx.cancel as int]),
        token_cancelled(token) <==> (exists|j: int|
            {
                let (low, high) = (
                    token_line(heap@.tokens[ctx.cancel as int]),
                    token_line(heap@.tokens[j]),
                );
                &&& 0 <= j < heap@.tokens.len()
                &&& token_cancelled(#[trigger] heap@.tokens[j])
                &&& high.len() <= low.len() && low.take(high.len() as int) == high
            }),
        forall|i: int|
            0 <= i < heap@.tokens.len() ==> {
                let (low, high) = (token_line(#[trigger] heap@.tokens[i]), token_line(token));
                !(high.len() <= low.len() && low.take(high.len() as int) == high)
            },
{
}

/// A table that is in order can be asked for any name and taken apart, a heap asked whether a context
/// lives in it and signalled at any of its tokens, and a message made of any value.
pub proof fn law_little_is_asked_for<R, V: ?Sized, H, T>(
    heap: &mut ContextHeap<R, V, H>,
    ctx: &TradeTaskContext,
    place: usize,
    table: &VarTable<R>,
    name: &str,
    protocol: &'static str,
    value: T,
)
    requires
        heap.wf(),
        place < heap@.tokens.len(),
        table.wf(),
    ensures
        call_requires(TradeTaskContext::lives_in::<R, V, H>, (ctx, &*old(heap))),
        call_requires(ContextHeap::<R, V, H>::signal, (heap, place)),
        call_requires(VarTable::<R>::get, (table, name)),
        call_requires(VarTable::<R>::into_entries, (*table,)),
        call_requires(MonitorMessage::<T>::single, (protocol, value)),
{
}

/// A message with one value holds that value, under its protocol, and says of no time.
pub proof fn law_single_message<V>(
    protocol: &'static str,
    value: V,
    message: MonitorMessage<V>,
)
    requires
        call_ensures(MonitorMessage::<V>::single, (protocol, value), message),
    ensures
        message.contexts@.len() == 1,
        message.contexts@[0].0@ == protocol@,
        *message.contexts@[0].1 == value,
        message.sig_time is None,
{
}

/// Whatever state a heap is in, values can be looked for and taken out, with whatever `cast` takes
/// every value.
pub proof fn law_values_may_always_be_looked_for<
    R,
    V: ?Sized,
    H,
    T,
    F: FnOnce(Arc<V>) -> Option<Arc<T>>,
>(
    ctx: &TradeTaskContext,
    heap: &mut ContextHeap<R, V, H>,
    protocol: &'static str,
    cast: F,
)
    requires
        heap.wf(),
        ctx.vars < heap@.vars.len(),
        ctx.contexts < heap@.contexts.len(),
        ctx.confirm_handles < heap@.handles.len(),
        ctx.buy_confirmed < heap@.confirmed.len(),
        ctx.cancel < heap@.tokens.len(),
        forall|v: Arc<V>| #[trigger] call_requires(cast, (v,)),
    ensures
        call_requires(
            TradeTaskContext::get_context_sync::<R, V, H, T, F>,
            (ctx, &*old(heap), protocol, cast),
        ),
        call_requires(
            TradeTaskContext::consume_context_sync::<R, V, H, T, F>,
            (ctx, heap, protocol, cast),
        ),
{
}

/// A signal at a place cancels the token there and those that stand below it. Every other token,
/// and all else in the heap, is as it was.
pub proof fn law_token_signalled<R, V: ?Sized, H>(
    heap: &mut ContextHeap<R, V, H>,
    place: usize,
    i: int,
)
    requires
        0 <= i < heap@.tokens.len(),
        place < heap@.tokens.len(),
        call_ensures(ContextHeap::<R, V, H>::signal, (heap, place), ()),
    ensures
        final(heap).wf(),
        final(heap)@.tokens.len() == old(heap)@.tokens.len(),
        token_line(final(heap)@.tokens[i]) == token_line(old(heap)@.tokens[i]),
        ({
            let (low, high) = (
                token_line(old(heap)@.tokens[i]),
                token_line(old(heap)@.tokens[place as int]),
            );
            if high.len() <= low.len() && low.take(high.len() as int) == high {
                token_cancelled(final(heap)@.tokens[i])
            } else {
                final(heap)@.tokens[i] == old(heap)@.tokens[i]
            }
        }),
        final(heap)@.vars == old(heap)@.vars,
        final(heap)@.contexts == old(heap)@.contexts,
        final(heap)@.handles == old(heap)@.handles,
        final(heap)@.confirmed == old(heap)@.confirmed,
{
    assert(token_line(final(heap)@.tokens[i]) == token_line(old(heap)@.tokens[i]));
}

/// `new` is the operation of that name in the histories of a heap.
pub proof fn law_new_is_operation<R, V: ?Sized, H>(
    heap: &mut ContextHeap<R, V, H>,
    ctx: TradeTaskContext,
)
    requires
        call_ensures(TradeTaskContext::new::<R, V, H>, (heap,), ctx),
    ensures
        ({
            let op = HeapOp::<R, V, H>::New { token: final(heap)@.tokens.last() };
            &&& op.fits(old(heap)@)
            &&& final(heap)@ == op.done_to(old(heap)@)
            &&& op.makes(old(heap)@, ctx)
        }),
{
}

/// `with_parent_cancel` is the operation of that name, with the token as the heap keeps it.
pub proof fn law_with_parent_is_operation<R, V: ?Sized, H>(
    heap: &mut ContextHeap<R, V, H>,
    parent: &CancellationToken,
    ctx: TradeTaskContext,
)
    requires
        call_ensures(TradeTaskContext::with_parent_cancel::<R, V, H>, (heap, parent), ctx),
    ensures
        ({
            let op = HeapOp::<R, V, H>::WithParent {
                parent: final(heap)@.tokens[old(heap)@.tokens.len() as int],
                token: final(heap)@.tokens.last(),
            };
            &&& op.fits(old(heap)@)
            &&& final(heap)@ == op.done_to(old(heap)@)
            &&& op.makes(old(heap)@, ctx)
            &&& token_line(op->parent) == token_line(*parent)
        }),
{
    assert(final(heap)@.tokens.drop_last() =~= old(heap)@.tokens.push(
        final(heap)@.tokens[old(heap)@.tokens.len() as int],
    ));
}

/// `spawn_child` is the operation of that name.
pub proof fn law_spawn_is_operation<R, V: ?Sized, H>(
    heap: &mut ContextHeap<R, V, H>,
    ctx: &TradeTaskContext,
    child: TradeTaskContext,
)
    requires
        heap@.holds(*ctx),
        call_ensures(TradeTaskContext::spawn_child::<R, V, H>, (heap, ctx), child),
    ensures
        ({
            let op = HeapOp::<R, V, H>::Spawn { of: *ctx, token: final(heap)@.tokens.last() };
            &&& op.fits(old(heap)@)
            &&& final(heap)@ == op.done_to(old(heap)@)
            &&& op.makes(old(heap)@, child)
        }),
{
}

/// `set_var_sync` is the operation of that name.
pub proof fn law_set_is_operation<R, V: ?Sized, H>(
    heap: &mut ContextHeap<R, V, H>,
    ctx: &TradeTaskContext,
    name: &str,
    value: R,
)
    requires
        heap@.holds(*ctx),
        call_ensures(TradeTaskContext::set_var_sync::<R, V, H>, (ctx, heap, name, value), ()),
    ensures
        ({
            let op = HeapOp::<R, V, H>::SetVar { ctx: *ctx, name: name@, value };
            &&& op.fits(old(heap)@)
            &&& final(heap)@ == op.done_to(old(heap)@)
        }),
{
}

/// `produce_context_sync` is the operation of that name.
pub proof fn law_produce_is_operation<R, V: ?Sized, H>(
    heap: &mut ContextHeap<R, V, H>,
    ctx: &TradeTaskContext,
    protocol: &'static str,
    left: Arc<V>,
)
    requires
        heap@.holds(*ctx),
        call_ensures(
            TradeTaskContext::produce_context_sync::<R, V, H>,
            (ctx, heap, protocol, left),
            (),
        ),
    ensures
        ({
            let op = HeapOp::<R, V, H>::Produce { ctx: *ctx, protocol: protocol@, left };
            &&& op.fits(old(heap)@)
            &&& final(heap)@ == op.done_to(old(heap)@)
        }),
{
}

/// `consume_context_sync` is the operation of that name, whatever `cast` gives back.
pub proof fn law_consume_is_operation<
    R,
    V: ?Sized,
    H,
    T,
    F: FnOnce(Arc<V>) -> Option<Arc<T>>,
>(
    heap: &mut ContextHeap<R, V, H>,
    ctx: &TradeTaskContext,
    protocol: &'static str,
    cast: F,
    value: Option<Arc<T>>,
)
    requires
        heap@.holds(*ctx),
        call_ensures(
            TradeTaskContext::consume_context_sync::<R, V, H, T, F>,
            (ctx, heap, protocol, cast),
            value,
        ),
    ensures
        ({
            let op = HeapOp::<R, V, H>::Consume { ctx: *ctx, protocol: protocol@ };
            &&& op.fits(old(heap)@)
            &&& final(heap)@ == op.done_to(old(heap)@)
        }),
{
}

/// `push_confirm_handle` is the operation of that name, and asks for what it asks for.
pub proof fn law_push_is_operation<R, V: ?Sized, H>(
    heap: &mut ContextHeap<R, V, H>,
    ctx: &TradeTaskContext,
    handle: H,
    action: Option<HandleAction<H>>,
)
    requires
        heap@.holds(*ctx),
        call_ensures(
            TradeTaskContext::push_confirm_handle::<R, V, H>,
            (ctx, heap, handle),
            action,
        ),
    ensures
        ({
            let op = HeapOp::<R, V, H>::Push { ctx: *ctx, handle };
            &&& op.fits(old(heap)@)
            &&& final(heap)@ == op.done_to(old(heap)@)
            &&& op.actions(old(heap)@) == match action {
                Some(asked) => seq![asked],
                None => Seq::empty(),
            }
        }),
{
}

/// `confirm_all_handles` is the operation of that name, and asks for what it asks for.
pub proof fn law_confirm_all_is_operation<R, V: ?Sized, H>(
    heap: &mut ContextHeap<R, V, H>,
    ctx: &TradeTaskContext,
    actions: Vec<HandleAction<H>>,
)
    requires
        heap@.holds(*ctx),
        call_ensures(TradeTaskContext::confirm_all_handles::<R, V, H>, (ctx, heap), actions),
    ensures
        ({
            let op = HeapOp::<R, V, H>::ConfirmAll { ctx: *ctx };
            &&& op.fits(old(heap)@)
            &&& final(heap)@ == op.done_to(old(heap)@)
            &&& op.actions(old(heap)@) == actions@
        }),
{
}

/// `cancel_all_handles` is the operation of that name, and asks for what it asks for.
pub proof fn law_cancel_all_is_operation<R, V: ?Sized, H>(
    heap: &mut ContextHeap<R, V, H>,
    ctx: &TradeTaskContext,
    actions: Vec<HandleAction<H>>,
)
    requires
        heap@.holds(*ctx),
        call_ensures(TradeTaskContext::cancel_all_handles::<R, V, H>, (ctx, heap), actions),
    ensures
        ({
            let op = HeapOp::<R, V, H>::CancelAll { ctx: *ctx };
            &&& op.fits(old(heap)@)
            &&& final(heap)@ == op.done_to(old(heap)@)
            &&& op.actions(old(heap)@) == actions@
        }),
{
}

/// `signal_done` is the signal at the place of the context's token.
pub proof fn law_signal_is_operation<R, V: ?Sized, H>(
    heap: &mut ContextHeap<R, V, H>,
    ctx: &TradeTaskContext,
)
    requires
        heap@.holds(*ctx),
        call_ensures(TradeTaskContext::signal_done::<R, V, H>, (ctx, heap), ()),
    ensures
        ({
            let op = HeapOp::<R, V, H>::Signal {
                place: ctx.cancel as int,
                after: final(heap)@.tokens,
            };
            &&& op.fits(old(heap)@)
            &&& final(heap)@ == op.done_to(old(heap)@)
        }),
{
}

} // verus!
