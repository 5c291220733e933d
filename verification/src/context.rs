//! The context that the steps of a strategy run in.
//!
//! A context is a handful of places in a heap. Contexts that have a place in common share what is
//! there: what one writes, the others read.
use crate::implicit::{first_of, value_of, without_first, ContextList};
use crate::tokens::{
    cancelled_at, is_clone_beside, is_new_among, lemma_cancelled_below, made_under, reached,
    stands_below, token_cancelled, token_line, TokenTree,
};
use crate::vars::{cloned_values, VarTable};
use std::sync::Arc;
use std::time::Instant;
use tokio_util::sync::CancellationToken;
use vstd::prelude::*;

verus! {

#[verifier::external_type_specification]
#[verifier::external_body]
pub struct ExInstant(Instant);

/// `Instant::now` of the standard library.
///
/// Trusted: nothing but that it returns. What it returns is the reading of a clock.
pub assume_specification[ Instant::now ]() -> (now: Instant);

/// What contexts have in common: the variables, values, handles, buy flags and done signals that
/// they share. They stay as long as the heap does, so that a heap is made for one strategy.
///
/// `R` is the type of a variable's value, `V` that of an implicit context, `H` that of a handle.
#[verifier::reject_recursive_types(R)]
#[verifier::reject_recursive_types(V)]
#[verifier::reject_recursive_types(H)]
pub struct ContextHeap<R, V: ?Sized, H> {
    vars: Vec<VarTable<R>>,
    contexts: Vec<ContextList<V>>,
    handles: Vec<Vec<H>>,
    confirmed: Vec<bool>,
    tokens: TokenTree,
}

/// A task's context: the places of what it shares with other contexts, and when it began.
///
/// A copy shares everything with the context that it was copied from.
#[derive(Clone, Copy)]
pub struct TradeTaskContext {
    /// The strategy's variables.
    pub vars: usize,
    /// The done signal.
    pub cancel: usize,
    /// When the strategy began.
    pub start: Instant,
    /// The implicit contexts.
    pub contexts: usize,
    /// The handles that wait for the buy to be confirmed or given up.
    pub confirm_handles: usize,
    /// Whether the buy is confirmed.
    pub buy_confirmed: usize,
}

/// A heap, as contracts speak of it.
#[verifier::ext_equal]
#[verifier::reject_recursive_types(R)]
#[verifier::reject_recursive_types(V)]
#[verifier::reject_recursive_types(H)]
pub struct HeapView<R, V: ?Sized, H> {
    pub vars: Seq<Map<Seq<char>, R>>,
    pub contexts: Seq<Seq<(Seq<char>, Arc<V>)>>,
    pub handles: Seq<Seq<H>>,
    pub confirmed: Seq<bool>,
    pub tokens: Seq<CancellationToken>,
}

impl<R, V: ?Sized, H> HeapView<R, V, H> {
    /// Nothing.
    pub open spec fn empty() -> Self {
        HeapView {
            vars: Seq::empty(),
            contexts: Seq::empty(),
            handles: Seq::empty(),
            confirmed: Seq::empty(),
            tokens: Seq::empty(),
        }
    }

    /// Whether all places of a context are in the heap.
    pub open spec fn holds(self, ctx: TradeTaskContext) -> bool {
        &&& ctx.vars < self.vars.len()
        &&& ctx.contexts < self.contexts.len()
        &&& ctx.confirm_handles < self.handles.len()
        &&& ctx.buy_confirmed < self.confirmed.len()
        &&& ctx.cancel < self.tokens.len()
    }

    /// The variables that a context sees.
    pub open spec fn vars_of(self, ctx: TradeTaskContext) -> Map<Seq<char>, R> {
        self.vars[ctx.vars as int]
    }

    /// The implicit contexts that a context sees.
    pub open spec fn contexts_of(self, ctx: TradeTaskContext) -> Seq<(Seq<char>, Arc<V>)> {
        self.contexts[ctx.contexts as int]
    }

    /// The handles that wait in a context, in the order in which they came.
    pub open spec fn handles_of(self, ctx: TradeTaskContext) -> Seq<H> {
        self.handles[ctx.confirm_handles as int]
    }

    /// Whether the buy is confirmed for a context.
    pub open spec fn confirmed_for(self, ctx: TradeTaskContext) -> bool {
        self.confirmed[ctx.buy_confirmed as int]
    }

    /// Whether a done signal reaches a context: by what is known of the heap's tokens, its own is
    /// cancelled.
    pub open spec fn done_for(self, ctx: TradeTaskContext) -> bool {
        reached(self.tokens, ctx.cancel as int)
    }

    /// The heap with other variables for a context.
    pub open spec fn with_vars(self, ctx: TradeTaskContext, vars: Map<Seq<char>, R>) -> Self {
        HeapView { vars: self.vars.update(ctx.vars as int, vars), ..self }
    }

    /// The heap with other implicit contexts for a context.
    pub open spec fn with_contexts(
        self,
        ctx: TradeTaskContext,
        contexts: Seq<(Seq<char>, Arc<V>)>,
    ) -> Self {
        HeapView { contexts: self.contexts.update(ctx.contexts as int, contexts), ..self }
    }

    /// The heap with other handles waiting in a context.
    pub open spec fn with_handles(self, ctx: TradeTaskContext, handles: Seq<H>) -> Self {
        HeapView { handles: self.handles.update(ctx.confirm_handles as int, handles), ..self }
    }

    /// The heap with the buy confirmed for a context.
    pub open spec fn with_confirmation(self, ctx: TradeTaskContext) -> Self {
        HeapView { confirmed: self.confirmed.update(ctx.buy_confirmed as int, true), ..self }
    }

    /// The heap with other tokens, which are what a done signal has made of those before.
    pub open spec fn with_tokens(self, tokens: Seq<CancellationToken>) -> Self {
        HeapView { tokens, ..self }
    }

    /// The heap with room for one more strategy: no variable, no value, and a buy not confirmed.
    pub open spec fn with_strategy(self) -> Self {
        HeapView {
            vars: self.vars.push(Map::empty()),
            contexts: self.contexts.push(Seq::empty()),
            confirmed: self.confirmed.push(false),
            ..self
        }
    }

    /// The heap with one more token.
    pub open spec fn with_token(self, token: CancellationToken) -> Self {
        HeapView { tokens: self.tokens.push(token), ..self }
    }

    /// The heap with one more task, in which no handle waits, and whose done signal is `token`.
    pub open spec fn with_task(self, token: CancellationToken) -> Self {
        HeapView { handles: self.handles.push(Seq::empty()), ..self.with_token(token) }
    }
}

/// What is to be done with handles, and with those who wait for the buy to be confirmed.
pub enum HandleAction<H> {
    /// Wake all who wait for the buy to be confirmed.
    WakeWaiters,
    /// Confirm the handle.
    Confirm(H),
    /// Cancel the handle.
    Cancel(H),
}

/// What confirming the buy asks for, where `handles` wait: those who wait for the buy are woken
/// first, then the handles confirmed in the order in which they came.
pub open spec fn confirm_actions<H>(handles: Seq<H>) -> Seq<HandleAction<H>> {
    seq![HandleAction::WakeWaiters] + handles.map_values(|h: H| HandleAction::Confirm(h))
}

/// What giving up the buy asks for, where `handles` wait: they are cancelled in the order in which
/// they came.
pub open spec fn cancel_actions<H>(handles: Seq<H>) -> Seq<HandleAction<H>> {
    handles.map_values(|h: H| HandleAction::Cancel(h))
}

/// How far a wait for the buy to be confirmed has come.
#[derive(Clone, Copy, Debug, PartialEq, Eq, Structural)]
pub enum WaitStage {
    /// The wait begins.
    Entered,
    /// The waiter is among those who will be woken.
    Registered,
    /// The waiter was woken.
    Woken,
}

/// What a waiter does next.
#[derive(Clone, Copy, Debug, PartialEq, Eq, Structural)]
pub enum WaitAction {
    /// The wait is over.
    Return,
    /// Join those who will be woken, then go on as registered.
    Register,
    /// Sleep until woken, then go on as woken.
    Sleep,
}

/// What a waiter does next, by how far it has come and whether the buy is confirmed.
pub open spec fn wait_action(stage: WaitStage, confirmed: bool) -> WaitAction {
    match stage {
        WaitStage::Entered => if confirmed {
            WaitAction::Return
        } else {
            WaitAction::Register
        },
        WaitStage::Registered => if confirmed {
            WaitAction::Return
        } else {
            WaitAction::Sleep
        },
        WaitStage::Woken => WaitAction::Return,
    }
}

impl<R, V: ?Sized, H> View for ContextHeap<R, V, H> {
    type V = HeapView<R, V, H>;

    closed spec fn view(&self) -> HeapView<R, V, H> {
        HeapView {
            vars: self.vars@.map_values(|t: VarTable<R>| t@),
            contexts: self.contexts@.map_values(|l: ContextList<V>| l@),
            handles: self.handles@.map_values(|h: Vec<H>| h@),
            confirmed: self.confirmed@,
            tokens: self.tokens@,
        }
    }
}

impl<R, V: ?Sized, H> ContextHeap<R, V, H> {
    /// Every table of variables is in order.
    pub closed spec fn wf(self) -> bool {
        forall|i: int| 0 <= i < self.vars@.len() ==> (#[trigger] self.vars@[i]).wf()
    }

    /// A heap with nothing in it.
    pub fn new() -> (heap: Self)
        ensures
            heap.wf(),
            heap@ == HeapView::<R, V, H>::empty(),
    {
        let heap = ContextHeap {
            vars: Vec::new(),
            contexts: Vec::new(),
            handles: Vec::new(),
            confirmed: Vec::new(),
            tokens: TokenTree::new(),
        };
        assert(heap@ =~= HeapView::<R, V, H>::empty());
        heap
    }

    /// Makes room for one more strategy.
    fn add_strategy(&mut self)
        requires
            old(self).wf(),
        ensures
            final(self).wf(),
            final(self)@ == old(self)@.with_strategy(),
            final(self).tokens == old(self).tokens,
    {
        self.vars.push(VarTable::new());
        self.contexts.push(ContextList::new());
        self.confirmed.push(false);
        assert(self@.vars =~= old(self)@.with_strategy().vars);
        assert(self@.contexts =~= old(self)@.with_strategy().contexts);
    }

    /// Signals the token at a place.
    pub fn signal(&mut self, token: usize)
        requires
            old(self).wf(),
            token < old(self)@.tokens.len(),
        ensures
            final(self).wf(),
            final(self)@ == old(self)@.with_tokens(final(self)@.tokens),
            cancelled_at(old(self)@.tokens, final(self)@.tokens, token as int),
    {
        self.tokens.signal(token);
    }
}

impl TradeTaskContext {
    /// Whether all places of the context are in the heap.
    pub fn lives_in<R, V: ?Sized, H>(&self, heap: &ContextHeap<R, V, H>) -> (lives: bool)
        ensures
            lives == heap@.holds(*self),
    {
        self.vars < heap.vars.len() && self.contexts < heap.contexts.len() && self.confirm_handles
            < heap.handles.len() && self.buy_confirmed < heap.confirmed.len() && self.cancel
            < heap.tokens.len()
    }

    /// A context of its own, which shares nothing with those before it.
    ///
    /// It begins now: `start` is what the clock reads.
    pub fn new<R, V: ?Sized, H>(heap: &mut ContextHeap<R, V, H>) -> (ctx: TradeTaskContext)
        requires
            old(heap).wf(),
        ensures
            final(heap).wf(),
            final(heap)@ == old(heap)@.with_strategy().with_task(final(heap)@.tokens.last()),
            final(heap)@.holds(ctx),
            ctx.is_new_in(old(heap)@),
            call_ensures(Instant::now, (), ctx.start),
            token_line(final(heap)@.tokens.last()).len() == 1,
            !token_cancelled(final(heap)@.tokens.last()),
            is_new_among(final(heap)@.tokens.last(), old(heap)@.tokens),
    {
        let ctx = TradeTaskContext {
            vars: heap.vars.len(),
            cancel: heap.tokens.len(),
            start: Instant::now(),
            contexts: heap.contexts.len(),
            confirm_handles: heap.handles.len(),
            buy_confirmed: heap.confirmed.len(),
        };
        heap.add_strategy();
        heap.handles.push(Vec::new());
        heap.tokens.add_root();
        assert(heap@.handles =~= old(heap)@.handles.push(Seq::empty()));
        ctx
    }

    /// Whether the context has places of its own, the next free ones of a heap.
    pub open spec fn is_new_in<R, V: ?Sized, H>(self, heap: HeapView<R, V, H>) -> bool {
        &&& self.vars == heap.vars.len()
        &&& self.contexts == heap.contexts.len()
        &&& self.confirm_handles == heap.handles.len()
        &&& self.buy_confirmed == heap.confirmed.len()
        &&& self.cancel == heap.tokens.len()
    }

    /// Whether the context is one for a background task of `parent`, with the next free places of a
    /// heap for its done signal and its handles.
    pub open spec fn is_child_in<R, V: ?Sized, H>(
        self,
        heap: HeapView<R, V, H>,
        parent: TradeTaskContext,
    ) -> bool {
        &&& self.vars == parent.vars
        &&& self.contexts == parent.contexts
        &&& self.buy_confirmed == parent.buy_confirmed
        &&& self.start == parent.start
        &&& self.confirm_handles == heap.handles.len()
        &&& self.cancel == heap.tokens.len()
    }

    /// A context of its own, whose done signal stands under the token `parent`: when `parent` is
    /// cancelled, so is the context. `signal_done` leaves `parent` alone.
    ///
    /// The heap keeps `parent` as well, one place before the token of the context.
    /// `start` is what the clock reads.
    pub fn with_parent_cancel<R, V: ?Sized, H>(
        heap: &mut ContextHeap<R, V, H>,
        parent: &CancellationToken,
    ) -> (ctx: TradeTaskContext)
        requires
            old(heap).wf(),
        ensures
            final(heap).wf(),
            final(heap)@ == old(heap)@.with_token(
                final(heap)@.tokens[old(heap)@.tokens.len() as int],
            ).with_strategy().with_task(final(heap)@.tokens.last()),
            final(heap)@.holds(ctx),
            ctx.is_new_in(old(heap)@.with_token(*parent)),
            call_ensures(Instant::now, (), ctx.start),
            is_clone_beside(
                final(heap)@.tokens[old(heap)@.tokens.len() as int],
                *parent,
                old(heap)@.tokens,
            ),
            made_under(
                final(heap)@.tokens.last(),
                token_line(*parent),
                final(heap)@.tokens.drop_last(),
            ),
    {
        let under = heap.tokens.adopt(parent);
        let ghost kept = heap@.tokens;
        let ctx = TradeTaskContext {
            vars: heap.vars.len(),
            cancel: heap.tokens.len(),
            start: Instant::now(),
            contexts: heap.contexts.len(),
            confirm_handles: heap.handles.len(),
            buy_confirmed: heap.confirmed.len(),
        };
        heap.add_strategy();
        heap.handles.push(Vec::new());
        heap.tokens.add_child(under);
        assert(heap@.handles =~= old(heap)@.handles.push(Seq::empty()));
        assert(heap@.tokens.drop_last() =~= kept);
        ctx
    }

    /// A context for a background task of `parent`.
    ///
    /// It shares the variables, the implicit contexts and the buy flag. Its done signal stands under
    /// that of `parent`: a signal there reaches it, its own does not reach `parent`. It has handles
    /// of its own, since a background task takes no part in confirming the buy.
    pub fn spawn_child<R, V: ?Sized, H>(
        heap: &mut ContextHeap<R, V, H>,
        parent: &TradeTaskContext,
    ) -> (ctx: TradeTaskContext)
        requires
            old(heap).wf(),
            old(heap)@.holds(*parent),
        ensures
            final(heap).wf(),
            final(heap)@ == old(heap)@.with_task(final(heap)@.tokens.last()),
            final(heap)@.holds(ctx),
            ctx.is_child_in(old(heap)@, *parent),
            made_under(
                final(heap)@.tokens.last(),
                token_line(old(heap)@.tokens[parent.cancel as int]),
                old(heap)@.tokens,
            ),
    {
        let ctx = TradeTaskContext {
            vars: parent.vars,
            cancel: heap.tokens.len(),
            start: parent.start,
            contexts: parent.contexts,
            confirm_handles: heap.handles.len(),
            buy_confirmed: parent.buy_confirmed,
        };
        heap.handles.push(Vec::new());
        heap.tokens.add_child(parent.cancel);
        assert(heap@.handles =~= old(heap)@.handles.push(Seq::empty()));
        ctx
    }

    /// The value of a variable.
    pub fn get_var_sync<R: Clone, V: ?Sized, H>(
        &self,
        heap: &ContextHeap<R, V, H>,
        name: &str,
    ) -> (value: Option<R>)
        requires
            heap.wf(),
            heap@.holds(*self),
        ensures
            match value {
                Some(v) => heap@.vars_of(*self).contains_key(name@) && cloned(
                    heap@.vars_of(*self)[name@],
                    v,
                ),
                None => !heap@.vars_of(*self).contains_key(name@),
            },
    {
        assert(heap@.vars_of(*self) == heap.vars@[self.vars as int]@);
        match heap.vars[self.vars].get(name) {
            Some(value) => Some(value.clone()),
            None => None,
        }
    }

    /// Gives a variable a value.
    pub fn set_var_sync<R, V: ?Sized, H>(
        &self,
        heap: &mut ContextHeap<R, V, H>,
        name: &str,
        value: R,
    )
        requires
            old(heap).wf(),
            old(heap)@.holds(*self),
        ensures
            final(heap).wf(),
            final(heap)@ == old(heap)@.with_vars(
                *self,
                old(heap)@.vars_of(*self).insert(name@, value),
            ),
    {
        heap.vars[self.vars].set(name, value);
        assert(heap@.vars =~= old(heap)@.with_vars(
            *self,
            old(heap)@.vars_of(*self).insert(name@, value),
        ).vars);
    }

    /// A copy of all variables as they are now.
    pub fn snapshot_vars_sync<R: Clone, V: ?Sized, H>(
        &self,
        heap: &ContextHeap<R, V, H>,
    ) -> (copy: VarTable<R>)
        requires
            heap.wf(),
            heap@.holds(*self),
        ensures
            copy.wf(),
            cloned_values(heap@.vars_of(*self), copy@),
    {
        assert(heap@.vars_of(*self) == heap.vars@[self.vars as int]@);
        heap.vars[self.vars].snapshot()
    }

    /// Leaves a value for later steps.
    pub fn produce_context_sync<R, V: ?Sized, H>(
        &self,
        heap: &mut ContextHeap<R, V, H>,
        protocol: &'static str,
        value: Arc<V>,
    )
        requires
            old(heap).wf(),
            old(heap)@.holds(*self),
        ensures
            final(heap).wf(),
            final(heap)@ == old(heap)@.with_contexts(
                *self,
                old(heap)@.contexts_of(*self).push((protocol@, value)),
            ),
    {
        heap.contexts[self.contexts].produce(protocol, value);
        assert(heap@.contexts =~= old(heap)@.with_contexts(
            *self,
            old(heap)@.contexts_of(*self).push((protocol@, value)),
        ).contexts);
    }

    /// The first value of a protocol, as `cast` gives it back: a value of another type than the one
    /// that is asked for is not given back.
    pub fn get_context_sync<R, V: ?Sized, H, T, F: FnOnce(Arc<V>) -> Option<Arc<T>>>(
        &self,
        heap: &ContextHeap<R, V, H>,
        protocol: &'static str,
        cast: F,
    ) -> (value: Option<Arc<T>>)
        requires
            heap@.holds(*self),
            value_of(heap@.contexts_of(*self), protocol@) matches Some(v) ==> call_requires(
                cast,
                (v,),
            ),
        ensures
            match value_of(heap@.contexts_of(*self), protocol@) {
                Some(v) => call_ensures(cast, (v,), value),
                None => value is None,
            },
    {
        assert(heap@.contexts_of(*self) == heap.contexts@[self.contexts as int]@);
        match heap.contexts[self.contexts].get(protocol) {
            Some(v) => cast(v),
            None => None,
        }
    }

    /// Takes out the first value of a protocol and gives it back as `cast` does. The value is gone
    /// also where `cast` does not give it back.
    pub fn consume_context_sync<R, V: ?Sized, H, T, F: FnOnce(Arc<V>) -> Option<Arc<T>>>(
        &self,
        heap: &mut ContextHeap<R, V, H>,
        protocol: &'static str,
        cast: F,
    ) -> (value: Option<Arc<T>>)
        requires
            old(heap).wf(),
            old(heap)@.holds(*self),
            value_of(old(heap)@.contexts_of(*self), protocol@) matches Some(v) ==> call_requires(
                cast,
                (v,),
            ),
        ensures
            final(heap).wf(),
            final(heap)@ == old(heap)@.with_contexts(
                *self,
                without_first(old(heap)@.contexts_of(*self), protocol@),
            ),
            match value_of(old(heap)@.contexts_of(*self), protocol@) {
                Some(v) => call_ensures(cast, (v,), value),
                None => value is None,
            },
    {
        assert(heap@.contexts_of(*self) == heap.contexts@[self.contexts as int]@);
        let found = heap.contexts[self.contexts].consume(protocol);
        assert(heap@.contexts =~= old(heap)@.with_contexts(
            *self,
            without_first(old(heap)@.contexts_of(*self), protocol@),
        ).contexts);
        match found {
            Some(v) => cast(v),
            None => None,
        }
    }

    /// Whether there is a value of a protocol.
    pub fn has_context_sync<R, V: ?Sized, H>(
        &self,
        heap: &ContextHeap<R, V, H>,
        protocol: &'static str,
    ) -> (has: bool)
        requires
            heap@.holds(*self),
        ensures
            has == (first_of(heap@.contexts_of(*self), protocol@) is Some),
    {
        assert(heap@.contexts_of(*self) == heap.contexts@[self.contexts as int]@);
        heap.contexts[self.contexts].has(protocol)
    }

    /// Takes in a handle. It waits until the buy is confirmed or given up; where the buy is
    /// confirmed already, it is to be confirmed at once.
    pub fn push_confirm_handle<R, V: ?Sized, H>(
        &self,
        heap: &mut ContextHeap<R, V, H>,
        handle: H,
    ) -> (action: Option<HandleAction<H>>)
        requires
            old(heap).wf(),
            old(heap)@.holds(*self),
        ensures
            final(heap).wf(),
            old(heap)@.confirmed_for(*self) ==> action == Some(HandleAction::Confirm(handle))
                && final(heap)@ == old(heap)@,
            !old(heap)@.confirmed_for(*self) ==> action is None && final(heap)@
                == old(heap)@.with_handles(*self, old(heap)@.handles_of(*self).push(handle)),
    {
        if heap.confirmed[self.buy_confirmed] {
            Some(HandleAction::Confirm(handle))
        } else {
            heap.handles[self.confirm_handles].push(handle);
            assert(heap@.handles =~= old(heap)@.with_handles(
                *self,
                old(heap)@.handles_of(*self).push(handle),
            ).handles);
            None
        }
    }

    /// Takes all waiting handles out of a context.
    fn take_handles<R, V: ?Sized, H>(&self, heap: &mut ContextHeap<R, V, H>) -> (handles: Vec<H>)
        requires
            old(heap).wf(),
            old(heap)@.holds(*self),
        ensures
            final(heap).wf(),
            final(heap)@ == old(heap)@.with_handles(*self, Seq::empty()),
            handles@ == old(heap)@.handles_of(*self),
    {
        let mut handles: Vec<H> = Vec::new();
        std::mem::swap(&mut handles, &mut heap.handles[self.confirm_handles]);
        assert(heap@.handles =~= old(heap)@.with_handles(*self, Seq::empty()).handles);
        handles
    }

    /// Confirms the buy. Those who wait for it are to be woken, then all waiting handles confirmed
    /// in the order in which they came.
    pub fn confirm_all_handles<R, V: ?Sized, H>(
        &self,
        heap: &mut ContextHeap<R, V, H>,
    ) -> (actions: Vec<HandleAction<H>>)
        requires
            old(heap).wf(),
            old(heap)@.holds(*self),
        ensures
            final(heap).wf(),
            final(heap)@ == old(heap)@.with_confirmation(*self).with_handles(*self, Seq::empty()),
            actions@ == confirm_actions(old(heap)@.handles_of(*self)),
    {
        heap.confirmed.set(self.buy_confirmed, true);
        let handles = self.take_handles(heap);
        let mut actions: Vec<HandleAction<H>> = Vec::new();
        actions.push(HandleAction::WakeWaiters);
        for handle in it: handles
            invariant
                actions@ =~= confirm_actions(it.seq().take(it.index() as int)),
        {
            actions.push(HandleAction::Confirm(handle));
        }
        actions
    }

    /// Gives up the buy. All waiting handles are to be cancelled in the order in which they came.
    pub fn cancel_all_handles<R, V: ?Sized, H>(
        &self,
        heap: &mut ContextHeap<R, V, H>,
    ) -> (actions: Vec<HandleAction<H>>)
        requires
            old(heap).wf(),
            old(heap)@.holds(*self),
        ensures
            final(heap).wf(),
            final(heap)@ == old(heap)@.with_handles(*self, Seq::empty()),
            actions@ == cancel_actions(old(heap)@.handles_of(*self)),
    {
        let handles = self.take_handles(heap);
        let mut actions: Vec<HandleAction<H>> = Vec::new();
        for handle in it: handles
            invariant
                actions@ =~= cancel_actions(it.seq().take(it.index() as int)),
        {
            actions.push(HandleAction::Cancel(handle));
        }
        actions
    }

    /// Signals that the strategy is done.
    pub fn signal_done<R, V: ?Sized, H>(&self, heap: &mut ContextHeap<R, V, H>)
        requires
            old(heap).wf(),
            old(heap)@.holds(*self),
        ensures
            final(heap).wf(),
            final(heap)@ == old(heap)@.with_tokens(final(heap)@.tokens),
            cancelled_at(old(heap)@.tokens, final(heap)@.tokens, self.cancel as int),
    {
        heap.signal(self.cancel);
    }

    /// Whether the strategy is done, which is what its token answers: that it is, where a signal
    /// reaches the context. It may also be because another holder cancelled the token.
    pub fn is_done<R, V: ?Sized, H>(&self, heap: &ContextHeap<R, V, H>) -> (done: bool)
        requires
            heap.wf(),
            heap@.holds(*self),
        ensures
            call_ensures(
                CancellationToken::is_cancelled,
                (&heap@.tokens[self.cancel as int],),
                done,
            ),
            heap@.done_for(*self) ==> done,
    {
        heap.tokens.observe(self.cancel)
    }

    /// Whether the strategy is done, asked by one who holds a token that may stand above that of the
    /// context: it is, where that token is known to be cancelled.
    pub fn is_done_below<R, V: ?Sized, H>(
        &self,
        heap: &ContextHeap<R, V, H>,
        upper: &CancellationToken,
    ) -> (done: bool)
        requires
            heap.wf(),
            heap@.holds(*self),
        ensures
            call_ensures(
                CancellationToken::is_cancelled,
                (&heap@.tokens[self.cancel as int],),
                done,
            ),
            heap@.done_for(*self) ==> done,
            token_cancelled(*upper) && stands_below(
                token_line(heap@.tokens[self.cancel as int]),
                token_line(*upper),
            ) ==> done,
    {
        heap.tokens.observe_below(self.cancel, upper)
    }

    /// Whether a token that was handed out is cancelled: it is, where it stands below that of the
    /// context and the strategy is done.
    pub fn finds_cancelled<R, V: ?Sized, H>(
        &self,
        heap: &ContextHeap<R, V, H>,
        token: &CancellationToken,
    ) -> (cancelled: bool)
        requires
            heap.wf(),
            heap@.holds(*self),
        ensures
            call_ensures(CancellationToken::is_cancelled, (token,), cancelled),
            heap@.done_for(*self) && stands_below(
                token_line(*token),
                token_line(heap@.tokens[self.cancel as int]),
            ) ==> cancelled,
    {
        proof {
            let own = token_line(heap@.tokens[self.cancel as int]);
            if heap@.done_for(*self) && stands_below(token_line(*token), own) {
                lemma_cancelled_below(heap@.tokens, token_line(*token), own);
            }
        }
        heap.tokens.observe_other(token)
    }

    /// The token of the done signal, for those who wait for it.
    pub fn done_token<R, V: ?Sized, H>(&self, heap: &ContextHeap<R, V, H>) -> (token:
        CancellationToken)
        requires
            heap.wf(),
            heap@.holds(*self),
        ensures
            token_line(token) == token_line(heap@.tokens[self.cancel as int]),
            token_cancelled(token) == heap@.done_for(*self),
    {
        heap.tokens.token(self.cancel)
    }

    /// A new token that stands under the done signal.
    pub fn child_token<R, V: ?Sized, H>(&self, heap: &ContextHeap<R, V, H>) -> (token:
        CancellationToken)
        requires
            heap.wf(),
            heap@.holds(*self),
        ensures
            made_under(token, token_line(heap@.tokens[self.cancel as int]), heap@.tokens),
            token_cancelled(token) == heap@.done_for(*self),
    {
        heap.tokens.child_token(self.cancel)
    }

    /// Whether the buy is confirmed.
    pub fn is_buy_confirmed<R, V: ?Sized, H>(&self, heap: &ContextHeap<R, V, H>) -> (confirmed:
        bool)
        requires
            heap@.holds(*self),
        ensures
            confirmed == heap@.confirmed_for(*self),
    {
        heap.confirmed[self.buy_confirmed]
    }

    /// What one who waits for the buy to be confirmed does next.
    ///
    /// The flag is looked at once more after the waiter has joined those who will be woken: a
    /// confirmation in between wakes nobody.
    pub fn wait_buy_confirmed<R, V: ?Sized, H>(
        &self,
        heap: &ContextHeap<R, V, H>,
        stage: WaitStage,
    ) -> (action: WaitAction)
        requires
            heap@.holds(*self),
        ensures
            action == wait_action(stage, heap@.confirmed_for(*self)),
    {
        match stage {
            WaitStage::Entered => if self.is_buy_confirmed(heap) {
                WaitAction::Return
            } else {
                WaitAction::Register
            },
            WaitStage::Registered => if self.is_buy_confirmed(heap) {
                WaitAction::Return
            } else {
                WaitAction::Sleep
            },
            WaitStage::Woken => WaitAction::Return,
        }
    }
}

} // verus!
