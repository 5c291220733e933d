//! Done signals: cancellation tokens of the `tokio-util` crate, and which of them stands under
//! which.
use tokio_util::sync::CancellationToken;
use vstd::prelude::*;

verus! {

#[verifier::external_type_specification]
#[verifier::external_body]
pub struct ExCancellationToken(CancellationToken);

/// The line of tokens that a token was made in: one number for each token, from the one that stands
/// under none down to the token itself. No two tokens have the same number; a clone is the same
/// token.
pub uninterp spec fn token_line(token: CancellationToken) -> Seq<int>;

/// Whether a token is known to be cancelled: its holder cancelled it or one that it stands under, or
/// got it when one of those was known to be cancelled.
///
/// A cancelled token stays cancelled, so this holds for good. Where it does not hold, the token may
/// be cancelled all the same, by another holder.
pub uninterp spec fn token_cancelled(token: CancellationToken) -> bool;

/// Whether the token of the line `low` is that of the line `high`, or stands under it, directly or
/// not.
pub open spec fn stands_below(low: Seq<int>, high: Seq<int>) -> bool {
    high.len() <= low.len() && low.take(high.len() as int) == high
}

/// Whether the token of the line `child` was made as a child of the one of the line `parent`.
pub open spec fn stands_under(child: Seq<int>, parent: Seq<int>) -> bool {
    child.len() == parent.len() + 1 && child.drop_last() == parent
}

/// Whether, by what is known of `tokens`, the token of a line is cancelled: it is one of them that
/// is, or stands below one.
pub open spec fn cancelled_above(tokens: Seq<CancellationToken>, line: Seq<int>) -> bool {
    exists|j: int|
        0 <= j < tokens.len() && token_cancelled(#[trigger] tokens[j]) && stands_below(
            line,
            token_line(tokens[j]),
        )
}

/// Whether none of `tokens` is `token` or stands below it.
pub open spec fn is_new_among(token: CancellationToken, tokens: Seq<CancellationToken>) -> bool {
    forall|i: int|
        0 <= i < tokens.len() ==> !stands_below(token_line(#[trigger] tokens[i]), token_line(token))
}

/// Whether `child` was made, beside `tokens`, as a child of the token of the line `parent`: it is a
/// new token, cancelled from the start where `parent` is.
pub open spec fn made_under(
    child: CancellationToken,
    parent: Seq<int>,
    tokens: Seq<CancellationToken>,
) -> bool {
    &&& stands_under(token_line(child), parent)
    &&& token_cancelled(child) == cancelled_above(tokens, parent)
    &&& is_new_among(child, tokens)
}

/// Whether `other` is the same token as `token`, in the hands of one who knows `tokens` too.
pub open spec fn is_clone_beside(
    other: CancellationToken,
    token: CancellationToken,
    tokens: Seq<CancellationToken>,
) -> bool {
    &&& token_line(other) == token_line(token)
    &&& token_cancelled(other) == (token_cancelled(token) || cancelled_above(
        tokens,
        token_line(token),
    ))
}

/// `CancellationToken::new`, beside `others`.
///
/// Trusted: the token stands under no other and is not cancelled. It is a new one: none of `others`
/// is it or stands below it.
#[verifier::external_body]
fn new_token(others: &Vec<CancellationToken>) -> (token: CancellationToken)
    ensures
        token_line(token).len() == 1,
        !token_cancelled(token),
        is_new_among(token, others@),
{
    CancellationToken::new()
}

/// `CancellationToken::child_token` of the token at `parent`, beside `tokens`.
///
/// Trusted: the child stands under that token, and is cancelled from the start where that token is,
/// as it is where one of `tokens` that it stands below is known to be. It is a new one: none of
/// `tokens` is it or stands below it.
#[verifier::external_body]
fn new_child(tokens: &Vec<CancellationToken>, parent: usize) -> (child: CancellationToken)
    requires
        parent < tokens@.len(),
    ensures
        made_under(child, token_line(tokens@[parent as int]), tokens@),
{
    tokens[parent].child_token()
}

/// `CancellationToken::clone`, beside `tokens`.
///
/// Trusted: the clone is the same token, in the hands of another holder. So it is known to be
/// cancelled where `token` is, or one of `tokens` that it stands below.
#[verifier::external_body]
fn clone_beside(token: &CancellationToken, tokens: &Vec<CancellationToken>) -> (other:
    CancellationToken)
    ensures
        is_clone_beside(other, *token, tokens@),
{
    token.clone()
}

/// `CancellationToken::is_cancelled`, which the contracts of those who ask a token speak of.
///
/// Trusted: a token that is known to be cancelled is found cancelled. Nothing is said of another:
/// other holders may have cancelled it, at any time.
pub assume_specification[ CancellationToken::is_cancelled ](token: &CancellationToken) -> (answer:
    bool)
    ensures
        token_cancelled(*token) ==> answer,
;

/// `CancellationToken::is_cancelled` of `token`, beside `tokens` and `upper`, which may stand above
/// it.
///
/// Trusted: what comes back is what the token answers, and a token is found cancelled once one that
/// it stands below is known to be. Nothing is said of a token above that was only found cancelled:
/// while another holder's call of `cancel` is under way, a token can be found cancelled before those
/// below it are.
#[verifier::external_body]
fn is_cancelled_below(
    token: &CancellationToken,
    tokens: &Vec<CancellationToken>,
    upper: &CancellationToken,
) -> (answer: bool)
    ensures
        call_ensures(CancellationToken::is_cancelled, (token,), answer),
        cancelled_above(tokens@.push(*upper), token_line(*token)) ==> answer,
{
    token.is_cancelled()
}

/// `CancellationToken::cancel` of the token at `place`.
///
/// Trusted: once it returns, as its documentation promises, the token and those that stand below it
/// are cancelled, and no others of `tokens`. All are still the same tokens. Left out is the moment in
/// which another holder's `cancel` of a token above is under way: the call then returns at once, and
/// those below are cancelled when the other call gets to them.
#[verifier::external_body]
fn cancel_token(tokens: &mut Vec<CancellationToken>, place: usize)
    requires
        place < old(tokens)@.len(),
    ensures
        cancelled_at(old(tokens)@, final(tokens)@, place as int),
{
    tokens[place].cancel();
}

/// Whether `after` are the tokens `before` once the one at `place` is cancelled: it and those below
/// it are cancelled, and the others are as they were.
pub open spec fn cancelled_at(
    before: Seq<CancellationToken>,
    after: Seq<CancellationToken>,
    place: int,
) -> bool {
    &&& after.len() == before.len()
    &&& forall|i: int|
        0 <= i < after.len() ==> {
            let below = stands_below(token_line(before[i]), token_line(before[place]));
            &&& token_line(#[trigger] after[i]) == token_line(before[i])
            &&& token_cancelled(after[i]) == (token_cancelled(before[i]) || below)
            &&& !below ==> after[i] == before[i]
        }
}

/// Whether a signal reaches the token at place `i`: by what is known of the tokens, it is cancelled.
pub open spec fn reached(tokens: Seq<CancellationToken>, i: int) -> bool {
    cancelled_above(tokens, token_line(tokens[i]))
}

/// What stands below a token that stands below another stands below that one.
pub proof fn lemma_below_below(low: Seq<int>, mid: Seq<int>, high: Seq<int>)
    requires
        stands_below(low, mid),
        stands_below(mid, high),
    ensures
        stands_below(low, high),
{
    assert(low.take(mid.len() as int).take(high.len() as int) =~= low.take(high.len() as int));
}

/// A child stands below the token that it was made from, and a token below itself.
pub proof fn lemma_child_below(child: Seq<int>, parent: Seq<int>)
    requires
        stands_under(child, parent),
    ensures
        stands_below(child, parent),
        stands_below(child, child),
{
    assert(child.take(parent.len() as int) =~= child.drop_last());
    assert(child.take(child.len() as int) =~= child);
}

/// What is cancelled above a token is cancelled above those below it.
pub proof fn lemma_cancelled_below(tokens: Seq<CancellationToken>, low: Seq<int>, high: Seq<int>)
    requires
        stands_below(low, high),
        cancelled_above(tokens, high),
    ensures
        cancelled_above(tokens, low),
{
    let j = choose|j: int|
        0 <= j < tokens.len() && token_cancelled(#[trigger] tokens[j]) && stands_below(
            high,
            token_line(tokens[j]),
        );
    lemma_below_below(low, high, token_line(tokens[j]));
}

/// A signal reaches the token that it is raised at and those that stand below it, and no others, each
/// by whatever handle it is kept; whom a signal reached before, it still reaches.
pub proof fn law_signal_reaches_below(
    before: Seq<CancellationToken>,
    after: Seq<CancellationToken>,
    at: int,
    i: int,
)
    requires
        0 <= at < before.len(),
        0 <= i < before.len(),
        cancelled_at(before, after, at),
    ensures
        reached(after, i) == (reached(before, i) || stands_below(
            token_line(before[i]),
            token_line(before[at]),
        )),
{
    let line = token_line(before[i]);
    let high = token_line(before[at]);
    assert(token_line(after[i]) == line);
    assert(high.take(high.len() as int) =~= high);
    assert(token_line(after[at]) == high && token_cancelled(after[at]));
    if reached(before, i) {
        let j = choose|j: int|
            0 <= j < before.len() && token_cancelled(#[trigger] before[j]) && stands_below(
                line,
                token_line(before[j]),
            );
        assert(token_cancelled(after[j]) && token_line(after[j]) == token_line(before[j]));
    }
    if reached(after, i) {
        let j = choose|j: int|
            0 <= j < after.len() && token_cancelled(#[trigger] after[j]) && stands_below(
                line,
                token_line(after[j]),
            );
        assert(token_line(after[j]) == token_line(before[j]));
        if !token_cancelled(before[j]) {
            lemma_below_below(line, token_line(before[j]), high);
        }
    }
}

/// A signal raised again at the same token changes nothing: it reaches no one anew, and no token is
/// cancelled that was not before.
pub proof fn law_second_signal(
    before: Seq<CancellationToken>,
    once: Seq<CancellationToken>,
    twice: Seq<CancellationToken>,
    at: int,
    i: int,
)
    requires
        0 <= at < before.len(),
        0 <= i < before.len(),
        cancelled_at(before, once, at),
        cancelled_at(once, twice, at),
    ensures
        reached(twice, i) == reached(once, i),
        token_line(twice[i]) == token_line(once[i]),
        token_cancelled(twice[i]) == token_cancelled(once[i]),
{
    law_signal_reaches_below(before, once, at, i);
    law_signal_reaches_below(once, twice, at, i);
    assert(token_line(once[at]) == token_line(before[at]));
    assert(token_line(once[i]) == token_line(before[i]));
    assert(token_line(twice[i]) == token_line(once[i]));
}

/// One more token changes nothing for the others, but where it is known to be cancelled: then those
/// below it are reached.
pub proof fn law_more_tokens(tokens: Seq<CancellationToken>, more: CancellationToken, i: int)
    requires
        0 <= i < tokens.len(),
    ensures
        reached(tokens.push(more), i) == (reached(tokens, i) || (token_cancelled(more)
            && stands_below(token_line(tokens[i]), token_line(more)))),
{
    let line = token_line(tokens[i]);
    let all = tokens.push(more);
    assert(all[i] == tokens[i]);
    if reached(tokens, i) {
        let j = choose|j: int|
            0 <= j < tokens.len() && token_cancelled(#[trigger] tokens[j]) && stands_below(
                line,
                token_line(tokens[j]),
            );
        assert(all[j] == tokens[j]);
    }
    assert(all[tokens.len() as int] == more);
    if reached(all, i) {
        let j = choose|j: int|
            0 <= j < all.len() && token_cancelled(#[trigger] all[j]) && stands_below(
                line,
                token_line(all[j]),
            );
        if j < tokens.len() {
            assert(all[j] == tokens[j]);
        }
    }
}

/// A signal reaches a new child exactly where it reaches the token that the child was made from.
pub proof fn law_new_child_reached(
    tokens: Seq<CancellationToken>,
    child: CancellationToken,
    parent: int,
)
    requires
        0 <= parent < tokens.len(),
        made_under(child, token_line(tokens[parent]), tokens),
    ensures
        reached(tokens.push(child), tokens.len() as int) == reached(tokens, parent),
        reached(tokens.push(child), parent) == reached(tokens, parent),
{
    let all = tokens.push(child);
    let (c, p) = (token_line(child), token_line(tokens[parent]));
    law_more_tokens(tokens, child, parent);
    lemma_child_below(c, p);
    assert(all[tokens.len() as int] == child);
    if reached(tokens, parent) {
        assert(token_cancelled(all[tokens.len() as int]));
    }
    if reached(all, tokens.len() as int) && !token_cancelled(child) {
        let j = choose|j: int|
            0 <= j < all.len() && token_cancelled(#[trigger] all[j]) && stands_below(
                c,
                token_line(all[j]),
            );
        let high = token_line(all[j]);
        assert(all[j] == tokens[j]);
        if high.len() == c.len() {
            assert(c.take(c.len() as int) =~= c);
            assert(stands_below(token_line(tokens[j]), c));
        } else {
            assert(p.take(high.len() as int) =~= c.take(high.len() as int));
        }
    }
}

/// Tokens, each kept at a place.
///
/// What stands under what is known to the tokens themselves.
pub struct TokenTree {
    tokens: Vec<CancellationToken>,
}

impl View for TokenTree {
    type V = Seq<CancellationToken>;

    closed spec fn view(&self) -> Seq<CancellationToken> {
        self.tokens@
    }
}

impl TokenTree {
    /// No tokens.
    pub fn new() -> (tree: TokenTree)
        ensures
            tree@ == Seq::<CancellationToken>::empty(),
    {
        TokenTree { tokens: Vec::new() }
    }

    /// How many tokens there are.
    pub fn len(&self) -> (n: usize)
        ensures
            n == self@.len(),
    {
        self.tokens.len()
    }

    /// Adds a new token that stands under no other, and returns its place.
    pub fn add_root(&mut self) -> (place: usize)
        ensures
            place == old(self)@.len(),
            final(self)@ == old(self)@.push(final(self)@.last()),
            token_line(final(self)@.last()).len() == 1,
            !token_cancelled(final(self)@.last()),
            is_new_among(final(self)@.last(), old(self)@),
    {
        let place: usize = self.tokens.len();
        let token = new_token(&self.tokens);
        self.tokens.push(token);
        place
    }

    /// Adds a token that another holder has too, and returns its place.
    pub fn adopt(&mut self, token: &CancellationToken) -> (place: usize)
        ensures
            place == old(self)@.len(),
            final(self)@ == old(self)@.push(final(self)@.last()),
            is_clone_beside(final(self)@.last(), *token, old(self)@),
    {
        let place: usize = self.tokens.len();
        let other = clone_beside(token, &self.tokens);
        self.tokens.push(other);
        place
    }

    /// Adds a new child of the token at `parent`, and returns its place.
    pub fn add_child(&mut self, parent: usize) -> (place: usize)
        requires
            parent < old(self)@.len(),
        ensures
            place == old(self)@.len(),
            final(self)@ == old(self)@.push(final(self)@.last()),
            made_under(
                final(self)@.last(),
                token_line(old(self)@[parent as int]),
                old(self)@,
            ),
    {
        let place: usize = self.tokens.len();
        let token = new_child(&self.tokens, parent);
        self.tokens.push(token);
        place
    }

    /// A new child of the token at `parent`, for use elsewhere: the tree does not keep it.
    pub fn child_token(&self, parent: usize) -> (token: CancellationToken)
        requires
            parent < self@.len(),
        ensures
            made_under(token, token_line(self@[parent as int]), self@),
    {
        new_child(&self.tokens, parent)
    }

    /// The token at a place, to be handed to those who wait for it.
    pub fn token(&self, place: usize) -> (token: CancellationToken)
        requires
            place < self@.len(),
        ensures
            token_line(token) == token_line(self@[place as int]),
            token_cancelled(token) == reached(self@, place as int),
    {
        proof {
            let line = token_line(self@[place as int]);
            assert(line.take(line.len() as int) =~= line);
        }
        clone_beside(&self.tokens[place], &self.tokens)
    }

    /// Signals the token at a place, which cancels it and those below it.
    pub fn signal(&mut self, place: usize)
        requires
            place < old(self)@.len(),
        ensures
            cancelled_at(old(self)@, final(self)@, place as int),
    {
        cancel_token(&mut self.tokens, place);
    }

    /// What the token at a place answers when it is asked whether it is cancelled.
    pub fn observe(&self, place: usize) -> (cancelled: bool)
        requires
            place < self@.len(),
        ensures
            call_ensures(CancellationToken::is_cancelled, (&self@[place as int],), cancelled),
            reached(self@, place as int) ==> cancelled,
    {
        self.observe_below(place, &self.tokens[place])
    }

    /// What the token at a place answers, asked by one who holds a token that may stand above it.
    pub fn observe_below(&self, place: usize, upper: &CancellationToken) -> (cancelled: bool)
        requires
            place < self@.len(),
        ensures
            call_ensures(CancellationToken::is_cancelled, (&self@[place as int],), cancelled),
            reached(self@, place as int) ==> cancelled,
            token_cancelled(*upper) && stands_below(
                token_line(self@[place as int]),
                token_line(*upper),
            ) ==> cancelled,
    {
        proof {
            law_more_tokens(self@, *upper, place as int);
        }
        is_cancelled_below(&self.tokens[place], &self.tokens, upper)
    }

    /// What a token answers that may stand below one of those in the tree.
    pub fn observe_other(&self, token: &CancellationToken) -> (cancelled: bool)
        ensures
            call_ensures(CancellationToken::is_cancelled, (token,), cancelled),
            token_cancelled(*token) || cancelled_above(self@, token_line(*token)) ==> cancelled,
    {
        proof {
            let line = token_line(*token);
            let all = self@.push(*token);
            assert(line.take(line.len() as int) =~= line);
            assert(all.last() == *token);
            if cancelled_above(self@, line) {
                let j = choose|j: int|
                    0 <= j < self@.len() && token_cancelled(#[trigger] self@[j]) && stands_below(
                        line,
                        token_line(self@[j]),
                    );
                assert(all[j] == self@[j]);
            }
        }
        is_cancelled_below(token, &self.tokens, token)
    }
}

} // verus!
