//! Holding a runtime registry against a symbol table.
use crate::handlers::{is_walk, HandlerTable};
use crate::registry::{DataItemHandler, ExecutorHandler, RegistryView, RuntimeRegistry};
use crate::report::{
    handler_error, handler_errors, missing_errors, missing_message, show_option, write_mismatch,
    write_missing, write_undefined, Declaration,
};
use crate::symbols::{
    lemma_symbol_named, symbol_named, symbols_in, type_text, SymbolCategory, SymbolMetadata,
    SymbolRegistry, SymbolView, TypeSpec,
};
use crate::text::{lemma_texts_push, texts};
use vstd::multiset::Multiset;
use vstd::prelude::*;
use vstd::seq_lib::lemma_multiset_commutative;

verus! {

/// What the handlers answered when they were asked for their return types.
pub struct Answers {
    pub data_items: Map<Seq<char>, Seq<char>>,
    pub executors: Map<Seq<char>, Option<Seq<char>>>,
}

impl Answers {
    /// What the handler of a category and name declares.
    pub open spec fn declared(self, category: SymbolCategory) -> spec_fn(Seq<char>) -> Declaration {
        |name: Seq<char>|
            match category {
                SymbolCategory::DataItem => Declaration::Type(self.data_items[name]),
                SymbolCategory::Executor => Declaration::OptionalType(self.executors[name]),
                _ => Declaration::Nothing,
            }
    }
}

/// The names of a registry's handlers, in an order in which they can be gone through.
pub struct RegistryWalk {
    pub data_items: Vec<String>,
    pub executors: Vec<String>,
    pub conditions: Vec<String>,
    pub monitors: Vec<String>,
}

impl RegistryWalk {
    /// The names of one category.
    pub open spec fn names(self, category: SymbolCategory) -> Seq<Seq<char>> {
        match category {
            SymbolCategory::DataItem => texts(self.data_items@),
            SymbolCategory::Executor => texts(self.executors@),
            SymbolCategory::Condition => texts(self.conditions@),
            SymbolCategory::Monitor => texts(self.monitors@),
        }
    }
}

impl<D, E, C, M> RegistryView<D, E, C, M> {
    /// The names that have a handler of one category.
    pub open spec fn implemented(self, category: SymbolCategory) -> Set<Seq<char>> {
        match category {
            SymbolCategory::DataItem => self.data_items.dom(),
            SymbolCategory::Executor => self.executors.dom(),
            SymbolCategory::Condition => self.conditions.dom(),
            SymbolCategory::Monitor => self.monitors.dom(),
        }
    }

    /// Whether `walk` goes through all handlers, each once.
    pub open spec fn walked_by(self, walk: RegistryWalk) -> bool {
        forall|category: SymbolCategory|
            is_walk(#[trigger] walk.names(category), self.implemented(category))
    }

    /// All that is to be reported of one category: first the symbols without a handler, then what
    /// is wrong with the handlers, in the order of `walk`.
    pub open spec fn category_errors(
        self,
        category: SymbolCategory,
        symbols: Seq<SymbolView>,
        walk: RegistryWalk,
        answers: Answers,
    ) -> Seq<Seq<char>> {
        missing_errors(category, symbols_in(symbols, category), self.implemented(category))
            + handler_errors(category, symbols, walk.names(category), answers.declared(category))
    }

    /// All that is to be reported.
    pub open spec fn errors(
        self,
        symbols: Seq<SymbolView>,
        walk: RegistryWalk,
        answers: Answers,
    ) -> Seq<Seq<char>> {
        self.category_errors(SymbolCategory::DataItem, symbols, walk, answers)
            + self.category_errors(SymbolCategory::Executor, symbols, walk, answers)
            + self.category_errors(SymbolCategory::Condition, symbols, walk, answers)
            + self.category_errors(SymbolCategory::Monitor, symbols, walk, answers)
    }

    /// Whether the registry and the symbol table agree on one category: every defined symbol has a
    /// handler, every handler has a defined symbol, and what it declares is what is defined.
    pub open spec fn category_consistent(
        self,
        category: SymbolCategory,
        symbols: Seq<SymbolView>,
        answers: Answers,
    ) -> bool {
        &&& forall|i: int|
            0 <= i < symbols.len() && #[trigger] symbols[i].category == category
                ==> self.implemented(category).contains(symbols[i].name)
        &&& forall|name: Seq<char>| #[trigger]
            self.implemented(category).contains(name) ==> {
                &&& symbol_named(symbols, name, category) is Some
                &&& answers.declared(category)(name).agrees(
                    symbol_named(symbols, name, category)->0.returns,
                )
            }
    }

    /// Whether the registry and the symbol table agree.
    pub open spec fn consistent(self, symbols: Seq<SymbolView>, answers: Answers) -> bool {
        &&& self.category_consistent(SymbolCategory::DataItem, symbols, answers)
        &&& self.category_consistent(SymbolCategory::Executor, symbols, answers)
        &&& self.category_consistent(SymbolCategory::Condition, symbols, answers)
        &&& self.category_consistent(SymbolCategory::Monitor, symbols, answers)
    }
}

impl<D: DataItemHandler, E: ExecutorHandler, C, M> RegistryView<D, E, C, M> {
    /// Whether the handlers may answer `answers`. Only those are asked whose symbol is defined.
    pub open spec fn may_answer(self, symbols: Seq<SymbolView>, answers: Answers) -> bool {
        &&& forall|name: Seq<char>| #[trigger]
            self.data_items.contains_key(name) && symbol_named(
                symbols,
                name,
                SymbolCategory::DataItem,
            ) is Some ==> self.data_items[name].may_declare(answers.data_items[name])
        &&& forall|name: Seq<char>| #[trigger]
            self.executors.contains_key(name) && symbol_named(
                symbols,
                name,
                SymbolCategory::Executor,
            ) is Some ==> self.executors[name].may_declare(answers.executors[name])
    }
}

/// The outcome of a check that found `errors`.
pub open spec fn reports(outcome: Result<(), Vec<String>>, errors: Seq<Seq<char>>) -> bool {
    match outcome {
        Ok(()) => errors.len() == 0,
        Err(messages) => errors.len() > 0 && texts(messages@) == errors,
    }
}

/// What is reported of handlers depends only on the declarations of those handlers.
proof fn lemma_errors_of_walk(
    category: SymbolCategory,
    symbols: Seq<SymbolView>,
    walk: Seq<Seq<char>>,
    f: spec_fn(Seq<char>) -> Declaration,
    g: spec_fn(Seq<char>) -> Declaration,
)
    requires
        forall|i: int|
            0 <= i < walk.len() ==> handler_error(
                category,
                symbols,
                #[trigger] walk[i],
                f(walk[i]),
            ) == handler_error(category, symbols, walk[i], g(walk[i])),
    ensures
        handler_errors(category, symbols, walk, f) == handler_errors(category, symbols, walk, g),
    decreases walk.len(),
{
    if walk.len() > 0 {
        let head = walk.drop_last();
        assert forall|i: int| 0 <= i < head.len() implies handler_error(
            category,
            symbols,
            #[trigger] head[i],
            f(head[i]),
        ) == handler_error(category, symbols, head[i], g(head[i])) by {
            assert(head[i] == walk[i]);
        }
        lemma_errors_of_walk(category, symbols, head, f, g);
        assert(walk.last() == walk[walk.len() - 1]);
    }
}

/// Adds a message for each symbol of a category that has no handler.
fn report_missing<T>(
    symbols: &SymbolRegistry,
    category: SymbolCategory,
    table: &HandlerTable<T>,
    errors: &mut Vec<String>,
)
    ensures
        texts(final(errors)@) == texts(old(errors)@) + missing_errors(
            category,
            symbols_in(symbols@, category),
            table@.dom(),
        ),
{
    let defined = symbols.all_symbols(category);
    let ghost views = symbols_in(symbols@, category);
    assert(views.take(0) =~= Seq::<SymbolView>::empty());
    for i in 0..defined.len()
        invariant
            views == defined@.map_values(|m: &SymbolMetadata| m@),
            texts(errors@) =~= texts(old(errors)@) + missing_errors(
                category,
                views.take(i as int),
                table@.dom(),
            ),
    {
        let meta = defined[i];
        assert(views.take(i + 1).drop_last() =~= views.take(i as int));
        assert(views.take(i + 1).last() == meta@);
        if !table.contains_key(meta.name.as_str()) {
            let ghost before = errors@;
            let message = write_missing(category, meta.name.as_str());
            proof {
                lemma_texts_push(before, message);
            }
            errors.push(message);
        }
    }
    assert(views.take(defined@.len() as int) =~= views);
}

/// Adds a message for each handler of a category whose symbol is not defined.
fn report_undefined(
    symbols: &SymbolRegistry,
    category: SymbolCategory,
    walk: &Vec<String>,
    errors: &mut Vec<String>,
)
    ensures
        texts(final(errors)@) == texts(old(errors)@) + handler_errors(
            category,
            symbols@,
            texts(walk@),
            |name: Seq<char>| Declaration::Nothing,
        ),
{
    let ghost names = texts(walk@);
    let ghost nothing = |name: Seq<char>| Declaration::Nothing;
    assert(names.take(0) =~= Seq::<Seq<char>>::empty());
    for i in 0..walk.len()
        invariant
            names == texts(walk@),
            nothing == (|name: Seq<char>| Declaration::Nothing),
            texts(errors@) =~= texts(old(errors)@) + handler_errors(
                category,
                symbols@,
                names.take(i as int),
                nothing,
            ),
    {
        let name = walk[i].as_str();
        assert(names.take(i + 1).drop_last() =~= names.take(i as int));
        assert(names.take(i + 1).last() == name@);
        if symbols.lookup(name, category).is_none() {
            let ghost before = errors@;
            let message = write_undefined(category, name);
            proof {
                lemma_texts_push(before, message);
            }
            errors.push(message);
        }
    }
    assert(names.take(walk@.len() as int) =~= names);
}

/// What was said of the handlers before does not change when the one at `i` has answered.
proof fn lemma_just_asked(
    category: SymbolCategory,
    symbols: Seq<SymbolView>,
    names: Seq<Seq<char>>,
    i: int,
    former: spec_fn(Seq<char>) -> Declaration,
    declared: spec_fn(Seq<char>) -> Declaration,
)
    requires
        names.no_duplicates(),
        0 <= i < names.len(),
        forall|name: Seq<char>| name != names[i] ==> #[trigger] declared(name) == former(name),
    ensures
        handler_errors(category, symbols, names.take(i), former) == handler_errors(
            category,
            symbols,
            names.take(i),
            declared,
        ),
        forall|j: int| 0 <= j < i ==> #[trigger] names[j] != names[i],
{
    let seen = names.take(i);
    assert forall|j: int| 0 <= j < seen.len() implies handler_error(
        category,
        symbols,
        #[trigger] seen[j],
        former(seen[j]),
    ) == handler_error(category, symbols, seen[j], declared(seen[j])) by {
        assert(seen[j] == names[j]);
        assert(declared(seen[j]) == former(seen[j]));
    }
    lemma_errors_of_walk(category, symbols, seen, former, declared);
}

/// A walk comes by every name.
proof fn lemma_in_walk(names: Seq<Seq<char>>, of: Set<Seq<char>>, name: Seq<char>) -> (j: int)
    requires
        is_walk(names, of),
        of.contains(name),
    ensures
        0 <= j < names.len(),
        names[j] == name,
{
    assert(names.to_set().contains(name));
    choose|j: int| 0 <= j < names.len() && names[j] == name
}

/// Adds a message for each data item whose symbol is not defined, or returns another type than the
/// data item declares. Returns what the data items declared.
fn report_data_items<T: DataItemHandler>(
    symbols: &SymbolRegistry,
    table: &HandlerTable<T>,
    walk: &Vec<String>,
    errors: &mut Vec<String>,
) -> (answers: Ghost<Map<Seq<char>, Seq<char>>>)
    requires
        table.wf(),
        is_walk(texts(walk@), table@.dom()),
    ensures
        forall|name: Seq<char>| #[trigger]
            table@.contains_key(name) && symbol_named(
                symbols@,
                name,
                SymbolCategory::DataItem,
            ) is Some ==> table@[name].may_declare(answers@[name]),
        texts(final(errors)@) == texts(old(errors)@) + handler_errors(
            SymbolCategory::DataItem,
            symbols@,
            texts(walk@),
            |name: Seq<char>| Declaration::Type(answers@[name]),
        ),
{
    let category = SymbolCategory::DataItem;
    let ghost names = texts(walk@);
    let ghost mut answers = Map::<Seq<char>, Seq<char>>::empty();
    let ghost mut declared = |name: Seq<char>| Declaration::Type(answers[name]);
    assert(names.take(0) =~= Seq::<Seq<char>>::empty());
    for i in 0..walk.len()
        invariant
            table.wf(),
            names == texts(walk@),
            is_walk(names, table@.dom()),
            category == SymbolCategory::DataItem,
            declared == (|name: Seq<char>| Declaration::Type(answers[name])),
            forall|j: int|
                0 <= j < i && symbol_named(symbols@, #[trigger] names[j], category) is Some
                    ==> table@[names[j]].may_declare(answers[names[j]]),
            texts(errors@) =~= texts(old(errors)@) + handler_errors(
                category,
                symbols@,
                names.take(i as int),
                declared,
            ),
    {
        let name = walk[i].as_str();
        assert(names.take(i + 1).drop_last() =~= names.take(i as int));
        assert(names.take(i + 1).last() == name@);
        assert(names.to_set().contains(names[i as int]));
        match symbols.lookup(name, category) {
            None => {
                let ghost before = errors@;
                let message = write_undefined(category, name);
                proof {
                    lemma_texts_push(before, message);
                }
                errors.push(message);
            },
            Some(meta) => {
                if let Some(handler) = table.get(name) {
                    let said = handler.declared_return_type();
                    proof {
                        let former = declared;
                        answers = answers.insert(name@, said@);
                        declared = |name: Seq<char>| Declaration::Type(answers[name]);
                        lemma_just_asked(category, symbols@, names, i as int, former, declared);
                    }
                    if !is_returned(&meta.returns, &said) {
                        let ghost before = errors@;
                        let message = write_mismatch(
                            category,
                            name,
                            said.text.as_str(),
                            &meta.returns,
                        );
                        proof {
                            lemma_texts_push(before, message);
                        }
                        errors.push(message);
                    }
                }
            },
        }
    }
    assert(names.take(walk@.len() as int) =~= names);
    proof {
        assert forall|name: Seq<char>| #[trigger]
            table@.contains_key(name) && symbol_named(symbols@, name, category) is Some
            implies table@[name].may_declare(answers[name]) by {
            let j = lemma_in_walk(names, table@.dom(), name);
        }
    }
    Ghost(answers)
}

/// Adds a message for each executor whose symbol is not defined, or returns another type than the
/// executor declares. Returns what the executors declared.
fn report_executors<T: ExecutorHandler>(
    symbols: &SymbolRegistry,
    table: &HandlerTable<T>,
    walk: &Vec<String>,
    errors: &mut Vec<String>,
) -> (answers: Ghost<Map<Seq<char>, Option<Seq<char>>>>)
    requires
        table.wf(),
        is_walk(texts(walk@), table@.dom()),
    ensures
        forall|name: Seq<char>| #[trigger]
            table@.contains_key(name) && symbol_named(
                symbols@,
                name,
                SymbolCategory::Executor,
            ) is Some ==> table@[name].may_declare(answers@[name]),
        texts(final(errors)@) == texts(old(errors)@) + handler_errors(
            SymbolCategory::Executor,
            symbols@,
            texts(walk@),
            |name: Seq<char>| Declaration::OptionalType(answers@[name]),
        ),
{
    let category = SymbolCategory::Executor;
    let ghost names = texts(walk@);
    let ghost mut answers = Map::<Seq<char>, Option<Seq<char>>>::empty();
    let ghost mut declared = |name: Seq<char>| Declaration::OptionalType(answers[name]);
    assert(names.take(0) =~= Seq::<Seq<char>>::empty());
    for i in 0..walk.len()
        invariant
            table.wf(),
            names == texts(walk@),
            is_walk(names, table@.dom()),
            category == SymbolCategory::Executor,
            declared == (|name: Seq<char>| Declaration::OptionalType(answers[name])),
            forall|j: int|
                0 <= j < i && symbol_named(symbols@, #[trigger] names[j], category) is Some
                    ==> table@[names[j]].may_declare(answers[names[j]]),
            texts(errors@) =~= texts(old(errors)@) + handler_errors(
                category,
                symbols@,
                names.take(i as int),
                declared,
            ),
    {
        let name = walk[i].as_str();
        assert(names.take(i + 1).drop_last() =~= names.take(i as int));
        assert(names.take(i + 1).last() == name@);
        assert(names.to_set().contains(names[i as int]));
        match symbols.lookup(name, category) {
            None => {
                let ghost before = errors@;
                let message = write_undefined(category, name);
                proof {
                    lemma_texts_push(before, message);
                }
                errors.push(message);
            },
            Some(meta) => {
                if let Some(handler) = table.get(name) {
                    let said = handler.declared_return_type();
                    proof {
                        let former = declared;
                        answers = answers.insert(name@, type_text(said));
                        declared = |name: Seq<char>| Declaration::OptionalType(answers[name]);
                        lemma_just_asked(category, symbols@, names, i as int, former, declared);
                    }
                    if !TypeSpec::same_option(&said, &meta.returns) {
                        let ghost before = errors@;
                        let message = write_mismatch(
                            category,
                            name,
                            show_option(&said).as_str(),
                            &meta.returns,
                        );
                        proof {
                            lemma_texts_push(before, message);
                        }
                        errors.push(message);
                    }
                }
            },
        }
    }
    assert(names.take(walk@.len() as int) =~= names);
    proof {
        assert forall|name: Seq<char>| #[trigger]
            table@.contains_key(name) && symbol_named(symbols@, name, category) is Some
            implies table@[name].may_declare(answers[name]) by {
            let j = lemma_in_walk(names, table@.dom(), name);
        }
    }
    Ghost(answers)
}

/// Whether a symbol that returns `defined` returns a value of the type `declared`.
fn is_returned(defined: &Option<TypeSpec>, declared: &TypeSpec) -> (same: bool)
    ensures
        same == (type_text(*defined) == Some(declared@)),
{
    match defined {
        Some(t) => t.same(declared),
        None => false,
    }
}

/// Nothing is missing exactly when every defined symbol of the category has a handler.
proof fn lemma_nothing_missing(
    category: SymbolCategory,
    symbols: Seq<SymbolView>,
    implemented: Set<Seq<char>>,
)
    ensures
        missing_errors(category, symbols_in(symbols, category), implemented).len() == 0 <==> (
        forall|i: int|
            0 <= i < symbols.len() && #[trigger] symbols[i].category == category
                ==> implemented.contains(symbols[i].name)),
    decreases symbols.len(),
{
    reveal(Seq::filter);
    if symbols.len() > 0 {
        let head = symbols.drop_last();
        let last = symbols.last();
        lemma_nothing_missing(category, head, implemented);
        let defined = symbols_in(symbols, category);
        let before = symbols_in(head, category);
        assert(forall|i: int| 0 <= i < head.len() ==> #[trigger] symbols[i] == head[i]);
        assert(symbols[symbols.len() - 1] == last);
        if last.category == category {
            assert(defined =~= before.push(last));
            assert(defined.drop_last() =~= before);
        } else {
            assert(defined =~= before);
        }
        if forall|i: int|
            0 <= i < symbols.len() && #[trigger] symbols[i].category == category
                ==> implemented.contains(symbols[i].name) {
            assert forall|i: int|
                0 <= i < head.len() && #[trigger] head[i].category == category
                implies implemented.contains(head[i].name) by {
                assert(symbols[i] == head[i]);
            }
        }
    }
}

/// No handler is reported exactly when there is nothing to report of any.
proof fn lemma_no_handler_error(
    category: SymbolCategory,
    symbols: Seq<SymbolView>,
    walk: Seq<Seq<char>>,
    declared: spec_fn(Seq<char>) -> Declaration,
)
    ensures
        handler_errors(category, symbols, walk, declared).len() == 0 <==> (forall|i: int|
            0 <= i < walk.len() ==> handler_error(
                category,
                symbols,
                #[trigger] walk[i],
                declared(walk[i]),
            ) is None),
    decreases walk.len(),
{
    if walk.len() > 0 {
        let head = walk.drop_last();
        lemma_no_handler_error(category, symbols, head, declared);
        assert(forall|i: int| 0 <= i < head.len() ==> #[trigger] walk[i] == head[i]);
        assert(walk[walk.len() - 1] == walk.last());
        if forall|i: int|
            0 <= i < walk.len() ==> handler_error(
                category,
                symbols,
                #[trigger] walk[i],
                declared(walk[i]),
            ) is None {
            assert forall|i: int| 0 <= i < head.len() implies handler_error(
                category,
                symbols,
                #[trigger] head[i],
                declared(head[i]),
            ) is None by {
                assert(walk[i] == head[i]);
            }
        }
    }
}

/// Nothing is reported of a category exactly when registry and symbol table agree on it.
proof fn lemma_category_silent<D, E, C, M>(
    registry: RegistryView<D, E, C, M>,
    category: SymbolCategory,
    symbols: Seq<SymbolView>,
    walk: RegistryWalk,
    answers: Answers,
)
    requires
        registry.walked_by(walk),
    ensures
        registry.category_errors(category, symbols, walk, answers).len() == 0
            <==> registry.category_consistent(category, symbols, answers),
{
    let names = walk.names(category);
    let declared = answers.declared(category);
    lemma_nothing_missing(category, symbols, registry.implemented(category));
    lemma_no_handler_error(category, symbols, names, declared);
    assert(is_walk(names, registry.implemented(category)));
    if registry.category_consistent(category, symbols, answers) {
        assert forall|i: int| 0 <= i < names.len() implies handler_error(
            category,
            symbols,
            #[trigger] names[i],
            declared(names[i]),
        ) is None by {
            assert(names.to_set().contains(names[i]));
            assert(registry.implemented(category).contains(names[i]));
        }
    }
    if forall|i: int|
        0 <= i < names.len() ==> handler_error(
            category,
            symbols,
            #[trigger] names[i],
            declared(names[i]),
        ) is None {
        assert forall|name: Seq<char>| #[trigger]
            registry.implemented(category).contains(name) implies {
            &&& symbol_named(symbols, name, category) is Some
            &&& declared(name).agrees(symbol_named(symbols, name, category)->0.returns)
        } by {
            assert(names.to_set().contains(name));
            let i = choose|i: int| 0 <= i < names.len() && names[i] == name;
            assert(handler_error(category, symbols, names[i], declared(names[i])) is None);
        }
    }
}

/// Whichever way the handlers are gone through, nothing is reported exactly when the registry and
/// the symbol table agree.
pub proof fn law_silent_iff_consistent<D, E, C, M>(
    registry: RegistryView<D, E, C, M>,
    symbols: Seq<SymbolView>,
    walk: RegistryWalk,
    answers: Answers,
)
    requires
        registry.walked_by(walk),
    ensures
        registry.errors(symbols, walk, answers).len() == 0 <==> registry.consistent(
            symbols,
            answers,
        ),
{
    lemma_category_silent(registry, SymbolCategory::DataItem, symbols, walk, answers);
    lemma_category_silent(registry, SymbolCategory::Executor, symbols, walk, answers);
    lemma_category_silent(registry, SymbolCategory::Condition, symbols, walk, answers);
    lemma_category_silent(registry, SymbolCategory::Monitor, symbols, walk, answers);
}

/// Where a name stands in a walk adds nothing but the place of its message.
proof fn lemma_errors_without(
    category: SymbolCategory,
    symbols: Seq<SymbolView>,
    walk: Seq<Seq<char>>,
    i: int,
    declared: spec_fn(Seq<char>) -> Declaration,
)
    requires
        0 <= i < walk.len(),
    ensures
        handler_errors(category, symbols, walk, declared).to_multiset() =~= match handler_error(
            category,
            symbols,
            walk[i],
            declared(walk[i]),
        ) {
            Some(message) => handler_errors(
                category,
                symbols,
                walk.remove(i),
                declared,
            ).to_multiset().insert(message),
            None => handler_errors(category, symbols, walk.remove(i), declared).to_multiset(),
        },
    decreases walk.len(),
{
    broadcast use vstd::seq_lib::group_to_multiset_ensures;

    let head = walk.drop_last();
    if i == walk.len() - 1 {
        assert(walk.remove(i) =~= head);
    } else {
        lemma_errors_without(category, symbols, head, i, declared);
        assert(head[i] == walk[i]);
        assert(walk.remove(i).drop_last() =~= head.remove(i));
        assert(walk.remove(i).last() == walk.last());
    }
}

/// The messages about the handlers of a category are the same, up to their order, whichever way
/// the handlers are gone through.
proof fn lemma_errors_permuted(
    category: SymbolCategory,
    symbols: Seq<SymbolView>,
    a: Seq<Seq<char>>,
    b: Seq<Seq<char>>,
    declared: spec_fn(Seq<char>) -> Declaration,
)
    requires
        a.no_duplicates(),
        b.no_duplicates(),
        a.to_set() == b.to_set(),
    ensures
        handler_errors(category, symbols, a, declared).to_multiset() == handler_errors(
            category,
            symbols,
            b,
            declared,
        ).to_multiset(),
    decreases a.len(),
{
    if a.len() == 0 {
        if b.len() > 0 {
            assert(b.to_set().contains(b[0]));
            assert(a.contains(b[0]));
        }
        assert(a =~= b);
    } else {
        let name = a.last();
        assert(a.to_set().contains(a[a.len() - 1]));
        assert(b.to_set().contains(name));
        let j = choose|j: int| 0 <= j < b.len() && b[j] == name;
        let rest = a.remove(a.len() - 1);
        let other = b.remove(j);
        assert forall|n: Seq<char>| rest.to_set().contains(n) == other.to_set().contains(n) by {
            if rest.contains(n) {
                let k = choose|k: int| 0 <= k < rest.len() && rest[k] == n;
                assert(a[k] == n && n != name);
                assert(a.to_set().contains(n));
                assert(b.to_set().contains(n));
                let l = choose|l: int| 0 <= l < b.len() && b[l] == n;
                assert(other[if l < j { l } else { l - 1 }] == n);
            }
            if other.contains(n) {
                let k = choose|k: int| 0 <= k < other.len() && other[k] == n;
                let l = if k < j { k } else { k + 1 };
                assert(b[l] == n && l != j);
                assert(n != name);
                assert(b.to_set().contains(n));
                assert(a.to_set().contains(n));
                let m = choose|m: int| 0 <= m < a.len() && a[m] == n;
                assert(rest[m] == n);
            }
        }
        assert(rest.to_set() =~= other.to_set());
        lemma_errors_permuted(category, symbols, rest, other, declared);
        lemma_errors_without(category, symbols, a, a.len() - 1, declared);
        lemma_errors_without(category, symbols, b, j, declared);
    }
}

/// What is reported of a category, up to its order, depends only on which handlers there are.
proof fn lemma_category_up_to_order<D, E, C, M>(
    registry: RegistryView<D, E, C, M>,
    like: RegistryView<D, E, C, M>,
    category: SymbolCategory,
    symbols: Seq<SymbolView>,
    walk: RegistryWalk,
    other: RegistryWalk,
    answers: Answers,
)
    requires
        like.implemented(category) == registry.implemented(category),
        registry.walked_by(walk),
        like.walked_by(other),
    ensures
        registry.category_errors(category, symbols, walk, answers).to_multiset()
            == like.category_errors(category, symbols, other, answers).to_multiset(),
{
    let a = walk.names(category);
    let b = other.names(category);
    let declared = answers.declared(category);
    assert(is_walk(a, registry.implemented(category)));
    assert(is_walk(b, like.implemented(category)));
    lemma_errors_permuted(category, symbols, a, b, declared);
    let missing = missing_errors(
        category,
        symbols_in(symbols, category),
        registry.implemented(category),
    );
    lemma_multiset_commutative(missing, handler_errors(category, symbols, a, declared));
    lemma_multiset_commutative(missing, handler_errors(category, symbols, b, declared));
}

/// The whole report is made up of those of the four categories.
proof fn lemma_report_parts<D, E, C, M>(
    registry: RegistryView<D, E, C, M>,
    symbols: Seq<SymbolView>,
    walk: RegistryWalk,
    answers: Answers,
)
    ensures
        registry.errors(symbols, walk, answers).to_multiset() == registry.category_errors(
            SymbolCategory::DataItem,
            symbols,
            walk,
            answers,
        ).to_multiset().add(
            registry.category_errors(
                SymbolCategory::Executor,
                symbols,
                walk,
                answers,
            ).to_multiset(),
        ).add(
            registry.category_errors(
                SymbolCategory::Condition,
                symbols,
                walk,
                answers,
            ).to_multiset(),
        ).add(
            registry.category_errors(
                SymbolCategory::Monitor,
                symbols,
                walk,
                answers,
            ).to_multiset(),
        ),
{
    let a = registry.category_errors(SymbolCategory::DataItem, symbols, walk, answers);
    let b = registry.category_errors(SymbolCategory::Executor, symbols, walk, answers);
    let c = registry.category_errors(SymbolCategory::Condition, symbols, walk, answers);
    let d = registry.category_errors(SymbolCategory::Monitor, symbols, walk, answers);
    lemma_multiset_commutative(a, b);
    lemma_multiset_commutative(a + b, c);
    lemma_multiset_commutative(a + b + c, d);
}

/// The order in which the handlers are gone through decides the order of the messages and nothing
/// else: the messages themselves are the same.
pub proof fn law_report_up_to_order<D, E, C, M>(
    registry: RegistryView<D, E, C, M>,
    symbols: Seq<SymbolView>,
    walk: RegistryWalk,
    other: RegistryWalk,
    answers: Answers,
)
    requires
        registry.walked_by(walk),
        registry.walked_by(other),
    ensures
        registry.errors(symbols, walk, answers).to_multiset() == registry.errors(
            symbols,
            other,
            answers,
        ).to_multiset(),
{
    assert forall|category: SymbolCategory| #[trigger]
        registry.category_errors(category, symbols, walk, answers).to_multiset()
            == registry.category_errors(category, symbols, other, answers).to_multiset() by {
        lemma_category_up_to_order(registry, registry, category, symbols, walk, other, answers);
    }
    lemma_report_parts(registry, symbols, walk, answers);
    lemma_report_parts(registry, symbols, other, answers);
}

/// Whether `after` has the handlers of `before` and one more, of `category` and under `name`.
pub open spec fn has_one_more<D, E, C, M>(
    before: RegistryView<D, E, C, M>,
    after: RegistryView<D, E, C, M>,
    category: SymbolCategory,
    name: Seq<char>,
) -> bool {
    &&& !before.implemented(category).contains(name)
    &&& after.implemented(category) == before.implemented(category).insert(name)
    &&& forall|other: SymbolCategory|
        other != category ==> #[trigger] after.implemented(other) == before.implemented(other)
}

/// Registering under a name that has no handler of the category adds just that handler.
pub proof fn law_registering_adds_one<D, E, C, M>(
    registry: RegistryView<D, E, C, M>,
    name: Seq<char>,
    data_item: D,
    executor: E,
    condition: C,
    monitor: M,
)
    ensures
        !registry.data_items.contains_key(name) ==> has_one_more(
            registry,
            RegistryView { data_items: registry.data_items.insert(name, data_item), ..registry },
            SymbolCategory::DataItem,
            name,
        ),
        !registry.executors.contains_key(name) ==> has_one_more(
            registry,
            RegistryView { executors: registry.executors.insert(name, executor), ..registry },
            SymbolCategory::Executor,
            name,
        ),
        !registry.conditions.contains_key(name) ==> has_one_more(
            registry,
            RegistryView { conditions: registry.conditions.insert(name, condition), ..registry },
            SymbolCategory::Condition,
            name,
        ),
        !registry.monitors.contains_key(name) ==> has_one_more(
            registry,
            RegistryView { monitors: registry.monitors.insert(name, monitor), ..registry },
            SymbolCategory::Monitor,
            name,
        ),
{
    assert(registry.data_items.insert(name, data_item).dom() =~= registry.data_items.dom().insert(
        name,
    ));
    assert(registry.executors.insert(name, executor).dom() =~= registry.executors.dom().insert(
        name,
    ));
    assert(registry.conditions.insert(name, condition).dom() =~= registry.conditions.dom().insert(
        name,
    ));
    assert(registry.monitors.insert(name, monitor).dom() =~= registry.monitors.dom().insert(name));
}

/// Whether no two symbols of a category have the same name.
pub open spec fn unique_names(symbols: Seq<SymbolView>, category: SymbolCategory) -> bool {
    forall|i: int, j: int|
        0 <= i < j < symbols.len() && (#[trigger] symbols[i]).category == category && (
        #[trigger] symbols[j]).category == category ==> symbols[i].name != symbols[j].name
}

/// With one more handler, just the message about its symbol is no longer among those about missing
/// handlers.
proof fn lemma_one_less_missing(
    category: SymbolCategory,
    symbols: Seq<SymbolView>,
    implemented: Set<Seq<char>>,
    name: Seq<char>,
)
    requires
        unique_names(symbols, category),
        !implemented.contains(name),
    ensures
        missing_errors(category, symbols_in(symbols, category), implemented).to_multiset() == (
        if symbol_named(symbols, name, category) is Some {
            missing_errors(
                category,
                symbols_in(symbols, category),
                implemented.insert(name),
            ).to_multiset().insert(missing_message(category, name))
        } else {
            missing_errors(
                category,
                symbols_in(symbols, category),
                implemented.insert(name),
            ).to_multiset()
        }),
    decreases symbols.len(),
{
    broadcast use vstd::seq_lib::group_to_multiset_ensures;

    reveal(Seq::filter);
    if symbols.len() > 0 {
        let head = symbols.drop_last();
        let last = symbols.last();
        assert forall|i: int, j: int|
            0 <= i < j < head.len() && (#[trigger] head[i]).category == category && (
            #[trigger] head[j]).category == category implies head[i].name != head[j].name by {
            assert(symbols[i] == head[i] && symbols[j] == head[j]);
        }
        lemma_one_less_missing(category, head, implemented, name);
        let defined = symbols_in(symbols, category);
        let before = symbols_in(head, category);
        if last.category == category {
            assert(defined =~= before.push(last));
            assert(defined.drop_last() =~= before);
            let now = implemented.insert(name);
            let (a, b) = (
                missing_errors(category, before, implemented),
                missing_errors(category, before, now),
            );
            if last.name == name {
                lemma_symbol_named(head, name, category);
                if let Some(m) = symbol_named(head, name, category) {
                    let i = choose|i: int| 0 <= i < head.len() && head[i] == m;
                    assert(symbols[i] == m && symbols[symbols.len() - 1] == last);
                }
            } else if !implemented.contains(last.name) {
                let message = missing_message(category, last.name);
                assert(missing_errors(category, defined, implemented) == a.push(message));
                assert(missing_errors(category, defined, now) == b.push(message));
                if symbol_named(head, name, category) is Some {
                    assert(b.to_multiset().insert(missing_message(category, name)).insert(message)
                        =~= b.to_multiset().insert(message).insert(
                        missing_message(category, name),
                    ));
                }
            }
        } else {
            assert(defined =~= before);
        }
    }
}

/// The message about one handler, if there is one.
pub open spec fn reported_of(
    category: SymbolCategory,
    symbols: Seq<SymbolView>,
    name: Seq<char>,
    declared: Declaration,
) -> Multiset<Seq<char>> {
    match handler_error(category, symbols, name, declared) {
        Some(message) => Multiset::empty().insert(message),
        None => Multiset::empty(),
    }
}

/// With one more handler, the messages about handlers are those from before and the one about it.
proof fn lemma_one_more_walked(
    category: SymbolCategory,
    symbols: Seq<SymbolView>,
    walk: Seq<Seq<char>>,
    later: Seq<Seq<char>>,
    names: Set<Seq<char>>,
    name: Seq<char>,
    declared: spec_fn(Seq<char>) -> Declaration,
)
    requires
        !names.contains(name),
        is_walk(walk, names),
        is_walk(later, names.insert(name)),
    ensures
        handler_errors(category, symbols, later, declared).to_multiset() == handler_errors(
            category,
            symbols,
            walk,
            declared,
        ).to_multiset().add(reported_of(category, symbols, name, declared(name))),
{
    assert(later.to_set().contains(name));
    let j = choose|j: int| 0 <= j < later.len() && later[j] == name;
    let rest = later.remove(j);
    assert forall|n: Seq<char>| rest.to_set().contains(n) == walk.to_set().contains(n) by {
        assert(walk.to_set().contains(n) == names.contains(n));
        assert(later.to_set().contains(n) == names.insert(name).contains(n));
        if rest.contains(n) {
            let k = choose|k: int| 0 <= k < rest.len() && rest[k] == n;
            let l = if k < j { k } else { k + 1 };
            assert(later[l] == n && l != j);
        }
        if names.contains(n) {
            let l = choose|l: int| 0 <= l < later.len() && later[l] == n;
            assert(l != j);
            assert(rest[if l < j { l } else { l - 1 }] == n);
        }
    }
    assert(rest.to_set() =~= walk.to_set());
    lemma_errors_permuted(category, symbols, rest, walk, declared);
    lemma_errors_without(category, symbols, later, j, declared);
    assert(handler_errors(category, symbols, later, declared).to_multiset() =~= handler_errors(
        category,
        symbols,
        walk,
        declared,
    ).to_multiset().add(reported_of(category, symbols, name, declared(name))));
}

/// Registering a handler for a symbol that had none, where names are unique in the category, takes
/// the message about the missing handler out of the report and changes nothing else, but for what is
/// to be reported of the handler itself. Where that is nothing, the registry agrees with the table
/// from then on exactly if that message was all of the report.
pub proof fn law_registering_takes_out_message<D, E, C, M>(
    before: RegistryView<D, E, C, M>,
    after: RegistryView<D, E, C, M>,
    category: SymbolCategory,
    name: Seq<char>,
    symbols: Seq<SymbolView>,
    walk: RegistryWalk,
    later: RegistryWalk,
    answers: Answers,
)
    requires
        has_one_more(before, after, category, name),
        unique_names(symbols, category),
        symbol_named(symbols, name, category) is Some,
        before.walked_by(walk),
        after.walked_by(later),
    ensures
        ({
            let was = before.errors(symbols, walk, answers).to_multiset();
            let is = after.errors(symbols, later, answers).to_multiset();
            let message = missing_message(category, name);
            let declared = answers.declared(category)(name);
            let agrees = declared.agrees(symbol_named(symbols, name, category)->0.returns);
            &&& was.add(reported_of(category, symbols, name, declared)) == is.insert(message)
            &&& agrees ==> was == is.insert(message)
            &&& agrees ==> (after.errors(symbols, later, answers).len() == 0 <==> was
                == Multiset::empty().insert(message))
        }),
{
    broadcast use vstd::seq_lib::group_to_multiset_ensures;

    let message = missing_message(category, name);
    let declared = answers.declared(category);
    let reported = reported_of(category, symbols, name, declared(name));
    let (a, b) = (walk.names(category), later.names(category));
    let have = before.implemented(category);
    assert(is_walk(a, have));
    assert(is_walk(b, after.implemented(category)));
    lemma_one_more_walked(category, symbols, a, b, have, name, declared);
    lemma_one_less_missing(category, symbols, have, name);
    let defined = symbols_in(symbols, category);
    lemma_multiset_commutative(
        missing_errors(category, defined, have),
        handler_errors(category, symbols, a, declared),
    );
    lemma_multiset_commutative(
        missing_errors(category, defined, after.implemented(category)),
        handler_errors(category, symbols, b, declared),
    );
    let was = before.category_errors(category, symbols, walk, answers).to_multiset();
    let is = after.category_errors(category, symbols, later, answers).to_multiset();
    assert(was.add(reported) =~= is.insert(message));
    assert forall|other: SymbolCategory| other != category implies #[trigger]
        before.category_errors(other, symbols, walk, answers).to_multiset()
            == after.category_errors(other, symbols, later, answers).to_multiset() by {
        assert(after.implemented(other) == before.implemented(other));
        lemma_category_up_to_order(before, after, other, symbols, walk, later, answers);
    }
    lemma_report_parts(before, symbols, walk, answers);
    lemma_report_parts(after, symbols, later, answers);
    let all_was = before.errors(symbols, walk, answers).to_multiset();
    let all_is = after.errors(symbols, later, answers).to_multiset();
    assert(all_was.add(reported) =~= all_is.insert(message));
    if declared(name).agrees(symbol_named(symbols, name, category)->0.returns) {
        assert(all_was.add(reported) =~= all_was);
        let none = Multiset::<Seq<char>>::empty();
        if after.errors(symbols, later, answers).len() == 0 {
            assert(after.errors(symbols, later, answers) =~= Seq::<Seq<char>>::empty());
            assert(all_is =~= none);
        }
        if all_was == none.insert(message) {
            assert(all_is =~= all_is.insert(message).remove(message));
            assert(none.insert(message).remove(message) =~= none);
            assert(all_is.len() == 0);
        }
    }
}

/// Whether two symbol tables differ in nothing but the return types of conditions and monitors.
pub open spec fn same_but_untyped(a: Seq<SymbolView>, b: Seq<SymbolView>) -> bool {
    &&& a.len() == b.len()
    &&& forall|i: int|
        0 <= i < a.len() ==> {
            &&& (#[trigger] a[i]).name == b[i].name
            &&& a[i].category == b[i].category
            &&& a[i].category == SymbolCategory::DataItem || a[i].category
                == SymbolCategory::Executor ==> a[i].returns == b[i].returns
        }
}

/// Such tables define the same names, and have the same return types where these count.
proof fn lemma_same_but_untyped(
    a: Seq<SymbolView>,
    b: Seq<SymbolView>,
    category: SymbolCategory,
    implemented: Set<Seq<char>>,
)
    requires
        same_but_untyped(a, b),
    ensures
        missing_errors(category, symbols_in(a, category), implemented) == missing_errors(
            category,
            symbols_in(b, category),
            implemented,
        ),
        forall|name: Seq<char>|
            #![trigger symbol_named(a, name, category)]
            match (symbol_named(a, name, category), symbol_named(b, name, category)) {
                (Some(x), Some(y)) => category == SymbolCategory::DataItem || category
                    == SymbolCategory::Executor ==> x.returns == y.returns,
                (None, None) => true,
                _ => false,
            },
    decreases a.len(),
{
    reveal(Seq::filter);
    if a.len() > 0 {
        let (x, y) = (a.drop_last(), b.drop_last());
        assert forall|i: int| 0 <= i < x.len() implies {
            &&& (#[trigger] x[i]).name == y[i].name
            &&& x[i].category == y[i].category
            &&& x[i].category == SymbolCategory::DataItem || x[i].category
                == SymbolCategory::Executor ==> x[i].returns == y[i].returns
        } by {
            assert(x[i] == a[i] && y[i] == b[i]);
        }
        lemma_same_but_untyped(x, y, category, implemented);
        let (p, q) = (a.last(), b.last());
        assert(a[a.len() - 1] == p && b[b.len() - 1] == q);
        let (s, t) = (symbols_in(x, category), symbols_in(y, category));
        if p.category == category {
            assert(symbols_in(a, category) =~= s.push(p));
            assert(symbols_in(b, category) =~= t.push(q));
            assert(s.push(p).drop_last() =~= s);
            assert(t.push(q).drop_last() =~= t);
        } else {
            assert(symbols_in(a, category) =~= s);
            assert(symbols_in(b, category) =~= t);
        }
        assert forall|name: Seq<char>|
            #![trigger symbol_named(a, name, category)]
            match (symbol_named(a, name, category), symbol_named(b, name, category)) {
                (Some(u), Some(v)) => category == SymbolCategory::DataItem || category
                    == SymbolCategory::Executor ==> u.returns == v.returns,
                (None, None) => true,
                _ => false,
            } by {
            let earlier = symbol_named(x, name, category);
            lemma_symbol_named(a, name, category);
            lemma_symbol_named(x, name, category);
        }
    } else {
        assert(a =~= b);
    }
}

/// Conditions and monitors are matched by name alone: what is reported does not depend on the return
/// types that the symbol table gives for them.
pub proof fn law_untyped_by_name_alone<D, E, C, M>(
    registry: RegistryView<D, E, C, M>,
    a: Seq<SymbolView>,
    b: Seq<SymbolView>,
    walk: RegistryWalk,
    answers: Answers,
)
    requires
        same_but_untyped(a, b),
    ensures
        registry.errors(a, walk, answers) == registry.errors(b, walk, answers),
{
    assert forall|category: SymbolCategory| #[trigger]
        registry.category_errors(category, a, walk, answers) == registry.category_errors(
            category,
            b,
            walk,
            answers,
        ) by {
        let names = walk.names(category);
        let declared = answers.declared(category);
        lemma_same_but_untyped(a, b, category, registry.implemented(category));
        assert forall|i: int| 0 <= i < names.len() implies handler_error(
            category,
            a,
            #[trigger] names[i],
            declared(names[i]),
        ) == handler_error(category, b, names[i], declared(names[i])) by {
            let found = symbol_named(a, names[i], category);
        }
        lemma_errors_of_tables(category, a, b, names, declared);
    }
}

/// What is reported of handlers is the same for two tables where it is so for each handler.
proof fn lemma_errors_of_tables(
    category: SymbolCategory,
    a: Seq<SymbolView>,
    b: Seq<SymbolView>,
    walk: Seq<Seq<char>>,
    declared: spec_fn(Seq<char>) -> Declaration,
)
    requires
        forall|i: int|
            0 <= i < walk.len() ==> handler_error(
                category,
                a,
                #[trigger] walk[i],
                declared(walk[i]),
            ) == handler_error(category, b, walk[i], declared(walk[i])),
    ensures
        handler_errors(category, a, walk, declared) == handler_errors(category, b, walk, declared),
    decreases walk.len(),
{
    if walk.len() > 0 {
        let head = walk.drop_last();
        assert forall|i: int| 0 <= i < head.len() implies handler_error(
            category,
            a,
            #[trigger] head[i],
            declared(head[i]),
        ) == handler_error(category, b, head[i], declared(head[i])) by {
            assert(head[i] == walk[i]);
        }
        lemma_errors_of_tables(category, a, b, head, declared);
        assert(walk.last() == walk[walk.len() - 1]);
    }
}

impl<D, E, C, M> RuntimeRegistry<D, E, C, M> {
    /// An order in which all handlers can be gone through. Nothing is said of which one.
    pub fn walk(&self) -> (walk: RegistryWalk)
        ensures
            self@.walked_by(walk),
    {
        RegistryWalk {
            data_items: self.data_items.names(),
            executors: self.executors.names(),
            conditions: self.conditions.names(),
            monitors: self.monitors.names(),
        }
    }
}

impl<D: DataItemHandler, E: ExecutorHandler, C, M> RuntimeRegistry<D, E, C, M> {
    /// Holds the registry against a symbol table, going through the handlers in the order of
    /// `walk`.
    pub fn validate_in_order(
        &self,
        symbol_registry: &SymbolRegistry,
        walk: &RegistryWalk,
    ) -> (outcome: Result<(), Vec<String>>)
        requires
            self.wf(),
            self@.walked_by(*walk),
        ensures
            exists|answers: Answers| #[trigger]
                self@.may_answer(symbol_registry@, answers) && reports(
                    outcome,
                    self@.errors(symbol_registry@, *walk, answers),
                ) && (outcome is Ok <==> self@.consistent(symbol_registry@, answers)),
    {
        let mut errors: Vec<String> = Vec::new();
        assert(is_walk(walk.names(SymbolCategory::DataItem), self@.data_items.dom()));
        assert(is_walk(walk.names(SymbolCategory::Executor), self@.executors.dom()));

        report_missing(symbol_registry, SymbolCategory::DataItem, &self.data_items, &mut errors);
        let Ghost(data_items) = report_data_items(
            symbol_registry,
            &self.data_items,
            &walk.data_items,
            &mut errors,
        );
        report_missing(symbol_registry, SymbolCategory::Executor, &self.executors, &mut errors);
        let Ghost(executors) = report_executors(
            symbol_registry,
            &self.executors,
            &walk.executors,
            &mut errors,
        );
        report_missing(symbol_registry, SymbolCategory::Condition, &self.conditions, &mut errors);
        report_undefined(
            symbol_registry,
            SymbolCategory::Condition,
            &walk.conditions,
            &mut errors,
        );
        report_missing(symbol_registry, SymbolCategory::Monitor, &self.monitors, &mut errors);
        report_undefined(symbol_registry, SymbolCategory::Monitor, &walk.monitors, &mut errors);

        let ghost answers = Answers { data_items, executors };
        proof {
            let symbols = symbol_registry@;
            let nothing = |name: Seq<char>| Declaration::Nothing;
            lemma_errors_of_walk(
                SymbolCategory::DataItem,
                symbols,
                walk.names(SymbolCategory::DataItem),
                |name: Seq<char>| Declaration::Type(data_items[name]),
                answers.declared(SymbolCategory::DataItem),
            );
            lemma_errors_of_walk(
                SymbolCategory::Executor,
                symbols,
                walk.names(SymbolCategory::Executor),
                |name: Seq<char>| Declaration::OptionalType(executors[name]),
                answers.declared(SymbolCategory::Executor),
            );
            lemma_errors_of_walk(
                SymbolCategory::Condition,
                symbols,
                walk.names(SymbolCategory::Condition),
                nothing,
                answers.declared(SymbolCategory::Condition),
            );
            lemma_errors_of_walk(
                SymbolCategory::Monitor,
                symbols,
                walk.names(SymbolCategory::Monitor),
                nothing,
                answers.declared(SymbolCategory::Monitor),
            );
            assert(texts(errors@) =~= self@.errors(symbols, *walk, answers));
            law_silent_iff_consistent(self@, symbols, *walk, answers);
            assert(self@.may_answer(symbols, answers));
        }
        if errors.len() == 0 {
            Ok(())
        } else {
            Err(errors)
        }
    }

    /// Holds the registry against a symbol table: every defined symbol has to have a handler, every
    /// handler a defined symbol, and a handler that declares a return type the one that is defined.
    ///
    /// The order in which the handlers are gone through is not fixed. It decides the order of the
    /// messages, not which there are.
    pub fn validate_against(&self, symbol_registry: &SymbolRegistry) -> (outcome: Result<
        (),
        Vec<String>,
    >)
        requires
            self.wf(),
        ensures
            exists|walk: RegistryWalk, answers: Answers|
                #![trigger self@.errors(symbol_registry@, walk, answers)]
                self@.walked_by(walk) && self@.may_answer(symbol_registry@, answers) && reports(
                    outcome,
                    self@.errors(symbol_registry@, walk, answers),
                ) && (outcome is Ok <==> self@.consistent(symbol_registry@, answers)),
    {
        let walk = self.walk();
        self.validate_in_order(symbol_registry, &walk)
    }
}

} // verus!
