//! What registering handlers and holding them against a symbol table do, by what goes in and what
//! comes out.
use crate::handlers::{is_walk, HandlerTable};
use crate::registry::{DataItemHandler, ExecutorHandler, RegistryView, RuntimeRegistry};
use crate::report::{
    handler_error, handler_errors, missing_errors, missing_message, show_option, write_mismatch,
    write_missing, write_undefined, Declaration,
};
use crate::symbols::{
    symbol_named, symbols_in, type_text, SymbolCategory, SymbolMetadata, SymbolRegistry,
    SymbolView, TypeSpec,
};
use crate::text::texts;
use crate::validate::{reports, Answers, RegistryWalk};
use vstd::prelude::*;

verus! {

/// A registry begins with no handler of any category.
pub proof fn law_registry_begins_empty<D, E, C, M>(
    registry: RuntimeRegistry<D, E, C, M>,
    name: Seq<char>,
)
    requires
        call_ensures(RuntimeRegistry::<D, E, C, M>::new, (), registry) || call_ensures(
            RuntimeRegistry::<D, E, C, M>::default,
            (),
            registry,
        ),
    ensures
        registry.wf(),
        !registry.data_items@.contains_key(name),
        !registry.executors@.contains_key(name),
        !registry.conditions@.contains_key(name),
        !registry.monitors@.contains_key(name),
{
}

/// A handler can be registered, and a registry held against any table, in every state of it.
pub proof fn law_registry_may_always_be_used<D: DataItemHandler, E: ExecutorHandler, C, M>(
    registry: &mut RuntimeRegistry<D, E, C, M>,
    table: &SymbolRegistry,
    name: &str,
    data_item: D,
    executor: E,
    condition: C,
    monitor: M,
)
    requires
        registry.wf(),
    ensures
        call_requires(
            RuntimeRegistry::<D, E, C, M>::register_data_item,
            (registry, name, data_item),
        ),
        call_requires(
            RuntimeRegistry::<D, E, C, M>::register_executor,
            (registry, name, executor),
        ),
        call_requires(
            RuntimeRegistry::<D, E, C, M>::register_condition,
            (registry, name, condition),
        ),
        call_requires(
            RuntimeRegistry::<D, E, C, M>::register_monitor,
            (registry, name, monitor),
        ),
        call_requires(
            RuntimeRegistry::<D, E, C, M>::validate_against,
            (&*old(registry), table),
        ),
{
}

/// Registering a data item puts it under its name, in place of the one that may be there. Other
/// names and other categories are as they were.
pub proof fn law_data_item_registered<D, E, C, M>(
    registry: &mut RuntimeRegistry<D, E, C, M>,
    name: &str,
    handler: D,
    other: Seq<char>,
)
    requires
        call_ensures(
            RuntimeRegistry::<D, E, C, M>::register_data_item,
            (registry, name, handler),
            (),
        ),
    ensures
        final(registry).wf(),
        final(registry).data_items@.contains_key(name@),
        final(registry).data_items@[name@] == handler,
        other != name@ ==> final(registry).data_items@.contains_key(other) == old(
            registry,
        ).data_items@.contains_key(other) && final(registry).data_items@[other] == old(
            registry,
        ).data_items@[other],
        final(registry).executors@ == old(registry).executors@,
        final(registry).conditions@ == old(registry).conditions@,
        final(registry).monitors@ == old(registry).monitors@,
{
    assert(final(registry)@.data_items == final(registry).data_items@);
    assert(old(registry)@.data_items == old(registry).data_items@);
}

/// Registering an executor puts it under its name, in place of the one that may be there. Other
/// names and other categories are as they were.
pub proof fn law_executor_registered<D, E, C, M>(
    registry: &mut RuntimeRegistry<D, E, C, M>,
    name: &str,
    handler: E,
    other: Seq<char>,
)
    requires
        call_ensures(
            RuntimeRegistry::<D, E, C, M>::register_executor,
            (registry, name, handler),
            (),
        ),
    ensures
        final(registry).wf(),
        final(registry).executors@.contains_key(name@),
        final(registry).executors@[name@] == handler,
        other != name@ ==> final(registry).executors@.contains_key(other) == old(
            registry,
        ).executors@.contains_key(other) && final(registry).executors@[other] == old(
            registry,
        ).executors@[other],
        final(registry).data_items@ == old(registry).data_items@,
        final(registry).conditions@ == old(registry).conditions@,
        final(registry).monitors@ == old(registry).monitors@,
{
    assert(final(registry)@.executors == final(registry).executors@);
    assert(old(registry)@.executors == old(registry).executors@);
}

/// Registering a condition puts it under its name, in place of the one that may be there. Other
/// names and other categories are as they were.
pub proof fn law_condition_registered<D, E, C, M>(
    registry: &mut RuntimeRegistry<D, E, C, M>,
    name: &str,
    handler: C,
    other: Seq<char>,
)
    requires
        call_ensures(
            RuntimeRegistry::<D, E, C, M>::register_condition,
            (registry, name, handler),
            (),
        ),
    ensures
        final(registry).wf(),
        final(registry).conditions@.contains_key(name@),
        final(registry).conditions@[name@] == handler,
        other != name@ ==> final(registry).conditions@.contains_key(other) == old(
            registry,
        ).conditions@.contains_key(other) && final(registry).conditions@[other] == old(
            registry,
        ).conditions@[other],
        final(registry).data_items@ == old(registry).data_items@,
        final(registry).executors@ == old(registry).executors@,
        final(registry).monitors@ == old(registry).monitors@,
{
    assert(final(registry)@.conditions == final(registry).conditions@);
    assert(old(registry)@.conditions == old(registry).conditions@);
}

/// Registering a monitor puts it under its name, in place of the one that may be there. Other names
/// and other categories are as they were.
pub proof fn law_monitor_registered<D, E, C, M>(
    registry: &mut RuntimeRegistry<D, E, C, M>,
    name: &str,
    handler: M,
    other: Seq<char>,
)
    requires
        call_ensures(
            RuntimeRegistry::<D, E, C, M>::register_monitor,
            (registry, name, handler),
            (),
        ),
    ensures
        final(registry).wf(),
        final(registry).monitors@.contains_key(name@),
        final(registry).monitors@[name@] == handler,
        other != name@ ==> final(registry).monitors@.contains_key(other) == old(
            registry,
        ).monitors@.contains_key(other) && final(registry).monitors@[other] == old(
            registry,
        ).monitors@[other],
        final(registry).data_items@ == old(registry).data_items@,
        final(registry).executors@ == old(registry).executors@,
        final(registry).conditions@ == old(registry).conditions@,
{
    assert(final(registry)@.monitors == final(registry).monitors@);
    assert(old(registry)@.monitors == old(registry).monitors@);
}

/// A table gives back the handler that was put under a name, and has names only of handlers that
/// were.
pub proof fn law_table_asked<T>(
    table: &HandlerTable<T>,
    name: &str,
    found: Option<&T>,
    has: bool,
    names: Vec<String>,
)
    requires
        call_ensures(HandlerTable::<T>::get, (table, name), found),
        call_ensures(HandlerTable::<T>::contains_key, (table, name), has),
        call_ensures(HandlerTable::<T>::names, (table,), names),
    ensures
        has <==> table@.contains_key(name@),
        found is Some <==> table@.contains_key(name@),
        found is Some ==> *found->0 == table@[name@],
        has <==> (exists|i: int| 0 <= i < names@.len() && #[trigger] names@[i]@ == name@),
        forall|i: int, j: int|
            0 <= i < j < names@.len() ==> #[trigger] names@[i]@ != #[trigger] names@[j]@,
{
    let listed = texts(names@);
    assert(listed.to_set().contains(name@) == table@.dom().contains(name@));
    if has {
        let i = choose|i: int| 0 <= i < listed.len() && listed[i] == name@;
        assert(names@[i]@ == name@);
    }
    assert forall|i: int| 0 <= i < names@.len() && #[trigger] names@[i]@ == name@ implies has by {
        assert(listed[i] == name@);
    }
    assert forall|i: int, j: int| 0 <= i < j < names@.len() implies #[trigger] names@[i]@
        != #[trigger] names@[j]@ by {
        assert(listed[i] != listed[j]);
    }
}

/// The messages, whatever the name and the types are. A category is shown by its own word, and an
/// optional type as `Some` of its text or `None`.
pub proof fn law_messages(
    category: SymbolCategory,
    name: &str,
    declared: &str,
    defined: &Option<TypeSpec>,
    missing: String,
    undefined: String,
    mismatch: String,
    shown: String,
)
    requires
        call_ensures(write_missing, (category, name), missing),
        call_ensures(write_undefined, (category, name), undefined),
        call_ensures(write_mismatch, (category, name, declared, defined), mismatch),
        call_ensures(show_option, (defined,), shown),
    ensures
        ({
            let word = match category {
                SymbolCategory::DataItem => "DataItem"@,
                SymbolCategory::Executor => "Executor"@,
                SymbolCategory::Condition => "Condition"@,
                SymbolCategory::Monitor => "Monitor"@,
            };
            &&& missing@ == word + " '"@ + name@
                + "' defined in symbol table but not implemented"@
            &&& undefined@ == word + " '"@ + name@
                + "' implemented but not defined in symbol table"@
            &&& mismatch@ == word + " '"@ + name@ + "': return type mismatch — impl declares "@
                + declared@ + ", symbol table says "@ + shown@
            &&& shown@ == match defined {
                Some(t) => "Some("@ + t.text@ + ")"@,
                None => "None"@,
            }
        }),
{
}

/// A type has the text that it was made of. Two types are the same exactly if their texts are, and
/// two optional types if both are none, or both types that are the same.
pub proof fn law_types(
    text: &str,
    made: TypeSpec,
    a: &TypeSpec,
    b: &TypeSpec,
    same: bool,
    x: &Option<TypeSpec>,
    y: &Option<TypeSpec>,
    same_option: bool,
)
    requires
        call_ensures(TypeSpec::new, (text,), made),
        call_ensures(TypeSpec::same, (a, b), same),
        call_ensures(TypeSpec::same_option, (x, y), same_option),
    ensures
        made.text@ == text@,
        same <==> a.text@ == b.text@,
        same_option <==> match (x, y) {
            (Some(s), Some(t)) => s.text@ == t.text@,
            (None, None) => true,
            _ => false,
        },
{
}

/// Whether the first symbol of a name and category is the one at `i`.
pub open spec fn stands_first(
    symbols: Seq<SymbolMetadata>,
    name: Seq<char>,
    category: SymbolCategory,
    i: int,
) -> bool {
    &&& 0 <= i < symbols.len()
    &&& symbols[i].category == category
    &&& symbols[i].name@ == name
    &&& forall|j: int|
        0 <= j < i ==> !((#[trigger] symbols[j]).category == category && symbols[j].name@ == name)
}

/// Where a first symbol of a name and category stands, it is the one that is found; where there is
/// none, none is.
proof fn lemma_first_symbol(
    symbols: Seq<SymbolMetadata>,
    name: Seq<char>,
    category: SymbolCategory,
)
    ensures
        match symbol_named(symbols.map_values(|m: SymbolMetadata| m@), name, category) {
            Some(found) => exists|i: int| #[trigger]
                stands_first(symbols, name, category, i) && found == symbols[i]@,
            None => forall|j: int|
                0 <= j < symbols.len() ==> !((#[trigger] symbols[j]).category == category
                    && symbols[j].name@ == name),
        },
    decreases symbols.len(),
{
    if symbols.len() > 0 {
        let head = symbols.drop_last();
        let views = symbols.map_values(|m: SymbolMetadata| m@);
        let n = symbols.len() - 1;
        lemma_first_symbol(head, name, category);
        assert(views.drop_last() =~= head.map_values(|m: SymbolMetadata| m@));
        assert(views.last() == symbols[n]@);
        assert(forall|j: int| 0 <= j < n ==> #[trigger] symbols[j] == head[j]);
        match symbol_named(views.drop_last(), name, category) {
            Some(found) => {
                let i = choose|i: int| #[trigger]
                    stands_first(head, name, category, i) && found == head[i]@;
                assert(stands_first(symbols, name, category, i));
            },
            None => {
                assert forall|j: int| 0 <= j < n implies !((#[trigger] symbols[j]).category
                    == category && symbols[j].name@ == name) by {
                    assert(symbols[j] == head[j]);
                }
                if symbols[n].category == category && symbols[n].name@ == name {
                    assert(stands_first(symbols, name, category, n));
                }
            },
        }
    }
}

/// There is only one first symbol of a name and category.
proof fn lemma_is_first_symbol(
    symbols: Seq<SymbolMetadata>,
    name: Seq<char>,
    category: SymbolCategory,
    i: int,
)
    requires
        stands_first(symbols, name, category, i),
    ensures
        symbol_named(symbols.map_values(|m: SymbolMetadata| m@), name, category) == Some(
            symbols[i]@,
        ),
{
    let views = symbols.map_values(|m: SymbolMetadata| m@);
    lemma_first_symbol(symbols, name, category);
    assert(symbols[i].category == category);
    let k = choose|k: int| #[trigger]
        stands_first(symbols, name, category, k) && symbol_named(views, name, category)->0
            == symbols[k]@;
    assert(symbols[k].category == category);
    assert(k == i);
}

/// The symbol that is looked up is the first of its name and category; where there is none, none is
/// found.
pub proof fn law_symbol_looked_up(
    table: &SymbolRegistry,
    name: &str,
    category: SymbolCategory,
    found: Option<&SymbolMetadata>,
    first: int,
)
    requires
        call_ensures(SymbolRegistry::lookup, (table, name, category), found),
    ensures
        ({
            let symbols = table.symbols@;
            &&& (forall|j: int|
                0 <= j < symbols.len() ==> !((#[trigger] symbols[j]).category == category
                    && symbols[j].name@ == name@)) ==> found is None
            &&& 0 <= first < symbols.len() && symbols[first].category == category
                && symbols[first].name@ == name@ && (forall|j: int|
                0 <= j < first ==> !((#[trigger] symbols[j]).category == category
                    && symbols[j].name@ == name@)) ==> {
                &&& found is Some
                &&& found->0.name@ == name@
                &&& found->0.category == category
                &&& match (found->0.returns, symbols[first].returns) {
                    (Some(a), Some(b)) => a.text@ == b.text@,
                    (None, None) => true,
                    _ => false,
                }
            }
        }),
{
    let symbols = table.symbols@;
    lemma_first_symbol(symbols, name@, category);
    if stands_first(symbols, name@, category, first) {
        lemma_is_first_symbol(symbols, name@, category, first);
    }
}

/// What a category's part of the agreement is, symbol by symbol and name by name.
proof fn lemma_category_written_out<D, E, C, M>(
    registry: RegistryView<D, E, C, M>,
    category: SymbolCategory,
    symbols: Seq<SymbolMetadata>,
    answers: Answers,
)
    ensures
        registry.category_consistent(
            category,
            symbols.map_values(|m: SymbolMetadata| m@),
            answers,
        ) <==> {
            &&& forall|i: int|
                0 <= i < symbols.len() && (#[trigger] symbols[i]).category == category
                    ==> registry.implemented(category).contains(symbols[i].name@)
            &&& forall|name: Seq<char>| #[trigger]
                registry.implemented(category).contains(name) ==> exists|i: int| #[trigger]
                    stands_first(symbols, name, category, i) && answers.declared(category)(
                        name,
                    ).agrees(type_text(symbols[i].returns))
        },
{
    let views = symbols.map_values(|m: SymbolMetadata| m@);
    let have = registry.implemented(category);
    let declared = answers.declared(category);
    assert forall|name: Seq<char>| #[trigger] have.contains(name) implies ({
        &&& symbol_named(views, name, category) is Some
        &&& declared(name).agrees(symbol_named(views, name, category)->0.returns)
    } <==> exists|i: int| #[trigger]
        stands_first(symbols, name, category, i) && declared(name).agrees(
            type_text(symbols[i].returns),
        )) by {
        lemma_first_symbol(symbols, name, category);
        if exists|i: int| #[trigger]
            stands_first(symbols, name, category, i) && declared(name).agrees(
                type_text(symbols[i].returns),
            ) {
            let i = choose|i: int| #[trigger]
                stands_first(symbols, name, category, i) && declared(name).agrees(
                    type_text(symbols[i].returns),
                );
            lemma_is_first_symbol(symbols, name, category, i);
        }
    }
    assert((forall|i: int|
        0 <= i < symbols.len() && (#[trigger] symbols[i]).category == category ==> have.contains(
            symbols[i].name@,
        )) <==> (forall|i: int|
        0 <= i < views.len() && #[trigger] views[i].category == category ==> have.contains(
            views[i].name,
        ))) by {
        assert(forall|i: int| 0 <= i < symbols.len() ==> #[trigger] views[i] == symbols[i]@);
        if forall|i: int|
            0 <= i < views.len() && #[trigger] views[i].category == category ==> have.contains(
                views[i].name,
            ) {
            assert forall|i: int| 0 <= i < symbols.len() && (#[trigger] symbols[i]).category
                == category implies have.contains(symbols[i].name@) by {
                assert(views[i].category == category);
            }
        }
    }
}

/// A registry is accepted exactly if every defined symbol has a handler of its category, every
/// handler the first symbol of its name and category, and that symbol returns what the handler
/// declared: for a data item a value of just that type, for an executor a value of just that type
/// or, where it declared none, nothing. What the handlers declared is something that they may
/// declare.
pub proof fn law_accepted<D: DataItemHandler, E: ExecutorHandler, C, M>(
    registry: &RuntimeRegistry<D, E, C, M>,
    table: &SymbolRegistry,
    outcome: Result<(), Vec<String>>,
)
    requires
        call_ensures(
            RuntimeRegistry::<D, E, C, M>::validate_against,
            (registry, table),
            outcome,
        ),
    ensures
        exists|answers: Answers|
            #![trigger registry@.may_answer(table@, answers)]
            {
                let symbols = table.symbols@;
                &&& forall|name: Seq<char>, i: int|
                    #![trigger registry.data_items@.contains_key(name), symbols[i]]
                    registry.data_items@.contains_key(name) && 0 <= i < symbols.len()
                        && symbols[i].category == SymbolCategory::DataItem && symbols[i].name@
                        == name ==> registry.data_items@[name].may_declare(answers.data_items[name])
                &&& forall|name: Seq<char>, i: int|
                    #![trigger registry.executors@.contains_key(name), symbols[i]]
                    registry.executors@.contains_key(name) && 0 <= i < symbols.len()
                        && symbols[i].category == SymbolCategory::Executor && symbols[i].name@
                        == name ==> registry.executors@[name].may_declare(answers.executors[name])
                &&& outcome is Ok <==> {
                    &&& forall|i: int|
                        0 <= i < symbols.len() ==> match (#[trigger] symbols[i]).category {
                            SymbolCategory::DataItem => registry.data_items@.contains_key(
                                symbols[i].name@,
                            ),
                            SymbolCategory::Executor => registry.executors@.contains_key(
                                symbols[i].name@,
                            ),
                            SymbolCategory::Condition => registry.conditions@.contains_key(
                                symbols[i].name@,
                            ),
                            SymbolCategory::Monitor => registry.monitors@.contains_key(
                                symbols[i].name@,
                            ),
                        }
                    &&& forall|name: Seq<char>| #[trigger]
                        registry.data_items@.contains_key(name) ==> exists|i: int| #[trigger]
                            stands_first(symbols, name, SymbolCategory::DataItem, i)
                                && symbols[i].returns is Some && symbols[i].returns->0.text@
                                == answers.data_items[name]
                    &&& forall|name: Seq<char>| #[trigger]
                        registry.executors@.contains_key(name) ==> exists|i: int| #[trigger]
                            stands_first(symbols, name, SymbolCategory::Executor, i) && match (
                                symbols[i].returns,
                                answers.executors[name],
                            ) {
                                (Some(defined), Some(declared)) => defined.text@ == declared,
                                (None, None) => true,
                                _ => false,
                            }
                    &&& forall|name: Seq<char>| #[trigger]
                        registry.conditions@.contains_key(name) ==> exists|i: int| #[trigger]
                            stands_first(symbols, name, SymbolCategory::Condition, i)
                    &&& forall|name: Seq<char>| #[trigger]
                        registry.monitors@.contains_key(name) ==> exists|i: int| #[trigger]
                            stands_first(symbols, name, SymbolCategory::Monitor, i)
                }
            },
{
    let symbols = table.symbols@;
    let (walk, answers) = choose|walk: RegistryWalk, answers: Answers|
        #![trigger registry@.errors(table@, walk, answers)]
        registry@.walked_by(walk) && registry@.may_answer(table@, answers) && reports(
            outcome,
            registry@.errors(table@, walk, answers),
        ) && (outcome is Ok <==> registry@.consistent(table@, answers));
    lemma_category_written_out(registry@, SymbolCategory::DataItem, symbols, answers);
    lemma_category_written_out(registry@, SymbolCategory::Executor, symbols, answers);
    lemma_category_written_out(registry@, SymbolCategory::Condition, symbols, answers);
    lemma_category_written_out(registry@, SymbolCategory::Monitor, symbols, answers);
    lemma_asked(registry, table, answers);
    assert(registry@.may_answer(table@, answers));
}

/// Handlers whose symbol is defined have answered something that they may declare.
proof fn lemma_asked<D: DataItemHandler, E: ExecutorHandler, C, M>(
    registry: &RuntimeRegistry<D, E, C, M>,
    table: &SymbolRegistry,
    answers: Answers,
)
    requires
        registry@.may_answer(table@, answers),
    ensures
        ({
            let symbols = table.symbols@;
            &&& forall|name: Seq<char>, i: int|
                #![trigger registry.data_items@.contains_key(name), symbols[i]]
                registry.data_items@.contains_key(name) && 0 <= i < symbols.len()
                    && symbols[i].category == SymbolCategory::DataItem && symbols[i].name@ == name
                    ==> registry.data_items@[name].may_declare(answers.data_items[name])
            &&& forall|name: Seq<char>, i: int|
                #![trigger registry.executors@.contains_key(name), symbols[i]]
                registry.executors@.contains_key(name) && 0 <= i < symbols.len()
                    && symbols[i].category == SymbolCategory::Executor && symbols[i].name@ == name
                    ==> registry.executors@[name].may_declare(answers.executors[name])
        }),
{
    let symbols = table.symbols@;
    assert forall|name: Seq<char>, i: int|
        #![trigger registry.data_items@.contains_key(name), symbols[i]]
        registry.data_items@.contains_key(name) && 0 <= i < symbols.len() && symbols[i].category
            == SymbolCategory::DataItem && symbols[i].name@
            == name implies registry.data_items@[name].may_declare(answers.data_items[name]) by {
        lemma_first_symbol(symbols, name, SymbolCategory::DataItem);
        assert(registry@.data_items.contains_key(name));
    }
    assert forall|name: Seq<char>, i: int|
        #![trigger registry.executors@.contains_key(name), symbols[i]]
        registry.executors@.contains_key(name) && 0 <= i < symbols.len() && symbols[i].category
            == SymbolCategory::Executor && symbols[i].name@
            == name implies registry.executors@[name].may_declare(answers.executors[name]) by {
        lemma_first_symbol(symbols, name, SymbolCategory::Executor);
        assert(registry@.executors.contains_key(name));
    }
}

/// What is to be reported of a handler is among what is reported.
proof fn lemma_handler_listed(
    category: SymbolCategory,
    symbols: Seq<SymbolView>,
    walk: Seq<Seq<char>>,
    k: int,
    declared: spec_fn(Seq<char>) -> Declaration,
)
    requires
        0 <= k < walk.len(),
    ensures
        handler_error(category, symbols, walk[k], declared(walk[k])) matches Some(message)
            ==> handler_errors(category, symbols, walk, declared).contains(message),
    decreases walk.len(),
{
    let head = walk.drop_last();
    let before = handler_errors(category, symbols, head, declared);
    let all = handler_errors(category, symbols, walk, declared);
    if k < head.len() {
        lemma_handler_listed(category, symbols, head, k, declared);
        assert(head[k] == walk[k]);
        if let Some(message) = handler_error(category, symbols, walk[k], declared(walk[k])) {
            let i = choose|i: int| 0 <= i < before.len() && before[i] == message;
            assert(all[i] == message);
        }
    } else if let Some(message) = handler_error(category, symbols, walk[k], declared(walk[k])) {
        assert(all[before.len() as int] == message);
    }
}

/// A symbol without a handler is among what is reported.
proof fn lemma_missing_listed(
    category: SymbolCategory,
    symbols: Seq<SymbolView>,
    implemented: Set<Seq<char>>,
    i: int,
)
    requires
        0 <= i < symbols.len(),
        symbols[i].category == category,
        !implemented.contains(symbols[i].name),
    ensures
        missing_errors(category, symbols_in(symbols, category), implemented).contains(
            missing_message(category, symbols[i].name),
        ),
    decreases symbols.len(),
{
    reveal(Seq::filter);
    let head = symbols.drop_last();
    let last = symbols.last();
    let message = missing_message(category, symbols[i].name);
    let before = missing_errors(category, symbols_in(head, category), implemented);
    let all = missing_errors(category, symbols_in(symbols, category), implemented);
    if last.category == category {
        assert(symbols_in(symbols, category).drop_last() =~= symbols_in(head, category));
    }
    if i < head.len() {
        assert(head[i] == symbols[i]);
        lemma_missing_listed(category, head, implemented, i);
        let k = choose|k: int| 0 <= k < before.len() && before[k] == message;
        assert(all[k] == message);
    } else {
        assert(all[before.len() as int] == message);
    }
}

/// What is to be reported of a category is among the messages.
proof fn lemma_listed<D, E, C, M>(
    registry: RegistryView<D, E, C, M>,
    category: SymbolCategory,
    symbols: Seq<SymbolView>,
    walk: RegistryWalk,
    answers: Answers,
    outcome: Result<(), Vec<String>>,
)
    requires
        reports(outcome, registry.errors(symbols, walk, answers)),
    ensures
        forall|message: Seq<char>| #[trigger]
            handler_errors(
                category,
                symbols,
                walk.names(category),
                answers.declared(category),
            ).contains(message) ==> outcome is Err && exists|k: int|
                0 <= k < outcome->Err_0@.len() && #[trigger] outcome->Err_0@[k]@ == message,
        forall|message: Seq<char>| #[trigger]
            missing_errors(
                category,
                symbols_in(symbols, category),
                registry.implemented(category),
            ).contains(message) ==> outcome is Err && exists|k: int|
                0 <= k < outcome->Err_0@.len() && #[trigger] outcome->Err_0@[k]@ == message,
{
    let a = registry.category_errors(SymbolCategory::DataItem, symbols, walk, answers);
    let b = registry.category_errors(SymbolCategory::Executor, symbols, walk, answers);
    let c = registry.category_errors(SymbolCategory::Condition, symbols, walk, answers);
    let all = registry.errors(symbols, walk, answers);
    let missing = missing_errors(
        category,
        symbols_in(symbols, category),
        registry.implemented(category),
    );
    let handlers = handler_errors(
        category,
        symbols,
        walk.names(category),
        answers.declared(category),
    );
    let part = registry.category_errors(category, symbols, walk, answers);
    let from: int = match category {
        SymbolCategory::DataItem => 0,
        SymbolCategory::Executor => a.len() as int,
        SymbolCategory::Condition => (a.len() + b.len()) as int,
        SymbolCategory::Monitor => (a.len() + b.len() + c.len()) as int,
    };
    assert forall|i: int| 0 <= i < part.len() implies #[trigger] part[i] == all[from + i] by {}
    assert forall|message: Seq<char>| #[trigger] handlers.contains(message) implies outcome is Err
        && exists|k: int|
        0 <= k < outcome->Err_0@.len() && #[trigger] outcome->Err_0@[k]@ == message by {
        let i = choose|i: int| 0 <= i < handlers.len() && handlers[i] == message;
        let k = from + missing.len() + i;
        assert(part[missing.len() + i] == message);
        assert(texts(outcome->Err_0@)[k] == outcome->Err_0@[k]@);
    }
    assert forall|message: Seq<char>| #[trigger] missing.contains(message) implies outcome is Err
        && exists|k: int|
        0 <= k < outcome->Err_0@.len() && #[trigger] outcome->Err_0@[k]@ == message by {
        let i = choose|i: int| 0 <= i < missing.len() && missing[i] == message;
        assert(part[i] == message);
        assert(texts(outcome->Err_0@)[from + i] == outcome->Err_0@[from + i]@);
    }
}

/// An executor is held to the return type of its symbol: the registry is accepted only if the
/// handler declared the same, both nothing or both a type of the same text. Otherwise there is a
/// message that shows both.
pub proof fn law_executor_held_to_type<D: DataItemHandler, E: ExecutorHandler, C, M>(
    registry: &RuntimeRegistry<D, E, C, M>,
    table: &SymbolRegistry,
    outcome: Result<(), Vec<String>>,
    name: Seq<char>,
    first: int,
)
    requires
        call_ensures(
            RuntimeRegistry::<D, E, C, M>::validate_against,
            (registry, table),
            outcome,
        ),
        registry.executors@.contains_key(name),
        0 <= first < table.symbols@.len(),
        table.symbols@[first].category == SymbolCategory::Executor,
        table.symbols@[first].name@ == name,
        forall|j: int|
            0 <= j < first ==> !((#[trigger] table.symbols@[j]).category
                == SymbolCategory::Executor && table.symbols@[j].name@ == name),
    ensures
        exists|declared: Option<Seq<char>>|
            {
                let defined = table.symbols@[first].returns;
                let equal = match (defined, declared) {
                    (Some(d), Some(t)) => d.text@ == t,
                    (None, None) => true,
                    _ => false,
                };
                let shown = match defined {
                    Some(t) => "Some("@ + t.text@ + ")"@,
                    None => "None"@,
                };
                &&& #[trigger] registry.executors@[name].may_declare(declared)
                &&& outcome is Ok ==> equal
                &&& !equal ==> outcome is Err && exists|k: int|
                    0 <= k < outcome->Err_0@.len() && #[trigger] outcome->Err_0@[k]@ == "Executor"@
                        + " '"@ + name + "': return type mismatch — impl declares "@ + (match declared {
                        Some(t) => "Some("@ + t + ")"@,
                        None => "None"@,
                    })
                        + ", symbol table says "@ + shown
            },
{
    let category = SymbolCategory::Executor;
    let (walk, answers) = choose|walk: RegistryWalk, answers: Answers|
        #![trigger registry@.errors(table@, walk, answers)]
        registry@.walked_by(walk) && registry@.may_answer(table@, answers) && reports(
            outcome,
            registry@.errors(table@, walk, answers),
        ) && (outcome is Ok <==> registry@.consistent(table@, answers));
    assert(stands_first(table.symbols@, name, category, first));
    lemma_is_first_symbol(table.symbols@, name, category, first);
    assert(registry@.executors.contains_key(name));
    let declared = answers.executors[name];
    assert(registry.executors@[name].may_declare(declared));
    let names = walk.names(category);
    assert(is_walk(names, registry@.implemented(category)));
    assert(names.to_set().contains(name));
    let k = choose|k: int| 0 <= k < names.len() && names[k] == name;
    lemma_handler_listed(category, table@, names, k, answers.declared(category));
    lemma_listed(registry@, category, table@, walk, answers, outcome);
}

/// A data item is held to the return type of its symbol: the registry is accepted only if the
/// symbol returns a type of the text that the handler declared. Otherwise there is a message that
/// shows both.
pub proof fn law_data_item_held_to_type<D: DataItemHandler, E: ExecutorHandler, C, M>(
    registry: &RuntimeRegistry<D, E, C, M>,
    table: &SymbolRegistry,
    outcome: Result<(), Vec<String>>,
    name: Seq<char>,
    first: int,
)
    requires
        call_ensures(
            RuntimeRegistry::<D, E, C, M>::validate_against,
            (registry, table),
            outcome,
        ),
        registry.data_items@.contains_key(name),
        0 <= first < table.symbols@.len(),
        table.symbols@[first].category == SymbolCategory::DataItem,
        table.symbols@[first].name@ == name,
        forall|j: int|
            0 <= j < first ==> !((#[trigger] table.symbols@[j]).category
                == SymbolCategory::DataItem && table.symbols@[j].name@ == name),
    ensures
        exists|declared: Seq<char>|
            {
                let defined = table.symbols@[first].returns;
                let equal = match defined {
                    Some(d) => d.text@ == declared,
                    None => false,
                };
                let shown = match defined {
                    Some(t) => "Some("@ + t.text@ + ")"@,
                    None => "None"@,
                };
                &&& #[trigger] registry.data_items@[name].may_declare(declared)
                &&& outcome is Ok ==> equal
                &&& !equal ==> outcome is Err && exists|k: int|
                    0 <= k < outcome->Err_0@.len() && #[trigger] outcome->Err_0@[k]@ == "DataItem"@
                        + " '"@ + name + "': return type mismatch — impl declares "@ + declared
                        + ", symbol table says "@ + shown
            },
{
    let category = SymbolCategory::DataItem;
    let (walk, answers) = choose|walk: RegistryWalk, answers: Answers|
        #![trigger registry@.errors(table@, walk, answers)]
        registry@.walked_by(walk) && registry@.may_answer(table@, answers) && reports(
            outcome,
            registry@.errors(table@, walk, answers),
        ) && (outcome is Ok <==> registry@.consistent(table@, answers));
    assert(stands_first(table.symbols@, name, category, first));
    lemma_is_first_symbol(table.symbols@, name, category, first);
    assert(registry@.data_items.contains_key(name));
    let declared = answers.data_items[name];
    assert(registry.data_items@[name].may_declare(declared));
    let names = walk.names(category);
    assert(is_walk(names, registry@.implemented(category)));
    assert(names.to_set().contains(name));
    let k = choose|k: int| 0 <= k < names.len() && names[k] == name;
    lemma_handler_listed(category, table@, names, k, answers.declared(category));
    lemma_listed(registry@, category, table@, walk, answers, outcome);
}

/// A symbol without a handler of its category is reported, whatever else there is.
pub proof fn law_missing_is_reported<D: DataItemHandler, E: ExecutorHandler, C, M>(
    registry: &RuntimeRegistry<D, E, C, M>,
    table: &SymbolRegistry,
    outcome: Result<(), Vec<String>>,
    i: int,
)
    requires
        call_ensures(
            RuntimeRegistry::<D, E, C, M>::validate_against,
            (registry, table),
            outcome,
        ),
        0 <= i < table.symbols@.len(),
        match table.symbols@[i].category {
            SymbolCategory::DataItem => !registry.data_items@.contains_key(
                table.symbols@[i].name@,
            ),
            SymbolCategory::Executor => !registry.executors@.contains_key(table.symbols@[i].name@),
            SymbolCategory::Condition => !registry.conditions@.contains_key(
                table.symbols@[i].name@,
            ),
            SymbolCategory::Monitor => !registry.monitors@.contains_key(table.symbols@[i].name@),
        },
    ensures
        ({
            let word = match table.symbols@[i].category {
                SymbolCategory::DataItem => "DataItem"@,
                SymbolCategory::Executor => "Executor"@,
                SymbolCategory::Condition => "Condition"@,
                SymbolCategory::Monitor => "Monitor"@,
            };
            outcome is Err && exists|k: int|
                0 <= k < outcome->Err_0@.len() && #[trigger] outcome->Err_0@[k]@ == word + " '"@
                    + table.symbols@[i].name@ + "' defined in symbol table but not implemented"@
        }),
{
    let category = table.symbols@[i].category;
    let (walk, answers) = choose|walk: RegistryWalk, answers: Answers|
        #![trigger registry@.errors(table@, walk, answers)]
        registry@.walked_by(walk) && registry@.may_answer(table@, answers) && reports(
            outcome,
            registry@.errors(table@, walk, answers),
        ) && (outcome is Ok <==> registry@.consistent(table@, answers));
    assert(table@[i] == table.symbols@[i]@);
    lemma_missing_listed(category, table@, registry@.implemented(category), i);
    lemma_listed(registry@, category, table@, walk, answers, outcome);
}

/// A handler without a symbol of its category is reported, whatever else there is.
pub proof fn law_undefined_is_reported<D: DataItemHandler, E: ExecutorHandler, C, M>(
    registry: &RuntimeRegistry<D, E, C, M>,
    table: &SymbolRegistry,
    outcome: Result<(), Vec<String>>,
    category: SymbolCategory,
    name: Seq<char>,
)
    requires
        call_ensures(
            RuntimeRegistry::<D, E, C, M>::validate_against,
            (registry, table),
            outcome,
        ),
        match category {
            SymbolCategory::DataItem => registry.data_items@.contains_key(name),
            SymbolCategory::Executor => registry.executors@.contains_key(name),
            SymbolCategory::Condition => registry.conditions@.contains_key(name),
            SymbolCategory::Monitor => registry.monitors@.contains_key(name),
        },
        forall|j: int|
            0 <= j < table.symbols@.len() ==> !((#[trigger] table.symbols@[j]).category == category
                && table.symbols@[j].name@ == name),
    ensures
        ({
            let word = match category {
                SymbolCategory::DataItem => "DataItem"@,
                SymbolCategory::Executor => "Executor"@,
                SymbolCategory::Condition => "Condition"@,
                SymbolCategory::Monitor => "Monitor"@,
            };
            outcome is Err && exists|k: int|
                0 <= k < outcome->Err_0@.len() && #[trigger] outcome->Err_0@[k]@ == word + " '"@
                    + name + "' implemented but not defined in symbol table"@
        }),
{
    let (walk, answers) = choose|walk: RegistryWalk, answers: Answers|
        #![trigger registry@.errors(table@, walk, answers)]
        registry@.walked_by(walk) && registry@.may_answer(table@, answers) && reports(
            outcome,
            registry@.errors(table@, walk, answers),
        ) && (outcome is Ok <==> registry@.consistent(table@, answers));
    lemma_first_symbol(table.symbols@, name, category);
    let names = walk.names(category);
    assert(is_walk(names, registry@.implemented(category)));
    assert(registry@.implemented(category).contains(name));
    assert(names.to_set().contains(name));
    let k = choose|k: int| 0 <= k < names.len() && names[k] == name;
    lemma_handler_listed(category, table@, names, k, answers.declared(category));
    lemma_listed(registry@, category, table@, walk, answers, outcome);
}

/// A line for each symbol of a category whose name is not among `have`, in the order of the table.
pub open spec fn missing_lines(
    word: Seq<char>,
    category: SymbolCategory,
    symbols: Seq<SymbolMetadata>,
    have: Set<Seq<char>>,
) -> Seq<Seq<char>> {
    symbols.filter(
        |m: SymbolMetadata| m.category == category && !have.contains(m.name@),
    ).map_values(
        |m: SymbolMetadata|
            word + " '"@ + m.name@ + "' defined in symbol table but not implemented"@,
    )
}

/// The symbols of a name and category, in the order of the table.
pub open spec fn namesakes(
    symbols: Seq<SymbolMetadata>,
    name: Seq<char>,
    category: SymbolCategory,
) -> Seq<SymbolMetadata> {
    symbols.filter(|m: SymbolMetadata| m.category == category && m.name@ == name)
}

/// A line for each handler of a category that has no symbol, or whose first symbol does not return
/// what is `agreed`, in the order of `walk`. The types are shown as `shown` and as `Some` or
/// `None`.
pub open spec fn handler_lines(
    word: Seq<char>,
    category: SymbolCategory,
    symbols: Seq<SymbolMetadata>,
    walk: Seq<String>,
    agreed: spec_fn(Seq<char>, Option<TypeSpec>) -> bool,
    shown: spec_fn(Seq<char>) -> Seq<char>,
) -> Seq<Seq<char>> {
    walk.filter(
        |n: String|
            namesakes(symbols, n@, category).len() == 0 || !agreed(
                n@,
                namesakes(symbols, n@, category)[0].returns,
            ),
    ).map_values(
        |n: String|
            if namesakes(symbols, n@, category).len() == 0 {
                word + " '"@ + n@ + "' implemented but not defined in symbol table"@
            } else {
                word + " '"@ + n@ + "': return type mismatch — impl declares "@ + shown(n@)
                    + ", symbol table says "@ + match namesakes(symbols, n@, category)[0].returns {
                    Some(t) => "Some("@ + t.text@ + ")"@,
                    None => "None"@,
                }
            },
    )
}

/// All lines of a report: data items, executors, conditions and monitors, in this order, and of
/// each first the missing handlers, then what is wrong with those there are.
pub open spec fn all_lines<D, E, C, M>(
    registry: &RuntimeRegistry<D, E, C, M>,
    table: &SymbolRegistry,
    walk: RegistryWalk,
    answers: Answers,
) -> Seq<Seq<char>> {
    let symbols = table.symbols@;
    missing_lines("DataItem"@, SymbolCategory::DataItem, symbols, registry.data_items@.dom())
        + handler_lines(
        "DataItem"@,
        SymbolCategory::DataItem,
        symbols,
        walk.data_items@,
        |name: Seq<char>, defined: Option<TypeSpec>|
            defined is Some && defined->0.text@ == answers.data_items[name],
        |name: Seq<char>| answers.data_items[name],
    ) + missing_lines("Executor"@, SymbolCategory::Executor, symbols, registry.executors@.dom())
        + handler_lines(
        "Executor"@,
        SymbolCategory::Executor,
        symbols,
        walk.executors@,
        |name: Seq<char>, defined: Option<TypeSpec>|
            match (defined, answers.executors[name]) {
                (Some(d), Some(t)) => d.text@ == t,
                (None, None) => true,
                _ => false,
            },
        |name: Seq<char>|
            match answers.executors[name] {
                Some(t) => "Some("@ + t + ")"@,
                None => "None"@,
            },
    ) + missing_lines("Condition"@, SymbolCategory::Condition, symbols, registry.conditions@.dom())
        + handler_lines(
        "Condition"@,
        SymbolCategory::Condition,
        symbols,
        walk.conditions@,
        |name: Seq<char>, defined: Option<TypeSpec>| true,
        |name: Seq<char>| Seq::empty(),
    ) + missing_lines("Monitor"@, SymbolCategory::Monitor, symbols, registry.monitors@.dom())
        + handler_lines(
        "Monitor"@,
        SymbolCategory::Monitor,
        symbols,
        walk.monitors@,
        |name: Seq<char>, defined: Option<TypeSpec>| true,
        |name: Seq<char>| Seq::empty(),
    )
}

/// The symbol that is found is the first of its namesakes.
proof fn lemma_first_namesake(
    symbols: Seq<SymbolMetadata>,
    name: Seq<char>,
    category: SymbolCategory,
)
    ensures
        symbol_named(symbols.map_values(|m: SymbolMetadata| m@), name, category) == (
        if namesakes(symbols, name, category).len() == 0 {
            None
        } else {
            Some(namesakes(symbols, name, category)[0]@)
        }),
    decreases symbols.len(),
{
    reveal(Seq::filter);
    if symbols.len() > 0 {
        let head = symbols.drop_last();
        let views = symbols.map_values(|m: SymbolMetadata| m@);
        lemma_first_namesake(head, name, category);
        assert(views.drop_last() =~= head.map_values(|m: SymbolMetadata| m@));
        assert(views.last() == symbols.last()@);
    }
}

/// The messages about missing handlers, symbol by symbol.
proof fn lemma_missing_lines(
    category: SymbolCategory,
    symbols: Seq<SymbolMetadata>,
    have: Set<Seq<char>>,
)
    ensures
        missing_errors(
            category,
            symbols_in(symbols.map_values(|m: SymbolMetadata| m@), category),
            have,
        ) == missing_lines(category.word(), category, symbols, have),
    decreases symbols.len(),
{
    reveal(Seq::filter);
    let views = symbols.map_values(|m: SymbolMetadata| m@);
    let word = category.word();
    let kept = |m: SymbolMetadata| m.category == category && !have.contains(m.name@);
    let line = |m: SymbolMetadata|
        word + " '"@ + m.name@ + "' defined in symbol table but not implemented"@;
    assert(missing_lines(word, category, symbols, have) == symbols.filter(kept).map_values(line));
    if symbols.len() > 0 {
        let head = symbols.drop_last();
        let last = symbols.last();
        lemma_missing_lines(category, head, have);
        assert(missing_lines(word, category, head, have) == head.filter(kept).map_values(line));
        assert(views.drop_last() =~= head.map_values(|m: SymbolMetadata| m@));
        assert(views.last() == last@);
        if last.category == category {
            assert(symbols_in(views, category).drop_last() =~= symbols_in(
                views.drop_last(),
                category,
            ));
        }
        if kept(last) {
            assert(head.filter(kept).push(last).map_values(line) =~= head.filter(
                kept,
            ).map_values(line).push(line(last)));
        }
    }
}

/// The messages about handlers, name by name.
proof fn lemma_handler_lines(
    category: SymbolCategory,
    symbols: Seq<SymbolMetadata>,
    walk: Seq<String>,
    declared: spec_fn(Seq<char>) -> Declaration,
    agreed: spec_fn(Seq<char>, Option<TypeSpec>) -> bool,
    shown: spec_fn(Seq<char>) -> Seq<char>,
)
    requires
        forall|name: Seq<char>, defined: Option<TypeSpec>| #[trigger]
            agreed(name, defined) == declared(name).agrees(type_text(defined)),
        forall|name: Seq<char>, defined: Option<TypeSpec>|
            !#[trigger] agreed(name, defined) ==> declared(name).shown() == shown(name),
    ensures
        handler_errors(
            category,
            symbols.map_values(|m: SymbolMetadata| m@),
            texts(walk),
            declared,
        ) == handler_lines(category.word(), category, symbols, walk, agreed, shown),
    decreases walk.len(),
{
    reveal(Seq::filter);
    let views = symbols.map_values(|m: SymbolMetadata| m@);
    let word = category.word();
    let bad = |n: String|
        namesakes(symbols, n@, category).len() == 0 || !agreed(
            n@,
            namesakes(symbols, n@, category)[0].returns,
        );
    let line = |n: String|
        if namesakes(symbols, n@, category).len() == 0 {
            word + " '"@ + n@ + "' implemented but not defined in symbol table"@
        } else {
            word + " '"@ + n@ + "': return type mismatch — impl declares "@ + shown(n@)
                + ", symbol table says "@ + match namesakes(symbols, n@, category)[0].returns {
                Some(t) => "Some("@ + t.text@ + ")"@,
                None => "None"@,
            }
        };
    assert(handler_lines(word, category, symbols, walk, agreed, shown) == walk.filter(
        bad,
    ).map_values(line));
    if walk.len() > 0 {
        let head = walk.drop_last();
        let last = walk.last();
        lemma_handler_lines(category, symbols, head, declared, agreed, shown);
        assert(handler_lines(word, category, symbols, head, agreed, shown) == head.filter(
            bad,
        ).map_values(line));
        lemma_first_namesake(symbols, last@, category);
        assert(texts(walk).drop_last() =~= texts(head));
        assert(texts(walk).last() == last@);
        if bad(last) {
            assert(head.filter(bad).push(last).map_values(line) =~= head.filter(bad).map_values(
                line,
            ).push(line(last)));
            assert(handler_error(category, views, last@, declared(last@)) == Some(line(last)));
        } else {
            assert(handler_error(category, views, last@, declared(last@)) is None);
        }
    }
}

/// The report that is computed is all lines.
proof fn lemma_all_lines<D, E, C, M>(
    registry: &RuntimeRegistry<D, E, C, M>,
    table: &SymbolRegistry,
    walk: RegistryWalk,
    answers: Answers,
)
    ensures
        registry@.errors(table@, walk, answers) == all_lines(registry, table, walk, answers),
{
    let symbols = table.symbols@;
    lemma_missing_lines(SymbolCategory::DataItem, symbols, registry.data_items@.dom());
    lemma_missing_lines(SymbolCategory::Executor, symbols, registry.executors@.dom());
    lemma_missing_lines(SymbolCategory::Condition, symbols, registry.conditions@.dom());
    lemma_missing_lines(SymbolCategory::Monitor, symbols, registry.monitors@.dom());
    lemma_handler_lines(
        SymbolCategory::DataItem,
        symbols,
        walk.data_items@,
        answers.declared(SymbolCategory::DataItem),
        |name: Seq<char>, defined: Option<TypeSpec>|
            defined is Some && defined->0.text@ == answers.data_items[name],
        |name: Seq<char>| answers.data_items[name],
    );
    lemma_handler_lines(
        SymbolCategory::Executor,
        symbols,
        walk.executors@,
        answers.declared(SymbolCategory::Executor),
        |name: Seq<char>, defined: Option<TypeSpec>|
            match (defined, answers.executors[name]) {
                (Some(d), Some(t)) => d.text@ == t,
                (None, None) => true,
                _ => false,
            },
        |name: Seq<char>|
            match answers.executors[name] {
                Some(t) => "Some("@ + t + ")"@,
                None => "None"@,
            },
    );
    lemma_handler_lines(
        SymbolCategory::Condition,
        symbols,
        walk.conditions@,
        answers.declared(SymbolCategory::Condition),
        |name: Seq<char>, defined: Option<TypeSpec>| true,
        |name: Seq<char>| Seq::empty(),
    );
    lemma_handler_lines(
        SymbolCategory::Monitor,
        symbols,
        walk.monitors@,
        answers.declared(SymbolCategory::Monitor),
        |name: Seq<char>, defined: Option<TypeSpec>| true,
        |name: Seq<char>| Seq::empty(),
    );
    assert(registry@.errors(table@, walk, answers) =~= all_lines(registry, table, walk, answers));
}

/// The report in full, for an order in which the handlers are gone through: it has just the lines
/// that are due, each once and in their order, and a registry of which there is none is accepted.
/// What the lines say that handlers declared is something that they may declare.
pub proof fn law_report_in_full<D: DataItemHandler, E: ExecutorHandler, C, M>(
    registry: &RuntimeRegistry<D, E, C, M>,
    table: &SymbolRegistry,
    walk: &RegistryWalk,
    outcome: Result<(), Vec<String>>,
)
    requires
        call_ensures(
            RuntimeRegistry::<D, E, C, M>::validate_in_order,
            (registry, table, walk),
            outcome,
        ),
    ensures
        exists|answers: Answers|
            #![trigger registry@.may_answer(table@, answers)]
            {
                let symbols = table.symbols@;
                &&& forall|name: Seq<char>, i: int|
                    #![trigger registry.data_items@.contains_key(name), symbols[i]]
                    registry.data_items@.contains_key(name) && 0 <= i < symbols.len()
                        && symbols[i].category == SymbolCategory::DataItem && symbols[i].name@
                        == name ==> registry.data_items@[name].may_declare(answers.data_items[name])
                &&& forall|name: Seq<char>, i: int|
                    #![trigger registry.executors@.contains_key(name), symbols[i]]
                    registry.executors@.contains_key(name) && 0 <= i < symbols.len()
                        && symbols[i].category == SymbolCategory::Executor && symbols[i].name@
                        == name ==> registry.executors@[name].may_declare(answers.executors[name])
                &&& match outcome {
                    Ok(()) => all_lines(registry, table, *walk, answers).len() == 0,
                    Err(messages) => messages@.len() > 0 && messages@.map_values(|t: String| t@)
                        == all_lines(registry, table, *walk, answers),
                }
            },
{
    let answers = choose|answers: Answers| #[trigger]
        registry@.may_answer(table@, answers) && reports(
            outcome,
            registry@.errors(table@, *walk, answers),
        ) && (outcome is Ok <==> registry@.consistent(table@, answers));
    lemma_all_lines(registry, table, *walk, answers);
    lemma_asked(registry, table, answers);
    if let Err(messages) = outcome {
        assert(messages@.map_values(|t: String| t@) =~= texts(messages@));
    }
    assert(registry@.may_answer(table@, answers));
}

/// What `validate_against` reports is the report in full, for some order that goes through each
/// handler once. What the lines say that handlers declared is something that they may declare.
pub proof fn law_report_in_some_order<D: DataItemHandler, E: ExecutorHandler, C, M>(
    registry: &RuntimeRegistry<D, E, C, M>,
    table: &SymbolRegistry,
    outcome: Result<(), Vec<String>>,
)
    requires
        call_ensures(
            RuntimeRegistry::<D, E, C, M>::validate_against,
            (registry, table),
            outcome,
        ),
    ensures
        exists|walk: RegistryWalk, answers: Answers|
            #![trigger registry@.errors(table@, walk, answers)]
            {
                &&& goes_through(walk.data_items@, registry.data_items@.dom())
                &&& goes_through(walk.executors@, registry.executors@.dom())
                &&& goes_through(walk.conditions@, registry.conditions@.dom())
                &&& goes_through(walk.monitors@, registry.monitors@.dom())
                &&& forall|name: Seq<char>, i: int|
                    #![trigger registry.data_items@.contains_key(name), table.symbols@[i]]
                    registry.data_items@.contains_key(name) && 0 <= i < table.symbols@.len()
                        && table.symbols@[i].category == SymbolCategory::DataItem
                        && table.symbols@[i].name@ == name
                        ==> registry.data_items@[name].may_declare(answers.data_items[name])
                &&& forall|name: Seq<char>, i: int|
                    #![trigger registry.executors@.contains_key(name), table.symbols@[i]]
                    registry.executors@.contains_key(name) && 0 <= i < table.symbols@.len()
                        && table.symbols@[i].category == SymbolCategory::Executor
                        && table.symbols@[i].name@ == name
                        ==> registry.executors@[name].may_declare(answers.executors[name])
                &&& match outcome {
                    Ok(()) => all_lines(registry, table, walk, answers).len() == 0,
                    Err(messages) => messages@.len() > 0 && messages@.map_values(|t: String| t@)
                        == all_lines(registry, table, walk, answers),
                }
            },
{
    let (walk, answers) = choose|walk: RegistryWalk, answers: Answers|
        #![trigger registry@.errors(table@, walk, answers)]
        registry@.walked_by(walk) && registry@.may_answer(table@, answers) && reports(
            outcome,
            registry@.errors(table@, walk, answers),
        ) && (outcome is Ok <==> registry@.consistent(table@, answers));
    lemma_all_lines(registry, table, walk, answers);
    lemma_goes_through(walk, registry@);
    lemma_asked(registry, table, answers);
    if let Err(messages) = outcome {
        assert(messages@.map_values(|t: String| t@) =~= texts(messages@));
    }
    assert(registry@.errors(table@, walk, answers) == all_lines(registry, table, walk, answers));
}

/// Whether `walk` has each of `names` once, and nothing else.
pub open spec fn goes_through(walk: Seq<String>, names: Set<Seq<char>>) -> bool {
    &&& forall|i: int, j: int|
        0 <= i < j < walk.len() ==> #[trigger] walk[i]@ != #[trigger] walk[j]@
    &&& forall|i: int| 0 <= i < walk.len() ==> names.contains(#[trigger] walk[i]@)
    &&& forall|name: Seq<char>| #[trigger]
        names.contains(name) ==> exists|i: int| 0 <= i < walk.len() && #[trigger] walk[i]@ == name
}

/// A walk that is one by its names goes through them.
proof fn lemma_walk_goes_through(walk: Seq<String>, names: Set<Seq<char>>)
    requires
        is_walk(texts(walk), names),
    ensures
        goes_through(walk, names),
{
    let listed = texts(walk);
    assert forall|i: int, j: int| 0 <= i < j < walk.len() implies #[trigger] walk[i]@
        != #[trigger] walk[j]@ by {
        assert(listed[i] != listed[j]);
    }
    assert forall|i: int| 0 <= i < walk.len() implies names.contains(#[trigger] walk[i]@) by {
        assert(listed.to_set().contains(listed[i]));
    }
    assert forall|name: Seq<char>| #[trigger] names.contains(name) implies exists|i: int|
        0 <= i < walk.len() && #[trigger] walk[i]@ == name by {
        assert(listed.to_set().contains(name));
        let i = choose|i: int| 0 <= i < listed.len() && listed[i] == name;
        assert(walk[i]@ == name);
    }
}

/// A walk of a registry goes through the names of each category.
proof fn lemma_goes_through<D, E, C, M>(walk: RegistryWalk, registry: RegistryView<D, E, C, M>)
    requires
        registry.walked_by(walk),
    ensures
        goes_through(walk.data_items@, registry.data_items.dom()),
        goes_through(walk.executors@, registry.executors.dom()),
        goes_through(walk.conditions@, registry.conditions.dom()),
        goes_through(walk.monitors@, registry.monitors.dom()),
{
    assert(is_walk(walk.names(SymbolCategory::DataItem), registry.data_items.dom()));
    assert(is_walk(walk.names(SymbolCategory::Executor), registry.executors.dom()));
    assert(is_walk(walk.names(SymbolCategory::Condition), registry.conditions.dom()));
    assert(is_walk(walk.names(SymbolCategory::Monitor), registry.monitors.dom()));
    lemma_walk_goes_through(walk.data_items@, registry.data_items.dom());
    lemma_walk_goes_through(walk.executors@, registry.executors.dom());
    lemma_walk_goes_through(walk.conditions@, registry.conditions.dom());
    lemma_walk_goes_through(walk.monitors@, registry.monitors.dom());
}

/// The walk that a registry gives goes through the names of each category, and every walk that does
/// can be validated by.
pub proof fn law_walk_goes_through<D: DataItemHandler, E: ExecutorHandler, C, M>(
    registry: &RuntimeRegistry<D, E, C, M>,
    table: &SymbolRegistry,
    walk: RegistryWalk,
)
    requires
        registry.wf(),
        call_ensures(RuntimeRegistry::<D, E, C, M>::walk, (registry,), walk),
    ensures
        goes_through(walk.data_items@, registry.data_items@.dom()),
        goes_through(walk.executors@, registry.executors@.dom()),
        goes_through(walk.conditions@, registry.conditions@.dom()),
        goes_through(walk.monitors@, registry.monitors@.dom()),
        call_requires(
            RuntimeRegistry::<D, E, C, M>::validate_in_order,
            (registry, table, &walk),
        ),
{
    lemma_goes_through(walk, registry@);
}

/// The symbols of a category come out all, in the order of the table, with their names and return
/// types.
pub proof fn law_symbols_of_category(
    table: &SymbolRegistry,
    category: SymbolCategory,
    found: Vec<&SymbolMetadata>,
)
    requires
        call_ensures(SymbolRegistry::all_symbols, (table, category), found),
    ensures
        ({
            let due = table.symbols@.filter(|m: SymbolMetadata| m.category == category);
            &&& found@.len() == due.len()
            &&& forall|i: int|
                0 <= i < due.len() ==> (#[trigger] found@[i]).name@ == due[i].name@
                    && found@[i].category == category && match (
                    found@[i].returns,
                    due[i].returns,
                ) {
                    (Some(a), Some(b)) => a.text@ == b.text@,
                    (None, None) => true,
                    _ => false,
                }
        }),
{
    let due = table.symbols@.filter(|m: SymbolMetadata| m.category == category);
    let views = found@.map_values(|m: &SymbolMetadata| m@);
    lemma_filter_views(table.symbols@, category);
    assert forall|i: int| 0 <= i < due.len() implies (#[trigger] found@[i]).name@ == due[i].name@
        && found@[i].category == category && match (found@[i].returns, due[i].returns) {
        (Some(a), Some(b)) => a.text@ == b.text@,
        (None, None) => true,
        _ => false,
    } by {
        assert(views[i] == found@[i]@);
        table.symbols@.lemma_filter_pred(|m: SymbolMetadata| m.category == category, i);
        assert(due.map_values(|m: SymbolMetadata| m@)[i] == due[i]@);
    }
    assert(views.len() == found@.len());
}

/// Which symbols are of a category can be told before or after looking at them.
proof fn lemma_filter_views(symbols: Seq<SymbolMetadata>, category: SymbolCategory)
    ensures
        symbols_in(symbols.map_values(|m: SymbolMetadata| m@), category) == symbols.filter(
            |m: SymbolMetadata| m.category == category,
        ).map_values(|m: SymbolMetadata| m@),
    decreases symbols.len(),
{
    reveal(Seq::filter);
    let kept = |m: SymbolMetadata| m.category == category;
    let view = |m: SymbolMetadata| m@;
    if symbols.len() > 0 {
        let head = symbols.drop_last();
        let last = symbols.last();
        lemma_filter_views(head, category);
        assert(symbols.map_values(view).drop_last() =~= head.map_values(view));
        assert(symbols.map_values(view).last() == last@);
        if last.category == category {
            assert(head.filter(kept).push(last).map_values(view) =~= head.filter(kept).map_values(
                view,
            ).push(last@));
        }
    }
}

} // verus!
