//! The symbol table that a runtime registry is checked against.
use crate::text::same_text;
use vstd::prelude::*;

verus! {

/// A type of the strategy language.
///
/// A type is told apart from others, and shown in messages, by the text that stands for it.
#[derive(Clone, Debug)]
pub struct TypeSpec {
    pub text: String,
}

impl View for TypeSpec {
    type V = Seq<char>;

    open spec fn view(&self) -> Seq<char> {
        self.text@
    }
}

/// The text of an optional type.
pub open spec fn type_text(spec: Option<TypeSpec>) -> Option<Seq<char>> {
    match spec {
        Some(t) => Some(t@),
        None => None,
    }
}

impl TypeSpec {
    pub fn new(text: &str) -> (t: TypeSpec)
        ensures
            t@ == text@,
    {
        TypeSpec { text: text.to_owned() }
    }

    /// Whether two types are the same.
    pub fn same(&self, other: &TypeSpec) -> (same: bool)
        ensures
            same == (self@ == other@),
    {
        self.text == other.text
    }

    /// Whether two optional types are the same.
    pub fn same_option(a: &Option<TypeSpec>, b: &Option<TypeSpec>) -> (same: bool)
        ensures
            same == (type_text(*a) == type_text(*b)),
    {
        match (a, b) {
            (Some(s), Some(t)) => s.same(t),
            (None, None) => true,
            _ => false,
        }
    }
}

/// What a symbol of the strategy language stands for.
#[derive(Clone, Copy, Debug, PartialEq, Eq, Structural)]
pub enum SymbolCategory {
    DataItem,
    Executor,
    Condition,
    Monitor,
}

impl SymbolCategory {
    /// The word that messages use for the category.
    pub open spec fn word(self) -> Seq<char> {
        match self {
            SymbolCategory::DataItem => "DataItem"@,
            SymbolCategory::Executor => "Executor"@,
            SymbolCategory::Condition => "Condition"@,
            SymbolCategory::Monitor => "Monitor"@,
        }
    }

    pub fn name(self) -> (name: &'static str)
        ensures
            name@ == self.word(),
    {
        match self {
            SymbolCategory::DataItem => "DataItem",
            SymbolCategory::Executor => "Executor",
            SymbolCategory::Condition => "Condition",
            SymbolCategory::Monitor => "Monitor",
        }
    }
}

/// One defined symbol.
#[derive(Clone, Debug)]
pub struct SymbolMetadata {
    pub name: String,
    pub category: SymbolCategory,
    /// The type of what the symbol returns, for one that returns something.
    pub returns: Option<TypeSpec>,
}

/// A defined symbol, as contracts speak of it.
pub struct SymbolView {
    pub name: Seq<char>,
    pub category: SymbolCategory,
    pub returns: Option<Seq<char>>,
}

impl View for SymbolMetadata {
    type V = SymbolView;

    open spec fn view(&self) -> SymbolView {
        SymbolView { name: self.name@, category: self.category, returns: type_text(self.returns) }
    }
}

/// The symbols of one category, in the order in which they are defined.
pub open spec fn symbols_in(symbols: Seq<SymbolView>, category: SymbolCategory) -> Seq<SymbolView> {
    symbols.filter(|m: SymbolView| m.category == category)
}

/// The first symbol of a name and category.
pub open spec fn symbol_named(
    symbols: Seq<SymbolView>,
    name: Seq<char>,
    category: SymbolCategory,
) -> Option<SymbolView>
    decreases symbols.len(),
{
    if symbols.len() == 0 {
        None
    } else {
        match symbol_named(symbols.drop_last(), name, category) {
            Some(found) => Some(found),
            None => if symbols.last().name == name && symbols.last().category == category {
                Some(symbols.last())
            } else {
                None
            },
        }
    }
}

/// Once a symbol is found in a first part of the table, what follows does not matter.
proof fn lemma_symbol_found_early(
    symbols: Seq<SymbolView>,
    n: int,
    name: Seq<char>,
    category: SymbolCategory,
)
    requires
        0 <= n <= symbols.len(),
        symbol_named(symbols.take(n), name, category) is Some,
    ensures
        symbol_named(symbols, name, category) == symbol_named(symbols.take(n), name, category),
    decreases symbols.len(),
{
    if n == symbols.len() {
        assert(symbols.take(n) =~= symbols);
    } else {
        assert(symbols.drop_last().take(n) =~= symbols.take(n));
        lemma_symbol_found_early(symbols.drop_last(), n, name, category);
    }
}

/// A symbol that is found has the name and the category that were asked for, and is one of the
/// symbols of the category.
pub proof fn lemma_symbol_named(symbols: Seq<SymbolView>, name: Seq<char>, category: SymbolCategory)
    ensures
        match symbol_named(symbols, name, category) {
            Some(m) => m.name == name && m.category == category && symbols.contains(m),
            None => forall|i: int|
                0 <= i < symbols.len() ==> !(#[trigger] symbols[i].name == name
                    && symbols[i].category == category),
        },
    decreases symbols.len(),
{
    if symbols.len() > 0 {
        let head = symbols.drop_last();
        lemma_symbol_named(head, name, category);
        match symbol_named(head, name, category) {
            Some(m) => {
                let i = choose|i: int| 0 <= i < head.len() && head[i] == m;
                assert(symbols[i] == m);
            },
            None => {
                if symbols.last().name == name && symbols.last().category == category {
                    assert(symbols[symbols.len() - 1] == symbols.last());
                } else {
                    assert forall|i: int| 0 <= i < symbols.len() implies !(
                    #[trigger] symbols[i].name == name && symbols[i].category == category) by {
                        if i < head.len() {
                            assert(head[i] == symbols[i]);
                        }
                    }
                }
            },
        }
    }
}

/// The symbol table of the strategy language.
#[derive(Clone, Debug)]
pub struct SymbolRegistry {
    pub symbols: Vec<SymbolMetadata>,
}

impl View for SymbolRegistry {
    type V = Seq<SymbolView>;

    open spec fn view(&self) -> Seq<SymbolView> {
        self.symbols@.map_values(|m: SymbolMetadata| m@)
    }
}

impl SymbolRegistry {
    /// The defined symbols of one category.
    pub fn all_symbols(&self, category: SymbolCategory) -> (found: Vec<&SymbolMetadata>)
        ensures
            found@.map_values(|m: &SymbolMetadata| m@) == symbols_in(self@, category),
    {
        let mut found: Vec<&SymbolMetadata> = Vec::new();
        let ghost in_category = |m: SymbolView| m.category == category;
        proof {
            reveal(Seq::filter);
            assert(self@.take(0) =~= Seq::<SymbolView>::empty());
        }
        for i in 0..self.symbols.len()
            invariant
                in_category == (|m: SymbolView| m.category == category),
                found@.map_values(|m: &SymbolMetadata| m@) =~= self@.take(i as int).filter(
                    in_category,
                ),
        {
            let meta = &self.symbols[i];
            let ghost before = found@;
            proof {
                reveal(Seq::filter);
                assert(self@.take(i + 1).drop_last() =~= self@.take(i as int));
                assert(self@.take(i + 1).last() == meta@);
            }
            if meta.category == category {
                found.push(meta);
                assert(found@.map_values(|m: &SymbolMetadata| m@) =~= before.map_values(
                    |m: &SymbolMetadata| m@,
                ).push(meta@));
            }
        }
        assert(self@.take(self.symbols@.len() as int) =~= self@);
        found
    }

    /// The symbol of a name and category: the first one, were there several.
    pub fn lookup(&self, name: &str, category: SymbolCategory) -> (found: Option<&SymbolMetadata>)
        ensures
            match found {
                Some(m) => symbol_named(self@, name@, category) == Some(m@),
                None => symbol_named(self@, name@, category) is None,
            },
    {
        assert(self@.take(0) =~= Seq::<SymbolView>::empty());
        for i in 0..self.symbols.len()
            invariant
                symbol_named(self@.take(i as int), name@, category) is None,
        {
            let meta = &self.symbols[i];
            assert(self@.take(i + 1).drop_last() =~= self@.take(i as int));
            assert(self@.take(i + 1).last() == meta@);
            if meta.category == category && same_text(meta.name.as_str(), name) {
                proof {
                    lemma_symbol_found_early(self@, i + 1, name@, category);
                }
                return Some(meta);
            }
        }
        assert(self@.take(self.symbols@.len() as int) =~= self@);
        None
    }
}

} // verus!
