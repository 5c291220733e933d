//! What is reported where a runtime registry and a symbol table disagree.
use crate::symbols::{symbol_named, type_text, SymbolCategory, SymbolView, TypeSpec};
use vstd::prelude::*;
use vstd::string::*;

verus! {

/// An optional type as messages show it.
pub open spec fn shown_option(t: Option<Seq<char>>) -> Seq<char> {
    match t {
        Some(text) => "Some("@ + text + ")"@,
        None => "None"@,
    }
}

/// The message about a defined symbol that has no handler.
pub open spec fn missing_message(category: SymbolCategory, name: Seq<char>) -> Seq<char> {
    category.word() + " '"@ + name + "' defined in symbol table but not implemented"@
}

/// The message about a handler whose symbol is not defined.
pub open spec fn undefined_message(category: SymbolCategory, name: Seq<char>) -> Seq<char> {
    category.word() + " '"@ + name + "' implemented but not defined in symbol table"@
}

/// The message about a handler whose return type is not the defined one.
pub open spec fn mismatch_message(
    category: SymbolCategory,
    name: Seq<char>,
    declared: Seq<char>,
    defined: Option<Seq<char>>,
) -> Seq<char> {
    category.word() + " '"@ + name + "': return type mismatch — impl declares "@ + declared
        + ", symbol table says "@ + shown_option(defined)
}

/// What a handler says of its return type.
pub enum Declaration {
    /// The handler is of a kind that declares no return type.
    Nothing,
    /// The handler returns a value of this type.
    Type(Seq<char>),
    /// The handler returns a value of this type, or nothing.
    OptionalType(Option<Seq<char>>),
}

impl Declaration {
    /// Whether the declaration agrees with the return type in the symbol table.
    pub open spec fn agrees(self, defined: Option<Seq<char>>) -> bool {
        match self {
            Declaration::Nothing => true,
            Declaration::Type(t) => defined == Some(t),
            Declaration::OptionalType(t) => defined == t,
        }
    }

    /// The declaration as messages show it.
    pub open spec fn shown(self) -> Seq<char> {
        match self {
            Declaration::Nothing => ""@,
            Declaration::Type(t) => t,
            Declaration::OptionalType(t) => shown_option(t),
        }
    }
}

/// One message for each symbol of `defined` that is not among `implemented`, in order.
pub open spec fn missing_errors(
    category: SymbolCategory,
    defined: Seq<SymbolView>,
    implemented: Set<Seq<char>>,
) -> Seq<Seq<char>>
    decreases defined.len(),
{
    if defined.len() == 0 {
        Seq::empty()
    } else {
        let before = missing_errors(category, defined.drop_last(), implemented);
        if implemented.contains(defined.last().name) {
            before
        } else {
            before.push(missing_message(category, defined.last().name))
        }
    }
}

/// The message about one handler, if there is anything to report of it.
pub open spec fn handler_error(
    category: SymbolCategory,
    symbols: Seq<SymbolView>,
    name: Seq<char>,
    declared: Declaration,
) -> Option<Seq<char>> {
    match symbol_named(symbols, name, category) {
        None => Some(undefined_message(category, name)),
        Some(meta) => if declared.agrees(meta.returns) {
            None
        } else {
            Some(mismatch_message(category, name, declared.shown(), meta.returns))
        },
    }
}

/// The messages about the handlers of one category, in the order of `walk`.
pub open spec fn handler_errors(
    category: SymbolCategory,
    symbols: Seq<SymbolView>,
    walk: Seq<Seq<char>>,
    declared: spec_fn(Seq<char>) -> Declaration,
) -> Seq<Seq<char>>
    decreases walk.len(),
{
    if walk.len() == 0 {
        Seq::empty()
    } else {
        let before = handler_errors(category, symbols, walk.drop_last(), declared);
        match handler_error(category, symbols, walk.last(), declared(walk.last())) {
            Some(message) => before.push(message),
            None => before,
        }
    }
}

/// Text put together from pieces.
fn joined(a: &str, b: &str, c: &str, d: &str) -> (text: String)
    ensures
        text@ == a@ + b@ + c@ + d@,
{
    let mut text = a.to_owned();
    text.append(b);
    text.append(c);
    text.append(d);
    text
}

/// Shows an optional type.
pub fn show_option(t: &Option<TypeSpec>) -> (text: String)
    ensures
        text@ == shown_option(type_text(*t)),
{
    match t {
        Some(inner) => {
            let mut text = "Some(".to_owned();
            text.append(inner.text.as_str());
            text.append(")");
            text
        },
        None => "None".to_owned(),
    }
}

/// Writes the message about a defined symbol that has no handler.
pub fn write_missing(category: SymbolCategory, name: &str) -> (message: String)
    ensures
        message@ == missing_message(category, name@),
{
    joined(category.name(), " '", name, "' defined in symbol table but not implemented")
}

/// Writes the message about a handler whose symbol is not defined.
pub fn write_undefined(category: SymbolCategory, name: &str) -> (message: String)
    ensures
        message@ == undefined_message(category, name@),
{
    joined(category.name(), " '", name, "' implemented but not defined in symbol table")
}

/// Writes the message about a handler whose return type is not the defined one.
pub fn write_mismatch(
    category: SymbolCategory,
    name: &str,
    declared: &str,
    defined: &Option<TypeSpec>,
) -> (message: String)
    ensures
        message@ == mismatch_message(category, name@, declared@, type_text(*defined)),
{
    let mut message = joined(
        category.name(),
        " '",
        name,
        "': return type mismatch — impl declares ",
    );
    message.append(declared);
    message.append(", symbol table says ");
    message.append(show_option(defined).as_str());
    message
}

} // verus!
