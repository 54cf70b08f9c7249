//! Top-level declarations of a script.

use vstd::prelude::*;

verus! {

/// Which kind of declaration an [`Item`] is: its tag, without its payload.
#[derive(Clone, Copy, Debug, PartialEq, Eq, Structural)]
pub enum ItemKind {
    /// Another name for a recipe.
    Alias,
    /// A variable and its value.
    Assignment,
    /// Another file brought in.
    Import,
    /// A recipe: a header and the lines of its body.
    Recipe,
    /// A setting of the script.
    Setting,
}

/// What an [`Item`] is to the contracts: its kind and the text of its block.
pub struct ItemView {
    pub kind: ItemKind,
    pub block: Seq<char>,
}

/// One top-level declaration. Each variant owns the text that the
/// declaration is written as: one block of one or more lines, without the
/// line break that ends it.
#[derive(Clone, Debug, PartialEq, Eq)]
pub enum Item {
    Alias(String),
    Assignment(String),
    Import(String),
    Recipe(String),
    Setting(String),
}

impl View for Item {
    type V = ItemView;

    open spec fn view(&self) -> ItemView {
        match self {
            Item::Alias(block) => ItemView { kind: ItemKind::Alias, block: block@ },
            Item::Assignment(block) => ItemView { kind: ItemKind::Assignment, block: block@ },
            Item::Import(block) => ItemView { kind: ItemKind::Import, block: block@ },
            Item::Recipe(block) => ItemView { kind: ItemKind::Recipe, block: block@ },
            Item::Setting(block) => ItemView { kind: ItemKind::Setting, block: block@ },
        }
    }
}

impl Item {
    /// The variant of the item. Two items of one variant have the same kind
    /// whatever they hold.
    pub fn kind(&self) -> (kind: ItemKind)
        ensures
            kind == self@.kind,
    {
        match self {
            Item::Alias(_) => ItemKind::Alias,
            Item::Assignment(_) => ItemKind::Assignment,
            Item::Import(_) => ItemKind::Import,
            Item::Recipe(_) => ItemKind::Recipe,
            Item::Setting(_) => ItemKind::Setting,
        }
    }

    /// The text of the item's block.
    pub fn block(&self) -> (block: &str)
        ensures
            block@ == self@.block,
    {
        match self {
            Item::Alias(block) => block.as_str(),
            Item::Assignment(block) => block.as_str(),
            Item::Import(block) => block.as_str(),
            Item::Recipe(block) => block.as_str(),
            Item::Setting(block) => block.as_str(),
        }
    }
}

} // verus!
