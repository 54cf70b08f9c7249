//! The syntax tree of a script and its canonical text.

use crate::item::{Item, ItemKind, ItemView};
use vstd::prelude::*;

verus! {

/// A diagnostic that parsing left behind. Rendering carries it along and
/// never reads it.
#[derive(Clone, Debug, PartialEq, Eq)]
pub struct Warning {
    pub message: String,
}

/// What an [`Ast`] is to the contracts.
pub struct AstView {
    pub items: Seq<ItemView>,
    pub warnings: Seq<Seq<char>>,
}

/// The parsed form of a script: its items in source order, and the warnings
/// met while parsing it.
#[derive(Clone, Debug, PartialEq, Eq)]
pub struct Ast {
    /// The items of the script, in the order they were written.
    pub items: Vec<Item>,
    /// The warnings, in the order they arose.
    pub warnings: Vec<Warning>,
}

impl View for Ast {
    type V = AstView;

    open spec fn view(&self) -> AstView {
        AstView {
            items: self.items@.map_values(|item: Item| item@),
            warnings: self.warnings@.map_values(|warning: Warning| warning.message@),
        }
    }
}

/// The grouping rule: a blank line parts two neighbouring items when the
/// first is a recipe, or when the two differ in kind.
pub open spec fn separated(current: ItemKind, next: ItemKind) -> bool {
    current == ItemKind::Recipe || current != next
}

/// Decides whether a blank line goes between an item of kind `current` and
/// the item of kind `next` that follows it.
pub fn separates(current: ItemKind, next: ItemKind) -> (gap: bool)
    ensures
        gap == separated(current, next),
{
    current == ItemKind::Recipe || current != next
}

/// One entry of the rendered output: the block of an item, or a blank line.
pub enum Chunk {
    Block(ItemView),
    Blank,
}

impl Chunk {
    /// The characters of the entry, without the line break that ends it.
    pub open spec fn text(self) -> Seq<char> {
        match self {
            Chunk::Block(item) => item.block,
            Chunk::Blank => Seq::empty(),
        }
    }
}

/// The output once the first `count` items have been written: each item's
/// block, followed by a blank line where the grouping rule parts the item
/// from the one after it.
pub open spec fn layout_through(items: Seq<ItemView>, count: nat) -> Seq<Chunk>
    recommends
        count <= items.len(),
    decreases count,
{
    if count == 0 {
        Seq::empty()
    } else {
        let current = count - 1;
        let written = layout_through(items, current as nat).push(Chunk::Block(items[current]));
        if count < items.len() && separated(items[current].kind, items[count as int].kind) {
            written.push(Chunk::Blank)
        } else {
            written
        }
    }
}

/// The whole output for `items`, entry by entry.
pub open spec fn layout(items: Seq<ItemView>) -> Seq<Chunk> {
    layout_through(items, items.len())
}

/// The entries as text: each one followed by a line break.
pub open spec fn text_of(chunks: Seq<Chunk>) -> Seq<char>
    decreases chunks.len(),
{
    if chunks.len() == 0 {
        Seq::empty()
    } else {
        text_of(chunks.drop_last()) + chunks.last().text() + seq!['\n']
    }
}

/// The canonical text of a script with these items.
pub open spec fn rendered(items: Seq<ItemView>) -> Seq<char> {
    text_of(layout(items))
}

/// Where the block of item `index` stands among the entries of the output.
pub open spec fn position(items: Seq<ItemView>, index: int) -> int {
    layout_through(items, index as nat).len() as int
}

/// Where the block of item `index` begins in the text of the output.
pub open spec fn offset(items: Seq<ItemView>, index: int) -> int {
    text_of(layout_through(items, index as nat)).len() as int
}

/// The items whose blocks the entries hold, in the order of the entries.
pub open spec fn blocks(chunks: Seq<Chunk>) -> Seq<ItemView>
    decreases chunks.len(),
{
    if chunks.len() == 0 {
        Seq::empty()
    } else {
        match chunks.last() {
            Chunk::Block(item) => blocks(chunks.drop_last()).push(item),
            Chunk::Blank => blocks(chunks.drop_last()),
        }
    }
}

/// The kinds of the items, in order.
pub open spec fn kinds(items: Seq<ItemView>) -> Seq<ItemKind> {
    items.map_values(|item: ItemView| item.kind)
}

/// What is written after the block of an item of kind `current` and before
/// an item of kind `next`: the line break that ends the block, and one empty
/// line where the grouping rule parts the two.
pub open spec fn gap(current: ItemKind, next: ItemKind) -> Seq<char> {
    if separated(current, next) {
        seq!['\n', '\n']
    } else {
        seq!['\n']
    }
}

impl Ast {
    /// The canonical source text of the tree: every item's block on lines of
    /// its own, in the stored order, with a blank line after each recipe and
    /// at each change of kind, and none after the last item. The warnings
    /// play no part.
    pub fn render(&self) -> (out: String)
        ensures
            out@ == rendered(self@.items),
    {
        let mut out = String::new();
        let mut index: usize = 0;
        proof {
            reveal_strlit("\n");
            assert("\n"@ =~= seq!['\n']);
        }
        while index < self.items.len()
            invariant
                index <= self.items.len(),
                self@.items.len() == self.items.len(),
                "\n"@ == seq!['\n'],
                out@ == text_of(layout_through(self@.items, index as nat)),
            decreases self.items.len() - index,
        {
            let ghost before = layout_through(self@.items, index as nat);
            let ghost block = Chunk::Block(self@.items[index as int]);
            let item = &self.items[index];
            out.append(item.block());
            out.append("\n");
            proof {
                lemma_text_of_push(before, block);
            }
            if index + 1 < self.items.len() && separates(
                item.kind(),
                self.items[index + 1].kind(),
            ) {
                out.append("\n");
                proof {
                    lemma_text_of_push(before.push(block), Chunk::Blank);
                    assert(out@ =~= text_of(before.push(block).push(Chunk::Blank)));
                }
            }
            index += 1;
        }
        out
    }
}

/// Writing one more entry appends its text and a line break.
pub proof fn lemma_text_of_push(chunks: Seq<Chunk>, chunk: Chunk)
    ensures
        text_of(chunks.push(chunk)) == text_of(chunks) + chunk.text() + seq!['\n'],
{
    assert(chunks.push(chunk).drop_last() =~= chunks);
}

/// Entries written one after the other give their texts one after the other.
pub proof fn lemma_text_of_concat(front: Seq<Chunk>, back: Seq<Chunk>)
    ensures
        text_of(front + back) == text_of(front) + text_of(back),
    decreases back.len(),
{
    if back.len() == 0 {
        assert(front + back =~= front);
        assert(text_of(front) + text_of(back) =~= text_of(front));
    } else {
        assert((front + back).drop_last() =~= front + back.drop_last());
        lemma_text_of_concat(front, back.drop_last());
        assert(text_of(front + back) =~= text_of(front) + text_of(back));
    }
}

/// What has been written after `count` items stays as it is while the rest
/// is written.
pub proof fn lemma_layout_grows(items: Seq<ItemView>, count: nat, later: nat)
    requires
        count <= later <= items.len(),
    ensures
        layout_through(items, count).is_prefix_of(layout_through(items, later)),
    decreases later,
{
    if count < later {
        lemma_layout_grows(items, count, (later - 1) as nat);
    }
}

/// The blocks written after `count` items are those of the first `count`
/// items.
proof fn lemma_blocks_through(items: Seq<ItemView>, count: nat)
    requires
        count <= items.len(),
    ensures
        blocks(layout_through(items, count)) == items.take(count as int),
    decreases count,
{
    if count == 0 {
        assert(items.take(0) =~= Seq::<ItemView>::empty());
    } else {
        let current = (count - 1) as nat;
        let before = layout_through(items, current);
        let with_block = before.push(Chunk::Block(items[current as int]));
        lemma_blocks_through(items, current);
        assert(with_block.drop_last() =~= before);
        assert(blocks(with_block) == blocks(before).push(items[current as int]));
        assert(with_block.push(Chunk::Blank).drop_last() =~= with_block);
        assert(blocks(with_block.push(Chunk::Blank)) == blocks(with_block));
        assert(items.take(count as int) =~= items.take(current as int).push(
            items[current as int],
        ));
    }
}

/// Two neighbouring items in the output: the block of the first, one blank
/// entry exactly where the grouping rule parts them, then the block of the
/// second.
pub proof fn lemma_neighbours(items: Seq<ItemView>, index: int)
    requires
        0 <= index,
        index + 1 < items.len(),
    ensures
        position(items, index + 1) < layout(items).len(),
        layout(items)[position(items, index)] == Chunk::Block(items[index]),
        layout(items)[position(items, index + 1)] == Chunk::Block(items[index + 1]),
        separated(items[index].kind, items[index + 1].kind) ==> {
            &&& position(items, index + 1) == position(items, index) + 2
            &&& layout(items)[position(items, index) + 1] == Chunk::Blank
        },
        !separated(items[index].kind, items[index + 1].kind) ==> position(
            items,
            index + 1,
        ) == position(items, index) + 1,
{
    let zero = layout_through(items, index as nat);
    let one = layout_through(items, (index + 1) as nat);
    let two = layout_through(items, (index + 2) as nat);
    let all = layout(items);
    let first = Chunk::Block(items[index]);
    let second = Chunk::Block(items[index + 1]);
    assert(layout_through(items, ((index + 1) as nat - 1) as nat) == zero);
    assert(layout_through(items, ((index + 2) as nat - 1) as nat) == one);
    assert(one == if separated(items[index].kind, items[index + 1].kind) {
        zero.push(first).push(Chunk::Blank)
    } else {
        zero.push(first)
    });
    assert(two.len() > one.len() && two[one.len() as int] == second);
    assert(forall|k: int| 0 <= k < one.len() ==> two[k] == one[k]);
    lemma_layout_grows(items, (index + 2) as nat, items.len());
    assert(forall|k: int| 0 <= k < two.len() ==> all[k] == all.subrange(0, two.len() as int)[k]);
}

/// The output keeps the items in their order and drops none: the blocks of
/// its entries are the items, and so the kinds of its blocks are the kinds
/// of the items.
pub proof fn lemma_order_preserved(items: Seq<ItemView>)
    ensures
        blocks(layout(items)) == items,
        kinds(blocks(layout(items))) == kinds(items),
{
    lemma_blocks_through(items, items.len());
    assert(items.take(items.len() as int) =~= items);
}

/// After a recipe there is exactly one blank line before the next item,
/// whatever that item is.
pub proof fn lemma_blank_after_recipe(items: Seq<ItemView>, index: int)
    requires
        0 <= index,
        index + 1 < items.len(),
        items[index].kind == ItemKind::Recipe,
    ensures
        position(items, index) + 2 < layout(items).len(),
        layout(items)[position(items, index)] == Chunk::Block(items[index]),
        layout(items)[position(items, index) + 1] == Chunk::Blank,
        layout(items)[position(items, index) + 2] == Chunk::Block(items[index + 1]),
{
    lemma_neighbours(items, index);
}

/// Two neighbours of one kind that are no recipes follow each other with
/// no blank line between them.
pub proof fn lemma_same_kind_adjacent(items: Seq<ItemView>, index: int)
    requires
        0 <= index,
        index + 1 < items.len(),
        items[index].kind == items[index + 1].kind,
        items[index].kind != ItemKind::Recipe,
    ensures
        position(items, index) + 1 < layout(items).len(),
        layout(items)[position(items, index)] == Chunk::Block(items[index]),
        layout(items)[position(items, index) + 1] == Chunk::Block(items[index + 1]),
{
    lemma_neighbours(items, index);
}

/// Between two neighbours of different kinds there is exactly one blank
/// line.
pub proof fn lemma_blank_at_kind_change(items: Seq<ItemView>, index: int)
    requires
        0 <= index,
        index + 1 < items.len(),
        items[index].kind != items[index + 1].kind,
    ensures
        position(items, index) + 2 < layout(items).len(),
        layout(items)[position(items, index)] == Chunk::Block(items[index]),
        layout(items)[position(items, index) + 1] == Chunk::Blank,
        layout(items)[position(items, index) + 2] == Chunk::Block(items[index + 1]),
{
    lemma_neighbours(items, index);
}

/// The output ends with the block of the last item and the line break that
/// ends it: no blank line follows. An empty tree gives an empty output.
pub proof fn lemma_no_trailing_blank(items: Seq<ItemView>)
    ensures
        items.len() == 0 ==> layout(items).len() == 0 && rendered(items).len() == 0,
        items.len() > 0 ==> {
            &&& layout(items).len() > 0
            &&& layout(items).last() == Chunk::Block(items.last())
            &&& rendered(items) == text_of(layout_through(items, (items.len() - 1) as nat))
                + items.last().block + seq!['\n']
        },
{
    if items.len() > 0 {
        let before = layout_through(items, (items.len() - 1) as nat);
        lemma_text_of_push(before, Chunk::Block(items.last()));
    }
}

/// The same in the text itself: the block of item `index` stands at its
/// offset, and between its end and the start of the next block stands the
/// line break that ends it, with one empty line exactly where the grouping
/// rule parts the two.
pub proof fn lemma_text_between(items: Seq<ItemView>, index: int)
    requires
        0 <= index,
        index + 1 < items.len(),
    ensures
        offset(items, index + 1) + items[index + 1].block.len() < rendered(items).len(),
        rendered(items).subrange(offset(items, index), offset(items, index + 1))
            == items[index].block + gap(items[index].kind, items[index + 1].kind),
        rendered(items).subrange(
            offset(items, index + 1),
            offset(items, index + 1) + items[index + 1].block.len(),
        ) == items[index + 1].block,
{
    let zero = layout_through(items, index as nat);
    let one = layout_through(items, (index + 1) as nat);
    let two = layout_through(items, (index + 2) as nat);
    let all = layout(items);
    let first = Chunk::Block(items[index]);
    let second = Chunk::Block(items[index + 1]);
    assert(layout_through(items, (index + 1 - 1) as nat) == zero);
    assert(layout_through(items, (index + 2 - 1) as nat) == one);
    lemma_text_of_push(zero, first);
    lemma_text_of_push(zero.push(first), Chunk::Blank);
    lemma_text_of_push(one, second);
    lemma_text_of_push(one.push(second), Chunk::Blank);
    lemma_layout_grows(items, (index + 2) as nat, items.len());
    let rest = all.skip(two.len() as int);
    assert(all =~= two + rest);
    lemma_text_of_concat(two, rest);
    let text = rendered(items);
    let block = items[index].block;
    let next = items[index + 1].block;
    let between = gap(items[index].kind, items[index + 1].kind);
    assert(text_of(one) =~= text_of(zero) + block + between);
    assert(text_of(one).len() == text_of(zero).len() + block.len() + between.len());
    assert(text_of(two).len() >= text_of(one).len() + next.len() + 1);
    assert(text_of(two).is_prefix_of(text));
    assert(text.subrange(offset(items, index), offset(items, index + 1)) =~= block
        + between);
    assert(text.subrange(
        offset(items, index + 1),
        offset(items, index + 1) + next.len(),
    ) =~= next);
}

} // verus!
