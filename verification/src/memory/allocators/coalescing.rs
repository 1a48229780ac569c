//! Why a buddy allocator that got back everything it handed out is as it was
//! at the start.

use crate::memory::allocators::blocks::{
    ceil_log2, lemma_next_power_of_two, next_power_of_two, power_of_two,
};
use crate::memory::allocators::general::{
    fresh_lists, lemma_block_sizes, lemma_buddy, lemma_ceil_log2_of_power, lemma_halves,
    position_from_head, BuddyModel,
};
use vstd::arithmetic::power2::{lemma_pow2_adds, lemma_pow2_strictly_increases, pow2};
use vstd::prelude::*;

verus! {

/// The blocks that were handed out and not given back: address and order.
pub type Held = Set<(usize, int)>;

impl BuddyModel {
    /// Whether the block of order `order` at `address` is in its free list.
    pub open spec fn is_free(self, address: usize, order: int) -> bool {
        0 <= order < self.depth() && self.lists[order].contains(address)
    }

    /// Whether the block of order `order` at `address` is free or held.
    pub open spec fn is_block(self, held: Held, address: usize, order: int) -> bool {
        self.is_free(address, order) || held.contains((address, order))
    }

    /// Whether the two blocks have no byte in common.
    pub open spec fn apart(self, one: int, order: int, other: int, other_order: int) -> bool {
        one + self.block_size(order) <= other || other + self.block_size(other_order) <= one
    }

    /// No two blocks, free or held, have a byte in common.
    pub open spec fn exclusive(self, held: Held) -> bool {
        forall|one: usize, order: int, other: usize, other_order: int|
            #![trigger self.is_block(held, one, order), self.is_block(held, other, other_order)]
            self.is_block(held, one, order) && self.is_block(held, other, other_order) && (
            one,
            order,
            ) != (other, other_order) ==> self.apart(
                one as int,
                order,
                other as int,
                other_order,
            )
    }

    /// No free block has a free buddy.
    pub open spec fn coalesced(self) -> bool {
        forall|address: usize, order: int|
            #![trigger self.is_free(address, order)]
            self.is_free(address, order) && order + 1 < self.depth() ==> !self.is_free(
                self.buddy_of(address as int, order) as usize,
                order,
            )
    }

    /// The block of order `order` at `address` is made up of blocks, free or
    /// held: it is one, or both of its halves are made up of blocks.
    pub open spec fn tiled(self, held: Held, address: int, order: int) -> bool
        decreases order,
    {
        0 <= order && (self.is_block(held, address as usize, order) || (order > 0 && self.tiled(
            held,
            address,
            order - 1,
        ) && self.tiled(held, address + self.block_size(order - 1), order - 1)))
    }

    /// The books are in order with `held` as the blocks that are out: every
    /// block is a valid one, none is free and held at once or listed twice, no
    /// two overlap, no two free buddies wait to be joined, and together the
    /// blocks make up the region.
    pub open spec fn orderly(self, held: Held) -> bool {
        &&& self.wf()
        &&& forall|address: usize, order: int| #[trigger]
            held.contains((address, order)) ==> self.valid_block(address as int, order)
                && !self.is_free(address, order)
        &&& forall|order: int|
            0 <= order < self.depth() ==> (#[trigger] self.lists[order]).no_duplicates()
        &&& self.exclusive(held)
        &&& self.coalesced()
        &&& self.tiled(held, self.base, self.depth() - 1)
    }
}

/// Two multiples of a size are equal or at least the size apart.
pub proof fn lemma_multiples_apart(one: int, other: int, size: int)
    requires
        size > 0,
        one % size == 0,
        other % size == 0,
    ensures
        one == other || one + size <= other || other + size <= one,
{
    vstd::arithmetic::div_mod::lemma_fundamental_div_mod(one, size);
    vstd::arithmetic::div_mod::lemma_fundamental_div_mod(other, size);
    let a = one / size;
    let b = other / size;
    if a < b {
        assert(size * a + size <= size * b) by (nonlinear_arith)
            requires
                a + 1 <= b,
                size > 0,
        ;
    } else if b < a {
        assert(size * b + size <= size * a) by (nonlinear_arith)
            requires
                b + 1 <= a,
                size > 0,
        ;
    }
}

/// A multiple of twice a size is an even multiple of the size.
pub proof fn lemma_even_multiple(relative: int, size: int)
    requires
        size > 0,
        relative >= 0,
        relative % (2 * size) == 0,
    ensures
        relative % size == 0,
        (relative / size) % 2 == 0,
        ((relative + size) / size) % 2 == 1,
        (relative + size) % size == 0,
{
    let count = relative / (2 * size);
    vstd::arithmetic::div_mod::lemma_fundamental_div_mod(relative, 2 * size);
    assert(relative == (2 * count) * size) by (nonlinear_arith)
        requires
            relative == (2 * size) * count,
    ;
    vstd::arithmetic::div_mod::lemma_fundamental_div_mod_converse(
        relative,
        size,
        2 * count,
        0,
    );
    assert(relative + size == (2 * count + 1) * size) by (nonlinear_arith)
        requires
            relative == (2 * count) * size,
    ;
    vstd::arithmetic::div_mod::lemma_fundamental_div_mod_converse(
        relative + size,
        size,
        2 * count + 1,
        0,
    );
}

/// The halves of a valid block are valid blocks of the order below, and each
/// is the buddy of the other.
pub proof fn lemma_children(model: BuddyModel, address: int, order: int)
    requires
        model.wf(),
        model.valid_block(address, order),
        order > 0,
    ensures
        model.valid_block(address, order - 1),
        model.valid_block(address + model.block_size(order - 1), order - 1),
        model.buddy_of(address, order - 1) == address + model.block_size(order - 1),
        model.buddy_of(address + model.block_size(order - 1), order - 1) == address,
        model.block_size(order) == 2 * model.block_size(order - 1),
        model.block_size(order - 1) > 0,
{
    let half = model.block_size(order - 1);
    lemma_block_sizes(model, order - 1);
    lemma_halves(address - model.base, half, model.capacity);
    lemma_even_multiple(address - model.base, half);
    lemma_buddy(model, address, order - 1);
    lemma_buddy(model, address + half, order - 1);
}

/// Where nothing is held and no two free buddies wait to be joined, what is
/// made up of blocks is a free block.
pub proof fn lemma_tiled_is_free(model: BuddyModel, address: int, order: int)
    requires
        model.wf(),
        model.coalesced(),
        model.valid_block(address, order),
        model.tiled(Set::empty(), address, order),
    ensures
        model.is_free(address as usize, order),
    decreases order,
{
    if !model.is_free(address as usize, order) {
        let half = model.block_size(order - 1);
        lemma_children(model, address, order);
        lemma_tiled_is_free(model, address, order - 1);
        lemma_tiled_is_free(model, address + half, order - 1);
        assert(model.is_free(address as usize, order - 1));
        assert(model.is_free(model.buddy_of(address, order - 1) as usize, order - 1));
    }
}

/// A fresh allocator is in order, with nothing held.
pub proof fn lemma_fresh_is_orderly(model: BuddyModel)
    requires
        model.wf(),
        model.lists == fresh_lists(model.base as usize, model.depth()),
    ensures
        model.orderly(Set::empty()),
{
    let top = model.depth() - 1;
    let root = model.base as usize;
    assert(model.lists[top] =~= seq![root]);
    assert(model.lists[top][0] == root);
    assert(model.is_free(root, top));
    assert forall|address: usize, order: int| model.is_free(address, order) implies address
        == root && order == top by {
        if order != top {
            assert(model.lists[order] =~= Seq::<usize>::empty());
        }
    }
    assert(model.coalesced());
    assert(model.exclusive(Set::empty()));
}

/// In an allocator that is in order and has everything back, the only free
/// block is the whole region.
pub proof fn lemma_only_the_region_is_free(model: BuddyModel, address: usize, order: int)
    requires
        model.orderly(Set::empty()),
        model.is_free(address, order),
    ensures
        address == model.base,
        order == model.depth() - 1,
{
    let top = model.depth() - 1;
    let root = model.base as usize;
    let held: Held = Set::empty();
    lemma_block_sizes(model, top);
    lemma_block_sizes(model, order);
    assert(0int % model.capacity == 0);
    assert(model.valid_block(model.base, top));
    lemma_tiled_is_free(model, model.base, top);
    assert(model.is_block(held, root, top));
    let index = choose|i: int| 0 <= i < model.lists[order].len() && model.lists[order][i] == address;
    assert(model.valid_block(model.lists[order][index] as int, order));
    assert(model.is_block(held, address, order));
    if (address, order) != (root, top) {
        assert(model.apart(address as int, order, root as int, top));
    }
}

/// An allocator that is in order and has everything back has the free lists of
/// a fresh one: the whole region as one block, and nothing else.
pub proof fn lemma_all_back(model: BuddyModel)
    requires
        model.orderly(Set::empty()),
    ensures
        model.lists == fresh_lists(model.base as usize, model.depth()),
{
    let top = model.depth() - 1;
    let root = model.base as usize;
    lemma_block_sizes(model, top);
    assert(0int % model.capacity == 0);
    assert(model.valid_block(model.base, top));
    lemma_tiled_is_free(model, model.base, top);
    assert forall|order: int| 0 <= order < model.depth() implies #[trigger] model.lists[order]
        == fresh_lists(root, model.depth())[order] by {
        let list = model.lists[order];
        if list.len() > 0 {
            assert(model.is_free(list[0], order));
            lemma_only_the_region_is_free(model, list[0], order);
        }
        if list.len() > 1 {
            assert(model.is_free(list[1], order));
            lemma_only_the_region_is_free(model, list[1], order);
            assert(list[0] == list[1]);
        }
        if order == top {
            assert(list.contains(root));
            assert(list =~= seq![root]);
        } else {
            assert(list =~= Seq::<usize>::empty());
        }
    }
    assert(model.lists =~= fresh_lists(root, model.depth()));
}

/// What [`position_from_head`] finds is a place of the block, and where it
/// finds nothing the block is not in the list.
pub proof fn lemma_position(list: Seq<usize>, block: usize)
    ensures
        match position_from_head(list, block) {
            Some(index) => 0 <= index < list.len() && list[index] == block,
            None => !list.contains(block),
        },
    decreases list.len(),
{
    if list.len() > 0 && list.last() != block {
        lemma_position(list.drop_last(), block);
        match position_from_head(list.drop_last(), block) {
            Some(index) => {
                assert(list.drop_last()[index] == list[index]);
            },
            None => {
                if list.contains(block) {
                    let i = choose|i: int| 0 <= i < list.len() && list[i] == block;
                    assert(list.drop_last()[i] == block);
                }
            },
        }
    }
}

/// A list without duplicates no longer holds an entry that was taken out, and
/// holds every other entry as before.
pub proof fn lemma_removed_entry(list: Seq<usize>, index: int, block: usize)
    requires
        list.no_duplicates(),
        0 <= index < list.len(),
    ensures
        list.remove(index).no_duplicates(),
        list.remove(index).contains(block) <==> list.contains(block) && block != list[index],
{
    let rest = list.remove(index);
    assert forall|i: int, j: int| 0 <= i < rest.len() && 0 <= j < rest.len() && i != j implies rest[i]
        != rest[j] by {
        let a = if i < index {
            i
        } else {
            i + 1
        };
        let b = if j < index {
            j
        } else {
            j + 1
        };
        assert(rest[i] == list[a] && rest[j] == list[b]);
    }
    if rest.contains(block) {
        let i = choose|i: int| 0 <= i < rest.len() && rest[i] == block;
        let a = if i < index {
            i
        } else {
            i + 1
        };
        assert(list[a] == block);
    }
    if list.contains(block) && block != list[index] {
        let a = choose|a: int| 0 <= a < list.len() && list[a] == block;
        let i = if a < index {
            a
        } else {
            a - 1
        };
        assert(rest[i] == block);
    }
}

/// A list without duplicates stays so when a new entry is put on it, and
/// then holds the new entry and what it held.
pub proof fn lemma_pushed_entry(list: Seq<usize>, added: usize, block: usize)
    requires
        list.no_duplicates(),
        !list.contains(added),
    ensures
        list.push(added).no_duplicates(),
        list.push(added).contains(block) <==> list.contains(block) || block == added,
{
    let more = list.push(added);
    assert forall|i: int, j: int| 0 <= i < more.len() && 0 <= j < more.len() && i != j implies more[i]
        != more[j] by {
        if i < list.len() {
            assert(list.contains(more[i]));
        }
        if j < list.len() {
            assert(list.contains(more[j]));
        }
    }
    if more.contains(block) {
        let i = choose|i: int| 0 <= i < more.len() && more[i] == block;
        if i < list.len() {
            assert(list[i] == block);
        }
    }
    if list.contains(block) {
        let i = choose|i: int| 0 <= i < list.len() && list[i] == block;
        assert(more[i] == block);
    }
    assert(more[list.len() as int] == added);
}

/// Two states with the same blocks of the same sizes have the same blocks
/// made up of blocks.
pub proof fn lemma_tiled_same(
    before: BuddyModel,
    held: Held,
    after: BuddyModel,
    now_held: Held,
    address: int,
    order: int,
)
    requires
        before.min_block == after.min_block,
        forall|a: usize, o: int| before.is_block(held, a, o) == after.is_block(now_held, a, o),
    ensures
        before.tiled(held, address, order) == after.tiled(now_held, address, order),
    decreases order,
{
    if order > 0 {
        lemma_tiled_same(before, held, after, now_held, address, order - 1);
        lemma_tiled_same(
            before,
            held,
            after,
            now_held,
            address + before.block_size(order - 1),
            order - 1,
        );
    }
}

/// Taking a free block out of its list to hold it leaves the books in order.
pub proof fn lemma_take(model: BuddyModel, held: Held, order: int, index: int)
    requires
        model.orderly(held),
        0 <= order < model.depth(),
        0 <= index < model.lists[order].len(),
    ensures
        model.removed(order, index).orderly(held.insert((model.lists[order][index], order))),
        !held.contains((model.lists[order][index], order)),
{
    let block = model.lists[order][index];
    let after = model.removed(order, index);
    let now_held = held.insert((block, order));
    assert(model.is_free(block, order));
    assert forall|a: usize, o: int| model.is_block(held, a, o) == after.is_block(
        now_held,
        a,
        o,
    ) && (after.is_free(a, o) ==> model.is_free(a, o)) && (after.is_free(a, o) <==> model.is_free(a, o)
        && (a, o) != (block, order)) by {
        if o == order {
            lemma_removed_entry(model.lists[order], index, a);
        }
    }
    assert(after.wf()) by {
        assert forall|o: int, i: int|
            0 <= o < after.depth() && 0 <= i < after.lists[o].len() implies after.valid_block(
            #[trigger] after.lists[o][i] as int,
            o,
        ) by {
            assert(after.is_free(after.lists[o][i], o));
            let j = choose|j: int|
                0 <= j < model.lists[o].len() && model.lists[o][j] == after.lists[o][i];
            assert(model.valid_block(model.lists[o][j] as int, o));
        }
    }
    assert forall|o: int| 0 <= o < after.depth() implies (#[trigger] after.lists[o]).no_duplicates() by {
        if o == order {
            lemma_removed_entry(model.lists[order], index, block);
        } else {
            assert(after.lists[o] == model.lists[o]);
        }
    }
    assert(after.exclusive(now_held)) by {
        assert forall|one: usize, o: int, other: usize, p: int|
            #![trigger after.is_block(now_held, one, o), after.is_block(now_held, other, p)]
            after.is_block(now_held, one, o) && after.is_block(now_held, other, p) && (one, o) != (
                other,
                p,
            ) implies after.apart(one as int, o, other as int, p) by {
            assert(model.is_block(held, one, o));
            assert(model.is_block(held, other, p));
        }
    }
    assert(after.coalesced()) by {
        assert forall|a: usize, o: int|
            #![trigger after.is_free(a, o)]
            after.is_free(a, o) && o + 1 < after.depth() implies !after.is_free(
            after.buddy_of(a as int, o) as usize,
            o,
        ) by {
            assert(model.is_free(a, o));
        }
    }
    lemma_tiled_same(model, held, after, now_held, model.base, model.depth() - 1);
    assert forall|a: usize, o: int| #[trigger] now_held.contains((a, o)) implies after.valid_block(
        a as int,
        o,
    ) && !after.is_free(a, o) by {
        if (a, o) == (block, order) {
            assert(model.valid_block(model.lists[order][index] as int, order));
        }
    }
}

/// Giving a held block back to the head of its free list leaves the books in
/// order, as long as its buddy is not free.
pub proof fn lemma_give(model: BuddyModel, held: Held, block: usize, order: int)
    requires
        model.orderly(held),
        held.contains((block, order)),
        order + 1 < model.depth() ==> !model.is_free(
            model.buddy_of(block as int, order) as usize,
            order,
        ),
    ensures
        model.inserted(order, block).orderly(held.remove((block, order))),
{
    let after = model.inserted(order, block);
    let now_held = held.remove((block, order));
    assert(model.valid_block(block as int, order));
    assert forall|a: usize, o: int| model.is_block(held, a, o) == after.is_block(
        now_held,
        a,
        o,
    ) && (after.is_free(a, o) <==> model.is_free(a, o) || (a, o) == (block, order)) by {
        if o == order {
            lemma_pushed_entry(model.lists[order], block, a);
        }
    }
    assert(after.wf()) by {
        assert forall|o: int, i: int|
            0 <= o < after.depth() && 0 <= i < after.lists[o].len() implies after.valid_block(
            #[trigger] after.lists[o][i] as int,
            o,
        ) by {
            if o == order && i == model.lists[o].len() {
            } else {
                assert(model.valid_block(model.lists[o][i] as int, o));
            }
        }
    }
    assert forall|o: int| 0 <= o < after.depth() implies (#[trigger] after.lists[o]).no_duplicates() by {
        if o == order {
            lemma_pushed_entry(model.lists[order], block, block);
        } else {
            assert(after.lists[o] == model.lists[o]);
        }
    }
    assert(after.exclusive(now_held)) by {
        assert forall|one: usize, o: int, other: usize, p: int|
            #![trigger after.is_block(now_held, one, o), after.is_block(now_held, other, p)]
            after.is_block(now_held, one, o) && after.is_block(now_held, other, p) && (one, o) != (
                other,
                p,
            ) implies after.apart(one as int, o, other as int, p) by {
            assert(model.is_block(held, one, o));
            assert(model.is_block(held, other, p));
        }
    }
    assert(after.coalesced()) by {
        assert forall|a: usize, o: int|
            #![trigger after.is_free(a, o)]
            after.is_free(a, o) && o + 1 < after.depth() implies !after.is_free(
            after.buddy_of(a as int, o) as usize,
            o,
        ) by {
            let buddy = model.buddy_of(a as int, o) as usize;
            if (a, o) == (block, order) {
                assert(!model.is_free(buddy, o));
                lemma_buddy(model, a as int, o);
                lemma_block_sizes(model, o);
                assert(buddy != block);
            } else {
                assert(model.is_free(a, o));
                assert(!model.is_free(buddy, o));
                if (buddy, o) == (block, order) {
                    // then the block's buddy would be this free block
                    let i = choose|i: int| 0 <= i < model.lists[o].len() && model.lists[o][i] == a;
                    assert(model.valid_block(model.lists[o][i] as int, o));
                    lemma_buddy(model, a as int, o);
                    lemma_buddy_twice(model, a as int, o);
                    assert(model.buddy_of(block as int, order) as usize == a);
                }
            }
        }
    }
    lemma_tiled_same(model, held, after, now_held, model.base, model.depth() - 1);
}

/// The buddy of the buddy of a block is the block.
pub proof fn lemma_buddy_twice(model: BuddyModel, address: int, order: int)
    requires
        model.wf(),
        model.valid_block(address, order),
        order + 1 < model.depth(),
    ensures
        model.buddy_of(model.buddy_of(address, order), order) == address,
{
    let size = model.block_size(order);
    let relative = address - model.base;
    let buddy = model.buddy_of(address, order);
    lemma_block_sizes(model, order);
    lemma_buddy(model, address, order);
    lemma_buddy(model, buddy, order);
    vstd::arithmetic::div_mod::lemma_fundamental_div_mod(relative, size);
    let count = relative / size;
    if count % 2 == 0 {
        assert(relative + size == (count + 1) * size) by (nonlinear_arith)
            requires
                relative == size * count,
        ;
        vstd::arithmetic::div_mod::lemma_fundamental_div_mod_converse(
            relative + size,
            size,
            count + 1,
            0,
        );
    } else {
        assert(relative - size == (count - 1) * size) by (nonlinear_arith)
            requires
                relative == size * count,
        ;
        vstd::arithmetic::div_mod::lemma_fundamental_div_mod_converse(
            relative - size,
            size,
            count - 1,
            0,
        );
    }
}

/// What is held after a held block was cut in two: its halves instead of it.
pub open spec fn halved(model: BuddyModel, held: Held, block: usize, order: int) -> Held {
    held.remove((block, order)).insert((block, order - 1)).insert(
        ((block + model.block_size(order - 1)) as usize, order - 1),
    )
}

/// What was made up of blocks is still so after a held block was cut in two.
proof fn lemma_tiled_halved(
    model: BuddyModel,
    held: Held,
    block: usize,
    order: int,
    address: int,
    at: int,
)
    requires
        model.wf(),
        order > 0,
        held.contains((block, order)),
        model.valid_block(address, at),
        model.tiled(held, address, at),
    ensures
        model.tiled(halved(model, held, block, order), address, at),
    decreases at,
{
    let now_held = halved(model, held, block, order);
    if model.is_block(held, address as usize, at) {
        if (address as usize, at) == (block, order) {
            assert(model.is_block(now_held, block, order - 1));
            assert(model.is_block(
                now_held,
                (block + model.block_size(order - 1)) as usize,
                order - 1,
            ));
            assert(model.tiled(now_held, block as int, order - 1));
            assert(model.tiled(now_held, block + model.block_size(order - 1), order - 1));
        } else {
            assert(model.is_block(now_held, address as usize, at));
        }
    } else {
        lemma_children(model, address, at);
        lemma_tiled_halved(model, held, block, order, address, at - 1);
        lemma_tiled_halved(
            model,
            held,
            block,
            order,
            address + model.block_size(at - 1),
            at - 1,
        );
    }
}

/// Cutting a held block in two, both halves held, leaves the books in order.
pub proof fn lemma_halve(model: BuddyModel, held: Held, block: usize, order: int)
    requires
        model.orderly(held),
        held.contains((block, order)),
        order > 0,
    ensures
        model.orderly(halved(model, held, block, order)),
        !held.contains((block, order - 1)),
        !held.contains(((block + model.block_size(order - 1)) as usize, order - 1)),
        model.valid_block(block as int, order - 1),
        model.valid_block(block + model.block_size(order - 1), order - 1),
        model.buddy_of(block + model.block_size(order - 1), order - 1) == block,
{
    let half = model.block_size(order - 1);
    let upper = (block + half) as usize;
    let now_held = halved(model, held, block, order);
    assert(model.valid_block(block as int, order));
    lemma_children(model, block as int, order);
    assert(model.is_block(held, block, order));
    // neither half was a block before
    assert(!model.is_block(held, block, order - 1)) by {
        if model.is_block(held, block, order - 1) {
            assert(model.apart(block as int, order - 1, block as int, order));
        }
    }
    assert(!model.is_block(held, upper, order - 1)) by {
        if model.is_block(held, upper, order - 1) {
            assert(model.apart(upper as int, order - 1, block as int, order));
        }
    }
    assert(model.exclusive(now_held)) by {
        assert forall|one: usize, o: int, other: usize, p: int|
            #![trigger model.is_block(now_held, one, o), model.is_block(now_held, other, p)]
            model.is_block(now_held, one, o) && model.is_block(now_held, other, p) && (one, o) != (
                other,
                p,
            ) implies model.apart(one as int, o, other as int, p) by {
            let one_new = (one, o) == (block, order - 1) || (one, o) == (upper, order - 1);
            let other_new = (other, p) == (block, order - 1) || (other, p) == (upper, order - 1);
            if !one_new {
                assert(model.is_block(held, one, o));
                assert(model.apart(one as int, o, block as int, order));
            }
            if !other_new {
                assert(model.is_block(held, other, p));
                assert(model.apart(other as int, p, block as int, order));
            }
        }
    }
    lemma_block_sizes(model, model.depth() - 1);
    assert(0int % model.capacity == 0);
    lemma_tiled_halved(model, held, block, order, model.base, model.depth() - 1);
}

/// What is held after two held buddies were joined: the block they make up
/// instead of them.
pub open spec fn joined(model: BuddyModel, held: Held, block: usize, order: int) -> Held {
    let buddy = model.buddy_of(block as int, order) as usize;
    held.remove((block, order)).remove((buddy, order)).insert(
        (
            if block < buddy {
                block
            } else {
                buddy
            },
            order + 1,
        ),
    )
}

/// Below the order of two joined buddies, what was made up of blocks and is
/// neither of the two is still made up of blocks.
proof fn lemma_tiled_joined_low(
    model: BuddyModel,
    held: Held,
    block: usize,
    order: int,
    address: int,
    at: int,
)
    requires
        at <= order,
        model.tiled(held, address, at),
        (address as usize, at) != (block, order),
        (address as usize, at) != (model.buddy_of(block as int, order) as usize, order),
    ensures
        model.tiled(joined(model, held, block, order), address, at),
    decreases at,
{
    let now_held = joined(model, held, block, order);
    if model.is_block(held, address as usize, at) {
        assert(model.is_block(now_held, address as usize, at));
    } else {
        lemma_tiled_joined_low(model, held, block, order, address, at - 1);
        lemma_tiled_joined_low(
            model,
            held,
            block,
            order,
            address + model.block_size(at - 1),
            at - 1,
        );
    }
}

/// Above the order of two joined buddies, what was made up of blocks is still
/// made up of blocks.
proof fn lemma_tiled_joined_high(
    model: BuddyModel,
    held: Held,
    block: usize,
    order: int,
    address: int,
    at: int,
)
    requires
        model.wf(),
        model.valid_block(block as int, order),
        order + 1 < model.depth(),
        order < at,
        model.valid_block(address, at),
        model.tiled(held, address, at),
    ensures
        model.tiled(joined(model, held, block, order), address, at),
    decreases at,
{
    let now_held = joined(model, held, block, order);
    let buddy = model.buddy_of(block as int, order) as usize;
    let parent = if block < buddy {
        block
    } else {
        buddy
    };
    lemma_buddy(model, block as int, order);
    lemma_block_sizes(model, order);
    if (address as usize, at) == (parent, order + 1) {
        assert(model.is_block(now_held, address as usize, at));
    } else if model.is_block(held, address as usize, at) {
        assert(model.is_block(now_held, address as usize, at));
    } else {
        let half = model.block_size(at - 1);
        lemma_children(model, address, at);
        if at - 1 > order {
            lemma_tiled_joined_high(model, held, block, order, address, at - 1);
            lemma_tiled_joined_high(model, held, block, order, address + half, at - 1);
        } else {
            // two different blocks of the order above lie apart
            lemma_block_sizes(model, at);
            lemma_multiples_apart(address - model.base, parent - model.base, model.block_size(at));
            lemma_tiled_joined_low(model, held, block, order, address, at - 1);
            lemma_tiled_joined_low(model, held, block, order, address + half, at - 1);
        }
    }
}

/// Joining two held buddies into the held block they make up leaves the books
/// in order.
pub proof fn lemma_join(model: BuddyModel, held: Held, block: usize, order: int)
    requires
        model.orderly(held),
        order + 1 < model.depth(),
        held.contains((block, order)),
        held.contains((model.buddy_of(block as int, order) as usize, order)),
    ensures
        model.orderly(joined(model, held, block, order)),
        !held.contains(
            (
                if block < model.buddy_of(block as int, order) as usize {
                    block
                } else {
                    model.buddy_of(block as int, order) as usize
                },
                order + 1,
            ),
        ),
{
    let buddy = model.buddy_of(block as int, order) as usize;
    let parent = if block < buddy {
        block
    } else {
        buddy
    };
    let now_held = joined(model, held, block, order);
    assert(model.valid_block(block as int, order));
    lemma_buddy(model, block as int, order);
    lemma_block_sizes(model, order);
    lemma_block_sizes(model, order + 1);
    assert(model.is_block(held, block, order));
    assert(model.is_block(held, buddy, order));
    assert(!model.is_block(held, parent, order + 1)) by {
        if model.is_block(held, parent, order + 1) {
            assert(model.apart(parent as int, order + 1, block as int, order));
        }
    }
    assert(model.exclusive(now_held)) by {
        assert forall|one: usize, o: int, other: usize, p: int|
            #![trigger model.is_block(now_held, one, o), model.is_block(now_held, other, p)]
            model.is_block(now_held, one, o) && model.is_block(now_held, other, p) && (one, o) != (
                other,
                p,
            ) implies model.apart(one as int, o, other as int, p) by {
            if (one, o) != (parent, order + 1) {
                assert(model.is_block(held, one, o));
                assert(model.apart(one as int, o, block as int, order));
                assert(model.apart(one as int, o, buddy as int, order));
                lemma_block_sizes_positive(model, held, one, o);
            }
            if (other, p) != (parent, order + 1) {
                assert(model.is_block(held, other, p));
                assert(model.apart(other as int, p, block as int, order));
                assert(model.apart(other as int, p, buddy as int, order));
                lemma_block_sizes_positive(model, held, other, p);
            }
        }
    }
    lemma_block_sizes(model, model.depth() - 1);
    assert(0int % model.capacity == 0);
    lemma_tiled_joined_high(model, held, block, order, model.base, model.depth() - 1);
}

/// A block of books that are in order has a size above zero.
proof fn lemma_block_sizes_positive(model: BuddyModel, held: Held, address: usize, order: int)
    requires
        model.orderly(held),
        model.is_block(held, address, order),
    ensures
        model.block_size(order) > 0,
        model.valid_block(address as int, order),
{
    if model.is_free(address, order) {
        let i = choose|i: int|
            0 <= i < model.lists[order].len() && model.lists[order][i] == address;
        assert(model.valid_block(model.lists[order][i] as int, order));
    }
    lemma_block_sizes(model, order);
}

/// Giving back a held block leaves the books in order, with the block no
/// longer held.
pub proof fn lemma_release(model: BuddyModel, held: Held, block: usize, order: int)
    requires
        model.orderly(held),
        held.contains((block, order)),
    ensures
        model.released(block, order).orderly(held.remove((block, order))),
    decreases model.depth() - order,
{
    assert(model.valid_block(block as int, order));
    if order < model.depth() - 1 {
        let buddy = model.buddy_of(block as int, order) as usize;
        lemma_position(model.lists[order], buddy);
        match position_from_head(model.lists[order], buddy) {
            Some(index) => {
                let parent = if block < buddy {
                    block
                } else {
                    buddy
                };
                let taken = model.removed(order, index);
                let with_buddy = held.insert((buddy, order));
                lemma_take(model, held, order, index);
                assert(taken.buddy_of(block as int, order) == model.buddy_of(block as int, order));
                lemma_join(taken, with_buddy, block, order);
                let with_parent = joined(taken, with_buddy, block, order);
                lemma_release(taken, with_parent, parent, order + 1);
                assert(with_parent.remove((parent, order + 1)) =~= held.remove((block, order)));
            },
            None => {
                assert(!model.is_free(buddy, order));
                lemma_give(model, held, block, order);
            },
        }
    } else {
        lemma_give(model, held, block, order);
    }
}

/// The allocator after the upper halves that are left over when the block at
/// `block` is cut down from order `from` to order `target` were put into their
/// free lists, the largest first.
pub open spec fn split_down(model: BuddyModel, block: usize, from: int, target: int) -> BuddyModel
    decreases from - target,
{
    if from <= target {
        model
    } else {
        split_down(
            model.inserted(from - 1, (block + model.block_size(from - 1)) as usize),
            block,
            from - 1,
            target,
        )
    }
}

/// Cutting a held block down to a lower order, the upper halves going into
/// their free lists, leaves the books in order, with the lowest part held.
pub proof fn lemma_split_down(model: BuddyModel, held: Held, block: usize, from: int, target: int)
    requires
        model.orderly(held),
        held.contains((block, from)),
        0 <= target <= from,
    ensures
        split_down(model, block, from, target).orderly(
            held.remove((block, from)).insert((block, target)),
        ),
    decreases from - target,
{
    if from > target {
        let upper = (block + model.block_size(from - 1)) as usize;
        let cut = halved(model, held, block, from);
        lemma_halve(model, held, block, from);
        assert(cut.contains((upper, from - 1)));
        assert(cut.contains((block, from - 1)));
        assert(!model.is_free(block, from - 1));
        if from < model.depth() {
            assert(model.buddy_of(upper as int, from - 1) as usize == block);
        }
        assert(model.valid_block(block as int, from));
        lemma_give(model, cut, upper, from - 1);
        lemma_block_sizes(model, from - 1);
        assert(upper != block);
        let next = model.inserted(from - 1, upper);
        let next_held = cut.remove((upper, from - 1));
        lemma_split_down(next, next_held, block, from - 1, target);
        assert(next_held.remove((block, from - 1)).insert((block, target)) =~= held.remove(
            (block, from),
        ).insert((block, target)));
    } else {
        assert(held.remove((block, from)).insert((block, target)) =~= held);
    }
}

/// Cutting a block down puts one block on each free list between the two
/// orders and leaves the other lists alone.
pub proof fn lemma_split_down_lists(model: BuddyModel, block: usize, from: int, target: int)
    requires
        0 <= target <= from <= model.depth(),
    ensures
        split_down(model, block, from, target) == (BuddyModel {
            lists: Seq::new(
                model.lists.len(),
                |order: int|
                    if target <= order < from {
                        model.lists[order].push((block + model.block_size(order)) as usize)
                    } else {
                        model.lists[order]
                    },
            ),
            ..model
        }),
    decreases from - target,
{
    let wanted = Seq::new(
        model.lists.len(),
        |order: int|
            if target <= order < from {
                model.lists[order].push((block + model.block_size(order)) as usize)
            } else {
                model.lists[order]
            },
    );
    if from > target {
        let next = model.inserted(from - 1, (block + model.block_size(from - 1)) as usize);
        lemma_split_down_lists(next, block, from - 1, target);
        assert(split_down(model, block, from, target).lists =~= wanted);
    } else {
        assert(model.lists =~= wanted);
    }
}

/// The lowest order with a free block lies between the order it is looked for
/// from and the highest, and its list is not empty.
pub proof fn lemma_first_free(model: BuddyModel, from: int)
    requires
        0 <= from,
    ensures
        match model.first_free(from) {
            Some(found) => from <= found < model.depth() && model.lists[found].len() > 0,
            None => true,
        },
    decreases model.depth() - from,
{
    if from < model.depth() && model.lists[from].len() == 0 {
        lemma_first_free(model, from + 1);
    }
}

/// Serving a request leaves the books in order, with the block that was
/// handed out held; a request that is not served changes nothing.
pub proof fn lemma_allocate(model: BuddyModel, held: Held, target: int)
    requires
        model.orderly(held),
        0 <= target < model.depth(),
    ensures
        match model.allocated(target).0 {
            Some(given) => !held.contains((given, target)) && model.allocated(target).1.orderly(
                held.insert((given, target)),
            ),
            None => model.allocated(target).1 == model,
        },
{
    lemma_first_free(model, target);
    if let Some(found) = model.first_free(target) {
        let list = model.lists[found];
        let block = list.last();
        let index = list.len() - 1;
        lemma_take(model, held, found, index);
        let taken = model.removed(found, index);
        let with_block = held.insert((block, found));
        lemma_split_down(taken, with_block, block, found, target);
        lemma_split_down_lists(taken, block, found, target);
        let after = split_down(taken, block, found, target);
        assert(list.remove(index) =~= list.drop_last());
        assert(after.lists =~= model.taken(target, found).lists);
        assert(after == model.taken(target, found));
        assert(with_block.remove((block, found)).insert((block, target)) =~= held.insert(
            (block, target),
        ));
        if held.contains((block, target)) {
            assert(model.is_free(block, found));
            assert(model.is_block(held, block, found));
            assert(model.is_block(held, block, target));
            lemma_block_sizes(model, found);
            lemma_block_sizes(model, target);
            assert(model.apart(block as int, target, block as int, found));
        }
    }
}

/// The order of a request that can be served is one of the allocator's.
pub proof fn lemma_order_in_range(model: BuddyModel, size: int, align: int)
    requires
        model.wf(),
        model.allocation_order(size, align) is Ok,
    ensures
        0 <= model.allocation_order(size, align).unwrap() < model.depth(),
{
    let needed = if size >= align && size >= model.min_block {
        size
    } else if align >= model.min_block {
        align
    } else {
        model.min_block
    };
    let block = next_power_of_two(needed);
    let top = (model.depth() - 1) as nat;
    lemma_next_power_of_two(needed);
    lemma_block_sizes(model, top as int);
    let low = choose|k: nat| model.min_block == #[trigger] pow2(k);
    let high = ceil_log2(needed);
    lemma_ceil_log2_of_power(low);
    lemma_ceil_log2_of_power(high);
    lemma_pow2_adds(low, top);
    if high < low {
        lemma_pow2_strictly_increases(high, low);
    }
    if high > low + top {
        lemma_pow2_strictly_increases(low + top, high);
    }
}

/// One use of an allocator.
pub enum Request {
    /// A request for `size` bytes at alignment `align`.
    Alloc { size: int, align: int },
    /// The return of the block at `ptr`, which served a request for `size`
    /// bytes at alignment `align`.
    Free { ptr: usize, size: int, align: int },
}

/// The allocator and what is held after the requests were made in turn,
/// starting with `model` and `held`. There is no such state where a block is
/// given back that is not held under the order of its request.
pub open spec fn replay(model: BuddyModel, held: Held, requests: Seq<Request>) -> Option<
    (BuddyModel, Held),
>
    decreases requests.len(),
{
    if requests.len() == 0 {
        Some((model, held))
    } else {
        let rest = requests.skip(1);
        match requests[0] {
            Request::Alloc { size, align } => match model.allocation_order(size, align) {
                Ok(target) => match model.allocated(target).0 {
                    Some(given) => replay(
                        model.allocated(target).1,
                        held.insert((given, target)),
                        rest,
                    ),
                    None => replay(model.allocated(target).1, held, rest),
                },
                Err(_) => replay(model, held, rest),
            },
            Request::Free { ptr, size, align } => match model.allocation_order(size, align) {
                Ok(order) => if held.contains((ptr, order)) {
                    replay(model.released(ptr, order), held.remove((ptr, order)), rest)
                } else {
                    None
                },
                Err(_) => None,
            },
        }
    }
}

/// Requests made in turn leave books that are in order in order.
pub proof fn lemma_replay(model: BuddyModel, held: Held, requests: Seq<Request>)
    requires
        model.orderly(held),
        replay(model, held, requests) is Some,
    ensures
        replay(model, held, requests).unwrap().0.orderly(replay(model, held, requests).unwrap().1),
        replay(model, held, requests).unwrap().0.base == model.base,
        replay(model, held, requests).unwrap().0.depth() == model.depth(),
    decreases requests.len(),
{
    if requests.len() > 0 {
        let rest = requests.skip(1);
        match requests[0] {
            Request::Alloc { size, align } => match model.allocation_order(size, align) {
                Ok(target) => {
                    lemma_order_in_range(model, size, align);
                    lemma_allocate(model, held, target);
                    match model.allocated(target).0 {
                        Some(given) => {
                            lemma_replay(
                                model.allocated(target).1,
                                held.insert((given, target)),
                                rest,
                            );
                        },
                        None => {
                            lemma_replay(model, held, rest);
                        },
                    }
                },
                Err(_) => {
                    lemma_replay(model, held, rest);
                },
            },
            Request::Free { ptr, size, align } => {
                let order = model.allocation_order(size, align).unwrap();
                lemma_release(model, held, ptr, order);
                lemma_release_keeps_region(model, ptr, order);
                lemma_replay(model.released(ptr, order), held.remove((ptr, order)), rest);
            },
        }
    }
}

/// Giving a block back changes nothing but the free lists.
pub proof fn lemma_release_keeps_region(model: BuddyModel, block: usize, order: int)
    requires
        0 <= order < model.depth(),
    ensures
        model.released(block, order).base == model.base,
        model.released(block, order).depth() == model.depth(),
    decreases model.depth() - order,
{
    if order < model.depth() - 1 {
        let buddy = model.buddy_of(block as int, order) as usize;
        lemma_position(model.lists[order], buddy);
        match position_from_head(model.lists[order], buddy) {
            Some(index) => {
                lemma_release_keeps_region(
                    model.removed(order, index),
                    if block < buddy {
                        block
                    } else {
                        buddy
                    },
                    order + 1,
                );
            },
            None => {},
        }
    }
}

/// Buddy coalescing: a fresh allocator that served requests and got back, in
/// any order, each block it handed out, under the size and alignment of the
/// block's request, has the free lists it began with.
pub proof fn lemma_balanced_use_restores(model: BuddyModel, requests: Seq<Request>)
    requires
        model.wf(),
        model.lists == fresh_lists(model.base as usize, model.depth()),
        replay(model, Set::empty(), requests) is Some,
        replay(model, Set::empty(), requests).unwrap().1 == Set::<(usize, int)>::empty(),
    ensures
        replay(model, Set::empty(), requests).unwrap().0.lists == model.lists,
{
    lemma_fresh_is_orderly(model);
    lemma_replay(model, Set::empty(), requests);
    lemma_all_back(replay(model, Set::empty(), requests).unwrap().0);
}

} // verus!
