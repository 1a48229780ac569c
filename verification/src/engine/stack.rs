//! The operand stack: one backing store of 64-bit words, and frames that are
//! windows into it. A frame's window holds its locals first and its operand
//! stack directly above them.

pub mod stackable;

use vstd::prelude::*;

verus! {

/// One machine word of the stack. How its bits are read is up to the opcode.
pub type StackEntry = u64;

/// Number of bytes in one stack entry.
pub const ENTRY_SIZE: usize = 8;

/// A store of `length` entries, all zero.
pub open spec fn zeroed(length: nat) -> Seq<u64> {
    Seq::new(length, |i: int| 0u64)
}

/// The backing store shared by all frames of one execution.
#[derive(Debug)]
pub struct Stack {
    stack: Vec<StackEntry>,
}

impl View for Stack {
    type V = Seq<u64>;

    closed spec fn view(&self) -> Seq<u64> {
        self.stack@
    }
}

impl Stack {
    /// A store of `capacity` entries, all zero.
    pub fn new(capacity: usize) -> (stack: Self)
        ensures
            stack@ == zeroed(capacity as nat),
    {
        let mut cells: Vec<StackEntry> = Vec::new();
        let mut filled: usize = 0;
        while filled < capacity
            invariant
                filled <= capacity,
                cells@ == zeroed(filled as nat),
            decreases capacity - filled,
        {
            cells.push(0);
            filled += 1;
            assert(cells@ =~= zeroed(filled as nat));
        }
        Stack { stack: cells }
    }

    /// Number of entries the store holds.
    pub fn capacity(&self) -> (capacity: usize)
        ensures
            capacity == self@.len(),
    {
        self.stack.len()
    }

    /// The frame anchored at index 0, with `locals_size` locals and room for
    /// `stack_size` operands. There is one exactly when both fit in the store.
    pub fn initial_frame(&mut self, locals_size: usize, stack_size: usize) -> (frame: Option<
        StackFrame<'_>,
    >)
        ensures
            frame is Some <==> locals_size + stack_size <= old(self)@.len(),
            frame is Some ==> ({
                let f = frame.unwrap();
                &&& f.wf()
                &&& f.locals_base() == 0
                &&& f.stack_base() == locals_size
                &&& f.size() == stack_size
                &&& f.stack_pointer() == 0
                &&& f.storage() == old(self)@
                &&& *final(self) == *final(f.origin)
            }),
            frame is None ==> *final(self) == *old(self),
    {
        let capacity = self.stack.len();
        if locals_size <= capacity && stack_size <= capacity - locals_size {
            Some(StackFrame::new(self, 0, locals_size, stack_size))
        } else {
            None
        }
    }
}

/// What a frame means to the instructions that run in it: its locals, its live
/// operands with the top last, and how many operands it has room for.
pub struct FrameModel {
    pub locals: Seq<u64>,
    pub operands: Seq<u64>,
    pub capacity: nat,
}

impl FrameModel {
    /// This frame with `value` on top of its operands.
    pub open spec fn pushed(self, value: u64) -> FrameModel {
        FrameModel { operands: self.operands.push(value), ..self }
    }

    /// This frame without its top operand.
    pub open spec fn popped(self) -> FrameModel {
        FrameModel { operands: self.operands.drop_last(), ..self }
    }

    /// This frame with `value` in the local at `index`.
    pub open spec fn with_local(self, index: int, value: u64) -> FrameModel {
        FrameModel { locals: self.locals.update(index, value), ..self }
    }

    /// Whether the operand stack has no room left.
    pub open spec fn full(self) -> bool {
        self.operands.len() >= self.capacity
    }
}

/// A window into a [`Stack`]: locals in `[locals_base, stack_base)`, operands in
/// `[stack_base, stack_base + size)`, of which the lowest `stack_pointer` are live.
///
/// The operations of a frame never exchange the store it refers to: what
/// `origin` refers to when the frame is dropped is what the stack holds then.
#[derive(Debug)]
pub struct StackFrame<'a> {
    /// The store the frame is a window into.
    pub origin: &'a mut Stack,
    /// Index of the first local.
    pub locals_base: usize,
    /// Index of the lowest operand, and first index above the locals.
    pub stack_base: usize,
    /// Number of live operands.
    pub stack_pointer: usize,
    /// Number of operands the frame has room for.
    pub size: usize,
}

impl<'a> StackFrame<'a> {
    /// The whole backing store as the frame currently sees it.
    pub open spec fn storage(&self) -> Seq<u64> {
        self.origin@
    }

    /// Index of the first local.
    pub open spec fn spec_locals_base(&self) -> usize {
        self.locals_base
    }

    /// Index of the lowest operand, and first index above the locals.
    pub open spec fn spec_stack_base(&self) -> usize {
        self.stack_base
    }

    /// Number of live operands.
    pub open spec fn spec_stack_pointer(&self) -> usize {
        self.stack_pointer
    }

    /// Number of operands the frame has room for.
    pub open spec fn spec_size(&self) -> usize {
        self.size
    }

    /// The window lies inside the store and the operand count is within the
    /// operand capacity.
    pub open spec fn wf(&self) -> bool {
        &&& self.locals_base() <= self.stack_base()
        &&& self.stack_base() + self.size() <= self.storage().len()
        &&& self.stack_pointer() <= self.size()
    }

    /// First index above the window.
    pub open spec fn top(&self) -> int {
        self.stack_base() + self.size()
    }

    /// The live operands, bottom first.
    pub open spec fn operands(&self) -> Seq<u64> {
        self.storage().subrange(
            self.stack_base() as int,
            self.stack_base() + self.stack_pointer(),
        )
    }

    /// The local variables, by index.
    pub open spec fn locals(&self) -> Seq<u64> {
        self.storage().subrange(self.locals_base() as int, self.stack_base() as int)
    }

    /// The frame as the instructions see it.
    pub open spec fn model(&self) -> FrameModel {
        FrameModel {
            locals: self.locals(),
            operands: self.operands(),
            capacity: self.size() as nat,
        }
    }

    /// Both frames have the same window: bases and operand capacity.
    pub open spec fn same_window(&self, other: &Self) -> bool {
        &&& self.locals_base() == other.locals_base()
        &&& self.stack_base() == other.stack_base()
        &&& self.size() == other.size()
    }

    /// This frame is `before` after some writes inside its own window: it is
    /// well formed, the window is the same, and the store has its length and
    /// every entry outside the window as before.
    pub open spec fn steps_from(&self, before: &Self) -> bool {
        &&& self.wf()
        &&& self.same_window(before)
        &&& self.storage().len() == before.storage().len()
        &&& forall|i: int|
            0 <= i < self.storage().len() && !(self.locals_base() <= i < self.top())
                ==> self.storage()[i] == before.storage()[i]
    }

    /// `child` is the empty frame directly above this one, with `locals_size`
    /// locals and room for `stack_size` operands, over the same store.
    pub open spec fn is_child(&self, child: &Self, locals_size: usize, stack_size: usize) -> bool {
        &&& child.wf()
        &&& child.locals_base() == self.top()
        &&& child.stack_base() == self.top() + locals_size
        &&& child.size() == stack_size
        &&& child.stack_pointer() == 0
        &&& child.storage() == self.storage()
    }

    /// An empty frame over `origin` with the given window.
    pub fn new(origin: &'a mut Stack, locals_base: usize, stack_base: usize, size: usize) -> (frame:
        Self)
        requires
            locals_base <= stack_base,
            stack_base + size <= old(origin)@.len(),
        ensures
            frame.wf(),
            frame.locals_base() == locals_base,
            frame.stack_base() == stack_base,
            frame.size() == size,
            frame.stack_pointer() == 0,
            frame.storage() == old(origin)@,
            *final(origin) == *final(frame.origin),
    {
        StackFrame { origin, locals_base, stack_base, stack_pointer: 0, size }
    }

    /// Runs `action` on a fresh child frame directly above this one, with
    /// `locals_size` locals and room for `stack_size` operands, and says whether
    /// the child fit into the store. Without room, `action` is not run.
    ///
    /// The parent's window and operand count never change. What the store holds
    /// afterwards is what `action` left. Where `action` keeps the store's length
    /// and every entry below the child, the parent is well formed again and its
    /// locals and operands are as before; where it does not exchange the store,
    /// the parent refers to the store it referred to.
    pub fn with_next_frame<F>(&mut self, locals_size: usize, stack_size: usize, action: F) -> (created:
        bool) where F: FnOnce(&mut StackFrame<'a>)
        requires
            old(self).wf(),
            forall|child: &mut StackFrame<'a>|
                old(self).is_child(child, locals_size, stack_size) && *final(child.origin)
                    == *final(old(self).origin) ==> #[trigger] call_requires(action, (child,)),
        ensures
            created <==> old(self).top() + locals_size + stack_size <= old(self).storage().len(),
            final(self).same_window(old(self)),
            final(self).stack_pointer() == old(self).stack_pointer(),
            !created ==> final(self).storage() == old(self).storage()
                && *final(final(self).origin) == *final(old(self).origin),
            created ==> exists|child: &mut StackFrame<'a>|
                ({
                    &&& old(self).is_child(child, locals_size, stack_size)
                    &&& *final(child.origin) == *final(old(self).origin)
                    &&& #[trigger] call_ensures(action, (child,), ())
                    &&& final(self).storage() == final(child).storage()
                    &&& *final(final(self).origin) == *final(final(child).origin)
                }),
            (forall|child: &mut StackFrame<'a>|
                old(self).is_child(child, locals_size, stack_size) && #[trigger] call_ensures(
                    action,
                    (child,),
                    (),
                ) ==> kept_below(child.storage(), final(child).storage(), old(self).top())) ==> ({
                &&& final(self).wf()
                &&& final(self).locals() == old(self).locals()
                &&& final(self).operands() == old(self).operands()
            }),
            (forall|child: &mut StackFrame<'a>|
                old(self).is_child(child, locals_size, stack_size) && #[trigger] call_ensures(
                    action,
                    (child,),
                    (),
                ) ==> *final(final(child).origin) == *final(child.origin))
                ==> *final(final(self).origin) == *final(old(self).origin),
    {
        proof {
            vstd::std_specs::vec::axiom_spec_len(&self.origin.stack);
        }
        let capacity = self.origin.stack.len();
        let end = self.stack_base + self.size;
        if locals_size <= capacity - end && stack_size <= capacity - end - locals_size {
            let ghost before = self.storage();
            let parent_locals_base = self.locals_base;
            let parent_stack_base = self.stack_base;
            let parent_stack_pointer = self.stack_pointer;
            let parent_size = self.size;
            self.locals_base = end;
            self.stack_base = end + locals_size;
            self.stack_pointer = 0;
            self.size = stack_size;
            action(self);
            self.locals_base = parent_locals_base;
            self.stack_base = parent_stack_base;
            self.stack_pointer = parent_stack_pointer;
            self.size = parent_size;
            proof {
                if kept_below(before, self.storage(), end as int) {
                    lemma_parent_kept(
                        before,
                        self.storage(),
                        self.locals_base as int,
                        self.stack_base as int,
                        self.stack_pointer as int,
                        end as int,
                    );
                }
            }
            true
        } else {
            false
        }
    }

    /// Pushes `value` unless the operand stack is full; says whether it did.
    pub fn push(&mut self, value: StackEntry) -> (pushed: bool)
        requires
            old(self).wf(),
        ensures
            final(self).steps_from(old(self)),
            *final(final(self).origin) == *final(old(self).origin),
            pushed <==> old(self).stack_pointer() < old(self).size(),
            pushed ==> ({
                &&& final(self).stack_pointer() == old(self).stack_pointer() + 1
                &&& final(self).storage() == old(self).storage().update(
                    old(self).stack_base() + old(self).stack_pointer(),
                    value,
                )
                &&& final(self).operands() == old(self).operands().push(value)
            }),
            !pushed ==> ({
                &&& final(self).stack_pointer() == old(self).stack_pointer()
                &&& final(self).storage() == old(self).storage()
            }),
            final(self).locals() == old(self).locals(),
    {
        proof {
            vstd::std_specs::vec::axiom_spec_len(&self.origin.stack);
        }
        if self.stack_pointer >= self.size {
            return false;
        }
        self.origin.stack[self.stack_base + self.stack_pointer] = value;
        self.stack_pointer += 1;
        assert(self.operands() =~= old(self).operands().push(value));
        assert(self.locals() =~= old(self).locals());
        true
    }

    /// Removes and returns the top operand; `None` on an empty operand stack.
    pub fn pop(&mut self) -> (popped: Option<StackEntry>)
        requires
            old(self).wf(),
        ensures
            final(self).steps_from(old(self)),
            *final(final(self).origin) == *final(old(self).origin),
            final(self).storage() == old(self).storage(),
            popped is Some <==> old(self).stack_pointer() > 0,
            popped is Some ==> ({
                &&& popped.unwrap() == old(self).operands().last()
                &&& final(self).stack_pointer() == old(self).stack_pointer() - 1
                &&& final(self).operands() == old(self).operands().drop_last()
            }),
            popped is None ==> final(self).stack_pointer() == old(self).stack_pointer(),
    {
        proof {
            vstd::std_specs::vec::axiom_spec_len(&self.origin.stack);
        }
        if self.stack_pointer == 0 {
            return None;
        }
        self.stack_pointer -= 1;
        assert(self.operands() =~= old(self).operands().drop_last());
        Some(self.origin.stack[self.stack_base + self.stack_pointer])
    }

    /// The top operand, left in place; `None` on an empty operand stack.
    pub fn peek(&self) -> (seen: Option<&StackEntry>)
        requires
            self.wf(),
        ensures
            seen is Some <==> self.stack_pointer() > 0,
            seen is Some ==> *seen.unwrap() == self.operands().last(),
    {
        proof {
            vstd::std_specs::vec::axiom_spec_len(&self.origin.stack);
        }
        if self.stack_pointer == 0 {
            return None;
        }
        Some(&self.origin.stack[self.stack_base + self.stack_pointer - 1])
    }

    /// The local at `index`; `None` where the frame has no such local.
    pub fn get_local(&self, index: usize) -> (value: Option<StackEntry>)
        requires
            self.wf(),
        ensures
            value is Some <==> self.locals_base() + index < self.stack_base(),
            value is Some ==> value.unwrap() == self.locals()[index as int],
    {
        proof {
            vstd::std_specs::vec::axiom_spec_len(&self.origin.stack);
        }
        if index >= self.stack_base - self.locals_base {
            return None;
        }
        Some(self.origin.stack[self.locals_base + index])
    }

    /// Stores `value` in the local at `index` and returns what it held; `None`,
    /// and nothing stored, where the frame has no such local.
    pub fn set_local(&mut self, index: usize, value: StackEntry) -> (previous: Option<StackEntry>)
        requires
            old(self).wf(),
        ensures
            final(self).steps_from(old(self)),
            *final(final(self).origin) == *final(old(self).origin),
            final(self).stack_pointer() == old(self).stack_pointer(),
            previous is Some <==> old(self).locals_base() + index < old(self).stack_base(),
            previous is Some ==> ({
                &&& previous.unwrap() == old(self).locals()[index as int]
                &&& final(self).storage() == old(self).storage().update(
                    old(self).locals_base() + index,
                    value,
                )
                &&& final(self).locals() == old(self).locals().update(index as int, value)
            }),
            previous is None ==> final(self).storage() == old(self).storage(),
            final(self).operands() == old(self).operands(),
    {
        proof {
            vstd::std_specs::vec::axiom_spec_len(&self.origin.stack);
        }
        if index >= self.stack_base - self.locals_base {
            return None;
        }
        let slot = self.locals_base + index;
        let previous = self.origin.stack[slot];
        self.origin.stack[slot] = value;
        assert(self.locals() =~= old(self).locals().update(index as int, value));
        assert(self.operands() =~= old(self).operands());
        Some(previous)
    }

    /// Index of the first local.
    #[verifier::when_used_as_spec(spec_locals_base)]
    pub fn locals_base(&self) -> (base: usize)
        ensures
            base == self.locals_base(),
    {
        self.locals_base
    }

    /// Index of the lowest operand, and first index above the locals.
    #[verifier::when_used_as_spec(spec_stack_base)]
    pub fn stack_base(&self) -> (base: usize)
        ensures
            base == self.stack_base(),
    {
        self.stack_base
    }

    /// Number of live operands.
    #[verifier::when_used_as_spec(spec_stack_pointer)]
    pub fn stack_pointer(&self) -> (count: usize)
        ensures
            count == self.stack_pointer(),
    {
        self.stack_pointer
    }

    /// Number of operands the frame has room for.
    #[verifier::when_used_as_spec(spec_size)]
    pub fn size(&self) -> (size: usize)
        ensures
            size == self.size(),
    {
        self.size
    }
}

/// `after` has the length of `before` and the same entry at every index below
/// `limit`.
pub open spec fn kept_below(before: Seq<u64>, after: Seq<u64>, limit: int) -> bool {
    &&& after.len() == before.len()
    &&& forall|i: int| 0 <= i < limit && i < before.len() ==> after[i] == before[i]
}

/// Frame isolation: a frame whose window ends at or below `limit` has the same
/// locals and operands in two stores that agree below `limit`. Every write
/// through a child frame lands at or above the child's `locals_base`, which is
/// the parent's `top`, so it leaves the parent's window as it was.
pub proof fn lemma_parent_kept(
    before: Seq<u64>,
    after: Seq<u64>,
    locals_base: int,
    stack_base: int,
    stack_pointer: int,
    limit: int,
)
    requires
        kept_below(before, after, limit),
        0 <= locals_base <= stack_base,
        0 <= stack_pointer,
        stack_base + stack_pointer <= limit <= before.len(),
    ensures
        after.subrange(locals_base, stack_base) == before.subrange(locals_base, stack_base),
        after.subrange(stack_base, stack_base + stack_pointer) == before.subrange(
            stack_base,
            stack_base + stack_pointer,
        ),
{
    assert(after.subrange(locals_base, stack_base) =~= before.subrange(locals_base, stack_base));
    assert(after.subrange(stack_base, stack_base + stack_pointer) =~= before.subrange(
        stack_base,
        stack_base + stack_pointer,
    ));
}

} // verus!
