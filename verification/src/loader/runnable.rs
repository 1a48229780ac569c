//! A function that has been checked and can be run.

use crate::loader::parser::Directive;
use vstd::prelude::*;

verus! {

/// A function record with its sizes taken out of the directives.
pub struct Runnable<'a> {
    maxstack: u16,
    maxlocals: u16,
    directives: Vec<Directive>,
    bytecode: &'a [u8],
}

/// A runnable as plain values.
pub struct RunnableModel {
    pub max_stack: u16,
    pub max_locals: u16,
    pub residual: Seq<Directive>,
    pub code: Seq<u8>,
}

/// The `MaxStack` directives among `directives`, in order.
pub open spec fn stack_sizes(directives: Seq<Directive>) -> Seq<Directive> {
    directives.filter(|d: Directive| d is MaxStack)
}

/// The `MaxLocals` directives among `directives`, in order.
pub open spec fn local_sizes(directives: Seq<Directive>) -> Seq<Directive> {
    directives.filter(|d: Directive| d is MaxLocals)
}

/// The directives that set no size, in order.
pub open spec fn residual(directives: Seq<Directive>) -> Seq<Directive> {
    directives.filter(|d: Directive| !(d is MaxStack) && !(d is MaxLocals))
}

/// The runnable that `directives` and `code` describe. There is one exactly
/// when one `MaxStack` and one `MaxLocals` directive are present and the code
/// is not empty.
pub open spec fn runnable_of(directives: Seq<Directive>, code: Seq<u8>) -> Option<RunnableModel> {
    if stack_sizes(directives).len() == 1 && local_sizes(directives).len() == 1 && code.len() > 0 {
        Some(
            RunnableModel {
                max_stack: stack_sizes(directives)[0]->MaxStack_0,
                max_locals: local_sizes(directives)[0]->MaxLocals_0,
                residual: residual(directives),
                code,
            },
        )
    } else {
        None
    }
}

impl<'a> View for Runnable<'a> {
    type V = RunnableModel;

    closed spec fn view(&self) -> RunnableModel {
        RunnableModel {
            max_stack: self.maxstack,
            max_locals: self.maxlocals,
            residual: self.directives@,
            code: self.bytecode@,
        }
    }
}

impl<'a> Runnable<'a> {
    /// The code is not empty.
    pub open spec fn wf(&self) -> bool {
        self@.code.len() > 0
    }

    /// Builds a runnable from a function's directives and code. A second
    /// `MaxStack` or `MaxLocals`, a missing one, or empty code make it fail.
    pub fn from_parsed_data(directives: &[Directive], bytecode: &'a [u8]) -> (runnable: Option<Self>)
        ensures
            match runnable {
                Some(built) => built.wf() && runnable_of(directives@, bytecode@) == Some(built@),
                None => runnable_of(directives@, bytecode@) is None,
            },
    {
        let mut max_stack: Option<u16> = None;
        let mut max_locals: Option<u16> = None;
        let mut stack_count: usize = 0;
        let mut locals_count: usize = 0;
        let mut optionals: Vec<Directive> = Vec::new();
        let mut at: usize = 0;
        while at < directives.len()
            invariant
                at <= directives@.len(),
                stack_count == stack_sizes(directives@.take(at as int)).len(),
                locals_count == local_sizes(directives@.take(at as int)).len(),
                optionals@ == residual(directives@.take(at as int)),
                stack_count > 0 ==> max_stack == Some(
                    stack_sizes(directives@.take(at as int))[0]->MaxStack_0,
                ),
                locals_count > 0 ==> max_locals == Some(
                    local_sizes(directives@.take(at as int))[0]->MaxLocals_0,
                ),
                stack_count <= at,
                locals_count <= at,
            decreases directives@.len() - at,
        {
            let directive = directives[at];
            proof {
                let before = directives@.take(at as int);
                let after = directives@.take(at + 1);
                assert(after.drop_last() =~= before);
                assert(after.last() == directive);
                reveal(Seq::filter);
            }
            match directive {
                Directive::MaxStack(size) => {
                    if stack_count == 0 {
                        max_stack = Some(size);
                    }
                    stack_count += 1;
                },
                Directive::MaxLocals(size) => {
                    if locals_count == 0 {
                        max_locals = Some(size);
                    }
                    locals_count += 1;
                },
                other => {
                    optionals.push(other);
                },
            }
            at += 1;
        }
        assert(directives@.take(at as int) =~= directives@);
        if stack_count != 1 || locals_count != 1 || bytecode.len() == 0 {
            return None;
        }
        match (max_stack, max_locals) {
            (Some(stack_size), Some(locals_size)) => Some(
                Runnable {
                    maxstack: stack_size,
                    maxlocals: locals_size,
                    directives: optionals,
                    bytecode,
                },
            ),
            _ => None,
        }
    }

    /// The directives that set no size, in the order of the function record.
    pub fn directives(&self) -> (directives: &[Directive])
        ensures
            directives@ == self@.residual,
    {
        self.directives.as_slice()
    }

    /// What a frame for this function needs: the operand stack size, then the
    /// number of locals.
    pub fn setup_info(&self) -> (sizes: (usize, usize))
        ensures
            sizes.0 == self@.max_stack,
            sizes.1 == self@.max_locals,
    {
        (self.maxstack as usize, self.maxlocals as usize)
    }

    /// The function's code.
    pub fn code(&self) -> (code: &'a [u8])
        ensures
            code@ == self@.code,
    {
        self.bytecode
    }

    /// Whether the function is marked as the one at which execution starts.
    pub fn is_entry_point(&self) -> (marked: bool)
        ensures
            marked <==> self@.residual.contains(Directive::Start),
    {
        let mut at: usize = 0;
        while at < self.directives.len()
            invariant
                at <= self.directives@.len(),
                forall|i: int| 0 <= i < at ==> self.directives@[i] != Directive::Start,
            decreases self.directives@.len() - at,
        {
            if self.directives[at] == Directive::Start {
                return true;
            }
            at += 1;
        }
        false
    }
}

} // verus!
