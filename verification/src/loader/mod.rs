//! Loading of a program image: decoding, checking, and handing out what the
//! engine runs.

pub mod bytes;
pub mod constant_table;
pub mod parser;
pub mod runnable;
pub mod serialize;

use crate::loader::bytes::ParseError;
use crate::loader::constant_table::ConstantTable;
use crate::loader::parser::{
    function_views, parse_layout, Directive, FileLayout, FunctionInfo, FunctionModel, LayoutModel,
};
use crate::loader::runnable::{runnable_of, Runnable, RunnableModel};
use vstd::prelude::*;

verus! {

/// Why an image could not be loaded.
#[derive(Clone, Copy, Debug, PartialEq, Eq, Structural)]
pub enum LoaderError {
    /// The image could not be read from where it is kept.
    FileReadError,
    /// The bytes are no image.
    LayoutError(ParseError),
    /// A function lacks one of its sizes, sets one twice, or has no code.
    InvalidFunction,
}

/// A loaded image, every function of which can be run.
pub struct Loader {
    layout: FileLayout,
}

/// `function` has a runnable.
pub open spec fn can_run(function: FunctionModel) -> bool {
    runnable_of(function.directives, function.code) is Some
}

/// Every function of `functions` has a runnable.
pub open spec fn all_runnable(functions: Seq<FunctionModel>) -> bool {
    forall|i: int| 0 <= i < functions.len() ==> can_run(#[trigger] functions[i])
}

/// What loading `bytes` gives: the decoded image where it decodes and all its
/// functions can be run.
pub open spec fn load(bytes: Seq<u8>) -> Result<LayoutModel, LoaderError> {
    match parse_layout(bytes) {
        Ok(layout) => if all_runnable(layout.functions) {
            Ok(layout)
        } else {
            Err(LoaderError::InvalidFunction)
        },
        Err(error) => Err(LoaderError::LayoutError(error)),
    }
}

/// Index of the first function at or after `from` that is marked as the start,
/// if there is one.
pub open spec fn entry_index(functions: Seq<FunctionModel>, from: int) -> Option<int>
    decreases functions.len() - from,
{
    if from < 0 || from >= functions.len() {
        None
    } else if functions[from].directives.contains(Directive::Start) {
        Some(from)
    } else {
        entry_index(functions, from + 1)
    }
}

/// The runnable of the first function that is marked as the start.
pub open spec fn entry_point(functions: Seq<FunctionModel>) -> Option<RunnableModel> {
    match entry_index(functions, 0) {
        Some(index) => runnable_of(functions[index].directives, functions[index].code),
        None => None,
    }
}

impl View for Loader {
    type V = LayoutModel;

    closed spec fn view(&self) -> LayoutModel {
        self.layout@
    }
}

impl Loader {
    /// Every function of the image can be run.
    pub open spec fn wf(&self) -> bool {
        all_runnable(self@.functions)
    }

    /// Loads the image that `bytes` hold.
    pub fn from_bytes(bytes: &[u8]) -> (outcome: Result<Self, LoaderError>)
        ensures
            match outcome {
                Ok(loader) => loader.wf() && load(bytes@) == Ok::<LayoutModel, LoaderError>(
                    loader@,
                ),
                Err(error) => load(bytes@) == Err::<LayoutModel, LoaderError>(error),
            },
    {
        let layout = match FileLayout::from_bytes(bytes) {
            Ok(layout) => layout,
            Err(error) => {
                return Err(LoaderError::LayoutError(error));
            },
        };
        let functions = layout.functions();
        let mut at: usize = 0;
        while at < functions.len()
            invariant
                at <= functions@.len(),
                function_views(functions@) == layout@.functions,
                parse_layout(bytes@) == Ok::<LayoutModel, ParseError>(layout@),
                forall|i: int| 0 <= i < at ==> can_run(#[trigger] layout@.functions[i]),
            decreases functions@.len() - at,
        {
            let function = &functions[at];
            assert(function@ == layout@.functions[at as int]);
            match Runnable::from_parsed_data(function.directives(), function.code()) {
                Some(_) => {
                    assert(can_run(layout@.functions[at as int]));
                },
                None => {
                    assert(!can_run(layout@.functions[at as int]));
                    return Err(LoaderError::InvalidFunction);
                },
            }
            at += 1;
        }
        Ok(Loader { layout })
    }

    /// The function at which execution starts: the first one that carries a
    /// start directive.
    pub fn get_entry_point(&self) -> (entry: Option<Runnable<'_>>)
        ensures
            match entry {
                Some(runnable) => runnable.wf() && entry_point(self@.functions) == Some(runnable@),
                None => entry_point(self@.functions) is None,
            },
    {
        let functions = self.layout.functions();
        let mut at: usize = 0;
        while at < functions.len()
            invariant
                at <= functions@.len(),
                function_views(functions@) == self@.functions,
                entry_index(self@.functions, 0) == entry_index(self@.functions, at as int),
            decreases functions@.len() - at,
        {
            let function = &functions[at];
            assert(function@ == self@.functions[at as int]);
            if function.has_directive(Directive::Start) {
                return Runnable::from_parsed_data(function.directives(), function.code());
            }
            at += 1;
        }
        None
    }

    /// The constant pool of the image.
    pub fn get_constant_table(&self) -> (constants: ConstantTable<'_>)
        ensures
            constants@.len() == self@.constants.len(),
            forall|i: int|
                0 <= i < self@.constants.len() ==> (#[trigger] constants@[i]).matches(
                    self@.constants[i],
                ),
    {
        ConstantTable::from_parsed_table(self.layout.constants())
    }
}

} // verus!
