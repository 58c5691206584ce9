//! The data that the front end hands over, and the semantic model built from it.
use vstd::prelude::*;
use crate::symbol::{Symbol, SymbolPool};

verus! {

/// A span within a source file, identified by its file id.
#[derive(Clone, Copy, Debug, PartialEq, Eq, Structural)]
pub struct Loc {
    pub file_id: usize,
    pub start: u32,
    pub end: u32,
}

impl Loc {
    /// The synthetic location of entities that have no source.
    pub fn default_loc() -> (r: Loc)
        ensures
            r == (Loc { file_id: 0, start: 0, end: 0 }),
    {
        Loc { file_id: 0, start: 0, end: 0 }
    }
}

/// The address of a module as written: by name, by number, or an anonymous
/// number the compiler chose.
#[derive(Clone, Copy, Debug, PartialEq, Eq, Structural)]
pub enum Address {
    Named(Symbol),
    Numeric(u128),
    Anonymous(u128),
}

/// A module identity in the expanded program: address and name.
#[derive(Clone, Copy, Debug, PartialEq, Eq, Structural)]
pub struct ModuleIdent {
    pub address: Address,
    pub name: Symbol,
}

/// A specification condition (pre- or post-condition, invariant); its content
/// belongs to the verification tooling and is carried as text.
#[derive(Clone, Debug)]
pub struct Condition {
    pub loc: Loc,
    pub text: String,
}

/// A specification block of a module, attached to the member it names, or to
/// the module itself when it names none.
#[derive(Clone, Debug)]
pub struct SpecBlock {
    pub loc: Loc,
    pub target: Option<Symbol>,
    pub conditions: Vec<Condition>,
}

/// A function of the expanded program.
#[derive(Clone, Debug)]
pub struct ExpandedFunction {
    pub name: Symbol,
    pub loc: Loc,
}

/// A module of the expanded program. `immediate_neighbors` holds the indices,
/// in the program's module list, of the modules it uses.
#[derive(Clone, Debug)]
pub struct ExpandedModule {
    pub ident: ModuleIdent,
    pub loc: Loc,
    pub immediate_neighbors: Vec<usize>,
    pub friends: Vec<usize>,
    pub is_source_module: bool,
    pub functions: Vec<ExpandedFunction>,
    pub specs: Vec<SpecBlock>,
}

/// A top-level script of the expanded program: one function with its specs.
#[derive(Clone, Debug)]
pub struct ExpandedScript {
    pub key: Symbol,
    pub loc: Loc,
    pub immediate_neighbors: Vec<usize>,
    pub function_name: Symbol,
    pub function: ExpandedFunction,
    pub specs: Vec<SpecBlock>,
}

/// A named address declaration, with its value where one is given.
#[derive(Clone, Copy, Debug)]
pub struct AddressDecl {
    pub name: Symbol,
    pub value: Option<u128>,
}

/// The program after name resolution, still carrying specification blocks.
#[derive(Clone, Debug)]
pub struct ExpandedProgram {
    pub addresses: Vec<AddressDecl>,
    pub modules: Vec<ExpandedModule>,
    pub scripts: Vec<ExpandedScript>,
}

impl ExpandedProgram {
    /// The module graph: the neighbours of each module.
    pub open spec fn graph(&self) -> Seq<Seq<usize>> {
        Seq::new(self.modules@.len(), |i: int| self.modules@[i].immediate_neighbors@)
    }

    /// Every neighbour, of a module or a script, names a module of the program.
    pub open spec fn wf(&self) -> bool {
        &&& forall|i: int, j: int|
            0 <= i < self.modules@.len() && 0 <= j < self.modules@[i].immediate_neighbors@.len()
                ==> self.modules@[i].immediate_neighbors@[j] < self.modules@.len()
        &&& forall|i: int, j: int|
            0 <= i < self.scripts@.len() && 0 <= j < self.scripts@[i].immediate_neighbors@.len()
                ==> self.scripts@[i].immediate_neighbors@[j] < self.modules@.len()
    }
}

} // verus!
