//! The global environment: source files, modules, and accumulated diagnostics.
use vstd::prelude::*;
use crate::model::{Condition, Loc};
use crate::symbol::{Symbol, SymbolPool};

verus! {

/// A registered source file; `is_dep` marks files that only hold library definitions.
pub struct SourceFile {
    pub name: String,
    pub is_dep: bool,
}

/// A message attached to a location.
pub struct Label {
    pub loc: Loc,
    pub message: String,
}

/// An error with its primary label and any secondary ones.
pub struct Diagnostic {
    pub primary: Label,
    pub secondary: Vec<Label>,
}

/// A module's name in the model: resolved address and interned name.
#[derive(Clone, Copy, Debug, PartialEq, Eq, Structural)]
pub struct ModuleName {
    pub address: u128,
    pub name: Symbol,
}

/// A function of a module. A stub has no source location and no specification.
pub struct FunctionData {
    pub name: Symbol,
    pub def_idx: u16,
    pub handle_idx: u16,
    pub loc: Loc,
    pub spec: Vec<Condition>,
}

/// A struct of a module.
pub struct StructData {
    pub name: Symbol,
    pub def_idx: u16,
    pub loc: Loc,
}

/// A module of the model. `functions[i]` and `structs[i]` are the definitions
/// with bytecode index `i`, which makes the index tables implicit.
pub struct ModuleData {
    pub id: usize,
    pub name: ModuleName,
    pub loc: Loc,
    pub is_script: bool,
    pub functions: Vec<FunctionData>,
    pub structs: Vec<StructData>,
}

/// The environment that every later stage reads. Module `i` has id `i`, and the
/// list is in compilation order: dependencies before dependents.
pub struct GlobalEnv {
    pub symbols: SymbolPool,
    pub files: Vec<SourceFile>,
    pub docs: Vec<(usize, String)>,
    pub modules: Vec<ModuleData>,
    pub diags: Vec<Diagnostic>,
}

impl GlobalEnv {
    pub open spec fn wf(&self) -> bool {
        &&& self.symbols.wf()
        &&& forall|i: int| 0 <= i < self.modules@.len() ==> #[trigger] self.modules@[i].id == i
    }

    /// The names of the registered files, by file id.
    pub open spec fn file_names(&self) -> Seq<Seq<char>> {
        Seq::new(self.files@.len(), |i: int| self.files@[i].name@)
    }

    pub fn new() -> (r: GlobalEnv)
        ensures
            r.wf(),
            r.symbols@.len() == 0,
            r.files@.len() == 0,
            r.docs@.len() == 0,
            r.modules@.len() == 0,
            r.diags@.len() == 0,
    {
        GlobalEnv {
            symbols: SymbolPool::new(),
            files: Vec::new(),
            docs: Vec::new(),
            modules: Vec::new(),
            diags: Vec::new(),
        }
    }

    /// Registers a source file; its id is its position in the file table.
    pub fn add_source(&mut self, name: String, is_dep: bool) -> (id: usize)
        ensures
            id == old(self).files@.len(),
            final(self).files@.len() == old(self).files@.len() + 1,
            forall|i: int| 0 <= i < id ==> final(self).files@[i] == old(self).files@[i],
            final(self).files@[id as int].name@ == name@,
            final(self).files@[id as int].is_dep == is_dep,
            final(self).symbols == old(self).symbols,
            final(self).modules == old(self).modules,
            final(self).diags == old(self).diags,
            final(self).docs == old(self).docs,
    {
        let id = self.files.len();
        self.files.push(SourceFile { name, is_dep });
        id
    }

    /// The id of the first file registered under `name`.
    pub fn get_file_id(&self, name: &String) -> (r: Option<usize>)
        ensures
            r is None <==> !self.file_names().contains(name@),
            r matches Some(id) ==> id < self.files@.len() && self.files@[id as int].name@ == name@
                && forall|j: int| 0 <= j < id ==> self.files@[j].name@ != name@,
    {
        let mut i: usize = 0;
        while i < self.files.len()
            invariant
                i <= self.files@.len(),
                forall|j: int| 0 <= j < i ==> self.files@[j].name@ != name@,
            decreases self.files@.len() - i,
        {
            if self.files[i].name.eq(name) {
                assert(self.file_names()[i as int] == name@);
                return Some(i);
            }
            i += 1;
        }
        proof {
            assert forall|j: int| 0 <= j < self.file_names().len() implies self.file_names()[j] != name@ by {}
        }
        None
    }

    /// Attaches documentation comments to a file.
    pub fn add_documentation(&mut self, file_id: usize, doc: String)
        ensures
            final(self).docs@ == old(self).docs@.push((file_id, doc)),
            final(self).files == old(self).files,
            final(self).symbols == old(self).symbols,
            final(self).modules == old(self).modules,
            final(self).diags == old(self).diags,
    {
        self.docs.push((file_id, doc));
    }

    /// Records a diagnostic; none is ever dropped.
    pub fn add_diag(&mut self, d: Diagnostic)
        ensures
            final(self).diags@ == old(self).diags@.push(d),
            final(self).files == old(self).files,
            final(self).symbols == old(self).symbols,
            final(self).modules == old(self).modules,
            final(self).docs == old(self).docs,
    {
        self.diags.push(d);
    }
}

} // verus!
