//! The model-building pipeline: parse, expand, select, compile, verify, merge.
//! The front-end stages run outside the library; this state machine takes each
//! stage's outcome and decides what the environment records and what runs next.
use vstd::prelude::*;
use crate::closure::{select_reachable, selected, address_used, contains_usize};
use crate::env::{Diagnostic, GlobalEnv, Label};
use crate::merge::{keys_unique, matched_units, records_unit, run_spec_checker, unit_fits, CompiledUnit};
use crate::model::{ExpandedProgram, Loc};

verus! {

/// A location as the front end reports it: by file name.
pub struct FrontLoc {
    pub file: String,
    pub start: u32,
    pub end: u32,
}

/// A message of a front-end error at a location.
pub struct FrontLabel {
    pub loc: FrontLoc,
    pub message: String,
}

/// A front-end error: its primary label first, then the secondary ones.
pub struct FrontError {
    pub labels: Vec<FrontLabel>,
}

/// The error has a primary label, and each label names a file of `names`.
pub open spec fn error_resolves(names: Seq<Seq<char>>, e: FrontError) -> bool {
    &&& e.labels@.len() > 0
    &&& forall|j: int| 0 <= j < e.labels@.len() ==> names.contains(#[trigger] e.labels@[j].loc.file@)
}

pub open spec fn errors_resolve(names: Seq<Seq<char>>, es: Seq<FrontError>) -> bool {
    forall|i: int| 0 <= i < es.len() ==> error_resolves(names, #[trigger] es[i])
}

/// `l` is the model's form of `fl`: the same span and message, in the first
/// file registered under its file name.
pub open spec fn label_of(names: Seq<Seq<char>>, l: Label, fl: FrontLabel) -> bool {
    &&& l.loc.file_id < names.len()
    &&& names[l.loc.file_id as int] == fl.loc.file@
    &&& forall|k: int| 0 <= k < l.loc.file_id ==> names[k] != fl.loc.file@
    &&& l.loc.start == fl.loc.start
    &&& l.loc.end == fl.loc.end
    &&& l.message@ == fl.message@
}

/// `d` is the model's form of error `e`.
pub open spec fn diag_of(names: Seq<Seq<char>>, d: Diagnostic, e: FrontError) -> bool {
    &&& label_of(names, d.primary, e.labels@[0])
    &&& d.secondary@.len() + 1 == e.labels@.len()
    &&& forall|j: int| 0 <= j < d.secondary@.len() ==> label_of(names, #[trigger] d.secondary@[j], e.labels@[j + 1])
}

fn convert_label(env: &GlobalEnv, fl: &FrontLabel) -> (l: Label)
    requires
        env.file_names().contains(fl.loc.file@),
    ensures
        label_of(env.file_names(), l, *fl),
{
    let id = env.get_file_id(&fl.loc.file).unwrap();
    proof {
        assert forall|k: int| 0 <= k < id implies env.file_names()[k] != fl.loc.file@ by {}
    }
    Label { loc: Loc { file_id: id, start: fl.loc.start, end: fl.loc.end }, message: fl.message.clone() }
}

/// Records each front-end error as a diagnostic, in order.
pub fn add_move_lang_errors(env: &mut GlobalEnv, errors: &Vec<FrontError>)
    requires
        errors_resolve(old(env).file_names(), errors@),
    ensures
        final(env).diags@.len() == old(env).diags@.len() + errors@.len(),
        forall|k: int| 0 <= k < old(env).diags@.len() ==> final(env).diags@[k] == old(env).diags@[k],
        forall|i: int| 0 <= i < errors@.len() ==>
            diag_of(old(env).file_names(), #[trigger] final(env).diags@[old(env).diags@.len() + i], errors@[i]),
        final(env).files == old(env).files,
        final(env).symbols == old(env).symbols,
        final(env).modules == old(env).modules,
        final(env).docs == old(env).docs,
{
    let ghost d0 = env.diags@;
    let mut i: usize = 0;
    while i < errors.len()
        invariant
            i <= errors@.len(),
            errors_resolve(env.file_names(), errors@),
            env.files == old(env).files,
            env.symbols == old(env).symbols,
            env.modules == old(env).modules,
            env.docs == old(env).docs,
            d0 == old(env).diags@,
            env.diags@.len() == d0.len() + i,
            forall|k: int| 0 <= k < d0.len() ==> env.diags@[k] == d0[k],
            forall|q: int| 0 <= q < i ==>
                diag_of(old(env).file_names(), #[trigger] env.diags@[d0.len() + q], errors@[q]),
        decreases errors@.len() - i,
    {
        let e = &errors[i];
        assert(error_resolves(env.file_names(), errors@[i as int]));
        let primary = convert_label(env, &e.labels[0]);
        let mut secondary: Vec<Label> = Vec::new();
        let mut j: usize = 1;
        while j < e.labels.len()
            invariant
                1 <= j <= e.labels@.len(),
                error_resolves(env.file_names(), *e),
                secondary@.len() + 1 == j,
                forall|q: int| 0 <= q < secondary@.len() ==>
                    label_of(env.file_names(), #[trigger] secondary@[q], e.labels@[q + 1]),
            decreases e.labels@.len() - j,
        {
            let l = convert_label(env, &e.labels[j]);
            secondary.push(l);
            j += 1;
        }
        env.add_diag(Diagnostic { primary, secondary });
        i += 1;
    }
}

/// Where the pipeline stands: the stage whose outcome it waits for, or done.
#[derive(PartialEq, Eq, Structural)]
pub enum Stage {
    Parse,
    Expand,
    Compile,
    Verify,
    Done,
}

/// The outcome of a front-end stage.
pub enum Event {
    /// Parsing failed; `files` are the source files the parser read.
    ParseFailed { files: Vec<String>, errors: Vec<FrontError> },
    /// Parsing succeeded. `dep_files` are the files that only hold library
    /// definitions; `comments` are documentation comments by file name.
    Parsed { files: Vec<String>, dep_files: Vec<String>, comments: Vec<(String, String)> },
    ExpandFailed { errors: Vec<FrontError> },
    Expanded { program: ExpandedProgram },
    CompileFailed { errors: Vec<FrontError> },
    Compiled,
    VerifyFailed { errors: Vec<FrontError> },
    Verified { units: Vec<CompiledUnit> },
}

/// What the driver runs next.
pub enum Action {
    /// Expand the parsed program, target and library definitions together.
    Expand,
    /// Compile the expanded program, keeping only these modules (each marked a
    /// source module) and these named-address declarations, by index.
    Compile { modules: Vec<usize>, addresses: Vec<usize> },
    /// Run the bytecode verifier on the compiled units.
    Verify,
    /// Nothing: the environment is complete, possibly carrying errors.
    Finish,
}

/// The state of one model build.
pub struct ModelBuilder {
    pub env: GlobalEnv,
    pub stage: Stage,
    pub dep_file_ids: Vec<usize>,
    pub program: Option<ExpandedProgram>,
}

pub open spec fn seq_views(v: Seq<String>) -> Seq<Seq<char>> {
    Seq::new(v.len(), |i: int| v[i]@)
}

impl ModelBuilder {
    pub open spec fn wf(&self) -> bool {
        &&& self.env.wf()
        &&& (self.stage == Stage::Compile || self.stage == Stage::Verify) ==> self.program is Some
        &&& self.program matches Some(p) ==> p.wf() && keys_unique(p)
    }

    /// The event is the outcome of the stage that the builder waits for, and
    /// is one that the front end can produce: every error names a known file,
    /// an expanded program is well formed, compiled units fit the format.
    pub open spec fn accepts(&self, ev: Event) -> bool {
        match ev {
            Event::ParseFailed { files, errors } => self.stage == Stage::Parse
                && errors_resolve(seq_views(files@), errors@),
            Event::Parsed { files, comments, .. } => self.stage == Stage::Parse
                && forall|i: int| 0 <= i < comments@.len() ==> seq_views(files@).contains(#[trigger] comments@[i].0@),
            Event::ExpandFailed { errors } => self.stage == Stage::Expand
                && errors_resolve(self.env.file_names(), errors@),
            Event::Expanded { program } => self.stage == Stage::Expand && program.wf() && keys_unique(program),
            Event::CompileFailed { errors } => self.stage == Stage::Compile
                && errors_resolve(self.env.file_names(), errors@),
            Event::Compiled => self.stage == Stage::Compile,
            Event::VerifyFailed { errors } => self.stage == Stage::Verify
                && errors_resolve(self.env.file_names(), errors@),
            Event::Verified { units } => self.stage == Stage::Verify
                && forall|k: int| 0 <= k < units@.len() ==> unit_fits(#[trigger] units@[k]),
        }
    }

    /// A builder with an empty environment, waiting for the parser.
    pub fn new() -> (r: ModelBuilder)
        ensures
            r.wf(),
            r.stage == Stage::Parse,
            r.env.files@.len() == 0,
            r.env.modules@.len() == 0,
            r.env.diags@.len() == 0,
    {
        ModelBuilder { env: GlobalEnv::new(), stage: Stage::Parse, dep_file_ids: Vec::new(), program: None }
    }

    /// Registers the parser's files in order; a file is a dependency file when
    /// `dep_files` names it.
    fn register_files(&mut self, files: &Vec<String>, dep_files: &Vec<String>)
        requires
            old(self).env.files@.len() == 0,
        ensures
            final(self).env.file_names() == seq_views(files@),
            forall|i: int| 0 <= i < files@.len() ==>
                (#[trigger] final(self).env.files@[i]).is_dep == seq_views(dep_files@).contains(files@[i]@),
            forall|m: usize| #[trigger] final(self).dep_file_ids@.contains(m) <==>
                (m < files@.len() && seq_views(dep_files@).contains(files@[m as int]@)),
            final(self).env.symbols == old(self).env.symbols,
            final(self).env.modules == old(self).env.modules,
            final(self).env.diags == old(self).env.diags,
            final(self).env.docs == old(self).env.docs,
            final(self).stage == old(self).stage,
            final(self).program == old(self).program,
    {
        let mut ids: Vec<usize> = Vec::new();
        let mut i: usize = 0;
        while i < files.len()
            invariant
                i <= files@.len(),
                self.env.files@.len() == i,
                forall|k: int| 0 <= k < i ==> self.env.files@[k].name@ == files@[k]@,
                forall|k: int| 0 <= k < i ==>
                    (#[trigger] self.env.files@[k]).is_dep == seq_views(dep_files@).contains(files@[k]@),
                forall|m: usize| #[trigger] ids@.contains(m) <==>
                    (m < i && seq_views(dep_files@).contains(files@[m as int]@)),
                self.env.symbols == old(self).env.symbols,
                self.env.modules == old(self).env.modules,
                self.env.diags == old(self).env.diags,
                self.env.docs == old(self).env.docs,
                self.stage == old(self).stage,
                self.program == old(self).program,
            decreases files@.len() - i,
        {
            let is_dep = contains_string(dep_files, &files[i]);
            let id = self.env.add_source(files[i].clone(), is_dep);
            let ghost ids0 = ids@;
            if is_dep {
                ids.push(id);
            }
            proof {
                assert forall|m: usize| #[trigger] ids@.contains(m) <==>
                    (m < i + 1 && seq_views(dep_files@).contains(files@[m as int]@)) by {
                    if ids@.contains(m) {
                        let k = choose|k: int| 0 <= k < ids@.len() && ids@[k] == m;
                        if k < ids0.len() { assert(ids0[k] == m); assert(ids0.contains(m)); }
                    }
                    if m < i && seq_views(dep_files@).contains(files@[m as int]@) {
                        assert(ids0.contains(m));
                        let k = choose|k: int| 0 <= k < ids0.len() && ids0[k] == m;
                        assert(ids@[k] == m);
                    }
                    if m == i && is_dep {
                        assert(ids@[ids0.len() as int] == m);
                    }
                }
            }
            i += 1;
        }
        self.dep_file_ids = ids;
        proof {
            assert(self.env.file_names() =~= seq_views(files@));
        }
    }

    /// Attaches each documentation comment to its file.
    fn add_comments(&mut self, comments: &Vec<(String, String)>)
        requires
            forall|i: int| 0 <= i < comments@.len() ==> old(self).env.file_names().contains(#[trigger] comments@[i].0@),
        ensures
            final(self).env.docs@.len() == old(self).env.docs@.len() + comments@.len(),
            forall|k: int| 0 <= k < old(self).env.docs@.len() ==> final(self).env.docs@[k] == old(self).env.docs@[k],
            forall|i: int| 0 <= i < comments@.len() ==> {
                let d = #[trigger] final(self).env.docs@[old(self).env.docs@.len() + i];
                &&& d.0 < old(self).env.files@.len()
                &&& old(self).env.file_names()[d.0 as int] == comments@[i].0@
                &&& d.1@ == comments@[i].1@
            },
            final(self).env.files == old(self).env.files,
            final(self).env.symbols == old(self).env.symbols,
            final(self).env.modules == old(self).env.modules,
            final(self).env.diags == old(self).env.diags,
            final(self).stage == old(self).stage,
            final(self).program == old(self).program,
            final(self).dep_file_ids == old(self).dep_file_ids,
    {
        let mut i: usize = 0;
        while i < comments.len()
            invariant
                i <= comments@.len(),
                forall|k: int| 0 <= k < comments@.len() ==> self.env.file_names().contains(#[trigger] comments@[k].0@),
                self.env.docs@.len() == old(self).env.docs@.len() + i,
                forall|k: int| 0 <= k < old(self).env.docs@.len() ==> self.env.docs@[k] == old(self).env.docs@[k],
                forall|q: int| 0 <= q < i ==> {
                    let d = #[trigger] self.env.docs@[old(self).env.docs@.len() + q];
                    &&& d.0 < old(self).env.files@.len()
                    &&& old(self).env.file_names()[d.0 as int] == comments@[q].0@
                    &&& d.1@ == comments@[q].1@
                },
                self.env.files == old(self).env.files,
                self.env.symbols == old(self).env.symbols,
                self.env.modules == old(self).env.modules,
                self.env.diags == old(self).env.diags,
                self.stage == old(self).stage,
                self.program == old(self).program,
                self.dep_file_ids == old(self).dep_file_ids,
            decreases comments@.len() - i,
        {
            let file_id = self.env.get_file_id(&comments[i].0).unwrap();
            self.env.add_documentation(file_id, comments[i].1.clone());
            i += 1;
        }
    }
}

/// Whether a string of `v` equals `s`.
pub fn contains_string(v: &Vec<String>, s: &String) -> (r: bool)
    ensures
        r == seq_views(v@).contains(s@),
{
    let mut i: usize = 0;
    while i < v.len()
        invariant
            i <= v@.len(),
            forall|j: int| 0 <= j < i ==> v@[j]@ != s@,
        decreases v@.len() - i,
    {
        if v[i].eq(s) {
            assert(seq_views(v@)[i as int] == s@);
            return true;
        }
        i += 1;
    }
    proof {
        assert forall|j: int| 0 <= j < seq_views(v@).len() implies seq_views(v@)[j] != s@ by {}
    }
    false
}

/// The environment gained, in order, one diagnostic per error, and nothing else.
pub open spec fn records_errors(e0: GlobalEnv, e1: GlobalEnv, errors: Seq<FrontError>) -> bool {
    &&& e1.diags@.len() == e0.diags@.len() + errors.len()
    &&& forall|k: int| 0 <= k < e0.diags@.len() ==> e1.diags@[k] == e0.diags@[k]
    &&& forall|i: int| 0 <= i < errors.len() ==>
        diag_of(e0.file_names(), #[trigger] e1.diags@[e0.diags@.len() + i], errors[i])
    &&& e1.files == e0.files
    &&& e1.modules == e0.modules
}

/// Every location of every diagnostic names a registered file.
pub open spec fn diags_resolve(env: GlobalEnv) -> bool {
    forall|i: int| 0 <= i < env.diags@.len() ==> {
        &&& (#[trigger] env.diags@[i]).primary.loc.file_id < env.files@.len()
        &&& forall|j: int| 0 <= j < env.diags@[i].secondary@.len() ==>
            (#[trigger] env.diags@[i].secondary@[j]).loc.file_id < env.files@.len()
    }
}

/// What one step does, for each outcome of the stage the builder waited for.
pub open spec fn step_done(b0: ModelBuilder, b1: ModelBuilder, ev: Event, act: Action) -> bool {
    match ev {
        Event::ParseFailed { files, errors } => {
            &&& b1.stage == Stage::Done
            &&& act is Finish
            &&& b1.env.file_names() == seq_views(files@)
            &&& forall|i: int| 0 <= i < files@.len() ==> !(#[trigger] b1.env.files@[i]).is_dep
            &&& b1.env.diags@.len() == errors@.len()
            &&& forall|i: int| 0 <= i < errors@.len() ==>
                diag_of(seq_views(files@), #[trigger] b1.env.diags@[i], errors@[i])
            &&& diags_resolve(b1.env)
            &&& b1.env.modules@.len() == 0
        },
        Event::Parsed { files, dep_files, comments } => {
            &&& b1.stage == Stage::Expand
            &&& act is Expand
            &&& b1.env.file_names() == seq_views(files@)
            &&& forall|i: int| 0 <= i < files@.len() ==>
                (#[trigger] b1.env.files@[i]).is_dep == seq_views(dep_files@).contains(files@[i]@)
            &&& forall|m: usize| #[trigger] b1.dep_file_ids@.contains(m) <==>
                (m < files@.len() && seq_views(dep_files@).contains(files@[m as int]@))
            &&& b1.env.docs@.len() == comments@.len()
            &&& forall|i: int| 0 <= i < comments@.len() ==> {
                let d = #[trigger] b1.env.docs@[i];
                &&& d.0 < files@.len()
                &&& files@[d.0 as int]@ == comments@[i].0@
                &&& d.1@ == comments@[i].1@
            }
            &&& b1.env.diags@.len() == 0
        },
        Event::Expanded { program } => {
            let kept = selected(program, b1.dep_file_ids@.to_set());
            &&& b1.stage == Stage::Compile
            &&& b1.program == Some(program)
            &&& b1.env == b0.env
            &&& b1.dep_file_ids == b0.dep_file_ids
            &&& match act {
                Action::Compile { modules, addresses } => {
                    &&& forall|i: int, j: int| 0 <= i < j < modules@.len() ==> modules@[i] < modules@[j]
                    &&& forall|m: usize| #[trigger] modules@.contains(m) <==> (m < program.modules@.len() && kept.contains(m))
                    &&& forall|i: int, j: int| 0 <= i < j < addresses@.len() ==> addresses@[i] < addresses@[j]
                    &&& forall|a: usize| #[trigger] addresses@.contains(a) <==>
                        (a < program.addresses@.len() && address_used(program, kept, a as int))
                },
                _ => false,
            }
        },
        Event::Compiled => b1.stage == Stage::Verify && act is Verify && b1.env == b0.env && b1.program == b0.program,
        Event::Verified { units } => {
            let p = b0.program->Some_0;
            let ms = matched_units(p, units@);
            &&& b1.stage == Stage::Done
            &&& act is Finish
            &&& b1.env.modules@.len() == b0.env.modules@.len() + ms.len()
            &&& forall|j: int| 0 <= j < ms.len() ==>
                records_unit(b1.env.symbols@, p, #[trigger] b1.env.modules@[b0.env.modules@.len() + j], ms[j])
            &&& b1.env.files == b0.env.files
        },
        Event::ExpandFailed { errors } => b1.stage == Stage::Done && act is Finish && records_errors(b0.env, b1.env, errors@),
        Event::CompileFailed { errors } => b1.stage == Stage::Done && act is Finish && records_errors(b0.env, b1.env, errors@),
        Event::VerifyFailed { errors } => b1.stage == Stage::Done && act is Finish && records_errors(b0.env, b1.env, errors@),
    }
}

impl ModelBuilder {
    /// Takes the outcome of the stage the builder waited for. A failed stage is
    /// recorded as diagnostics and ends the build; a successful one moves on.
    pub fn step(&mut self, ev: Event) -> (act: Action)
        requires
            old(self).wf(),
            old(self).accepts(ev),
            ev is ParseFailed || ev is Parsed ==> old(self).env.files@.len() == 0 && old(self).env.diags@.len() == 0
                && old(self).env.docs@.len() == 0 && old(self).env.modules@.len() == 0,
        ensures
            final(self).wf(),
            step_done(*old(self), *final(self), ev, act),
    {
        match ev {
            Event::ParseFailed { files, errors } => {
                let none: Vec<String> = Vec::new();
                self.register_files(&files, &none);
                proof {
                    assert forall|i: int| 0 <= i < files@.len() implies !(#[trigger] self.env.files@[i]).is_dep by {
                        assert(seq_views(none@).len() == 0);
                    }
                }
                let ghost e0 = self.env;
                add_move_lang_errors(&mut self.env, &errors);
                self.stage = Stage::Done;
                proof {
                    assert(e0.file_names() == seq_views(files@));
                    assert(e0.diags@.len() == 0);
                    assert forall|i: int| 0 <= i < errors@.len() implies
                        diag_of(seq_views(files@), #[trigger] self.env.diags@[i], errors@[i]) by {
                        assert(diag_of(e0.file_names(), self.env.diags@[e0.diags@.len() + i], errors@[i]));
                    }
                    assert forall|i: int| 0 <= i < self.env.diags@.len() implies {
                        &&& (#[trigger] self.env.diags@[i]).primary.loc.file_id < self.env.files@.len()
                        &&& forall|j: int| 0 <= j < self.env.diags@[i].secondary@.len() ==>
                            (#[trigger] self.env.diags@[i].secondary@[j]).loc.file_id < self.env.files@.len()
                    } by {
                        assert(diag_of(seq_views(files@), self.env.diags@[0 + i], errors@[i]));
                        assert(seq_views(files@).len() == self.env.files@.len());
                    }
                }
                Action::Finish
            },
            Event::Parsed { files, dep_files, comments } => {
                self.register_files(&files, &dep_files);
                let ghost e1 = self.env;
                self.add_comments(&comments);
                proof {
                    assert forall|i: int| 0 <= i < comments@.len() implies {
                        let d = #[trigger] self.env.docs@[i];
                        &&& d.0 < files@.len()
                        &&& files@[d.0 as int]@ == comments@[i].0@
                        &&& d.1@ == comments@[i].1@
                    } by {
                        let d = self.env.docs@[e1.docs@.len() + i];
                        assert(e1.file_names()[d.0 as int] == seq_views(files@)[d.0 as int]);
                    }
                }
                self.stage = Stage::Expand;
                Action::Expand
            },
            Event::ExpandFailed { errors } => {
                add_move_lang_errors(&mut self.env, &errors);
                self.stage = Stage::Done;
                Action::Finish
            },
            Event::Expanded { program } => {
                let sel = select_reachable(&program, &self.dep_file_ids);
                self.program = Some(program);
                self.stage = Stage::Compile;
                Action::Compile { modules: sel.modules, addresses: sel.addresses }
            },
            Event::CompileFailed { errors } => {
                add_move_lang_errors(&mut self.env, &errors);
                self.stage = Stage::Done;
                Action::Finish
            },
            Event::Compiled => {
                self.stage = Stage::Verify;
                Action::Verify
            },
            Event::VerifyFailed { errors } => {
                add_move_lang_errors(&mut self.env, &errors);
                self.stage = Stage::Done;
                Action::Finish
            },
            Event::Verified { units } => {
                let program = self.program.take().unwrap();
                run_spec_checker(&mut self.env, units, &program);
                self.program = Some(program);
                self.stage = Stage::Done;
                Action::Finish
            },
        }
    }
}

} // verus!
