//! Merging compiled units with their expanded definitions into the environment.
use vstd::prelude::*;
use vstd::string::StringExecFns;
use crate::env::{Diagnostic, FunctionData, GlobalEnv, Label, ModuleData, ModuleName, StructData};
use crate::model::{Address, AddressDecl, Condition, ExpandedProgram, ExpandedScript, Loc, ModuleIdent, SpecBlock};
use crate::symbol::Symbol;

verus! {

/// The address given to a script turned into a module: the sentinel that the
/// compiler uses where an address is in error (every byte set).
pub const SCRIPT_ADDRESS: u128 = 0xffff_ffff_ffff_ffff_ffff_ffff_ffff_ffffu128;

/// A function definition of a compiled module: its name and function handle.
pub struct CompiledFunctionDef {
    pub name: String,
    pub handle: u16,
}

/// A struct definition of a compiled module.
pub struct CompiledStructDef {
    pub name: String,
}

/// The parts of a compiled module that the model records.
pub struct CompiledModule {
    pub name: String,
    pub functions: Vec<CompiledFunctionDef>,
    pub structs: Vec<CompiledStructDef>,
}

/// A compiled script: one entry function.
pub struct CompiledScript {
    pub function: CompiledFunctionDef,
}

/// One compiled unit: a module, or a script.
pub enum CompiledUnit {
    Module { ident: ModuleIdent, module: CompiledModule },
    Script { key: Symbol, script: CompiledScript },
}

/// The bytecode format indexes definitions by `u16`.
pub open spec fn module_fits(m: CompiledModule) -> bool {
    m.functions@.len() <= 0x10000 && m.structs@.len() <= 0x10000
}

pub open spec fn unit_fits(u: CompiledUnit) -> bool {
    match u {
        CompiledUnit::Module { module, .. } => module_fits(module),
        CompiledUnit::Script { .. } => true,
    }
}

/// A spec block that a function named `name` carries; `None` stands for the
/// single function of a script, which carries every block.
pub open spec fn selects(b: SpecBlock, name: Option<Symbol>) -> bool {
    name is None || b.target == name
}

/// The conditions of the selected blocks, in order.
pub open spec fn spec_conditions(blocks: Seq<SpecBlock>, name: Option<Symbol>) -> Seq<Condition>
    decreases blocks.len(),
{
    if blocks.len() == 0 {
        Seq::empty()
    } else {
        let last = blocks.last();
        spec_conditions(blocks.drop_last(), name) + if selects(last, name) {
            last.conditions@
        } else {
            Seq::empty()
        }
    }
}

/// The value that the program's declarations give the named address `n`.
pub open spec fn lookup_address(decls: Seq<AddressDecl>, n: Symbol) -> Option<u128>
    decreases decls.len(),
{
    if decls.len() == 0 {
        None
    } else if decls[0].name == n && decls[0].value is Some {
        decls[0].value
    } else {
        lookup_address(decls.subrange(1, decls.len() as int), n)
    }
}

/// The address bytes of a module address; an undeclared name resolves to the sentinel.
pub open spec fn resolved(decls: Seq<AddressDecl>, a: Address) -> u128 {
    match a {
        Address::Named(n) => match lookup_address(decls, n) {
            Some(v) => v,
            None => SCRIPT_ADDRESS,
        },
        Address::Numeric(v) => v,
        Address::Anonymous(v) => v,
    }
}

pub open spec fn address_declared(decls: Seq<AddressDecl>, a: Address) -> bool {
    match a {
        Address::Named(n) => lookup_address(decls, n) is Some,
        _ => true,
    }
}

/// The unit has an expanded counterpart.
pub open spec fn unit_matches(p: ExpandedProgram, u: CompiledUnit) -> bool {
    match u {
        CompiledUnit::Module { ident, .. } =>
            exists|i: int| 0 <= i < p.modules@.len() && #[trigger] p.modules@[i].ident == ident,
        CompiledUnit::Script { key, .. } =>
            exists|i: int| 0 <= i < p.scripts@.len() && #[trigger] p.scripts@[i].key == key,
    }
}

/// The units that have an expanded counterpart, in input order.
pub open spec fn matched_units(p: ExpandedProgram, units: Seq<CompiledUnit>) -> Seq<CompiledUnit>
    decreases units.len(),
{
    if units.len() == 0 {
        Seq::empty()
    } else {
        matched_units(p, units.drop_last()) + if unit_matches(p, units.last()) {
            seq![units.last()]
        } else {
            Seq::empty()
        }
    }
}

/// No two units name the same module or script, as no two expanded
/// definitions do.
pub open spec fn keys_unique(p: ExpandedProgram) -> bool {
    &&& forall|i: int, j: int| 0 <= i < j < p.modules@.len() ==> p.modules@[i].ident != p.modules@[j].ident
    &&& forall|i: int, j: int| 0 <= i < j < p.scripts@.len() ==> p.scripts@[i].key != p.scripts@[j].key
}

/// The symbol table `s2` extends `s1`.
pub open spec fn extends(s1: Seq<Seq<char>>, s2: Seq<Seq<char>>) -> bool {
    s1.len() <= s2.len() && forall|i: int| 0 <= i < s1.len() ==> s2[i] == s1[i]
}

/// `md` records the compiled module `m` under the name `name`, with the spec
/// blocks `specs` of its expanded counterpart: one function per compiled
/// function definition, one struct per compiled struct definition, each at its
/// definition index and named by its interned name.
pub open spec fn records_module(
    syms: Seq<Seq<char>>,
    md: ModuleData,
    name: ModuleName,
    funs: Seq<CompiledFunctionDef>,
    structs: Seq<CompiledStructDef>,
    specs: Seq<SpecBlock>,
    is_script: bool,
) -> bool {
    &&& md.name == name
    &&& md.is_script == is_script
    &&& md.functions@.len() == funs.len()
    &&& md.structs@.len() == structs.len()
    &&& forall|i: int| 0 <= i < md.functions@.len() ==> {
        &&& (#[trigger] md.functions@[i]).def_idx == i
        &&& md.functions@[i].handle_idx == funs[i].handle
        &&& md.functions@[i].name.0 < syms.len()
        &&& syms[md.functions@[i].name.0 as int] == funs[i].name@
        &&& md.functions@[i].spec@ == spec_conditions(
            specs,
            if is_script { None } else { Some(md.functions@[i].name) },
        )
    }
    &&& forall|i: int| 0 <= i < md.structs@.len() ==> {
        &&& (#[trigger] md.structs@[i]).def_idx == i
        &&& md.structs@[i].name.0 < syms.len()
        &&& syms[md.structs@[i].name.0 as int] == structs[i].name@
    }
}

pub(crate) proof fn lemma_records_extend(
    s1: Seq<Seq<char>>,
    s2: Seq<Seq<char>>,
    md: ModuleData,
    name: ModuleName,
    funs: Seq<CompiledFunctionDef>,
    structs: Seq<CompiledStructDef>,
    specs: Seq<SpecBlock>,
    is_script: bool,
)
    requires
        records_module(s1, md, name, funs, structs, specs, is_script),
        extends(s1, s2),
    ensures
        records_module(s2, md, name, funs, structs, specs, is_script),
{
    assert forall|i: int| 0 <= i < md.functions@.len() implies
        s2[(#[trigger] md.functions@[i]).name.0 as int] == funs[i].name@ by {}
    assert forall|i: int| 0 <= i < md.structs@.len() implies
        s2[(#[trigger] md.structs@[i]).name.0 as int] == structs[i].name@ by {}
}

/// `md` records unit `u` of program `p`, matched by its identity.
pub open spec fn records_unit(syms: Seq<Seq<char>>, p: ExpandedProgram, md: ModuleData, u: CompiledUnit) -> bool {
    match u {
        CompiledUnit::Module { ident, module } => {
            let i = choose|i: int| 0 <= i < p.modules@.len() && #[trigger] p.modules@[i].ident == ident;
            records_module(
                syms,
                md,
                ModuleName { address: resolved(p.addresses@, ident.address), name: ident.name },
                module.functions@,
                module.structs@,
                p.modules@[i].specs@,
                false,
            )
        },
        CompiledUnit::Script { key, script } => {
            let i = choose|i: int| 0 <= i < p.scripts@.len() && #[trigger] p.scripts@[i].key == key;
            records_module(
                syms,
                md,
                ModuleName { address: SCRIPT_ADDRESS, name: p.scripts@[i].function_name },
                seq![script.function],
                Seq::empty(),
                p.scripts@[i].specs@,
                true,
            )
        },
    }
}

fn copy_conditions(blocks: &Vec<SpecBlock>, name: Option<Symbol>) -> (r: Vec<Condition>)
    ensures
        r@ == spec_conditions(blocks@, name),
{
    let mut r: Vec<Condition> = Vec::new();
    let mut i: usize = 0;
    while i < blocks.len()
        invariant
            i <= blocks@.len(),
            r@ == spec_conditions(blocks@.take(i as int), name),
        decreases blocks@.len() - i,
    {
        let b = &blocks[i];
        proof {
            assert(blocks@.take(i + 1).drop_last() == blocks@.take(i as int));
        }
        if name.is_none() || b.target == name {
            let ghost r0 = r@;
            let mut j: usize = 0;
            while j < b.conditions.len()
                invariant
                    j <= b.conditions@.len(),
                    r@ == r0 + b.conditions@.take(j as int),
                decreases b.conditions@.len() - j,
            {
                let c = &b.conditions[j];
                r.push(Condition { loc: c.loc, text: c.text.clone() });
                proof {
                    assert(b.conditions@.take(j + 1) == b.conditions@.take(j as int).push(*c));
                }
                j += 1;
            }
            assert(b.conditions@.take(b.conditions@.len() as int) == b.conditions@);
        }
        i += 1;
    }
    assert(blocks@.take(blocks@.len() as int) == blocks@);
    r
}

/// Resolves a module address against the declared named addresses; an
/// undeclared name is reported at `loc` and resolves to the sentinel.
pub fn resolve_address(env: &mut GlobalEnv, decls: &Vec<AddressDecl>, loc: Loc, a: Address) -> (r: u128)
    ensures
        r == resolved(decls@, a),
        address_declared(decls@, a) ==> final(env).diags@ == old(env).diags@,
        !address_declared(decls@, a) ==> final(env).diags@.len() == old(env).diags@.len() + 1
            && final(env).diags@.drop_last() == old(env).diags@,
        final(env).symbols == old(env).symbols,
        final(env).modules == old(env).modules,
        final(env).files == old(env).files,
{
    match a {
        Address::Named(n) => {
            assert(decls@.subrange(0, decls@.len() as int) == decls@);
            let mut i: usize = 0;
            while i < decls.len()
                invariant
                    a == Address::Named(n),
                    i <= decls@.len(),
                    lookup_address(decls@, n) == lookup_address(decls@.subrange(i as int, decls@.len() as int), n),
                decreases decls@.len() - i,
            {
                let d = decls[i];
                proof {
                    let rest = decls@.subrange(i as int, decls@.len() as int);
                    assert(rest[0] == d);
                    assert(rest.subrange(1, rest.len() as int) == decls@.subrange(i + 1, decls@.len() as int));
                }
                if d.name == n {
                    if let Some(v) = d.value {
                        proof {
                            let rest = decls@.subrange(i as int, decls@.len() as int);
                            assert(lookup_address(rest, n) == Some(v));
                        }
                        return v;
                    }
                }
                i += 1;
            }
            assert(decls@.subrange(i as int, decls@.len() as int).len() == 0);
            let message = <String as StringExecFns>::from_str("undeclared address");
            env.add_diag(Diagnostic { primary: Label { loc, message }, secondary: Vec::new() });
            SCRIPT_ADDRESS
        },
        Address::Numeric(v) => v,
        Address::Anonymous(v) => v,
    }
}

fn find_module(p: &ExpandedProgram, ident: ModuleIdent) -> (r: Option<usize>)
    ensures
        r is None <==> !(exists|i: int| 0 <= i < p.modules@.len() && #[trigger] p.modules@[i].ident == ident),
        r matches Some(i) ==> i < p.modules@.len() && p.modules@[i as int].ident == ident,
{
    let mut i: usize = 0;
    while i < p.modules.len()
        invariant
            i <= p.modules@.len(),
            forall|j: int| 0 <= j < i ==> p.modules@[j].ident != ident,
        decreases p.modules@.len() - i,
    {
        if p.modules[i].ident == ident {
            return Some(i);
        }
        i += 1;
    }
    None
}

fn find_script(p: &ExpandedProgram, key: Symbol) -> (r: Option<usize>)
    ensures
        r is None <==> !(exists|i: int| 0 <= i < p.scripts@.len() && #[trigger] p.scripts@[i].key == key),
        r matches Some(i) ==> i < p.scripts@.len() && p.scripts@[i as int].key == key,
{
    let mut i: usize = 0;
    while i < p.scripts.len()
        invariant
            i <= p.scripts@.len(),
            forall|j: int| 0 <= j < i ==> p.scripts@[j].key != key,
        decreases p.scripts@.len() - i,
    {
        if p.scripts[i].key == key {
            return Some(i);
        }
        i += 1;
    }
    None
}

/// Turns a script into a module of its own: its entry function alone, no
/// structs, named after that function, at the anonymous sentinel address.
pub fn script_to_module(script: &CompiledScript, expanded: &ExpandedScript) -> (r: (ModuleIdent, CompiledModule))
    ensures
        r.0.address == Address::Anonymous(SCRIPT_ADDRESS),
        r.0.name == expanded.function_name,
        r.1.name@ == script.function.name@,
        r.1.functions@ == seq![script.function],
        r.1.structs@.len() == 0,
{
    let mut functions: Vec<CompiledFunctionDef> = Vec::new();
    functions.push(CompiledFunctionDef { name: script.function.name.clone(), handle: script.function.handle });
    assert(functions@ =~= seq![script.function]);
    let ident = ModuleIdent { address: Address::Anonymous(SCRIPT_ADDRESS), name: expanded.function_name };
    (ident, CompiledModule { name: script.function.name.clone(), functions, structs: Vec::new() })
}

/// Builds the model's record of one module.
pub(crate) fn translate_module(
    env: &mut GlobalEnv,
    id: usize,
    name: ModuleName,
    loc: Loc,
    funs: &Vec<CompiledFunctionDef>,
    structs: &Vec<CompiledStructDef>,
    specs: &Vec<SpecBlock>,
    is_script: bool,
) -> (md: ModuleData)
    requires
        old(env).symbols.wf(),
        funs@.len() <= 0x10000,
        structs@.len() <= 0x10000,
    ensures
        final(env).symbols.wf(),
        extends(old(env).symbols@, final(env).symbols@),
        final(env).modules == old(env).modules,
        final(env).diags == old(env).diags,
        final(env).files == old(env).files,
        md.id == id,
        md.loc == loc,
        records_module(final(env).symbols@, md, name, funs@, structs@, specs@, is_script),
{
    let mut functions: Vec<FunctionData> = Vec::new();
    let mut i: usize = 0;
    while i < funs.len()
        invariant
            funs@.len() <= 0x10000,
            i <= funs@.len(),
            env.symbols.wf(),
            extends(old(env).symbols@, env.symbols@),
            env.modules == old(env).modules,
            env.diags == old(env).diags,
            env.files == old(env).files,
            functions@.len() == i,
            forall|k: int| 0 <= k < i ==> {
                &&& (#[trigger] functions@[k]).def_idx == k
                &&& functions@[k].handle_idx == funs@[k].handle
                &&& functions@[k].name.0 < env.symbols@.len()
                &&& env.symbols@[functions@[k].name.0 as int] == funs@[k].name@
                &&& functions@[k].spec@ == spec_conditions(
                    specs@,
                    if is_script { None } else { Some(functions@[k].name) },
                )
            },
        decreases funs@.len() - i,
    {
        let ghost s0 = env.symbols@;
        let sym = env.symbols.make(funs[i].name.as_str());
        let target = if is_script { None } else { Some(sym) };
        let spec = copy_conditions(specs, target);
        functions.push(FunctionData { name: sym, def_idx: i as u16, handle_idx: funs[i].handle, loc, spec });
        proof {
            assert forall|k: int| 0 <= k < i implies env.symbols@[(#[trigger] functions@[k]).name.0 as int] == funs@[k].name@ by {
                assert(functions@[k] == functions@.drop_last()[k]);
            }
        }
        i += 1;
    }
    let mut struct_data: Vec<StructData> = Vec::new();
    let mut j: usize = 0;
    let ghost s_mid = env.symbols@;
    while j < structs.len()
        invariant
            structs@.len() <= 0x10000,
            j <= structs@.len(),
            env.symbols.wf(),
            extends(old(env).symbols@, env.symbols@),
            extends(s_mid, env.symbols@),
            env.modules == old(env).modules,
            env.diags == old(env).diags,
            env.files == old(env).files,
            struct_data@.len() == j,
            forall|k: int| 0 <= k < j ==> {
                &&& (#[trigger] struct_data@[k]).def_idx == k
                &&& struct_data@[k].name.0 < env.symbols@.len()
                &&& env.symbols@[struct_data@[k].name.0 as int] == structs@[k].name@
            },
        decreases structs@.len() - j,
    {
        let sym = env.symbols.make(structs[j].name.as_str());
        struct_data.push(StructData { name: sym, def_idx: j as u16, loc });
        proof {
            assert forall|k: int| 0 <= k < j implies env.symbols@[(#[trigger] struct_data@[k]).name.0 as int] == structs@[k].name@ by {
                assert(struct_data@[k] == struct_data@.drop_last()[k]);
            }
        }
        j += 1;
    }
    let md = ModuleData { id, name, loc, is_script, functions, structs: struct_data };
    proof {
        assert forall|k: int| 0 <= k < md.functions@.len() implies
            env.symbols@[(#[trigger] md.functions@[k]).name.0 as int] == funs@[k].name@ by {
            assert(s_mid[md.functions@[k].name.0 as int] == funs@[k].name@);
        }
    }
    md
}

proof fn lemma_unit_extend(s1: Seq<Seq<char>>, s2: Seq<Seq<char>>, p: ExpandedProgram, md: ModuleData, u: CompiledUnit)
    requires
        records_unit(s1, p, md, u),
        extends(s1, s2),
    ensures
        records_unit(s2, p, md, u),
{
    match u {
        CompiledUnit::Module { ident, module } => {
            let i = choose|i: int| 0 <= i < p.modules@.len() && #[trigger] p.modules@[i].ident == ident;
            lemma_records_extend(
                s1,
                s2,
                md,
                ModuleName { address: resolved(p.addresses@, ident.address), name: ident.name },
                module.functions@,
                module.structs@,
                p.modules@[i].specs@,
                false,
            );
        },
        CompiledUnit::Script { key, script } => {
            let i = choose|i: int| 0 <= i < p.scripts@.len() && #[trigger] p.scripts@[i].key == key;
            lemma_records_extend(
                s1,
                s2,
                md,
                ModuleName { address: SCRIPT_ADDRESS, name: p.scripts@[i].function_name },
                seq![script.function],
                Seq::empty(),
                p.scripts@[i].specs@,
                true,
            );
        },
    }
}

/// Merges the compiled units, in their (topological) order, with their expanded
/// counterparts: each unit that has one becomes the next module of `env`, with
/// the next module id; a script becomes a module of its own. A unit without an
/// expanded counterpart is skipped.
pub fn run_spec_checker(env: &mut GlobalEnv, units: Vec<CompiledUnit>, eprog: &ExpandedProgram)
    requires
        old(env).wf(),
        keys_unique(*eprog),
        forall|k: int| 0 <= k < units@.len() ==> unit_fits(#[trigger] units@[k]),
    ensures
        final(env).wf(),
        final(env).modules@.len() == old(env).modules@.len() + matched_units(*eprog, units@).len(),
        forall|k: int| 0 <= k < old(env).modules@.len() ==> final(env).modules@[k] == old(env).modules@[k],
        forall|j: int| 0 <= j < matched_units(*eprog, units@).len() ==> records_unit(
            final(env).symbols@,
            *eprog,
            #[trigger] final(env).modules@[old(env).modules@.len() + j],
            matched_units(*eprog, units@)[j],
        ),
        extends(old(env).symbols@, final(env).symbols@),
        final(env).files == old(env).files,
        old(env).diags@.len() <= final(env).diags@.len(),
        forall|k: int| 0 <= k < old(env).diags@.len() ==> final(env).diags@[k] == old(env).diags@[k],
{
    let ghost n0 = env.modules@.len();
    let mut k: usize = 0;
    while k < units.len()
        invariant
            k <= units@.len(),
            env.wf(),
            keys_unique(*eprog),
            forall|q: int| 0 <= q < units@.len() ==> unit_fits(#[trigger] units@[q]),
            env.modules@.len() == n0 + matched_units(*eprog, units@.take(k as int)).len(),
            n0 == old(env).modules@.len(),
            forall|q: int| 0 <= q < n0 ==> env.modules@[q] == old(env).modules@[q],
            forall|j: int| 0 <= j < matched_units(*eprog, units@.take(k as int)).len() ==> records_unit(
                env.symbols@,
                *eprog,
                #[trigger] env.modules@[n0 + j],
                matched_units(*eprog, units@.take(k as int))[j],
            ),
            extends(old(env).symbols@, env.symbols@),
            env.files == old(env).files,
            old(env).diags@.len() <= env.diags@.len(),
            forall|q: int| 0 <= q < old(env).diags@.len() ==> env.diags@[q] == old(env).diags@[q],
        decreases units@.len() - k,
    {
        let ghost prev = matched_units(*eprog, units@.take(k as int));
        let ghost s0 = env.symbols@;
        let ghost mods0 = env.modules@;
        proof {
            assert(units@.take(k + 1).drop_last() == units@.take(k as int));
            assert(units@.take(k + 1).last() == units@[k as int]);
            assert(unit_fits(units@[k as int]));
        }
        let unit = &units[k];
        let found: Option<ModuleData> = match unit {
            CompiledUnit::Module { ident, module } => {
                match find_module(eprog, *ident) {
                    None => None,
                    Some(i) => {
                        let em = &eprog.modules[i];
                        let addr = resolve_address(env, &eprog.addresses, em.loc, ident.address);
                        let name = ModuleName { address: addr, name: ident.name };
                        let id = env.modules.len();
                        let md = translate_module(env, id, name, em.loc, &module.functions, &module.structs, &em.specs, false);
                        proof {
                            let c = choose|c: int| 0 <= c < eprog.modules@.len() && #[trigger] eprog.modules@[c].ident == *ident;
                            assert(c == i);
                        }
                        Some(md)
                    },
                }
            },
            CompiledUnit::Script { key, script } => {
                match find_script(eprog, *key) {
                    None => None,
                    Some(i) => {
                        let es = &eprog.scripts[i];
                        let (ident, module) = script_to_module(script, es);
                        let addr = resolve_address(env, &eprog.addresses, es.loc, ident.address);
                        let name = ModuleName { address: addr, name: ident.name };
                        let id = env.modules.len();
                        let md = translate_module(env, id, name, es.loc, &module.functions, &module.structs, &es.specs, true);
                        proof {
                            let c = choose|c: int| 0 <= c < eprog.scripts@.len() && #[trigger] eprog.scripts@[c].key == *key;
                            assert(c == i);
                        }
                        Some(md)
                    },
                }
            },
        };
        proof {
            assert forall|j: int| 0 <= j < prev.len() implies records_unit(
                env.symbols@,
                *eprog,
                #[trigger] env.modules@[n0 + j],
                prev[j],
            ) by {
                lemma_unit_extend(s0, env.symbols@, *eprog, env.modules@[n0 + j], prev[j]);
            }
        }
        match found {
            Some(md) => {
                env.modules.push(md);
            },
            None => {},
        }
        k += 1;
    }
    assert(units@.take(units@.len() as int) == units@);
}

} // verus!
