//! Building a model from compiled modules alone, and account addresses.
use vstd::prelude::*;
use crate::env::{GlobalEnv, ModuleName};
use crate::merge::{records_module, translate_module, CompiledFunctionDef, CompiledStructDef};
use crate::model::{Loc, SpecBlock};

verus! {

/// A 16-byte account address, most significant byte first.
#[derive(Clone, Copy, Debug)]
pub struct AccountAddress {
    pub bytes: [u8; 16],
}

/// The number that a big-endian byte string denotes.
pub open spec fn be_value(s: Seq<u8>) -> nat
    decreases s.len(),
{
    if s.len() == 0 {
        0
    } else {
        be_value(s.drop_last()) * 256 + s.last() as nat
    }
}

pub open spec fn pow256(n: nat) -> nat
    decreases n,
{
    if n == 0 {
        1
    } else {
        256 * pow256((n - 1) as nat)
    }
}

proof fn lemma_be_value_bound(s: Seq<u8>)
    ensures
        be_value(s) < pow256(s.len()),
    decreases s.len(),
{
    if s.len() > 0 {
        lemma_be_value_bound(s.drop_last());
        let a = be_value(s.drop_last());
        let p = pow256(s.drop_last().len());
        let l = s.last() as nat;
        assert(a * 256 + l < 256 * p) by (nonlinear_arith)
            requires
                a < p,
                l < 256,
        ;
    }
}

/// Converts an address to the number it denotes.
pub fn addr_to_big_uint(addr: &AccountAddress) -> (r: u128)
    ensures
        r == be_value(addr.bytes@),
{
    let mut acc: u128 = 0;
    let mut i: usize = 0;
    proof {
        reveal_with_fuel(pow256, 17);
        assert(pow256(16) == 0x1_0000_0000_0000_0000_0000_0000_0000_0000nat);
    }
    while i < 16
        invariant
            i <= 16,
            addr.bytes@.len() == 16,
            acc == be_value(addr.bytes@.take(i as int)),
            pow256(16) == 0x1_0000_0000_0000_0000_0000_0000_0000_0000nat,
        decreases 16 - i,
    {
        let b = addr.bytes[i];
        proof {
            let t = addr.bytes@.take(i + 1);
            assert(t.drop_last() == addr.bytes@.take(i as int));
            assert(t.last() == b);
            lemma_be_value_bound(t);
            lemma_pow_mono((i + 1) as nat, 16);
        }
        acc = acc * 256 + b as u128;
        i += 1;
    }
    assert(addr.bytes@.take(16) == addr.bytes@);
    acc
}

proof fn lemma_pow_mono(a: nat, b: nat)
    requires
        a <= b,
    ensures
        pow256(a) <= pow256(b),
    decreases b - a,
{
    if a < b {
        lemma_pow_mono(a, (b - 1) as nat);
    }
}

proof fn lemma_be_value_prepend(b: u8, s: Seq<u8>)
    ensures
        be_value(seq![b] + s) == b as nat * pow256(s.len()) + be_value(s),
    decreases s.len(),
{
    if s.len() == 0 {
        assert(seq![b] + s =~= seq![b]);
        assert(seq![b].drop_last() =~= Seq::<u8>::empty());
        assert(be_value(seq![b]) == be_value(Seq::<u8>::empty()) * 256 + b as nat);
        assert(be_value(Seq::<u8>::empty()) == 0);
        assert(pow256(0) == 1);
        assert(b as nat * pow256(s.len()) == b as nat);
        assert(be_value(s) == 0);
    } else {
        let t = seq![b] + s;
        assert(t.drop_last() == seq![b] + s.drop_last());
        assert(t.last() == s.last());
        assert(be_value(t) == be_value(t.drop_last()) * 256 + t.last() as nat);
        assert(be_value(s) == be_value(s.drop_last()) * 256 + s.last() as nat);
        assert(pow256(s.len()) == 256 * pow256(s.drop_last().len()));
        lemma_be_value_prepend(b, s.drop_last());
        let p = pow256(s.drop_last().len());
        let x = be_value(s.drop_last());
        assert((b as nat * p + x) * 256 + s.last() as nat == b as nat * (256 * p) + (x * 256 + s.last() as nat))
            by (nonlinear_arith);
        assert(be_value(t.drop_last()) == b as nat * p + x);
        assert(be_value(t) == (b as nat * p + x) * 256 + s.last() as nat);
    }
}

/// Converts a number to the address that denotes it.
pub fn big_uint_to_addr(i: u128) -> (r: AccountAddress)
    ensures
        be_value(r.bytes@) == i,
{
    let mut bytes: [u8; 16] = [0u8; 16];
    let mut v: u128 = i;
    let mut j: usize = 0;
    proof {
        reveal_with_fuel(pow256, 17);
        assert(bytes@.subrange(16, 16) =~= Seq::<u8>::empty());
        assert(be_value(bytes@.subrange(16, 16)) == 0);
        assert(pow256(0) == 1);
    }
    while j < 16
        invariant
            j <= 16,
            bytes@.len() == 16,
            i == v * pow256(j as nat) + be_value(bytes@.subrange(16 - j, 16)),
        decreases 16 - j,
    {
        let idx: usize = 15 - j;
        let b: u8 = (v % 256) as u8;
        let ghost old_suffix = bytes@.subrange(16 - j, 16);
        bytes[idx] = b;
        proof {
            let suffix = bytes@.subrange(idx as int, 16);
            assert(suffix == seq![b] + old_suffix);
            lemma_be_value_prepend(b, old_suffix);
            assert(old_suffix.len() == j);
            let q = v / 256;
            assert(v == q * 256 + b as nat);
            assert(pow256((j + 1) as nat) == 256 * pow256(j as nat));
            assert(v * pow256(j as nat) == q * pow256((j + 1) as nat) + b as nat * pow256(j as nat))
                by (nonlinear_arith)
                requires
                    v == q * 256 + b as nat,
                    pow256((j + 1) as nat) == 256 * pow256(j as nat),
            ;
        }
        v = v / 256;
        j += 1;
    }
    proof {
        assert(bytes@.subrange(0, 16) == bytes@);
        lemma_be_value_bound(bytes@);
        assert(pow256(16) == 0x1_0000_0000_0000_0000_0000_0000_0000_0000nat) by {
            reveal_with_fuel(pow256, 17);
        }
        assert(v == 0) by (nonlinear_arith)
            requires
                i == v * pow256(16) + be_value(bytes@),
                pow256(16) == 0x1_0000_0000_0000_0000_0000_0000_0000_0000nat,
                i < 0x1_0000_0000_0000_0000_0000_0000_0000_0000nat,
        ;
    }
    AccountAddress { bytes }
}

/// A compiled module as the bytecode-only builder reads it.
pub struct BytecodeModule {
    pub address: AccountAddress,
    pub name: String,
    pub functions: Vec<CompiledFunctionDef>,
    pub structs: Vec<CompiledStructDef>,
}

/// Builds an environment of stub entries from compiled modules, which must come
/// in dependency order: module `i` gets id `i`, its address as a number, and one
/// function and struct per definition, with no location and no specification.
pub fn run_bytecode_model_builder(modules: &Vec<BytecodeModule>) -> (env: GlobalEnv)
    requires
        forall|i: int| 0 <= i < modules@.len() ==>
            (#[trigger] modules@[i]).functions@.len() <= 0x10000 && modules@[i].structs@.len() <= 0x10000,
    ensures
        env.wf(),
        env.modules@.len() == modules@.len(),
        env.files@.len() == 0,
        env.diags@.len() == 0,
        forall|i: int| 0 <= i < modules@.len() ==> {
            &&& (#[trigger] env.modules@[i]).name.address == be_value(modules@[i].address.bytes@)
            &&& env.modules@[i].name.name.0 < env.symbols@.len()
            &&& env.symbols@[env.modules@[i].name.name.0 as int] == modules@[i].name@
            &&& records_module(
                env.symbols@,
                env.modules@[i],
                env.modules@[i].name,
                modules@[i].functions@,
                modules@[i].structs@,
                Seq::empty(),
                false,
            )
        },
{
    let mut env = GlobalEnv::new();
    let no_specs: Vec<SpecBlock> = Vec::new();
    let mut i: usize = 0;
    while i < modules.len()
        invariant
            i <= modules@.len(),
            forall|q: int| 0 <= q < modules@.len() ==>
                (#[trigger] modules@[q]).functions@.len() <= 0x10000 && modules@[q].structs@.len() <= 0x10000,
            no_specs@.len() == 0,
            env.wf(),
            env.modules@.len() == i,
            env.files@.len() == 0,
            env.diags@.len() == 0,
            forall|q: int| 0 <= q < i ==> {
                &&& (#[trigger] env.modules@[q]).name.address == be_value(modules@[q].address.bytes@)
                &&& env.modules@[q].name.name.0 < env.symbols@.len()
                &&& env.symbols@[env.modules@[q].name.name.0 as int] == modules@[q].name@
                &&& records_module(
                    env.symbols@,
                    env.modules@[q],
                    env.modules@[q].name,
                    modules@[q].functions@,
                    modules@[q].structs@,
                    Seq::empty(),
                    false,
                )
            },
        decreases modules@.len() - i,
    {
        let m = &modules[i];
        let ghost s0 = env.symbols@;
        let addr = addr_to_big_uint(&m.address);
        let sym = env.symbols.make(m.name.as_str());
        let name = ModuleName { address: addr, name: sym };
        let ghost s1 = env.symbols@;
        let md = translate_module(&mut env, i, name, Loc::default_loc(), &m.functions, &m.structs, &no_specs, false);
        proof {
            assert forall|q: int| 0 <= q < i implies {
                &&& (#[trigger] env.modules@[q]).name.address == be_value(modules@[q].address.bytes@)
                &&& env.modules@[q].name.name.0 < env.symbols@.len()
                &&& env.symbols@[env.modules@[q].name.name.0 as int] == modules@[q].name@
                &&& records_module(
                    env.symbols@,
                    env.modules@[q],
                    env.modules@[q].name,
                    modules@[q].functions@,
                    modules@[q].structs@,
                    Seq::empty(),
                    false,
                )
            } by {
                crate::merge::lemma_records_extend(s0, env.symbols@, env.modules@[q], env.modules@[q].name,
                    modules@[q].functions@, modules@[q].structs@, Seq::empty(), false);
            }
            assert(no_specs@ == Seq::<SpecBlock>::empty());
        }
        env.modules.push(md);
        i += 1;
    }
    env
}

} // verus!
