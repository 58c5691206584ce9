//! The function-target IR: a function's rewritable bytecode, local and return
//! types, locations and annotations, viewed together with its declaration.
use vstd::prelude::*;
use vstd::string::StringExecFns;
use crate::model::{Condition, Loc};

verus! {

/// A type of a local or a return value.
pub enum Type {
    Bool,
    U8,
    U64,
    U128,
    Address,
    Signer,
    Vector(Box<Type>),
    Reference(bool, Box<Type>),
    Struct(String),
    TypeParameter(String),
}

/// How a type is displayed.
pub open spec fn type_text(t: Type) -> Seq<char>
    decreases t,
{
    match t {
        Type::Bool => "bool"@,
        Type::U8 => "u8"@,
        Type::U64 => "u64"@,
        Type::U128 => "u128"@,
        Type::Address => "address"@,
        Type::Signer => "signer"@,
        Type::Vector(e) => "vector<"@ + type_text(*e) + ">"@,
        Type::Reference(is_mut, e) => (if is_mut { "&mut "@ } else { "&"@ }) + type_text(*e),
        Type::Struct(n) => n@,
        Type::TypeParameter(n) => n@,
    }
}

/// The decimal digits of `n`.
pub open spec fn dec_text(n: nat) -> Seq<char>
    decreases n,
{
    let d = seq![(('0' as u8) + (n % 10) as u8) as char];
    if n < 10 {
        d
    } else {
        dec_text(n / 10) + d
    }
}

/// Relies on the `Display` impl of `usize` (through `ToString`): plain decimal
/// digits, no sign, no padding.
#[verifier::external_body]
fn decimal(n: usize) -> (r: String)
    ensures
        r@ == dec_text(n as nat),
{
    n.to_string()
}

fn append(s: &mut String, t: &str)
    ensures
        final(s)@ == old(s)@ + t@,
{
    s.append(t);
}

fn type_string(t: &Type) -> (r: String)
    ensures
        r@ == type_text(*t),
    decreases t,
{
    proof {
        reveal_strlit("bool");
        reveal_strlit("u8");
        reveal_strlit("u64");
        reveal_strlit("u128");
        reveal_strlit("address");
        reveal_strlit("signer");
        reveal_strlit("vector<");
        reveal_strlit(">");
        reveal_strlit("&mut ");
        reveal_strlit("&");
    }
    match t {
        Type::Bool => <String as StringExecFns>::from_str("bool"),
        Type::U8 => <String as StringExecFns>::from_str("u8"),
        Type::U64 => <String as StringExecFns>::from_str("u64"),
        Type::U128 => <String as StringExecFns>::from_str("u128"),
        Type::Address => <String as StringExecFns>::from_str("address"),
        Type::Signer => <String as StringExecFns>::from_str("signer"),
        Type::Vector(e) => {
            let mut s = <String as StringExecFns>::from_str("vector<");
            let inner = type_string(e);
            append(&mut s, inner.as_str());
            append(&mut s, ">");
            s
        },
        Type::Reference(is_mut, e) => {
            let mut s = if *is_mut {
                <String as StringExecFns>::from_str("&mut ")
            } else {
                <String as StringExecFns>::from_str("&")
            };
            let inner = type_string(e);
            append(&mut s, inner.as_str());
            s
        },
        Type::Struct(n) => n.clone(),
        Type::TypeParameter(n) => n.clone(),
    }
}

/// The declaration of a function in the model, as the IR reads it.
pub struct FunctionEnv {
    pub module_name: String,
    pub id: usize,
    pub name: String,
    pub loc: Loc,
    pub is_native: bool,
    pub is_public: bool,
    pub is_mutating: bool,
    pub type_parameters: Vec<String>,
    pub parameter_count: usize,
    /// The names of the declared locals, parameters first.
    pub local_names: Vec<String>,
    pub spec_on_decl: Vec<Condition>,
    /// Conditions attached to bytecode offsets.
    pub spec_on_impl: Vec<(u16, Vec<Condition>)>,
}

/// One bytecode instruction, with the attribute id that keys its location.
pub struct Bytecode {
    pub attr_id: usize,
    pub text: String,
}

/// A fact that an analysis attached at a code offset, under the analysis's kind.
pub struct Annotation {
    pub kind: String,
    pub offset: usize,
    pub text: String,
}

/// The annotations of a function target.
pub struct Annotations {
    pub entries: Vec<Annotation>,
}

/// The rewritable data of a function target.
pub struct FunctionTargetData {
    pub code: Vec<Bytecode>,
    pub local_types: Vec<Type>,
    pub return_types: Vec<Type>,
    pub locations: Vec<(usize, Loc)>,
    pub annotations: Annotations,
}

/// Displays the annotations of one kind: the first one at the offset, if any.
pub struct AnnotationFormatter {
    pub kind: String,
}

/// A read view of a function: its declaration and its current data, with the
/// annotation formatters registered for display.
pub struct FunctionTarget<'env> {
    pub func_env: &'env FunctionEnv,
    pub data: &'env FunctionTargetData,
    pub annotation_formatters: Vec<AnnotationFormatter>,
}

/// The location recorded for `attr_id`: the first entry for it.
pub open spec fn location_of(locs: Seq<(usize, Loc)>, attr_id: usize) -> Option<Loc>
    decreases locs.len(),
{
    if locs.len() == 0 {
        None
    } else if locs[0].0 == attr_id {
        Some(locs[0].1)
    } else {
        location_of(locs.subrange(1, locs.len() as int), attr_id)
    }
}

/// What a formatter of `kind` shows at `offset`: the first annotation of that
/// kind there.
pub open spec fn annotation_at(anns: Seq<Annotation>, kind: Seq<char>, offset: usize) -> Option<Seq<char>>
    decreases anns.len(),
{
    if anns.len() == 0 {
        None
    } else if anns[0].kind@ == kind && anns[0].offset == offset {
        Some(anns[0].text@)
    } else {
        annotation_at(anns.subrange(1, anns.len() as int), kind, offset)
    }
}

/// The parts joined by `sep`.
pub open spec fn join(parts: Seq<Seq<char>>, sep: Seq<char>) -> Seq<char>
    decreases parts.len(),
{
    if parts.len() == 0 {
        Seq::empty()
    } else if parts.len() == 1 {
        parts[0]
    } else {
        join(parts.drop_last(), sep) + sep + parts.last()
    }
}

impl<'env> FunctionTarget<'env> {
    /// The data is consistent with the declaration: every parameter has a type.
    pub open spec fn wf(&self) -> bool {
        self.func_env.parameter_count <= self.data.local_types@.len()
    }

    pub open spec fn local_name_text(&self, i: int) -> Seq<char> {
        if i < self.func_env.local_names@.len() {
            self.func_env.local_names@[i]@
        } else {
            "$t"@ + dec_text(i as nat)
        }
    }

    /// The outputs of the registered formatters at `offset`, in registration
    /// order, leaving out those that show nothing.
    pub open spec fn annotation_parts(&self, n: int, offset: usize) -> Seq<Seq<char>>
        decreases n,
    {
        if n <= 0 {
            Seq::empty()
        } else {
            let prev = self.annotation_parts(n - 1, offset);
            match annotation_at(self.data.annotations.entries@, self.annotation_formatters@[n - 1].kind@, offset) {
                Some(s) => prev.push(s),
                None => prev,
            }
        }
    }

    pub open spec fn tparam_parts(&self) -> Seq<Seq<char>> {
        Seq::new(self.func_env.type_parameters@.len(), |i: int| self.func_env.type_parameters@[i]@)
    }

    pub open spec fn param_parts(&self) -> Seq<Seq<char>> {
        Seq::new(
            self.func_env.parameter_count as nat,
            |i: int| self.local_name_text(i) + ": "@ + type_text(self.data.local_types@[i]),
        )
    }

    pub open spec fn ret_parts(&self) -> Seq<Seq<char>> {
        Seq::new(self.data.return_types@.len(), |i: int| type_text(self.data.return_types@[i]))
    }

    pub open spec fn header_text(&self) -> Seq<char> {
        let tps = self.tparam_parts();
        let rc = self.ret_parts().len();
        (if self.func_env.is_public { "pub "@ } else { Seq::empty() })
            + "fun "@ + self.func_env.module_name@ + "::"@ + self.func_env.name@
            + (if tps.len() == 0 { Seq::empty() } else { "<"@ + join(tps, ", "@) + ">"@ })
            + "("@ + join(self.param_parts(), ", "@) + ")"@
            + (if rc == 0 {
                Seq::empty()
            } else if rc == 1 {
                ": "@ + join(self.ret_parts(), ", "@)
            } else {
                ": "@ + "("@ + join(self.ret_parts(), ", "@) + ")"@
            })
            + " {\n"@
    }

    pub open spec fn locals_text(&self, n: int) -> Seq<char>
        decreases n,
    {
        if n <= self.func_env.parameter_count {
            Seq::empty()
        } else {
            self.locals_text(n - 1) + "    var "@ + self.local_name_text(n - 1) + ": "@
                + type_text(self.data.local_types@[n - 1]) + "\n"@
        }
    }

    pub open spec fn code_line(&self, offset: int) -> Seq<char> {
        let ann = join(self.annotation_parts(self.annotation_formatters@.len() as int, offset as usize), ", "@);
        (if ann.len() > 0 { "    // "@ + ann + "\n"@ } else { Seq::empty() })
            + "    "@ + self.data.code@[offset].text@ + "\n"@
    }

    pub open spec fn code_text(&self, n: int) -> Seq<char>
        decreases n,
    {
        if n <= 0 {
            Seq::empty()
        } else {
            self.code_text(n - 1) + self.code_line(n - 1)
        }
    }

    /// The whole display text.
    pub open spec fn display_text(&self) -> Seq<char> {
        self.header_text() + self.locals_text(self.data.local_types@.len() as int)
            + self.code_text(self.data.code@.len() as int) + "}\n"@
    }

    pub fn new(func_env: &'env FunctionEnv, data: &'env FunctionTargetData) -> (r: FunctionTarget<'env>)
        ensures
            r.func_env == func_env,
            r.data == data,
            r.annotation_formatters@.len() == 0,
    {
        FunctionTarget { func_env, data, annotation_formatters: Vec::new() }
    }

    /// Returns the name of this function.
    pub fn get_name(&self) -> (r: &String)
        ensures
            r == &self.func_env.name,
    {
        &self.func_env.name
    }

    /// Gets the id of this function.
    pub fn get_id(&self) -> (r: usize)
        ensures
            r == self.func_env.id,
    {
        self.func_env.id
    }

    /// Returns the location of this function.
    pub fn get_loc(&self) -> (r: Loc)
        ensures
            r == self.func_env.loc,
    {
        self.func_env.loc
    }

    /// Returns the location of the bytecode with the given attribute id,
    /// falling back to the function's location.
    pub fn get_bytecode_loc(&self, attr_id: usize) -> (r: Loc)
        ensures
            r == match location_of(self.data.locations@, attr_id) {
                Some(l) => l,
                None => self.func_env.loc,
            },
    {
        let locs = &self.data.locations;
        assert(locs@.subrange(0, locs@.len() as int) == locs@);
        let mut i: usize = 0;
        while i < locs.len()
            invariant
                i <= locs@.len(),
                locs == &self.data.locations,
                location_of(locs@, attr_id) == location_of(locs@.subrange(i as int, locs@.len() as int), attr_id),
            decreases locs@.len() - i,
        {
            proof {
                let rest = locs@.subrange(i as int, locs@.len() as int);
                assert(rest[0] == locs@[i as int]);
                assert(rest.subrange(1, rest.len() as int) == locs@.subrange(i + 1, locs@.len() as int));
            }
            if locs[i].0 == attr_id {
                proof {
                    let rest = locs@.subrange(i as int, locs@.len() as int);
                    assert(location_of(rest, attr_id) == Some(locs@[i as int].1));
                }
                return locs[i].1;
            }
            i += 1;
        }
        assert(locs@.subrange(i as int, locs@.len() as int).len() == 0);
        self.get_loc()
    }

    /// Returns true if this function is native.
    pub fn is_native(&self) -> (r: bool)
        ensures
            r == self.func_env.is_native,
    {
        self.func_env.is_native
    }

    /// Returns true if this function is public.
    pub fn is_public(&self) -> (r: bool)
        ensures
            r == self.func_env.is_public,
    {
        self.func_env.is_public
    }

    /// Returns true if this function mutates any references.
    pub fn is_mutating(&self) -> (r: bool)
        ensures
            r == self.func_env.is_mutating,
    {
        self.func_env.is_mutating
    }

    /// Returns the type parameters of this function.
    pub fn get_type_parameters(&self) -> (r: &Vec<String>)
        ensures
            r == &self.func_env.type_parameters,
    {
        &self.func_env.type_parameters
    }

    /// Returns the return type at the given index.
    pub fn get_return_type(&self, idx: usize) -> (r: &Type)
        requires
            idx < self.data.return_types@.len(),
        ensures
            *r == self.data.return_types@[idx as int],
    {
        &self.data.return_types[idx]
    }

    /// Returns the return types of this function.
    pub fn get_return_types(&self) -> (r: &Vec<Type>)
        ensures
            r == &self.data.return_types,
    {
        &self.data.return_types
    }

    /// Returns the number of return values.
    pub fn get_return_count(&self) -> (r: usize)
        ensures
            r == self.data.return_types@.len(),
    {
        self.data.return_types.len()
    }

    pub fn get_parameter_count(&self) -> (r: usize)
        ensures
            r == self.func_env.parameter_count,
    {
        self.func_env.parameter_count
    }

    /// The name of a local: its declared name, or a generated `$t<idx>`.
    pub fn get_local_name(&self, idx: usize) -> (r: String)
        ensures
            r@ == self.local_name_text(idx as int),
    {
        if idx < self.func_env.local_names.len() {
            self.func_env.local_names[idx].clone()
        } else {
            let mut s = <String as StringExecFns>::from_str("$t");
            proof { reveal_strlit("$t"); }
            let d = decimal(idx);
            append(&mut s, d.as_str());
            s
        }
    }

    /// The number of locals, parameters included.
    pub fn get_local_count(&self) -> (r: usize)
        ensures
            r == self.data.local_types@.len(),
    {
        self.data.local_types.len()
    }

    /// The number of locals the user declared, without those that
    /// transformations introduced.
    pub fn get_user_local_count(&self) -> (r: usize)
        ensures
            r == self.func_env.local_names@.len(),
    {
        self.func_env.local_names.len()
    }

    /// The type of the local at the given index.
    pub fn get_local_type(&self, idx: usize) -> (r: &Type)
        requires
            idx < self.data.local_types@.len(),
        ensures
            *r == self.data.local_types@[idx as int],
    {
        &self.data.local_types[idx]
    }

    /// The specification conditions of the declaration.
    pub fn get_specification_on_decl(&self) -> (r: &Vec<Condition>)
        ensures
            r == &self.func_env.spec_on_decl,
    {
        &self.func_env.spec_on_decl
    }

    /// The specification conditions at a bytecode offset, if any.
    pub fn get_specification_on_impl(&self, offset: u16) -> (r: Option<&Vec<Condition>>)
        ensures
            r is None <==> forall|i: int| 0 <= i < self.func_env.spec_on_impl@.len() ==>
                (#[trigger] self.func_env.spec_on_impl@[i]).0 != offset,
            r matches Some(c) ==> exists|i: int| 0 <= i < self.func_env.spec_on_impl@.len()
                && (#[trigger] self.func_env.spec_on_impl@[i]).0 == offset && c == &self.func_env.spec_on_impl@[i].1,
    {
        let specs = &self.func_env.spec_on_impl;
        let mut i: usize = 0;
        while i < specs.len()
            invariant
                i <= specs@.len(),
                specs == &self.func_env.spec_on_impl,
                forall|j: int| 0 <= j < i ==> (#[trigger] specs@[j]).0 != offset,
            decreases specs@.len() - i,
        {
            if specs[i].0 == offset {
                return Some(&specs[i].1);
            }
            i += 1;
        }
        None
    }

    /// Gets the bytecode.
    pub fn get_code(&self) -> (r: &Vec<Bytecode>)
        ensures
            r == &self.data.code,
    {
        &self.data.code
    }

    /// Gets the annotations.
    pub fn get_annotations(&self) -> (r: &Annotations)
        ensures
            r == &self.data.annotations,
    {
        &self.data.annotations
    }

    /// Registers a formatter; its output follows that of those registered before.
    pub fn register_annotation_formatter(&mut self, formatter: AnnotationFormatter)
        ensures
            final(self).annotation_formatters@ == old(self).annotation_formatters@.push(formatter),
            final(self).func_env == old(self).func_env,
            final(self).data == old(self).data,
    {
        self.annotation_formatters.push(formatter);
    }

    /// Registers the formatters of the lifetime and the reaching-definition
    /// analyses, in that order.
    pub fn register_annotation_formatters_for_test(&mut self)
        ensures
            final(self).annotation_formatters@.len() == old(self).annotation_formatters@.len() + 2,
            forall|i: int| 0 <= i < old(self).annotation_formatters@.len() ==>
                final(self).annotation_formatters@[i] == old(self).annotation_formatters@[i],
            final(self).annotation_formatters@[old(self).annotation_formatters@.len() as int].kind@ == "lifetime"@,
            final(self).annotation_formatters@[old(self).annotation_formatters@.len() as int + 1].kind@ == "reaching_def"@,
            final(self).func_env == old(self).func_env,
            final(self).data == old(self).data,
    {
        self.register_annotation_formatter(AnnotationFormatter { kind: <String as StringExecFns>::from_str("lifetime") });
        self.register_annotation_formatter(AnnotationFormatter { kind: <String as StringExecFns>::from_str("reaching_def") });
    }
}

proof fn lemma_join_step(parts: Seq<Seq<char>>, sep: Seq<char>, i: int)
    requires
        0 <= i < parts.len(),
    ensures
        join(parts.take(i + 1), sep) == if i == 0 {
            parts[0]
        } else {
            join(parts.take(i), sep) + sep + parts[i]
        },
{
    assert(parts.take(i + 1).drop_last() == parts.take(i));
    assert(parts.take(i + 1).last() == parts[i]);
}

fn find_annotation<'a>(anns: &'a Vec<Annotation>, kind: &String, offset: usize) -> (r: Option<&'a String>)
    ensures
        match annotation_at(anns@, kind@, offset) {
            Some(s) => r is Some && r->Some_0@ == s,
            None => r is None,
        },
{
    assert(anns@.subrange(0, anns@.len() as int) == anns@);
    let mut i: usize = 0;
    while i < anns.len()
        invariant
            i <= anns@.len(),
            annotation_at(anns@, kind@, offset) == annotation_at(anns@.subrange(i as int, anns@.len() as int), kind@, offset),
        decreases anns@.len() - i,
    {
        let ghost rest = anns@.subrange(i as int, anns@.len() as int);
        proof {
            assert(rest[0] == anns@[i as int]);
            assert(rest.subrange(1, rest.len() as int) == anns@.subrange(i + 1, anns@.len() as int));
        }
        if anns[i].kind.eq(kind) && anns[i].offset == offset {
            return Some(&anns[i].text);
        }
        i += 1;
    }
    assert(anns@.subrange(i as int, anns@.len() as int).len() == 0);
    None
}

impl<'env> FunctionTarget<'env> {
    /// The annotation comment for one offset: every registered formatter's
    /// output there, in registration order, joined by commas.
    fn annotation_line(&self, offset: usize) -> (r: String)
        ensures
            r@ == join(self.annotation_parts(self.annotation_formatters@.len() as int, offset), ", "@),
    {
        let mut s = String::new();
        let mut count: usize = 0;
        let mut i: usize = 0;
        while i < self.annotation_formatters.len()
            invariant
                i <= self.annotation_formatters@.len(),
                count == self.annotation_parts(i as int, offset).len(),
                count <= i,
                s@ == join(self.annotation_parts(i as int, offset), ", "@),
            decreases self.annotation_formatters@.len() - i,
        {
            let ghost parts0 = self.annotation_parts(i as int, offset);
            match find_annotation(&self.data.annotations.entries, &self.annotation_formatters[i].kind, offset) {
                Some(text) => {
                    let ghost parts1 = self.annotation_parts(i + 1, offset);
                    proof {
                        assert(parts1 == parts0.push(text@));
                        lemma_join_step(parts1, ", "@, count as int);
                        assert(parts1.take(count + 1) == parts1);
                        assert(parts1.take(count as int) == parts0);
                    }
                    if count > 0 {
                        append(&mut s, ", ");
                    }
                    append(&mut s, text.as_str());
                    count += 1;
                },
                None => {},
            }
            i += 1;
        }
        s
    }

    /// Renders the target: signature, introduced locals, then one line per
    /// instruction, each preceded by its annotation comment where that is not
    /// empty. The text depends on the target's data and formatters alone.
    pub fn display(&self) -> (r: String)
        requires
            self.wf(),
        ensures
            r@ == self.display_text(),
    {
        let fe = self.func_env;
        let mut s = String::new();
        if fe.is_public {
            append(&mut s, "pub ");
        }
        append(&mut s, "fun ");
        append(&mut s, fe.module_name.as_str());
        append(&mut s, "::");
        append(&mut s, fe.name.as_str());
        let ghost h1 = (if fe.is_public { "pub "@ } else { Seq::<char>::empty() })
            + "fun "@ + fe.module_name@ + "::"@ + fe.name@;
        assert(s@ =~= h1);
        let ghost tp = if self.tparam_parts().len() == 0 {
            Seq::<char>::empty()
        } else {
            "<"@ + join(self.tparam_parts(), ", "@) + ">"@
        };
        if fe.type_parameters.len() > 0 {
            append(&mut s, "<");
            let ghost base = s@;
            let mut i: usize = 0;
            while i < fe.type_parameters.len()
                invariant
                    fe == self.func_env,
                    0 < fe.type_parameters@.len(),
                    i <= fe.type_parameters@.len(),
                    s@ == base + join(self.tparam_parts().take(i as int), ", "@),
                decreases fe.type_parameters@.len() - i,
            {
                proof { lemma_join_step(self.tparam_parts(), ", "@, i as int); }
                if i > 0 {
                    append(&mut s, ", ");
                }
                append(&mut s, fe.type_parameters[i].as_str());
                i += 1;
            }
            assert(self.tparam_parts().take(i as int) == self.tparam_parts());
            append(&mut s, ">");
        }
        assert(s@ =~= h1 + tp);
        append(&mut s, "(");
        let ghost base_p = s@;
        let mut i: usize = 0;
        while i < fe.parameter_count
            invariant
                fe == self.func_env,
                self.wf(),
                i <= fe.parameter_count,
                s@ == base_p + join(self.param_parts().take(i as int), ", "@),
            decreases fe.parameter_count - i,
        {
            proof { lemma_join_step(self.param_parts(), ", "@, i as int); }
            if i > 0 {
                append(&mut s, ", ");
            }
            let name = self.get_local_name(i);
            append(&mut s, name.as_str());
            append(&mut s, ": ");
            let ty = type_string(&self.data.local_types[i]);
            append(&mut s, ty.as_str());
            i += 1;
        }
        assert(self.param_parts().take(i as int) == self.param_parts());
        append(&mut s, ")");
        let ghost h2 = h1 + tp + "("@ + join(self.param_parts(), ", "@) + ")"@;
        assert(s@ =~= h2);
        let rc = self.data.return_types.len();
        let ghost rt = if rc == 0 {
            Seq::<char>::empty()
        } else if rc == 1 {
            ": "@ + join(self.ret_parts(), ", "@)
        } else {
            ": "@ + "("@ + join(self.ret_parts(), ", "@) + ")"@
        };
        if rc > 0 {
            append(&mut s, ": ");
            let ghost base_r0 = s@;
            assert(base_r0 =~= h2 + ": "@);
            if rc > 1 {
                append(&mut s, "(");
            }
            let ghost base_r = s@;
            let mut k: usize = 0;
            while k < rc
                invariant
                    rc == self.data.return_types@.len(),
                    k <= rc,
                    s@ == base_r + join(self.ret_parts().take(k as int), ", "@),
                decreases rc - k,
            {
                proof { lemma_join_step(self.ret_parts(), ", "@, k as int); }
                if k > 0 {
                    append(&mut s, ", ");
                }
                let ty = type_string(&self.data.return_types[k]);
                append(&mut s, ty.as_str());
                k += 1;
            }
            assert(self.ret_parts().take(k as int) == self.ret_parts());
            assert(s@ == base_r + join(self.ret_parts(), ", "@));
            if rc > 1 {
                append(&mut s, ")");
                assert(s@ =~= h2 + rt);
            } else {
                assert(s@ =~= h2 + rt);
            }
        }
        assert(s@ =~= h2 + rt);
        append(&mut s, " {\n");
        assert(s@ =~= self.header_text());
        let ghost base_l = s@;
        let n = self.data.local_types.len();
        let mut l: usize = fe.parameter_count;
        while l < n
            invariant
                fe == self.func_env,
                self.wf(),
                n == self.data.local_types@.len(),
                fe.parameter_count <= l <= n,
                s@ == base_l + self.locals_text(l as int),
            decreases n - l,
        {
            append(&mut s, "    var ");
            let name = self.get_local_name(l);
            append(&mut s, name.as_str());
            append(&mut s, ": ");
            let ty = type_string(&self.data.local_types[l]);
            append(&mut s, ty.as_str());
            append(&mut s, "\n");
            l += 1;
        }
        let ghost base_c = s@;
        let mut c: usize = 0;
        while c < self.data.code.len()
            invariant
                c <= self.data.code@.len(),
                s@ == base_c + self.code_text(c as int),
            decreases self.data.code@.len() - c,
        {
            let ann = self.annotation_line(c);
            if ann.as_str().unicode_len() > 0 {
                append(&mut s, "    // ");
                append(&mut s, ann.as_str());
                append(&mut s, "\n");
            }
            append(&mut s, "    ");
            append(&mut s, self.data.code[c].text.as_str());
            append(&mut s, "\n");
            c += 1;
        }
        append(&mut s, "}\n");
        s
    }
}

/// Display is a function of the target's declaration, data and registered
/// formatters: two targets that agree on them display the same text.
pub proof fn lemma_display_deterministic(t1: FunctionTarget, t2: FunctionTarget)
    requires
        t1.func_env == t2.func_env,
        t1.data == t2.data,
        t1.annotation_formatters@ == t2.annotation_formatters@,
    ensures
        t1.display_text() == t2.display_text(),
{
    lemma_code_text_agree(t1, t2, t1.data.code@.len() as int);
    lemma_locals_text_agree(t1, t2, t1.data.local_types@.len() as int);
    assert(t1.tparam_parts() =~= t2.tparam_parts());
    assert(t1.param_parts() =~= t2.param_parts());
    assert(t1.ret_parts() =~= t2.ret_parts());
}

proof fn lemma_locals_text_agree(t1: FunctionTarget, t2: FunctionTarget, n: int)
    requires
        t1.func_env == t2.func_env,
        t1.data == t2.data,
    ensures
        t1.locals_text(n) == t2.locals_text(n),
    decreases n,
{
    if n > t1.func_env.parameter_count {
        lemma_locals_text_agree(t1, t2, n - 1);
    }
}

proof fn lemma_code_text_agree(t1: FunctionTarget, t2: FunctionTarget, n: int)
    requires
        t1.data == t2.data,
        t1.annotation_formatters@ == t2.annotation_formatters@,
    ensures
        t1.code_text(n) == t2.code_text(n),
    decreases n,
{
    if n > 0 {
        lemma_code_text_agree(t1, t2, n - 1);
        lemma_parts_agree(t1, t2, t1.annotation_formatters@.len() as int, (n - 1) as usize);
    }
}

/// Registering a formatter appends its output, where it shows anything, after
/// the outputs of the formatters registered before it, at every offset.
pub proof fn lemma_registration_order(t1: FunctionTarget, t2: FunctionTarget, offset: usize)
    requires
        t1.data == t2.data,
        t2.annotation_formatters@.len() == t1.annotation_formatters@.len() + 1,
        forall|i: int| 0 <= i < t1.annotation_formatters@.len() ==>
            t2.annotation_formatters@[i] == t1.annotation_formatters@[i],
    ensures
        t2.annotation_parts(t2.annotation_formatters@.len() as int, offset) == match annotation_at(
            t1.data.annotations.entries@,
            t2.annotation_formatters@.last().kind@,
            offset,
        ) {
            Some(s) => t1.annotation_parts(t1.annotation_formatters@.len() as int, offset).push(s),
            None => t1.annotation_parts(t1.annotation_formatters@.len() as int, offset),
        },
{
    lemma_parts_agree(t1, t2, t1.annotation_formatters@.len() as int, offset);
}

proof fn lemma_parts_agree(t1: FunctionTarget, t2: FunctionTarget, n: int, offset: usize)
    requires
        t1.data == t2.data,
        n <= t1.annotation_formatters@.len(),
        n <= t2.annotation_formatters@.len(),
        forall|i: int| 0 <= i < n ==> t2.annotation_formatters@[i] == t1.annotation_formatters@[i],
    ensures
        t1.annotation_parts(n, offset) == t2.annotation_parts(n, offset),
    decreases n,
{
    if n > 0 {
        lemma_parts_agree(t1, t2, n - 1, offset);
    }
}

} // verus!
