//! The Metal emitter: packed struct definitions, whole-struct reads,
//! per-field accessors, enum bodies with tag accessors, and variant tags.

use vstd::prelude::*;
use vstd::string::StringExecFns;

use crate::model::{
    def_name, def_size_at, def_size_d, is_small_type, spec_is_enum_variant, GpuModule, GpuType,
    GpuTypeDef,
};
use crate::text::{dec_of, push_dec};
use crate::typename::type_metal_name;

verus! {

/// The field lines of a Metal packed struct definition, first `n` fields.
pub open spec fn metal_field_lines(fields: Seq<(String, GpuType)>, n: int) -> Seq<char>
    decreases n,
{
    if n <= 0 {
        Seq::empty()
    } else {
        metal_field_lines(fields, n - 1) + "    "@ + type_metal_name(fields[n - 1].1) + " "@
            + fields[n - 1].0@ + ";\n"@
    }
}

/// The accessor functions for the small fields among the first `n`.
pub open spec fn metal_accessors(name: Seq<char>, fields: Seq<(String, GpuType)>, n: int) -> Seq<
    char,
>
    decreases n,
{
    if n <= 0 {
        Seq::empty()
    } else {
        metal_accessors(name, fields, n - 1) + if is_small_type(fields[n - 1].1) {
            type_metal_name(fields[n - 1].1) + " "@ + name + "_"@ + fields[n - 1].0@
                + "(const device char *buf, "@ + name + "Ref"@ + " ref) {\n"@
                + "    return ((const device "@ + name + "Packed *)(buf + ref))->"@ + fields[n
                - 1].0@ + ";\n"@ + "}\n"@
        } else {
            Seq::<char>::empty()
        }
    }
}

/// The `#define` lines for the first `k` variant tags, 1-based.
pub open spec fn metal_tag_lines(ename: Seq<char>, vars: Seq<(String, Vec<GpuType>)>, k: int) -> Seq<
    char,
>
    decreases k,
{
    if k <= 0 {
        Seq::empty()
    } else {
        metal_tag_lines(ename, vars, k - 1) + "#define "@ + ename + "_"@ + vars[k - 1].0@ + " "@
            + dec_of(k) + "\n"@
    }
}

/// The opening of a Metal packed struct: its header and, for an
/// enum-variant struct, the leading tag field.
pub open spec fn metal_struct_header(m: GpuModule, name: Seq<char>) -> Seq<char> {
    "struct "@ + name + "Packed {\n"@ + if spec_is_enum_variant(m, name) {
        "    uint tag;\n"@
    } else {
        Seq::<char>::empty()
    }
}

/// The whole-struct read function that reinterprets the buffer pointer.
pub open spec fn metal_read_fn(name: Seq<char>) -> Seq<char> {
    "};\n"@ + name + "Packed "@ + name + "_read(const device char *buf, "@ + name + "Ref"@
        + " ref) {\n"@ + "    return *((const device "@ + name + "Packed *)(buf + ref));\n"@
        + "}\n"@
}

/// The Metal emission for a struct definition.
pub open spec fn metal_struct_text(m: GpuModule, name: Seq<char>, fields: Seq<(String, GpuType)>) -> Seq<char> {
    metal_struct_header(m, name) + metal_field_lines(fields, fields.len() as int) + metal_read_fn(
        name,
    ) + metal_accessors(name, fields, fields.len() as int)
}

/// The Metal struct and tag accessor for an enum whose body takes
/// `body_size` words after the tag. The word count is
/// `(size + 3) / 4 - 1`: with the tag word it spans the layout size
/// rounded up, erring on the wide side for enums whose first payload
/// embeds the tag (see the enum body bound law).
pub open spec fn metal_enum_header(ename: Seq<char>, body_size: int) -> Seq<char> {
    "struct "@ + ename + " {\n"@ + "    uint tag;\n"@ + "    uint body["@ + dec_of(body_size)
        + "];\n"@ + "};\n"@ + "uint "@ + ename + "_tag(const device char *buf, "@ + ename
        + "Ref"@ + " ref) {\n"@ + "    return ((const device "@ + ename
        + " *)(buf + ref))->tag;\n"@ + "}\n"@
}

/// The whole Metal emission for one definition.
pub open spec fn def_metal_text(m: GpuModule, d: GpuTypeDef) -> Seq<char> {
    match d {
        GpuTypeDef::Struct(name, fields) => metal_struct_text(m, name@, fields@),
        GpuTypeDef::Enum(en) => {
            let size = def_size_d(m, d, m.defs@.len() as int);
            let body_size = (size + 3) / 4 - 1;
            metal_enum_header(en.name@, body_size) + metal_tag_lines(
                en.name@,
                en.variants@,
                en.variants@.len() as int,
            )
        },
    }
}

/// The typedef lines for the first `n` definitions.
pub open spec fn metal_typedef_lines(defs: Seq<GpuTypeDef>, n: int) -> Seq<char>
    decreases n,
{
    if n <= 0 {
        Seq::empty()
    } else {
        metal_typedef_lines(defs, n - 1) + "typedef uint "@ + def_name(defs[n - 1]) + "Ref;\n"@
    }
}

/// The emissions of the first `n` definitions, in order.
pub open spec fn metal_body_texts(m: GpuModule, n: int) -> Seq<char>
    decreases n,
{
    if n <= 0 {
        Seq::empty()
    } else {
        metal_body_texts(m, n - 1) + def_metal_text(m, m.defs@[n - 1])
    }
}

/// The whole Metal output of a module: all typedefs, then every
/// definition's emission, in declaration order.
pub open spec fn module_metal_text(m: GpuModule) -> Seq<char> {
    metal_typedef_lines(m.defs@, m.defs@.len() as int) + metal_body_texts(
        m,
        m.defs@.len() as int,
    )
}

/// The field lines of a packed struct definition.
#[verifier::loop_isolation(false)]
fn metal_fields_text(fields: &Vec<(String, GpuType)>) -> (r: String)
    ensures
        r@ == metal_field_lines(fields@, fields@.len() as int),
{
    let mut r = String::new();
    let mut k: usize = 0;
    while k < fields.len()
        invariant
            k <= fields@.len(),
            r@ == metal_field_lines(fields@, k as int),
        decreases fields@.len() - k,
    {
        r.append("    ");
        let tn = fields[k].1.metal_typename();
        r.append(tn.as_str());
        r.append(" ");
        r.append(fields[k].0.as_str());
        r.append(";\n");
        k += 1;
    }
    r
}

/// The accessor functions for the small fields of a struct.
#[verifier::loop_isolation(false)]
#[verifier::rlimit(60)]
fn metal_accessors_text(name: &str, fields: &Vec<(String, GpuType)>) -> (r: String)
    ensures
        r@ == metal_accessors(name@, fields@, fields@.len() as int),
{
    let mut r = String::new();
    let mut k: usize = 0;
    while k < fields.len()
        invariant
            k <= fields@.len(),
            r@ == metal_accessors(name@, fields@, k as int),
        decreases fields@.len() - k,
    {
        if fields[k].1.is_small() {
            let tn = fields[k].1.metal_typename();
            r.append(tn.as_str());
            r.append(" ");
            r.append(name);
            r.append("_");
            r.append(fields[k].0.as_str());
            r.append("(const device char *buf, ");
            r.append(name);
            r.append("Ref");
            r.append(" ref) {\n");
            r.append("    return ((const device ");
            r.append(name);
            r.append("Packed *)(buf + ref))->");
            r.append(fields[k].0.as_str());
            r.append(";\n");
            r.append("}\n");
        }
        k += 1;
    }
    r
}

/// The 1-based variant tag defines of an enum.
#[verifier::loop_isolation(false)]
fn metal_tags_text(en: &crate::model::GpuEnum) -> (r: String)
    ensures
        r@ == metal_tag_lines(en.name@, en.variants@, en.variants@.len() as int),
{
    let mut r = String::new();
    let mut k: usize = 0;
    while k < en.variants.len()
        invariant
            k <= en.variants@.len(),
            r@ == metal_tag_lines(en.name@, en.variants@, k as int),
        decreases en.variants@.len() - k,
    {
        let tag = k + 1;
        r.append("#define ");
        r.append(en.name.as_str());
        r.append("_");
        r.append(en.variants[k].0.as_str());
        r.append(" ");
        push_dec(&mut r, tag);
        r.append("\n");
        k += 1;
    }
    r
}

impl GpuTypeDef {
    /// The Metal emission for this definition.
    #[verifier::rlimit(60)]
    pub fn to_metal(&self, module: &GpuModule) -> (r: String)
        requires
            module.wf(),
            exists|i: int| 0 <= i < module.defs@.len() && module.defs@[i] == *self,
        ensures
            r@ == def_metal_text(*module, *self),
    {
        let ghost m = *module;
        let mut r = String::new();
        match self {
            GpuTypeDef::Struct(name, fields) => {
                r.append("struct ");
                r.append(name.as_str());
                r.append("Packed {\n");
                if module.is_enum_variant(name.as_str()) {
                    r.append("    uint tag;\n");
                }
                proof {
                    assert(r@ =~= metal_struct_header(m, name@));
                }
                let body = metal_fields_text(fields);
                r.append(body.as_str());
                r.append("};\n");
                r.append(name.as_str());
                r.append("Packed ");
                r.append(name.as_str());
                r.append("_read(const device char *buf, ");
                r.append(name.as_str());
                r.append("Ref");
                r.append(" ref) {\n");
                r.append("    return *((const device ");
                r.append(name.as_str());
                r.append("Packed *)(buf + ref));\n");
                r.append("}\n");
                proof {
                    assert(r@ =~= metal_struct_header(m, name@) + metal_field_lines(
                        fields@,
                        fields@.len() as int,
                    ) + metal_read_fn(name@));
                }
                let acc = metal_accessors_text(name.as_str(), fields);
                r.append(acc.as_str());
                proof {
                    assert(r@ =~= metal_struct_text(m, name@, fields@));
                }
            },
            GpuTypeDef::Enum(en) => {
                r.append("struct ");
                r.append(en.name.as_str());
                r.append(" {\n");
                r.append("    uint tag;\n");
                let size = self.size(module);
                proof {
                    let i0 = choose|i: int|
                        0 <= i < m.defs@.len() && m.defs@[i] == *self;
                    assert(size as int == def_size_at(m, i0));
                    crate::model::lemma_variants_max_mono(
                        m,
                        en.variants@,
                        0,
                        en.variants@.len() as int,
                        i0,
                    );
                    assert(def_size_d(m, *self, i0) >= 4);
                    crate::model::lemma_def_size_bound(m, i0, m.defs@.len() as int);
                    assert(size >= 4);
                }
                let body_size = (size + 3) / 4 - 1;
                r.append("    uint body[");
                push_dec(&mut r, body_size);
                r.append("];\n");
                r.append("};\n");
                r.append("uint ");
                r.append(en.name.as_str());
                r.append("_tag(const device char *buf, ");
                r.append(en.name.as_str());
                r.append("Ref");
                r.append(" ref) {\n");
                r.append("    return ((const device ");
                r.append(en.name.as_str());
                r.append(" *)(buf + ref))->tag;\n");
                r.append("}\n");
                proof {
                    assert(r@ =~= metal_enum_header(en.name@, (size as int + 3) / 4 - 1));
                }
                let tags = metal_tags_text(en);
                r.append(tags.as_str());
            },
        }
        r
    }
}

impl GpuModule {
    /// The whole Metal output of this module.
    #[verifier::loop_isolation(false)]
    #[verifier::rlimit(100)]
    #[verifier::spinoff_prover]
    pub fn to_metal(&self) -> (r: String)
        requires
            self.wf(),
        ensures
            r@ == module_metal_text(*self),
    {
        let mut r = String::new();
        let mut k: usize = 0;
        while k < self.defs.len()
            invariant
                k <= self.defs@.len(),
                r@ == metal_typedef_lines(self.defs@, k as int),
            decreases self.defs@.len() - k,
        {
            r.append("typedef uint ");
            r.append(self.defs[k].name());
            r.append("Ref;\n");
            k += 1;
        }
        let ghost head = r@;
        let mut k2: usize = 0;
        while k2 < self.defs.len()
            invariant
                k2 <= self.defs@.len(),
                r@ == head + metal_body_texts(*self, k2 as int),
            decreases self.defs@.len() - k2,
        {
            let body = self.defs[k2].to_metal(self);
            r.append(body.as_str());
            k2 += 1;
        }
        r
    }
}

} // verus!
