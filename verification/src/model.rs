//! The schema model: types, definitions, modules, and their layout
//! (byte size and alignment) rules.

use vstd::prelude::*;
use vstd::string::StringExecFns;

use crate::scalar::{scalar_size, GpuScalar};
use crate::text::names_view;

verus! {

/// Upper bound accepted for any computed layout size or alignment; keeps
/// every intermediate offset computation far away from overflow.
pub const MAX_SIZE: usize = 0x100_0000;

/// A schema type: a scalar, a fixed-length vector of scalars, another
/// schema struct embedded inline (by name), or a 4-byte reference into the
/// target buffer.
#[derive(Debug)]
pub enum GpuType {
    Scalar(GpuScalar),
    Vector(GpuScalar, usize),
    /// Used mostly for the body of enum variants.
    InlineStruct(String),
    Ref(Box<GpuType>),
}

impl Clone for GpuType {
    /// A clone is equal to the value it copies, recursively.
    fn clone(&self) -> (r: Self)
        ensures
            r == *self,
        decreases *self,
    {
        match self {
            GpuType::Scalar(s) => GpuType::Scalar(*s),
            GpuType::Vector(s, n) => GpuType::Vector(*s, *n),
            GpuType::InlineStruct(name) => GpuType::InlineStruct(name.clone()),
            GpuType::Ref(inner) => GpuType::Ref(Box::new((**inner).clone())),
        }
    }
}

/// A tagged union: named variants, each with positional payload types.
#[derive(Debug)]
pub struct GpuEnum {
    pub name: String,
    pub variants: Vec<(String, Vec<GpuType>)>,
}

/// A schema definition: a struct with named, ordered fields, or an enum.
#[derive(Debug)]
pub enum GpuTypeDef {
    Struct(String, Vec<(String, GpuType)>),
    Enum(GpuEnum),
}

/// An ordered collection of definitions together with the set of names
/// that appear as the first payload type of some enum variant.
#[derive(Debug)]
pub struct GpuModule {
    pub name: String,
    /// Names of items that are used as enum variants.
    pub enum_variants: Vec<String>,
    pub defs: Vec<GpuTypeDef>,
}

/// The declared name of a definition.
pub open spec fn def_name(d: GpuTypeDef) -> Seq<char> {
    match d {
        GpuTypeDef::Struct(name, _) => name@,
        GpuTypeDef::Enum(en) => en.name@,
    }
}

/// Index of the first definition called `name`, or -1 if there is none.
pub open spec fn resolve_idx(defs: Seq<GpuTypeDef>, name: Seq<char>) -> int
    decreases defs.len(),
{
    if defs.len() == 0 {
        -1
    } else if def_name(defs[0]) == name {
        0
    } else {
        let r = resolve_idx(defs.drop_first(), name);
        if r < 0 {
            -1
        } else {
            r + 1
        }
    }
}

/// Whether `name` is recorded in the module's set of enum-variant names.
pub open spec fn spec_is_enum_variant(m: GpuModule, name: Seq<char>) -> bool {
    exists|k: int| 0 <= k < m.enum_variants@.len() && m.enum_variants@[k]@ == name
}

/// Padding needed to round `off` up to a multiple of `align`;
/// this is `(-off) mod align` for a positive `align`.
pub open spec fn align_pad(off: int, align: int) -> int {
    if align <= 0 {
        0
    } else if off % align == 0 {
        0
    } else {
        align - off % align
    }
}

/// Byte size of a type. Names are resolved in `m`, and only references to
/// definitions with index below `bound` are followed (others contribute 0);
/// the bound makes the mutual recursion through the module well founded.
pub open spec fn type_size(m: GpuModule, t: GpuType, bound: int) -> int
    decreases bound, 0int, 0int,
{
    match t {
        GpuType::Scalar(s) => scalar_size(s),
        GpuType::Vector(s, n) => scalar_size(s) * n,
        GpuType::InlineStruct(name) => {
            let j = resolve_idx(m.defs@, name@);
            if 0 <= j < bound {
                def_size_at(m, j)
            } else {
                0
            }
        },
        GpuType::Ref(_) => 4,
    }
}

/// Alignment of a type, resolved like `type_size`.
pub open spec fn type_align(m: GpuModule, t: GpuType, bound: int) -> int
    decreases bound, 0int, 0int,
{
    match t {
        GpuType::Scalar(s) => scalar_size(s),
        GpuType::Vector(s, n) => scalar_size(s) * n,
        GpuType::InlineStruct(name) => {
            let j = resolve_idx(m.defs@, name@);
            if 0 <= j < bound {
                def_align_at(m, j)
            } else {
                0
            }
        },
        GpuType::Ref(_) => 4,
    }
}

/// Offset reached after laying out the first `n` fields of a struct,
/// starting from offset `base`: each field is preceded by alignment
/// padding and followed by its size.
pub open spec fn fields_size(
    m: GpuModule,
    fields: Seq<(String, GpuType)>,
    n: int,
    base: int,
    bound: int,
) -> int
    decreases bound, 0int, n,
{
    if n <= 0 {
        base
    } else {
        let prev = fields_size(m, fields, n - 1, base, bound);
        let t = fields[n - 1].1;
        prev + align_pad(prev, type_align(m, t, bound)) + type_size(m, t, bound)
    }
}

/// Maximum field alignment over the first `n` fields, floored at `base`.
pub open spec fn fields_align(
    m: GpuModule,
    fields: Seq<(String, GpuType)>,
    n: int,
    base: int,
    bound: int,
) -> int
    decreases bound, 0int, n,
{
    if n <= 0 {
        base
    } else {
        let prev = fields_align(m, fields, n - 1, base, bound);
        let a = type_align(m, fields[n - 1].1, bound);
        if a > prev {
            a
        } else {
            prev
        }
    }
}

/// Offset reached after the first `n` payload types of an enum variant.
/// The body starts at 0 when the first payload is an inline struct
/// (such a struct embeds the tag as its own first word), and at 4, after
/// the tag word, otherwise; each payload then adds its size.
pub open spec fn variant_off(m: GpuModule, tys: Seq<GpuType>, n: int, bound: int) -> int
    decreases bound, 0int, n,
{
    if n <= 0 {
        4
    } else {
        let prev = variant_off(m, tys, n - 1, bound);
        let start = if n == 1 && tys[0] is InlineStruct {
            0
        } else {
            prev
        };
        start + type_size(m, tys[n - 1], bound)
    }
}

/// Sum of the sizes of the first `n` payload types of a variant.
pub open spec fn payload_sum(m: GpuModule, tys: Seq<GpuType>, n: int, bound: int) -> int
    decreases bound, 0int, n,
{
    if n <= 0 {
        0
    } else {
        payload_sum(m, tys, n - 1, bound) + type_size(m, tys[n - 1], bound)
    }
}

/// Maximum variant body size over the first `k` variants, floored at 4.
pub open spec fn variants_max(
    m: GpuModule,
    vars: Seq<(String, Vec<GpuType>)>,
    k: int,
    bound: int,
) -> int
    decreases bound, 1int, k,
{
    if k <= 0 {
        4
    } else {
        let prev = variants_max(m, vars, k - 1, bound);
        let v = variant_off(m, vars[k - 1].1@, vars[k - 1].1@.len() as int, bound);
        if v > prev {
            v
        } else {
            prev
        }
    }
}

/// Byte size of a definition, resolving names below `bound`.
pub open spec fn def_size_d(m: GpuModule, d: GpuTypeDef, bound: int) -> int
    decreases bound, 2int, 0int,
{
    match d {
        GpuTypeDef::Struct(name, fields) => {
            let base: int = if spec_is_enum_variant(m, name@) {
                4
            } else {
                0
            };
            fields_size(m, fields@, fields@.len() as int, base, bound)
        },
        GpuTypeDef::Enum(en) => variants_max(m, en.variants@, en.variants@.len() as int, bound),
    }
}

/// Byte size of the definition at index `i` of the module.
pub open spec fn def_size_at(m: GpuModule, i: int) -> int
    decreases i, 3int, 0int,
{
    if 0 <= i < m.defs@.len() {
        def_size_d(m, m.defs@[i], i)
    } else {
        0
    }
}

/// Alignment of a struct definition, resolving names below `bound`.
/// Enum alignment is never queried and is left at 0.
pub open spec fn def_align_d(m: GpuModule, d: GpuTypeDef, bound: int) -> int
    decreases bound, 2int, 0int,
{
    match d {
        GpuTypeDef::Struct(name, fields) => {
            let base: int = if spec_is_enum_variant(m, name@) {
                4
            } else {
                1
            };
            fields_align(m, fields@, fields@.len() as int, base, bound)
        },
        GpuTypeDef::Enum(_) => 0,
    }
}

/// Alignment of the definition at index `i` of the module.
pub open spec fn def_align_at(m: GpuModule, i: int) -> int
    decreases i, 3int, 0int,
{
    if 0 <= i < m.defs@.len() {
        def_align_d(m, m.defs@[i], i)
    } else {
        0
    }
}

/// Byte size of a type with every definition of the module in scope.
pub open spec fn type_size_full(m: GpuModule, t: GpuType) -> int {
    type_size(m, t, m.defs@.len() as int)
}

/// A type is well formed below `bound`: vectors are non-empty and bounded,
/// and an inline struct name resolves to an earlier definition.
pub open spec fn type_wf(m: GpuModule, t: GpuType, bound: int) -> bool {
    match t {
        GpuType::Scalar(_) => true,
        GpuType::Vector(s, n) => 1 <= n && scalar_size(s) * n <= MAX_SIZE,
        GpuType::InlineStruct(name) => 0 <= resolve_idx(m.defs@, name@) < bound,
        GpuType::Ref(_) => true,
    }
}

/// A struct field type must additionally refer to a struct definition
/// (struct layout consults field alignment, which enums do not define) and
/// must occupy at least one byte.
pub open spec fn struct_field_wf(m: GpuModule, t: GpuType, bound: int) -> bool {
    &&& type_wf(m, t, bound)
    &&& (t is InlineStruct ==> m.defs@[resolve_idx(m.defs@, t->InlineStruct_0@)] is Struct)
    &&& type_size(m, t, bound) >= 1
}

/// Well-formedness of the definition at index `i`.
pub open spec fn def_wf_at(m: GpuModule, i: int) -> bool {
    match m.defs@[i] {
        GpuTypeDef::Struct(_, fields) => forall|k: int|
            0 <= k < fields@.len() ==> struct_field_wf(m, #[trigger] fields@[k].1, i),
        GpuTypeDef::Enum(en) => {
            &&& forall|v: int, k: int|
                0 <= v < en.variants@.len() && 0 <= k < en.variants@[v].1@.len() ==> type_wf(
                    m,
                    #[trigger] en.variants@[v].1@[k],
                    i,
                )
            &&& forall|v: int|
                0 <= v < en.variants@.len() ==> 4 + payload_sum(
                    m,
                    (#[trigger] en.variants@[v]).1@,
                    en.variants@[v].1@.len() as int,
                    i,
                ) <= MAX_SIZE
        },
    }
}

impl GpuModule {
    /// The module is well formed: definition names are distinct, every
    /// definition is well formed at its own index, and all sizes and
    /// alignments are bounded.
    ///
    /// Note the declaration-order restriction: an inline struct name must
    /// resolve to an *earlier* definition. The layout recursion descends
    /// through named references, so some well-founded order on the
    /// definitions is needed (on a cyclic module it has none and the
    /// computation diverges); this module uses declaration order as that
    /// order, which also rules out acyclic schemas that reference a later
    /// definition. Callers that accept forward references can sort their
    /// definitions topologically before building the module.
    pub open spec fn wf(self) -> bool {
        &&& forall|i: int| 0 <= i < self.defs@.len() ==> #[trigger] def_wf_at(self, i)
        &&& forall|i: int, j: int|
            0 <= i < j < self.defs@.len() ==> def_name(self.defs@[i]) != def_name(self.defs@[j])
        &&& forall|i: int|
            0 <= i < self.defs@.len() ==> 0 <= #[trigger] def_size_at(self, i) <= MAX_SIZE
        &&& forall|i: int|
            0 <= i < self.defs@.len() && self.defs@[i] is Struct ==> 1 <= #[trigger] def_align_at(
                self,
                i,
            ) <= MAX_SIZE
    }
}

/// `resolve_idx` finds the first definition with the given name, and -1
/// exactly when no definition has it.
pub proof fn lemma_resolve_idx(defs: Seq<GpuTypeDef>, name: Seq<char>)
    ensures
        resolve_idx(defs, name) == -1 ==> forall|j: int|
            0 <= j < defs.len() ==> def_name(#[trigger] defs[j]) != name,
        resolve_idx(defs, name) != -1 ==> {
            let r = resolve_idx(defs, name);
            &&& 0 <= r < defs.len()
            &&& def_name(defs[r]) == name
            &&& forall|j: int| 0 <= j < r ==> def_name(#[trigger] defs[j]) != name
        },
    decreases defs.len(),
{
    if defs.len() > 0 && def_name(defs[0]) != name {
        lemma_resolve_idx(defs.drop_first(), name);
        assert forall|j: int| 1 <= j < defs.len() implies defs.drop_first()[j - 1] == defs[j] by {}
    }
}

/// The bound only matters up to the index a name resolves to.
pub proof fn lemma_type_size_bound(m: GpuModule, t: GpuType, b1: int, b2: int)
    requires
        match t {
            GpuType::InlineStruct(name) => {
                let j = resolve_idx(m.defs@, name@);
                0 <= j < b1 && j < b2
            },
            _ => true,
        },
    ensures
        type_size(m, t, b1) == type_size(m, t, b2),
        type_align(m, t, b1) == type_align(m, t, b2),
{
}

/// The bound is irrelevant to a struct layout once every field resolves
/// below it.
pub proof fn lemma_fields_size_bound(
    m: GpuModule,
    fields: Seq<(String, GpuType)>,
    n: int,
    base: int,
    ab: int,
    b1: int,
    b2: int,
)
    requires
        forall|k: int| 0 <= k < n ==> type_wf(m, #[trigger] fields[k].1, b1) && type_wf(
            m,
            #[trigger] fields[k].1,
            b2,
        ),
    ensures
        fields_size(m, fields, n, base, b1) == fields_size(m, fields, n, base, b2),
        fields_align(m, fields, n, ab, b1) == fields_align(m, fields, n, ab, b2),
    decreases n,
{
    if n > 0 {
        lemma_fields_size_bound(m, fields, n - 1, base, ab, b1, b2);
        lemma_type_size_bound(m, fields[n - 1].1, b1, b2);
    }
}

/// The bound is irrelevant to an enum layout once every payload resolves
/// below it.
pub proof fn lemma_variant_off_bound(m: GpuModule, tys: Seq<GpuType>, n: int, b1: int, b2: int)
    requires
        forall|k: int| 0 <= k < n ==> type_wf(m, #[trigger] tys[k], b1) && type_wf(
            m,
            #[trigger] tys[k],
            b2,
        ),
    ensures
        variant_off(m, tys, n, b1) == variant_off(m, tys, n, b2),
    decreases n,
{
    if n > 0 {
        lemma_variant_off_bound(m, tys, n - 1, b1, b2);
        lemma_type_size_bound(m, tys[n - 1], b1, b2);
    }
}

/// Bound irrelevance lifted to whole definitions.
pub proof fn lemma_def_size_bound(m: GpuModule, i: int, b: int)
    requires
        m.wf(),
        0 <= i < m.defs@.len(),
        i <= b,
    ensures
        def_size_d(m, m.defs@[i], b) == def_size_at(m, i),
        def_align_d(m, m.defs@[i], b) == def_align_at(m, i),
{
    assert(def_wf_at(m, i));
    match m.defs@[i] {
        GpuTypeDef::Struct(name, fields) => {
            assert forall|k: int| 0 <= k < fields@.len() implies type_wf(
                m,
                #[trigger] fields@[k].1,
                i,
            ) && type_wf(m, fields@[k].1, b) by {
                assert(struct_field_wf(m, fields@[k].1, i));
            }
            let base: int = if spec_is_enum_variant(m, name@) {
                4
            } else {
                0
            };
            let ab: int = if spec_is_enum_variant(m, name@) {
                4
            } else {
                1
            };
            lemma_fields_size_bound(m, fields@, fields@.len() as int, base, ab, i, b);
        },
        GpuTypeDef::Enum(en) => {
            lemma_variants_max_bound(m, en.variants@, en.variants@.len() as int, i, b);
        },
    }
}

/// Bound irrelevance for the maximum over enum variants.
pub proof fn lemma_variants_max_bound(
    m: GpuModule,
    vars: Seq<(String, Vec<GpuType>)>,
    k: int,
    b1: int,
    b2: int,
)
    requires
        forall|v: int, j: int|
            0 <= v < k && 0 <= j < vars[v].1@.len() ==> type_wf(m, #[trigger] vars[v].1@[j], b1)
                && type_wf(m, #[trigger] vars[v].1@[j], b2),
    ensures
        variants_max(m, vars, k, b1) == variants_max(m, vars, k, b2),
    decreases k,
{
    if k > 0 {
        lemma_variants_max_bound(m, vars, k - 1, b1, b2);
        lemma_variant_off_bound(m, vars[k - 1].1@, vars[k - 1].1@.len() as int, b1, b2);
    }
}

/// Sizes of well-formed types are non-negative and bounded; alignments of
/// struct field types are at least 1.
pub proof fn lemma_type_size_range(m: GpuModule, t: GpuType, bound: int)
    requires
        m.wf(),
        type_wf(m, t, bound),
        bound <= m.defs@.len(),
    ensures
        0 <= type_size(m, t, bound) <= MAX_SIZE,
        t is Scalar || t is Vector || t is Ref ==> 1 <= type_align(m, t, bound),
        type_align(m, t, bound) <= MAX_SIZE,
{
    match t {
        GpuType::Scalar(_) => {},
        GpuType::Vector(s, n) => {
            assert(scalar_size(s) * n >= 1) by (nonlinear_arith)
                requires scalar_size(s) >= 1 && n >= 1;
        },
        GpuType::InlineStruct(name) => {
            let j = resolve_idx(m.defs@, name@);
            assert(0 <= def_size_at(m, j) <= MAX_SIZE);
            if m.defs@[j] is Struct {
                assert(1 <= def_align_at(m, j) <= MAX_SIZE);
            } else {
                assert(def_align_at(m, j) == 0);
            }
        },
        GpuType::Ref(_) => {},
    }
}

/// Struct layout offsets grow with the field count and never drop below
/// the starting offset.
pub proof fn lemma_fields_size_mono(
    m: GpuModule,
    fields: Seq<(String, GpuType)>,
    n1: int,
    n2: int,
    base: int,
    bound: int,
)
    requires
        m.wf(),
        bound <= m.defs@.len(),
        0 <= base,
        0 <= n1 <= n2,
        forall|k: int| 0 <= k < n2 ==> type_wf(m, #[trigger] fields[k].1, bound),
    ensures
        base <= fields_size(m, fields, n1, base, bound) <= fields_size(m, fields, n2, base, bound),
    decreases n2,
{
    if n2 > 0 {
        if n1 == n2 {
            lemma_fields_size_mono(m, fields, n1 - 1, n2 - 1, base, bound);
        } else {
            lemma_fields_size_mono(m, fields, n1, n2 - 1, base, bound);
        }
        lemma_type_size_range(m, fields[n2 - 1].1, bound);
    }
}

/// Payload sums grow with the number of payload types taken.
pub proof fn lemma_payload_sum_mono(m: GpuModule, tys: Seq<GpuType>, n1: int, n2: int, bound: int)
    requires
        m.wf(),
        bound <= m.defs@.len(),
        0 <= n1 <= n2,
        forall|k: int| 0 <= k < n2 ==> type_wf(m, #[trigger] tys[k], bound),
    ensures
        0 <= payload_sum(m, tys, n1, bound) <= payload_sum(m, tys, n2, bound),
    decreases n2,
{
    if n2 > 0 {
        if n1 == n2 {
            lemma_payload_sum_mono(m, tys, n1 - 1, n2 - 1, bound);
        } else {
            lemma_payload_sum_mono(m, tys, n1, n2 - 1, bound);
        }
        lemma_type_size_range(m, tys[n2 - 1], bound);
    }
}

/// A variant body offset stays between 0 and 4 plus the payload sum.
pub proof fn lemma_variant_off_range(m: GpuModule, tys: Seq<GpuType>, n: int, bound: int)
    requires
        m.wf(),
        bound <= m.defs@.len(),
        forall|k: int| 0 <= k < n ==> type_wf(m, #[trigger] tys[k], bound),
    ensures
        0 <= variant_off(m, tys, n, bound) <= 4 + payload_sum(m, tys, n, bound),
    decreases n,
{
    if n > 0 {
        lemma_variant_off_range(m, tys, n - 1, bound);
        lemma_type_size_range(m, tys[n - 1], bound);
    } else {
        lemma_payload_sum_mono(m, tys, 0, if n > 0 {
            n
        } else {
            0
        }, bound);
    }
}

/// The running maximum over variants grows with the variant count and
/// never drops below 4.
pub proof fn lemma_variants_max_mono(
    m: GpuModule,
    vars: Seq<(String, Vec<GpuType>)>,
    k1: int,
    k2: int,
    bound: int,
)
    requires
        0 <= k1 <= k2,
    ensures
        4 <= variants_max(m, vars, k1, bound) <= variants_max(m, vars, k2, bound),
    decreases k2,
{
    if k2 > 0 {
        if k1 == k2 {
            lemma_variants_max_mono(m, vars, k1 - 1, k2 - 1, bound);
        } else {
            lemma_variants_max_mono(m, vars, k1, k2 - 1, bound);
        }
    }
}

/// True for scalars, vectors and references; false for inline structs.
pub open spec fn is_small_type(t: GpuType) -> bool {
    !(t is InlineStruct)
}

/// Termination measure for the size and alignment recursion: an inline
/// struct descends to the definition its name resolves to.
pub open spec fn type_measure(m: GpuModule, t: GpuType) -> int {
    match t {
        GpuType::InlineStruct(name) => resolve_idx(m.defs@, name@) + 1,
        _ => 0,
    }
}

/// Padding needed to round `offset` up to a multiple of `alignment`;
/// equal to `(-offset) mod alignment`.
pub fn align_padding(offset: usize, alignment: usize) -> (r: usize)
    requires
        1 <= alignment,
    ensures
        r as int == align_pad(offset as int, alignment as int),
{
    let rem = offset % alignment;
    if rem == 0 {
        0
    } else {
        alignment - rem
    }
}

impl GpuModule {
    /// Whether `name` is recorded as an enum-variant name.
    #[verifier::loop_isolation(false)]
    pub fn is_enum_variant(&self, name: &str) -> (r: bool)
        ensures
            r == spec_is_enum_variant(*self, name@),
    {
        let mut k: usize = 0;
        while k < self.enum_variants.len()
            invariant
                k <= self.enum_variants@.len(),
                forall|j: int| 0 <= j < k ==> (#[trigger] self.enum_variants@[j])@ != name@,
            decreases self.enum_variants@.len() - k,
        {
            if crate::text::str_eq(self.enum_variants[k].as_str(), name) {
                return true;
            }
            k += 1;
        }
        false
    }

    /// Finds the first definition with the given name; reports an error
    /// naming the missing definition otherwise.
    #[verifier::loop_isolation(false)]
    pub fn resolve_by_name(&self, name: &str) -> (r: Result<&GpuTypeDef, String>)
        ensures
            match r {
                Ok(d) => {
                    let j = resolve_idx(self.defs@, name@);
                    &&& 0 <= j < self.defs@.len()
                    &&& *d == self.defs@[j]
                },
                Err(e) => {
                    &&& resolve_idx(self.defs@, name@) == -1
                    &&& e@ == "could not find "@ + name@ + " in module"@
                },
            },
    {
        proof {
            lemma_resolve_idx(self.defs@, name@);
        }
        let mut k: usize = 0;
        while k < self.defs.len()
            invariant
                k <= self.defs@.len(),
                forall|j: int| 0 <= j < k ==> def_name(#[trigger] self.defs@[j]) != name@,
            decreases self.defs@.len() - k,
        {
            if crate::text::str_eq(self.defs[k].name(), name) {
                return Ok(&self.defs[k]);
            }
            k += 1;
        }
        let mut msg = String::new();
        msg.append("could not find ");
        msg.append(name);
        msg.append(" in module");
        Err(msg)
    }
}

impl GpuType {
    /// Report whether the type is a scalar, vector or reference.
    pub fn is_small(&self) -> (r: bool)
        ensures
            r == is_small_type(*self),
    {
        match self {
            GpuType::Scalar(_) => true,
            GpuType::Vector(_, _) => true,
            GpuType::InlineStruct(_) => false,
            GpuType::Ref(_) => true,
        }
    }

    /// Byte size of the type, resolving inline struct names in `module`.
    pub fn size(&self, module: &GpuModule) -> (r: usize)
        requires
            module.wf(),
            type_wf(*module, *self, module.defs@.len() as int),
        ensures
            r as int == type_size(*module, *self, module.defs@.len() as int),
        decreases type_measure(*module, *self), 1int,
    {
        proof {
            lemma_type_size_range(*module, *self, module.defs@.len() as int);
        }
        match self {
            GpuType::Scalar(s) => s.size(),
            GpuType::Vector(s, n) => s.size() * *n,
            GpuType::InlineStruct(name) => {
                proof {
                    lemma_resolve_idx(module.defs@, name@);
                }
                match module.resolve_by_name(name.as_str()) {
                    Ok(d) => {
                        let ghost j = resolve_idx(module.defs@, name@);
                        proof {
                            lemma_def_size_bound(*module, j, module.defs@.len() as int);
                        }
                        d.size(module)
                    },
                    Err(_) => {
                        proof {
                            assert(false);
                        }
                        0
                    },
                }
            },
            GpuType::Ref(_) => 4,
        }
    }

    /// Alignment of the type, resolving inline struct names in `module`.
    pub fn alignment(&self, module: &GpuModule) -> (r: usize)
        requires
            module.wf(),
            type_wf(*module, *self, module.defs@.len() as int),
            self is InlineStruct ==> m_resolves_to_struct(*module, *self),
        ensures
            r as int == type_align(*module, *self, module.defs@.len() as int),
        decreases type_measure(*module, *self), 1int,
    {
        proof {
            lemma_type_size_range(*module, *self, module.defs@.len() as int);
        }
        match self {
            GpuType::Scalar(s) => s.size(),
            GpuType::Vector(s, n) => s.size() * *n,
            GpuType::InlineStruct(name) => {
                proof {
                    lemma_resolve_idx(module.defs@, name@);
                }
                match module.resolve_by_name(name.as_str()) {
                    Ok(d) => {
                        let ghost j = resolve_idx(module.defs@, name@);
                        proof {
                            lemma_def_size_bound(*module, j, module.defs@.len() as int);
                        }
                        d.alignment(module)
                    },
                    Err(_) => {
                        proof {
                            assert(false);
                        }
                        0
                    },
                }
            },
            GpuType::Ref(_) => 4,
        }
    }
}

/// An inline-struct type whose name resolves to a struct definition.
pub open spec fn m_resolves_to_struct(m: GpuModule, t: GpuType) -> bool {
    match t {
        GpuType::InlineStruct(name) => m.defs@[resolve_idx(m.defs@, name@)] is Struct,
        _ => false,
    }
}

/// The names collected from the first `n` variants whose first payload
/// type is an inline struct.
pub open spec fn variant_tag_names(vars: Seq<(String, Vec<GpuType>)>, n: int) -> Seq<Seq<char>>
    decreases n,
{
    if n <= 0 {
        Seq::empty()
    } else {
        let prev = variant_tag_names(vars, n - 1);
        let tys = vars[n - 1].1;
        if tys@.len() > 0 && tys@[0] is InlineStruct {
            prev.push(tys@[0]->InlineStruct_0@)
        } else {
            prev
        }
    }
}

impl GpuTypeDef {
    /// The declared name of the definition.
    pub fn name(&self) -> (r: &str)
        ensures
            r@ == def_name(*self),
    {
        match self {
            GpuTypeDef::Struct(name, _) => name.as_str(),
            GpuTypeDef::Enum(en) => en.name.as_str(),
        }
    }

    /// Appends to `enum_variants` the name of each variant whose first
    /// payload type is an inline struct; structs contribute nothing.
    #[verifier::loop_isolation(false)]
    pub fn collect_refs(&self, enum_variants: &mut Vec<String>)
        ensures
            names_view(final(enum_variants)@) == names_view(old(enum_variants)@) + match *self {
                GpuTypeDef::Struct(_, _) => Seq::<Seq<char>>::empty(),
                GpuTypeDef::Enum(en) => variant_tag_names(
                    en.variants@,
                    en.variants@.len() as int,
                ),
            },
    {
        if let GpuTypeDef::Enum(en) = self {
            let mut v: usize = 0;
            while v < en.variants.len()
                invariant
                    v <= en.variants@.len(),
                    names_view(enum_variants@) == names_view(old(enum_variants)@)
                        + variant_tag_names(en.variants@, v as int),
                decreases en.variants@.len() - v,
            {
                let tys = &en.variants[v].1;
                let ghost prev = enum_variants@;
                if tys.len() > 0 {
                    if let GpuType::InlineStruct(name) = &tys[0] {
                        enum_variants.push(name.clone());
                        proof {
                            assert(names_view(enum_variants@) =~= names_view(prev).push(name@));
                        }
                    }
                }
                v += 1;
            }
        }
    }

    /// Byte size of the definition: field offsets with alignment padding
    /// for a struct (plus a tag word for an enum-variant struct), and the
    /// maximum variant body size, floored at 4, for an enum.
    #[verifier::loop_isolation(false)]
    pub fn size(&self, module: &GpuModule) -> (r: usize)
        requires
            module.wf(),
            exists|i: int| 0 <= i < module.defs@.len() && module.defs@[i] == *self,
        ensures
            r as int == def_size_d(*module, *self, module.defs@.len() as int),
            forall|i: int|
                0 <= i < module.defs@.len() && module.defs@[i] == *self ==> r as int
                    == #[trigger] def_size_at(*module, i),
        decreases resolve_idx(module.defs@, def_name(*self)), 2int,
    {
        let ghost m = *module;
        let ghost len = module.defs@.len() as int;
        let ghost i0 = choose|i: int| 0 <= i < m.defs@.len() && m.defs@[i] == *self;
        proof {
            lemma_resolve_idx(m.defs@, def_name(*self));
            assert(def_wf_at(m, i0));
            assert(resolve_idx(m.defs@, def_name(*self)) == i0);
        }
        let r: usize = match self {
            GpuTypeDef::Struct(name, fields) => {
                let ghost base: int = if spec_is_enum_variant(m, name@) {
                    4int
                } else {
                    0int
                };
                proof {
                    assert forall|k: int| 0 <= k < fields@.len() implies type_wf(
                        m,
                        (#[trigger] fields@[k]).1,
                        len,
                    ) && struct_field_wf(m, fields@[k].1, i0) by {}
                }
                let mut offset: usize = 0;
                if module.is_enum_variant(name.as_str()) {
                    offset = 4;
                }
                let mut k: usize = 0;
                while k < fields.len()
                    invariant
                        k <= fields@.len(),
                        offset as int == fields_size(m, fields@, k as int, base, len),
                        offset <= MAX_SIZE,
                    decreases fields@.len() - k,
                {
                    proof {
                        lemma_fields_size_mono(m, fields@, k as int, fields@.len() as int, base, len);
                        lemma_fields_size_mono(
                            m,
                            fields@,
                            k as int + 1,
                            fields@.len() as int,
                            base,
                            len,
                        );
                        lemma_fields_size_bound(m, fields@, fields@.len() as int, base, 1, i0, len);
                        lemma_type_size_range(m, fields@[k as int].1, len);
                        assert(fields_size(m, fields@, fields@.len() as int, base, len)
                            == def_size_at(m, i0));
                        assert(def_size_at(m, i0) <= MAX_SIZE);
                    }
                    proof {
                        let ft = fields@[k as int].1;
                        if ft is InlineStruct {
                            let j = resolve_idx(m.defs@, ft->InlineStruct_0@);
                            assert(m.defs@[j] is Struct);
                            assert(1 <= def_align_at(m, j));
                        }
                        assert(1 <= type_align(m, ft, len));
                    }
                    let field = &fields[k].1;
                    let a = field.alignment(module);
                    let pad = align_padding(offset, a);
                    offset += pad;
                    offset += field.size(module);
                    k += 1;
                }
                offset
            },
            GpuTypeDef::Enum(en) => {
                let ghost vars = en.variants@;
                let mut max_offset: usize = 4;
                let mut v: usize = 0;
                proof {
                    assert forall|w: int, j: int|
                        0 <= w < vars.len() && 0 <= j < vars[w].1@.len() implies type_wf(
                        m,
                        #[trigger] vars[w].1@[j],
                        i0,
                    ) && type_wf(m, vars[w].1@[j], len) by {
                        assert(def_wf_at(m, i0));
                    }
                    lemma_variants_max_bound(m, vars, vars.len() as int, i0, len);
                    assert(variants_max(m, vars, vars.len() as int, len) == def_size_at(m, i0));
                }
                while v < en.variants.len()
                    invariant
                        v <= vars.len(),
                        max_offset as int == variants_max(m, vars, v as int, len),
                        max_offset <= MAX_SIZE,
                    decreases vars.len() - v,
                {
                    proof {
                        lemma_variants_max_mono(m, vars, v as int + 1, vars.len() as int, len);
                    }
                    let tys = &en.variants[v].1;
                    let ghost tseq = tys@;
                    let mut offset: usize = 4;
                    let mut k: usize = 0;
                    proof {
                        lemma_payload_sum_bound(m, tseq, tseq.len() as int, i0, len);
                        assert(4 + payload_sum(m, tseq, tseq.len() as int, len) <= MAX_SIZE);
                    }
                    while k < tys.len()
                        invariant
                            k <= tseq.len(),
                            offset as int == variant_off(m, tseq, k as int, len),
                            offset <= MAX_SIZE,
                        decreases tseq.len() - k,
                    {
                        proof {
                            lemma_variant_off_range(m, tseq, k as int + 1, len);
                            lemma_payload_sum_mono(m, tseq, k as int + 1, tseq.len() as int, len);
                            lemma_type_size_range(m, tseq[k as int], len);
                        }
                        let field = &tys[k];
                        if k == 0 {
                            if let GpuType::InlineStruct(_) = field {
                                offset = 0;
                            }
                        }
                        offset += field.size(module);
                        k += 1;
                    }
                    if offset > max_offset {
                        max_offset = offset;
                    }
                    v += 1;
                }
                max_offset
            },
        };
        proof {
            assert forall|i: int|
                0 <= i < m.defs@.len() && m.defs@[i] == *self implies r as int
                == #[trigger] def_size_at(m, i) by {
                assert(resolve_idx(m.defs@, def_name(*self)) == i);
                lemma_def_size_bound(m, i, len);
            }
        }
        r
    }

    /// Alignment of a struct definition: the largest field alignment,
    /// floored at 4 for an enum-variant struct and 1 otherwise.
    #[verifier::loop_isolation(false)]
    pub fn alignment(&self, module: &GpuModule) -> (r: usize)
        requires
            module.wf(),
            exists|i: int| 0 <= i < module.defs@.len() && module.defs@[i] == *self,
            self is Struct,
        ensures
            r as int == def_align_d(*module, *self, module.defs@.len() as int),
        decreases resolve_idx(module.defs@, def_name(*self)), 2int,
    {
        let ghost m = *module;
        let ghost len = module.defs@.len() as int;
        let ghost i0 = choose|i: int| 0 <= i < m.defs@.len() && m.defs@[i] == *self;
        proof {
            lemma_resolve_idx(m.defs@, def_name(*self));
            assert(def_wf_at(m, i0));
            assert(resolve_idx(m.defs@, def_name(*self)) == i0);
        }
        match self {
            GpuTypeDef::Struct(name, fields) => {
                let ghost base: int = if spec_is_enum_variant(m, name@) {
                    4int
                } else {
                    1int
                };
                proof {
                    assert forall|k: int| 0 <= k < fields@.len() implies type_wf(
                        m,
                        (#[trigger] fields@[k]).1,
                        len,
                    ) && struct_field_wf(m, fields@[k].1, i0) by {}
                }
                let mut alignment: usize = 1;
                if module.is_enum_variant(name.as_str()) {
                    alignment = 4;
                }
                let mut k: usize = 0;
                while k < fields.len()
                    invariant
                        k <= fields@.len(),
                        alignment as int == fields_align(m, fields@, k as int, base, len),
                        alignment <= MAX_SIZE,
                    decreases fields@.len() - k,
                {
                    proof {
                        lemma_type_size_range(m, fields@[k as int].1, len);
                    }
                    let field = &fields[k].1;
                    let a = field.alignment(module);
                    if a > alignment {
                        alignment = a;
                    }
                    k += 1;
                }
                alignment
            },
            GpuTypeDef::Enum(_) => {
                proof {
                    assert(false);
                }
                0
            },
        }
    }
}

/// Bound irrelevance for payload sums.
pub proof fn lemma_payload_sum_bound(m: GpuModule, tys: Seq<GpuType>, n: int, b1: int, b2: int)
    requires
        forall|k: int| 0 <= k < n ==> type_wf(m, #[trigger] tys[k], b1) && type_wf(
            m,
            #[trigger] tys[k],
            b2,
        ),
    ensures
        payload_sum(m, tys, n, b1) == payload_sum(m, tys, n, b2),
    decreases n,
{
    if n > 0 {
        lemma_payload_sum_bound(m, tys, n - 1, b1, b2);
        lemma_type_size_bound(m, tys[n - 1], b1, b2);
    }
}

} // verus!
