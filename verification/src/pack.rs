//! The packing engine: fits a struct's small fields into 32-bit slots.

use vstd::prelude::*;
use vstd::string::StringExecFns;

use crate::model::{
    spec_is_enum_variant, type_size_full, type_wf, GpuModule, GpuType,
};
use crate::scalar::{is_word_scalar, scalar_size, GpuScalar};
use crate::text::{push_char, uints_of};

verus! {

/// An original schema field stored inside a packed slot, with its bit
/// offset from the most significant bit of the slot's first word.
#[derive(Clone, Debug)]
pub struct StoredField {
    pub name: String,
    pub ty: GpuType,
    pub offset: usize,
}

/// The mathematical shape of a stored field.
#[verifier::ext_equal]
pub struct StoredV {
    pub name: Seq<char>,
    pub ty: GpuType,
    pub offset: int,
}

impl View for StoredField {
    type V = StoredV;

    open spec fn view(&self) -> StoredV {
        StoredV { name: self.name@, ty: self.ty, offset: self.offset as int }
    }
}

/// A 32-bit (or wider) slot of the packed struct. While open (`ty` is
/// `None`) it accumulates stored fields; closing it assigns the type the
/// slot is materialised as.
#[derive(Clone, Debug)]
pub struct PackedField {
    pub name: String,
    pub ty: Option<GpuType>,
    pub stored_fields: Vec<StoredField>,
    pub size: usize,
}

/// The mathematical shape of a packed slot.
#[verifier::ext_equal]
pub struct SlotV {
    pub name: Seq<char>,
    pub ty: Option<GpuType>,
    pub stored: Seq<StoredV>,
    pub size: int,
}

impl View for PackedField {
    type V = SlotV;

    open spec fn view(&self) -> SlotV {
        SlotV {
            name: self.name@,
            ty: self.ty,
            stored: self.stored_fields@.map_values(|s: StoredField| s@),
            size: self.size as int,
        }
    }
}

/// Possible results of the `pack` method on a `PackedField`.
#[derive(PartialEq, Eq, Structural, Debug)]
pub enum PackResult {
    SuccessAndOpen,
    SuccessAndClosed,
    FailAndClosed,
}

/// Sum of the byte sizes of the first `n` stored fields.
pub open spec fn stored_sum(m: GpuModule, stored: Seq<StoredV>, n: int) -> int
    decreases n,
{
    if n <= 0 {
        0
    } else {
        stored_sum(m, stored, n - 1) + type_size_full(m, stored[n - 1].ty)
    }
}

/// Each stored field sits at bit offset `32 - 8 * (bytes up to and
/// including it)`, measured from the most significant bit.
pub open spec fn offsets_ok(m: GpuModule, stored: Seq<StoredV>, n: int) -> bool {
    forall|i: int|
        0 <= i < n ==> (#[trigger] stored[i]).offset == 32 - 8 * stored_sum(m, stored, i + 1)
}

/// All stored field types are well formed in the module.
pub open spec fn stored_wf(m: GpuModule, stored: Seq<StoredV>) -> bool {
    forall|i: int|
        0 <= i < stored.len() ==> type_wf(m, (#[trigger] stored[i]).ty, m.defs@.len() as int)
}

/// All stored field types occupy at least one byte.
pub open spec fn stored_min(m: GpuModule, stored: Seq<StoredV>) -> bool {
    forall|i: int|
        0 <= i < stored.len() ==> type_size_full(m, (#[trigger] stored[i]).ty) >= 1
}

/// Underscore-join of the first `n` stored field names.
pub open spec fn join_names(stored: Seq<StoredV>, n: int) -> Seq<char>
    decreases n,
{
    if n <= 0 {
        Seq::empty()
    } else if n == 1 {
        stored[0].name
    } else {
        join_names(stored, n - 1) + seq!['_'] + stored[n - 1].name
    }
}

/// The type a slot is materialised as when it is closed: native 32-bit
/// types and inline structs and typed references stay themselves; a lone
/// sub-word scalar becomes `U32` and a lone sub-word vector a `U32`
/// vector of the words it needs; several packed fields share one `U32`
/// word (or a `U32` vector when their sizes sum past a word).
pub open spec fn close_ty(m: GpuModule, stored: Seq<StoredV>) -> GpuType {
    if stored.len() == 1 {
        let t = stored[0].ty;
        match t {
            GpuType::Scalar(s) => if is_word_scalar(s) {
                t
            } else {
                GpuType::Scalar(GpuScalar::U32)
            },
            GpuType::Vector(s, n) => if is_word_scalar(s) {
                t
            } else {
                GpuType::Vector(GpuScalar::U32, uints_of(scalar_size(s) * n) as usize)
            },
            GpuType::InlineStruct(_) => t,
            GpuType::Ref(inner) => match *inner {
                GpuType::InlineStruct(_) => t,
                _ => GpuType::Scalar(GpuScalar::U32),
            },
        }
    } else {
        let w = uints_of(stored_sum(m, stored, stored.len() as int));
        if w == 1 {
            GpuType::Scalar(GpuScalar::U32)
        } else {
            GpuType::Vector(GpuScalar::U32, w as usize)
        }
    }
}

/// The error closing a slot reports, if any: several stored fields cannot
/// share a slot with a word-sized member, sum to nothing, or need more
/// than four words.
pub open spec fn close_err(m: GpuModule, stored: Seq<StoredV>) -> Option<Seq<char>> {
    if stored.len() >= 2 {
        if exists|i: int|
            0 <= i < stored.len() && type_size_full(m, (#[trigger] stored[i]).ty) == 32 {
            Some("cannot pack multiple types along with at least one 32 bit sized type"@)
        } else {
            let w = uints_of(stored_sum(m, stored, stored.len() as int));
            if w == 0 {
                Some("encountered struct of size 0"@)
            } else if w > 4 {
                Some("packed fields require more than 8 bytes to store"@)
            } else {
                None
            }
        }
    } else {
        None
    }
}

/// A freshly allocated, open, empty slot.
pub open spec fn empty_slot() -> SlotV {
    SlotV { name: Seq::empty(), ty: None, stored: Seq::empty(), size: 0 }
}

/// An open slot holding one field that exceeds a word on its own, placed
/// at bit offset 0; its accumulated size stays 0 because the slot is
/// closed immediately.
pub open spec fn big_single(fname: Seq<char>, fty: GpuType) -> SlotV {
    SlotV {
        name: Seq::empty(),
        ty: None,
        stored: seq![StoredV { name: fname, ty: fty, offset: 0 }],
        size: 0,
    }
}

/// `s` with one more small field appended at the next bit offset.
pub open spec fn slot_extend(m: GpuModule, s: SlotV, fname: Seq<char>, fty: GpuType) -> SlotV {
    let fs = type_size_full(m, fty);
    SlotV {
        name: s.name,
        ty: None,
        stored: s.stored.push(
            StoredV { name: fname, ty: fty, offset: 32 - 8 * (s.size + fs) },
        ),
        size: s.size + fs,
    }
}

/// `s` closed: its name becomes the underscore-join of its stored field
/// names and its type the materialised type.
pub open spec fn close_slot(m: GpuModule, s: SlotV) -> SlotV {
    SlotV {
        name: join_names(s.stored, s.stored.len() as int),
        ty: Some(close_ty(m, s.stored)),
        stored: s.stored,
        size: s.size,
    }
}

/// A well-formed open slot: no type yet, no name yet, the accumulated
/// size is the sum of the stored sizes and fits a word, and the bit
/// offsets follow the packing rule.
pub open spec fn slot_open_wf(m: GpuModule, s: SlotV) -> bool {
    &&& s.ty is None
    &&& s.name == Seq::<char>::empty()
    &&& s.size == stored_sum(m, s.stored, s.stored.len() as int)
    &&& 0 <= s.size <= 4
    &&& offsets_ok(m, s.stored, s.stored.len() as int)
    &&& stored_wf(m, s.stored)
}

/// A well-formed closed slot: named and typed by the closing rules, and,
/// when several fields share it, their sizes sum to at most a word and
/// their offsets follow the packing rule.
pub open spec fn slot_closed_wf(m: GpuModule, s: SlotV) -> bool {
    &&& s.ty == Some(close_ty(m, s.stored))
    &&& s.name == join_names(s.stored, s.stored.len() as int)
    &&& s.stored.len() >= 1
    &&& stored_wf(m, s.stored)
    &&& stored_min(m, s.stored)
    &&& s.stored.len() >= 2 ==> {
        &&& s.size == stored_sum(m, s.stored, s.stored.len() as int)
        &&& 1 <= s.size <= 4
        &&& offsets_ok(m, s.stored, s.stored.len() as int)
    }
    &&& s.stored.len() == 1 ==> {
        ||| (s.stored[0].offset == 0 && s.size == 0)
        ||| (s.size == stored_sum(m, s.stored, 1) && s.size <= 4 && offsets_ok(m, s.stored, 1))
    }
}

/// The slots produced by packing `fields` after the open slot `cur`:
/// a field that still fits extends the slot; a field that does not
/// closes it (alone at offset 0 if the slot was empty, otherwise the
/// field is retried on a fresh slot); a trailing non-empty slot is
/// closed last.
pub open spec fn pack_model(
    m: GpuModule,
    fields: Seq<(Seq<char>, GpuType)>,
    cur: SlotV,
) -> Seq<SlotV>
    decreases fields.len(), cur.stored.len(),
{
    if fields.len() == 0 {
        if cur.stored.len() > 0 {
            seq![close_slot(m, cur)]
        } else {
            Seq::empty()
        }
    } else {
        let fname = fields[0].0;
        let fty = fields[0].1;
        let fs = type_size_full(m, fty);
        if fs + cur.size > 4 {
            if cur.stored.len() == 0 {
                seq![close_slot(m, big_single(fname, fty))] + pack_model(
                    m,
                    fields.drop_first(),
                    empty_slot(),
                )
            } else {
                seq![close_slot(m, cur)] + pack_model(m, fields, empty_slot())
            }
        } else {
            pack_model(m, fields.drop_first(), slot_extend(m, cur, fname, fty))
        }
    }
}

/// The name-and-type pairs of a field list, at the view level.
pub open spec fn fields_v(fields: Seq<(String, GpuType)>) -> Seq<(Seq<char>, GpuType)> {
    fields.map_values(|p: (String, GpuType)| (p.0@, p.1))
}

impl PackedField {
    /// A fresh open slot with nothing stored.
    pub fn new() -> (r: PackedField)
        ensures
            r@ == empty_slot(),
    {
        let r = PackedField { name: String::new(), ty: None, size: 0, stored_fields: Vec::new() };
        proof {
            assert(r@ =~= empty_slot());
        }
        r
    }

    /// Whether nothing has been stored yet.
    pub fn is_empty(&self) -> (r: bool)
        ensures
            r == (self@.stored.len() == 0),
    {
        self.stored_fields.len() == 0
    }

    /// Whether the slot has been closed (its type assigned).
    pub fn is_closed(&self) -> (r: bool)
        ensures
            r == (self@.ty is Some),
    {
        self.ty.is_some()
    }

    /// Tries to add a field to the slot. A field that still fits is
    /// appended and the slot stays open; a field that does not fit closes
    /// the slot — alone at offset 0 when the slot was empty, otherwise
    /// unchanged so the caller can retry the field on a fresh slot.
    /// A closed slot cannot take any field.
    pub fn pack(&mut self, module: &GpuModule, field_type: &GpuType, field_name: &str) -> (r:
        Result<PackResult, String>)
        requires
            module.wf(),
            type_wf(*module, *field_type, module.defs@.len() as int),
            old(self)@.ty is None ==> slot_open_wf(*module, old(self)@),
            old(self)@.ty is None ==> stored_min(*module, old(self)@.stored),
        ensures
            match r {
                Ok(PackResult::SuccessAndOpen) => {
                    &&& old(self)@.ty is None
                    &&& type_size_full(*module, *field_type) + old(self)@.size <= 4
                    &&& (*final(self))@ == slot_extend(*module, old(self)@, field_name@, *field_type)
                },
                Ok(PackResult::SuccessAndClosed) => {
                    &&& old(self)@.ty is None
                    &&& old(self)@.stored.len() == 0
                    &&& type_size_full(*module, *field_type) + old(self)@.size > 4
                    &&& (*final(self))@ == close_slot(*module, big_single(field_name@, *field_type))
                },
                Ok(PackResult::FailAndClosed) => {
                    &&& old(self)@.ty is None
                    &&& old(self)@.stored.len() > 0
                    &&& type_size_full(*module, *field_type) + old(self)@.size > 4
                    &&& (*final(self))@ == close_slot(*module, old(self)@)
                },
                Err(e) => {
                    &&& old(self)@.ty is Some
                    &&& *final(self) == *old(self)
                    &&& e@ == "cannot extend closed package"@
                },
            },
    {
        if !self.is_closed() {
            let field_size = field_type.size(module);
            proof {
                crate::model::lemma_type_size_range(
                    *module,
                    *field_type,
                    module.defs@.len() as int,
                );
            }
            if field_size + self.size > 4 {
                if self.is_empty() {
                    let ghost pre = self@;
                    self.stored_fields.push(
                        StoredField {
                            name: String::from_str(field_name),
                            ty: field_type.clone(),
                            offset: 0,
                        },
                    );
                    proof {
                        assert(self@.stored =~~= big_single(field_name@, *field_type).stored);
                        assert(self@ =~~= big_single(field_name@, *field_type));
                        assert forall|i: int| 0 <= i < self@.stored.len() implies type_wf(
                            *module,
                            (#[trigger] self@.stored[i]).ty,
                            module.defs@.len() as int,
                        ) by {
                            assert(self@.stored[i].ty == *field_type);
                        }
                        assert(stored_wf(*module, self@.stored));
                        assert(stored_sum(*module, self@.stored, 0) == 0);
                        assert(stored_sum(*module, self@.stored, 1) == type_size_full(
                            *module,
                            *field_type,
                        ));
                    }
                    let c = self.close(module);
                    proof {
                        assert(c is Ok);
                    }
                    Ok(PackResult::SuccessAndClosed)
                } else {
                    let ghost pre = self@;
                    let c = self.close(module);
                    proof {
                        if pre.stored.len() >= 2 {
                            assert(stored_sum(*module, pre.stored, 0) == 0);
                            assert(stored_sum(*module, pre.stored, 1) == type_size_full(
                                *module,
                                pre.stored[0].ty,
                            ));
                            lemma_stored_sum_mono(*module, pre.stored, 1, pre.stored.len() as int);
                            assert(1 <= stored_sum(*module, pre.stored, pre.stored.len() as int)
                                <= 4);
                            assert(uints_of(
                                stored_sum(*module, pre.stored, pre.stored.len() as int),
                            ) == 1);
                            lemma_stored_sum_parts(*module, pre.stored, pre.stored.len() as int);
                        }
                        assert(c is Ok);
                    }
                    Ok(PackResult::FailAndClosed)
                }
            } else {
                self.size += field_size;
                self.stored_fields.push(
                    StoredField {
                        name: String::from_str(field_name),
                        ty: field_type.clone(),
                        offset: 32 - self.size * 8,
                    },
                );
                proof {
                    assert(self@ =~= slot_extend(*module, old(self)@, field_name@, *field_type));
                }
                Ok(PackResult::SuccessAndOpen)
            }
        } else {
            Err(String::from_str("cannot extend closed package"))
        }
    }

    /// Closes the slot: joins the stored names into the slot name and
    /// assigns the materialised type. An open, non-empty slot whose
    /// contents obey the packing rules closes successfully; an already
    /// closed or still empty slot, and contents the rules reject, report
    /// an error.
    #[verifier::loop_isolation(false)]
    pub fn close(&mut self, module: &GpuModule) -> (r: Result<(), String>)
        requires
            module.wf(),
            old(self)@.ty is None ==> stored_wf(*module, old(self)@.stored),
            old(self)@.ty is None ==> stored_sum(
                *module,
                old(self)@.stored,
                old(self)@.stored.len() as int,
            ) <= crate::model::MAX_SIZE,
        ensures
            match r {
                Ok(()) => {
                    &&& old(self)@.ty is None
                    &&& old(self)@.stored.len() >= 1
                    &&& close_err(*module, old(self)@.stored) is None
                    &&& (*final(self))@ == close_slot(*module, old(self)@)
                },
                Err(e) => {
                    if old(self)@.ty is Some {
                        &&& *final(self) == *old(self)
                        &&& e@ == "cannot close closed package"@
                    } else if old(self)@.stored.len() == 0 {
                        &&& *final(self) == *old(self)
                        &&& e@ == "cannot close empty package"@
                    } else {
                        &&& close_err(*module, old(self)@.stored) == Some(e@)
                        &&& (*final(self))@ == SlotV {
                            name: join_names(
                                old(self)@.stored,
                                old(self)@.stored.len() as int,
                            ),
                            ..old(self)@
                        }
                    }
                },
            },
    {
        if self.is_closed() {
            return Err(String::from_str("cannot close closed package"));
        }
        if self.is_empty() {
            return Err(String::from_str("cannot close empty package"));
        }
        let ghost m = *module;
        let ghost stored = self@.stored;
        let ghost n = stored.len() as int;

        // The underscore-join of the stored field names.
        let mut joined = String::new();
        let mut i: usize = 0;
        while i < self.stored_fields.len()
            invariant
                i <= self.stored_fields@.len(),
                self == old(self),
                stored == self@.stored,
                joined@ == join_names(stored, i as int),
            decreases self.stored_fields@.len() - i,
        {
            if i > 0 {
                push_char(&mut joined, '_');
            }
            joined.append(self.stored_fields[i].name.as_str());
            i += 1;
        }
        self.name = joined;

        if self.stored_fields.len() == 1 {
            let ty = match &self.stored_fields[0].ty {
                GpuType::Scalar(s) => match s {
                    GpuScalar::F32 | GpuScalar::I32 | GpuScalar::U32 => self.stored_fields[0]
                        .ty
                        .clone(),
                    _ => GpuType::Scalar(GpuScalar::U32),
                },
                GpuType::Vector(s, size) => match s {
                    GpuScalar::F32 | GpuScalar::I32 | GpuScalar::U32 => self.stored_fields[0]
                        .ty
                        .clone(),
                    _ => {
                        proof {
                            crate::model::lemma_type_size_range(
                                m,
                                stored[0].ty,
                                m.defs@.len() as int,
                            );
                        }
                        let w = crate::text::size_in_uints(s.size() * *size);
                        GpuType::Vector(GpuScalar::U32, w)
                    },
                },
                GpuType::InlineStruct(_) => self.stored_fields[0].ty.clone(),
                GpuType::Ref(inner) => match &**inner {
                    GpuType::InlineStruct(_) => self.stored_fields[0].ty.clone(),
                    _ => GpuType::Scalar(GpuScalar::U32),
                },
            };
            self.ty = Some(ty);
            proof {
                assert(final(self)@ =~= close_slot(m, old(self)@));
            }
            return Ok(());
        }

        // Several stored fields: none of them may be word-sized on its
        // own, and together they must need between one and four words.
        let mut any32 = false;
        let mut k: usize = 0;
        while k < self.stored_fields.len()
            invariant
                k <= self.stored_fields@.len(),
                self.name@ == join_names(stored, n),
                stored == self@.stored,
                self@.ty is None,
                self@.size == old(self)@.size,
                any32 == exists|j: int|
                    0 <= j < k && type_size_full(m, (#[trigger] stored[j]).ty) == 32,
            decreases self.stored_fields@.len() - k,
        {
            proof {
                assert(stored[k as int] == self.stored_fields@[k as int]@);
                assert(type_wf(m, stored[k as int].ty, m.defs@.len() as int));
            }
            let s = self.stored_fields[k].ty.size(module);
            if s == 32 {
                any32 = true;
            }
            k += 1;
        }
        if any32 {
            return Err(
                String::from_str(
                    "cannot pack multiple types along with at least one 32 bit sized type",
                ),
            );
        }

        let mut summed: usize = 0;
        let mut k2: usize = 0;
        while k2 < self.stored_fields.len()
            invariant
                k2 <= self.stored_fields@.len(),
                self.name@ == join_names(stored, n),
                stored == self@.stored,
                self@.ty is None,
                self@.size == old(self)@.size,
                summed as int == stored_sum(m, stored, k2 as int),
            decreases self.stored_fields@.len() - k2,
        {
            proof {
                lemma_stored_sum_parts(m, stored, n);
                lemma_stored_sum_mono(m, stored, k2 as int + 1, n);
                crate::model::lemma_type_size_range(m, stored[k2 as int].ty, m.defs@.len() as int);
            }
            summed += self.stored_fields[k2].ty.size(module);
            k2 += 1;
        }
        let words = crate::text::size_in_uints(summed);
        match words {
            0 => Err(String::from_str("encountered struct of size 0")),
            1 => {
                self.ty = Some(GpuType::Scalar(GpuScalar::U32));
                proof {
                    assert(final(self)@ =~= close_slot(m, old(self)@));
                }
                Ok(())
            },
            2 | 3 | 4 => {
                self.ty = Some(GpuType::Vector(GpuScalar::U32, words));
                proof {
                    assert(final(self)@ =~= close_slot(m, old(self)@));
                }
                Ok(())
            },
            _ => Err(String::from_str("packed fields require more than 8 bytes to store")),
        }
    }

    /// Byte size of the slot's materialised type; an open slot has none.
    pub fn size(&self, module: &GpuModule) -> (r: Result<usize, String>)
        requires
            module.wf(),
            match self@.ty {
                Some(t) => type_wf(*module, t, module.defs@.len() as int),
                None => true,
            },
        ensures
            match r {
                Ok(s) => self@.ty is Some && s as int == type_size_full(
                    *module,
                    self@.ty->Some_0,
                ),
                Err(e) => self@.ty is None && e@
                    == "cannot calculate size of open packed field"@,
            },
    {
        match &self.ty {
            Some(ty) => Ok(ty.size(module)),
            None => Err(String::from_str("cannot calculate size of open packed field")),
        }
    }
}

/// Every partial stored sum of well-formed types is non-negative and at
/// most the total, and each part is at most the total.
pub proof fn lemma_stored_sum_mono(m: GpuModule, stored: Seq<StoredV>, n1: int, n2: int)
    requires
        m.wf(),
        stored_wf(m, stored),
        0 <= n1 <= n2 <= stored.len(),
    ensures
        0 <= stored_sum(m, stored, n1) <= stored_sum(m, stored, n2),
    decreases n2,
{
    if n2 > 0 {
        if n1 == n2 {
            lemma_stored_sum_mono(m, stored, n1 - 1, n2 - 1);
        } else {
            lemma_stored_sum_mono(m, stored, n1, n2 - 1);
        }
        crate::model::lemma_type_size_range(m, stored[n2 - 1].ty, m.defs@.len() as int);
    }
}

/// Each stored field's size is bounded by the whole sum.
pub proof fn lemma_stored_sum_parts(m: GpuModule, stored: Seq<StoredV>, n: int)
    requires
        m.wf(),
        stored_wf(m, stored),
        0 <= n <= stored.len(),
    ensures
        forall|i: int|
            0 <= i < n ==> type_size_full(m, (#[trigger] stored[i]).ty) <= stored_sum(
                m,
                stored,
                n,
            ),
    decreases n,
{
    if n > 0 {
        lemma_stored_sum_parts(m, stored, n - 1);
        lemma_stored_sum_mono(m, stored, n - 1, n);
        crate::model::lemma_type_size_range(m, stored[n - 1].ty, m.defs@.len() as int);
        assert forall|i: int| 0 <= i < n implies type_size_full(m, (#[trigger] stored[i]).ty)
            <= stored_sum(m, stored, n) by {
            if i < n - 1 {
                lemma_stored_sum_mono(m, stored, n - 1, n);
            }
        }
    }
}

} // verus!
verus! {

/// The slot views of a vector of packed fields.
pub open spec fn slots_view(ps: Seq<PackedField>) -> Seq<SlotV> {
    ps.map_values(|p: PackedField| p@)
}

/// Field lists a struct may hand to the packer: every type well formed
/// and at least one byte wide.
pub open spec fn fields_ok(m: GpuModule, fields: Seq<(String, GpuType)>) -> bool {
    forall|k: int|
        0 <= k < fields.len() ==> type_wf(m, (#[trigger] fields[k]).1, m.defs@.len() as int)
            && type_size_full(m, fields[k].1) >= 1
}

/// Sums over a sequence only look at the prefix they cover.
pub proof fn lemma_stored_sum_agree(m: GpuModule, s1: Seq<StoredV>, s2: Seq<StoredV>, n: int)
    requires
        forall|j: int| 0 <= j < n ==> #[trigger] s1[j] == s2[j],
    ensures
        stored_sum(m, s1, n) == stored_sum(m, s2, n),
    decreases n,
{
    if n > 0 {
        lemma_stored_sum_agree(m, s1, s2, n - 1);
    }
}

/// Extending an open slot with a field that fits keeps it well formed.
pub proof fn lemma_slot_extend_wf(m: GpuModule, s: SlotV, fname: Seq<char>, fty: GpuType)
    requires
        m.wf(),
        slot_open_wf(m, s),
        stored_min(m, s.stored),
        type_wf(m, fty, m.defs@.len() as int),
        type_size_full(m, fty) >= 1,
        type_size_full(m, fty) + s.size <= 4,
    ensures
        slot_open_wf(m, slot_extend(m, s, fname, fty)),
        stored_min(m, slot_extend(m, s, fname, fty).stored),
{
    let e = slot_extend(m, s, fname, fty);
    let n = s.stored.len() as int;
    lemma_stored_sum_agree(m, e.stored, s.stored, n);
    assert(stored_sum(m, e.stored, n + 1) == s.size + type_size_full(m, fty));
    assert forall|i: int| 0 <= i < n + 1 implies (#[trigger] e.stored[i]).offset == 32 - 8
        * stored_sum(m, e.stored, i + 1) by {
        if i < n {
            lemma_stored_sum_agree(m, e.stored, s.stored, i + 1);
            assert(s.stored[i].offset == 32 - 8 * stored_sum(m, s.stored, i + 1));
        }
    }
    assert forall|i: int| 0 <= i < n + 1 implies type_wf(
        m,
        (#[trigger] e.stored[i]).ty,
        m.defs@.len() as int,
    ) && type_size_full(m, e.stored[i].ty) >= 1 by {
        if i < n {
            assert(s.stored[i] == e.stored[i]);
        }
    }
}

/// Closing a well-formed, non-empty open slot whose stored sizes are all
/// at least one byte cannot fail.
pub proof fn lemma_close_ok(m: GpuModule, s: SlotV)
    requires
        m.wf(),
        slot_open_wf(m, s),
        stored_min(m, s.stored),
        s.stored.len() >= 1,
    ensures
        close_err(m, s.stored) is None,
        slot_closed_wf(m, close_slot(m, s)),
{
    let n = s.stored.len() as int;
    lemma_stored_sum_parts(m, s.stored, n);
    lemma_stored_sum_mono(m, s.stored, 1, n);
    assert(stored_sum(m, s.stored, 0) == 0);
    assert(stored_sum(m, s.stored, 1) == type_size_full(m, s.stored[0].ty));
    assert(stored_sum(m, s.stored, n) >= 1);
    if n >= 2 {
        assert(uints_of(stored_sum(m, s.stored, n)) == 1);
    }
}

/// A single oversized field closed alone is a well-formed closed slot.
pub proof fn lemma_big_single_wf(m: GpuModule, fname: Seq<char>, fty: GpuType)
    requires
        m.wf(),
        type_wf(m, fty, m.defs@.len() as int),
        type_size_full(m, fty) >= 1,
    ensures
        slot_closed_wf(m, close_slot(m, big_single(fname, fty))),
        close_err(m, big_single(fname, fty).stored) is None,
{
    let s = big_single(fname, fty);
    assert(s.stored.len() == 1);
    assert(s.stored[0].ty == fty);
    assert(stored_sum(m, s.stored, 0) == 0);
}

/// Every slot the packing model produces is a well-formed closed slot.
pub proof fn lemma_pack_model_wf(m: GpuModule, fields: Seq<(Seq<char>, GpuType)>, cur: SlotV)
    requires
        m.wf(),
        slot_open_wf(m, cur),
        stored_min(m, cur.stored),
        forall|k: int|
            0 <= k < fields.len() ==> type_wf(m, (#[trigger] fields[k]).1, m.defs@.len() as int)
                && type_size_full(m, fields[k].1) >= 1,
    ensures
        forall|i: int|
            0 <= i < pack_model(m, fields, cur).len() ==> slot_closed_wf(
                m,
                #[trigger] pack_model(m, fields, cur)[i],
            ),
    decreases fields.len(), cur.stored.len(),
{
    if fields.len() == 0 {
        if cur.stored.len() > 0 {
            lemma_close_ok(m, cur);
        }
    } else {
        let fname = fields[0].0;
        let fty = fields[0].1;
        let fs = type_size_full(m, fty);
        assert(type_wf(m, fields[0].1, m.defs@.len() as int) && fs >= 1);
        assert(stored_sum(m, empty_slot().stored, 0) == 0);
        assert forall|k: int| 0 <= k < fields.drop_first().len() implies type_wf(
            m,
            (#[trigger] fields.drop_first()[k]).1,
            m.defs@.len() as int,
        ) && type_size_full(m, fields.drop_first()[k].1) >= 1 by {
            assert(fields.drop_first()[k] == fields[k + 1]);
        }
        if fs + cur.size > 4 {
            if cur.stored.len() == 0 {
                lemma_big_single_wf(m, fname, fty);
                lemma_pack_model_wf(m, fields.drop_first(), empty_slot());
                let rest = pack_model(m, fields.drop_first(), empty_slot());
                let whole = pack_model(m, fields, cur);
                assert(whole =~= seq![close_slot(m, big_single(fname, fty))] + rest);
                assert forall|i: int| 0 <= i < whole.len() implies slot_closed_wf(
                    m,
                    #[trigger] whole[i],
                ) by {
                    if i == 0 {
                        assert(whole[0] == close_slot(m, big_single(fname, fty)));
                    } else {
                        assert(whole[i] == rest[i - 1]);
                    }
                }
            } else {
                lemma_close_ok(m, cur);
                lemma_pack_model_wf(m, fields, empty_slot());
                let rest = pack_model(m, fields, empty_slot());
                let whole = pack_model(m, fields, cur);
                assert(whole =~= seq![close_slot(m, cur)] + rest);
                assert forall|i: int| 0 <= i < whole.len() implies slot_closed_wf(
                    m,
                    #[trigger] whole[i],
                ) by {
                    if i == 0 {
                        assert(whole[0] == close_slot(m, cur));
                    } else {
                        assert(whole[i] == rest[i - 1]);
                    }
                }
            }
        } else {
            lemma_slot_extend_wf(m, cur, fname, fty);
            lemma_pack_model_wf(m, fields.drop_first(), slot_extend(m, cur, fname, fty));
            assert(pack_model(m, fields, cur) == pack_model(
                m,
                fields.drop_first(),
                slot_extend(m, cur, fname, fty),
            ));
        }
    }
}

/// A packed struct: the closed slots of one schema struct, its name with
/// a `Packed` suffix, and whether a leading tag word is emitted.
#[derive(Debug)]
pub struct PackedStruct {
    pub name: String,
    pub packed_fields: Vec<PackedField>,
    pub is_enum_variant: bool,
}

/// The mathematical shape of a packed struct.
#[verifier::ext_equal]
pub struct PackedStructV {
    pub name: Seq<char>,
    pub slots: Seq<SlotV>,
    pub is_enum_variant: bool,
}

impl View for PackedStruct {
    type V = PackedStructV;

    open spec fn view(&self) -> PackedStructV {
        PackedStructV {
            name: self.name@,
            slots: slots_view(self.packed_fields@),
            is_enum_variant: self.is_enum_variant,
        }
    }
}

impl PackedStruct {
    /// Packs the fields of the struct called `name` into slots, one
    /// left-to-right pass with a single open slot.
    #[verifier::loop_isolation(false)]
    pub fn new(module: &GpuModule, name: &str, fields: &Vec<(String, GpuType)>) -> (r:
        PackedStruct)
        requires
            module.wf(),
            fields_ok(*module, fields@),
        ensures
            r@.name == name@ + "Packed"@,
            r@.is_enum_variant == spec_is_enum_variant(*module, name@),
            r@.slots == pack_model(*module, fields_v(fields@), empty_slot()),
    {
        let ghost m = *module;
        let ghost fv = fields_v(fields@);
        let mut packed_fields: Vec<PackedField> = Vec::new();
        let mut current_packed_field = PackedField::new();
        proof {
            assert(stored_sum(m, empty_slot().stored, 0) == 0);
            assert(fv.skip(0) =~= fv);
            assert(slots_view(packed_fields@) =~= Seq::<SlotV>::empty());
        }
        let mut i: usize = 0;
        while i < fields.len()
            invariant
                i <= fields@.len(),
                current_packed_field@.ty is None,
                slot_open_wf(m, current_packed_field@),
                stored_min(m, current_packed_field@.stored),
                slots_view(packed_fields@) + pack_model(m, fv.skip(i as int), current_packed_field@)
                    == pack_model(m, fv, empty_slot()),
            decreases fields@.len() - i,
        {
            let ghost pre_slots = slots_view(packed_fields@);
            let ghost pre_cur = current_packed_field@;
            proof {
                assert(fv[i as int] == (fields@[i as int].0@, fields@[i as int].1));
                assert(fv.skip(i as int)[0] == fv[i as int]);
                assert(fv.skip(i as int).drop_first() =~= fv.skip(i as int + 1));
                assert(type_wf(m, fields@[i as int].1, m.defs@.len() as int) && type_size_full(
                    m,
                    fields@[i as int].1,
                ) >= 1);
            }
            let field_name = &fields[i].0;
            let ty = &fields[i].1;
            match current_packed_field.pack(module, ty, field_name.as_str()) {
                Ok(PackResult::SuccessAndClosed) => {
                    packed_fields.push(current_packed_field);
                    current_packed_field = PackedField::new();
                    proof {
                        assert(stored_sum(m, empty_slot().stored, 0) == 0);
                        assert(pack_model(m, fv.skip(i as int), pre_cur) =~= seq![
                            close_slot(m, big_single(field_name@, *ty)),
                        ] + pack_model(m, fv.skip(i as int + 1), empty_slot()));
                        assert(slots_view(packed_fields@) =~= pre_slots.push(
                            close_slot(m, big_single(field_name@, *ty)),
                        ));
                        assert(pre_slots.push(close_slot(m, big_single(field_name@, *ty)))
                            =~= pre_slots + seq![close_slot(m, big_single(field_name@, *ty))]);
                        assert(slots_view(packed_fields@) + pack_model(
                            m,
                            fv.skip(i as int + 1),
                            current_packed_field@,
                        ) =~= pack_model(m, fv, empty_slot()));
                    }
                },
                Ok(PackResult::FailAndClosed) => {
                    packed_fields.push(current_packed_field);
                    current_packed_field = PackedField::new();
                    proof {
                        assert(stored_sum(m, empty_slot().stored, 0) == 0);
                        assert(pack_model(m, fv.skip(i as int), pre_cur) =~= seq![
                            close_slot(m, pre_cur),
                        ] + pack_model(m, fv.skip(i as int), empty_slot()));
                        assert(slots_view(packed_fields@) =~= pre_slots.push(
                            close_slot(m, pre_cur),
                        ));
                        assert(pre_slots.push(close_slot(m, pre_cur)) =~= pre_slots + seq![
                            close_slot(m, pre_cur),
                        ]);
                    }
                    let ghost mid_slots = slots_view(packed_fields@);
                    match current_packed_field.pack(module, ty, field_name.as_str()) {
                        Ok(PackResult::SuccessAndClosed) => {
                            packed_fields.push(current_packed_field);
                            current_packed_field = PackedField::new();
                            proof {
                                assert(stored_sum(m, empty_slot().stored, 0) == 0);
                                assert(pack_model(m, fv.skip(i as int), empty_slot()) =~= seq![
                                    close_slot(m, big_single(field_name@, *ty)),
                                ] + pack_model(m, fv.skip(i as int + 1), empty_slot()));
                                assert(slots_view(packed_fields@) =~= mid_slots.push(
                                    close_slot(m, big_single(field_name@, *ty)),
                                ));
                                assert(mid_slots.push(close_slot(m, big_single(field_name@, *ty)))
                                    =~= mid_slots + seq![
                                    close_slot(m, big_single(field_name@, *ty)),
                                ]);
                                assert(slots_view(packed_fields@) + pack_model(
                                    m,
                                    fv.skip(i as int + 1),
                                    current_packed_field@,
                                ) =~= pack_model(m, fv, empty_slot()));
                            }
                        },
                        Ok(PackResult::SuccessAndOpen) => {
                            proof {
                                lemma_slot_extend_wf(m, empty_slot(), field_name@, *ty);
                                assert(pack_model(m, fv.skip(i as int), empty_slot())
                                    =~= pack_model(
                                    m,
                                    fv.skip(i as int + 1),
                                    slot_extend(m, empty_slot(), field_name@, *ty),
                                ));
                                assert(slots_view(packed_fields@) + pack_model(
                                    m,
                                    fv.skip(i as int + 1),
                                    current_packed_field@,
                                ) =~= pack_model(m, fv, empty_slot()));
                            }
                        },
                        _ => {
                            proof {
                                assert(false);
                            }
                        },
                    }
                },
                Ok(PackResult::SuccessAndOpen) => {
                    proof {
                        lemma_slot_extend_wf(m, pre_cur, field_name@, *ty);
                        assert(pack_model(m, fv.skip(i as int), pre_cur) =~= pack_model(
                            m,
                            fv.skip(i as int + 1),
                            slot_extend(m, pre_cur, field_name@, *ty),
                        ));
                        assert(slots_view(packed_fields@) + pack_model(
                            m,
                            fv.skip(i as int + 1),
                            current_packed_field@,
                        ) =~= pack_model(m, fv, empty_slot()));
                    }
                },
                Err(_) => {
                    proof {
                        assert(false);
                    }
                },
            }
            i += 1;
        }
        if !current_packed_field.is_closed() {
            if !current_packed_field.is_empty() {
                let ghost pre_slots = slots_view(packed_fields@);
                let ghost pre_cur = current_packed_field@;
                proof {
                    lemma_close_ok(m, pre_cur);
                    assert(fv.skip(i as int) =~= Seq::<(Seq<char>, GpuType)>::empty());
                }
                let c = current_packed_field.close(module);
                proof {
                    assert(c is Ok);
                }
                packed_fields.push(current_packed_field);
                proof {
                    assert(slots_view(packed_fields@) =~= pre_slots.push(close_slot(m, pre_cur)));
                    assert(pre_slots.push(close_slot(m, pre_cur)) =~= pre_slots + seq![
                        close_slot(m, pre_cur),
                    ]);
                }
            } else {
                proof {
                    assert(fv.skip(i as int) =~= Seq::<(Seq<char>, GpuType)>::empty());
                    assert(slots_view(packed_fields@) + Seq::<SlotV>::empty() =~= slots_view(
                        packed_fields@,
                    ));
                }
            }
        }
        let mut packed_name = String::from_str(name);
        packed_name.append("Packed");
        let r = PackedStruct {
            name: packed_name,
            packed_fields,
            is_enum_variant: module.is_enum_variant(name),
        };
        r
    }
}

} // verus!

verus! {

/// Whether a slot stores a field with the given name.
pub open spec fn slot_has_name(s: SlotV, fname: Seq<char>) -> bool {
    exists|j: int| 0 <= j < s.stored.len() && (#[trigger] s.stored[j]).name == fname
}

/// Index of the first slot storing a field with the given name, or -1.
pub open spec fn find_slot(slots: Seq<SlotV>, fname: Seq<char>) -> int
    decreases slots.len(),
{
    if slots.len() == 0 {
        -1
    } else if slot_has_name(slots[0], fname) {
        0
    } else {
        let r = find_slot(slots.drop_first(), fname);
        if r < 0 {
            -1
        } else {
            r + 1
        }
    }
}

/// `find_slot` finds the first slot storing the name, and -1 exactly when
/// no slot stores it.
pub proof fn lemma_find_slot(slots: Seq<SlotV>, fname: Seq<char>)
    ensures
        find_slot(slots, fname) == -1 ==> forall|i: int|
            0 <= i < slots.len() ==> !slot_has_name(#[trigger] slots[i], fname),
        find_slot(slots, fname) != -1 ==> {
            let r = find_slot(slots, fname);
            &&& 0 <= r < slots.len()
            &&& slot_has_name(slots[r], fname)
            &&& forall|i: int| 0 <= i < r ==> !slot_has_name(#[trigger] slots[i], fname)
        },
    decreases slots.len(),
{
    if slots.len() > 0 && !slot_has_name(slots[0], fname) {
        lemma_find_slot(slots.drop_first(), fname);
        assert forall|i: int| 1 <= i < slots.len() implies slots.drop_first()[i - 1] == slots[i] by {}
    }
}

/// Some slot of the packing stores every input field's name, and every
/// name already stored in the open slot survives.
pub proof fn lemma_pack_model_covers(m: GpuModule, fields: Seq<(Seq<char>, GpuType)>, cur: SlotV)
    ensures
        forall|j: int|
            0 <= j < cur.stored.len() ==> exists|i: int|
                0 <= i < pack_model(m, fields, cur).len() && slot_has_name(
                    #[trigger] pack_model(m, fields, cur)[i],
                    (#[trigger] cur.stored[j]).name,
                ),
        forall|k: int|
            0 <= k < fields.len() ==> exists|i: int|
                0 <= i < pack_model(m, fields, cur).len() && slot_has_name(
                    #[trigger] pack_model(m, fields, cur)[i],
                    (#[trigger] fields[k]).0,
                ),
    decreases fields.len(), cur.stored.len(),
{
    let whole = pack_model(m, fields, cur);
    if fields.len() == 0 {
        if cur.stored.len() > 0 {
            assert forall|j: int| 0 <= j < cur.stored.len() implies exists|i: int|
                0 <= i < whole.len() && slot_has_name(
                    #[trigger] whole[i],
                    (#[trigger] cur.stored[j]).name,
                ) by {
                assert(whole[0] == close_slot(m, cur));
                assert(slot_has_name(whole[0], cur.stored[j].name));
            }
        }
    } else {
        let fname = fields[0].0;
        let fty = fields[0].1;
        let fs = type_size_full(m, fty);
        if fs + cur.size > 4 {
            if cur.stored.len() == 0 {
                let rest = pack_model(m, fields.drop_first(), empty_slot());
                assert(whole =~= seq![close_slot(m, big_single(fname, fty))] + rest);
                lemma_pack_model_covers(m, fields.drop_first(), empty_slot());
                assert forall|k: int| 0 <= k < fields.len() implies exists|i: int|
                    0 <= i < whole.len() && slot_has_name(
                        #[trigger] whole[i],
                        (#[trigger] fields[k]).0,
                    ) by {
                    if k == 0 {
                        let s0 = close_slot(m, big_single(fname, fty));
                        assert(s0.stored[0].name == fname);
                        assert(slot_has_name(s0, fname));
                        assert(whole[0] == s0);
                    } else {
                        assert(fields.drop_first()[k - 1] == fields[k]);
                        let i0 = choose|i: int|
                            0 <= i < rest.len() && slot_has_name(
                                #[trigger] rest[i],
                                fields.drop_first()[k - 1].0,
                            );
                        assert(whole[i0 + 1] == rest[i0]);
                    }
                }
            } else {
                let rest = pack_model(m, fields, empty_slot());
                assert(whole =~= seq![close_slot(m, cur)] + rest);
                lemma_pack_model_covers(m, fields, empty_slot());
                assert forall|j: int| 0 <= j < cur.stored.len() implies exists|i: int|
                    0 <= i < whole.len() && slot_has_name(
                        #[trigger] whole[i],
                        (#[trigger] cur.stored[j]).name,
                    ) by {
                    assert(whole[0] == close_slot(m, cur));
                    assert(slot_has_name(whole[0], cur.stored[j].name));
                }
                assert forall|k: int| 0 <= k < fields.len() implies exists|i: int|
                    0 <= i < whole.len() && slot_has_name(
                        #[trigger] whole[i],
                        (#[trigger] fields[k]).0,
                    ) by {
                    let i0 = choose|i: int|
                        0 <= i < rest.len() && slot_has_name(#[trigger] rest[i], fields[k].0);
                    assert(whole[i0 + 1] == rest[i0]);
                }
            }
        } else {
            let ext = slot_extend(m, cur, fname, fty);
            lemma_pack_model_covers(m, fields.drop_first(), ext);
            assert(whole == pack_model(m, fields.drop_first(), ext));
            assert forall|j: int| 0 <= j < cur.stored.len() implies exists|i: int|
                0 <= i < whole.len() && slot_has_name(
                    #[trigger] whole[i],
                    (#[trigger] cur.stored[j]).name,
                ) by {
                assert(ext.stored[j] == cur.stored[j]);
            }
            assert forall|k: int| 0 <= k < fields.len() implies exists|i: int|
                0 <= i < whole.len() && slot_has_name(
                    #[trigger] whole[i],
                    (#[trigger] fields[k]).0,
                ) by {
                if k == 0 {
                    let jn = cur.stored.len() as int;
                    assert(ext.stored[jn].name == fname);
                } else {
                    assert(fields.drop_first()[k - 1] == fields[k]);
                }
            }
        }
    }
}

/// A schema struct together with its packed form: the logical fields in
/// declaration order and the slots they were packed into.
#[derive(Debug)]
pub struct SpecifiedStruct {
    pub name: String,
    pub fields: Vec<(String, GpuType)>,
    pub packed_form: PackedStruct,
}

/// The packed form of a specified struct is exactly the packing of its
/// fields, named after the struct.
pub open spec fn ss_wf(m: GpuModule, s: SpecifiedStruct) -> bool {
    &&& s.packed_form@.slots == pack_model(m, fields_v(s.fields@), empty_slot())
    &&& s.packed_form@.name == s.name@ + "Packed"@
    &&& s.packed_form@.is_enum_variant == spec_is_enum_variant(m, s.name@)
}

impl SpecifiedStruct {
    /// Packs `fields` and records both forms.
    pub fn new(module: &GpuModule, name: &str, fields: Vec<(String, GpuType)>) -> (r:
        SpecifiedStruct)
        requires
            module.wf(),
            fields_ok(*module, fields@),
        ensures
            ss_wf(*module, r),
            r.name@ == name@,
            r.fields == fields,
    {
        let packed_form = PackedStruct::new(module, name, &fields);
        SpecifiedStruct { name: String::from_str(name), fields, packed_form }
    }
}

} // verus!

verus! {

/// Sum of the sizes of the first `n` field types.
pub open spec fn fields_sz_sum(m: GpuModule, fields: Seq<(Seq<char>, GpuType)>, n: int) -> int
    decreases n,
{
    if n <= 0 {
        0
    } else {
        fields_sz_sum(m, fields, n - 1) + type_size_full(m, fields[n - 1].1)
    }
}

/// Sum of the materialised sizes of the first `n` closed slots.
pub open spec fn slots_ty_sum(m: GpuModule, slots: Seq<SlotV>, n: int) -> int
    decreases n,
{
    if n <= 0 {
        0
    } else {
        slots_ty_sum(m, slots, n - 1) + type_size_full(m, slots[n - 1].ty->Some_0)
    }
}

/// Budget for the total materialised size of the packing of `fields`
/// after the open slot `cur`.
pub open spec fn pack_budget(m: GpuModule, fields: Seq<(Seq<char>, GpuType)>, cur: SlotV) -> int {
    (if cur.stored.len() > 0 {
        4 + stored_sum(m, cur.stored, cur.stored.len() as int)
    } else {
        0
    }) + 8 * fields.len() + fields_sz_sum(m, fields, fields.len() as int)
}

/// A closed slot's materialised type is well formed, at least one byte,
/// and at most a word more than what it stores.
pub proof fn lemma_slot_ty_le(m: GpuModule, s: SlotV)
    requires
        m.wf(),
        slot_closed_wf(m, s),
    ensures
        type_wf(m, s.ty->Some_0, m.defs@.len() as int),
        crate::typename::vector_bounded(s.ty->Some_0),
        1 <= type_size_full(m, s.ty->Some_0) <= 4 + stored_sum(m, s.stored, s.stored.len() as int),
{
    let n = s.stored.len() as int;
    let t = s.ty->Some_0;
    lemma_stored_sum_parts(m, s.stored, n);
    lemma_stored_sum_mono(m, s.stored, 1, n);
    assert(stored_sum(m, s.stored, 0) == 0);
    if n == 1 {
        let t0 = s.stored[0].ty;
        crate::model::lemma_type_size_range(m, t0, m.defs@.len() as int);
        assert(stored_sum(m, s.stored, 1) == type_size_full(m, t0));
        match t0 {
            GpuType::Scalar(sc) => {},
            GpuType::Vector(sc, nn) => {
                if !is_word_scalar(sc) {
                    let x = scalar_size(sc) * nn;
                    let w = uints_of(x);
                    assert(1 <= x <= crate::model::MAX_SIZE);
                    assert(w >= 1 && 4 * w <= x + 3 && w * 4 <= crate::model::MAX_SIZE && 1 <= w
                        <= crate::model::MAX_SIZE) by (nonlinear_arith)
                        requires
                            w == (x + 3) / 4,
                            1 <= x <= crate::model::MAX_SIZE,
                    ;
                    assert(t == GpuType::Vector(GpuScalar::U32, w as usize));
                    assert(type_size_full(m, t) == 4 * w);
                }
            },
            GpuType::InlineStruct(_) => {},
            GpuType::Ref(_) => {},
        }
    } else {
        let sum = stored_sum(m, s.stored, n);
        assert(1 <= sum <= 4);
        let w = uints_of(sum);
        assert(w == 1) by (nonlinear_arith)
            requires
                w == (sum + 3) / 4,
                1 <= sum <= 4,
        ;
        assert(t == GpuType::Scalar(GpuScalar::U32));
    }
}

/// The packing's total materialised size stays within its budget.
pub proof fn lemma_pack_model_sum(m: GpuModule, fields: Seq<(Seq<char>, GpuType)>, cur: SlotV)
    requires
        m.wf(),
        slot_open_wf(m, cur),
        stored_min(m, cur.stored),
        forall|k: int|
            0 <= k < fields.len() ==> type_wf(m, (#[trigger] fields[k]).1, m.defs@.len() as int)
                && type_size_full(m, fields[k].1) >= 1,
    ensures
        0 <= slots_ty_sum(
            m,
            pack_model(m, fields, cur),
            pack_model(m, fields, cur).len() as int,
        ) <= pack_budget(m, fields, cur),
        pack_model(m, fields, cur).len() <= (if cur.stored.len() > 0 {
            1int
        } else {
            0int
        }) + fields.len(),
    decreases fields.len(), cur.stored.len(),
{
    let whole = pack_model(m, fields, cur);
    assert(stored_sum(m, empty_slot().stored, 0) == 0);
    assert(fields_sz_sum(m, fields, 0) == 0);
    lemma_pack_model_wf(m, fields, cur);
    if fields.len() == 0 {
        if cur.stored.len() > 0 {
            lemma_close_ok(m, cur);
            lemma_slot_ty_le(m, close_slot(m, cur));
            assert(slots_ty_sum(m, whole, 0) == 0);
            assert(slots_ty_sum(m, whole, 1) == type_size_full(m, whole[0].ty->Some_0));
        } else {
            assert(slots_ty_sum(m, whole, 0) == 0);
        }
    } else {
        let fname = fields[0].0;
        let fty = fields[0].1;
        let fs = type_size_full(m, fty);
        assert(type_wf(m, fields[0].1, m.defs@.len() as int) && fs >= 1);
        assert forall|k: int| 0 <= k < fields.drop_first().len() implies type_wf(
            m,
            (#[trigger] fields.drop_first()[k]).1,
            m.defs@.len() as int,
        ) && type_size_full(m, fields.drop_first()[k].1) >= 1 by {
            assert(fields.drop_first()[k] == fields[k + 1]);
        }
        lemma_fields_sz_shift(m, fields);
        if fs + cur.size > 4 {
            if cur.stored.len() == 0 {
                lemma_big_single_wf(m, fname, fty);
                lemma_pack_model_sum(m, fields.drop_first(), empty_slot());
                let rest = pack_model(m, fields.drop_first(), empty_slot());
                assert(whole =~= seq![close_slot(m, big_single(fname, fty))] + rest);
                let bs = close_slot(m, big_single(fname, fty));
                lemma_slot_ty_le(m, bs);
                assert(stored_sum(m, bs.stored, 0) == 0);
                assert(stored_sum(m, bs.stored, 1) == fs);
                lemma_slots_ty_sum_concat(m, seq![bs], rest);
                assert(slots_ty_sum(m, Seq::<SlotV>::empty().push(bs), 0) == 0);
                assert(slots_ty_sum(m, seq![bs], 0) == 0);
                assert(slots_ty_sum(m, seq![bs], 1) == type_size_full(m, bs.ty->Some_0));
            } else {
                lemma_close_ok(m, cur);
                lemma_pack_model_sum(m, fields, empty_slot());
                let rest = pack_model(m, fields, empty_slot());
                assert(whole =~= seq![close_slot(m, cur)] + rest);
                let cs = close_slot(m, cur);
                lemma_slot_ty_le(m, cs);
                lemma_slots_ty_sum_concat(m, seq![cs], rest);
                assert(slots_ty_sum(m, seq![cs], 0) == 0);
                assert(slots_ty_sum(m, seq![cs], 1) == type_size_full(m, cs.ty->Some_0));
            }
        } else {
            lemma_slot_extend_wf(m, cur, fname, fty);
            let ext = slot_extend(m, cur, fname, fty);
            lemma_pack_model_sum(m, fields.drop_first(), ext);
            assert(whole == pack_model(m, fields.drop_first(), ext));
            lemma_stored_sum_agree(m, ext.stored, cur.stored, cur.stored.len() as int);
            assert(stored_sum(m, ext.stored, ext.stored.len() as int) == stored_sum(
                m,
                cur.stored,
                cur.stored.len() as int,
            ) + fs);
        }
    }
}

/// Dropping the first field shifts the size sum by that field's size.
pub proof fn lemma_fields_sz_shift(m: GpuModule, fields: Seq<(Seq<char>, GpuType)>)
    requires
        fields.len() >= 1,
    ensures
        fields_sz_sum(m, fields, fields.len() as int) == type_size_full(m, fields[0].1)
            + fields_sz_sum(m, fields.drop_first(), fields.drop_first().len() as int),
    decreases fields.len(),
{
    lemma_fields_sz_prefix(m, fields, fields.len() as int);
}

/// Peeling sums from the front: the sum of the first `n` fields equals
/// the head's size plus the sum of `n - 1` fields of the tail.
pub proof fn lemma_fields_sz_prefix(m: GpuModule, fields: Seq<(Seq<char>, GpuType)>, n: int)
    requires
        1 <= n <= fields.len(),
    ensures
        fields_sz_sum(m, fields, n) == type_size_full(m, fields[0].1) + fields_sz_sum(
            m,
            fields.drop_first(),
            n - 1,
        ),
    decreases n,
{
    if n > 1 {
        lemma_fields_sz_prefix(m, fields, n - 1);
        assert(fields.drop_first()[n - 2] == fields[n - 1]);
    } else {
        assert(fields_sz_sum(m, fields, 0) == 0);
        assert(fields_sz_sum(m, fields.drop_first(), 0) == 0);
    }
}

/// Slot size sums concatenate.
pub proof fn lemma_slots_ty_sum_concat(m: GpuModule, a: Seq<SlotV>, b: Seq<SlotV>)
    ensures
        slots_ty_sum(m, a + b, (a + b).len() as int) == slots_ty_sum(m, a, a.len() as int)
            + slots_ty_sum(m, b, b.len() as int),
    decreases b.len(),
{
    if b.len() == 0 {
        assert(a + b =~= a);
        assert(slots_ty_sum(m, b, 0) == 0);
    } else {
        lemma_slots_ty_sum_concat(m, a, b.drop_last());
        let n = (a + b).len() as int;
        assert forall|j: int| 0 <= j < n - 1 implies (a + b)[j] == (a + b.drop_last())[j] by {}
        lemma_slots_ty_sum_agree(m, a + b, a + b.drop_last(), n - 1);
        assert((a + b.drop_last()).len() as int == n - 1);
        assert((a + b)[n - 1] == b[b.len() - 1]);
        assert forall|j: int| 0 <= j < b.len() - 1 implies b[j] == b.drop_last()[j] by {}
        lemma_slots_ty_sum_agree(m, b, b.drop_last(), b.len() as int - 1);
    }
}

/// Slot size sums only look at the prefix they cover.
pub proof fn lemma_slots_ty_sum_agree(m: GpuModule, s1: Seq<SlotV>, s2: Seq<SlotV>, n: int)
    requires
        forall|j: int| 0 <= j < n ==> #[trigger] s1[j] == s2[j],
    ensures
        slots_ty_sum(m, s1, n) == slots_ty_sum(m, s2, n),
    decreases n,
{
    if n > 0 {
        lemma_slots_ty_sum_agree(m, s1, s2, n - 1);
    }
}

} // verus!

verus! {

/// Partial slot size sums grow along the slots.
pub proof fn lemma_slots_ty_sum_mono(m: GpuModule, slots: Seq<SlotV>, n1: int, n2: int)
    requires
        m.wf(),
        0 <= n1 <= n2 <= slots.len(),
        forall|i: int| 0 <= i < slots.len() ==> slot_closed_wf(m, #[trigger] slots[i]),
    ensures
        0 <= slots_ty_sum(m, slots, n1) <= slots_ty_sum(m, slots, n2),
    decreases n2,
{
    if n2 > 0 {
        if n1 == n2 {
            lemma_slots_ty_sum_mono(m, slots, n1 - 1, n2 - 1);
        } else {
            lemma_slots_ty_sum_mono(m, slots, n1, n2 - 1);
        }
        lemma_slot_ty_le(m, slots[n2 - 1]);
    }
}

} // verus!

verus! {

/// Laying out fields spends at least each field's size past the base,
/// and at least one byte per field when every field has one.
pub proof fn lemma_fields_sz_le_layout(
    m: GpuModule,
    fields: Seq<(String, GpuType)>,
    n: int,
    base: int,
)
    requires
        m.wf(),
        0 <= n <= fields.len(),
        forall|k: int| 0 <= k < n ==> type_wf(m, (#[trigger] fields[k]).1, m.defs@.len() as int),
    ensures
        base + fields_sz_sum(m, fields_v(fields), n) <= crate::model::fields_size(
            m,
            fields,
            n,
            base,
            m.defs@.len() as int,
        ),
    decreases n,
{
    if n > 0 {
        lemma_fields_sz_le_layout(m, fields, n - 1, base);
        assert(fields_v(fields)[n - 1] == (fields[n - 1].0@, fields[n - 1].1));
        crate::model::lemma_type_size_range(m, fields[n - 1].1, m.defs@.len() as int);
    } else {
        assert(fields_sz_sum(m, fields_v(fields), 0) == 0);
    }
}

/// A field list whose members all have at least one byte sums to at
/// least its length.
pub proof fn lemma_fields_sz_min(m: GpuModule, fields: Seq<(Seq<char>, GpuType)>, n: int)
    requires
        0 <= n <= fields.len(),
        forall|k: int| 0 <= k < n ==> type_size_full(m, (#[trigger] fields[k]).1) >= 1,
    ensures
        n <= fields_sz_sum(m, fields, n),
    decreases n,
{
    if n > 0 {
        lemma_fields_sz_min(m, fields, n - 1);
    }
}

} // verus!
