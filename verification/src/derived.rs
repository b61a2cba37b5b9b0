//! The derivation pass and the offset resolver. Deriving a
//! well-formed definition builds one discriminant entry per variant
//! and one capability entry per (variant, field) pair, keyed by the
//! encoded identities of the names, with the byte offsets measured on
//! the layout-identical shadow of the definition. Lookups resolve a
//! name pair to an entry and apply its offset to a base address; a
//! name pair that was not derived resolves to nothing.

use vstd::prelude::*;
use crate::ident::{
    encode_name, encode_name_spec, ids_equal, lemma_encode_injective, valid_name, TypeIdentity,
};
use crate::model::{
    abs_field_offset, aligns_ok, def_wf, fields_align, fields_end, fields_same_layout,
    find_variant, lemma_fields_end_monotone, lemma_fields_offsets_same, lemma_find_field_absent,
    lemma_find_field_present, lemma_find_variant_absent, lemma_find_variant_present,
    lemma_max_end_le, lemma_max_end_nonneg, lemma_offset_in_span, lemma_round_up_bounds,
    lemma_same_shape_same_layout, payload_offset, rel_field_offset, round_up, same_shape,
    shadow_of, span, variant_wf, variants_align, EnumDef, FieldDef, VariantDef,
};
use crate::model::{
    inspect_discriminant, instance_wf, spec_discriminant, true_field_addr, EnumInstance,
};
use crate::{AddrOfEnum, EnumHasTag, EnumHasTagAndField};

verus! {

/// The discriminant entry of one variant: the encoded identity of its
/// name and the opaque value that identifies the variant (its
/// position).
pub struct TagEntry {
    pub id: TypeIdentity,
    pub disc: usize,
}

/// The capability entry of one (variant, field) pair: the encoded
/// identity of the field's name, the field's byte offset from the
/// start of an instance, and its size.
pub struct FieldEntry {
    pub id: TypeIdentity,
    pub offset: usize,
    pub size: usize,
}

/// A derived tagged union: the definition together with the entries
/// the derivation pass generated for it, and the root namespace that
/// generated references are written against (`None` is the canonical
/// one; a path override selects another).
pub struct DerivedEnum {
    pub def: EnumDef,
    pub root_path: Option<Vec<u8>>,
    pub tags: Vec<TagEntry>,
    pub fields: Vec<Vec<FieldEntry>>,
}

impl DerivedEnum {
    /// The derivation invariant: the definition is well formed and
    /// there is exactly one entry per variant and per (variant,
    /// field) pair, holding the encoded name identities, the variant
    /// positions and the layout's field offsets.
    pub open spec fn wf(&self) -> bool {
        &&& def_wf(self.def)
        &&& self.tags@.len() == self.def.variants@.len()
        &&& self.fields@.len() == self.def.variants@.len()
        &&& forall|vi: int|
            0 <= vi < self.tags@.len() ==> (#[trigger] self.tags@[vi]).id@ == encode_name_spec(
                self.def.variants@[vi].name@,
            ) && self.tags@[vi].disc == vi
        &&& forall|vi: int|
            0 <= vi < self.fields@.len() ==> (#[trigger] self.fields@[vi])@.len()
                == self.def.variants@[vi].fields@.len()
        &&& forall|vi: int, fi: int|
            0 <= vi < self.fields@.len() && 0 <= fi < self.fields@[vi]@.len()
                ==> (#[trigger] self.fields@[vi]@[fi]).id@ == encode_name_spec(
                self.def.variants@[vi].fields@[fi].name@,
            ) && self.fields@[vi]@[fi].offset == abs_field_offset(self.def, vi, fi)
                && self.fields@[vi]@[fi].size == self.def.variants@[vi].fields@[fi].size
    }
}

/// Round `x` up to the next multiple of `a`, in an integer type wide
/// enough that the rounding itself cannot overflow.
fn round_up_u128(x: u128, a: u128) -> (r: u128)
    requires
        1 <= a,
        x + a - 1 <= u128::MAX,
    ensures
        r as int == round_up(x as int, a as int),
        x <= r,
{
    proof {
        lemma_round_up_bounds(x as int, a as int);
    }
    let s = x + (a - 1);
    (s / a) * a
}

/// The largest field alignment of one variant, at least 1.
fn fields_alignment(fields: &Vec<FieldDef>) -> (r: usize)
    ensures
        r as int == fields_align(fields@),
        r >= 1,
{
    let mut m: usize = 1;
    let mut i: usize = 0;
    while i < fields.len()
        invariant
            i <= fields@.len(),
            m >= 1,
            m as int == fields_align(fields@.subrange(0, i as int)),
        decreases fields@.len() - i,
    {
        proof {
            assert(fields@.subrange(0, i as int + 1).drop_last() =~= fields@.subrange(
                0,
                i as int,
            ));
            assert(fields@.subrange(0, i as int + 1).last() == fields@[i as int]);
        }
        if fields[i].align > m {
            m = fields[i].align;
        }
        i = i + 1;
    }
    proof {
        assert(fields@.subrange(0, fields@.len() as int) =~= fields@);
    }
    m
}

/// The payload alignment of a definition: the largest field alignment
/// over all variants, at least 1.
fn variants_alignment(vs: &Vec<VariantDef>) -> (r: usize)
    ensures
        r as int == variants_align(vs@),
        r >= 1,
{
    let mut m: usize = 1;
    let mut i: usize = 0;
    while i < vs.len()
        invariant
            i <= vs@.len(),
            m >= 1,
            m as int == variants_align(vs@.subrange(0, i as int)),
        decreases vs@.len() - i,
    {
        let fa = fields_alignment(&vs[i].fields);
        proof {
            assert(vs@.subrange(0, i as int + 1).drop_last() =~= vs@.subrange(0, i as int));
            assert(vs@.subrange(0, i as int + 1).last() == vs@[i as int]);
        }
        if fa > m {
            m = fa;
        }
        i = i + 1;
    }
    proof {
        assert(vs@.subrange(0, vs@.len() as int) =~= vs@);
    }
    m
}

fn fields_aligns_ok(fields: &Vec<FieldDef>) -> (b: bool)
    ensures
        b == (forall|j: int| 0 <= j < fields@.len() ==> (#[trigger] fields@[j]).align >= 1),
{
    let mut i: usize = 0;
    while i < fields.len()
        invariant
            i <= fields@.len(),
            forall|j: int| 0 <= j < i ==> (#[trigger] fields@[j]).align >= 1,
        decreases fields@.len() - i,
    {
        if fields[i].align == 0 {
            return false;
        }
        i = i + 1;
    }
    true
}

fn check_aligns(def: &EnumDef) -> (b: bool)
    ensures
        b == aligns_ok(*def),
{
    let mut vi: usize = 0;
    while vi < def.variants.len()
        invariant
            vi <= def.variants@.len(),
            forall|a: int, fi: int|
                0 <= a < vi && 0 <= fi < def.variants@[a].fields@.len()
                    ==> (#[trigger] def.variants@[a].fields@[fi]).align >= 1,
        decreases def.variants@.len() - vi,
    {
        if !fields_aligns_ok(&def.variants[vi].fields) {
            return false;
        }
        vi = vi + 1;
    }
    true
}

/// Encode every variant name, assign each variant its position as
/// discriminant, and refuse a bad character or two variants of the
/// same name.
fn encode_tags(vs: &Vec<VariantDef>) -> (r: Option<Vec<TagEntry>>)
    ensures
        match r {
            Some(tags) => {
                &&& tags@.len() == vs@.len()
                &&& forall|vi: int|
                    0 <= vi < tags@.len() ==> (#[trigger] tags@[vi]).id@ == encode_name_spec(
                        vs@[vi].name@,
                    ) && tags@[vi].disc == vi
                &&& forall|vi: int| 0 <= vi < vs@.len() ==> valid_name((#[trigger] vs@[vi]).name@)
                &&& forall|a: int, b: int|
                    0 <= a < b < vs@.len() ==> vs@[a].name@ != vs@[b].name@
            },
            None => {
                ||| !(forall|vi: int| 0 <= vi < vs@.len() ==> valid_name((#[trigger] vs@[vi]).name@))
                ||| !(forall|a: int, b: int| 0 <= a < b < vs@.len() ==> vs@[a].name@ != vs@[b].name@)
            },
        },
{
    let mut tags: Vec<TagEntry> = Vec::new();
    let mut vi: usize = 0;
    while vi < vs.len()
        invariant
            vi <= vs@.len(),
            tags@.len() == vi,
            forall|k: int|
                0 <= k < vi ==> (#[trigger] tags@[k]).id@ == encode_name_spec(vs@[k].name@)
                    && tags@[k].disc == k,
            forall|k: int| 0 <= k < vi ==> valid_name((#[trigger] vs@[k]).name@),
            forall|a: int, b: int| 0 <= a < b < vi ==> vs@[a].name@ != vs@[b].name@,
        decreases vs@.len() - vi,
    {
        let id = match encode_name(&vs[vi].name) {
            Some(id) => id,
            None => {
                return None;
            },
        };
        let mut k: usize = 0;
        while k < tags.len()
            invariant
                k <= tags@.len(),
                tags@.len() == vi < vs@.len(),
                id@ == encode_name_spec(vs@[vi as int].name@),
                valid_name(vs@[vi as int].name@),
                forall|j: int|
                    0 <= j < vi ==> (#[trigger] tags@[j]).id@ == encode_name_spec(vs@[j].name@),
                forall|j: int| 0 <= j < vi ==> valid_name((#[trigger] vs@[j]).name@),
                forall|j: int| 0 <= j < k ==> vs@[j].name@ != vs@[vi as int].name@,
            decreases tags@.len() - k,
        {
            if ids_equal(&tags[k].id, &id) {
                proof {
                    if vs@[k as int].name@ != vs@[vi as int].name@ {
                        lemma_encode_injective(vs@[k as int].name@, vs@[vi as int].name@);
                    }
                }
                return None;
            }
            k = k + 1;
        }
        tags.push(TagEntry { id, disc: vi });
        vi = vi + 1;
    }
    Some(tags)
}

/// Encode every field name of one variant and measure every field
/// offset, against the payload offset `poff`; refuse a bad character,
/// two fields of the same name, or a layout past the end of the
/// address space.
fn variant_entries(fields: &Vec<FieldDef>, poff: usize) -> (r: Option<Vec<FieldEntry>>)
    requires
        forall|j: int| 0 <= j < fields@.len() ==> (#[trigger] fields@[j]).align >= 1,
    ensures
        match r {
            Some(es) => {
                &&& es@.len() == fields@.len()
                &&& forall|fi: int|
                    0 <= fi < es@.len() ==> (#[trigger] es@[fi]).id@ == encode_name_spec(
                        fields@[fi].name@,
                    ) && es@[fi].offset == poff + rel_field_offset(fields@, fi) && es@[fi].size
                        == fields@[fi].size
                &&& forall|fi: int|
                    0 <= fi < fields@.len() ==> valid_name((#[trigger] fields@[fi]).name@)
                &&& forall|a: int, b: int|
                    0 <= a < b < fields@.len() ==> fields@[a].name@ != fields@[b].name@
                &&& poff + fields_end(fields@, fields@.len() as int) <= usize::MAX
            },
            None => {
                ||| !(forall|fi: int|
                    0 <= fi < fields@.len() ==> valid_name((#[trigger] fields@[fi]).name@))
                ||| !(forall|a: int, b: int|
                    0 <= a < b < fields@.len() ==> fields@[a].name@ != fields@[b].name@)
                ||| poff + fields_end(fields@, fields@.len() as int) > usize::MAX
            },
        },
{
    let mut es: Vec<FieldEntry> = Vec::new();
    let mut end: u128 = 0;
    let mut fi: usize = 0;
    while fi < fields.len()
        invariant
            fi <= fields@.len(),
            es@.len() == fi,
            forall|j: int| 0 <= j < fields@.len() ==> (#[trigger] fields@[j]).align >= 1,
            end as int == fields_end(fields@, fi as int),
            end <= usize::MAX,
            poff + fields_end(fields@, fi as int) <= usize::MAX,
            forall|k: int|
                0 <= k < fi ==> (#[trigger] es@[k]).id@ == encode_name_spec(fields@[k].name@)
                    && es@[k].offset == poff + rel_field_offset(fields@, k) && es@[k].size
                    == fields@[k].size,
            forall|k: int| 0 <= k < fi ==> valid_name((#[trigger] fields@[k]).name@),
            forall|a: int, b: int| 0 <= a < b < fi ==> fields@[a].name@ != fields@[b].name@,
        decreases fields@.len() - fi,
    {
        let f = &fields[fi];
        let id = match encode_name(&f.name) {
            Some(id) => id,
            None => {
                return None;
            },
        };
        let mut k: usize = 0;
        while k < es.len()
            invariant
                k <= es@.len(),
                es@.len() == fi < fields@.len(),
                id@ == encode_name_spec(fields@[fi as int].name@),
                valid_name(fields@[fi as int].name@),
                forall|j: int|
                    0 <= j < fi ==> (#[trigger] es@[j]).id@ == encode_name_spec(fields@[j].name@),
                forall|j: int| 0 <= j < fi ==> valid_name((#[trigger] fields@[j]).name@),
                forall|j: int| 0 <= j < k ==> fields@[j].name@ != fields@[fi as int].name@,
            decreases es@.len() - k,
        {
            if ids_equal(&es[k].id, &id) {
                proof {
                    if fields@[k as int].name@ != fields@[fi as int].name@ {
                        lemma_encode_injective(fields@[k as int].name@, fields@[fi as int].name@);
                    }
                }
                return None;
            }
            k = k + 1;
        }
        let off = round_up_u128(end, f.align as u128);
        proof {
            lemma_round_up_bounds(end as int, f.align as int);
        }
        let total = poff as u128 + off + f.size as u128;
        if total > usize::MAX as u128 {
            proof {
                lemma_fields_end_monotone(fields@, fi as int + 1, fields@.len() as int);
            }
            return None;
        }
        es.push(FieldEntry { id, offset: (poff as u128 + off) as usize, size: f.size });
        end = off + f.size as u128;
        fi = fi + 1;
    }
    proof {
        lemma_fields_end_monotone(fields@, fi as int, fields@.len() as int);
    }
    Some(es)
}

/// Derivation entry point: derive the capability entries of a
/// definition, against the canonical root namespace or a path
/// override. Succeeds exactly on well-formed definitions; a bad
/// character in a name, a repeated name, a zero alignment or a layout
/// past the end of the address space is a derivation failure.
pub fn derive_enum(def: EnumDef, root_path: Option<Vec<u8>>) -> (r: Option<DerivedEnum>)
    ensures
        match r {
            Some(d) => def_wf(def) && d.wf() && d.def == def && d.root_path == root_path,
            None => !def_wf(def),
        },
{
    let shadow = shadow_of(&def);
    proof {
        lemma_same_shape_same_layout(def, shadow);
    }
    if !check_aligns(&def) {
        return None;
    }
    let pal = variants_alignment(&shadow.variants);
    let poff128 = round_up_u128(def.tag_size as u128, pal as u128);
    if poff128 > usize::MAX as u128 {
        proof {
            lemma_max_end_nonneg(def.variants@);
        }
        return None;
    }
    let poff = poff128 as usize;
    let tags = match encode_tags(&def.variants) {
        Some(t) => t,
        None => {
            return None;
        },
    };
    let mut tbl: Vec<Vec<FieldEntry>> = Vec::new();
    let mut vi: usize = 0;
    while vi < def.variants.len()
        invariant
            vi <= def.variants@.len(),
            tbl@.len() == vi,
            aligns_ok(def),
            same_shape(def, shadow),
            shadow.variants@.len() == def.variants@.len(),
            forall|a: int, j: int|
                0 <= a < shadow.variants@.len() && 0 <= j < shadow.variants@[a].fields@.len()
                    ==> (#[trigger] shadow.variants@[a].fields@[j]).name@
                    == def.variants@[a].fields@[j].name@,
            poff as int == payload_offset(def),
            payload_offset(shadow) == payload_offset(def),
            tags@.len() == def.variants@.len(),
            forall|k: int|
                0 <= k < tags@.len() ==> (#[trigger] tags@[k]).id@ == encode_name_spec(
                    def.variants@[k].name@,
                ) && tags@[k].disc == k,
            forall|k: int|
                0 <= k < def.variants@.len() ==> valid_name((#[trigger] def.variants@[k]).name@),
            forall|a: int, b: int|
                0 <= a < b < def.variants@.len() ==> def.variants@[a].name@
                    != def.variants@[b].name@,
            forall|k: int|
                0 <= k < vi ==> {
                    &&& (#[trigger] tbl@[k])@.len() == def.variants@[k].fields@.len()
                    &&& forall|fi: int|
                        0 <= fi < tbl@[k]@.len() ==> (#[trigger] tbl@[k]@[fi]).id@
                            == encode_name_spec(def.variants@[k].fields@[fi].name@)
                            && tbl@[k]@[fi].offset == abs_field_offset(def, k, fi)
                            && tbl@[k]@[fi].size == def.variants@[k].fields@[fi].size
                    &&& forall|fi: int|
                        0 <= fi < def.variants@[k].fields@.len() ==> valid_name(
                            (#[trigger] def.variants@[k].fields@[fi]).name@,
                        )
                    &&& forall|a: int, b: int|
                        0 <= a < b < def.variants@[k].fields@.len()
                            ==> def.variants@[k].fields@[a].name@
                            != def.variants@[k].fields@[b].name@
                    &&& poff + fields_end(def.variants@[k].fields@, def.variants@[k].fields@.len() as int)
                        <= usize::MAX
                },
        decreases def.variants@.len() - vi,
    {
        let ghost def_f = def.variants@[vi as int].fields@;
        let ghost sh_f = shadow.variants@[vi as int].fields@;
        proof {
            assert(fields_same_layout(def_f, sh_f));
            lemma_fields_offsets_same(def_f, sh_f);
            assert forall|j: int| 0 <= j < sh_f.len() implies (#[trigger] sh_f[j]).align >= 1 by {
                assert(def_f[j].align == sh_f[j].align);
                assert(def.variants@[vi as int].fields@[j].align >= 1);
            }
        }
        let ventries = match variant_entries(&shadow.variants[vi].fields, poff) {
            Some(es) => es,
            None => {
                proof {
                    assert forall|j: int| 0 <= j < def_f.len() implies ((#[trigger] def_f[j]).name@
                        == sh_f[j].name@) by {}
                    if !(forall|j: int|
                        0 <= j < sh_f.len() ==> valid_name((#[trigger] sh_f[j]).name@)) {
                        let j = choose|j: int|
                            0 <= j < sh_f.len() && !valid_name(sh_f[j].name@);
                        assert(!valid_name(def_f[j].name@));
                        assert(!variant_wf(def.variants@[vi as int]));
                    } else if !(forall|a: int, b: int|
                        0 <= a < b < sh_f.len() ==> sh_f[a].name@ != sh_f[b].name@) {
                        let (a, b) = choose|a: int, b: int|
                            0 <= a < b < sh_f.len() && sh_f[a].name@ == sh_f[b].name@;
                        assert(def_f[a].name@ == def_f[b].name@);
                        assert(!variant_wf(def.variants@[vi as int]));
                    } else {
                        assert(poff + fields_end(sh_f, sh_f.len() as int) > usize::MAX);
                        assert(fields_end(def_f, def_f.len() as int) == fields_end(
                            sh_f,
                            sh_f.len() as int,
                        ));
                        crate::model::lemma_max_end_ge(def.variants@, vi as int);
                        assert(span(def) > usize::MAX);
                    }
                }
                return None;
            },
        };
        proof {
            assert forall|fi: int| 0 <= fi < ventries@.len() implies (#[trigger] ventries@[fi]).id@
                == encode_name_spec(def_f[fi].name@) && ventries@[fi].offset == abs_field_offset(
                def,
                vi as int,
                fi,
            ) && ventries@[fi].size == def_f[fi].size by {
                assert(sh_f[fi].name@ == def_f[fi].name@);
                assert(rel_field_offset(sh_f, fi) == rel_field_offset(def_f, fi));
                assert(sh_f[fi].size == def_f[fi].size);
            }
            assert forall|fi: int| 0 <= fi < def_f.len() implies valid_name(
                (#[trigger] def_f[fi]).name@,
            ) by {
                assert(valid_name(sh_f[fi].name@));
            }
            assert forall|a: int, b: int| 0 <= a < b < def_f.len() implies def_f[a].name@
                != def_f[b].name@ by {
                assert(sh_f[a].name@ != sh_f[b].name@);
            }
            assert(fields_end(def_f, def_f.len() as int) == fields_end(sh_f, sh_f.len() as int));
        }
        tbl.push(ventries);
        vi = vi + 1;
    }
    proof {
        assert forall|i: int| 0 <= i < def.variants@.len() implies fields_end(
            (#[trigger] def.variants@[i]).fields@,
            def.variants@[i].fields@.len() as int,
        ) <= usize::MAX - poff by {
            assert(tbl@[i]@.len() == def.variants@[i].fields@.len());
        }
        lemma_max_end_le(def.variants@, usize::MAX - poff);
        assert(span(def) <= usize::MAX);
        assert forall|i: int| 0 <= i < def.variants@.len() implies variant_wf(
            #[trigger] def.variants@[i],
        ) by {
            assert(tbl@[i]@.len() == def.variants@[i].fields@.len());
            assert(valid_name(def.variants@[i].name@));
        }
        assert(def_wf(def));
    }
    Some(DerivedEnum { def, root_path, tags, fields: tbl })
}

impl DerivedEnum {
    /// Checked lookup: resolve a field address only after comparing
    /// the instance's own discriminant against the discriminant of
    /// the named variant, so that a lookup against an instance of the
    /// wrong active variant fails instead of resolving to an address
    /// inside another variant's payload. The unchecked entry point
    /// stays the default; this one is additive.
    pub fn checked_addr_of(&self, inst: &EnumInstance, tag: &Vec<u8>, field: &Vec<u8>) -> (r:
        Option<usize>)
        requires
            self.wf(),
            instance_wf(self.def, *inst),
        ensures
            r == (match find_variant(self.def, tag@) {
                Some(vi) => if vi == inst.variant as int {
                    match crate::model::find_field(self.def.variants@[vi], field@) {
                        Some(fi) => Some(true_field_addr(self.def, *inst, fi) as usize),
                        None => None::<usize>,
                    }
                } else {
                    None::<usize>
                },
                None => None::<usize>,
            }),
    {
        let n = self.tags.len();
        proof {
            crate::model::lemma_find_variant_range(self.def.variants@, tag@, 0);
            assert(self.def.variants@.len() == n);
        }
        match self.discriminant(tag) {
            Some(d) => {
                if d == inspect_discriminant(inst) {
                    let r = self.addr_of(inst.base, tag, field);
                    proof {
                        match find_variant(self.def, tag@) {
                            Some(vi) => {
                                assert(vi == inst.variant as int);
                            },
                            None => {
                                assert(false);
                            },
                        }
                    }
                    r
                } else {
                    None
                }
            },
            None => None,
        }
    }
}

impl AddrOfEnum for DerivedEnum {
    open spec fn defn(&self) -> EnumDef {
        self.def
    }

    open spec fn derived_wf(&self) -> bool {
        self.wf()
    }
}

impl EnumHasTag for DerivedEnum {
    /// Discriminant lookup entry point: the opaque discriminant of
    /// the variant named `tag`, or nothing when no variant of the
    /// derived definition has that name.
    fn discriminant(&self, tag: &Vec<u8>) -> (r: Option<usize>) {
        let id = match encode_name(tag) {
            Some(id) => id,
            None => {
                proof {
                    assert forall|a: int| 0 <= a < self.def.variants@.len() implies (
                    #[trigger] self.def.variants@[a]).name@ != tag@ by {
                        assert(variant_wf(self.def.variants@[a]));
                    }
                    lemma_find_variant_absent(self.def.variants@, tag@, 0);
                }
                return None;
            },
        };
        let mut vi: usize = 0;
        while vi < self.tags.len()
            invariant
                self.wf(),
                vi <= self.tags@.len(),
                id@ == encode_name_spec(tag@),
                valid_name(tag@),
                forall|k: int| 0 <= k < vi ==> (#[trigger] self.def.variants@[k]).name@ != tag@,
            decreases self.tags@.len() - vi,
        {
            if ids_equal(&self.tags[vi].id, &id) {
                proof {
                    assert(variant_wf(self.def.variants@[vi as int]));
                    if self.def.variants@[vi as int].name@ != tag@ {
                        lemma_encode_injective(self.def.variants@[vi as int].name@, tag@);
                    }
                    lemma_find_variant_present(self.def.variants@, tag@, vi as int, 0);
                }
                return Some(self.tags[vi].disc);
            }
            proof {
                assert(variant_wf(self.def.variants@[vi as int]));
                if self.def.variants@[vi as int].name@ == tag@ {
                    assert(self.tags@[vi as int].id@ == encode_name_spec(tag@));
                }
            }
            vi = vi + 1;
        }
        proof {
            lemma_find_variant_absent(self.def.variants@, tag@, 0);
        }
        None
    }
}

impl EnumHasTagAndField for DerivedEnum {
    /// Lookup entry point: resolve (base address, variant name, field
    /// name) to the address of that field, with no inspection of a
    /// live value; nothing when the pair was not derived.
    fn addr_of(&self, ptr: usize, tag: &Vec<u8>, field: &Vec<u8>) -> (r: Option<usize>) {
        let id_t = match encode_name(tag) {
            Some(id) => id,
            None => {
                proof {
                    assert forall|a: int| 0 <= a < self.def.variants@.len() implies (
                    #[trigger] self.def.variants@[a]).name@ != tag@ by {
                        assert(variant_wf(self.def.variants@[a]));
                    }
                    lemma_find_variant_absent(self.def.variants@, tag@, 0);
                }
                return None;
            },
        };
        let id_f = match encode_name(field) {
            Some(id) => id,
            None => {
                proof {
                    crate::model::lemma_find_variant_range(self.def.variants@, tag@, 0);
                    if let Some(vi) = find_variant(self.def, tag@) {
                        assert(variant_wf(self.def.variants@[vi]));
                        assert forall|a: int|
                            0 <= a < self.def.variants@[vi].fields@.len() implies (
                        #[trigger] self.def.variants@[vi].fields@[a]).name@ != field@ by {
                            assert(valid_name(self.def.variants@[vi].fields@[a].name@));
                        }
                        lemma_find_field_absent(self.def.variants@[vi].fields@, field@, 0);
                    }
                }
                return None;
            },
        };
        let mut vi: usize = 0;
        while vi < self.tags.len()
            invariant
                self.wf(),
                ptr + span(self.def) <= usize::MAX,
                vi <= self.tags@.len(),
                id_t@ == encode_name_spec(tag@),
                valid_name(tag@),
                id_f@ == encode_name_spec(field@),
                valid_name(field@),
                forall|k: int| 0 <= k < vi ==> (#[trigger] self.def.variants@[k]).name@ != tag@,
            decreases self.tags@.len() - vi,
        {
            if ids_equal(&self.tags[vi].id, &id_t) {
                proof {
                    assert(variant_wf(self.def.variants@[vi as int]));
                    if self.def.variants@[vi as int].name@ != tag@ {
                        lemma_encode_injective(self.def.variants@[vi as int].name@, tag@);
                    }
                    lemma_find_variant_present(self.def.variants@, tag@, vi as int, 0);
                }
                let entries = &self.fields[vi];
                let mut fi: usize = 0;
                while fi < entries.len()
                    invariant
                        self.wf(),
                        ptr + span(self.def) <= usize::MAX,
                        vi < self.tags@.len(),
                        entries@ == self.fields@[vi as int]@,
                        fi <= entries@.len(),
                        id_f@ == encode_name_spec(field@),
                        valid_name(field@),
                        find_variant(self.def, tag@) == Some(vi as int),
                        forall|k: int|
                            0 <= k < fi ==> (
                            #[trigger] self.def.variants@[vi as int].fields@[k]).name@ != field@,
                    decreases entries@.len() - fi,
                {
                    if ids_equal(&entries[fi].id, &id_f) {
                        proof {
                            assert(variant_wf(self.def.variants@[vi as int]));
                            if self.def.variants@[vi as int].fields@[fi as int].name@ != field@ {
                                lemma_encode_injective(
                                    self.def.variants@[vi as int].fields@[fi as int].name@,
                                    field@,
                                );
                            }
                            lemma_find_field_present(
                                self.def.variants@[vi as int].fields@,
                                field@,
                                fi as int,
                                0,
                            );
                            lemma_offset_in_span(self.def, vi as int, fi as int);
                        }
                        return Some(ptr + entries[fi].offset);
                    }
                    proof {
                        assert(variant_wf(self.def.variants@[vi as int]));
                        if self.def.variants@[vi as int].fields@[fi as int].name@ == field@ {
                            assert(self.fields@[vi as int]@[fi as int].id@ == encode_name_spec(
                                field@,
                            ));
                        }
                    }
                    fi = fi + 1;
                }
                proof {
                    lemma_find_field_absent(self.def.variants@[vi as int].fields@, field@, 0);
                }
                return None;
            }
            proof {
                assert(variant_wf(self.def.variants@[vi as int]));
                if self.def.variants@[vi as int].name@ == tag@ {
                    assert(self.tags@[vi as int].id@ == encode_name_spec(tag@));
                }
            }
            vi = vi + 1;
        }
        proof {
            lemma_find_variant_absent(self.def.variants@, tag@, 0);
        }
        None
    }
}

} // verus!
