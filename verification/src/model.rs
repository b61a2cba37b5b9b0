//! The tagged-union definition model and its layout: a definition is
//! a list of variants, each a list of fields, each field carrying the
//! size and alignment of its payload type. The layout places a tag of
//! `tag_size` bytes first, then the payload, aligned to the largest
//! field alignment; within a variant the fields sit at increasing
//! aligned offsets. Offsets are byte displacements from the start of
//! an instance and are valid for every instance of the variant.

use vstd::arithmetic::div_mod::{lemma_fundamental_div_mod, lemma_mod_division_less_than_divisor};
use vstd::prelude::*;
use crate::ident::valid_name;

verus! {

/// One field of a variant: its name (a positional index is spelled
/// in decimal) and the size, alignment and inhabitedness of its
/// declared payload type.
pub struct FieldDef {
    pub name: Vec<u8>,
    pub size: usize,
    pub align: usize,
    pub inhabited: bool,
}

/// One variant: its name and its fields in declaration order.
pub struct VariantDef {
    pub name: Vec<u8>,
    pub fields: Vec<FieldDef>,
}

/// A tagged-union definition: the size of its tag and its variants in
/// declaration order.
pub struct EnumDef {
    pub tag_size: usize,
    pub variants: Vec<VariantDef>,
}

/// Round `x` up to the next multiple of `a`.
pub open spec fn round_up(x: int, a: int) -> int
    recommends
        a >= 1,
{
    ((x + a - 1) / a) * a
}

/// The largest field alignment among `fields`, at least 1.
pub open spec fn fields_align(fields: Seq<FieldDef>) -> int
    decreases fields.len(),
{
    if fields.len() == 0 {
        1
    } else {
        let rest = fields_align(fields.drop_last());
        let a = fields.last().align as int;
        if a > rest {
            a
        } else {
            rest
        }
    }
}

/// The largest field alignment among all variants, at least 1: the
/// alignment of the payload area.
pub open spec fn variants_align(vs: Seq<VariantDef>) -> int
    decreases vs.len(),
{
    if vs.len() == 0 {
        1
    } else {
        let rest = variants_align(vs.drop_last());
        let a = fields_align(vs.last().fields@);
        if a > rest {
            a
        } else {
            rest
        }
    }
}

/// Where the payload area starts: the tag size rounded up to the
/// payload alignment.
pub open spec fn payload_offset(def: EnumDef) -> int {
    round_up(def.tag_size as int, variants_align(def.variants@))
}

/// The end, relative to the payload start, of the first `n` fields of
/// a variant laid out in order at aligned offsets.
pub open spec fn fields_end(fields: Seq<FieldDef>, n: int) -> int
    decreases n,
{
    if n <= 0 {
        0
    } else {
        round_up(fields_end(fields, n - 1), fields[n - 1].align as int) + fields[n - 1].size as int
    }
}

/// The offset, relative to the payload start, of field `i` of a
/// variant: the end of the fields before it, rounded up to its
/// alignment.
pub open spec fn rel_field_offset(fields: Seq<FieldDef>, i: int) -> int {
    round_up(fields_end(fields, i), fields[i].align as int)
}

/// The byte offset of field `fi` of variant `vi` from the start of an
/// instance of the definition.
pub open spec fn abs_field_offset(def: EnumDef, vi: int, fi: int) -> int {
    payload_offset(def) + rel_field_offset(def.variants@[vi].fields@, fi)
}

/// The largest payload end among the variants.
pub open spec fn max_end(vs: Seq<VariantDef>) -> int
    decreases vs.len(),
{
    if vs.len() == 0 {
        0
    } else {
        let rest = max_end(vs.drop_last());
        let e = fields_end(vs.last().fields@, vs.last().fields@.len() as int);
        if e > rest {
            e
        } else {
            rest
        }
    }
}

/// The number of bytes an instance spans: payload offset plus the
/// largest variant payload end.
pub open spec fn span(def: EnumDef) -> int {
    payload_offset(def) + max_end(def.variants@)
}

/// Every field alignment of the definition is at least 1.
pub open spec fn aligns_ok(def: EnumDef) -> bool {
    forall|vi: int, fi: int|
        0 <= vi < def.variants@.len() && 0 <= fi < def.variants@[vi].fields@.len()
            ==> (#[trigger] def.variants@[vi].fields@[fi]).align >= 1
}

/// One variant is well formed: a valid name, fields with valid and
/// pairwise distinct names.
pub open spec fn variant_wf(v: VariantDef) -> bool {
    &&& valid_name(v.name@)
    &&& forall|i: int| 0 <= i < v.fields@.len() ==> valid_name((#[trigger] v.fields@[i]).name@)
    &&& forall|i: int, j: int|
        0 <= i < j < v.fields@.len() ==> v.fields@[i].name@ != v.fields@[j].name@
}

/// A definition is well formed: well-formed variants with pairwise
/// distinct names, positive alignments, and a layout that fits in the
/// address space.
pub open spec fn def_wf(def: EnumDef) -> bool {
    &&& forall|i: int| 0 <= i < def.variants@.len() ==> variant_wf(#[trigger] def.variants@[i])
    &&& forall|i: int, j: int|
        0 <= i < j < def.variants@.len() ==> def.variants@[i].name@ != def.variants@[j].name@
    &&& aligns_ok(def)
    &&& span(def) <= usize::MAX
}

/// The first variant at or after position `i` whose name is `tag`.
pub open spec fn find_variant_from(vs: Seq<VariantDef>, tag: Seq<u8>, i: int) -> Option<int>
    decreases vs.len() - i,
{
    if i < 0 || i >= vs.len() {
        None
    } else if vs[i].name@ == tag {
        Some(i)
    } else {
        find_variant_from(vs, tag, i + 1)
    }
}

/// The position of the variant named `tag`, if any.
pub open spec fn find_variant(def: EnumDef, tag: Seq<u8>) -> Option<int> {
    find_variant_from(def.variants@, tag, 0)
}

/// The first field at or after position `i` whose name is `name`.
pub open spec fn find_field_from(fields: Seq<FieldDef>, name: Seq<u8>, i: int) -> Option<int>
    decreases fields.len() - i,
{
    if i < 0 || i >= fields.len() {
        None
    } else if fields[i].name@ == name {
        Some(i)
    } else {
        find_field_from(fields, name, i + 1)
    }
}

/// The position of the field named `name` in a variant, if any.
pub open spec fn find_field(v: VariantDef, name: Seq<u8>) -> Option<int> {
    find_field_from(v.fields@, name, 0)
}

/// What a discriminant lookup resolves to: the position of the named
/// variant, or nothing when no variant has that name.
pub open spec fn spec_discriminant(def: EnumDef, tag: Seq<u8>) -> Option<usize> {
    match find_variant(def, tag) {
        Some(vi) => Some(vi as usize),
        None => None,
    }
}

/// What a field lookup resolves to: the base address advanced by the
/// field's offset, or nothing when the variant or the field does not
/// exist (the "no such capability" failure).
pub open spec fn spec_addr_of(def: EnumDef, tag: Seq<u8>, field: Seq<u8>, ptr: int) -> Option<
    int,
> {
    match find_variant(def, tag) {
        Some(vi) => match find_field(def.variants@[vi], field) {
            Some(fi) => Some(ptr + abs_field_offset(def, vi, fi)),
            None => None,
        },
        None => None,
    }
}

/// Rounding up to a positive alignment moves an address forward by
/// less than one alignment unit.
pub proof fn lemma_round_up_bounds(x: int, a: int)
    requires
        0 <= x,
        1 <= a,
    ensures
        x <= round_up(x, a) < x + a,
{
    let s = x + a - 1;
    lemma_fundamental_div_mod(s, a);
    lemma_mod_division_less_than_divisor(s, a);
    vstd::arithmetic::mul::lemma_mul_is_commutative(s / a, a);
    assert(round_up(x, a) == s - s % a);
}

/// Field ends are non-negative and grow with the number of fields.
pub proof fn lemma_fields_end_monotone(fields: Seq<FieldDef>, m: int, n: int)
    requires
        0 <= m <= n <= fields.len(),
        forall|j: int| 0 <= j < fields.len() ==> (#[trigger] fields[j]).align >= 1,
    ensures
        0 <= fields_end(fields, m) <= fields_end(fields, n),
    decreases n,
{
    if n == 0 {
    } else if m == n {
        lemma_fields_end_monotone(fields, n - 1, n - 1);
        lemma_round_up_bounds(fields_end(fields, n - 1), fields[n - 1].align as int);
    } else {
        lemma_fields_end_monotone(fields, m, n - 1);
        lemma_round_up_bounds(fields_end(fields, n - 1), fields[n - 1].align as int);
    }
}

/// A field's offset sits between the end of the fields before it and
/// the end of the whole variant payload.
pub proof fn lemma_field_offset_bounds(fields: Seq<FieldDef>, i: int)
    requires
        0 <= i < fields.len(),
        forall|j: int| 0 <= j < fields.len() ==> (#[trigger] fields[j]).align >= 1,
    ensures
        0 <= fields_end(fields, i) <= rel_field_offset(fields, i),
        rel_field_offset(fields, i) + fields[i].size == fields_end(fields, i + 1),
        fields_end(fields, i + 1) <= fields_end(fields, fields.len() as int),
{
    lemma_fields_end_monotone(fields, 0, i);
    lemma_round_up_bounds(fields_end(fields, i), fields[i].align as int);
    lemma_fields_end_monotone(fields, i + 1, fields.len() as int);
}

/// The payload end of each variant is at most the largest payload
/// end.
pub proof fn lemma_max_end_ge(vs: Seq<VariantDef>, i: int)
    requires
        0 <= i < vs.len(),
    ensures
        fields_end(vs[i].fields@, vs[i].fields@.len() as int) <= max_end(vs),
    decreases vs.len(),
{
    if i == vs.len() - 1 {
        assert(vs.last() == vs[i]);
    } else {
        lemma_max_end_ge(vs.drop_last(), i);
        assert(vs.drop_last()[i] == vs[i]);
    }
}

/// The largest payload end is non-negative when every alignment is
/// positive.
pub proof fn lemma_max_end_nonneg(vs: Seq<VariantDef>)
    requires
        forall|vi: int, fi: int|
            0 <= vi < vs.len() && 0 <= fi < vs[vi].fields@.len()
                ==> (#[trigger] vs[vi].fields@[fi]).align >= 1,
    ensures
        max_end(vs) >= 0,
    decreases vs.len(),
{
    if vs.len() > 0 {
        assert forall|vi: int, fi: int|
            0 <= vi < vs.drop_last().len() && 0 <= fi
                < vs.drop_last()[vi].fields@.len() implies (#[trigger] vs.drop_last()[vi].fields@[fi]).align
            >= 1 by {
            assert(vs.drop_last()[vi] == vs[vi]);
        }
        lemma_max_end_nonneg(vs.drop_last());
        assert(vs.last() == vs[vs.len() - 1]);
        lemma_fields_end_monotone(
            vs.last().fields@,
            0,
            vs.last().fields@.len() as int,
        );
    }
}

/// When every variant's payload end is at most `c`, so is the largest.
pub proof fn lemma_max_end_le(vs: Seq<VariantDef>, c: int)
    requires
        0 <= c,
        forall|i: int|
            0 <= i < vs.len() ==> fields_end(
                (#[trigger] vs[i]).fields@,
                vs[i].fields@.len() as int,
            ) <= c,
    ensures
        max_end(vs) <= c,
    decreases vs.len(),
{
    if vs.len() > 0 {
        assert forall|i: int| 0 <= i < vs.drop_last().len() implies fields_end(
            (#[trigger] vs.drop_last()[i]).fields@,
            vs.drop_last()[i].fields@.len() as int,
        ) <= c by {
            assert(vs.drop_last()[i] == vs[i]);
        }
        lemma_max_end_le(vs.drop_last(), c);
        assert(vs.last() == vs[vs.len() - 1]);
    }
}

/// Two field lists with the same layout place every field at the same
/// offset and end at the same place.
pub proof fn lemma_fields_offsets_same(f1: Seq<FieldDef>, f2: Seq<FieldDef>)
    requires
        fields_same_layout(f1, f2),
    ensures
        forall|fi: int|
            0 <= fi < f1.len() ==> #[trigger] rel_field_offset(f1, fi) == rel_field_offset(
                f2,
                fi,
            ),
        fields_end(f1, f1.len() as int) == fields_end(f2, f2.len() as int),
{
    assert forall|fi: int| 0 <= fi < f1.len() implies #[trigger] rel_field_offset(f1, fi)
        == rel_field_offset(f2, fi) by {
        lemma_fields_end_same(f1, f2, fi);
    }
    lemma_fields_end_same(f1, f2, f1.len() as int);
}

/// The payload alignment of a definition is at least 1.
pub proof fn lemma_variants_align_pos(vs: Seq<VariantDef>)
    ensures
        1 <= variants_align(vs),
    decreases vs.len(),
{
    if vs.len() > 0 {
        lemma_variants_align_pos(vs.drop_last());
    }
}

/// Two field lists agree in length and, field by field, in size and
/// alignment.
pub open spec fn fields_same_layout(f1: Seq<FieldDef>, f2: Seq<FieldDef>) -> bool {
    &&& f1.len() == f2.len()
    &&& forall|j: int|
        0 <= j < f1.len() ==> (#[trigger] f1[j]).size == f2[j].size && f1[j].align == f2[j].align
}

/// Two definitions agree in tag size, variant count and, field by
/// field, in every size and alignment.
pub open spec fn same_shape(d1: EnumDef, d2: EnumDef) -> bool {
    &&& d1.tag_size == d2.tag_size
    &&& d1.variants@.len() == d2.variants@.len()
    &&& forall|vi: int|
        0 <= vi < d1.variants@.len() ==> fields_same_layout(
            (#[trigger] d1.variants@[vi]).fields@,
            d2.variants@[vi].fields@,
        )
}

proof fn lemma_fields_align_same(f1: Seq<FieldDef>, f2: Seq<FieldDef>)
    requires
        fields_same_layout(f1, f2),
    ensures
        fields_align(f1) == fields_align(f2),
    decreases f1.len(),
{
    if f1.len() > 0 {
        assert forall|j: int| 0 <= j < f1.drop_last().len() implies (#[trigger] f1.drop_last()[j]).size
            == f2.drop_last()[j].size && f1.drop_last()[j].align == f2.drop_last()[j].align by {
            assert(f1.drop_last()[j] == f1[j]);
            assert(f2.drop_last()[j] == f2[j]);
        }
        lemma_fields_align_same(f1.drop_last(), f2.drop_last());
        assert(f1.last() == f1[f1.len() - 1]);
        assert(f2.last() == f2[f2.len() - 1]);
    }
}

proof fn lemma_fields_end_same(f1: Seq<FieldDef>, f2: Seq<FieldDef>, n: int)
    requires
        fields_same_layout(f1, f2),
        0 <= n <= f1.len(),
    ensures
        fields_end(f1, n) == fields_end(f2, n),
    decreases n,
{
    if n > 0 {
        lemma_fields_end_same(f1, f2, n - 1);
    }
}

proof fn lemma_variants_align_same(v1: Seq<VariantDef>, v2: Seq<VariantDef>)
    requires
        v1.len() == v2.len(),
        forall|vi: int|
            0 <= vi < v1.len() ==> fields_same_layout((#[trigger] v1[vi]).fields@, v2[vi].fields@),
    ensures
        variants_align(v1) == variants_align(v2),
    decreases v1.len(),
{
    if v1.len() > 0 {
        assert forall|vi: int| 0 <= vi < v1.drop_last().len() implies fields_same_layout(
            (#[trigger] v1.drop_last()[vi]).fields@,
            v2.drop_last()[vi].fields@,
        ) by {
            assert(v1.drop_last()[vi] == v1[vi]);
            assert(v2.drop_last()[vi] == v2[vi]);
        }
        lemma_variants_align_same(v1.drop_last(), v2.drop_last());
        assert(v1.last() == v1[v1.len() - 1]);
        assert(v2.last() == v2[v2.len() - 1]);
        lemma_fields_align_same(v1.last().fields@, v2.last().fields@);
    }
}

proof fn lemma_max_end_same(v1: Seq<VariantDef>, v2: Seq<VariantDef>)
    requires
        v1.len() == v2.len(),
        forall|vi: int|
            0 <= vi < v1.len() ==> fields_same_layout((#[trigger] v1[vi]).fields@, v2[vi].fields@),
    ensures
        max_end(v1) == max_end(v2),
    decreases v1.len(),
{
    if v1.len() > 0 {
        assert forall|vi: int| 0 <= vi < v1.drop_last().len() implies fields_same_layout(
            (#[trigger] v1.drop_last()[vi]).fields@,
            v2.drop_last()[vi].fields@,
        ) by {
            assert(v1.drop_last()[vi] == v1[vi]);
            assert(v2.drop_last()[vi] == v2[vi]);
        }
        lemma_max_end_same(v1.drop_last(), v2.drop_last());
        assert(v1.last() == v1[v1.len() - 1]);
        assert(v2.last() == v2[v2.len() - 1]);
        lemma_fields_end_same(v1.last().fields@, v2.last().fields@, v1.last().fields@.len() as int);
    }
}

/// Law: the layout depends on the shape alone. Two definitions that
/// agree in tag size and in every field's size and alignment have the
/// same payload offset, the same span and the same field offsets,
/// whatever their names and whether or not their field types are
/// inhabited. In particular the shadow of a definition, whose fields
/// are always-constructible wrappers, yields offsets valid for the
/// original.
pub proof fn lemma_same_shape_same_layout(d1: EnumDef, d2: EnumDef)
    requires
        same_shape(d1, d2),
    ensures
        payload_offset(d1) == payload_offset(d2),
        span(d1) == span(d2),
        forall|vi: int, fi: int|
            0 <= vi < d1.variants@.len() && 0 <= fi < d1.variants@[vi].fields@.len()
                ==> abs_field_offset(d1, vi, fi) == #[trigger] abs_field_offset(d2, vi, fi),
{
    lemma_variants_align_same(d1.variants@, d2.variants@);
    lemma_max_end_same(d1.variants@, d2.variants@);
    assert forall|vi: int, fi: int|
        0 <= vi < d1.variants@.len() && 0 <= fi < d1.variants@[vi].fields@.len()
            implies abs_field_offset(d1, vi, fi) == #[trigger] abs_field_offset(d2, vi, fi) by {
        lemma_fields_end_same(d1.variants@[vi].fields@, d2.variants@[vi].fields@, fi);
    }
}

/// A variant can be constructed without a real value of any
/// uninhabited type: every field's type is inhabited.
pub open spec fn variant_constructible(v: VariantDef) -> bool {
    forall|i: int| 0 <= i < v.fields@.len() ==> (#[trigger] v.fields@[i]).inhabited
}

fn copy_name(v: &Vec<u8>) -> (r: Vec<u8>)
    ensures
        r@ == v@,
{
    let mut r: Vec<u8> = Vec::new();
    let mut i: usize = 0;
    while i < v.len()
        invariant
            i <= v@.len(),
            r@ == v@.subrange(0, i as int),
        decreases v@.len() - i,
    {
        r.push(v[i]);
        proof {
            assert(r@ =~= v@.subrange(0, i + 1 as int));
        }
        i = i + 1;
    }
    proof {
        assert(v@.subrange(0, v@.len() as int) =~= v@);
    }
    r
}

fn shadow_fields(fields: &Vec<FieldDef>) -> (r: Vec<FieldDef>)
    ensures
        fields_same_layout(fields@, r@),
        r@.len() == fields@.len(),
        forall|j: int|
            0 <= j < r@.len() ==> (#[trigger] r@[j]).name@ == fields@[j].name@ && r@[j].inhabited,
{
    let mut r: Vec<FieldDef> = Vec::new();
    let mut i: usize = 0;
    while i < fields.len()
        invariant
            i <= fields@.len(),
            r@.len() == i,
            forall|j: int|
                0 <= j < i ==> (#[trigger] r@[j]).name@ == fields@[j].name@ && r@[j].size
                    == fields@[j].size && r@[j].align == fields@[j].align && r@[j].inhabited,
        decreases fields@.len() - i,
    {
        let f = &fields[i];
        r.push(
            FieldDef { name: copy_name(&f.name), size: f.size, align: f.align, inhabited: true },
        );
        i = i + 1;
    }
    r
}

/// Shadow-layout deriver: a twin of the definition where every field
/// type is replaced by an always-constructible wrapper of the same
/// size and alignment. The twin keeps every name and every offset of
/// the original, and each of its variants can be built without a real
/// value of any field type.
pub fn shadow_of(def: &EnumDef) -> (r: EnumDef)
    ensures
        same_shape(*def, r),
        r.variants@.len() == def.variants@.len(),
        forall|vi: int|
            0 <= vi < r.variants@.len() ==> (#[trigger] r.variants@[vi]).name@
                == def.variants@[vi].name@,
        forall|vi: int, j: int|
            0 <= vi < r.variants@.len() && 0 <= j < r.variants@[vi].fields@.len()
                ==> (#[trigger] r.variants@[vi].fields@[j]).name@
                == def.variants@[vi].fields@[j].name@,
        forall|vi: int|
            0 <= vi < r.variants@.len() ==> variant_constructible(#[trigger] r.variants@[vi]),
{
    let mut vs: Vec<VariantDef> = Vec::new();
    let mut i: usize = 0;
    while i < def.variants.len()
        invariant
            i <= def.variants@.len(),
            vs@.len() == i,
            forall|vi: int|
                0 <= vi < i ==> (#[trigger] vs@[vi]).name@ == def.variants@[vi].name@
                    && fields_same_layout(def.variants@[vi].fields@, vs@[vi].fields@)
                    && variant_constructible(vs@[vi]) && (forall|j: int|
                    0 <= j < vs@[vi].fields@.len() ==> (#[trigger] vs@[vi].fields@[j]).name@
                        == def.variants@[vi].fields@[j].name@),
        decreases def.variants@.len() - i,
    {
        let v = &def.variants[i];
        vs.push(VariantDef { name: copy_name(&v.name), fields: shadow_fields(&v.fields) });
        i = i + 1;
    }
    EnumDef { tag_size: def.tag_size, variants: vs }
}

/// An instance of a tagged union for the purpose of the laws: where
/// it sits in memory and which variant it was constructed as.
pub struct EnumInstance {
    pub base: usize,
    pub variant: usize,
}

/// The instance is one of the definition's variants and fits in the
/// address space.
pub open spec fn instance_wf(def: EnumDef, inst: EnumInstance) -> bool {
    inst.variant < def.variants@.len() && inst.base + span(def) <= usize::MAX
}

/// The true address of field `fi` of an instance: its base advanced
/// by the field's offset in the variant the instance was constructed
/// as.
pub open spec fn true_field_addr(def: EnumDef, inst: EnumInstance, fi: int) -> int {
    inst.base + abs_field_offset(def, inst.variant as int, fi)
}

/// Runtime inspection of an instance's discriminant: which variant it
/// was constructed as.
pub fn inspect_discriminant(inst: &EnumInstance) -> (r: usize)
    ensures
        r == inst.variant,
{
    inst.variant
}

/// A successful variant search returns a position in range whose name
/// is the searched one.
pub proof fn lemma_find_variant_range(vs: Seq<VariantDef>, tag: Seq<u8>, i: int)
    requires
        0 <= i,
    ensures
        match find_variant_from(vs, tag, i) {
            Some(v) => i <= v < vs.len() && vs[v].name@ == tag,
            None => true,
        },
    decreases vs.len() - i,
{
    if i < vs.len() && vs[i].name@ != tag {
        lemma_find_variant_range(vs, tag, i + 1);
    }
}

/// When the variants' names are pairwise distinct, searching for the
/// name of variant `vi` finds exactly `vi`.
pub proof fn lemma_find_variant_present(vs: Seq<VariantDef>, tag: Seq<u8>, vi: int, i: int)
    requires
        0 <= i <= vi < vs.len(),
        vs[vi].name@ == tag,
        forall|a: int, b: int| 0 <= a < b < vs.len() ==> vs[a].name@ != vs[b].name@,
    ensures
        find_variant_from(vs, tag, i) == Some(vi),
    decreases vi - i,
{
    if i < vi {
        assert(vs[i].name@ != vs[vi].name@);
        lemma_find_variant_present(vs, tag, vi, i + 1);
    }
}

/// When no variant has the searched name, the search fails.
pub proof fn lemma_find_variant_absent(vs: Seq<VariantDef>, tag: Seq<u8>, i: int)
    requires
        0 <= i <= vs.len(),
        forall|a: int| 0 <= a < vs.len() ==> (#[trigger] vs[a]).name@ != tag,
    ensures
        find_variant_from(vs, tag, i) == None::<int>,
    decreases vs.len() - i,
{
    if i < vs.len() {
        lemma_find_variant_absent(vs, tag, i + 1);
    }
}

/// When the fields' names are pairwise distinct, searching for the
/// name of field `fi` finds exactly `fi`.
pub proof fn lemma_find_field_present(fields: Seq<FieldDef>, name: Seq<u8>, fi: int, i: int)
    requires
        0 <= i <= fi < fields.len(),
        fields[fi].name@ == name,
        forall|a: int, b: int| 0 <= a < b < fields.len() ==> fields[a].name@ != fields[b].name@,
    ensures
        find_field_from(fields, name, i) == Some(fi),
    decreases fi - i,
{
    if i < fi {
        assert(fields[i].name@ != fields[fi].name@);
        lemma_find_field_present(fields, name, fi, i + 1);
    }
}

/// When no field has the searched name, the search fails.
pub proof fn lemma_find_field_absent(fields: Seq<FieldDef>, name: Seq<u8>, i: int)
    requires
        0 <= i <= fields.len(),
        forall|a: int| 0 <= a < fields.len() ==> (#[trigger] fields[a]).name@ != name,
    ensures
        find_field_from(fields, name, i) == None::<int>,
    decreases fields.len() - i,
{
    if i < fields.len() {
        lemma_find_field_absent(fields, name, i + 1);
    }
}

/// Law: for an instance constructed as a variant, the lookup of that
/// variant's name and any of its fields' names resolves to the true
/// address of that field.
pub proof fn lemma_lookup_matches_true_address(def: EnumDef, inst: EnumInstance, fi: int)
    requires
        def_wf(def),
        instance_wf(def, inst),
        0 <= fi < def.variants@[inst.variant as int].fields@.len(),
    ensures
        spec_addr_of(
            def,
            def.variants@[inst.variant as int].name@,
            def.variants@[inst.variant as int].fields@[fi].name@,
            inst.base as int,
        ) == Some(true_field_addr(def, inst, fi)),
{
    let vi = inst.variant as int;
    lemma_find_variant_present(def.variants@, def.variants@[vi].name@, vi, 0);
    assert(variant_wf(def.variants@[vi]));
    lemma_find_field_present(
        def.variants@[vi].fields@,
        def.variants@[vi].fields@[fi].name@,
        fi,
        0,
    );
}

/// Law: the discriminant lookup for a variant's name equals the
/// runtime-inspected discriminant of every instance constructed as
/// that variant, so two instances of the same variant agree; and the
/// lookups for two distinct variants differ.
pub proof fn lemma_discriminant_agreement(def: EnumDef, a: EnumInstance, b: EnumInstance)
    requires
        def_wf(def),
        a.variant < def.variants@.len(),
        b.variant < def.variants@.len(),
    ensures
        spec_discriminant(def, def.variants@[a.variant as int].name@) == Some(a.variant),
        spec_discriminant(def, def.variants@[b.variant as int].name@) == Some(b.variant),
        a.variant != b.variant ==> spec_discriminant(def, def.variants@[a.variant as int].name@)
            != spec_discriminant(def, def.variants@[b.variant as int].name@),
{
    lemma_find_variant_present(def.variants@, def.variants@[a.variant as int].name@, a.variant as int, 0);
    lemma_find_variant_present(def.variants@, def.variants@[b.variant as int].name@, b.variant as int, 0);
}

/// Law: lookup is idempotent. Any two results of resolving the same
/// definition, variant name, field name and base address are the same
/// address.
pub proof fn lemma_lookup_idempotent(
    def: EnumDef,
    tag: Seq<u8>,
    field: Seq<u8>,
    ptr: int,
    r1: Option<int>,
    r2: Option<int>,
)
    requires
        r1 == spec_addr_of(def, tag, field, ptr),
        r2 == spec_addr_of(def, tag, field, ptr),
    ensures
        r1 == r2,
{
}

/// Every field of a well-aligned definition lies, together with its
/// size, inside the instance's span.
pub proof fn lemma_offset_in_span(def: EnumDef, vi: int, fi: int)
    requires
        aligns_ok(def),
        0 <= vi < def.variants@.len(),
        0 <= fi < def.variants@[vi].fields@.len(),
    ensures
        payload_offset(def) <= abs_field_offset(def, vi, fi),
        abs_field_offset(def, vi, fi) + def.variants@[vi].fields@[fi].size <= span(def),
        0 <= payload_offset(def),
{
    let fields = def.variants@[vi].fields@;
    lemma_variants_align_pos(def.variants@);
    lemma_round_up_bounds(def.tag_size as int, variants_align(def.variants@));
    lemma_field_offset_bounds(fields, fi);
    lemma_max_end_ge(def.variants@, vi);
}

} // verus!

