use addr_of_enum::derived::derive_enum;
use addr_of_enum::ident::{encode_name, ids_equal, index_name};
use addr_of_enum::model::{inspect_discriminant, shadow_of, EnumDef, EnumInstance, FieldDef, VariantDef};
use addr_of_enum::{EnumHasTag, EnumHasTagAndField};

fn name(s: &str) -> Vec<u8> {
    s.as_bytes().to_vec()
}

fn field(n: &str, size: usize, align: usize, inhabited: bool) -> FieldDef {
    FieldDef { name: name(n), size, align, inhabited }
}

/// The definition of `enum E<T> { E1(usize, u8, u16), E2 { item1: u32, item2: T }, E3 }`
/// on a 64-bit layout with a 4-byte tag, for one instantiation of `T`.
fn enum_e(t_size: usize, t_align: usize, t_inhabited: bool) -> EnumDef {
    EnumDef {
        tag_size: 4,
        variants: vec![
            VariantDef {
                name: name("E1"),
                fields: vec![
                    FieldDef { name: index_name(0), size: 8, align: 8, inhabited: true },
                    FieldDef { name: index_name(1), size: 1, align: 1, inhabited: true },
                    FieldDef { name: index_name(2), size: 2, align: 2, inhabited: true },
                ],
            },
            VariantDef {
                name: name("E2"),
                fields: vec![field("item1", 4, 4, true), field("item2", t_size, t_align, t_inhabited)],
            },
            VariantDef { name: name("E3"), fields: vec![] },
        ],
    }
}

// The payload alignment of `enum_e` is 8, so the payload starts at
// offset 8. In E1 the fields sit at payload offsets 0, 8 and 10; in
// E2 at 0 and 4.

#[test]
fn test() {
    let d = derive_enum(enum_e(1, 1, true), None).unwrap();
    let e1: usize = 1000;
    assert_eq!(d.addr_of(e1, &name("E1"), &index_name(0)), Some(1008));
    assert_eq!(d.addr_of(e1, &name("E1"), &index_name(1)), Some(1016));
    assert_eq!(d.addr_of(e1, &name("E1"), &index_name(2)), Some(1018));
    let e2: usize = 2000;
    assert_eq!(d.addr_of(e2, &name("E2"), &name("item1")), Some(2008));
    assert_eq!(d.addr_of(e2, &name("E2"), &name("item2")), Some(2012));
    // the same lookups against the uninhabited instantiation of T
    let da = derive_enum(enum_e(0, 1, false), None).unwrap();
    let e1a: usize = 3000;
    assert_eq!(da.addr_of(e1a, &name("E1"), &index_name(0)), Some(3008));
    assert_eq!(da.addr_of(e1a, &name("E1"), &index_name(1)), Some(3016));
    assert_eq!(da.addr_of(e1a, &name("E1"), &index_name(2)), Some(3018));
    let i1 = EnumInstance { base: e1, variant: 0 };
    let i2 = EnumInstance { base: e2, variant: 1 };
    assert_eq!(Some(inspect_discriminant(&i1)), d.discriminant(&name("E1")));
    assert_eq!(Some(inspect_discriminant(&i2)), d.discriminant(&name("E2")));
}

#[test]
fn encoder_injective_prefix() {
    // "1" and "10" must get distinct identities
    let a = encode_name(&name("1")).unwrap();
    let b = encode_name(&name("10")).unwrap();
    assert!(!ids_equal(&a, &b));
    // distinct names of equal length
    let c = encode_name(&name("ab")).unwrap();
    let d = encode_name(&name("aB")).unwrap();
    assert!(!ids_equal(&c, &d));
    // the same name twice gets the same identity
    let e = encode_name(&name("ab")).unwrap();
    assert!(ids_equal(&c, &e));
}

#[test]
fn encoder_rejects_bad_characters() {
    assert!(encode_name(&name("a-b")).is_none());
    assert!(encode_name(&name("")).is_none());
    assert!(encode_name(&name("caf\u{e9}")).is_none());
    assert!(encode_name(&name("E1")).is_some());
    assert!(encode_name(&name("_0z")).is_some());
}

#[test]
fn index_names_are_decimal() {
    assert_eq!(index_name(0), name("0"));
    assert_eq!(index_name(7), name("7"));
    assert_eq!(index_name(10), name("10"));
    assert_eq!(index_name(230), name("230"));
}

#[test]
fn lookup_of_underived_names_fails() {
    let d = derive_enum(enum_e(1, 1, true), None).unwrap();
    assert_eq!(d.addr_of(1000, &name("E4"), &index_name(0)), None);
    assert_eq!(d.addr_of(1000, &name("E1"), &index_name(3)), None);
    assert_eq!(d.addr_of(1000, &name("E3"), &index_name(0)), None);
    assert_eq!(d.addr_of(1000, &name("E2"), &index_name(0)), None);
    assert_eq!(d.addr_of(1000, &name("e1"), &index_name(0)), None);
    assert_eq!(d.discriminant(&name("E4")), None);
    assert_eq!(d.discriminant(&name("not-a-name")), None);
}

#[test]
fn lookup_is_idempotent() {
    let d = derive_enum(enum_e(1, 1, true), None).unwrap();
    let first = d.addr_of(1000, &name("E2"), &name("item2"));
    let second = d.addr_of(1000, &name("E2"), &name("item2"));
    assert_eq!(first, Some(1012));
    assert_eq!(first, second);
    assert_eq!(d.discriminant(&name("E3")), d.discriminant(&name("E3")));
}

#[test]
fn discriminants_identify_variants() {
    let d = derive_enum(enum_e(1, 1, true), None).unwrap();
    let d1 = d.discriminant(&name("E1")).unwrap();
    let d2 = d.discriminant(&name("E2")).unwrap();
    let d3 = d.discriminant(&name("E3")).unwrap();
    assert_ne!(d1, d2);
    assert_ne!(d1, d3);
    assert_ne!(d2, d3);
    let a = EnumInstance { base: 16, variant: 2 };
    let b = EnumInstance { base: 4096, variant: 2 };
    assert_eq!(inspect_discriminant(&a), inspect_discriminant(&b));
    assert_eq!(Some(inspect_discriminant(&a)), d.discriminant(&name("E3")));
}

#[test]
fn checked_lookup_verifies_the_active_variant() {
    let d = derive_enum(enum_e(1, 1, true), None).unwrap();
    let e1 = EnumInstance { base: 1000, variant: 0 };
    // right variant: the same addresses as the unchecked lookup
    assert_eq!(d.checked_addr_of(&e1, &name("E1"), &index_name(0)), Some(1008));
    assert_eq!(d.checked_addr_of(&e1, &name("E1"), &index_name(2)), Some(1018));
    // wrong active variant: refused instead of resolving
    assert_eq!(d.checked_addr_of(&e1, &name("E2"), &name("item1")), None);
    // right variant, underived field
    assert_eq!(d.checked_addr_of(&e1, &name("E1"), &index_name(3)), None);
    // underived variant
    assert_eq!(d.checked_addr_of(&e1, &name("E9"), &index_name(0)), None);
}

#[test]
fn derivation_rejects_bad_definitions() {
    // a bad character in a variant name
    let bad_variant = EnumDef {
        tag_size: 4,
        variants: vec![VariantDef { name: name("E-1"), fields: vec![] }],
    };
    assert!(derive_enum(bad_variant, None).is_none());
    // a bad character in a field name
    let bad_field = EnumDef {
        tag_size: 4,
        variants: vec![VariantDef { name: name("E1"), fields: vec![field("a b", 1, 1, true)] }],
    };
    assert!(derive_enum(bad_field, None).is_none());
    // two variants of the same name
    let dup_variant = EnumDef {
        tag_size: 4,
        variants: vec![
            VariantDef { name: name("E1"), fields: vec![] },
            VariantDef { name: name("E1"), fields: vec![] },
        ],
    };
    assert!(derive_enum(dup_variant, None).is_none());
    // two fields of the same name
    let dup_field = EnumDef {
        tag_size: 4,
        variants: vec![VariantDef {
            name: name("E1"),
            fields: vec![field("x", 1, 1, true), field("x", 2, 2, true)],
        }],
    };
    assert!(derive_enum(dup_field, None).is_none());
    // a zero alignment
    let zero_align = EnumDef {
        tag_size: 4,
        variants: vec![VariantDef { name: name("E1"), fields: vec![field("x", 1, 0, true)] }],
    };
    assert!(derive_enum(zero_align, None).is_none());
    // a layout past the end of the address space
    let huge = EnumDef {
        tag_size: 4,
        variants: vec![VariantDef {
            name: name("E1"),
            fields: vec![field("x", usize::MAX, 1, true), field("y", usize::MAX, 1, true)],
        }],
    };
    assert!(derive_enum(huge, None).is_none());
}

#[test]
fn derivation_keeps_the_root_path() {
    let d = derive_enum(enum_e(1, 1, true), None).unwrap();
    assert_eq!(d.root_path, None);
    let o = derive_enum(enum_e(1, 1, true), Some(name("my_reexport"))).unwrap();
    assert_eq!(o.root_path, Some(name("my_reexport")));
}

#[test]
fn shadow_keeps_layout_and_is_constructible() {
    let def = enum_e(0, 1, false);
    let s = shadow_of(&def);
    assert_eq!(s.tag_size, def.tag_size);
    assert_eq!(s.variants.len(), def.variants.len());
    for (sv, dv) in s.variants.iter().zip(def.variants.iter()) {
        assert_eq!(sv.name, dv.name);
        assert_eq!(sv.fields.len(), dv.fields.len());
        for (sf, df) in sv.fields.iter().zip(dv.fields.iter()) {
            assert_eq!(sf.name, df.name);
            assert_eq!(sf.size, df.size);
            assert_eq!(sf.align, df.align);
            // every shadow field is constructible, inhabited or not
            assert!(sf.inhabited);
        }
    }
    // the shadow derives to the same offsets as the original
    let d = derive_enum(def, None).unwrap();
    let ds = derive_enum(shadow_of(&d.def), None).unwrap();
    assert_eq!(
        d.addr_of(512, &name("E2"), &name("item1")),
        ds.addr_of(512, &name("E2"), &name("item1"))
    );
}

#[test]
fn zero_field_and_named_variants() {
    // a definition with only a zero-field variant derives and spans
    // just its (aligned) tag
    let unit_only = EnumDef {
        tag_size: 1,
        variants: vec![VariantDef { name: name("Only"), fields: vec![] }],
    };
    let d = derive_enum(unit_only, None).unwrap();
    assert_eq!(d.discriminant(&name("Only")), Some(0));
    assert_eq!(d.addr_of(64, &name("Only"), &name("x")), None);
    // named fields with padding between them
    let named = EnumDef {
        tag_size: 1,
        variants: vec![VariantDef {
            name: name("V"),
            fields: vec![field("lo", 1, 1, true), field("hi", 4, 4, true)],
        }],
    };
    let dn = derive_enum(named, None).unwrap();
    // payload alignment 4: payload at 4; "lo" at 4, "hi" padded to 8
    assert_eq!(dn.addr_of(100, &name("V"), &name("lo")), Some(104));
    assert_eq!(dn.addr_of(100, &name("V"), &name("hi")), Some(108));
}
