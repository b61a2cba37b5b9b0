//! Compile-time-style resolution of the address of a field inside a
//! specific variant of a tagged union, modelled over explicit layout
//! data: names are encoded to injective identities, a derivation pass
//! builds one capability entry per variant and per (variant, field)
//! pair from a layout-identical shadow of the definition, and lookups
//! resolve a (base, variant, field) triple to a field address with no
//! inspection of a live value.

use vstd::prelude::*;

pub mod derived;
pub mod ident;
pub mod model;

use crate::model::{span, spec_addr_of, spec_discriminant, EnumDef};

verus! {

/// A tagged union that went through the derivation pass: it carries a
/// well-formed definition against which names can be resolved.
pub trait AddrOfEnum {
    /// The tagged-union definition the capabilities were derived for.
    spec fn defn(&self) -> EnumDef;

    /// The derivation invariant holds.
    spec fn derived_wf(&self) -> bool;
}

/// Capability: the tagged union has a variant of a given name, and
/// that variant's discriminant can be obtained from the name alone,
/// without constructing an instance.
pub trait EnumHasTag: AddrOfEnum {
    /// The opaque discriminant of the variant named `tag`: equal for
    /// the same variant, different for different variants, and
    /// nothing when no variant of the definition has that name.
    fn discriminant(&self, tag: &Vec<u8>) -> (r: Option<usize>)
        requires
            self.derived_wf(),
        ensures
            r == spec_discriminant(self.defn(), tag@),
    ;
}

/// Capability: the tagged union has a variant of a given name with a
/// field of a given name, and the field's address can be computed
/// from a base address with no runtime branch on the tag. The caller
/// is responsible for the instance at `ptr` actually being of that
/// variant; the resolved address is only a field address under that
/// assumption.
pub trait EnumHasTagAndField: EnumHasTag {
    /// Resolve (base address, variant name, field name) to the
    /// address of that field, or nothing when the variant or the
    /// field was not derived.
    fn addr_of(&self, ptr: usize, tag: &Vec<u8>, field: &Vec<u8>) -> (r: Option<usize>)
        requires
            self.derived_wf(),
            ptr + span(self.defn()) <= usize::MAX,
        ensures
            (match spec_addr_of(self.defn(), tag@, field@, ptr as int) {
                Some(a) => r == Some(a as usize),
                None => r == None::<usize>,
            }),
    ;
}

} // verus!
