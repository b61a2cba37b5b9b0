//! Identifier encoder: maps a name over the allowed alphabet
//! (ASCII letters, digits, underscore) to a compile-time identity,
//! modelled as the sequence of per-character marker codes closed by
//! an end marker. Distinct names always get distinct identities.

use vstd::prelude::*;

verus! {

/// Marker code that closes every identity, so that no identity is a
/// prefix of another (relevant for purely numeric names such as "1"
/// and "10").
pub const END_MARKER: u8 = 63;

/// A byte is allowed in a name: `A`-`Z`, `a`-`z`, `0`-`9` or `_`.
pub open spec fn allowed_byte(b: u8) -> bool {
    (65 <= b && b <= 90) || (97 <= b && b <= 122) || (48 <= b && b <= 57) || b == 95
}

/// A name is a non-empty sequence of allowed bytes.
pub open spec fn valid_name(s: Seq<u8>) -> bool {
    s.len() > 0 && forall|i: int| 0 <= i < s.len() ==> allowed_byte(#[trigger] s[i])
}

/// The marker code of one allowed byte: letters map to 0..=51,
/// digits to 52..=61, underscore to 62.
pub open spec fn marker_code(b: u8) -> u8
    recommends
        allowed_byte(b),
{
    if 65 <= b && b <= 90 {
        (b - 65) as u8
    } else if 97 <= b && b <= 122 {
        (b - 71) as u8
    } else if 48 <= b && b <= 57 {
        (b + 4) as u8
    } else {
        62u8
    }
}

/// The identity of a name: its marker codes in order, closed by the
/// end marker.
pub open spec fn encode_name_spec(s: Seq<u8>) -> Seq<u8> {
    s.map_values(|b: u8| marker_code(b)).push(END_MARKER)
}

/// The encoded identity of a name.
pub struct TypeIdentity {
    pub codes: Vec<u8>,
}

impl View for TypeIdentity {
    type V = Seq<u8>;

    open spec fn view(&self) -> Seq<u8> {
        self.codes@
    }
}

/// Two allowed bytes with the same marker code are the same byte.
pub proof fn lemma_marker_injective(b1: u8, b2: u8)
    requires
        allowed_byte(b1),
        allowed_byte(b2),
        marker_code(b1) == marker_code(b2),
    ensures
        b1 == b2,
{
}

/// Law: the encoder is injective. Distinct names over the allowed
/// alphabet always get distinct identities, prefix pairs such as "1"
/// and "10" included.
pub proof fn lemma_encode_injective(n1: Seq<u8>, n2: Seq<u8>)
    requires
        valid_name(n1),
        valid_name(n2),
        n1 != n2,
    ensures
        encode_name_spec(n1) != encode_name_spec(n2),
{
    if n1.len() == n2.len() {
        if forall|i: int| 0 <= i < n1.len() ==> n1[i] == n2[i] {
            assert(n1 =~= n2);
        }
        let i = choose|i: int| 0 <= i < n1.len() && n1[i] != n2[i];
        if marker_code(n1[i]) == marker_code(n2[i]) {
            lemma_marker_injective(n1[i], n2[i]);
        }
        assert(encode_name_spec(n1)[i] != encode_name_spec(n2)[i]);
    } else {
        assert(encode_name_spec(n1).len() != encode_name_spec(n2).len());
    }
}

/// The marker code of one byte, or `None` when the byte is outside
/// the allowed alphabet (the "bad character" failure).
pub fn marker_of(b: u8) -> (r: Option<u8>)
    ensures
        match r {
            Some(c) => allowed_byte(b) && c == marker_code(b),
            None => !allowed_byte(b),
        },
{
    if 65 <= b && b <= 90 {
        Some(b - 65)
    } else if 97 <= b && b <= 122 {
        Some(b - 71)
    } else if 48 <= b && b <= 57 {
        Some(b + 4)
    } else if b == 95 {
        Some(62)
    } else {
        None
    }
}

/// Encode a name, failing exactly on names that are empty or hold a
/// byte outside the allowed alphabet.
pub fn encode_name(name: &Vec<u8>) -> (r: Option<TypeIdentity>)
    ensures
        match r {
            Some(id) => valid_name(name@) && id@ == encode_name_spec(name@),
            None => !valid_name(name@),
        },
{
    if name.len() == 0 {
        return None;
    }
    let mut codes: Vec<u8> = Vec::new();
    let mut i: usize = 0;
    while i < name.len()
        invariant
            i <= name@.len(),
            codes@.len() == i,
            forall|j: int|
                0 <= j < i ==> allowed_byte(#[trigger] name@[j]) && codes@[j] == marker_code(
                    name@[j],
                ),
        decreases name@.len() - i,
    {
        match marker_of(name[i]) {
            Some(c) => codes.push(c),
            None => {
                return None;
            },
        }
        i = i + 1;
    }
    codes.push(END_MARKER);
    proof {
        assert(codes@ =~= encode_name_spec(name@));
    }
    Some(TypeIdentity { codes })
}

/// Compare two identities for equality of their code sequences.
pub fn ids_equal(a: &TypeIdentity, b: &TypeIdentity) -> (r: bool)
    ensures
        r == (a@ == b@),
{
    if a.codes.len() != b.codes.len() {
        return false;
    }
    let mut i: usize = 0;
    while i < a.codes.len()
        invariant
            i <= a@.len(),
            a@.len() == b@.len(),
            forall|j: int| 0 <= j < i ==> a@[j] == b@[j],
        decreases a@.len() - i,
    {
        if a.codes[i] != b.codes[i] {
            return false;
        }
        i = i + 1;
    }
    proof {
        assert(a@ =~= b@);
    }
    true
}

/// The decimal spelling of a non-negative number, used as the name
/// of a positional field.
pub open spec fn spec_decimal(n: int) -> Seq<u8>
    recommends
        n >= 0,
    decreases n,
{
    if n <= 9 {
        seq![(48 + n) as u8]
    } else {
        spec_decimal(n / 10).push((48 + n % 10) as u8)
    }
}

/// The name of the field at a positional index: its decimal spelling.
pub fn index_name(n: usize) -> (r: Vec<u8>)
    ensures
        r@ == spec_decimal(n as int),
        valid_name(r@),
    decreases n,
{
    if n <= 9 {
        let mut v: Vec<u8> = Vec::new();
        v.push(48 + (n as u8));
        v
    } else {
        let mut v = index_name(n / 10);
        v.push(48 + ((n % 10) as u8));
        assert forall|j: int| 0 <= j < v@.len() implies allowed_byte(#[trigger] v@[j]) by {
            if j < v@.len() - 1 {
                assert(allowed_byte(spec_decimal((n / 10) as int)[j]));
            }
        }
        v
    }
}

} // verus!

