//! Fresh labels for newly spawned pets.
//!
//! A new pet's label is the pet prefix, a dash, and a freshly drawn
//! version-4 UUID, so that saved state from earlier sessions never
//! collides with a newly spawned pet by construction of the generator.

use vstd::prelude::*;

use crate::state::{spec_has_pet_prefix, spec_valid_label, spec_valid_label_byte};

verus! {

/// A byte that can appear in a hyphenated lowercase UUID: a decimal
/// digit, a lowercase hex letter, or a dash.
pub open spec fn spec_uuid_byte(b: u8) -> bool {
    (48 <= b <= 57) || (97 <= b <= 102) || b == 45
}

/// Relies on uuid::Uuid::new_v4 and its Display impl: a random version-4
/// UUID formatted as exactly 36 bytes of lowercase hexadecimal digits and
/// dashes.  The value is random; nothing beyond its shape is assumed.
#[verifier::external_body]
fn random_uuid_bytes() -> (r: Vec<u8>)
    ensures
        r@.len() == 36,
        forall|i: int| 0 <= i < r@.len() ==> spec_uuid_byte(#[trigger] r@[i]),
{
    uuid::Uuid::new_v4().to_string().into_bytes()
}

/// Draws a fresh pet label: the pet prefix, a dash, and a new UUID.  The
/// label is well formed and marked as a pet window's.
pub fn fresh_pet_label() -> (label: Vec<u8>)
    ensures
        label@.len() == 41,
        spec_valid_label(label@),
        spec_has_pet_prefix(label@),
{
    let mut label: Vec<u8> = Vec::new();
    label.push(102);
    label.push(114);
    label.push(111);
    label.push(103);
    label.push(45);
    let uuid = random_uuid_bytes();
    let mut k: usize = 0;
    while k < uuid.len()
        invariant
            k <= uuid@.len(),
            uuid@.len() == 36,
            forall|i: int| 0 <= i < uuid@.len() ==> spec_uuid_byte(#[trigger] uuid@[i]),
            label@.len() == 5 + k,
            forall|i: int| 0 <= i < label@.len() ==> spec_valid_label_byte(#[trigger] label@[i]),
            label@[0] == 102 && label@[1] == 114 && label@[2] == 111 && label@[3] == 103,
        decreases uuid@.len() - k,
    {
        label.push(uuid[k]);
        k += 1;
    }
    proof {
        assert(label@.subrange(0, 4) =~= crate::state::spec_pet_prefix());
    }
    label
}

} // verus!
