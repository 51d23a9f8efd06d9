//! Persisted session data: one record per pet window, and the session
//! configuration that is written to and read from disk.
//!
//! A pet window's label is kept as its bytes.  A label is well formed when
//! every byte is printable ASCII other than the quote and backslash, which
//! is what the on-disk format can carry unescaped; every label the library
//! generates is of that shape.  Positions are logical coordinates, the
//! scale-independent unit the toolkit reads and writes, kept as integers.

use vstd::prelude::*;

verus! {

/// Label prefix that marks a window as a pet window: `frog`.
pub open spec fn spec_pet_prefix() -> Seq<u8> {
    seq![102u8, 114u8, 111u8, 103u8]
}

/// Whether a label identifies a pet window: it starts with the pet prefix.
pub open spec fn spec_has_pet_prefix(label: Seq<u8>) -> bool {
    label.len() >= 4 && label.subrange(0, 4) == spec_pet_prefix()
}

/// A label byte the on-disk format can hold unescaped: printable ASCII,
/// neither `"` nor `\`.
pub open spec fn spec_valid_label_byte(b: u8) -> bool {
    0x20 <= b <= 0x7e && b != 0x22 && b != 0x5c
}

/// A well-formed label: every byte is valid.
pub open spec fn spec_valid_label(label: Seq<u8>) -> bool {
    forall|i: int| 0 <= i < label.len() ==> spec_valid_label_byte(label[i])
}

/// Mathematical value of one persisted pet window record.
pub ghost struct PetV {
    pub label: Seq<u8>,
    pub x: int,
    pub y: int,
    pub visible: bool,
}

/// A well-formed pet record: its label is well formed and its coordinates
/// fit the machine representation.
pub open spec fn spec_pet_wf(p: PetV) -> bool {
    &&& spec_valid_label(p.label)
    &&& i64::MIN <= p.x <= i64::MAX
    &&& i64::MIN <= p.y <= i64::MAX
}

/// A well-formed configuration: every record is well formed.
pub open spec fn spec_config_wf(pets: Seq<PetV>) -> bool {
    forall|i: int| 0 <= i < pets.len() ==> spec_pet_wf(#[trigger] pets[i])
}

/// Labels are unique within the configuration.
pub open spec fn spec_labels_unique(pets: Seq<PetV>) -> bool {
    forall|i: int, j: int|
        0 <= i < j < pets.len() ==> (#[trigger] pets[i]).label != (#[trigger] pets[j]).label
}

/// One persisted pet window: stable label, last known logical position,
/// last known visibility.
#[derive(Debug, PartialEq)]
pub struct PetWindowState {
    pub label: Vec<u8>,
    pub x: i64,
    pub y: i64,
    pub visible: bool,
}

impl View for PetWindowState {
    type V = PetV;

    open spec fn view(&self) -> PetV {
        PetV { label: self.label@, x: self.x as int, y: self.y as int, visible: self.visible }
    }
}

impl PetWindowState {
    /// Builds one record from its parts.
    pub fn new(label: Vec<u8>, x: i64, y: i64, visible: bool) -> (pet: PetWindowState)
        ensures
            pet@ == (PetV { label: label@, x: x as int, y: y as int, visible: visible }),
    {
        PetWindowState { label, x, y, visible }
    }
}

/// The unit persisted to and loaded from disk: the list of pet window
/// records, in snapshot order.
#[derive(Debug, PartialEq)]
pub struct SessionConfig {
    pub pets: Vec<PetWindowState>,
}

impl View for SessionConfig {
    type V = Seq<PetV>;

    open spec fn view(&self) -> Seq<PetV> {
        self.pets@.map_values(|p: PetWindowState| p@)
    }
}

impl SessionConfig {
    /// The empty configuration.
    pub fn empty() -> (config: SessionConfig)
        ensures
            config@ == Seq::<PetV>::empty(),
    {
        let config = SessionConfig { pets: Vec::new() };
        proof {
            assert(config@ =~= Seq::<PetV>::empty());
        }
        config
    }

    /// How many records the configuration holds.
    pub fn len(&self) -> (n: usize)
        ensures
            n == self@.len(),
    {
        self.pets.len()
    }
}

impl Default for SessionConfig {
    /// The default configuration is empty.
    fn default() -> (config: SessionConfig)
        ensures
            config@ == Seq::<PetV>::empty(),
    {
        SessionConfig::empty()
    }
}

/// Default logical x coordinate for a newly spawned pet.
pub const DEFAULT_PET_X: i64 = 200;

/// Default logical y coordinate for a newly spawned pet.
pub const DEFAULT_PET_Y: i64 = 200;

/// Label of the single default pet created on a first run: `frog-main`.
pub open spec fn spec_default_label() -> Seq<u8> {
    seq![102u8, 114u8, 111u8, 103u8, 45u8, 109u8, 97u8, 105u8, 110u8]
}

/// Builds the default pet label, `frog-main`.
pub fn default_label() -> (label: Vec<u8>)
    ensures
        label@ == spec_default_label(),
        spec_valid_label(label@),
        spec_has_pet_prefix(label@),
{
    let mut label: Vec<u8> = Vec::new();
    label.push(102);
    label.push(114);
    label.push(111);
    label.push(103);
    label.push(45);
    label.push(109);
    label.push(97);
    label.push(105);
    label.push(110);
    proof {
        assert(label@ =~= spec_default_label());
        assert(label@.subrange(0, 4) =~= spec_pet_prefix());
    }
    label
}

} // verus!
