//! Application slots and the state the bootloader keeps for the image in each of them.

use vstd::prelude::*;

verus! {

/// The application slot that the OTA-data partition selects for booting.
#[derive(Clone, Copy, Debug, PartialEq, Eq, Structural)]
pub enum Slot {
    /// Nothing has been selected: the factory image is booted if there is one, otherwise the
    /// image in the first slot.
    Unselected,
    /// The first slot.
    Slot0,
    /// The second slot.
    Slot1,
}

impl Slot {
    /// The slot that takes the next image: the two slots alternate, beginning with the first.
    pub open spec fn following(self) -> Slot {
        match self {
            Slot::Slot0 => Slot::Slot1,
            Slot::Unselected | Slot::Slot1 => Slot::Slot0,
        }
    }

    /// The slot that takes the next image.
    pub fn next(self) -> (slot: Slot)
        ensures
            slot == self.following(),
    {
        following_slot(self)
    }
}

/// Calls `esp_bootloader_esp_idf::ota::Slot::next`, of which it is claimed that no slot and the
/// second slot are followed by the first slot, and the first slot by the second.
#[verifier::external_body]
fn following_slot(slot: Slot) -> (next: Slot)
    ensures
        next == slot.following(),
{
    let outside = match slot {
        Slot::Unselected => esp_bootloader_esp_idf::ota::Slot::None,
        Slot::Slot0 => esp_bootloader_esp_idf::ota::Slot::Slot0,
        Slot::Slot1 => esp_bootloader_esp_idf::ota::Slot::Slot1,
    };
    match outside.next() {
        esp_bootloader_esp_idf::ota::Slot::None => Slot::Unselected,
        esp_bootloader_esp_idf::ota::Slot::Slot0 => Slot::Slot0,
        esp_bootloader_esp_idf::ota::Slot::Slot1 => Slot::Slot1,
    }
}

/// What the bootloader knows of the image in the selected slot.
#[derive(Clone, Copy, Debug, PartialEq, Eq, Structural)]
pub enum ImageState {
    /// Just installed, not booted yet.
    New,
    /// Booted for the first time, waiting to be confirmed.
    PendingVerify,
    /// Confirmed to work.
    Valid,
    /// Found not to work.
    Invalid,
    /// Not confirmed during its first boot.
    Aborted,
    /// Nothing is known.
    Undefined,
}

impl ImageState {
    /// Whether an image in this state still has to be confirmed.
    pub open spec fn is_unconfirmed(self) -> bool {
        self is New || self is PendingVerify
    }

    /// Whether an image in this state still has to be confirmed.
    pub fn unconfirmed(self) -> (unconfirmed: bool)
        ensures
            unconfirmed == self.is_unconfirmed(),
    {
        match self {
            ImageState::New | ImageState::PendingVerify => true,
            _ => false,
        }
    }
}

/// The slot after a slot is always one of the two, never the slot itself, and from then on the
/// two slots alternate.
pub proof fn lemma_slots_alternate(slot: Slot)
    ensures
        slot.following() != Slot::Unselected,
        slot.following() != slot,
        slot.following().following().following() == slot.following(),
        slot != Slot::Unselected ==> slot.following().following() == slot,
{
}

/// No selection and the second slot are followed by the first slot, and the first slot by the
/// second.
pub proof fn lemma_following_slots(slot: Slot)
    ensures
        slot.following() == Slot::Slot1 <==> slot == Slot::Slot0,
        slot.following() == Slot::Slot0 <==> slot != Slot::Slot0,
{
}

/// An image is still to be confirmed where it is new or pending, and in no other state.
pub proof fn lemma_unconfirmed_states(state: ImageState)
    ensures
        state.is_unconfirmed() <==> state == ImageState::New || state == ImageState::PendingVerify,
{
}

} // verus!
