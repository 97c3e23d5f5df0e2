use esp32c6_probe::slot::{ImageState, Slot};

#[test]
fn slots_alternate_beginning_with_first() {
    assert_eq!(Slot::Unselected.next(), Slot::Slot0);
    assert_eq!(Slot::Slot0.next(), Slot::Slot1);
    assert_eq!(Slot::Slot1.next(), Slot::Slot0);
    assert_eq!(Slot::Slot0.next().next(), Slot::Slot0);
}

#[test]
fn new_and_pending_images_are_unconfirmed() {
    assert!(ImageState::New.unconfirmed());
    assert!(ImageState::PendingVerify.unconfirmed());
    assert!(!ImageState::Valid.unconfirmed());
    assert!(!ImageState::Invalid.unconfirmed());
    assert!(!ImageState::Aborted.unconfirmed());
    assert!(!ImageState::Undefined.unconfirmed());
}
