use embedded_storage::{ReadStorage, Storage};
use esp32c6_probe::message::decode_message;
use esp32c6_probe::partitions::{app_partition, can_search, ota_data_partition, PartitionKind};
use esp32c6_probe::slot::{ImageState, Slot};
use esp32c6_probe::update::{Method, UpdateEvent, UpdateStep, CHUNK_CAPACITY};
use esp_bootloader_esp_idf::ota::{Ota, OtaImageState};
use esp_bootloader_esp_idf::partitions::{read_partition_table, PARTITION_TABLE_MAX_LEN};

struct Flash {
    bytes: Vec<u8>,
}

impl ReadStorage for Flash {
    type Error = ();

    fn read(&mut self, offset: u32, bytes: &mut [u8]) -> Result<(), ()> {
        let start = offset as usize;
        bytes.copy_from_slice(&self.bytes[start..start + bytes.len()]);
        Ok(())
    }

    fn capacity(&self) -> usize {
        self.bytes.len()
    }
}

impl Storage for Flash {
    fn write(&mut self, offset: u32, bytes: &[u8]) -> Result<(), ()> {
        let start = offset as usize;
        self.bytes[start..start + bytes.len()].copy_from_slice(bytes);
        Ok(())
    }
}

fn record(raw_type: u8, raw_subtype: u8, offset: u32, len: u32, label: &str) -> Vec<u8> {
    let mut bytes = vec![0xaa, 0x50, raw_type, raw_subtype];
    bytes.extend_from_slice(&offset.to_le_bytes());
    bytes.extend_from_slice(&len.to_le_bytes());
    bytes.extend_from_slice(label.as_bytes());
    bytes.resize(32, 0);
    bytes
}

fn flash() -> Flash {
    let mut table = [
        record(1, 2, 0x9000, 0x4000, "nvs"),
        record(1, 0, 0xd000, 0x2000, "otadata"),
        record(1, 1, 0xf000, 0x1000, "phy_init"),
        record(0, 0, 0x10000, 0x100000, "factory"),
        record(0, 0x10, 0x110000, 0x100000, "ota_0"),
        record(0, 0x11, 0x210000, 0x100000, "ota_1"),
    ]
    .concat();
    table.extend_from_slice(&[0xeb, 0xeb]);
    table.extend_from_slice(&[0xff; 14]);
    table.extend_from_slice(&[
        0xbf, 0x25, 0x82, 0x2c, 0x0f, 0xa6, 0xd8, 0x64, 0x1b, 0xd9, 0x30, 0x25, 0x1e, 0x06, 0xb4, 0xc4,
    ]);
    let mut bytes = vec![0xff; 0x31_0000];
    bytes[0x8000..0x8000 + table.len()].copy_from_slice(&table);
    Flash { bytes }
}

fn outside_slot(slot: Slot) -> esp_bootloader_esp_idf::ota::Slot {
    match slot {
        Slot::Unselected => esp_bootloader_esp_idf::ota::Slot::None,
        Slot::Slot0 => esp_bootloader_esp_idf::ota::Slot::Slot0,
        Slot::Slot1 => esp_bootloader_esp_idf::ota::Slot::Slot1,
    }
}

fn inside_slot(slot: esp_bootloader_esp_idf::ota::Slot) -> Slot {
    match slot {
        esp_bootloader_esp_idf::ota::Slot::None => Slot::Unselected,
        esp_bootloader_esp_idf::ota::Slot::Slot0 => Slot::Slot0,
        esp_bootloader_esp_idf::ota::Slot::Slot1 => Slot::Slot1,
    }
}

fn outside_state(state: ImageState) -> OtaImageState {
    match state {
        ImageState::New => OtaImageState::New,
        ImageState::PendingVerify => OtaImageState::PendingVerify,
        ImageState::Valid => OtaImageState::Valid,
        ImageState::Invalid => OtaImageState::Invalid,
        ImageState::Aborted => OtaImageState::Aborted,
        ImageState::Undefined => OtaImageState::Undefined,
    }
}

fn inside_state(state: OtaImageState) -> ImageState {
    match state {
        OtaImageState::New => ImageState::New,
        OtaImageState::PendingVerify => ImageState::PendingVerify,
        OtaImageState::Valid => ImageState::Valid,
        OtaImageState::Invalid => ImageState::Invalid,
        OtaImageState::Aborted => ImageState::Aborted,
        OtaImageState::Undefined => ImageState::Undefined,
    }
}

enum OtaRequest {
    Slot,
    State,
    SelectSlot(Slot),
    SetState(ImageState),
}

fn ota_data(flash: &mut Flash, request: OtaRequest) -> UpdateEvent {
    let mut buffer = [0; PARTITION_TABLE_MAX_LEN];
    let table = read_partition_table(flash, &mut buffer).unwrap();
    assert!(can_search(&table, PartitionKind::OtaData));
    let entry = ota_data_partition(&table).unwrap().unwrap();
    let mut region = entry.as_embedded_storage(flash);
    let mut ota = Ota::new(&mut region).unwrap();
    match request {
        OtaRequest::Slot => UpdateEvent::Selected { slot: inside_slot(ota.current_slot().unwrap()) },
        OtaRequest::State => UpdateEvent::Image { state: inside_state(ota.current_ota_state().unwrap()) },
        OtaRequest::SelectSlot(slot) => {
            ota.set_current_slot(outside_slot(slot)).unwrap();
            UpdateEvent::Done
        }
        OtaRequest::SetState(state) => {
            ota.set_current_ota_state(outside_state(state)).unwrap();
            UpdateEvent::Done
        }
    }
}

fn write(flash: &mut Flash, slot: Slot, offset: u32, bytes: &[u8]) {
    let mut buffer = [0; PARTITION_TABLE_MAX_LEN];
    let table = read_partition_table(flash, &mut buffer).unwrap();
    assert!(can_search(&table, PartitionKind::of_slot(slot)));
    let entry = app_partition(&table, slot).unwrap().unwrap();
    let mut region = entry.as_embedded_storage(flash);
    region.write(offset, bytes).unwrap();
}

fn update(flash: &mut Flash, content_length: usize, chunks: &[Vec<u8>]) -> Vec<UpdateStep> {
    let mut step = UpdateStep::new();
    let mut steps = vec![step];
    let mut chunks = chunks.iter();
    let mut chunk: &[u8] = &[];
    while step != UpdateStep::Restart {
        let event = match step {
            UpdateStep::ReadSlot => ota_data(flash, OtaRequest::Slot),
            UpdateStep::ReadImageState { .. } => ota_data(flash, OtaRequest::State),
            UpdateStep::ConfirmImage { state, .. } => ota_data(flash, OtaRequest::SetState(state)),
            UpdateStep::LocateTarget { .. } => UpdateEvent::Done,
            UpdateStep::AwaitTrigger { .. } => UpdateEvent::Trigger {
                message: decode_message(b"test message").unwrap(),
            },
            UpdateStep::RequestImage { .. } => UpdateEvent::Response {
                status: 200,
                content_length: Some(content_length),
            },
            UpdateStep::ReadChunk { .. } => match chunks.next() {
                Some(next) => {
                    chunk = next;
                    UpdateEvent::Chunk { len: chunk.len() }
                }
                None => UpdateEvent::ReadFailed,
            },
            UpdateStep::WriteChunk { slot, offset, len, .. } => {
                write(flash, slot, offset, &chunk[..len]);
                UpdateEvent::Done
            }
            UpdateStep::SelectSlot { slot } => ota_data(flash, OtaRequest::SelectSlot(slot)),
            UpdateStep::MarkImage { state, .. } => ota_data(flash, OtaRequest::SetState(state)),
            UpdateStep::Restart => unreachable!(),
        };
        assert!(step.accepts(&event));
        step = step.after(event);
        steps.push(step);
    }
    steps
}

fn selected(flash: &mut Flash) -> (Slot, ImageState) {
    match (ota_data(flash, OtaRequest::Slot), ota_data(flash, OtaRequest::State)) {
        (UpdateEvent::Selected { slot }, UpdateEvent::Image { state }) => (slot, state),
        _ => unreachable!(),
    }
}

#[test]
fn image_is_installed_in_first_slot() {
    let mut flash = flash();
    let image: Vec<u8> = (0..10_000u32).map(|i| (i % 251) as u8).collect();
    let chunks: Vec<Vec<u8>> = image.chunks(CHUNK_CAPACITY).map(|chunk| chunk.to_vec()).collect();
    let steps = update(&mut flash, image.len(), &chunks);
    let slot = Slot::Slot0;
    let image_len = 10_000;
    assert_eq!(
        steps,
        vec![
            UpdateStep::ReadSlot,
            UpdateStep::LocateTarget { slot },
            UpdateStep::AwaitTrigger { slot },
            UpdateStep::RequestImage { slot },
            UpdateStep::ReadChunk { slot, image_len, offset: 0 },
            UpdateStep::WriteChunk { slot, image_len, offset: 0, len: 4096 },
            UpdateStep::ReadChunk { slot, image_len, offset: 4096 },
            UpdateStep::WriteChunk { slot, image_len, offset: 4096, len: 4096 },
            UpdateStep::ReadChunk { slot, image_len, offset: 8192 },
            UpdateStep::WriteChunk { slot, image_len, offset: 8192, len: 1808 },
            UpdateStep::SelectSlot { slot },
            UpdateStep::MarkImage { slot, state: ImageState::New },
            UpdateStep::Restart,
        ]
    );
    assert_eq!(&flash.bytes[0x110000..0x110000 + 10_000], &image[..]);
    assert_eq!(flash.bytes[0x110000 + 10_000], 0xff);
    assert_eq!(selected(&mut flash), (Slot::Slot0, ImageState::New));
}

#[test]
fn second_update_spares_the_first_one() {
    let mut flash = flash();
    update(&mut flash, 3, &[vec![1, 2, 3]]);
    let steps = update(&mut flash, 4, &[vec![7, 8], vec![9, 10]]);
    assert_eq!(
        &steps[..4],
        &[
            UpdateStep::ReadSlot,
            UpdateStep::ReadImageState { current: Slot::Slot0 },
            UpdateStep::ConfirmImage { current: Slot::Slot0, state: ImageState::Valid },
            UpdateStep::LocateTarget { slot: Slot::Slot1 },
        ]
    );
    assert_eq!(&flash.bytes[0x110000..0x110004], &[1, 2, 3, 0xff]);
    assert_eq!(&flash.bytes[0x210000..0x210005], &[7, 8, 9, 10, 0xff]);
    assert_eq!(selected(&mut flash), (Slot::Slot1, ImageState::New));
}

#[test]
fn image_that_breaks_off_is_selected_all_the_same() {
    let mut flash = flash();
    let steps = update(&mut flash, 100, &[vec![5; 10]]);
    assert_eq!(steps[steps.len() - 4], UpdateStep::ReadChunk { slot: Slot::Slot0, image_len: 100, offset: 10 });
    assert_eq!(steps[steps.len() - 3], UpdateStep::SelectSlot { slot: Slot::Slot0 });
    assert_eq!(selected(&mut flash), (Slot::Slot0, ImageState::New));
}

#[test]
fn empty_image_takes_one_empty_chunk() {
    let slot = Slot::Slot1;
    let step = UpdateStep::RequestImage { slot };
    let step = step.after(UpdateEvent::Response { status: 200, content_length: Some(0) });
    assert_eq!(step, UpdateStep::ReadChunk { slot, image_len: 0, offset: 0 });
    let step = step.after(UpdateEvent::Chunk { len: 0 });
    assert_eq!(step, UpdateStep::WriteChunk { slot, image_len: 0, offset: 0, len: 0 });
    assert_eq!(step.after(UpdateEvent::Done), UpdateStep::SelectSlot { slot });
}

#[test]
fn empty_chunk_does_not_end_a_longer_image() {
    let slot = Slot::Slot1;
    let step = UpdateStep::WriteChunk { slot, image_len: 8, offset: 4, len: 0 };
    assert_eq!(step.after(UpdateEvent::Done), UpdateStep::ReadChunk { slot, image_len: 8, offset: 4 });
}

#[test]
fn image_longer_than_announced_is_read_on() {
    let slot = Slot::Slot1;
    let step = UpdateStep::WriteChunk { slot, image_len: 8, offset: 4, len: 5 };
    assert_eq!(step.after(UpdateEvent::Done), UpdateStep::ReadChunk { slot, image_len: 8, offset: 9 });
}

#[test]
fn refusal_begins_again() {
    let step = UpdateStep::RequestImage { slot: Slot::Slot0 };
    for status in [0, 100, 199, 300, 304, 404, 500, 600] {
        let event = UpdateEvent::Response { status, content_length: Some(5) };
        assert!(step.accepts(&event));
        assert_eq!(step.after(event), UpdateStep::ReadSlot);
    }
    for status in [200, 204, 299] {
        let event = UpdateEvent::Response { status, content_length: Some(5) };
        assert_eq!(
            step.after(event),
            UpdateStep::ReadChunk { slot: Slot::Slot0, image_len: 5, offset: 0 }
        );
    }
}

#[test]
fn answer_without_length_begins_again() {
    let step = UpdateStep::RequestImage { slot: Slot::Slot0 };
    let event = UpdateEvent::Response { status: 200, content_length: None };
    assert_eq!(step.after(event), UpdateStep::ReadSlot);
}

#[test]
fn only_unconfirmed_images_are_confirmed() {
    let step = UpdateStep::ReadImageState { current: Slot::Slot1 };
    for state in [ImageState::New, ImageState::PendingVerify] {
        assert_eq!(
            step.after(UpdateEvent::Image { state }),
            UpdateStep::ConfirmImage { current: Slot::Slot1, state: ImageState::Valid }
        );
    }
    for state in [
        ImageState::Valid,
        ImageState::Invalid,
        ImageState::Aborted,
        ImageState::Undefined,
    ] {
        assert_eq!(
            step.after(UpdateEvent::Image { state }),
            UpdateStep::LocateTarget { slot: Slot::Slot0 }
        );
    }
}

#[test]
fn any_message_triggers() {
    let step = UpdateStep::AwaitTrigger { slot: Slot::Slot0 };
    for text in ["", "test message", "no update, please"] {
        let event = UpdateEvent::Trigger { message: decode_message(text.as_bytes()).unwrap() };
        assert!(step.accepts(&event));
        assert_eq!(step.after(event), UpdateStep::RequestImage { slot: Slot::Slot0 });
    }
}

#[test]
fn chunks_are_bounded() {
    let slot = Slot::Slot0;
    let image_len = 5;
    let step = UpdateStep::ReadChunk { slot, image_len, offset: 0 };
    assert!(step.accepts(&UpdateEvent::Chunk { len: 4096 }));
    assert!(!step.accepts(&UpdateEvent::Chunk { len: 4097 }));
    let step = UpdateStep::ReadChunk { slot, image_len, offset: u32::MAX - 1 };
    assert!(step.accepts(&UpdateEvent::Chunk { len: 1 }));
    assert!(!step.accepts(&UpdateEvent::Chunk { len: 2 }));
    let step = UpdateStep::WriteChunk { slot, image_len, offset: u32::MAX, len: 1 };
    assert!(!step.accepts(&UpdateEvent::Done));
}

#[test]
fn nothing_comes_after_the_restart() {
    assert!(!UpdateStep::Restart.accepts(&UpdateEvent::Done));
    assert!(!UpdateStep::Restart.accepts(&UpdateEvent::ReadFailed));
}

#[test]
fn image_is_requested_from_the_local_server() {
    let request = (UpdateStep::RequestImage { slot: Slot::Slot1 }).image_request().unwrap();
    assert_eq!(request.method, Method::Get);
    assert_eq!(request.url, "http://192.168.10.1/firmware");
}

#[test]
fn one_request_per_message() {
    let mut flash = flash();
    let steps = update(&mut flash, 3, &[vec![1, 2, 3]]);
    let requests = steps.iter().filter(|step| step.image_request().is_some()).count();
    assert_eq!(requests, 1);
    let awaiting = steps.iter().position(|step| matches!(step, UpdateStep::AwaitTrigger { .. })).unwrap();
    assert!(steps[awaiting + 1].image_request().is_some());
}

#[test]
fn nothing_happens_without_message() {
    let mut flash = flash();
    let before = flash.bytes.clone();
    let mut step = UpdateStep::new();
    step = step.after(ota_data(&mut flash, OtaRequest::Slot));
    assert!(step.image_request().is_none());
    step = step.after(UpdateEvent::Done);
    assert_eq!(step, UpdateStep::AwaitTrigger { slot: Slot::Slot0 });
    assert!(step.image_request().is_none());
    assert!(!step.accepts(&UpdateEvent::Done));
    assert_eq!(flash.bytes, before);
}

#[test]
fn running_application_keeps_its_bytes() {
    let mut flash = flash();
    update(&mut flash, 4096, &[vec![0x11; 4096]]);
    let running = flash.bytes[0x110000..0x210000].to_vec();
    update(&mut flash, 4096, &[vec![0x22; 4096]]);
    assert_eq!(&flash.bytes[0x110000..0x210000], &running[..]);
    assert_eq!(flash.bytes[0x210000], 0x22);
}
