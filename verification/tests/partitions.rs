use embedded_storage::{ReadStorage, Storage};
use esp32c6_probe::partitions::{
    app_partition, booted_partition, can_search, mapped_address, ota_data_partition, PartitionKind,
};
use esp32c6_probe::slot::Slot;
use esp_bootloader_esp_idf::partitions::{read_partition_table, PartitionEntry, PARTITION_TABLE_MAX_LEN};

const TABLE_OFFSET: usize = 0x8000;

struct Flash {
    table: Vec<u8>,
}

impl ReadStorage for Flash {
    type Error = ();

    fn read(&mut self, offset: u32, bytes: &mut [u8]) -> Result<(), ()> {
        let start = offset as usize - TABLE_OFFSET;
        bytes.copy_from_slice(&self.table[start..start + bytes.len()]);
        Ok(())
    }

    fn capacity(&self) -> usize {
        TABLE_OFFSET + self.table.len()
    }
}

impl Storage for Flash {
    fn write(&mut self, _offset: u32, _bytes: &[u8]) -> Result<(), ()> {
        Err(())
    }
}

fn record(raw_type: u8, raw_subtype: u8, offset: u32, len: u32, label: &str) -> Vec<u8> {
    let mut bytes = vec![0xaa, 0x50, raw_type, raw_subtype];
    bytes.extend_from_slice(&offset.to_le_bytes());
    bytes.extend_from_slice(&len.to_le_bytes());
    bytes.extend_from_slice(label.as_bytes());
    bytes.resize(32, 0);
    bytes
}

fn nvs() -> Vec<u8> {
    record(1, 2, 0x9000, 0x4000, "nvs")
}

fn ota_data() -> Vec<u8> {
    record(1, 0, 0xd000, 0x2000, "otadata")
}

fn phy() -> Vec<u8> {
    record(1, 1, 0xf000, 0x1000, "phy_init")
}

fn factory() -> Vec<u8> {
    record(0, 0, 0x10000, 0x100000, "factory")
}

fn ota_0() -> Vec<u8> {
    record(0, 0x10, 0x110000, 0x100000, "ota_0")
}

fn ota_1() -> Vec<u8> {
    record(0, 0x11, 0x210000, 0x100000, "ota_1")
}

fn flash(records: &[Vec<u8>], digest: [u8; 16]) -> Flash {
    let mut table = records.concat();
    table.extend_from_slice(&[0xeb, 0xeb]);
    table.extend_from_slice(&[0xff; 14]);
    table.extend_from_slice(&digest);
    table.resize(PARTITION_TABLE_MAX_LEN, 0xff);
    Flash { table }
}

fn with_factory() -> Flash {
    flash(
        &[nvs(), ota_data(), phy(), factory(), ota_0(), ota_1()],
        [
            0xbf, 0x25, 0x82, 0x2c, 0x0f, 0xa6, 0xd8, 0x64, 0x1b, 0xd9, 0x30, 0x25, 0x1e, 0x06, 0xb4, 0xc4,
        ],
    )
}

fn without_factory() -> Flash {
    flash(
        &[nvs(), ota_data(), phy(), ota_0(), ota_1()],
        [
            0xf3, 0x51, 0xb7, 0xf2, 0xa5, 0x3e, 0x8e, 0xad, 0x8b, 0xe5, 0xb6, 0x44, 0x51, 0x1f, 0x4c, 0x20,
        ],
    )
}

fn with_unknown_type() -> Flash {
    flash(
        &[ota_data(), ota_0(), record(0x40, 0, 0x310000, 0x1000, "custom"), ota_1()],
        [
            0xfd, 0x8b, 0x93, 0x49, 0x60, 0xd7, 0x0f, 0x29, 0x6e, 0xf1, 0xb3, 0x78, 0x52, 0xb4, 0xf3, 0x07,
        ],
    )
}

fn with_two_first_slots() -> Flash {
    flash(
        &[ota_data(), ota_0(), record(0, 0x10, 0x320000, 0x1000, "ota_0b")],
        [
            0xf7, 0x7e, 0x1a, 0x0e, 0x86, 0x74, 0xe6, 0x0f, 0xed, 0x5f, 0x5b, 0x98, 0x3c, 0xe1, 0x3d, 0x3f,
        ],
    )
}

fn with_unknown_subtype() -> Flash {
    flash(
        &[record(1, 7, 0x310000, 0x1000, "odd"), ota_data(), factory()],
        [
            0xe4, 0x12, 0x02, 0xf8, 0xaf, 0x71, 0x3d, 0x03, 0x89, 0xab, 0x71, 0x52, 0x01, 0x63, 0x7d, 0xad,
        ],
    )
}

fn empty() -> Flash {
    flash(
        &[],
        [
            0xd4, 0x1d, 0x8c, 0xd9, 0x8f, 0x00, 0xb2, 0x04, 0xe9, 0x80, 0x09, 0x98, 0xec, 0xf8, 0x42, 0x7e,
        ],
    )
}

fn label(entry: Option<PartitionEntry<'_>>) -> Option<String> {
    entry.map(|entry| entry.label_as_str().to_string())
}

#[test]
fn finds_ota_data() {
    let mut buffer = [0; PARTITION_TABLE_MAX_LEN];
    let table = read_partition_table(&mut with_factory(), &mut buffer).unwrap();
    assert!(can_search(&table, PartitionKind::OtaData));
    let entry = ota_data_partition(&table).unwrap().unwrap();
    assert_eq!(entry.offset(), 0xd000);
    assert_eq!(entry.len(), 0x2000);
    assert_eq!(entry.label_as_str(), "otadata");
}

#[test]
fn finds_application_of_each_slot() {
    let mut buffer = [0; PARTITION_TABLE_MAX_LEN];
    let table = read_partition_table(&mut with_factory(), &mut buffer).unwrap();
    for (slot, name) in [
        (Slot::Unselected, "factory"),
        (Slot::Slot0, "ota_0"),
        (Slot::Slot1, "ota_1"),
    ] {
        assert!(can_search(&table, PartitionKind::of_slot(slot)));
        assert_eq!(label(app_partition(&table, slot).unwrap()), Some(name.to_string()));
    }
}

#[test]
fn runs_first_slot_without_factory_application() {
    let mut buffer = [0; PARTITION_TABLE_MAX_LEN];
    let table = read_partition_table(&mut without_factory(), &mut buffer).unwrap();
    assert!(can_search(&table, PartitionKind::of_slot(Slot::Unselected)));
    let entry = app_partition(&table, Slot::Unselected).unwrap();
    assert_eq!(label(entry), Some("ota_0".to_string()));
}

#[test]
fn finds_nothing_in_empty_table() {
    let mut buffer = [0; PARTITION_TABLE_MAX_LEN];
    let table = read_partition_table(&mut empty(), &mut buffer).unwrap();
    assert!(can_search(&table, PartitionKind::OtaData));
    assert!(can_search(&table, PartitionKind::Factory));
    assert!(ota_data_partition(&table).unwrap().is_none());
    assert!(app_partition(&table, Slot::Unselected).unwrap().is_none());
    assert!(booted_partition(&table, 1).unwrap().is_none());
}

#[test]
fn takes_first_partition_of_a_kind() {
    let mut buffer = [0; PARTITION_TABLE_MAX_LEN];
    let table = read_partition_table(&mut with_two_first_slots(), &mut buffer).unwrap();
    assert!(can_search(&table, PartitionKind::Ota0));
    assert_eq!(app_partition(&table, Slot::Slot0).unwrap().unwrap().offset(), 0x110000);
    assert!(can_search(&table, PartitionKind::Ota1));
    assert!(app_partition(&table, Slot::Slot1).unwrap().is_none());
}

#[test]
fn cannot_search_past_unknown_type() {
    let mut buffer = [0; PARTITION_TABLE_MAX_LEN];
    let table = read_partition_table(&mut with_unknown_type(), &mut buffer).unwrap();
    assert!(can_search(&table, PartitionKind::OtaData));
    assert!(can_search(&table, PartitionKind::Ota0));
    assert!(!can_search(&table, PartitionKind::Ota1));
    assert!(!can_search(&table, PartitionKind::Factory));
    assert_eq!(label(app_partition(&table, Slot::Slot0).unwrap()), Some("ota_0".to_string()));
}

#[test]
fn cannot_search_past_unknown_subtype() {
    let mut buffer = [0; PARTITION_TABLE_MAX_LEN];
    let table = read_partition_table(&mut with_unknown_subtype(), &mut buffer).unwrap();
    assert!(!can_search(&table, PartitionKind::OtaData));
    assert!(!can_search(&table, PartitionKind::Factory));
    let entry = booted_partition(&table, 1).unwrap();
    assert_eq!(label(entry), Some("factory".to_string()));
}

#[test]
fn mapped_address_takes_low_byte_as_page() {
    assert_eq!(mapped_address(0), 0);
    assert_eq!(mapped_address(1), 0x1_0000);
    assert_eq!(mapped_address(0xff), 0xff_0000);
    assert_eq!(mapped_address(0x100), 0);
    assert_eq!(mapped_address(0xffff_ff21), 0x21_0000);
}

#[test]
fn booted_partition_begins_at_mapped_address() {
    let mut buffer = [0; PARTITION_TABLE_MAX_LEN];
    let table = read_partition_table(&mut with_factory(), &mut buffer).unwrap();
    assert_eq!(label(booted_partition(&table, 0x01).unwrap()), Some("factory".to_string()));
    assert_eq!(label(booted_partition(&table, 0x11).unwrap()), Some("ota_0".to_string()));
    assert_eq!(label(booted_partition(&table, 0x4021).unwrap()), Some("ota_1".to_string()));
    assert!(booted_partition(&table, 0x31).unwrap().is_none());
    assert!(booted_partition(&table, 0x00).unwrap().is_none());
}

#[test]
fn target_is_not_running_application() {
    let mut buffer = [0; PARTITION_TABLE_MAX_LEN];
    let table = read_partition_table(&mut with_factory(), &mut buffer).unwrap();
    for slot in [Slot::Unselected, Slot::Slot0, Slot::Slot1] {
        assert!(can_search(&table, PartitionKind::of_slot(slot)));
        assert!(can_search(&table, PartitionKind::of_slot(slot.next())));
        let running = app_partition(&table, slot).unwrap().unwrap();
        let target = app_partition(&table, slot.next()).unwrap().unwrap();
        assert_ne!(running.offset(), target.offset());
    }
}
