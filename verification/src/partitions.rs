//! The partition table in flash: which record describes the running image, the OTA-data
//! partition and the partition of an application slot.
//!
//! A table is a sequence of 32-byte records. Byte 2 of a record is the partition's type, byte 3
//! its sub-type, bytes 4 to 7 are its offset in flash and bytes 8 to 11 its length, both least
//! significant byte first.

use crate::slot::Slot;
use esp_bootloader_esp_idf::partitions::{
    AppPartitionSubType, DataPartitionSubType, Error, PartitionEntry, PartitionTable, PartitionType,
};
use vstd::prelude::*;

verus! {

/// `esp_bootloader_esp_idf::partitions::PartitionTable`: a validated partition table.
#[verifier::external_type_specification]
#[verifier::external_body]
pub struct ExPartitionTable<'a>(PartitionTable<'a>);

/// `esp_bootloader_esp_idf::partitions::PartitionEntry`: one record of a table.
#[verifier::external_type_specification]
#[verifier::external_body]
pub struct ExPartitionEntry<'a>(PartitionEntry<'a>);

/// `esp_bootloader_esp_idf::partitions::Error`.
#[verifier::external_type_specification]
#[verifier::external_body]
pub struct ExError(Error);

/// The records that a table holds, in their order.
pub uninterp spec fn table_records(table: PartitionTable<'_>) -> Seq<Seq<u8>>;

/// The bytes that an entry holds.
pub uninterp spec fn entry_record(entry: PartitionEntry<'_>) -> Seq<u8>;

/// `PartitionTable::len` counts the records of the table.
pub assume_specification<'a>[ PartitionTable::<'a>::len ](table: &PartitionTable<'a>) -> (len: usize)
    ensures
        len == table_records(*table).len(),
;

/// `PartitionTable::get_partition` hands out the record at the index, and fails exactly where
/// the index is not below the number of records.
pub assume_specification<'a>[ PartitionTable::<'a>::get_partition ](
    table: &PartitionTable<'a>,
    index: usize,
) -> (entry: Result<PartitionEntry<'a>, Error>)
    ensures
        entry is Ok <==> index < table_records(*table).len(),
        entry matches Ok(entry) ==> entry_record(entry) == table_records(*table)[index as int],
;

/// `PartitionEntry::raw_type` is byte 2 of the record.
pub assume_specification<'a>[ PartitionEntry::<'a>::raw_type ](entry: &PartitionEntry<'a>) -> (raw: u8)
    ensures
        raw == entry_record(*entry)[2],
;

/// `PartitionEntry::raw_subtype` is byte 3 of the record.
pub assume_specification<'a>[ PartitionEntry::<'a>::raw_subtype ](entry: &PartitionEntry<'a>) -> (raw: u8)
    ensures
        raw == entry_record(*entry)[3],
;

/// `PartitionEntry::offset` is the number that bytes 4 to 7 of the record encode.
pub assume_specification<'a>[ PartitionEntry::<'a>::offset ](entry: &PartitionEntry<'a>) -> (offset: u32)
    ensures
        offset == record_offset(entry_record(*entry)),
;

/// Calls `PartitionTable::find_partition`, of which it is claimed that it returns the first
/// record whose type and sub-type are those of the kind, that it returns nothing if the table
/// holds no such record, and that it never fails. It panics on a record whose type or sub-type
/// is unknown, unless a record of the kind comes before it.
#[verifier::external_body]
fn first_of_kind<'a>(table: &PartitionTable<'a>, kind: PartitionKind) -> (found: Result<Option<PartitionEntry<'a>>, Error>)
    requires
        searchable(table_records(*table), kind),
    ensures
        found is Ok,
        found_record(found->Ok_0) == first_where(table_records(*table), of_kind(kind)),
{
    table.find_partition(match kind {
        PartitionKind::OtaData => PartitionType::Data(DataPartitionSubType::Ota),
        PartitionKind::Factory => PartitionType::App(AppPartitionSubType::Factory),
        PartitionKind::Ota0 => PartitionType::App(AppPartitionSubType::Ota0),
        PartitionKind::Ota1 => PartitionType::App(AppPartitionSubType::Ota1),
    })
}

/// The kinds of partition that an update deals with.
#[derive(Clone, Copy, Debug, PartialEq, Eq, Structural)]
pub enum PartitionKind {
    /// Holds which application slot is selected, and the states of the images.
    OtaData,
    /// The application that the device left the factory with.
    Factory,
    /// The application in the first slot.
    Ota0,
    /// The application in the second slot.
    Ota1,
}

impl PartitionKind {
    /// The type byte of a record of this kind.
    pub open spec fn type_byte(self) -> u8 {
        if self is OtaData { 1 } else { 0 }
    }

    /// The sub-type byte of a record of this kind.
    pub open spec fn subtype_byte(self) -> u8 {
        match self {
            PartitionKind::OtaData | PartitionKind::Factory => 0,
            PartitionKind::Ota0 => 0x10,
            PartitionKind::Ota1 => 0x11,
        }
    }

    /// The kind of partition that is looked for first when an application is to be found.
    pub open spec fn preferred(slot: Slot) -> PartitionKind {
        match slot {
            Slot::Unselected => PartitionKind::Factory,
            Slot::Slot0 => PartitionKind::Ota0,
            Slot::Slot1 => PartitionKind::Ota1,
        }
    }

    /// The kind of partition that is looked for first when the application of the given slot is
    /// to be found.
    pub fn of_slot(slot: Slot) -> (kind: PartitionKind)
        ensures
            kind == PartitionKind::preferred(slot),
            slot == Slot::Unselected <==> kind == PartitionKind::Factory,
            slot == Slot::Slot0 <==> kind == PartitionKind::Ota0,
            slot == Slot::Slot1 <==> kind == PartitionKind::Ota1,
    {
        match slot {
            Slot::Unselected => PartitionKind::Factory,
            Slot::Slot0 => PartitionKind::Ota0,
            Slot::Slot1 => PartitionKind::Ota1,
        }
    }

    /// Whether a record with the given type and sub-type is of this kind.
    fn covers(self, raw_type: u8, raw_subtype: u8) -> (covers: bool)
        ensures
            covers == (raw_type == self.type_byte() && raw_subtype == self.subtype_byte()),
    {
        match self {
            PartitionKind::OtaData => raw_type == 1 && raw_subtype == 0,
            PartitionKind::Factory => raw_type == 0 && raw_subtype == 0,
            PartitionKind::Ota0 => raw_type == 0 && raw_subtype == 0x10,
            PartitionKind::Ota1 => raw_type == 0 && raw_subtype == 0x11,
        }
    }
}

/// Whether a record is of the given kind.
pub open spec fn is_kind(record: Seq<u8>, kind: PartitionKind) -> bool {
    record[2] == kind.type_byte() && record[3] == kind.subtype_byte()
}

/// The test for records of the given kind.
pub open spec fn of_kind(kind: PartitionKind) -> spec_fn(Seq<u8>) -> bool {
    |record: Seq<u8>| is_kind(record, kind)
}

/// Whether the type and sub-type name something the bootloader knows.
pub open spec fn known_type(raw_type: u8, raw_subtype: u8) -> bool {
    ||| raw_type == 0 && (raw_subtype == 0 || 0x10 <= raw_subtype <= 0x20)
    ||| raw_type == 1 && (raw_subtype <= 6 || 0x81 <= raw_subtype <= 0x83)
    ||| (raw_type == 2 || raw_type == 3) && raw_subtype <= 1
}

/// The offset in flash of the partition that a record describes.
pub open spec fn record_offset(record: Seq<u8>) -> int {
    record[4] + record[5] * 0x100 + record[6] * 0x1_0000 + record[7] * 0x100_0000
}

/// The length in bytes of the partition that a record describes.
pub open spec fn record_len(record: Seq<u8>) -> int {
    record[8] + record[9] * 0x100 + record[10] * 0x1_0000 + record[11] * 0x100_0000
}

/// Whether the partitions that two records describe have no byte of the flash in common: one of
/// them ends before the other one begins.
pub open spec fn apart(first: Seq<u8>, second: Seq<u8>) -> bool {
    ||| record_offset(first) + record_len(first) <= record_offset(second)
    ||| record_offset(second) + record_len(second) <= record_offset(first)
}

/// Whether no two partitions of a table overlap.
pub open spec fn without_overlap(records: Seq<Seq<u8>>) -> bool {
    forall|i: int, j: int|
        0 <= i < j < records.len() ==> apart(#[trigger] records[i], #[trigger] records[j])
}

/// The test for partitions that begin at the given address.
pub open spec fn at_offset(address: int) -> spec_fn(Seq<u8>) -> bool {
    |record: Seq<u8>| record_offset(record) == address
}

/// Whether `index` is the place of the first record that meets the test.
pub open spec fn is_first(records: Seq<Seq<u8>>, test: spec_fn(Seq<u8>) -> bool, index: int) -> bool {
    &&& 0 <= index < records.len()
    &&& test(records[index])
    &&& forall|before: int| 0 <= before < index ==> !test(#[trigger] records[before])
}

/// The first record that meets the test.
pub open spec fn first_where(records: Seq<Seq<u8>>, test: spec_fn(Seq<u8>) -> bool) -> Option<Seq<u8>> {
    if exists|index: int| is_first(records, test, index) {
        Some(records[choose|index: int| is_first(records, test, index)])
    } else {
        None
    }
}

/// The record of an entry that was looked for.
pub open spec fn found_record(entry: Option<PartitionEntry<'_>>) -> Option<Seq<u8>> {
    match entry {
        Some(entry) => Some(entry_record(entry)),
        None => None,
    }
}

/// Whether what was found is the first record with the given type and sub-type, or nothing where
/// no record has them.
pub open spec fn is_first_with(
    found: Option<Seq<u8>>,
    records: Seq<Seq<u8>>,
    raw_type: u8,
    raw_subtype: u8,
) -> bool {
    match found {
        Some(record) => exists|index: int| #![trigger records[index]] {
            &&& 0 <= index < records.len()
            &&& record == records[index]
            &&& record[2] == raw_type
            &&& record[3] == raw_subtype
            &&& forall|before: int|
                0 <= before < index ==> !((#[trigger] records[before])[2] == raw_type
                    && records[before][3] == raw_subtype)
        },
        None => forall|index: int|
            0 <= index < records.len() ==> !((#[trigger] records[index])[2] == raw_type
                && records[index][3] == raw_subtype),
    }
}

/// Whether no record of an unknown type stands before the first record of the given kind.
pub open spec fn searchable(records: Seq<Seq<u8>>, kind: PartitionKind) -> bool {
    forall|index: int|
        0 <= index < records.len() && (forall|before: int|
            0 <= before < index ==> !is_kind(#[trigger] records[before], kind)) ==> known_type(
            #[trigger] records[index][2],
            records[index][3],
        )
}

/// The record of the application that runs when the given slot is selected: without a selection
/// that is the factory application if there is one, otherwise the one in the first slot.
pub open spec fn app_record(records: Seq<Seq<u8>>, slot: Slot) -> Option<Seq<u8>> {
    let factory = first_where(records, of_kind(PartitionKind::Factory));
    match slot {
        Slot::Unselected if factory is Some => factory,
        Slot::Unselected | Slot::Slot0 => first_where(records, of_kind(PartitionKind::Ota0)),
        Slot::Slot1 => first_where(records, of_kind(PartitionKind::Ota1)),
    }
}

proof fn lemma_first_meets_test(records: Seq<Seq<u8>>, test: spec_fn(Seq<u8>) -> bool)
    ensures
        first_where(records, test) matches Some(record) ==> test(record),
{
    if exists|index: int| is_first(records, test, index) {
        assert(is_first(records, test, choose|index: int| is_first(records, test, index)));
    }
}

proof fn lemma_searchable_without_match(records: Seq<Seq<u8>>, absent: PartitionKind, kind: PartitionKind)
    requires
        searchable(records, absent),
        first_where(records, of_kind(absent)) is None,
    ensures
        searchable(records, kind),
{
    lemma_no_match(records, of_kind(absent));
    assert forall|index: int| 0 <= index < records.len() implies !is_kind(
        #[trigger] records[index],
        absent,
    ) by {
        assert(!of_kind(absent)(records[index]));
    }
}

proof fn lemma_no_match(records: Seq<Seq<u8>>, test: spec_fn(Seq<u8>) -> bool)
    requires
        first_where(records, test) is None,
    ensures
        forall|index: int| 0 <= index < records.len() ==> !test(#[trigger] records[index]),
{
    assert forall|index: int| 0 <= index < records.len() implies !test(#[trigger] records[index]) by {
        lemma_no_match_before(records, test, index + 1);
    }
}

proof fn lemma_no_match_before(records: Seq<Seq<u8>>, test: spec_fn(Seq<u8>) -> bool, end: int)
    requires
        first_where(records, test) is None,
        0 <= end <= records.len(),
    ensures
        forall|index: int| 0 <= index < end ==> !test(#[trigger] records[index]),
    decreases end,
{
    if end > 0 {
        lemma_no_match_before(records, test, end - 1);
        assert(!is_first(records, test, end - 1));
    }
}

/// The record that is found is the first one that meets the test.
pub proof fn lemma_first_where(records: Seq<Seq<u8>>, test: spec_fn(Seq<u8>) -> bool, index: int)
    requires
        is_first(records, test, index),
    ensures
        first_where(records, test) == Some(records[index]),
{
    let chosen = choose|index: int| is_first(records, test, index);
    assert(is_first(records, test, chosen));
    if chosen < index {
        assert(!test(records[chosen]));
    }
    if index < chosen {
        assert(!test(records[index]));
    }
}

proof fn lemma_first_with(records: Seq<Seq<u8>>, kind: PartitionKind)
    ensures
        is_first_with(
            first_where(records, of_kind(kind)),
            records,
            kind.type_byte(),
            kind.subtype_byte(),
        ),
{
    let test = of_kind(kind);
    if exists|index: int| is_first(records, test, index) {
        let index = choose|index: int| is_first(records, test, index);
        assert(is_first(records, test, index));
        assert(is_kind(records[index], kind));
        assert forall|before: int| 0 <= before < index implies !((#[trigger] records[before])[2]
            == kind.type_byte() && records[before][3] == kind.subtype_byte()) by {
            assert(!test(records[before]));
        }
    } else {
        lemma_no_match(records, test);
        assert forall|index: int| 0 <= index < records.len() implies !((#[trigger] records[index])[2]
            == kind.type_byte() && records[index][3] == kind.subtype_byte()) by {
            assert(!test(records[index]));
        }
    }
}

fn known(raw_type: u8, raw_subtype: u8) -> (known: bool)
    ensures
        known == known_type(raw_type, raw_subtype),
{
    match raw_type {
        0 => raw_subtype == 0 || (0x10 <= raw_subtype && raw_subtype <= 0x20),
        1 => raw_subtype <= 6 || (0x81 <= raw_subtype && raw_subtype <= 0x83),
        2 | 3 => raw_subtype <= 1,
        _ => false,
    }
}

/// Whether the table can be searched for a partition of the given kind.
pub fn can_search(table: &PartitionTable<'_>, kind: PartitionKind) -> (can: bool)
    ensures
        can == searchable(table_records(*table), kind),
{
    let ghost records = table_records(*table);
    let len: usize = table.len();
    let mut index: usize = 0;
    while index < len
        invariant
            records == table_records(*table),
            len == records.len(),
            index <= len,
            forall|before: int| 0 <= before < index ==> !is_kind(#[trigger] records[before], kind),
            forall|before: int|
                0 <= before < index ==> known_type(#[trigger] records[before][2], records[before][3]),
        decreases len - index,
    {
        if let Ok(entry) = table.get_partition(index) {
            let raw_type: u8 = entry.raw_type();
            let raw_subtype: u8 = entry.raw_subtype();
            if kind.covers(raw_type, raw_subtype) {
                assert(is_kind(records[index as int], kind));
                assert(known_type(records[index as int][2], records[index as int][3]));
                return true;
            }
            if !known(raw_type, raw_subtype) {
                assert(!known_type(records[index as int][2], records[index as int][3]));
                return false;
            }
            assert(!is_kind(records[index as int], kind));
        }
        index = index + 1;
    }
    true
}

/// The partition that holds which application slot is selected.
pub fn ota_data_partition<'a>(table: &PartitionTable<'a>) -> (found: Result<Option<PartitionEntry<'a>>, Error>)
    requires
        searchable(table_records(*table), PartitionKind::OtaData),
    ensures
        found is Ok,
        found_record(found->Ok_0) == first_where(table_records(*table), of_kind(PartitionKind::OtaData)),
        is_first_with(found_record(found->Ok_0), table_records(*table), 1, 0),
{
    proof {
        lemma_first_with(table_records(*table), PartitionKind::OtaData);
    }
    first_of_kind(table, PartitionKind::OtaData)
}

/// The partition of the application in the given slot; without a slot, the factory application
/// if there is one, otherwise the application in the first slot.
pub fn app_partition<'a>(table: &PartitionTable<'a>, slot: Slot) -> (found: Result<Option<PartitionEntry<'a>>, Error>)
    requires
        searchable(table_records(*table), PartitionKind::preferred(slot)),
    ensures
        found is Ok,
        found_record(found->Ok_0) == app_record(table_records(*table), slot),
        slot == Slot::Slot0 ==> is_first_with(
            found_record(found->Ok_0),
            table_records(*table),
            0,
            0x10,
        ),
        slot == Slot::Slot1 ==> is_first_with(
            found_record(found->Ok_0),
            table_records(*table),
            0,
            0x11,
        ),
        slot == Slot::Unselected ==> {
            ||| is_first_with(found_record(found->Ok_0), table_records(*table), 0, 0)
                && found->Ok_0 is Some
            ||| is_first_with(None, table_records(*table), 0, 0) && is_first_with(
                found_record(found->Ok_0),
                table_records(*table),
                0,
                0x10,
            )
        },
{
    proof {
        lemma_first_with(table_records(*table), PartitionKind::Factory);
        lemma_first_with(table_records(*table), PartitionKind::Ota0);
        lemma_first_with(table_records(*table), PartitionKind::Ota1);
    }
    match slot {
        Slot::Unselected => {
            let factory = first_of_kind(table, PartitionKind::Factory);
            match factory {
                Ok(Some(entry)) => Ok(Some(entry)),
                _ => {
                    proof {
                        lemma_searchable_without_match(table_records(*table), PartitionKind::Factory, PartitionKind::Ota0);
                    }
                    first_of_kind(table, PartitionKind::Ota0)
                },
            }
        },
        Slot::Slot0 => first_of_kind(table, PartitionKind::Ota0),
        Slot::Slot1 => first_of_kind(table, PartitionKind::Ota1),
    }
}

/// The address in flash of the page that an entry of the memory management unit maps: the low
/// byte of the entry is the number of the 64 KiB page.
pub open spec fn mapped_page(mmu_entry: u32) -> int {
    (mmu_entry % 0x100) * 0x1_0000
}

/// The address in flash of the page that an entry of the memory management unit maps.
pub fn mapped_address(mmu_entry: u32) -> (address: u32)
    ensures
        address == mapped_page(mmu_entry),
        address == (mmu_entry % 0x100) * 0x1_0000,
{
    assert((mmu_entry & 0xff) << 16 == (mmu_entry % 0x100) * 0x1_0000) by (bit_vector);
    (mmu_entry & 0xff) << 16
}

/// The partition that the running image was booted from: the first one that begins at the
/// address that `mmu_entry`, the first entry of the memory management unit, maps.
pub fn booted_partition<'a>(table: &PartitionTable<'a>, mmu_entry: u32) -> (found: Result<Option<PartitionEntry<'a>>, Error>)
    ensures
        found is Ok,
        found_record(found->Ok_0) == first_where(
            table_records(*table),
            at_offset(mapped_page(mmu_entry)),
        ),
{
    let address: u32 = mapped_address(mmu_entry);
    let ghost records = table_records(*table);
    let ghost test = at_offset(mapped_page(mmu_entry));
    let len: usize = table.len();
    let mut index: usize = 0;
    while index < len
        invariant
            records == table_records(*table),
            test == at_offset(mapped_page(mmu_entry)),
            address == mapped_page(mmu_entry),
            len == records.len(),
            index <= len,
            forall|before: int| 0 <= before < index ==> !test(#[trigger] records[before]),
        decreases len - index,
    {
        match table.get_partition(index) {
            Ok(entry) => {
                if entry.offset() == address {
                    proof {
                        lemma_first_where(records, test, index as int);
                    }
                    return Ok(Some(entry));
                }
            },
            Err(error) => {
                return Err(error);
            },
        }
        index = index + 1;
    }
    Ok(None)
}

/// In a table whose partitions all begin at different addresses, the booted partition is the
/// one that begins at the mapped address, wherever it stands.
pub proof fn lemma_booted_partition_is_the_mapped_one(records: Seq<Seq<u8>>, mmu_entry: u32, index: int)
    requires
        forall|i: int, j: int|
            0 <= i < j < records.len() ==> record_offset(#[trigger] records[i]) != record_offset(
                #[trigger] records[j],
            ),
        0 <= index < records.len(),
        record_offset(records[index]) == mapped_page(mmu_entry),
    ensures
        first_where(records, at_offset(mapped_page(mmu_entry))) == Some(records[index]),
{
    lemma_first_where(records, at_offset(mapped_page(mmu_entry)), index);
}

/// With a slot selected, or with a factory application to run when none is, the application in
/// the next slot has another record than the running one.
pub proof fn lemma_target_is_not_running(records: Seq<Seq<u8>>, current: Slot)
    requires
        current != Slot::Unselected || first_where(records, of_kind(PartitionKind::Factory)) is Some,
        app_record(records, current) is Some,
    ensures
        app_record(records, current.following()) != app_record(records, current),
{
    lemma_first_meets_test(records, of_kind(PartitionKind::Factory));
    lemma_first_meets_test(records, of_kind(PartitionKind::Ota0));
    lemma_first_meets_test(records, of_kind(PartitionKind::Ota1));
}

/// In a table whose partitions do not overlap, the application in the next slot and the running
/// one have no byte of the flash in common, if a slot is selected or there is a factory
/// application to run without one.
pub proof fn lemma_target_is_apart_from_running(records: Seq<Seq<u8>>, current: Slot)
    requires
        without_overlap(records),
        current != Slot::Unselected || first_where(records, of_kind(PartitionKind::Factory)) is Some,
        app_record(records, current) is Some,
        app_record(records, current.following()) is Some,
    ensures
        apart(app_record(records, current.following())->0, app_record(records, current)->0),
{
    lemma_target_is_not_running(records, current);
    let target = lemma_app_record_is_in_table(records, current.following());
    let running = lemma_app_record_is_in_table(records, current);
    if target < running {
        assert(apart(records[target], records[running]));
    } else {
        assert(apart(records[running], records[target]));
    }
}

proof fn lemma_app_record_is_in_table(records: Seq<Seq<u8>>, slot: Slot) -> (index: int)
    requires
        app_record(records, slot) is Some,
    ensures
        0 <= index < records.len(),
        app_record(records, slot) == Some(records[index]),
{
    let factory = of_kind(PartitionKind::Factory);
    let test = match slot {
        Slot::Unselected if first_where(records, factory) is Some => factory,
        Slot::Unselected | Slot::Slot0 => of_kind(PartitionKind::Ota0),
        Slot::Slot1 => of_kind(PartitionKind::Ota1),
    };
    let index = choose|index: int| is_first(records, test, index);
    assert(is_first(records, test, index));
    index
}

/// In every table the application of the second slot is the first record of type 0 and sub-type
/// 0x11, that of the first slot the first record of type 0 and sub-type 0x10, and without a
/// selection it is the first record of type 0 and sub-type 0, or that of the first slot if there
/// is none. There is no application only where no record has these bytes. The partition that
/// holds the selection is, in the same way, the first record of type 1 and sub-type 0.
pub proof fn lemma_applications_by_bytes(records: Seq<Seq<u8>>, index: int)
    requires
        0 <= index < records.len(),
    ensures
        records[index][2] == 0 && records[index][3] == 0x11 ==> {
            &&& app_record(records, Slot::Slot1) is Some
            &&& (forall|before: int|
                0 <= before < index ==> (#[trigger] records[before])[2] != 0 || records[before][3]
                    != 0x11) ==> app_record(records, Slot::Slot1) == Some(records[index])
        },
        records[index][2] == 0 && records[index][3] == 0x10 ==> {
            &&& app_record(records, Slot::Slot0) is Some
            &&& app_record(records, Slot::Unselected) is Some
            &&& (forall|before: int|
                0 <= before < index ==> (#[trigger] records[before])[2] != 0 || records[before][3]
                    != 0x10) ==> app_record(records, Slot::Slot0) == Some(records[index])
        },
        records[index][2] == 0 && records[index][3] == 0 && (forall|before: int|
            0 <= before < index ==> (#[trigger] records[before])[2] != 0 || records[before][3] != 0)
            ==> app_record(records, Slot::Unselected) == Some(records[index]),
        (forall|other: int|
            0 <= other < records.len() ==> (#[trigger] records[other])[2] != 0 || records[other][3]
                != 0) ==> app_record(records, Slot::Unselected) == app_record(records, Slot::Slot0),
        records[index][2] == 1 && records[index][3] == 0 && (forall|before: int|
            0 <= before < index ==> (#[trigger] records[before])[2] != 1 || records[before][3] != 0)
            ==> first_where(records, of_kind(PartitionKind::OtaData)) == Some(records[index]),
{
    lemma_first_with(records, PartitionKind::OtaData);
    lemma_first_with(records, PartitionKind::Factory);
    lemma_first_with(records, PartitionKind::Ota0);
    lemma_first_with(records, PartitionKind::Ota1);
}

/// A record that is found for a slot has the bytes of that slot: type 0, and sub-type 0x10 for
/// the first slot, 0x11 for the second, and 0 or 0x10 without a selection. The partition that
/// holds the selection has type 1 and sub-type 0.
pub proof fn lemma_bytes_of_applications(records: Seq<Seq<u8>>, slot: Slot)
    ensures
        app_record(records, slot) matches Some(record) ==> {
            &&& records.contains(record)
            &&& record[2] == 0
            &&& slot == Slot::Slot0 ==> record[3] == 0x10
            &&& slot == Slot::Slot1 ==> record[3] == 0x11
            &&& slot == Slot::Unselected ==> record[3] == 0 || record[3] == 0x10
        },
        first_where(records, of_kind(PartitionKind::OtaData)) matches Some(record) ==> {
            &&& records.contains(record)
            &&& record[2] == 1
            &&& record[3] == 0
        },
{
    lemma_first_with(records, PartitionKind::OtaData);
    lemma_first_with(records, PartitionKind::Factory);
    lemma_first_with(records, PartitionKind::Ota0);
    lemma_first_with(records, PartitionKind::Ota1);
}

/// A table can be searched for a kind exactly if each of its records either comes after one with
/// the bytes of that kind or has a type and a sub-type that the bootloader knows.
pub proof fn lemma_searchable_by_bytes(records: Seq<Seq<u8>>, kind: PartitionKind)
    ensures
        ({
            let raw_type: u8 = if kind == PartitionKind::OtaData { 1 } else { 0 };
            let raw_subtype: u8 = if kind == PartitionKind::Ota0 {
                0x10
            } else if kind == PartitionKind::Ota1 {
                0x11
            } else {
                0
            };
            searchable(records, kind) <==> forall|index: int| #![trigger records[index]]
                0 <= index < records.len() ==> {
                    ||| exists|before: int| {
                        &&& 0 <= before < index
                        &&& (#[trigger] records[before])[2] == raw_type
                        &&& records[before][3] == raw_subtype
                    }
                    ||| records[index][2] == 0 && (records[index][3] == 0 || 0x10
                        <= records[index][3] <= 0x20)
                    ||| records[index][2] == 1 && (records[index][3] <= 6 || 0x81
                        <= records[index][3] <= 0x83)
                    ||| 2 <= records[index][2] <= 3 && records[index][3] <= 1
                }
        }),
{
    assert forall|index: int| #![trigger records[index]] 0 <= index < records.len() implies known_type(
        records[index][2],
        records[index][3],
    ) == {
        ||| records[index][2] == 0 && (records[index][3] == 0 || 0x10 <= records[index][3] <= 0x20)
        ||| records[index][2] == 1 && (records[index][3] <= 6 || 0x81 <= records[index][3] <= 0x83)
        ||| 2 <= records[index][2] <= 3 && records[index][3] <= 1
    } by {}
}

/// Only the low byte of an entry matters for the page that it maps, and the pages follow each
/// other at a distance of 64 KiB from address 0 on.
pub proof fn lemma_mapped_pages(upper: u32, page: u8)
    requires
        upper < 0x100_0000,
    ensures
        mapped_page((upper * 0x100 + page) as u32) == page * 0x1_0000,
{
}

/// In every table the booted partition is the first record whose bytes 4 to 7 encode the mapped
/// address, and none is found only where no record has that address.
pub proof fn lemma_booted_partition_by_bytes(records: Seq<Seq<u8>>, mmu_entry: u32, index: int)
    requires
        0 <= index < records.len(),
    ensures
        ({
            let address = (mmu_entry % 0x100) * 0x1_0000;
            let begins = |place: int|
                records[place][4] + records[place][5] * 0x100 + records[place][6] * 0x1_0000
                    + records[place][7] * 0x100_0000;
            let booted = first_where(records, at_offset(mapped_page(mmu_entry)));
            &&& begins(index) == address ==> booted is Some
            &&& begins(index) == address && (forall|before: int|
                0 <= before < index ==> #[trigger] begins(before) != address) ==> booted == Some(
                records[index],
            )
            &&& (forall|other: int|
                0 <= other < records.len() ==> #[trigger] begins(other) != address) ==> booted is None
        }),
{
    let address = (mmu_entry % 0x100) * 0x1_0000;
    let begins = |place: int|
        records[place][4] + records[place][5] * 0x100 + records[place][6] * 0x1_0000
            + records[place][7] * 0x100_0000;
    let test = at_offset(mapped_page(mmu_entry));
    if first_where(records, test) is None {
        lemma_no_match(records, test);
        assert(!test(records[index]));
    } else {
        let found = choose|found: int| is_first(records, test, found);
        assert(is_first(records, test, found));
        assert(begins(found) == address);
        if found < index {
            assert(test(records[found]));
        } else if index < found {
            assert(!test(records[index]));
        }
    }
}

} // verus!
