//! The directory of the flash file system: 32-byte slots, one file each.

use vstd::prelude::*;
use vstd::utf8::{decode_utf8, valid_utf8};
use crate::error::Error;
use crate::text::{decode_name, lemma_padded_name_is_its_text, nul_padded, text_len, trim_nul};
use crate::wire::{le16, le32, lemma_le16_fits, lemma_le32_fits, read_le16, read_le32};

verus! {

/// Size of one directory slot.
pub const SLOT_SIZE: u32 = 32;

/// Width of the name field at the front of a slot.
pub const NAME_SIZE: u32 = 24;

/// Number of slots in the directory region, the reserved slot 0 included.
pub const DIRECTORY_SLOTS: u32 = 96;

/// Size of the directory region.
pub const DIRECTORY_SIZE: u32 = 3072;

/// Number of slots that can hold a file: slots 1 to 95.
pub const LISTED_SLOTS: u32 = 95;

/// Size of the part of the directory region that a listing reads.
pub const LISTING_SIZE: u32 = 3040;

/// One file of the device, as its directory slot describes it.
#[derive(Debug, Clone, PartialEq, Eq)]
pub struct DirEnt {
    /// The file's name, without the padding of its field.
    pub name: String,
    /// Index of the first cluster of the file's chain.
    pub cluster: u16,
    /// Size of the file in bytes.
    pub len: u32,
}

/// A directory entry in contracts.
pub struct DirEntView {
    pub name: Seq<char>,
    pub cluster: u16,
    pub len: u32,
}

impl View for DirEnt {
    type V = DirEntView;

    open spec fn view(&self) -> DirEntView {
        DirEntView { name: self.name@, cluster: self.cluster, len: self.len }
    }
}

impl DeepView for DirEnt {
    type V = DirEntView;

    open spec fn deep_view(&self) -> DirEntView {
        self@
    }
}

/// Whether a slot holds no file: its first byte is `0x00` or `0xFF`.
pub open spec fn slot_is_vacant(slot: Seq<u8>) -> bool {
    slot[0] == 0x00 || slot[0] == 0xFF
}

/// The name field of a slot.
pub open spec fn slot_name_field(slot: Seq<u8>) -> Seq<u8> {
    slot.subrange(0, NAME_SIZE as int)
}

/// Whether a slot can be read: it is vacant, or its name field is UTF-8.
pub open spec fn slot_is_readable(slot: Seq<u8>) -> bool {
    slot_is_vacant(slot) || valid_utf8(slot_name_field(slot))
}

/// The entry that an occupied slot describes: the name from bytes 0 to 23,
/// the first cluster from bytes 26 and 27, the size from bytes 28 to 31.
pub open spec fn slot_entry(slot: Seq<u8>) -> DirEntView {
    DirEntView {
        name: trim_nul(decode_utf8(slot_name_field(slot))),
        cluster: le16(slot.subrange(26, 28)) as u16,
        len: le32(slot.subrange(28, 32)) as u32,
    }
}

/// The `index`-th slot of a run of slots.
pub open spec fn slot_at(region: Seq<u8>, index: int) -> Seq<u8> {
    region.subrange(index * SLOT_SIZE, index * SLOT_SIZE + SLOT_SIZE)
}

/// Whether each of the first `count` slots of `region` can be read.
pub open spec fn slots_readable(region: Seq<u8>, count: int) -> bool {
    forall|i: int| 0 <= i < count ==> slot_is_readable(#[trigger] slot_at(region, i))
}

/// The entries of the occupied slots among the first `count` slots of
/// `region`, in the order of the slots.
pub open spec fn listing(region: Seq<u8>, count: int) -> Seq<DirEntView>
    decreases count,
{
    if count <= 0 {
        Seq::empty()
    } else {
        let before = listing(region, count - 1);
        let slot = slot_at(region, count - 1);
        if slot_is_vacant(slot) {
            before
        } else {
            before.push(slot_entry(slot))
        }
    }
}

/// The number of occupied slots among the first `count` slots of `region`.
pub open spec fn occupied_slots(region: Seq<u8>, count: int) -> int
    decreases count,
{
    if count <= 0 {
        0
    } else if slot_is_vacant(slot_at(region, count - 1)) {
        occupied_slots(region, count - 1)
    } else {
        occupied_slots(region, count - 1) + 1
    }
}

/// The slot that the `position`-th entry of `listing(region, count)` was read from.
pub open spec fn entry_slot(region: Seq<u8>, count: int, position: int) -> int
    decreases count,
{
    if count <= 0 {
        -1
    } else if position < listing(region, count - 1).len() {
        entry_slot(region, count - 1, position)
    } else {
        count - 1
    }
}

/// The place of the first entry called `name`, or the number of entries if
/// there is none.
pub open spec fn position_of(entries: Seq<DirEntView>, name: Seq<char>) -> int
    decreases entries.len(),
{
    if entries.len() == 0 || entries[0].name == name {
        0
    } else {
        1 + position_of(entries.drop_first(), name)
    }
}

/// Reads one directory slot.
///
/// A vacant slot gives `None`. An occupied slot gives its entry, or fails
/// where the name is not UTF-8. Anything but 32 bytes is a short read.
pub fn decode_slot(slot: &[u8]) -> (res: Result<Option<DirEnt>, Error>)
    ensures
        slot@.len() != SLOT_SIZE ==> res == Err::<Option<DirEnt>, Error>(Error::TransportError),
        slot@.len() == SLOT_SIZE ==> match res {
            Ok(None) => slot_is_vacant(slot@),
            Ok(Some(entry)) => !slot_is_vacant(slot@) && slot_is_readable(slot@) && entry@
                == slot_entry(slot@),
            Err(e) => !slot_is_readable(slot@) && e == Error::Utf8DecodeFailure,
        },
{
    if slot.len() != SLOT_SIZE as usize {
        return Err(Error::TransportError);
    }
    if slot[0] == 0x00 || slot[0] == 0xFF {
        return Ok(None);
    }
    let field = vstd::slice::slice_subrange(slot, 0, NAME_SIZE as usize);
    match decode_name(field) {
        Err(e) => Err(e),
        Ok(name) => {
            proof {
                lemma_le16_fits(slot@.subrange(26, 28));
                lemma_le32_fits(slot@.subrange(28, 32));
            }
            let cluster: u16 = read_le16(slot, 26);
            let len: u32 = read_le32(slot, 28);
            Ok(Some(DirEnt { name, cluster, len }))
        },
    }
}

/// Lists the files in the directory.
///
/// `region` is the part of the directory region behind the reserved slot:
/// slots 1 to 95, 3040 bytes. The entries come in the order of their slots;
/// vacant slots give none. A region of another size is a short read. One
/// occupied slot whose name is not UTF-8 fails the whole listing.
pub fn list(region: &[u8]) -> (res: Result<Vec<DirEnt>, Error>)
    ensures
        region@.len() != LISTING_SIZE ==> res == Err::<Vec<DirEnt>, Error>(Error::TransportError),
        region@.len() == LISTING_SIZE ==> match res {
            Ok(entries) => slots_readable(region@, LISTED_SLOTS as int) && entries.deep_view()
                == listing(region@, LISTED_SLOTS as int),
            Err(e) => !slots_readable(region@, LISTED_SLOTS as int) && e
                == Error::Utf8DecodeFailure,
        },
{
    if region.len() != LISTING_SIZE as usize {
        return Err(Error::TransportError);
    }
    let mut entries: Vec<DirEnt> = Vec::new();
    let mut index: usize = 0;
    assert(entries.deep_view() =~= listing(region@, 0));
    while index < LISTED_SLOTS as usize
        invariant
            region@.len() == LISTING_SIZE,
            index <= LISTED_SLOTS,
            slots_readable(region@, index as int),
            entries.deep_view() == listing(region@, index as int),
        decreases LISTED_SLOTS - index,
    {
        assert(index < 95 && SLOT_SIZE == 32);
        let from: usize = index * SLOT_SIZE as usize;
        let slot = vstd::slice::slice_subrange(region, from, from + SLOT_SIZE as usize);
        assert(slot@ == slot_at(region@, index as int));
        match decode_slot(slot) {
            Err(_) => {
                return Err(Error::Utf8DecodeFailure);
            },
            Ok(None) => {},
            Ok(Some(entry)) => {
                let ghost before = entries.deep_view();
                entries.push(entry);
                assert(entries.deep_view() =~= before.push(entry@));
            },
        }
        index += 1;
    }
    Ok(entries)
}

/// Looks for the first entry whose name is exactly `name`.
pub fn find(entries: &Vec<DirEnt>, name: &str) -> (found: Option<usize>)
    ensures
        match found {
            Some(place) => place < entries.len() && place == position_of(
                entries.deep_view(),
                name@,
            ),
            None => position_of(entries.deep_view(), name@) == entries.len(),
        },
{
    let wanted: String = name.to_owned();
    let mut index: usize = 0;
    while index < entries.len()
        invariant
            index <= entries.len(),
            wanted@ == name@,
            forall|j: int| 0 <= j < index ==> (#[trigger] entries.deep_view()[j]).name != name@,
        decreases entries.len() - index,
    {
        if entries[index].name == wanted {
            proof {
                lemma_position_of(entries.deep_view(), name@, index as int);
            }
            return Some(index);
        }
        index += 1;
    }
    proof {
        lemma_position_of(entries.deep_view(), name@, index as int);
    }
    None
}

/// `position_of` is the first place with the name: no entry before it has
/// the name, and it is the end or an entry that has it.
pub proof fn lemma_position_of(entries: Seq<DirEntView>, name: Seq<char>, place: int)
    requires
        0 <= place <= entries.len(),
        forall|j: int| 0 <= j < place ==> (#[trigger] entries[j]).name != name,
        place < entries.len() ==> entries[place].name == name,
    ensures
        position_of(entries, name) == place,
    decreases entries.len(),
{
    if entries.len() == 0 || place == 0 {
    } else {
        let rest = entries.drop_first();
        assert(entries[0].name != name);
        assert forall|j: int| 0 <= j < place - 1 implies (#[trigger] rest[j]).name != name by {
            assert(rest[j] == entries[j + 1]);
        }
        lemma_position_of(rest, name, place - 1);
    }
}

/// What `position_of` finds: a place within the entries or their number, no
/// entry before it with the name, and the name at it if it is an entry.
pub proof fn lemma_position_of_is_first(entries: Seq<DirEntView>, name: Seq<char>)
    ensures
        0 <= position_of(entries, name) <= entries.len(),
        forall|j: int|
            0 <= j < position_of(entries, name) ==> (#[trigger] entries[j]).name != name,
        position_of(entries, name) < entries.len() ==> entries[position_of(
            entries,
            name,
        )].name == name,
    decreases entries.len(),
{
    if entries.len() == 0 || entries[0].name == name {
    } else {
        let rest = entries.drop_first();
        lemma_position_of_is_first(rest, name);
        assert forall|j: int| 0 <= j < position_of(entries, name) implies (
        #[trigger] entries[j]).name != name by {
            if j > 0 {
                assert(entries[j] == rest[j - 1]);
            }
        }
    }
}

/// A listing holds one entry for each occupied slot and none for a vacant
/// one: entry `k` is what slot `entry_slot(.., k)` describes, that slot is
/// occupied, and entries stand in the order of their slots.
pub proof fn lemma_listing_is_the_occupied_slots(region: Seq<u8>, count: int)
    ensures
        listing(region, count).len() == occupied_slots(region, count),
        forall|k: int|
            0 <= k < listing(region, count).len() ==> {
                let slot = #[trigger] entry_slot(region, count, k);
                &&& 0 <= slot < count
                &&& !slot_is_vacant(slot_at(region, slot))
                &&& listing(region, count)[k] == slot_entry(slot_at(region, slot))
            },
        forall|j: int, k: int|
            0 <= j < k < listing(region, count).len() ==> #[trigger] entry_slot(region, count, j)
                < #[trigger] entry_slot(region, count, k),
    decreases count,
{
    if count > 0 {
        lemma_listing_is_the_occupied_slots(region, count - 1);
        let before = listing(region, count - 1);
        let now = listing(region, count);
        assert forall|k: int| 0 <= k < now.len() implies {
            let slot = #[trigger] entry_slot(region, count, k);
            &&& 0 <= slot < count
            &&& !slot_is_vacant(slot_at(region, slot))
            &&& now[k] == slot_entry(slot_at(region, slot))
        } by {
            if k < before.len() {
                assert(entry_slot(region, count, k) == entry_slot(region, count - 1, k));
                assert(now[k] == before[k]);
            }
        }
        assert forall|j: int, k: int| 0 <= j < k < now.len() implies #[trigger] entry_slot(
            region,
            count,
            j,
        ) < #[trigger] entry_slot(region, count, k) by {
            assert(entry_slot(region, count, j) == entry_slot(region, count - 1, j));
            if k < before.len() {
                assert(entry_slot(region, count, k) == entry_slot(region, count - 1, k));
            }
        }
    }
}

/// Where every listed slot is vacant, the listing is empty.
pub proof fn lemma_vacant_directory_lists_nothing(region: Seq<u8>, count: int)
    requires
        forall|i: int| 0 <= i < count ==> slot_is_vacant(#[trigger] slot_at(region, i)),
    ensures
        listing(region, count).len() == 0,
    decreases count,
{
    if count > 0 {
        lemma_vacant_directory_lists_nothing(region, count - 1);
    }
}

/// What an occupied slot with a padded name describes: a name that is the
/// text before the padding and holds no NUL character, and a cluster and a
/// length that are their bytes read least significant first, whatever the
/// byte order of the machine.
pub proof fn lemma_padded_slot_entry(slot: Seq<u8>)
    requires
        slot.len() == SLOT_SIZE,
        !slot_is_vacant(slot),
        slot_is_readable(slot),
        nul_padded(slot_name_field(slot)),
    ensures
        !slot_entry(slot).name.contains('\0'),
        slot_entry(slot).name == decode_utf8(
            slot_name_field(slot).take(text_len(slot_name_field(slot))),
        ),
        slot_entry(slot).cluster == slot[26] + 256 * slot[27],
        slot_entry(slot).len == slot[28] + 256 * slot[29] + 65_536 * slot[30] + 16_777_216
            * slot[31],
{
    lemma_padded_name_is_its_text(slot_name_field(slot));
    lemma_le16_fits(slot.subrange(26, 28));
    lemma_le32_fits(slot.subrange(28, 32));
}

} // verus!
