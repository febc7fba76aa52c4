//! The whole volume in memory: boot sector, two copies of the file allocation
//! table, root directory and data area.

use crate::codec::{append_bytes, overwrite, zeros};
use crate::error::FatError;
use crate::fat::bios_param::{bpb_of, BIOSParam, BOOT_SECTOR_SIZE, SECTORS_PER_ROOT};
use crate::fat::chain::{chain_of, follow_chain, lemma_chain_links};
use crate::fat::directory::{
    directory_end, has_free_slot, has_named, is_first_free_slot, is_first_label, is_first_named,
    is_label, is_named, keep_live, label_text, lemma_directory_end_unique, lemma_live_entries,
    live_entries, no_label, no_label_text,
};
use crate::fat::is_valid_cluster;
use crate::fat::names::{fits_8_3, same_name};
use crate::fat::root_entry::{
    entry_of, lemma_entry_round_trip, RootEntry, BYTES_PER_ROOT_ENTRY, SLOT_DELETED,
};
use crate::fat::table::{
    entry_count, fat_entry, fat_entry_at, first_free_entry, is_first_free, list_fat_entries,
    none_free, with_fat_entry, write_fat_entry,
};
use crate::text::string_from_utf8;
use vstd::prelude::*;
use vstd::slice::{slice_subrange, slice_to_vec};
use vstd::string::StringExecFns;
use vstd::utf8::encode_utf8;

verus! {

/// A FAT12 volume, section by section.
#[derive(Debug)]
pub struct Image {
    boot_sector: Vec<u8>,
    fat_1: Vec<u8>,
    fat_2: Vec<u8>,
    root_dir: Vec<u8>,
    data_area: Vec<u8>,
    bpb_data: BIOSParam,
}

/// What an image holds: its geometry and the bytes of its five sections.
#[verifier::ext_equal]
pub struct ImageView {
    pub bpb: BIOSParam,
    pub boot_sector: Seq<u8>,
    pub fat_1: Seq<u8>,
    pub fat_2: Seq<u8>,
    pub root_dir: Seq<u8>,
    pub data_area: Seq<u8>,
}

/// The image that the bytes of a volume spell under the geometry `bpb`: the
/// sections lie one after the other, each as long as `bpb` says, and the data
/// area takes what is left.
pub open spec fn image_of(bpb: BIOSParam, volume: Seq<u8>) -> ImageView {
    ImageView {
        bpb,
        boot_sector: volume.subrange(0, bpb.boot_len()),
        fat_1: volume.subrange(bpb.boot_len(), bpb.boot_len() + bpb.fat_len()),
        fat_2: volume.subrange(bpb.boot_len() + bpb.fat_len(), bpb.boot_len() + 2 * bpb.fat_len()),
        root_dir: volume.subrange(bpb.boot_len() + 2 * bpb.fat_len(), bpb.data_offset()),
        data_area: volume.subrange(bpb.data_offset(), volume.len() as int),
    }
}

/// What loading the volume of `length` bytes that starts at byte `start` of
/// `bytes` gives. The boot sector is read at `start`; a source that ends
/// before the boot sector does, or a geometry that is not plausible, is a
/// parse error.
/// A volume that reaches past the end of `bytes`, or is too short for the
/// sections that its geometry asks for, is out of bounds.
pub open spec fn loaded(bytes: Seq<u8>, start: int, length: int) -> Result<ImageView, FatError> {
    let bpb = bpb_of(bytes.skip(start));
    if start + BOOT_SECTOR_SIZE > bytes.len() || !bpb.plausible() {
        Err(FatError::Parse)
    } else if start + length > bytes.len() || bpb.data_offset() > length {
        Err(FatError::Bounds)
    } else {
        Ok(image_of(bpb, bytes.subrange(start, start + length)))
    }
}

impl ImageView {
    /// An image of `length` zero bytes under the geometry `bpb`.
    pub open spec fn blank(bpb: BIOSParam, length: int) -> ImageView {
        ImageView {
            bpb,
            boot_sector: zeros(bpb.boot_len()),
            fat_1: zeros(bpb.fat_len()),
            fat_2: zeros(bpb.fat_len()),
            root_dir: zeros(bpb.root_len()),
            data_area: zeros(length - bpb.data_offset()),
        }
    }

    /// Whether every section before the data area has the length that the
    /// geometry gives it.
    pub open spec fn well_formed(self) -> bool {
        &&& self.boot_sector.len() == self.bpb.boot_len()
        &&& self.fat_1.len() == self.bpb.fat_len()
        &&& self.fat_2.len() == self.bpb.fat_len()
        &&& self.root_dir.len() == self.bpb.root_len()
    }

    /// The bytes of the volume: the five sections in their order on disk.
    pub open spec fn bytes(self) -> Seq<u8> {
        self.boot_sector + self.fat_1 + self.fat_2 + self.root_dir + self.data_area
    }

    /// The number of slots of the root directory.
    pub open spec fn slot_count(self) -> int {
        self.root_dir.len() as int / BYTES_PER_ROOT_ENTRY as int
    }

    /// The record in slot `i` of the root directory.
    pub open spec fn slot(self, i: int) -> RootEntry {
        entry_of(self.root_dir.skip(i * BYTES_PER_ROOT_ENTRY))
    }

    /// Every slot of the root directory, in order.
    pub open spec fn slots(self) -> Seq<RootEntry> {
        Seq::new(self.slot_count() as nat, |i: int| self.slot(i))
    }

    /// The live entries of the root directory, in order.
    pub open spec fn live(self) -> Seq<RootEntry> {
        live_entries(self.slots())
    }

    /// The number of entries of the file allocation table.
    pub open spec fn fat_entry_count(self) -> int {
        entry_count(self.fat_1.len() as int)
    }

    /// Whether the `len` bytes from the start of cluster `cluster` on lie in
    /// the data area. The data area starts with cluster 2, and a cluster is
    /// one sector long.
    pub open spec fn in_data_area(self, cluster: int, len: int) -> bool {
        2 <= cluster && (cluster - 2) * self.bpb.bytes_per_sector + len <= self.data_area.len()
    }
}

impl View for Image {
    type V = ImageView;

    closed spec fn view(&self) -> ImageView {
        ImageView {
            bpb: self.bpb_data,
            boot_sector: self.boot_sector@,
            fat_1: self.fat_1@,
            fat_2: self.fat_2@,
            root_dir: self.root_dir@,
            data_area: self.data_area@,
        }
    }
}

/// Tells whether a volume of `length` bytes has room for the sections that
/// come before the data area.
fn layout_fits(bpb: &BIOSParam, length: usize) -> (fits: bool)
    ensures
        fits == (bpb.data_offset() <= length),
{
    let bytes_per_sector = bpb.bytes_per_sector as u64;
    assert(bpb.reserved_sectors * bpb.bytes_per_sector <= 0xffff * 0xffff) by (nonlinear_arith)
        requires
            bpb.reserved_sectors <= 0xffff,
            bpb.bytes_per_sector <= 0xffff,
    ;
    assert(bpb.sectors_per_fat * bpb.bytes_per_sector <= 0xffff_ffff * 0xffff) by (nonlinear_arith)
        requires
            bpb.sectors_per_fat <= 0xffff_ffff,
            bpb.bytes_per_sector <= 0xffff,
    ;
    assert(SECTORS_PER_ROOT * bpb.bytes_per_sector <= 14 * 0xffff) by (nonlinear_arith)
        requires
            SECTORS_PER_ROOT == 14,
            bpb.bytes_per_sector <= 0xffff,
    ;
    let boot_sector_size = bpb.reserved_sectors as u64 * bytes_per_sector;
    let bytes_per_fat = bpb.sectors_per_fat as u64 * bytes_per_sector;
    let bytes_per_root = SECTORS_PER_ROOT as u64 * bytes_per_sector;
    boot_sector_size + bytes_per_fat * 2 + bytes_per_root <= length as u64
}

/// The lengths of the sections of a volume of `length` bytes: reserved
/// region, one table, root directory, data area.
fn section_sizes(bpb: &BIOSParam, length: usize) -> (sizes: (usize, usize, usize, usize))
    requires
        bpb.data_offset() <= length,
    ensures
        sizes.0 == bpb.boot_len(),
        sizes.1 == bpb.fat_len(),
        sizes.2 == bpb.root_len(),
        sizes.3 == length - bpb.data_offset(),
{
    assert(0 <= bpb.reserved_sectors * bpb.bytes_per_sector) by (nonlinear_arith);
    assert(0 <= bpb.sectors_per_fat * bpb.bytes_per_sector) by (nonlinear_arith);
    assert(0 <= SECTORS_PER_ROOT * bpb.bytes_per_sector) by (nonlinear_arith);
    let bytes_per_sector = bpb.bytes_per_sector as usize;
    let boot_sector_size = bpb.reserved_sectors as usize * bytes_per_sector;
    let bytes_per_fat = bpb.sectors_per_fat as usize * bytes_per_sector;
    let bytes_per_root = SECTORS_PER_ROOT * bytes_per_sector;
    let data_offset = boot_sector_size + bytes_per_fat * 2 + bytes_per_root;
    (boot_sector_size, bytes_per_fat, bytes_per_root, length - data_offset)
}

impl Image {
    /// Every image keeps its sections as long as its geometry says.
    #[verifier::type_invariant]
    pub open spec fn inv(&self) -> bool {
        self@.well_formed()
    }

    /// Create a new blank FAT Image from a defined BPB: `length` zero bytes,
    /// cut into the sections that the geometry asks for. The sections before
    /// the data area must fit into `length` bytes.
    pub fn new(bpb: BIOSParam, length: usize) -> (image: Image)
        requires
            bpb.data_offset() <= length,
        ensures
            image@ == ImageView::blank(bpb, length as int),
            image@.well_formed(),
    {
        let (boot_sector_size, bytes_per_fat, bytes_per_root, bytes_per_data_area) =
            section_sizes(&bpb, length);
        Image {
            boot_sector: vec![0; boot_sector_size],
            fat_1: vec![0; bytes_per_fat],
            fat_2: vec![0; bytes_per_fat],
            root_dir: vec![0; bytes_per_root],
            data_area: vec![0; bytes_per_data_area],
            bpb_data: bpb,
        }
    }

    /// Loads the volume that `bytes` holds from its first byte to its last.
    /// The bytes of the loaded image are the bytes it was loaded from.
    pub fn from_bytes(bytes: &[u8]) -> (r: Result<Image, FatError>)
        ensures
            match r {
                Ok(image) => {
                    &&& loaded(bytes@, 0, bytes@.len() as int) == Ok::<ImageView, FatError>(image@)
                    &&& image@.well_formed()
                    &&& image@.bytes() == bytes@
                },
                Err(e) => loaded(bytes@, 0, bytes@.len() as int) == Err::<ImageView, FatError>(e),
            },
    {
        assert(bytes@.subrange(0, bytes@.len() as int) == bytes@);
        Self::from_bytes_offset(bytes, 0, bytes.len())
    }

    /// Loads the volume of `length` bytes that starts at byte `start` of
    /// `bytes`: reads the geometry from the boot sector at `start`, and cuts
    /// the `length` bytes into the five sections that the geometry asks for.
    pub fn from_bytes_offset(bytes: &[u8], start: usize, length: usize) -> (r: Result<
        Image,
        FatError,
    >)
        ensures
            match r {
                Ok(image) => {
                    &&& loaded(bytes@, start as int, length as int) == Ok::<ImageView, FatError>(
                        image@,
                    )
                    &&& image@.well_formed()
                    &&& image@.bytes() == bytes@.subrange(start as int, start + length)
                },
                Err(e) => loaded(bytes@, start as int, length as int) == Err::<
                    ImageView,
                    FatError,
                >(e),
            },
    {
        let bpb = BIOSParam::parse(bytes, start)?;
        if length > bytes.len() || start > bytes.len() - length {
            return Err(FatError::Bounds);
        }
        if !layout_fits(&bpb, length) {
            return Err(FatError::Bounds);
        }
        let image = Self::cut(bpb, slice_subrange(bytes, start, start + length));
        proof {
            lemma_loaded_bytes(bytes@, start as int, length as int);
        }
        Ok(image)
    }

    /// Cuts the bytes of a volume into the sections that its geometry asks
    /// for.
    fn cut(bpb: BIOSParam, volume: &[u8]) -> (image: Image)
        requires
            bpb.data_offset() <= volume@.len(),
        ensures
            image@ == image_of(bpb, volume@),
    {
        let (boot_sector_size, bytes_per_fat, bytes_per_root, _) = section_sizes(
            &bpb,
            volume.len(),
        );
        let fat_1_at = boot_sector_size;
        let fat_2_at = fat_1_at + bytes_per_fat;
        let root_dir_at = fat_2_at + bytes_per_fat;
        let data_area_at = root_dir_at + bytes_per_root;
        let image = Image {
            boot_sector: slice_to_vec(slice_subrange(volume, 0, fat_1_at)),
            fat_1: slice_to_vec(slice_subrange(volume, fat_1_at, fat_2_at)),
            fat_2: slice_to_vec(slice_subrange(volume, fat_2_at, root_dir_at)),
            root_dir: slice_to_vec(slice_subrange(volume, root_dir_at, data_area_at)),
            data_area: slice_to_vec(slice_subrange(volume, data_area_at, volume.len())),
            bpb_data: bpb,
        };
        assert(image@ =~= image_of(bpb, volume@));
        image
    }

    /// The bytes of the volume, section after section: what saving it writes.
    pub fn to_bytes(&self) -> (bytes: Vec<u8>)
        ensures
            bytes@ == self@.bytes(),
    {
        let mut bytes: Vec<u8> = Vec::new();
        append_bytes(&mut bytes, self.boot_sector.as_slice());
        append_bytes(&mut bytes, self.fat_1.as_slice());
        append_bytes(&mut bytes, self.fat_2.as_slice());
        append_bytes(&mut bytes, self.root_dir.as_slice());
        append_bytes(&mut bytes, self.data_area.as_slice());
        bytes
    }

    /// Extract the BIOS Parameter Block (BPB) from the FAT filesystem.
    pub fn bios_parameter(&self) -> (bpb: BIOSParam)
        ensures
            bpb == self@.bpb,
    {
        self.bpb_data.clone()
    }

    /// FAT sector size in bytes.
    pub fn sector_size(&self) -> (size: usize)
        ensures
            size == self@.bpb.bytes_per_sector,
    {
        self.bpb_data.bytes_per_sector as usize
    }

    /// Return all FAT root entries (including unused): one record for every
    /// 32 bytes of the root directory, in order. The index of a record is the
    /// index of its slot.
    pub fn root_entries_all(&self) -> (entries: Vec<RootEntry>)
        ensures
            entries@ == self@.slots(),
    {
        let count = self.root_dir.len() / BYTES_PER_ROOT_ENTRY;
        let mut entries: Vec<RootEntry> = Vec::new();
        let mut i: usize = 0;
        while i < count
            invariant
                i <= count,
                count == self@.slot_count(),
                count * BYTES_PER_ROOT_ENTRY <= self.root_dir@.len() <= usize::MAX,
                self@.root_dir == self.root_dir@,
                entries@.len() == i,
                forall|k: int| 0 <= k < i ==> entries@[k] == self@.slot(k),
            decreases count - i,
        {
            let chunk = slice_subrange(
                self.root_dir.as_slice(),
                i * BYTES_PER_ROOT_ENTRY,
                (i + 1) * BYTES_PER_ROOT_ENTRY,
            );
            let entry = RootEntry::decode(chunk);
            assert(entry =~= self@.slot(i as int));
            entries.push(entry);
            i += 1;
        }
        assert(entries@ =~= self@.slots());
        entries
    }

    /// Return used FAT root entries: the records before the first slot that
    /// ends the directory, without the deleted ones, in order.
    pub fn root_entries(&self) -> (entries: Vec<RootEntry>)
        ensures
            entries@ == self@.live(),
            forall|j: int|
                0 <= j < entries@.len() ==> {
                    &&& !(#[trigger] entries@[j]).free()
                    &&& exists|i: int|
                        0 <= i < directory_end(self@.slots()) && i < self@.slot_count()
                            && #[trigger] self@.slot(i) == entries@[j]
                },
    {
        let all = self.root_entries_all();
        let mut entries: Vec<RootEntry> = Vec::new();
        let mut i: usize = 0;
        assert(all@.take(0) =~= Seq::<RootEntry>::empty());
        proof {
            reveal(Seq::filter);
        }
        while i < all.len() && !all[i].rest_are_free()
            invariant
                i <= all@.len(),
                forall|k: int| 0 <= k < i ==> !all@[k].ends_directory(),
                entries@ == all@.take(i as int).filter(keep_live()),
            decreases all@.len() - i,
        {
            let entry = all[i];
            proof {
                all@.take(i as int).lemma_filter_push(entry, keep_live());
                assert(all@.take(i + 1) =~= all@.take(i as int).push(entry));
            }
            if entry.filename[0] != SLOT_DELETED {
                entries.push(entry);
            }
            i += 1;
        }
        proof {
            lemma_directory_end_unique(all@, i as int);
            assert forall|j: int| 0 <= j < entries@.len() implies {
                &&& !(#[trigger] entries@[j]).free()
                &&& exists|i: int|
                    0 <= i < directory_end(self@.slots()) && i < self@.slot_count()
                        && #[trigger] self@.slot(i) == entries@[j]
            } by {
                lemma_live_entries(all@, j);
                let i = choose|i: int|
                    0 <= i < directory_end(all@) && i < all@.len() && #[trigger] all@[i]
                        == entries@[j];
                assert(self@.slot(i) == entries@[j]);
            }
        }
        entries
    }

    /// FAT volume label: the eleven bytes of the two name fields of the first
    /// live entry that carries the label attribute, as text and with their
    /// spaces. `has no label` stands for a volume without such an entry, and
    /// for a label that is not well-formed UTF-8.
    pub fn volume_label(&self) -> (label: String)
        ensures
            forall|i: int| is_first_label(self@.live(), i) ==> label@ == label_text(self@.live()[i]),
            no_label(self@.live()) ==> label@ == no_label_text(),
    {
        let entries = self.root_entries();
        let mut i: usize = 0;
        while i < entries.len()
            invariant
                i <= entries@.len(),
                entries@ == self@.live(),
                forall|k: int| 0 <= k < i ==> !is_label(entries@[k]),
            decreases entries@.len() - i,
        {
            let entry = entries[i];
            if entry.is_volume_label() {
                assert(is_first_label(entries@, i as int));
                assert forall|j: int| is_first_label(entries@, j) implies j == i by {}
                let mut bytes: Vec<u8> = Vec::new();
                append_bytes(&mut bytes, entry.filename.as_slice());
                append_bytes(&mut bytes, entry.extension.as_slice());
                return match string_from_utf8(bytes) {
                    Some(label) => {
                        proof {
                            vstd::utf8::encode_utf8_decode_utf8(label@);
                        }
                        label
                    },
                    None => String::from_str("has no label"),
                };
            }
            i += 1;
        }
        String::from_str("has no label")
    }

    /// Finds the first live entry that is shown under `name`.
    fn lookup(&self, name: &[u8]) -> (found: Option<RootEntry>)
        ensures
            match found {
                Some(entry) => exists|i: int|
                    is_first_named(self@.live(), name@, i) && self@.live()[i] == entry,
                None => !has_named(self@.live(), name@),
            },
    {
        let entries = self.root_entries();
        let mut i: usize = 0;
        while i < entries.len()
            invariant
                i <= entries@.len(),
                entries@ == self@.live(),
                forall|k: int| 0 <= k < i ==> !is_named(entries@[k], name@),
            decreases entries@.len() - i,
        {
            let entry = entries[i];
            let shown = entry.display_bytes();
            if same_name(shown.as_slice(), name) {
                assert(is_first_named(entries@, name@, i as int));
                return Some(entry);
            }
            i += 1;
        }
        None
    }

    /// Get the RootEntry for the specified file within the Image: the first
    /// live entry whose name is `filename`, the case of ASCII letters apart.
    pub fn get_file_entry(&self, filename: String) -> (r: Result<RootEntry, FatError>)
        ensures
            match r {
                Ok(entry) => exists|i: int|
                    is_first_named(self@.live(), encode_utf8(filename@), i) && self@.live()[i]
                        == entry,
                Err(e) => e == FatError::NotFound && !has_named(
                    self@.live(),
                    encode_utf8(filename@),
                ),
            },
    {
        match self.lookup(filename.as_str().as_bytes()) {
            Some(entry) => Ok(entry),
            None => Err(FatError::NotFound),
        }
    }

    /// Create a new RootEntry within the Image with the specified filename.
    /// The entry is made for the first free slot of the directory, deleted
    /// slots and slots past the end of the directory included, and is handed
    /// back with the slot's index; the directory itself is not changed.
    pub fn create_file_entry(&self, filename: String, bytes: u32) -> (r: Result<
        (RootEntry, u16),
        FatError,
    >)
        ensures
            has_named(self@.live(), encode_utf8(filename@)) ==> r == Err::<
                (RootEntry, u16),
                FatError,
            >(FatError::AlreadyExists),
            !has_named(self@.live(), encode_utf8(filename@)) && !has_free_slot(self@.slots())
                ==> r == Err::<(RootEntry, u16), FatError>(FatError::NoFreeSlot),
            !has_named(self@.live(), encode_utf8(filename@)) && has_free_slot(self@.slots())
                && !fits_8_3(encode_utf8(filename@)) ==> r == Err::<(RootEntry, u16), FatError>(
                FatError::Format,
            ),
            !has_named(self@.live(), encode_utf8(filename@)) && has_free_slot(self@.slots())
                && fits_8_3(encode_utf8(filename@)) ==> r is Ok && is_first_free_slot(
                self@.slots(),
                r->Ok_0.1 as int,
            ) && r->Ok_0.0 == (RootEntry {
                file_size: bytes,
                ..RootEntry::blank().renamed(encode_utf8(filename@))
            }),
    {
        proof {
            use_type_invariant(self);
        }
        match self.lookup(filename.as_str().as_bytes()) {
            Some(_) => {
                return Err(FatError::AlreadyExists);
            },
            None => {},
        }
        let all = self.root_entries_all();
        let mut index: usize = 0;
        while index < all.len()
            invariant
                index <= all@.len(),
                all@ == self@.slots(),
                self@.well_formed(),
                !has_named(self@.live(), encode_utf8(filename@)),
                forall|k: int| 0 <= k < index ==> !all@[k].free(),
            decreases all@.len() - index,
        {
            if all[index].is_free() {
                let mut entry = RootEntry::new();
                entry.set_filename(filename)?;
                entry.set_size(bytes);
                assert(is_first_free_slot(all@, index as int));
                assert(index < 0x10000) by {
                    assert(self@.root_dir.len() == SECTORS_PER_ROOT * self@.bpb.bytes_per_sector);
                }
                return Ok((entry, index as u16));
            }
            index += 1;
        }
        Err(FatError::NoFreeSlot)
    }

    /// Stores `entry` in slot `index` of the root directory.
    pub fn save_file_entry(&mut self, entry: RootEntry, index: u16) -> (r: Result<(), FatError>)
        ensures
            index < old(self)@.slot_count() ==> r is Ok && final(self)@ == (ImageView {
                root_dir: overwrite(
                    old(self)@.root_dir,
                    index * BYTES_PER_ROOT_ENTRY,
                    entry.encoded(),
                ),
                ..old(self)@
            }),
            index >= old(self)@.slot_count() ==> r == Err::<(), FatError>(FatError::Bounds)
                && final(self)@ == old(self)@,
    {
        proof {
            use_type_invariant(&*self);
        }
        if index as usize >= self.root_dir.len() / BYTES_PER_ROOT_ENTRY {
            return Err(FatError::Bounds);
        }
        let entry_bytes = entry.to_bytes();
        let start = index as usize * BYTES_PER_ROOT_ENTRY;
        let mut i: usize = 0;
        while i < BYTES_PER_ROOT_ENTRY
            invariant
                i <= BYTES_PER_ROOT_ENTRY,
                entry_bytes@.len() == BYTES_PER_ROOT_ENTRY,
                start + BYTES_PER_ROOT_ENTRY <= old(self)@.root_dir.len() <= usize::MAX,
                old(self)@.well_formed(),
                self@ == (ImageView {
                    root_dir: overwrite(
                        old(self)@.root_dir,
                        start as int,
                        entry_bytes@.take(i as int),
                    ),
                    ..old(self)@
                }),
            decreases BYTES_PER_ROOT_ENTRY - i,
        {
            self.root_dir[start + i] = entry_bytes[i];
            i += 1;
        }
        assert(entry_bytes@.take(BYTES_PER_ROOT_ENTRY as int) == entry_bytes@);
        Ok(())
    }

    /// Every entry of the file allocation table with its index, in order.
    pub fn fat_entries(&self) -> (entries: Vec<(usize, u16)>)
        ensures
            entries@.len() == self@.fat_entry_count(),
            forall|i: int|
                0 <= i < entries@.len() ==> entries@[i] == (i as usize, fat_entry(self@.fat_1, i)),
    {
        list_fat_entries(self.fat_1.as_slice())
    }

    /// The entry of the file allocation table for `cluster_num`: the next
    /// cluster of its chain, or a mark.
    pub fn get_fat_entry(&self, cluster_num: u16) -> (value: u16)
        requires
            cluster_num < self@.fat_entry_count(),
        ensures
            value == fat_entry(self@.fat_1, cluster_num as int),
    {
        fat_entry_at(self.fat_1.as_slice(), cluster_num as usize)
    }

    /// Stores `value` as the entry for `cluster_num` in both copies of the
    /// file allocation table.
    pub fn set_fat_entry(&mut self, cluster_num: u16, value: u16) -> (r: Result<(), FatError>)
        ensures
            cluster_num < old(self)@.fat_entry_count() ==> r is Ok && final(self)@ == (ImageView {
                fat_1: with_fat_entry(old(self)@.fat_1, cluster_num as int, value),
                fat_2: with_fat_entry(old(self)@.fat_2, cluster_num as int, value),
                ..old(self)@
            }),
            cluster_num >= old(self)@.fat_entry_count() ==> r == Err::<(), FatError>(FatError::Bounds)
                && final(self)@ == old(self)@,
    {
        proof {
            use_type_invariant(&*self);
        }
        write_fat_entry(&mut self.fat_1, cluster_num as usize, value)?;
        write_fat_entry(&mut self.fat_2, cluster_num as usize, value)?;
        Ok(())
    }

    /// The first cluster from cluster 2 on that the file allocation table
    /// marks as free.
    pub fn get_free_fat_entry(&self) -> (r: Option<usize>)
        ensures
            match r {
                Some(n) => is_first_free(self@.fat_1, self@.fat_entry_count(), n as int),
                None => none_free(self@.fat_1, self@.fat_entry_count()),
            },
    {
        first_free_entry(self.fat_1.as_slice())
    }

    /// Tells whether the whole sector of the cluster `sector` lies in the
    /// data area.
    pub fn holds_sector(&self, sector: usize) -> (holds: bool)
        ensures
            holds == self@.in_data_area(sector as int, self@.bpb.bytes_per_sector as int),
    {
        if sector < 2 {
            return false;
        }
        let bytes_per_sector = self.bpb_data.bytes_per_sector as usize;
        let area = self.data_area.len();
        assert((sector - 1) * bytes_per_sector == (sector - 2) * bytes_per_sector
            + bytes_per_sector) by (nonlinear_arith);
        match (sector - 1).checked_mul(bytes_per_sector) {
            Some(end) => end <= area,
            None => false,
        }
    }

    /// Stores `data`, one sector of bytes, in the data area as the sector of
    /// the cluster `sector`. A cluster below 2, or one whose sector would end
    /// past the data area, is out of bounds.
    pub fn write_data_sector(&mut self, sector: usize, data: &[u8]) -> (r: Result<(), FatError>)
        requires
            data@.len() == old(self)@.bpb.bytes_per_sector,
        ensures
            old(self)@.in_data_area(sector as int, data@.len() as int) ==> r is Ok && final(self)@
                == (ImageView {
                data_area: overwrite(
                    old(self)@.data_area,
                    (sector - 2) * old(self)@.bpb.bytes_per_sector,
                    data@,
                ),
                ..old(self)@
            }),
            !old(self)@.in_data_area(sector as int, data@.len() as int) ==> r == Err::<
                (),
                FatError,
            >(FatError::Bounds) && final(self)@ == old(self)@,
    {
        proof {
            use_type_invariant(&*self);
        }
        if !self.holds_sector(sector) {
            return Err(FatError::Bounds);
        }
        let bytes_per_sector = self.bpb_data.bytes_per_sector as usize;
        let area = self.data_area.len();
        assert(0 <= (sector - 2) * bytes_per_sector <= area) by (nonlinear_arith)
            requires
                2 <= sector,
                0 <= bytes_per_sector,
                (sector - 2) * bytes_per_sector + bytes_per_sector <= area,
        ;
        let start_byte = (sector - 2) * bytes_per_sector;
        let mut i: usize = 0;
        while i < data.len()
            invariant
                i <= data@.len(),
                start_byte + data@.len() <= old(self)@.data_area.len() <= usize::MAX,
                old(self)@.well_formed(),
                self@ == (ImageView {
                    data_area: overwrite(
                        old(self)@.data_area,
                        start_byte as int,
                        data@.take(i as int),
                    ),
                    ..old(self)@
                }),
            decreases data@.len() - i,
        {
            self.data_area[start_byte + i] = data[i];
            i += 1;
        }
        assert(data@.take(data@.len() as int) == data@);
        Ok(())
    }

    /// The clusters of the chain that starts at `first`, in order, and the
    /// entry that ends it: the first entry that is no valid link. A chain that
    /// leaves the file allocation table, or that links more clusters than the
    /// table has entries, is out of bounds.
    pub fn cluster_chain(&self, first: u16) -> (r: Result<(Vec<u16>, u16), FatError>)
        ensures
            match r {
                Ok((clusters, end)) => {
                    &&& chain_of(self@.fat_1, first) == Some((clusters@, end))
                    &&& clusters@.len() >= 1 && clusters@[0] == first
                    &&& forall|i: int|
                        1 <= i < clusters@.len() ==> is_valid_cluster(#[trigger] clusters@[i])
                    &&& !is_valid_cluster(end)
                },
                Err(e) => e == FatError::Bounds && chain_of(self@.fat_1, first) is None,
            },
    {
        let r = follow_chain(self.fat_1.as_slice(), first);
        proof {
            if r is Ok {
                lemma_chain_links(self@.fat_1, first, self@.fat_entry_count() as nat);
            }
        }
        r
    }
}

/// The slots of a root directory in which the record `entry` was stored in
/// slot `index`: that slot holds `entry`, and every other slot is as it was.
pub proof fn lemma_slots_after_save(
    image: ImageView,
    after: ImageView,
    entry: RootEntry,
    index: int,
)
    requires
        0 <= index < image.slot_count(),
        after.root_dir == overwrite(
            image.root_dir,
            index * BYTES_PER_ROOT_ENTRY,
            entry.encoded(),
        ),
    ensures
        after.slot_count() == image.slot_count(),
        after.slots() == image.slots().update(index, entry),
{
    lemma_entry_round_trip(entry);
    assert(after.root_dir.len() == image.root_dir.len());
    assert forall|i: int| 0 <= i < image.slot_count() implies after.slot(i)
        == image.slots().update(index, entry)[i] by {
        let old_bytes = image.root_dir.skip(i * BYTES_PER_ROOT_ENTRY);
        let new_bytes = after.root_dir.skip(i * BYTES_PER_ROOT_ENTRY);
        if i == index {
            assert forall|k: int| 0 <= k < BYTES_PER_ROOT_ENTRY implies new_bytes[k]
                == entry.encoded()[k] by {}
            assert(entry_of(new_bytes) =~= entry_of(entry.encoded()));
        } else {
            assert forall|k: int| 0 <= k < BYTES_PER_ROOT_ENTRY implies new_bytes[k]
                == old_bytes[k] by {}
            assert(entry_of(new_bytes) =~= entry_of(old_bytes));
        }
    }
    assert(after.slots() =~= image.slots().update(index, entry));
}

/// The sections of a loaded volume are as long as its geometry says, and
/// one after the other they are the bytes that were loaded.
pub proof fn lemma_loaded_bytes(bytes: Seq<u8>, start: int, length: int)
    requires
        0 <= start,
        0 <= length,
        loaded(bytes, start, length) is Ok,
    ensures
        loaded(bytes, start, length)->Ok_0.well_formed(),
        loaded(bytes, start, length)->Ok_0.bytes() == bytes.subrange(start, start + length),
{
    let bpb = bpb_of(bytes.skip(start));
    let volume = bytes.subrange(start, start + length);
    let image = image_of(bpb, volume);
    assert(0 <= bpb.reserved_sectors * bpb.bytes_per_sector) by (nonlinear_arith);
    assert(0 <= bpb.sectors_per_fat * bpb.bytes_per_sector) by (nonlinear_arith);
    assert(0 <= SECTORS_PER_ROOT * bpb.bytes_per_sector) by (nonlinear_arith);
    assert(image.bytes() =~= volume);
}

/// Loading a volume, saving it and loading what was saved gives the same
/// image as the first load, and the bytes saved are the bytes first loaded.
pub proof fn lemma_load_save_load(bytes: Seq<u8>)
    requires
        loaded(bytes, 0, bytes.len() as int) is Ok,
    ensures
        loaded(bytes, 0, bytes.len() as int)->Ok_0.bytes() == bytes,
        loaded(
            loaded(bytes, 0, bytes.len() as int)->Ok_0.bytes(),
            0,
            loaded(bytes, 0, bytes.len() as int)->Ok_0.bytes().len() as int,
        ) == loaded(bytes, 0, bytes.len() as int),
{
    lemma_loaded_bytes(bytes, 0, bytes.len() as int);
    assert(bytes.subrange(0, bytes.len() as int) =~= bytes);
}

} // verus!
