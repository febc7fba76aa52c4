//! The listing of a volume: its label, its sector size and its files.

use crate::fat::directory::{
    directory_end, is_first_label, is_label, keep_live, label_text, lemma_directory_end_exists,
    no_label, no_label_text,
};
use crate::fat::{Image, RootEntry};
use crate::text::{decimal, decimal_text};
use vstd::prelude::*;
use vstd::string::StringExecFns;
use vstd::utf8::{decode_utf8, valid_utf8};

verus! {

/// One line of a listing: a file's directory entry and the name it is shown
/// under.
#[derive(Debug)]
pub struct ListedFile {
    pub entry: RootEntry,
    pub name: String,
}

/// What is shown of a volume.
#[derive(Debug)]
pub struct Listing {
    pub volume_label: String,
    pub sector_size: usize,
    pub files: Vec<ListedFile>,
    pub total_bytes: u64,
}

/// The test that keeps the entries of files: all but the volume's label.
pub open spec fn keep_files() -> spec_fn(RootEntry) -> bool {
    |entry: RootEntry| !is_label(entry)
}

/// The entries that a listing shows, out of the live entries of a directory.
pub open spec fn listed_entries(live: Seq<RootEntry>) -> Seq<RootEntry> {
    live.filter(keep_files())
}

/// The name that a listing shows for an entry: its file name, or question
/// marks where the stored name is not well-formed UTF-8.
pub open spec fn listed_name(entry: RootEntry) -> Seq<char> {
    if valid_utf8(entry.display_name()) {
        decode_utf8(entry.display_name())
    } else {
        "????????.???"@
    }
}

/// The sum of the sizes of the files of `entries`.
pub open spec fn total_size(entries: Seq<RootEntry>) -> int
    decreases entries.len(),
{
    if entries.len() == 0 {
        0
    } else {
        total_size(entries.drop_last()) + entries.last().file_size
    }
}

/// Lists the volume: its label, its sector size, and for every live entry
/// that is not the volume's label the entry and its name, with the sum of
/// the sizes.
pub fn list_files(image: &Image) -> (listing: Listing)
    ensures
        forall|i: int|
            is_first_label(image@.live(), i) ==> listing.volume_label@ == label_text(
                image@.live()[i],
            ),
        no_label(image@.live()) ==> listing.volume_label@ == no_label_text(),
        listing.sector_size == image@.bpb.bytes_per_sector,
        listing.files@.len() == listed_entries(image@.live()).len(),
        forall|j: int|
            0 <= j < listing.files@.len() ==> {
                &&& (#[trigger] listing.files@[j]).entry == listed_entries(image@.live())[j]
                &&& listing.files@[j].name@ == listed_name(listed_entries(image@.live())[j])
            },
        listing.total_bytes == total_size(listed_entries(image@.live())),
{
    let volume_label = image.volume_label();
    let sector_size = image.sector_size();
    let entries = image.root_entries();
    let mut files: Vec<ListedFile> = Vec::new();
    let mut size_total: u64 = 0;
    let mut i: usize = 0;
    let ghost live = image@.live();
    assert(live.take(0) =~= Seq::<RootEntry>::empty());
    proof {
        reveal(Seq::filter);
        use_type_invariant(image);
        let slots = image@.slots();
        lemma_directory_end_exists(slots);
        slots.take(directory_end(slots)).lemma_filter_len(keep_live());
        assert(live.len() <= 0x10000);
    }
    while i < entries.len()
        invariant
            i <= entries@.len() <= 0x10000,
            entries@ == live,
            files@.len() == listed_entries(live.take(i as int)).len(),
            files@.len() <= i,
            forall|j: int|
                0 <= j < files@.len() ==> {
                    &&& (#[trigger] files@[j]).entry == listed_entries(live.take(i as int))[j]
                    &&& files@[j].name@ == listed_name(listed_entries(live.take(i as int))[j])
                },
            size_total == total_size(listed_entries(live.take(i as int))),
            size_total <= files@.len() * 0xffff_ffff,
        decreases entries@.len() - i,
    {
        let entry = entries[i];
        proof {
            live.take(i as int).lemma_filter_push(entry, keep_files());
            assert(live.take(i + 1) =~= live.take(i as int).push(entry));
        }
        if !entry.is_volume_label() {
            let name = match entry.filename() {
                Ok(name) => name,
                Err(_) => String::from_str("????????.???"),
            };
            let ghost before = listed_entries(live.take(i as int));
            assert(before.push(entry).drop_last() =~= before);
            size_total = size_total + entry.file_size as u64;
            files.push(ListedFile { entry, name });
        }
        i += 1;
    }
    assert(live.take(entries@.len() as int) =~= live);
    Listing { volume_label, sector_size, files, total_bytes: size_total }
}

impl ListedFile {
    /// The line of the file in a listing: the date and the time of its last
    /// write and its size, each in decimal digits and followed by a tab, one
    /// more tab, and its name.
    pub open spec fn line_text(&self) -> Seq<char> {
        decimal_text(self.entry.last_write_date as nat) + "\t"@ + decimal_text(
            self.entry.last_write_time as nat,
        ) + "\t"@ + decimal_text(self.entry.file_size as nat) + "\t\t"@ + self.name@
    }

    /// Writes out the line of the file in a listing.
    pub fn line(&self) -> (text: String)
        ensures
            text@ == self.line_text(),
    {
        let mut text = decimal(self.entry.last_write_date as u64);
        text.append("\t");
        text.append(decimal(self.entry.last_write_time as u64).as_str());
        text.append("\t");
        text.append(decimal(self.entry.file_size as u64).as_str());
        text.append("\t\t");
        text.append(self.name.as_str());
        text
    }
}

impl Listing {
    /// The line that names the volume.
    pub open spec fn label_line_text(&self) -> Seq<char> {
        " Volume "@ + self.volume_label@
    }

    /// The line that gives the sector size.
    pub open spec fn sector_line_text(&self) -> Seq<char> {
        " Volume has "@ + decimal_text(self.sector_size as nat) + " bytes per sector"@
    }

    /// The line that sums the listing up: the number of files and the sum of
    /// their sizes.
    pub open spec fn footer_text(&self) -> Seq<char> {
        "\t"@ + decimal_text(self.files@.len()) + " File(s)\t\t"@ + decimal_text(
            self.total_bytes as nat,
        ) + " bytes"@
    }

    /// Writes the listing out line by line: the volume's label, its sector
    /// size, an empty line, one line for every file, and the sum.
    pub fn lines(&self) -> (lines: Vec<String>)
        ensures
            lines@.len() == self.files@.len() + 4,
            lines@[0]@ == self.label_line_text(),
            lines@[1]@ == self.sector_line_text(),
            lines@[2]@ == Seq::<char>::empty(),
            forall|i: int|
                0 <= i < self.files@.len() ==> (#[trigger] lines@[3 + i])@
                    == self.files@[i].line_text(),
            lines@[lines@.len() - 1]@ == self.footer_text(),
    {
        let mut lines: Vec<String> = Vec::new();
        let mut label_line = String::from_str(" Volume ");
        label_line.append(self.volume_label.as_str());
        lines.push(label_line);
        let mut sector_line = String::from_str(" Volume has ");
        sector_line.append(decimal(self.sector_size as u64).as_str());
        sector_line.append(" bytes per sector");
        lines.push(sector_line);
        lines.push(String::new());
        let mut i: usize = 0;
        while i < self.files.len()
            invariant
                i <= self.files@.len(),
                lines@.len() == 3 + i,
                lines@[0]@ == self.label_line_text(),
                lines@[1]@ == self.sector_line_text(),
                lines@[2]@ == Seq::<char>::empty(),
                forall|k: int|
                    0 <= k < i ==> (#[trigger] lines@[3 + k])@ == self.files@[k].line_text(),
            decreases self.files@.len() - i,
        {
            lines.push(self.files[i].line());
            i += 1;
        }
        let mut footer = String::from_str("\t");
        footer.append(decimal(self.files.len() as u64).as_str());
        footer.append(" File(s)\t\t");
        footer.append(decimal(self.total_bytes).as_str());
        footer.append(" bytes");
        lines.push(footer);
        lines
    }
}

} // verus!
