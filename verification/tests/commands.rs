use fat12::commands::{add_file, detail_file, get_command, list_files, Command};
use fat12::error::FatError;
use fat12::fat::{BIOSParam, Image, RootEntry};

fn floppy_params() -> BIOSParam {
    let mut params = BIOSParam::new();
    params.bytes_per_sector = 512;
    params.sectors_per_cluster = 1;
    params.reserved_sectors = 1;
    params.fat_count = 2;
    params.max_roots = 224;
    params.sectors = 2880;
    params.media_id = 0xf0;
    params.sectors_per_fat = 9;
    params
}

fn floppy() -> Image {
    let mut image = Image::new(floppy_params(), 1474560);
    image.set_fat_entry(0, 0xff0).unwrap();
    image.set_fat_entry(1, 0xfff).unwrap();
    image
}

const FLOPPY_ROOT: usize = 512 + 2 * 4608;
const FLOPPY_DATA: usize = 512 + 2 * 4608 + 14 * 512;

fn small_params() -> BIOSParam {
    let mut params = BIOSParam::new();
    params.bytes_per_sector = 32;
    params.sectors_per_cluster = 1;
    params.reserved_sectors = 1;
    params.sectors_per_fat = 1;
    params
}

fn small_image(clusters: usize) -> Image {
    Image::new(small_params(), 32 + 2 * 32 + 14 * 32 + clusters * 32)
}

const SMALL_DATA: usize = 32 + 2 * 32 + 14 * 32;

fn named(name: &str) -> RootEntry {
    let mut entry = RootEntry::new();
    entry.set_filename(name.to_string()).unwrap();
    entry
}

fn pattern(len: usize) -> Vec<u8> {
    let mut bytes = Vec::new();
    for i in 0..len {
        bytes.push((i * 31 + 7) as u8 | 1);
    }
    bytes
}

fn file_bytes(image: &Image, name: &str, sector: usize, data_start: usize) -> Vec<u8> {
    let detail = detail_file(image, name.to_string()).unwrap();
    let bytes = image.to_bytes();
    let mut out = Vec::new();
    for cluster in &detail.clusters {
        let at = data_start + (*cluster as usize - 2) * sector;
        out.extend_from_slice(&bytes[at..at + sector]);
    }
    out.truncate(detail.entry.file_size as usize);
    out
}

#[test]
fn commands_go_by_their_names() {
    assert_eq!(get_command(&"add".to_string()), Some(Command::Add));
    assert_eq!(get_command(&"ls".to_string()), Some(Command::List));
    assert_eq!(get_command(&"detail".to_string()), Some(Command::Detail));
    assert_eq!(get_command(&"list".to_string()), None);
    assert_eq!(get_command(&"ADD".to_string()), None);
    assert_eq!(get_command(&"".to_string()), None);
    assert_eq!(get_command(&"add ".to_string()), None);
}

#[test]
fn commands_name_themselves() {
    for command in [Command::Add, Command::List, Command::Detail] {
        assert_eq!(get_command(&command.name().to_string()), Some(command));
    }
    assert_eq!(Command::Add.usage(), "<file> <image>");
    assert_eq!(Command::List.usage(), "<image>");
    assert_eq!(Command::Detail.usage(), "<image> <file>");
    assert_eq!(Command::Add.description(), "Adds file to image.");
    assert_eq!(Command::List.description(), "List files on image.");
    assert_eq!(Command::Detail.description(), "Show file details");
    assert_eq!(Command::Add.usage_line(), "\tadd <file> <image>: Adds file to image.");
    assert_eq!(Command::List.usage_line(), "\tls <image>: List files on image.");
    assert_eq!(
        Command::Detail.usage_line(),
        "\tdetail <image> <file>: Show file details"
    );
}

#[test]
fn errors_have_messages() {
    assert_eq!(FatError::AlreadyExists.message(), "entry already exists");
    assert_eq!(FatError::NoFreeSlot.message(), "no free entries");
    assert_eq!(FatError::NotFound.message(), "file not found");
    assert_eq!(FatError::Format.message(), "bad filename");
    assert_eq!(
        FatError::OutOfSpace.message(),
        "image ran out of space while writing file"
    );
    assert!(!FatError::Parse.message().is_empty());
    assert!(!FatError::Bounds.message().is_empty());
}

#[test]
fn errors_name_the_file() {
    assert_eq!(FatError::NotFound.message_about("a.txt"), "file a.txt not found");
    assert_eq!(
        FatError::AlreadyExists.message_about("a.txt"),
        "file a.txt already exists"
    );
    assert_eq!(
        FatError::Format.message_about("nodot"),
        "bad filename: \"nodot\""
    );
    for err in [
        FatError::Parse,
        FatError::NoFreeSlot,
        FatError::OutOfSpace,
        FatError::Bounds,
    ] {
        assert_eq!(err.message_about("a.txt"), err.message());
    }
}

#[test]
fn listing_of_a_blank_floppy_is_empty() {
    let image = Image::new(floppy_params(), 1474560);
    let listing = list_files(&image);
    assert_eq!(listing.volume_label, "has no label");
    assert_eq!(listing.sector_size, 512);
    assert_eq!(listing.files.len(), 0);
    assert_eq!(listing.total_bytes, 0);
    assert_eq!(
        format!("\t{} File(s)\t\t{} bytes", listing.files.len(), listing.total_bytes),
        "\t0 File(s)\t\t0 bytes"
    );
}

#[test]
fn listing_skips_the_label_and_sums_the_sizes() {
    let mut image = small_image(4);
    let mut one = named("one.txt");
    one.file_size = 0xffff_ffff;
    one.last_write_date = 11;
    one.last_write_time = 12;
    let mut label = RootEntry::new();
    label.filename = *b"VOLUME  ";
    label.set_is_volume_label(true);
    label.file_size = 1000;
    let mut two = named("two.bin");
    two.file_size = 2;
    let mut odd = named("odd.txt");
    odd.filename[1] = 0xff;
    odd.file_size = 40;
    let mut deleted = named("gone.txt");
    deleted.filename[0] = 0xe5;
    deleted.file_size = 5000;
    image.save_file_entry(one, 0).unwrap();
    image.save_file_entry(label, 1).unwrap();
    image.save_file_entry(deleted, 2).unwrap();
    image.save_file_entry(two, 3).unwrap();
    image.save_file_entry(odd, 4).unwrap();
    image.save_file_entry(named("past.end"), 6).unwrap();
    let listing = list_files(&image);
    assert_eq!(listing.volume_label, "VOLUME     ");
    assert_eq!(listing.sector_size, 32);
    assert_eq!(listing.files.len(), 3);
    assert_eq!(listing.files[0].entry, one);
    assert_eq!(listing.files[0].name, "ONE.TXT");
    assert_eq!(listing.files[0].entry.last_write_date, 11);
    assert_eq!(listing.files[0].entry.last_write_time, 12);
    assert_eq!(listing.files[1].entry, two);
    assert_eq!(listing.files[1].name, "TWO.BIN");
    assert_eq!(listing.files[2].entry, odd);
    assert_eq!(listing.files[2].name, "????????.???");
    assert_eq!(listing.total_bytes, 0xffff_ffffu64 + 2 + 40);
}

#[test]
fn listing_of_a_deleted_slot_before_the_end() {
    let mut image = Image::new(floppy_params(), 1474560);
    let mut deleted = named("gone.txt");
    deleted.filename[0] = 0xe5;
    image.save_file_entry(deleted, 0).unwrap();
    let listing = list_files(&image);
    assert_eq!(listing.files.len(), 0);
    assert_eq!(listing.total_bytes, 0);
}

#[test]
fn detail_of_a_file_in_three_clusters() {
    let mut image = floppy();
    let mut entry = named("README.TXT");
    entry.file_size = 1200;
    entry.first_logical_cluster = 2;
    image.save_file_entry(entry, 0).unwrap();
    image.set_fat_entry(2, 3).unwrap();
    image.set_fat_entry(3, 4).unwrap();
    image.set_fat_entry(4, 0xfff).unwrap();
    let detail = detail_file(&image, "README.TXT".to_string()).unwrap();
    assert_eq!(detail.entry, entry);
    assert_eq!(detail.clusters, vec![2, 3, 4]);
    assert_eq!(detail.terminator, 0xfff);
    let shown: Vec<String> = detail.clusters.iter().map(|c| format!("{:#x}", c)).collect();
    assert_eq!(shown, vec!["0x2", "0x3", "0x4"]);
    assert_eq!(format!("{:#x}", detail.terminator).to_uppercase(), "0XFFF");
}

#[test]
fn detail_of_a_chain_into_a_bad_cluster() {
    let mut image = floppy();
    let mut entry = named("broken.dat");
    entry.first_logical_cluster = 7;
    image.save_file_entry(entry, 0).unwrap();
    image.set_fat_entry(7, 0xff7).unwrap();
    let detail = detail_file(&image, "broken.dat".to_string()).unwrap();
    assert_eq!(detail.clusters, vec![7]);
    assert_eq!(detail.terminator, 0xff7);
}

#[test]
fn detail_of_a_file_without_data() {
    let mut image = floppy();
    image.save_file_entry(named("empty.txt"), 0).unwrap();
    let detail = detail_file(&image, "empty.txt".to_string()).unwrap();
    assert_eq!(detail.clusters, vec![0]);
    assert_eq!(detail.terminator, 0xff0);
}

#[test]
fn detail_fails_for_a_missing_file_or_a_broken_chain() {
    let mut image = floppy();
    assert_eq!(
        detail_file(&image, "nothing.txt".to_string()).err(),
        Some(FatError::NotFound)
    );
    let mut entry = named("loop.dat");
    entry.first_logical_cluster = 2;
    image.save_file_entry(entry, 0).unwrap();
    image.set_fat_entry(2, 3).unwrap();
    image.set_fat_entry(3, 2).unwrap();
    assert_eq!(
        detail_file(&image, "loop.dat".to_string()).err(),
        Some(FatError::Bounds)
    );
    let mut far = named("far.dat");
    far.first_logical_cluster = 3072;
    image.save_file_entry(far, 1).unwrap();
    assert_eq!(
        detail_file(&image, "far.dat".to_string()).err(),
        Some(FatError::Bounds)
    );
}

#[test]
fn add_a_file_of_700_bytes() {
    let mut image = floppy();
    let source = pattern(700);
    assert_eq!(add_file(&mut image, "hello.txt".to_string(), &source), Ok(()));
    let entry = image.get_file_entry("hello.txt".to_string()).unwrap();
    assert_eq!(entry.file_size, 700);
    assert_eq!(entry.first_logical_cluster, 2);
    assert_eq!(&entry.filename, b"HELLO   ");
    assert_eq!(&entry.extension, b"TXT");
    assert_eq!(entry.attrs, 0);
    assert_eq!(image.cluster_chain(2), Ok((vec![2, 3], 0xfff)));
    assert_eq!(image.get_free_fat_entry(), Some(4));
    // after a reload the two clusters hold the source
    let saved = image.to_bytes();
    assert_eq!(&saved[FLOPPY_DATA..FLOPPY_DATA + 700], &source[..]);
    assert!(saved[FLOPPY_DATA + 700..FLOPPY_DATA + 1024].iter().all(|b| *b == 0));
    assert!(saved[FLOPPY_DATA + 1024..].iter().all(|b| *b == 0));
    assert_eq!(file_bytes(&image, "hello.txt", 512, FLOPPY_DATA), source);
    // the entry stands in slot 0
    assert_eq!(&saved[FLOPPY_ROOT..FLOPPY_ROOT + 32], &entry.to_bytes()[..]);
    // both tables are alike
    assert_eq!(&saved[512..512 + 4608], &saved[512 + 4608..512 + 2 * 4608]);
    assert_eq!(&saved[512..512 + 6], &[0xf0, 0xff, 0xff, 0x03, 0xf0, 0xff]);
}

#[test]
fn add_then_list() {
    let mut image = floppy();
    let first = pattern(1200);
    let second = pattern(513);
    add_file(&mut image, "readme.txt".to_string(), &first).unwrap();
    add_file(&mut image, "second.bin".to_string(), &second).unwrap();
    let listing = list_files(&image);
    assert_eq!(listing.files.len(), 2);
    assert_eq!(listing.files[0].name, "README.TXT");
    assert_eq!(listing.files[0].entry.file_size, 1200);
    assert_eq!(listing.files[1].name, "SECOND.BIN");
    assert_eq!(listing.files[1].entry.file_size, 513);
    assert_eq!(listing.total_bytes, 1713);
    let detail = detail_file(&image, "README.TXT".to_string()).unwrap();
    assert_eq!(detail.clusters, vec![2, 3, 4]);
    assert_eq!(detail.terminator, 0xfff);
    let detail = detail_file(&image, "second.bin".to_string()).unwrap();
    assert_eq!(detail.clusters, vec![5, 6]);
    assert_eq!(detail.terminator, 0xfff);
    assert_eq!(file_bytes(&image, "readme.txt", 512, FLOPPY_DATA), first);
    assert_eq!(file_bytes(&image, "second.bin", 512, FLOPPY_DATA), second);
}

#[test]
fn add_survives_a_save_and_a_load() {
    let mut bytes = vec![0u8; 1474560];
    bytes[11] = 0x00;
    bytes[12] = 0x02;
    bytes[13] = 1;
    bytes[14] = 1;
    bytes[16] = 2;
    bytes[17] = 224;
    bytes[19] = 0x40;
    bytes[20] = 0x0b;
    bytes[21] = 0xf0;
    bytes[22] = 9;
    let mut image = Image::from_bytes(&bytes).unwrap();
    let source = pattern(700);
    add_file(&mut image, "hello.txt".to_string(), &source).unwrap();
    let reloaded = Image::from_bytes(&image.to_bytes()).unwrap();
    let detail = detail_file(&reloaded, "HELLO.TXT".to_string()).unwrap();
    assert_eq!(detail.entry.file_size, 700);
    assert_eq!(detail.clusters.len(), 2);
    assert_eq!(file_bytes(&reloaded, "hello.txt", 512, FLOPPY_DATA), source);
}

#[test]
fn add_fills_the_gaps_between_used_clusters() {
    let mut image = small_image(8);
    image.set_fat_entry(2, 0xfff).unwrap();
    image.set_fat_entry(4, 5).unwrap();
    image.set_fat_entry(5, 0xfff).unwrap();
    let source = pattern(70);
    add_file(&mut image, "gaps.dat".to_string(), &source).unwrap();
    let detail = detail_file(&image, "gaps.dat".to_string()).unwrap();
    assert_eq!(detail.clusters, vec![3, 6, 7]);
    assert_eq!(detail.terminator, 0xfff);
    assert_eq!(detail.entry.first_logical_cluster, 3);
    assert_eq!(file_bytes(&image, "gaps.dat", 32, SMALL_DATA), source);
    // what was there stays
    assert_eq!(image.get_fat_entry(2), 0xfff);
    assert_eq!(image.get_fat_entry(4), 5);
    assert_eq!(image.get_fat_entry(5), 0xfff);
    let bytes = image.to_bytes();
    assert!(bytes[SMALL_DATA..SMALL_DATA + 32].iter().all(|b| *b == 0));
    // the last sector is filled up with zeros
    let last = SMALL_DATA + 5 * 32;
    assert_eq!(&bytes[last..last + 6], &source[64..]);
    assert!(bytes[last + 6..last + 32].iter().all(|b| *b == 0));
}

#[test]
fn add_pads_over_what_the_sector_held() {
    let mut image = small_image(3);
    image.write_data_sector(2, &[0xeeu8; 32]).unwrap();
    add_file(&mut image, "short.txt".to_string(), &[1, 2, 3]).unwrap();
    let bytes = image.to_bytes();
    assert_eq!(&bytes[SMALL_DATA..SMALL_DATA + 3], &[1, 2, 3]);
    assert!(bytes[SMALL_DATA + 3..SMALL_DATA + 32].iter().all(|b| *b == 0));
}

#[test]
fn add_a_file_of_whole_sectors() {
    let mut image = small_image(4);
    let source = pattern(64);
    add_file(&mut image, "even.dat".to_string(), &source).unwrap();
    let detail = detail_file(&image, "even.dat".to_string()).unwrap();
    assert_eq!(detail.clusters, vec![2, 3]);
    assert_eq!(file_bytes(&image, "even.dat", 32, SMALL_DATA), source);
    assert_eq!(image.get_free_fat_entry(), Some(4));
}

#[test]
fn add_a_file_without_data() {
    let mut image = small_image(4);
    let before = image.to_bytes();
    add_file(&mut image, "empty.txt".to_string(), &[]).unwrap();
    let entry = image.get_file_entry("empty.txt".to_string()).unwrap();
    assert_eq!(entry.file_size, 0);
    assert_eq!(entry.first_logical_cluster, 0);
    let after = image.to_bytes();
    let root = 32 + 64;
    assert_eq!(&after[..root], &before[..root]);
    assert_eq!(&after[root + 32..], &before[root + 32..]);
    assert_eq!(image.get_free_fat_entry(), Some(2));
}

#[test]
fn add_the_same_name_twice() {
    let mut image = floppy();
    add_file(&mut image, "hello.txt".to_string(), &pattern(700)).unwrap();
    let before = image.to_bytes();
    assert_eq!(
        add_file(&mut image, "HELLO.TXT".to_string(), &pattern(10)),
        Err(FatError::AlreadyExists)
    );
    assert_eq!(
        add_file(&mut image, "hello.txt".to_string(), &pattern(700)),
        Err(FatError::AlreadyExists)
    );
    assert_eq!(image.to_bytes(), before);
}

#[test]
fn add_to_a_full_directory() {
    let mut image = floppy();
    for i in 0..224u16 {
        image.save_file_entry(named(&format!("f{}.txt", i)), i).unwrap();
    }
    assert_eq!(image.root_entries().len(), 224);
    let before = image.to_bytes();
    assert_eq!(
        add_file(&mut image, "more.txt".to_string(), &pattern(700)),
        Err(FatError::NoFreeSlot)
    );
    assert_eq!(image.to_bytes(), before);
}

#[test]
fn add_under_a_bad_name() {
    let mut image = floppy();
    let before = image.to_bytes();
    for name in ["nodot", "toolongname.txt", "a.b.c", "name.text", ""] {
        assert_eq!(
            add_file(&mut image, name.to_string(), &pattern(10)),
            Err(FatError::Format)
        );
    }
    assert_eq!(image.to_bytes(), before);
}

#[test]
fn add_without_enough_free_clusters() {
    let mut image = small_image(19);
    // clusters 2..=20 have sectors; leave three of them free
    for n in 2..21u16 {
        if n != 5 && n != 9 && n != 20 {
            image.set_fat_entry(n, 0xfff).unwrap();
        }
    }
    image.write_data_sector(5, &[0x77u8; 32]).unwrap();
    let before = image.to_bytes();
    assert_eq!(
        add_file(&mut image, "big.dat".to_string(), &pattern(97)),
        Err(FatError::OutOfSpace)
    );
    assert_eq!(image.to_bytes(), before);
    // three sectors fit
    assert_eq!(add_file(&mut image, "fits.dat".to_string(), &pattern(96)), Ok(()));
    let detail = detail_file(&image, "fits.dat".to_string()).unwrap();
    assert_eq!(detail.clusters, vec![5, 9, 20]);
    assert_eq!(file_bytes(&image, "fits.dat", 32, SMALL_DATA), pattern(96));
    assert_eq!(image.get_free_fat_entry(), None);
    let full = image.to_bytes();
    assert_eq!(
        add_file(&mut image, "one.dat".to_string(), &[1]),
        Err(FatError::OutOfSpace)
    );
    assert_eq!(image.to_bytes(), full);
}

#[test]
fn add_past_the_data_area() {
    // the table has entries for clusters up to 20, the data area two sectors
    let mut image = small_image(2);
    let before = image.to_bytes();
    assert_eq!(
        add_file(&mut image, "big.dat".to_string(), &pattern(65)),
        Err(FatError::Bounds)
    );
    assert_eq!(image.to_bytes(), before);
    assert_eq!(add_file(&mut image, "fits.dat".to_string(), &pattern(64)), Ok(()));
}

#[test]
fn add_to_a_volume_without_sector_size() {
    let mut image = Image::new(BIOSParam::new(), 64);
    let before = image.to_bytes();
    assert_eq!(
        add_file(&mut image, "a.txt".to_string(), &[1]),
        Err(FatError::NoFreeSlot)
    );
    assert_eq!(image.to_bytes(), before);
}

#[test]
fn add_reuses_a_deleted_slot() {
    let mut image = small_image(4);
    let mut deleted = named("gone.txt");
    deleted.filename[0] = 0xe5;
    image.save_file_entry(named("one.txt"), 0).unwrap();
    image.save_file_entry(deleted, 1).unwrap();
    image.save_file_entry(named("two.txt"), 2).unwrap();
    add_file(&mut image, "new.txt".to_string(), &pattern(5)).unwrap();
    let all = image.root_entries_all();
    assert_eq!(all[1].filename(), Ok("NEW.TXT".to_string()));
    let listing = list_files(&image);
    assert_eq!(listing.files.len(), 3);
    assert_eq!(listing.files[1].name, "NEW.TXT");
}

#[test]
fn listing_lines_of_a_blank_floppy() {
    let image = Image::new(floppy_params(), 1474560);
    let lines = list_files(&image).lines();
    assert_eq!(
        lines,
        vec![
            " Volume has no label".to_string(),
            " Volume has 512 bytes per sector".to_string(),
            "".to_string(),
            "\t0 File(s)\t\t0 bytes".to_string(),
        ]
    );
}

#[test]
fn listing_lines_show_date_time_size_and_name() {
    let mut image = small_image(4);
    let mut one = named("one.txt");
    one.file_size = 1200;
    one.last_write_date = 19000;
    one.last_write_time = 65535;
    let mut label = RootEntry::new();
    label.filename = *b"MY DISK ";
    label.set_is_volume_label(true);
    let mut odd = named("odd.txt");
    odd.extension[2] = 0xff;
    odd.file_size = 4294967295;
    image.save_file_entry(label, 0).unwrap();
    image.save_file_entry(one, 1).unwrap();
    image.save_file_entry(odd, 2).unwrap();
    let listing = list_files(&image);
    assert_eq!(listing.files[0].line(), "19000\t65535\t1200\t\tONE.TXT");
    assert_eq!(
        listing.lines(),
        vec![
            " Volume MY DISK    ".to_string(),
            " Volume has 32 bytes per sector".to_string(),
            "".to_string(),
            "19000\t65535\t1200\t\tONE.TXT".to_string(),
            "0\t0\t4294967295\t\t????????.???".to_string(),
            "\t2 File(s)\t\t4294968495 bytes".to_string(),
        ]
    );
}

#[test]
fn chain_lines_of_a_file_in_three_clusters() {
    let mut image = floppy();
    let mut entry = named("README.TXT");
    entry.file_size = 1200;
    entry.first_logical_cluster = 2;
    image.save_file_entry(entry, 0).unwrap();
    image.set_fat_entry(2, 3).unwrap();
    image.set_fat_entry(3, 4).unwrap();
    image.set_fat_entry(4, 0xfff).unwrap();
    let detail = detail_file(&image, "README.TXT".to_string()).unwrap();
    assert_eq!(
        detail.chain_lines(),
        vec!["0x2\t0x3\t0x4\t".to_string(), "0xfff".to_string()]
    );
}

#[test]
fn chain_lines_of_a_chain_into_a_bad_cluster() {
    let mut image = floppy();
    let mut entry = named("broken.dat");
    entry.first_logical_cluster = 7;
    image.save_file_entry(entry, 0).unwrap();
    image.set_fat_entry(7, 0xff7).unwrap();
    let detail = detail_file(&image, "broken.dat".to_string()).unwrap();
    assert_eq!(
        detail.chain_lines(),
        vec!["0x7\t".to_string(), "0xff7".to_string()]
    );
}

#[test]
fn chain_lines_hold_eight_clusters() {
    let mut image = floppy();
    for len in [7usize, 8, 9, 16, 17] {
        let name = format!("f{}.dat", len);
        add_file(&mut image, name.clone(), &pattern(len * 512)).unwrap();
        let detail = detail_file(&image, name).unwrap();
        assert_eq!(detail.clusters.len(), len);
        let lines = detail.chain_lines();
        assert_eq!(lines.len(), (len + 7) / 8 + 1);
        assert_eq!(lines[lines.len() - 1], "0xfff");
        let mut shown = Vec::new();
        for line in &lines[..lines.len() - 1] {
            assert!(line.ends_with('\t'));
            let numbers: Vec<&str> = line.trim_end_matches('\t').split('\t').collect();
            assert!(numbers.len() <= 8);
            assert!(!numbers.is_empty());
            for number in numbers {
                shown.push(number.to_string());
            }
        }
        let expected: Vec<String> = detail.clusters.iter().map(|c| format!("{:#x}", c)).collect();
        assert_eq!(shown, expected);
        for line in &lines[..lines.len() - 2] {
            assert_eq!(line.split('\t').count(), 9);
        }
    }
}

#[test]
fn chain_lines_without_clusters() {
    let detail = fat12::commands::detail::FileDetail {
        entry: RootEntry::new(),
        clusters: vec![],
        terminator: 0,
    };
    assert_eq!(detail.chain_lines(), vec!["0x0".to_string()]);
}
