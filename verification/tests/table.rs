use fat12::error::FatError;
use fat12::fat::cluster_num_is_valid;
use fat12::fat::table::{
    fat_entry_at, fat_entry_count, first_free_entry, list_fat_entries, read_fat_entry,
    write_fat_entry,
};

#[test]
fn valid_clusters_lie_between_2_and_ff0() {
    assert!(!cluster_num_is_valid(0));
    assert!(!cluster_num_is_valid(1));
    assert!(cluster_num_is_valid(2));
    assert!(cluster_num_is_valid(0xfef));
    assert!(!cluster_num_is_valid(0xff0));
    assert!(!cluster_num_is_valid(0xff7));
    assert!(!cluster_num_is_valid(0xfff));
    assert!(!cluster_num_is_valid(0xffff));
}

#[test]
fn entry_count_is_two_thirds_of_the_bytes() {
    assert_eq!(fat_entry_count(0), 0);
    assert_eq!(fat_entry_count(1), 0);
    assert_eq!(fat_entry_count(2), 1);
    assert_eq!(fat_entry_count(3), 2);
    assert_eq!(fat_entry_count(4), 2);
    assert_eq!(fat_entry_count(5), 3);
    assert_eq!(fat_entry_count(6), 4);
    assert_eq!(fat_entry_count(4608), 3072);
    assert_eq!(fat_entry_count(usize::MAX), usize::MAX / 3 * 2);
}

#[test]
fn entries_unpack_from_three_bytes() {
    // entries 0x123 and 0xabc
    let fat = [0x23u8, 0xc1, 0xab];
    assert_eq!(read_fat_entry(&fat, 0), Ok(0x123));
    assert_eq!(read_fat_entry(&fat, 1), Ok(0xabc));
    assert_eq!(fat_entry_at(&fat, 0), 0x123);
    assert_eq!(fat_entry_at(&fat, 1), 0xabc);
    assert_eq!(read_fat_entry(&fat, 2), Err(FatError::Bounds));
}

#[test]
fn standard_floppy_header_entries() {
    let fat = [0xf0u8, 0xff, 0xff, 0x03, 0x40, 0x00, 0xff, 0x0f];
    assert_eq!(read_fat_entry(&fat, 0), Ok(0xff0));
    assert_eq!(read_fat_entry(&fat, 1), Ok(0xfff));
    assert_eq!(read_fat_entry(&fat, 2), Ok(0x003));
    assert_eq!(read_fat_entry(&fat, 3), Ok(0x004));
    assert_eq!(read_fat_entry(&fat, 4), Ok(0xfff));
    assert_eq!(read_fat_entry(&fat, 5), Err(FatError::Bounds));
}

#[test]
fn entries_pack_into_three_bytes() {
    let mut fat = vec![0u8; 3];
    assert_eq!(write_fat_entry(&mut fat, 0, 0x123), Ok(()));
    assert_eq!(fat, vec![0x23, 0x01, 0x00]);
    assert_eq!(write_fat_entry(&mut fat, 1, 0xabc), Ok(()));
    assert_eq!(fat, vec![0x23, 0xc1, 0xab]);
    assert_eq!(write_fat_entry(&mut fat, 2, 1), Err(FatError::Bounds));
    assert_eq!(fat, vec![0x23, 0xc1, 0xab]);
}

#[test]
fn writing_keeps_the_low_12_bits() {
    let mut fat = vec![0u8; 6];
    write_fat_entry(&mut fat, 0, 0xf123).unwrap();
    write_fat_entry(&mut fat, 1, 0xfabc).unwrap();
    assert_eq!(read_fat_entry(&fat, 0), Ok(0x123));
    assert_eq!(read_fat_entry(&fat, 1), Ok(0xabc));
    assert_eq!(read_fat_entry(&fat, 2), Ok(0));
}

#[test]
fn written_entries_read_back_and_leave_the_others() {
    let len = 12;
    let count = fat_entry_count(len);
    assert_eq!(count, 8);
    for n in 0..count {
        for value in [0u16, 1, 2, 0x0ff, 0x100, 0x555, 0xaaa, 0xff7, 0xfff] {
            for fill in [0x00u8, 0xff, 0x5a] {
                let mut fat = vec![fill; len];
                let before: Vec<u16> = (0..count).map(|m| fat_entry_at(&fat, m)).collect();
                write_fat_entry(&mut fat, n, value).unwrap();
                assert_eq!(fat.len(), len);
                for m in 0..count {
                    if m == n {
                        assert_eq!(fat_entry_at(&fat, m), value);
                    } else {
                        assert_eq!(fat_entry_at(&fat, m), before[m]);
                    }
                }
            }
        }
    }
}

#[test]
fn every_12_bit_value_reads_back() {
    let mut fat = vec![0xffu8; 6];
    for value in 0..0x1000u16 {
        write_fat_entry(&mut fat, 1, value).unwrap();
        assert_eq!(read_fat_entry(&fat, 1), Ok(value));
        write_fat_entry(&mut fat, 2, value).unwrap();
        assert_eq!(read_fat_entry(&fat, 2), Ok(value));
        assert_eq!(read_fat_entry(&fat, 0), Ok(0xfff));
        assert_eq!(read_fat_entry(&fat, 3), Ok(0xfff));
    }
}

#[test]
fn entries_are_listed_with_their_index() {
    let fat = [0xf0u8, 0xff, 0xff, 0x03, 0x40, 0x00, 0xff, 0x0f];
    assert_eq!(
        list_fat_entries(&fat),
        vec![(0, 0xff0), (1, 0xfff), (2, 3), (3, 4), (4, 0xfff)]
    );
    assert_eq!(list_fat_entries(&[]), vec![]);
    assert_eq!(list_fat_entries(&[0u8]), vec![]);
}

#[test]
fn first_free_entry_skips_the_reserved_clusters() {
    let mut fat = vec![0u8; 9];
    assert_eq!(first_free_entry(&fat), Some(2));
    write_fat_entry(&mut fat, 2, 3).unwrap();
    write_fat_entry(&mut fat, 3, 0xfff).unwrap();
    assert_eq!(first_free_entry(&fat), Some(4));
    assert_eq!(first_free_entry(&fat[..6]), None);
    write_fat_entry(&mut fat, 4, 0xff7).unwrap();
    write_fat_entry(&mut fat, 5, 0xfff).unwrap();
    assert_eq!(first_free_entry(&fat), None);
    assert_eq!(first_free_entry(&[]), None);
    assert_eq!(first_free_entry(&[0u8; 3]), None);
    assert_eq!(first_free_entry(&[0u8; 5]), Some(2));
}
