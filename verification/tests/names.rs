use fat12::fat::chain::follow_chain;
use fat12::fat::data::pad_sector;
use fat12::fat::names::{find_split, same_name, to_ascii_upper, trimmed_len};
use fat12::error::FatError;

#[test]
fn small_letters_turn_into_capitals() {
    assert_eq!(to_ascii_upper(b'a'), b'A');
    assert_eq!(to_ascii_upper(b'z'), b'Z');
    assert_eq!(to_ascii_upper(b'm'), b'M');
    assert_eq!(to_ascii_upper(b'A'), b'A');
    assert_eq!(to_ascii_upper(b'0'), b'0');
    assert_eq!(to_ascii_upper(b'`'), b'`');
    assert_eq!(to_ascii_upper(b'{'), b'{');
    assert_eq!(to_ascii_upper(0xe9), 0xe9);
    assert_eq!(to_ascii_upper(0x00), 0x00);
    for b in 0..=255u8 {
        assert_eq!(to_ascii_upper(b), b.to_ascii_uppercase());
    }
}

#[test]
fn trimming_drops_the_spaces_at_the_end() {
    assert_eq!(trimmed_len(b"HELLO   "), 5);
    assert_eq!(trimmed_len(b"A B     "), 3);
    assert_eq!(trimmed_len(b"        "), 0);
    assert_eq!(trimmed_len(b"12345678"), 8);
    assert_eq!(trimmed_len(b" X"), 2);
    assert_eq!(trimmed_len(b""), 0);
    assert_eq!(trimmed_len(b"TAB\t "), 4);
}

#[test]
fn the_split_is_the_only_dot() {
    assert_eq!(find_split(b"hello.txt"), Some(5));
    assert_eq!(find_split(b".txt"), Some(0));
    assert_eq!(find_split(b"name."), Some(4));
    assert_eq!(find_split(b"."), Some(0));
    assert_eq!(find_split(b"nodot"), None);
    assert_eq!(find_split(b""), None);
    assert_eq!(find_split(b"a.b.c"), None);
    assert_eq!(find_split(b".."), None);
    assert_eq!(find_split(b"a.bcdefgh."), None);
}

#[test]
fn names_compare_without_case() {
    assert!(same_name(b"README.TXT", b"readme.txt"));
    assert!(same_name(b"ReadMe.Txt", b"rEADmE.tXT"));
    assert!(same_name(b"", b""));
    assert!(!same_name(b"README.TXT", b"README.TX"));
    assert!(!same_name(b"README.TXT", b"README.TXU"));
    assert!(!same_name(b"A", b""));
    assert!(!same_name(b"[", b"{"));
    assert!(!same_name(b"@", b"`"));
    assert!(same_name(&[0xe9, b'a'], &[0xe9, b'A']));
    assert!(!same_name(&[0xe9], &[0xc9]));
}

#[test]
fn sectors_are_filled_up_with_zeros() {
    assert_eq!(pad_sector(&[1, 2, 3], 5), vec![1, 2, 3, 0, 0]);
    assert_eq!(pad_sector(&[1, 2, 3], 3), vec![1, 2, 3]);
    assert_eq!(pad_sector(&[], 2), vec![0, 0]);
    assert_eq!(pad_sector(&[], 0), Vec::<u8>::new());
}

#[test]
fn chains_are_followed_through_a_table() {
    // entries: 0 -> ff0, 1 -> fff, 2 -> 3, 3 -> 4, 4 -> fff
    let fat = [0xf0u8, 0xff, 0xff, 0x03, 0x40, 0x00, 0xff, 0x0f];
    assert_eq!(follow_chain(&fat, 2), Ok((vec![2, 3, 4], 0xfff)));
    assert_eq!(follow_chain(&fat, 4), Ok((vec![4], 0xfff)));
    assert_eq!(follow_chain(&fat, 0), Ok((vec![0], 0xff0)));
    assert_eq!(follow_chain(&fat, 5), Err(FatError::Bounds));
    assert_eq!(follow_chain(&[], 0), Err(FatError::Bounds));
    // 2 -> 3 -> 2
    let circle = [0u8, 0, 0, 0x03, 0x20, 0x00];
    assert_eq!(follow_chain(&circle, 2), Err(FatError::Bounds));
}
