use fat12::error::FatError;
use fat12::fat::BIOSParam;

fn floppy_boot_sector() -> Vec<u8> {
    let mut sector = vec![0u8; 512];
    sector[11] = 0x00;
    sector[12] = 0x02; // 512 bytes per sector
    sector[13] = 1; // sectors per cluster
    sector[14] = 1; // reserved sectors
    sector[16] = 2; // FAT copies
    sector[17] = 224; // root entries
    sector[19] = 0x40;
    sector[20] = 0x0b; // 2880 sectors
    sector[21] = 0xf0; // media
    sector[22] = 9; // sectors per FAT
    sector
}

#[test]
fn test_bios_param_calculations() {
    let mut params = BIOSParam::new();
    params.sectors = 1024;
    params.bytes_per_sector = 512;
    params.sectors_per_cluster = 4;
    assert_eq!(params.len(), 524288 as usize);
    assert_eq!(params.clusters(), 256 as usize);
}

#[test]
fn new_block_is_empty_with_two_fat_copies() {
    let params = BIOSParam::new();
    assert_eq!(params.bytes_per_sector, 0);
    assert_eq!(params.sectors_per_cluster, 0);
    assert_eq!(params.reserved_sectors, 0);
    assert_eq!(params.fat_count, 2);
    assert_eq!(params.max_roots, 0);
    assert_eq!(params.sectors, 0);
    assert_eq!(params.media_id, 0);
    assert_eq!(params.sectors_per_fat, 0);
    assert_eq!(params.len(), 0);
}

#[test]
fn clusters_is_zero_without_a_cluster_size() {
    let mut params = BIOSParam::new();
    params.sectors = 2880;
    assert_eq!(params.clusters(), 0);
}

#[test]
fn clusters_rounds_down() {
    let mut params = BIOSParam::new();
    params.sectors = 2881;
    params.sectors_per_cluster = 2;
    assert_eq!(params.clusters(), 1440);
}

#[test]
fn len_is_sectors_times_sector_size() {
    let mut params = BIOSParam::new();
    params.sectors = 2880;
    params.bytes_per_sector = 512;
    assert_eq!(params.len(), 1474560);
}

#[test]
fn parse_reads_the_floppy_geometry() {
    let sector = floppy_boot_sector();
    let params = BIOSParam::parse(&sector, 0).unwrap();
    assert_eq!(params.bytes_per_sector, 512);
    assert_eq!(params.sectors_per_cluster, 1);
    assert_eq!(params.reserved_sectors, 1);
    assert_eq!(params.fat_count, 2);
    assert_eq!(params.max_roots, 224);
    assert_eq!(params.sectors, 2880);
    assert_eq!(params.media_id, 0xf0);
    assert_eq!(params.sectors_per_fat, 9);
    assert_eq!(params.len(), 1474560);
    assert_eq!(params.clusters(), 2880);
}

#[test]
fn parse_reads_little_endian_words() {
    let mut sector = floppy_boot_sector();
    sector[14] = 0x34;
    sector[15] = 0x12;
    sector[17] = 0xcd;
    sector[18] = 0xab;
    let params = BIOSParam::parse(&sector, 0).unwrap();
    assert_eq!(params.reserved_sectors, 0x1234);
    assert_eq!(params.max_roots, 0xabcd);
}

#[test]
fn parse_falls_back_to_the_large_sector_count() {
    let mut sector = floppy_boot_sector();
    sector[19] = 0;
    sector[20] = 0;
    sector[32] = 0x78;
    sector[33] = 0x56;
    sector[34] = 0x34;
    sector[35] = 0x12;
    let params = BIOSParam::parse(&sector, 0).unwrap();
    assert_eq!(params.sectors, 0x12345678);
    assert_eq!(params.sectors_per_fat, 9);
}

#[test]
fn parse_falls_back_to_the_large_fat_size() {
    let mut sector = floppy_boot_sector();
    sector[22] = 0;
    sector[23] = 0;
    sector[36] = 0x01;
    sector[37] = 0x02;
    sector[38] = 0x03;
    sector[39] = 0x04;
    let params = BIOSParam::parse(&sector, 0).unwrap();
    assert_eq!(params.sectors_per_fat, 0x04030201);
    assert_eq!(params.sectors, 2880);
}

#[test]
fn parse_ignores_the_large_fields_beside_small_ones() {
    let mut sector = floppy_boot_sector();
    sector[32] = 0xff;
    sector[36] = 0xff;
    let params = BIOSParam::parse(&sector, 0).unwrap();
    assert_eq!(params.sectors, 2880);
    assert_eq!(params.sectors_per_fat, 9);
}

#[test]
fn parse_reads_at_an_offset() {
    let mut bytes = vec![0xeeu8; 100];
    bytes.extend(floppy_boot_sector());
    let params = BIOSParam::parse(&bytes, 100).unwrap();
    assert_eq!(params.bytes_per_sector, 512);
    assert_eq!(params.sectors, 2880);
}

#[test]
fn parse_refuses_a_short_source() {
    let bytes = vec![0u8; 511];
    assert_eq!(BIOSParam::parse(&bytes, 0), Err(FatError::Parse));
    let sector = floppy_boot_sector();
    assert_eq!(BIOSParam::parse(&sector, 1), Err(FatError::Parse));
    assert_eq!(BIOSParam::parse(&sector, usize::MAX), Err(FatError::Parse));
    assert_eq!(BIOSParam::parse(&[], 0), Err(FatError::Parse));
}

#[test]
fn parse_refuses_an_implausible_geometry() {
    let good = floppy_boot_sector();
    assert!(BIOSParam::parse(&good, 0).is_ok());
    for (at, value) in [
        (16usize, 0u8), // no FAT copy
        (13, 0),        // no sector in a cluster
        (13, 3),        // cluster size that is no power of two
        (13, 6),
        (13, 255),
    ] {
        let mut sector = good.clone();
        sector[at] = value;
        assert_eq!(BIOSParam::parse(&sector, 0), Err(FatError::Parse));
    }
    for size in [1u16, 256, 511, 513, 768, 1000, 8192, 0xffff] {
        let mut sector = good.clone();
        sector[11] = (size & 0xff) as u8;
        sector[12] = (size >> 8) as u8;
        assert_eq!(BIOSParam::parse(&sector, 0), Err(FatError::Parse));
    }
}

#[test]
fn parse_accepts_every_plausible_geometry() {
    for size in [512u16, 1024, 2048, 4096] {
        for cluster in [1u8, 2, 4, 8, 16, 32, 64, 128] {
            for copies in [1u8, 2, 3, 255] {
                let mut sector = floppy_boot_sector();
                sector[11] = (size & 0xff) as u8;
                sector[12] = (size >> 8) as u8;
                sector[13] = cluster;
                sector[16] = copies;
                let params = BIOSParam::parse(&sector, 0).unwrap();
                assert_eq!(params.bytes_per_sector, size);
                assert_eq!(params.sectors_per_cluster, cluster);
                assert_eq!(params.fat_count, copies);
                assert!(params.is_plausible());
            }
        }
    }
    assert!(!BIOSParam::new().is_plausible());
}

#[test]
fn parse_refuses_a_sector_size_of_zero() {
    let mut sector = floppy_boot_sector();
    sector[11] = 0;
    sector[12] = 0;
    assert_eq!(BIOSParam::parse(&sector, 0), Err(FatError::Parse));
    assert_eq!(BIOSParam::parse(&vec![0u8; 512], 0), Err(FatError::Parse));
}
