use paging::entry::{PageTableEntry, PermissionSet};
use paging::error::TranslationError;

#[test]
fn entry_round_trips_aligned_addresses() {
    let addrs: [u64; 5] = [0, 0x1000, 0x7_6543_2000, 0x000F_FFFF_FFFF_F000, 0x1234_5000];
    for &a in addrs.iter() {
        for flags in 0u8..8 {
            let e = PageTableEntry::new(a, flags & 1 != 0, flags & 2 != 0, flags & 4 != 0).unwrap();
            assert_eq!(e.get_phys_address(), a);
        }
    }
}

#[test]
fn entry_packs_flag_bits() {
    let e = PageTableEntry::new(0x5000, true, true, true).unwrap();
    assert_eq!(e.bits(), 0x8000_0000_0000_5003);
    let e = PageTableEntry::new(0x5000, true, false, false).unwrap();
    assert_eq!(e.bits(), 0x5001);
    let e = PageTableEntry::new(0x5000, false, true, false).unwrap();
    assert_eq!(e.bits(), 0x5002);
    let e = PageTableEntry::new(0, false, false, false).unwrap();
    assert_eq!(e.bits(), 0);
}

#[test]
fn entry_rejects_unaligned_address() {
    assert_eq!(
        PageTableEntry::new(0x1001, true, true, false),
        Err(TranslationError::InvalidAlignment)
    );
    assert_eq!(
        PageTableEntry::new(0xFFF, false, false, false),
        Err(TranslationError::InvalidAlignment)
    );
}

#[test]
fn entry_presence_reads_bit_zero() {
    assert!(PageTableEntry::new(0x2000, true, false, false).unwrap().is_present());
    assert!(!PageTableEntry::new(0x2000, false, true, true).unwrap().is_present());
    assert!(PageTableEntry::from_bits(1).is_present());
    assert!(!PageTableEntry::from_bits(0xFFFF_FFFF_FFFF_FFFE).is_present());
}

#[test]
fn entry_address_ignores_flag_bits() {
    let e = PageTableEntry::from_bits(0xFFFF_FFFF_FFFF_FFFF);
    assert_eq!(e.get_phys_address(), 0x000F_FFFF_FFFF_F000);
}

#[test]
fn entry_address_beyond_52_bits_is_cut() {
    let e = PageTableEntry::new(0x0010_0000_0000_1000, true, false, false).unwrap();
    assert_eq!(e.get_phys_address(), 0x1000);
}

#[test]
fn entry_permissions_combine() {
    let e = PageTableEntry::new(0x3000, true, true, false).unwrap();
    assert_eq!(
        e.permissions(),
        PermissionSet { writable: true, executable: true, read_only: false }
    );
    let e = PageTableEntry::new(0x3000, true, false, true).unwrap();
    assert_eq!(
        e.permissions(),
        PermissionSet { writable: false, executable: false, read_only: true }
    );
    let e = PageTableEntry::new(0x3000, true, false, false).unwrap();
    assert_eq!(
        e.permissions(),
        PermissionSet { writable: false, executable: true, read_only: true }
    );
}
