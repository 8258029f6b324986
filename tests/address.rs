use paging::address::{
    check_address_alignment, generate_virtual_address, pdt_virtual_access_addr,
    pdtp_virtual_access_addr, pml4_virtual_access_addr, pt_virtual_access_addr,
    virt_addr_indices,
};

#[test]
fn indices_of_known_address() {
    assert_eq!(virt_addr_indices(0x1000), (0, 0, 0, 1, 0));
    assert_eq!(virt_addr_indices(0x0000_7FFF_FFFF_FFFF), (255, 511, 511, 511, 0xFFF));
    assert_eq!(virt_addr_indices(0xFFFF_8000_0000_0000), (256, 0, 0, 0, 0));
    let v: u64 = (3 << 39) | (5 << 30) | (7 << 21) | (9 << 12) | 0xABC;
    assert_eq!(virt_addr_indices(v), (3, 5, 7, 9, 0xABC));
}

#[test]
fn indices_rebuild_address() {
    let addrs: [u64; 5] = [0, 0x1000, 0x1234_5678_9ABC, 0x0000_7FFF_FFFF_FFFF, 0x0000_4020_1008_0ABC];
    for &v in addrs.iter() {
        let (p4, p3, p2, p1, off) = virt_addr_indices(v);
        let rebuilt = ((p4 as u64) << 39) | ((p3 as u64) << 30) | ((p2 as u64) << 21)
            | ((p1 as u64) << 12) | off as u64;
        assert_eq!(rebuilt, v);
    }
    let (p4, p3, p2, p1, off) = virt_addr_indices(0xFFFF_8123_4567_89AB);
    let rebuilt = ((p4 as u64) << 39) | ((p3 as u64) << 30) | ((p2 as u64) << 21)
        | ((p1 as u64) << 12) | off as u64;
    assert_eq!(rebuilt, 0x0000_8123_4567_89AB);
}

#[test]
fn recursive_access_addresses() {
    assert_eq!(pml4_virtual_access_addr(0), 0x0000_FFFF_FFFF_F000);
    assert_eq!(pml4_virtual_access_addr(1), 0x0000_FFFF_FFFF_F008);
    assert_eq!(pml4_virtual_access_addr(511), 0x0000_FFFF_FFFF_FFF8);
    assert_eq!(pdtp_virtual_access_addr(0, 0), 0x0000_FFFF_FFE0_0000);
    assert_eq!(pdtp_virtual_access_addr(2, 3), 0x0000_FFFF_FFE0_2018);
    assert_eq!(pdt_virtual_access_addr(1, 2, 3), 0x0000_FFFF_C020_2018);
    assert_eq!(pt_virtual_access_addr(1, 2, 3, 4), 0x0000_FF80_4040_3020);
}

#[test]
fn recursive_access_address_decomposes_into_recursive_indices() {
    let a = pt_virtual_access_addr(1, 2, 3, 4);
    assert_eq!(virt_addr_indices(a), (511, 1, 2, 3, 32));
    let a = pml4_virtual_access_addr(9);
    assert_eq!(virt_addr_indices(a), (511, 511, 511, 511, 72));
}

#[test]
fn alignment_rounds_down() {
    assert_eq!(check_address_alignment(0x1234, 4096), 0x1000);
    assert_eq!(check_address_alignment(0x2000, 4096), 0x2000);
    assert_eq!(check_address_alignment(0xFFF, 4096), 0);
    assert_eq!(check_address_alignment(u64::MAX, 4096), 0xFFFF_FFFF_FFFF_F000);
}

#[test]
fn generated_addresses_are_aligned_user_addresses() {
    for _ in 0..100 {
        let v = generate_virtual_address();
        assert_eq!(v % 4096, 0);
        assert!(v < 0x0000_7FFF_FFFF_FFFF);
    }
}
