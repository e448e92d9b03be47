use stalker::bitflip::Bitflip;
use stalker::mutator::{Mutatable, RawMutatable};
use stalker::stuck::Stuck;
use stalker::instruction::Asm;
use stalker::tag::Tag;

#[test]
fn test_bitflip_raw_mutants() {
    let bytes = vec![0u8, 1u8, 2u8, 3u8];
    let mut len = 0;
    let mut it = bytes.raw_mutants::<Bitflip>();
    while let Some(_) = it.next() {
        len += 1;
    }
    assert_eq!(len, 32);
}

#[test]
fn bitflip_order_and_exhaustion() {
    let bytes = vec![0u8, 0x80u8];
    let mut it = bytes.raw_mutants::<Bitflip>();
    let all = it.collect_all();
    assert_eq!(all.len(), 16);
    assert_eq!(all[0], vec![1u8, 0x80]);
    assert_eq!(all[7], vec![0x80u8, 0x80]);
    assert_eq!(all[8], vec![0u8, 0x81]);
    assert_eq!(all[15], vec![0u8, 0x00]);
    assert_eq!(it.next(), None);
    assert_eq!(it.next(), None);
    let empty: Vec<u8> = vec![];
    assert_eq!(empty.raw_mutants::<Bitflip>().next(), None);
}

#[test]
fn test_fault_name() {
    assert_eq!("stuck-0x00", Stuck::<0x00>::tag());
    assert_eq!("stuck-0x05", Stuck::<0x05>::tag());
    assert_eq!("stuck-0xff", Stuck::<0xff>::tag());
    assert_eq!("bitflip", Bitflip::tag());
    assert_eq!("bitflip", Bitflip.id());
}

#[test]
fn test_stuck_raw_mutants() {
    const MASK: u8 = 0b11111111;
    let bytes_4 = vec![0u8, 1, 2u8, 3u8];
    let bytes_2 = vec![0xff, 0xff, 2u8, 3u8];
    let bytes_0 = vec![0xff; 4];
    assert_eq!(4, bytes_4.raw_mutants::<Stuck<MASK>>().collect_all().len());
    assert_eq!(2, bytes_2.raw_mutants::<Stuck<MASK>>().collect_all().len());
    assert_eq!(0, bytes_0.raw_mutants::<Stuck<MASK>>().collect_all().len());
}

#[test]
fn stuck_mutant_values() {
    let bytes = vec![0u8, 7, 0, 9];
    let all = bytes.raw_mutants::<Stuck<0x00>>().collect_all();
    assert_eq!(all, vec![vec![0u8, 0, 0, 9], vec![0u8, 7, 0, 0]]);
}

#[test]
fn asm_mutants() {
    let ins = Asm { bytes: vec![0xc3], size: 1, disasm: Some("ret".to_string()) };
    let all = ins.mutants::<Bitflip>().collect_all();
    assert_eq!(all.len(), 8);
    assert_eq!(all[0], vec![0xc2]);
    assert_eq!(all[7], vec![0x43]);
}
