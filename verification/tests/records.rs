use stalker::config::{Arch, Config, SymConfig, LibConfig};
use stalker::binary::BinaryInfo;
use stalker::error::Error;
use stalker::hexcodec::{decode_hex, HexError};
use stalker::injector::{offset_from_key, offset_key, output_dir, Change, InjectionConfig, InjectionState, InjectionStep};
use stalker::instruction::Asm;
use stalker::loc::LocAsm;
use stalker::text::hex;

fn ins(bytes: Vec<u8>, disasm: Option<&str>) -> Asm {
    let size = bytes.len() as u8;
    Asm { bytes, size, disasm: disasm.map(|s| s.to_string()) }
}

#[test]
fn hex_renders_two_digits_per_byte() {
    assert_eq!(hex(&[0x0a, 0xff, 0x00]), "0aff00");
    assert_eq!(hex(&[]), "");
}

#[test]
fn decode_hex_results() {
    assert_eq!(decode_hex(b"0aFf").unwrap(), vec![0x0a, 0xff]);
    assert!(matches!(decode_hex(b"0a1"), Err(HexError::OddLength)));
    assert!(matches!(
        decode_hex(b"0g"),
        Err(HexError::InvalidHexCharacter { c: b'g', index: 1 })
    ));
    assert_eq!(decode_hex(b"").unwrap(), Vec::<u8>::new());
}

#[test]
fn arch_and_key() {
    let arch = Arch::default();
    assert_eq!(arch.arch, "arm");
    assert_eq!(arch.bits, 64);
    assert_eq!(arch.to_string(), "arm-64");
    let a = ins(vec![0xc3], Some("ret"));
    assert_eq!(a.key(&arch, 5), "arm-64_c3_05");
    let x86 = Arch { arch: "x86".to_string(), bits: 32 };
    assert_eq!(ins(vec![0x0f, 0x05], None).key(&x86, 0xff), "x86-32_0f05_ff");
}

#[test]
fn record_reads_back() {
    let a = ins(vec![0x48, 0x89, 0xe5], Some("mov rbp, rsp"));
    let r = a.record();
    assert_eq!(r, "4889e5_mov rbp, rsp");
    let b = Asm::from_string(&r);
    assert_eq!(b.bytes, a.bytes);
    assert_eq!(b.size, 3);
    assert_eq!(b.disasm, a.disasm);
    let n = ins(vec![0xff], None);
    assert_eq!(n.record(), "ff_invalid");
    assert_eq!(Asm::from_string(&n.record()).disasm, None);
}

#[test]
fn record_fields() {
    let a = Asm::from_string("c3_ret_more");
    assert_eq!(a.disasm.as_deref(), Some("ret"));
    assert!(Asm::try_from_string("c3").is_none());
    assert!(Asm::try_from_string("zz_ret").is_none());
    assert!(Asm::try_from_string("c3_").unwrap().disasm == Some(String::new()));
}

#[test]
fn meta_and_diff_of_instructions() {
    let a = ins(vec![0xc3], Some("mov rbp, rsp"));
    let b = ins(vec![0xc3], Some("mov rax, rsp"));
    assert!(a.meta().is_ok());
    assert!(matches!(ins(vec![], None).meta(), Err(Error::Disasm)));
    assert!(matches!(ins(vec![], Some("!")).meta(), Err(Error::Parse(m)) if m == "Parsing Error: Error { input: \"!\", code: AlphaNumeric }"));
    assert!(a.diff(&b).is_ok());
    assert!(matches!(a.diff(&ins(vec![], None)), Err(Error::Disasm)));
    assert!(matches!(ins(vec![], Some("!")).diff(&a), Err(Error::Parse(m)) if m == "Parsing Error: Error { input: \"!\", code: AlphaNumeric }"));
    assert!(matches!(a.diff(&ins(vec![], Some("?x"))), Err(Error::Parse(m)) if m == "Parsing Error: Error { input: \"?x\", code: AlphaNumeric }"));
    assert!(matches!(ins(vec![], None).diff(&ins(vec![], Some("?"))), Err(Error::Disasm)));
}

#[test]
fn disassembler_output() {
    let a = Asm::from_disasm_output(&[1, 2], "mov a\nret\n");
    assert_eq!(a.disasm.as_deref(), Some("mov a;ret;"));
    assert_eq!(a.size, 2);
    assert_eq!(Asm::from_disasm_output(&[1], "").disasm, None);
    assert_eq!(Asm::from_disasm_output(&[1], "invalid").disasm, None);
    let b = Asm::from_assembly("ret".to_string(), "c3").unwrap();
    assert_eq!(b.bytes, vec![0xc3]);
    assert!(matches!(Asm::from_assembly("ret".to_string(), "c3\n"), Err(Error::HexDecode(HexError::OddLength))));
    assert!(matches!(
        Asm::from_assembly("ret".to_string(), "c3 \n"),
        Err(Error::HexDecode(HexError::InvalidHexCharacter { c: b' ', index: 2 }))
    ));
}

#[test]
fn change_id() {
    let loc = LocAsm { bytes: vec![0x1f, 0x20], disasm: None, offset: 0x4cd04, size: 2 };
    let c = Change(loc, ins(vec![0x1f, 0x21], None), 0x0a);
    assert_eq!(c.id(), "4cd04_1f20_0a");
}

#[test]
fn offsets_of_keys() {
    assert_eq!(offset_from_key("0004cd04"), Some(0x4cd04));
    assert_eq!(offset_from_key(""), None);
    assert_eq!(offset_from_key("12x"), None);
    assert_eq!(offset_from_key("1ffffffffffffffff"), None);
}

#[test]
fn injection_steps() {
    let arch = Arch::default();
    let mut st = InjectionState::new();
    assert!(matches!(st.on_next(&arch), InjectionStep::FetchLoc));
    match st.on_loc(&arch, Some((0x10, "c3_ret"))) {
        InjectionStep::Lookup(k) => assert_eq!(k, "arm-64_c3_00"),
        _ => panic!("expected a lookup"),
    }
    match st.on_mutant(&arch, Some("c2_ret")) {
        InjectionStep::Emit(c) => {
            assert_eq!(c.0.offset, 0x10);
            assert_eq!(c.1.bytes, vec![0xc2]);
            assert_eq!(c.2, 1);
        }
        _ => panic!("expected an injection"),
    }
    match st.on_mutant(&arch, None) {
        InjectionStep::Lookup(k) => assert_eq!(k, "arm-64_c3_01"),
        _ => panic!("expected a lookup"),
    }
    for _ in 2..8 {
        assert!(matches!(st.on_next(&arch), InjectionStep::Lookup(_)));
    }
    assert!(matches!(st.on_next(&arch), InjectionStep::FetchLoc));
    assert!(st.loc_asm.is_none());
    assert!(matches!(st.on_loc(&arch, None), InjectionStep::Done));
}

#[test]
fn configs() {
    let c = Config::default();
    assert_eq!(c.os, "linux");
    assert_eq!(c.db_path, "data/stalker");
    assert_eq!(c.rz_path, "data/stalker/rizin");
    let mut bi = BinaryInfo::default();
    assert_eq!(bi.bin.endian, "big");
    bi.bin.arch = "x86".to_string();
    bi.bin.bits = 32;
    let c = c.with_binary_info(bi);
    assert_eq!(c.arch.to_string(), "x86-32");
    assert_eq!(c.db_path, "data/stalker");
    let l = LibConfig::default();
    assert_eq!(l.link_name, "libgcrypt.so");
    let i = InjectionConfig::default();
    assert!(i.dry_run);
    assert_eq!(i.exec_command, "./bin");
}

#[test]
fn symbol_selection() {
    let f = SymConfig::default();
    assert!(f.predicate("AES_encrypt"));
    assert!(f.predicate("_gcry_aes_cbc_enc"));
    assert!(!f.predicate("sha256"));
    let m = SymConfig::Matches(vec!["main".to_string(), "init".to_string()]);
    assert!(m.predicate("init"));
    assert!(!m.predicate("mai"));
}

#[test]
fn instruction_and_change_texts() {
    let a = ins(vec![0xc3], Some("ret"));
    assert_eq!(a.to_string(), "ASM { value: c3, size: 1, disasm: \"ret\" }");
    let b = ins(vec![0x90, 0x90], None);
    assert_eq!(b.to_string(), "ASM { value: 9090, size: 2, disasm: \"invalid\" }");
    let loc = LocAsm { bytes: vec![0xc3], disasm: Some("ret".to_string()), offset: 0x4cd04, size: 1 };
    let c = Change(loc, ins(vec![0xc2], Some("ret\t\"x\"")), 3);
    assert_eq!(
        c.to_string(),
        "Change: { offset: 0004cd04 }\n  from: ASM { value: c3, size: 1, disasm: \"ret\" }\n    to: ASM { value: c2, size: 1, disasm: \"ret\\t\\\"x\\\"\" }"
    );
}

#[test]
fn offset_keys_read_back() {
    assert_eq!(offset_key(0x4cd04), "0004cd04");
    assert_eq!(offset_key(0), "00000000");
    assert_eq!(offset_key(0x123456789), "123456789");
    for off in [0usize, 7, 0x4cd04, 0xffffffff, 0x1_0000_0000] {
        assert_eq!(offset_from_key(&offset_key(off)), Some(off));
    }
}

#[test]
fn result_paths() {
    assert_eq!(output_dir("bitflip", "lib", "aes"), "data/stalker/output/bitflip/lib/aes");
    let loc = LocAsm { bytes: vec![0x1f, 0x20], disasm: None, offset: 0x10, size: 2 };
    let c = Change(loc, ins(vec![0x1f, 0x21], None), 1);
    assert_eq!(
        c.result_path("stuck-0x00", "t", "n", "stdout"),
        "data/stalker/output/stuck-0x00/t/n/10_1f20_01.stdout"
    );
    assert_eq!(c.cache_dir(), "/tmp/stalker-cache/10_1f20_01");
}

#[test]
fn data_path_config() {
    let c = Config::default().with_data_path("/tmp/stalker");
    assert_eq!(c.db_path, "/tmp/stalker");
    assert_eq!(c.rz_path, "/tmp/stalker/rizin");
    assert_eq!(c.os, "linux");
    assert_eq!(c.arch, Arch::default());
}

#[test]
fn hex_reads_back() {
    assert_eq!(hex(&[0x00, 0x0f, 0xab]), "000fab");
    assert_eq!(hex(&[]), "");
    for bytes in [vec![], vec![0u8], vec![0xde, 0xad, 0xbe, 0xef], (0..=255u8).collect::<Vec<u8>>()] {
        let h = hex(&bytes);
        assert_eq!(h.len(), 2 * bytes.len());
        assert_eq!(decode_hex(h.as_bytes()).unwrap(), bytes);
    }
}

fn drive(arch: &Arch, locs: &[(usize, &str)], store: &std::collections::HashMap<String, String>) -> Vec<Change> {
    let mut st = InjectionState::new();
    let mut li = 0;
    let mut out = vec![];
    let mut step = st.on_next(arch);
    loop {
        step = match step {
            InjectionStep::FetchLoc => {
                if li < locs.len() {
                    li += 1;
                    st.on_loc(arch, Some(locs[li - 1]))
                } else {
                    st.on_loc(arch, None)
                }
            }
            InjectionStep::Lookup(k) => st.on_mutant(arch, store.get(&k).map(|s| s.as_str())),
            InjectionStep::Emit(c) => {
                out.push(c);
                st.on_next(arch)
            }
            InjectionStep::Done => return out,
        }
    }
}

#[test]
fn injection_sequence() {
    let arch = Arch::default();
    let mut store = std::collections::HashMap::new();
    store.insert("arm-64_c3_02".to_string(), "c7_x".to_string());
    store.insert("arm-64_c3_07".to_string(), "43_invalid".to_string());
    store.insert("arm-64_9090_0f".to_string(), "9010_nop".to_string());
    store.insert("arm-64_9090_10".to_string(), "0000_never".to_string());
    let changes = drive(&arch, &[(0x10, "c3_ret"), (0x20, "9090_nop")], &store);
    let got: Vec<(usize, Vec<u8>, u8)> = changes.iter().map(|c| (c.0.offset, c.1.bytes.clone(), c.2)).collect();
    assert_eq!(got, vec![(0x10, vec![0xc7], 3), (0x10, vec![0x43], 8), (0x20, vec![0x90, 0x10], 16)]);
    assert_eq!(changes[1].1.disasm, None);
    assert!(drive(&arch, &[], &store).is_empty());
}
