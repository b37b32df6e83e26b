use cpp_test_runner::executable_finder::{
    contains_subseq, find_test_executables, parse_test_executable, validate_executables,
    CandidateFile,
};
use cpp_test_runner::elf::{Elf, FetchInteger, Section};
use cpp_test_runner::types::ExecutableType;
use cpp_test_runner::Error;

fn set_u16(buf: &mut Vec<u8>, off: usize, v: u16) {
    let b = [(v & 0xff) as u8, (v >> 8) as u8];
    buf[off] = b[0];
    buf[off + 1] = b[1];
}

fn set_u32(buf: &mut Vec<u8>, off: usize, v: u32) {
    for i in 0..4 {
        buf[off + i] = ((v >> (8 * i)) & 0xff) as u8;
    }
}

fn set_u64(buf: &mut Vec<u8>, off: usize, v: u64) {
    for i in 0..8 {
        buf[off + i] = ((v >> (8 * i)) & 0xff) as u8;
    }
}

/// A minimal little-endian 64-bit ELF image with one symbol table and
/// one string table. `names` become NUL-terminated entries of the
/// string blob, one symbol pointing at each.
fn synthetic_elf(names: &[&str], link: u16) -> Vec<u8> {
    let shnum: u16 = 2;
    let shoff: usize = 64;
    let sym_off: usize = shoff + 64 * shnum as usize;
    let sym_size: usize = 24 * names.len();
    let str_off: usize = sym_off + sym_size;

    let mut strings: Vec<u8> = Vec::new();
    let mut name_offsets: Vec<u32> = Vec::new();
    for name in names {
        name_offsets.push(strings.len() as u32);
        strings.extend_from_slice(name.as_bytes());
        strings.push(0);
    }

    let total = str_off + strings.len();
    let mut img = vec![0u8; total];
    img[0] = 0x7f;
    img[1] = 0x45;
    img[2] = 0x4c;
    img[3] = 0x46;
    img[4] = 2; // 64-bit class
    img[5] = 1; // little-endian
    set_u16(&mut img, 0x10, 2); // executable
    set_u64(&mut img, 0x28, shoff as u64);
    set_u16(&mut img, 0x3C, shnum);

    // section 0: symbol table
    set_u32(&mut img, shoff + 0x04, 2);
    set_u64(&mut img, shoff + 0x18, sym_off as u64);
    set_u64(&mut img, shoff + 0x20, sym_size as u64);
    set_u32(&mut img, shoff + 0x28, link as u32);

    // section 1: string table
    set_u32(&mut img, shoff + 64 + 0x04, 3);
    set_u64(&mut img, shoff + 64 + 0x18, str_off as u64);
    set_u64(&mut img, shoff + 64 + 0x20, strings.len() as u64);

    for (i, off) in name_offsets.iter().enumerate() {
        set_u32(&mut img, sym_off + 24 * i, *off);
    }
    for (i, b) in strings.iter().enumerate() {
        img[str_off + i] = *b;
    }
    img
}

#[test]
fn short_file_is_not_a_binary() {
    let r = parse_test_executable("/tmp/x", 0, vec![0x7f, 0x45, 0x4c], true, true);
    assert!(matches!(r, Err(Error::NotABinary)));
}

#[test]
fn wrong_magic_is_not_a_binary() {
    let mut img = synthetic_elf(&["main"], 1);
    img[1] = 0x46;
    let r = parse_test_executable("/tmp/x", 0, img, true, true);
    assert!(matches!(r, Err(Error::NotABinary)));
}

#[test]
fn thirty_two_bit_class_is_unsupported() {
    let mut img = synthetic_elf(&["main"], 1);
    img[4] = 1;
    let r = parse_test_executable("/tmp/x", 0, img, true, true);
    assert!(matches!(r, Err(Error::Unsupported64Bit)));
}

#[test]
fn relocatable_file_is_not_a_test_executable() {
    let mut img = synthetic_elf(&["InitGoogleTest"], 1);
    set_u16(&mut img, 0x10, 1); // relocatable object, neither exec nor dyn
    let r = parse_test_executable("/tmp/x", 0, img, true, true);
    assert!(matches!(r, Ok(None)));
}

#[test]
fn gtest_marker_classifies_as_gtest() {
    let img = synthetic_elf(&["main", "_Z13InitGoogleTestPiPPc", "exit"], 1);
    let r = parse_test_executable("/tmp/g", 7, img, true, true).unwrap().unwrap();
    assert_eq!(r.executable_type, ExecutableType::Gtest);
    assert_eq!(r.path, "/tmp/g");
    assert_eq!(r.modified, 7);
}

#[test]
fn catch2_marker_classifies_as_catch2() {
    let img = synthetic_elf(&["main", "_ZN6Catch28RunnerE"], 1);
    let r = parse_test_executable("/tmp/c", 0, img, true, true).unwrap().unwrap();
    assert_eq!(r.executable_type, ExecutableType::Catch2);
}

#[test]
fn no_marker_classifies_as_none() {
    let img = synthetic_elf(&["main", "printf", "exit"], 1);
    let r = parse_test_executable("/tmp/n", 0, img, true, true).unwrap();
    assert!(r.is_none());
}

#[test]
fn disabled_gtest_detection_skips_marker() {
    let img = synthetic_elf(&["InitGoogleTest"], 1);
    let r = parse_test_executable("/tmp/g", 0, img, false, true).unwrap();
    assert!(r.is_none());
}

#[test]
fn out_of_range_string_table_link_is_malformed() {
    let img = synthetic_elf(&["InitGoogleTest"], 9);
    let r = parse_test_executable("/tmp/m", 0, img, true, true);
    assert!(matches!(r, Err(Error::MalformedBinary)));
}

#[test]
fn elf_reader_exposes_header_fields() {
    let img = synthetic_elf(&["main"], 1);
    let elf = Elf::new(img).unwrap();
    assert!(elf.header().e_type_is_64_bits());
    assert_eq!(elf.header().e_type(), 2);
    assert_eq!(elf.header().e_shoff(), 64);
    assert_eq!(elf.header().e_shnum(), 2);
    assert_eq!(elf.header().e_shstrndx(), 0);
}

#[test]
fn elf_reader_finds_symbol_table_and_names() {
    let img = synthetic_elf(&["alpha", "beta"], 1);
    let elf = Elf::new(img).unwrap();
    let headers = elf.get_all_section_headers().unwrap();
    assert_eq!(headers.headers.len(), 2);
    let symtab = headers.find_symbol_table_header().unwrap();
    assert_eq!(symtab.sh_type(), 2);
    assert_eq!(symtab.sh_link(), 1);
    let symbols = match elf.get_section(symtab).unwrap() {
        Section::Symbols(symbols) => symbols,
        _ => panic!("expected a symbol table"),
    };
    assert_eq!(symbols.len(), 2);
    let strings = match elf.get_section(&headers.headers[1]).unwrap() {
        Section::Strings(strings) => strings,
        _ => panic!("expected a string table"),
    };
    let name = strings.get_symbol_name(&symbols[1]).unwrap();
    assert_eq!(name, b"beta".to_vec());
    let mut bogus = symbols[1];
    bogus.st_name = 1000;
    assert!(strings.get_symbol_name(&bogus).is_none());
}

#[test]
fn big_endian_headers_decode_by_their_own_flag() {
    let mut img = vec![0u8; 64];
    img[0] = 0x7f;
    img[1] = 0x45;
    img[2] = 0x4c;
    img[3] = 0x46;
    img[4] = 2; // 64-bit class
    img[5] = 2; // big-endian
    img[0x10] = 0x00;
    img[0x11] = 0x02; // e_type, most significant byte first
    img[0x3C] = 0x01;
    img[0x3D] = 0x00; // e_shnum = 256 when read big-endian
    let elf = Elf::new(img).unwrap();
    assert!(!elf.header().is_little_endian());
    assert_eq!(elf.header().e_type(), 2);
    assert_eq!(elf.header().e_shnum(), 256);
}

#[test]
fn substring_search_finds_runs() {
    let hay = b"xx_InitGoogleTest_yy".to_vec();
    assert!(contains_subseq(&hay, &b"InitGoogleTest".to_vec()));
    assert!(!contains_subseq(&hay, &b"InitGoogleTests".to_vec()));
    assert!(contains_subseq(&hay, &Vec::new()));
    assert!(!contains_subseq(&b"ab".to_vec(), &b"abc".to_vec()));
}

#[test]
fn validation_rejects_a_non_test_candidate() {
    let good = CandidateFile { path: String::from("/bin/good"), modified: 1, data: synthetic_elf(&["InitGoogleTest"], 1) };
    let bad = CandidateFile { path: String::from("/bin/bad"), modified: 2, data: vec![1, 2, 3, 4] };
    let r = validate_executables(&vec![good, bad], true, true);
    assert!(matches!(r, Err(Error::NotATestExecutable)));
}

#[test]
fn validation_accepts_test_candidates() {
    let a = CandidateFile { path: String::from("/bin/a"), modified: 1, data: synthetic_elf(&["InitGoogleTest"], 1) };
    let b = CandidateFile { path: String::from("/bin/b"), modified: 2, data: synthetic_elf(&["Catch2Session"], 1) };
    let r = validate_executables(&vec![a, b], true, true).unwrap();
    assert_eq!(r.len(), 2);
    assert_eq!(r[0].executable_type, ExecutableType::Gtest);
    assert_eq!(r[1].executable_type, ExecutableType::Catch2);
}

#[test]
fn scanning_swallows_bad_candidates() {
    let a = CandidateFile { path: String::from("/bin/a"), modified: 1, data: synthetic_elf(&["InitGoogleTest"], 1) };
    let junk = CandidateFile { path: String::from("/bin/junk"), modified: 2, data: vec![0u8; 10] };
    let malformed = CandidateFile { path: String::from("/bin/m"), modified: 3, data: synthetic_elf(&["InitGoogleTest"], 9) };
    let r = find_test_executables(&vec![junk, a, malformed], true, true);
    assert_eq!(r.len(), 1);
    assert_eq!(r[0].path, "/bin/a");
}

#[test]
fn scanning_the_same_tree_twice_is_deterministic() {
    let mk = |p: &str, names: &[&str]| CandidateFile {
        path: String::from(p),
        modified: 0,
        data: synthetic_elf(names, 1),
    };
    let one = vec![mk("/t/a", &["InitGoogleTest"]), mk("/t/b", &["puts"]), mk("/t/c", &["Catch2Main"])];
    let other = vec![mk("/t/c", &["Catch2Main"]), mk("/t/a", &["InitGoogleTest"]), mk("/t/b", &["puts"])];
    let mut first: Vec<String> = find_test_executables(&one, true, true)
        .into_iter()
        .map(|e| e.path)
        .collect();
    let mut second: Vec<String> = find_test_executables(&other, true, true)
        .into_iter()
        .map(|e| e.path)
        .collect();
    first.sort();
    second.sort();
    assert_eq!(first, second);
    assert_eq!(first, vec![String::from("/t/a"), String::from("/t/c")]);
}
