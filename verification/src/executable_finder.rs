//! Classification of candidate files by the test framework they link.
//!
//! A candidate is a file image together with its path and timestamp. A
//! valid 64-bit executable or shared object is classified by scanning
//! the names in its symbol table for a framework marker: the GoogleTest
//! initialization entry point, or the Catch2 runtime name. A file that
//! is not such a binary is rejected; a binary claiming a symbol table
//! whose string-table link is out of range is reported as malformed.

use crate::elf::{
    header_field, is_symtab_block, open_error, opens, section_block, section_field, spec_symbol,
    symbol_name_at, symtab_index, Elf, Elf64Sym, Section, SectionHeaders, StringTable,
};
use crate::types::{Executable, ExecutableModel, ExecutableType};
use crate::Error;
use vstd::prelude::*;

verus! {

/// The marker bytes of the GoogleTest initialization entry point:
/// the name `InitGoogleTest`.
pub open spec fn gtest_marker() -> Seq<u8> {
    seq![
        0x49u8, 0x6eu8, 0x69u8, 0x74u8, 0x47u8, 0x6fu8, 0x6fu8, 0x67u8, 0x6cu8, 0x65u8, 0x54u8,
        0x65u8, 0x73u8, 0x74u8,
    ]
}

/// The marker bytes of the Catch2 runtime: the name `Catch2`.
pub open spec fn catch2_marker() -> Seq<u8> {
    seq![0x43u8, 0x61u8, 0x74u8, 0x63u8, 0x68u8, 0x32u8]
}

/// Builds the GoogleTest marker as a byte vector.
fn gtest_marker_bytes() -> (r: Vec<u8>)
    ensures
        r@ == gtest_marker(),
{
    let mut v: Vec<u8> = Vec::new();
    v.push(0x49);
    v.push(0x6e);
    v.push(0x69);
    v.push(0x74);
    v.push(0x47);
    v.push(0x6f);
    v.push(0x6f);
    v.push(0x67);
    v.push(0x6c);
    v.push(0x65);
    v.push(0x54);
    v.push(0x65);
    v.push(0x73);
    v.push(0x74);
    proof {
        assert(v@ =~= gtest_marker());
    }
    v
}

/// Builds the Catch2 marker as a byte vector.
pub(crate) fn catch2_marker_bytes() -> (r: Vec<u8>)
    ensures
        r@ == catch2_marker(),
{
    let mut v: Vec<u8> = Vec::new();
    v.push(0x43);
    v.push(0x61);
    v.push(0x74);
    v.push(0x63);
    v.push(0x68);
    v.push(0x32);
    proof {
        assert(v@ =~= catch2_marker());
    }
    v
}

/// Whether `needle` stands in `hay` starting at position `i`.
pub open spec fn match_at(hay: Seq<u8>, needle: Seq<u8>, i: int) -> bool {
    0 <= i && i + needle.len() <= hay.len() && hay.subrange(i, i + needle.len()) == needle
}

/// Whether `needle` occurs anywhere in `hay`.
pub open spec fn contains_seq(hay: Seq<u8>, needle: Seq<u8>) -> bool {
    exists|i: int| match_at(hay, needle, i)
}

/// Compares `needle` against the bytes of `hay` starting at `i`.
fn bytes_match_at(hay: &Vec<u8>, needle: &Vec<u8>, i: usize) -> (r: bool)
    requires
        i + needle@.len() <= hay@.len(),
    ensures
        r == match_at(hay@, needle@, i as int),
{
    let hn = hay.len();
    let nn = needle.len();
    let mut j: usize = 0;
    while j < nn
        invariant
            hn == hay@.len(),
            i + nn <= hn,
            nn == needle@.len(),
            j <= nn,
            forall|k: int| 0 <= k < j ==> hay@[i + k] == needle@[k],
        decreases nn - j,
    {
        if hay[i + j] != needle[j] {
            proof {
                assert(!match_at(hay@, needle@, i as int)) by {
                    if hay@.subrange(i as int, i + nn) == needle@ {
                        assert(hay@.subrange(i as int, i + nn)[j as int] == hay@[i + j]);
                    }
                }
            }
            return false;
        }
        j = j + 1;
    }
    proof {
        assert(hay@.subrange(i as int, i + nn) =~= needle@);
    }
    true
}

/// Whether `needle` occurs as a contiguous run of bytes inside `hay`.
pub fn contains_subseq(hay: &Vec<u8>, needle: &Vec<u8>) -> (r: bool)
    ensures
        r == contains_seq(hay@, needle@),
{
    let hn = hay.len();
    let nn = needle.len();
    if nn > hn {
        proof {
            assert(forall|i: int| !match_at(hay@, needle@, i));
        }
        return false;
    }
    if nn == 0 {
        proof {
            assert(hay@.subrange(0, 0) =~= needle@);
            assert(match_at(hay@, needle@, 0));
        }
        return true;
    }
    let mut i: usize = 0;
    while i <= hn - nn
        invariant
            1 <= nn <= hn,
            hn == hay@.len(),
            nn == needle@.len(),
            i <= hn - nn + 1,
            forall|k: int| 0 <= k < i ==> !match_at(hay@, needle@, k),
        decreases hn - nn + 1 - i,
    {
        if bytes_match_at(hay, needle, i) {
            return true;
        }
        i = i + 1;
    }
    proof {
        assert(forall|k: int| #[trigger] match_at(hay@, needle@, k) ==> 0 <= k <= hn - nn);
        assert(forall|k: int| !match_at(hay@, needle@, k));
    }
    false
}

/// The framework a single symbol reveals: the first enabled marker its
/// name contains, the GoogleTest marker checked first.
pub open spec fn symbol_class(
    strings: Seq<u8>,
    sym: Elf64Sym,
    gtest_enabled: bool,
    catch2_enabled: bool,
) -> Option<ExecutableType> {
    match symbol_name_at(strings, sym.st_name as int) {
        Some(name) => if gtest_enabled && contains_seq(name, gtest_marker()) {
            Some(ExecutableType::Gtest)
        } else if catch2_enabled && contains_seq(name, catch2_marker()) {
            Some(ExecutableType::Catch2)
        } else {
            None
        },
        None => None,
    }
}

/// The class of the first marker-bearing symbol at or after position `i`.
pub open spec fn first_symbol_class_from(
    syms: Seq<Elf64Sym>,
    strings: Seq<u8>,
    gtest_enabled: bool,
    catch2_enabled: bool,
    i: int,
) -> Option<ExecutableType>
    decreases syms.len() - i,
{
    if i < 0 || i >= syms.len() {
        None
    } else if symbol_class(strings, syms[i], gtest_enabled, catch2_enabled) is Some {
        symbol_class(strings, syms[i], gtest_enabled, catch2_enabled)
    } else {
        first_symbol_class_from(syms, strings, gtest_enabled, catch2_enabled, i + 1)
    }
}

/// The framework the symbol table reveals: the class of the first
/// symbol whose name carries an enabled marker.
pub open spec fn detected_type(
    syms: Seq<Elf64Sym>,
    strings: Seq<u8>,
    gtest_enabled: bool,
    catch2_enabled: bool,
) -> Option<ExecutableType> {
    first_symbol_class_from(syms, strings, gtest_enabled, catch2_enabled, 0)
}

/// A scan that saw no marker before `i` resolves to the class of the
/// symbol at `i` when one stands there, and to nothing past the end.
pub proof fn lemma_symbol_scan(
    syms: Seq<Elf64Sym>,
    strings: Seq<u8>,
    gtest_enabled: bool,
    catch2_enabled: bool,
    k: int,
    i: int,
)
    requires
        0 <= k <= i <= syms.len(),
        forall|j: int|
            k <= j < i ==> symbol_class(strings, syms[j], gtest_enabled, catch2_enabled) is None,
    ensures
        first_symbol_class_from(syms, strings, gtest_enabled, catch2_enabled, k)
            == first_symbol_class_from(syms, strings, gtest_enabled, catch2_enabled, i),
    decreases i - k,
{
    if k < i {
        lemma_symbol_scan(syms, strings, gtest_enabled, catch2_enabled, k + 1, i);
    }
}

/// Scans a symbol table for framework markers, in symbol order.
fn detect_type(
    symbols: &Vec<Elf64Sym>,
    strings: &StringTable,
    gtest_enabled: bool,
    catch2_enabled: bool,
) -> (r: Option<ExecutableType>)
    ensures
        r == detected_type(symbols@, strings.data@, gtest_enabled, catch2_enabled),
{
    let gm = gtest_marker_bytes();
    let cm = catch2_marker_bytes();
    let n = symbols.len();
    let mut k: usize = 0;
    while k < n
        invariant
            n == symbols@.len(),
            gm@ == gtest_marker(),
            cm@ == catch2_marker(),
            forall|j: int|
                0 <= j < k ==> symbol_class(
                    strings.data@,
                    symbols@[j],
                    gtest_enabled,
                    catch2_enabled,
                ) is None,
        decreases n - k,
    {
        let sym = symbols[k];
        let looked_up = strings.get_symbol_name(&sym);
        match looked_up {
            Some(name) => {
                if gtest_enabled && contains_subseq(&name, &gm) {
                    proof {
                        lemma_symbol_scan(
                            symbols@,
                            strings.data@,
                            gtest_enabled,
                            catch2_enabled,
                            0,
                            k as int,
                        );
                    }
                    return Some(ExecutableType::Gtest);
                }
                if catch2_enabled && contains_subseq(&name, &cm) {
                    proof {
                        lemma_symbol_scan(
                            symbols@,
                            strings.data@,
                            gtest_enabled,
                            catch2_enabled,
                            0,
                            k as int,
                        );
                    }
                    return Some(ExecutableType::Catch2);
                }
            },
            None => {},
        }
        k = k + 1;
    }
    proof {
        lemma_symbol_scan(symbols@, strings.data@, gtest_enabled, catch2_enabled, 0, n as int);
    }
    None
}

/// The section header records declared by an image's fixed header.
pub open spec fn section_blocks(data: Seq<u8>) -> Seq<Seq<u8>> {
    let h = data.subrange(0, 64);
    Seq::new(
        header_field(h, 0x3C, 2),
        |i: int| section_block(data, header_field(h, 0x28, 8) as int, i),
    )
}

/// The symbol records of a table of `count` entries at offset `off`.
pub open spec fn symbol_records(data: Seq<u8>, off: int, count: int) -> Seq<Elf64Sym> {
    Seq::new(count as nat, |i: int| spec_symbol(data.subrange(off + 24 * i, off + 24 * i + 24)))
}

/// What classifying a file image yields: the detected framework, no
/// classification at all, or an error. This is the full decision rule
/// of the classifier, stated over the raw bytes of the image.
pub open spec fn classification(
    data: Seq<u8>,
    gtest_enabled: bool,
    catch2_enabled: bool,
) -> Result<Option<ExecutableType>, Error> {
    if !opens(data) {
        Err(open_error(data))
    } else {
        let h = data.subrange(0, 64);
        let e_type = header_field(h, 0x10, 2);
        if e_type != 2 && e_type != 3 {
            Ok(None)
        } else {
            let shoff = header_field(h, 0x28, 8);
            let shnum = header_field(h, 0x3C, 2);
            if shoff + 64 * shnum > data.len() {
                Err(Error::IoFailure)
            } else {
                let blocks = section_blocks(data);
                match symtab_index(blocks) {
                    None => Ok(None),
                    Some(si) => {
                        let symtab = blocks[si];
                        let link = section_field(symtab, 0x28, 4);
                        if link >= shnum {
                            Err(Error::MalformedBinary)
                        } else {
                            let sym_off = section_field(symtab, 0x18, 8);
                            let count = section_field(symtab, 0x20, 8) / 24;
                            if sym_off + count * 24 > data.len() {
                                Err(Error::IoFailure)
                            } else {
                                let strtab = blocks[link as int];
                                let str_type = section_field(strtab, 0x04, 4);
                                let str_off = section_field(strtab, 0x18, 8);
                                let str_size = section_field(strtab, 0x20, 8);
                                if str_type == 2 {
                                    if str_off + (str_size / 24) * 24 > data.len() {
                                        Err(Error::IoFailure)
                                    } else {
                                        Err(Error::MalformedBinary)
                                    }
                                } else if str_type != 3 {
                                    Err(Error::MalformedBinary)
                                } else if str_off + str_size > data.len() {
                                    Err(Error::IoFailure)
                                } else {
                                    let syms = symbol_records(data, sym_off as int, count as int);
                                    let strings = data.subrange(
                                        str_off as int,
                                        str_off + str_size as int,
                                    );
                                    Ok(
                                        detected_type(
                                            syms,
                                            strings,
                                            gtest_enabled,
                                            catch2_enabled,
                                        ),
                                    )
                                }
                            }
                        }
                    },
                }
            }
        }
    }
}

/// Classifies a file image. `Ok(Some(..))` carries the executable with
/// the detected framework; `Ok(None)` means a valid binary that is not
/// a recognizable test executable; an error means the image is not a
/// usable binary, structurally inconsistent, or too small for its own
/// declared layout.
pub fn parse_test_executable(
    path: &str,
    modified: u128,
    data: Vec<u8>,
    is_gtest_enabled: bool,
    is_catch2_enabled: bool,
) -> (r: Result<Option<Executable>, Error>)
    ensures
        match r {
            Ok(Some(e)) => {
                &&& classification(data@, is_gtest_enabled, is_catch2_enabled) == Ok::<
                    Option<ExecutableType>,
                    Error,
                >(Some(e.executable_type))
                &&& e.path@ == path@
                &&& e.modified == modified
            },
            Ok(None) => classification(data@, is_gtest_enabled, is_catch2_enabled) == Ok::<
                Option<ExecutableType>,
                Error,
            >(None),
            Err(err) => classification(data@, is_gtest_enabled, is_catch2_enabled) == Err::<
                Option<ExecutableType>,
                Error,
            >(err),
        },
{
    let ghost gdata = data@;
    let elf = match Elf::new(data) {
        Ok(elf) => elf,
        Err(e) => {
            return Err(e);
        },
    };
    let elf_type = elf.header().e_type();
    if elf_type != 0x02 && elf_type != 0x03 {
        return Ok(None);
    }
    let all_section_headers: SectionHeaders = match elf.get_all_section_headers() {
        Ok(s) => s,
        Err(e) => {
            return Err(e);
        },
    };
    proof {
        assert(section_blocks(gdata) =~= all_section_headers.headers.deep_view());
    }
    let symbol_table_header = match all_section_headers.find_symbol_table_header() {
        Some(h) => h,
        None => {
            return Ok(None);
        },
    };
    let ghost blocks = section_blocks(gdata);
    let ghost si = symtab_index(blocks)->Some_0;
    proof {
        crate::elf::lemma_symtab_index_from_props(blocks, 0);
        assert(is_symtab_block(blocks[si]));
        assert(symbol_table_header@ == blocks[si]);
    }
    let link = symbol_table_header.sh_link();
    if link as usize >= all_section_headers.headers.len() {
        return Err(Error::MalformedBinary);
    }
    let symbols = match elf.get_section(symbol_table_header) {
        Ok(Section::Symbols(symbols)) => symbols,
        Ok(_) => {
            // The header was found by its symbol-table type, so the
            // section can only decode to symbols.
            proof {
                assert(false);
            }
            return Err(Error::MalformedBinary);
        },
        Err(e) => {
            return Err(e);
        },
    };
    let string_table_header = &all_section_headers.headers[link as usize];
    let strings = match elf.get_section(string_table_header) {
        Ok(Section::Strings(strings)) => strings,
        Ok(_) => {
            return Err(Error::MalformedBinary);
        },
        Err(e) => {
            return Err(e);
        },
    };
    proof {
        let symtab = blocks[si];
        let sym_off = section_field(symtab, 0x18, 8);
        let count = section_field(symtab, 0x20, 8) / 24;
        assert(symbols@ =~= symbol_records(gdata, sym_off as int, count as int));
        let strtab = blocks[link as int];
        let str_off = section_field(strtab, 0x18, 8);
        let str_size = section_field(strtab, 0x20, 8);
        assert(strings.data@ == gdata.subrange(str_off as int, str_off + str_size as int));
        assert(classification(gdata, is_gtest_enabled, is_catch2_enabled) == Ok::<
            Option<ExecutableType>,
            Error,
        >(detected_type(symbols@, strings.data@, is_gtest_enabled, is_catch2_enabled)));
    }
    let test_executable_type = detect_type(&symbols, &strings, is_gtest_enabled, is_catch2_enabled);
    match test_executable_type {
        Some(executable_type) => Ok(
            Some(
                Executable { path: path.to_owned(), modified, executable_type },
            ),
        ),
        None => Ok(None),
    }
}

/// Mathematical model of a [`CandidateFile`].
pub struct CandidateFileModel {
    /// The path, as a character sequence.
    pub path: Seq<char>,
    /// Creation timestamp in nanoseconds since the epoch.
    pub modified: u128,
    /// The file's contents.
    pub data: Seq<u8>,
}

/// A file offered to the classifier: its path, creation timestamp and
/// full contents.
pub struct CandidateFile {
    /// Path of the file on disk.
    pub path: String,
    /// Creation timestamp in nanoseconds since the epoch.
    pub modified: u128,
    /// The file's contents.
    pub data: Vec<u8>,
}

impl View for CandidateFile {
    type V = CandidateFileModel;

    open spec fn view(&self) -> CandidateFileModel {
        CandidateFileModel { path: self.path@, modified: self.modified, data: self.data@ }
    }
}

impl DeepView for CandidateFile {
    type V = CandidateFileModel;

    open spec fn deep_view(&self) -> CandidateFileModel {
        self@
    }
}

/// Copies a byte vector.
fn clone_bytes(v: &Vec<u8>) -> (r: Vec<u8>)
    ensures
        r@ == v@,
{
    vstd::slice::slice_to_vec(v.as_slice())
}

/// The framework a candidate is classified under, when the classifier
/// accepts it at all.
pub open spec fn candidate_accepts(
    cand: CandidateFileModel,
    gtest_enabled: bool,
    catch2_enabled: bool,
) -> Option<ExecutableType> {
    match classification(cand.data, gtest_enabled, catch2_enabled) {
        Ok(Some(t)) => Some(t),
        _ => None,
    }
}

/// The executables a classified candidate contributes to a scan: one
/// when a framework is detected, none otherwise. Errors are swallowed
/// here on purpose: one unusual binary must not abort discovery.
pub open spec fn candidate_result(
    cand: CandidateFileModel,
    gtest_enabled: bool,
    catch2_enabled: bool,
) -> Seq<ExecutableModel> {
    match candidate_accepts(cand, gtest_enabled, catch2_enabled) {
        Some(t) => seq![
            ExecutableModel { path: cand.path, modified: cand.modified, executable_type: t },
        ],
        None => Seq::empty(),
    }
}

/// The classified executables a sequence of candidates yields, in
/// candidate order.
pub open spec fn scan_results(
    cands: Seq<CandidateFileModel>,
    gtest_enabled: bool,
    catch2_enabled: bool,
) -> Seq<ExecutableModel>
    decreases cands.len(),
{
    if cands.len() == 0 {
        Seq::empty()
    } else {
        scan_results(cands.drop_last(), gtest_enabled, catch2_enabled) + candidate_result(
            cands.last(),
            gtest_enabled,
            catch2_enabled,
        )
    }
}

/// Classifies every candidate and keeps those recognized as test
/// executables; candidates the classifier rejects or errors on are
/// silently omitted, as a directory scan must tolerate arbitrary files.
pub fn find_test_executables(
    candidates: &Vec<CandidateFile>,
    is_gtest_enabled: bool,
    is_catch2_enabled: bool,
) -> (r: Vec<Executable>)
    ensures
        r.deep_view() == scan_results(candidates.deep_view(), is_gtest_enabled, is_catch2_enabled),
{
    let ghost cands = candidates.deep_view();
    let mut out: Vec<Executable> = Vec::new();
    let n = candidates.len();
    let mut i: usize = 0;
    while i < n
        invariant
            n == candidates@.len(),
            cands == candidates.deep_view(),
            cands.len() == n,
            i <= n,
            out.deep_view() == scan_results(
                cands.take(i as int),
                is_gtest_enabled,
                is_catch2_enabled,
            ),
        decreases n - i,
    {
        let cand = &candidates[i];
        proof {
            assert(cand@ == cands[i as int]);
            assert(cands.take(i + 1).drop_last() =~= cands.take(i as int));
            assert(cands.take(i + 1).last() == cands[i as int]);
        }
        let ghost before = out.deep_view();
        let data = clone_bytes(&cand.data);
        let parsed = parse_test_executable(
            cand.path.as_str(),
            cand.modified,
            data,
            is_gtest_enabled,
            is_catch2_enabled,
        );
        match parsed {
            Ok(Some(executable)) => {
                out.push(executable);
                proof {
                    assert(out.deep_view() =~= before + candidate_result(
                        cands[i as int],
                        is_gtest_enabled,
                        is_catch2_enabled,
                    ));
                }
            },
            _ => {
                proof {
                    assert(candidate_result(
                        cands[i as int],
                        is_gtest_enabled,
                        is_catch2_enabled,
                    ) =~= Seq::<ExecutableModel>::empty());
                    assert(out.deep_view() =~= before + candidate_result(
                        cands[i as int],
                        is_gtest_enabled,
                        is_catch2_enabled,
                    ));
                }
            },
        }
        i = i + 1;
    }
    proof {
        assert(cands.take(n as int) =~= cands);
    }
    out
}

/// Classifies explicitly supplied candidates. Unlike a scan, explicit
/// input implies an expectation of validity: any candidate that is not
/// a recognizable test executable fails the whole validation.
pub fn validate_executables(
    candidates: &Vec<CandidateFile>,
    is_gtest_enabled: bool,
    is_catch2_enabled: bool,
) -> (r: Result<Vec<Executable>, Error>)
    ensures
        match r {
            Ok(v) => {
                &&& v@.len() == candidates@.len()
                &&& forall|i: int|
                    0 <= i < v@.len() ==> candidate_accepts(
                        candidates.deep_view()[i],
                        is_gtest_enabled,
                        is_catch2_enabled,
                    ) == Some(v.deep_view()[i].executable_type)
                &&& forall|i: int|
                    0 <= i < v@.len() ==> v.deep_view()[i].path == candidates.deep_view()[i].path
                        && v.deep_view()[i].modified == candidates.deep_view()[i].modified
            },
            Err(e) => {
                &&& e == Error::NotATestExecutable
                &&& exists|i: int|
                    0 <= i < candidates@.len() && candidate_accepts(
                        candidates.deep_view()[i],
                        is_gtest_enabled,
                        is_catch2_enabled,
                    ) is None
            },
        },
{
    let ghost cands = candidates.deep_view();
    let mut out: Vec<Executable> = Vec::new();
    let n = candidates.len();
    let mut i: usize = 0;
    while i < n
        invariant
            n == candidates@.len(),
            cands == candidates.deep_view(),
            cands.len() == n,
            i <= n,
            out@.len() == i,
            forall|j: int|
                0 <= j < i ==> candidate_accepts(
                    cands[j],
                    is_gtest_enabled,
                    is_catch2_enabled,
                ) == Some(out.deep_view()[j].executable_type),
            forall|j: int|
                0 <= j < i ==> out.deep_view()[j].path == cands[j].path && out.deep_view()[j].modified
                    == cands[j].modified,
        decreases n - i,
    {
        let cand = &candidates[i];
        proof {
            assert(cand@ == cands[i as int]);
        }
        let data = clone_bytes(&cand.data);
        let parsed = parse_test_executable(
            cand.path.as_str(),
            cand.modified,
            data,
            is_gtest_enabled,
            is_catch2_enabled,
        );
        match parsed {
            Ok(Some(executable)) => {
                out.push(executable);
            },
            _ => {
                return Err(Error::NotATestExecutable);
            },
        }
        i = i + 1;
    }
    Ok(out)
}

/// A file that is not a valid 64-bit binary is rejected with an error,
/// never classified and never treated as a crash: the classifier is
/// total, and scanning simply omits such a candidate.
pub proof fn lemma_invalid_binary_rejected(data: Seq<u8>, gtest_enabled: bool, catch2_enabled: bool)
    requires
        !opens(data),
    ensures
        classification(data, gtest_enabled, catch2_enabled) == Err::<
            Option<ExecutableType>,
            Error,
        >(open_error(data)),
        candidate_result(
            CandidateFileModel { path: Seq::empty(), modified: 0, data },
            gtest_enabled,
            catch2_enabled,
        ) == Seq::<ExecutableModel>::empty(),
{
}

/// Whether a symbol's resolved name carries the GoogleTest marker.
pub open spec fn gtest_symbol(strings: Seq<u8>, sym: Elf64Sym) -> bool {
    match symbol_name_at(strings, sym.st_name as int) {
        Some(name) => contains_seq(name, gtest_marker()),
        None => false,
    }
}

/// Whether a symbol's resolved name carries the Catch2 marker.
pub open spec fn catch2_symbol(strings: Seq<u8>, sym: Elf64Sym) -> bool {
    match symbol_name_at(strings, sym.st_name as int) {
        Some(name) => contains_seq(name, catch2_marker()),
        None => false,
    }
}

/// A symbol table holding a name that carries the GoogleTest marker is
/// detected as GoogleTest-family whenever no name carries the Catch2
/// marker, with GoogleTest detection enabled.
pub proof fn lemma_gtest_marker_detected(
    syms: Seq<Elf64Sym>,
    strings: Seq<u8>,
    catch2_enabled: bool,
)
    requires
        exists|i: int| 0 <= i < syms.len() && gtest_symbol(strings, syms[i]),
        forall|i: int| 0 <= i < syms.len() ==> !catch2_symbol(strings, syms[i]),
    ensures
        detected_type(syms, strings, true, catch2_enabled) == Some(ExecutableType::Gtest),
{
    lemma_gtest_marker_from(syms, strings, catch2_enabled, 0);
}

/// The scan suffix from `k` detects GoogleTest under the conditions of
/// [`lemma_gtest_marker_detected`].
proof fn lemma_gtest_marker_from(
    syms: Seq<Elf64Sym>,
    strings: Seq<u8>,
    catch2_enabled: bool,
    k: int,
)
    requires
        0 <= k <= syms.len(),
        exists|i: int| k <= i < syms.len() && gtest_symbol(strings, syms[i]),
        forall|i: int| k <= i < syms.len() ==> !catch2_symbol(strings, syms[i]),
    ensures
        first_symbol_class_from(syms, strings, true, catch2_enabled, k) == Some(
            ExecutableType::Gtest,
        ),
    decreases syms.len() - k,
{
    let iw = choose|i: int| k <= i < syms.len() && gtest_symbol(strings, syms[i]);
    if gtest_symbol(strings, syms[k]) {
        assert(symbol_class(strings, syms[k], true, catch2_enabled) == Some(
            ExecutableType::Gtest,
        ));
    } else {
        assert(symbol_class(strings, syms[k], true, catch2_enabled) is None);
        assert(iw != k);
        lemma_gtest_marker_from(syms, strings, catch2_enabled, k + 1);
    }
}

/// A symbol table in which no name carries either marker detects no
/// framework at all.
pub proof fn lemma_no_marker_detected(
    syms: Seq<Elf64Sym>,
    strings: Seq<u8>,
    gtest_enabled: bool,
    catch2_enabled: bool,
)
    requires
        forall|i: int|
            0 <= i < syms.len() ==> !gtest_symbol(strings, syms[i]) && !catch2_symbol(
                strings,
                syms[i],
            ),
    ensures
        detected_type(syms, strings, gtest_enabled, catch2_enabled) is None,
{
    assert forall|i: int| 0 <= i < syms.len() implies symbol_class(
        strings,
        syms[i],
        gtest_enabled,
        catch2_enabled,
    ) is None by {}
    lemma_symbol_scan(syms, strings, gtest_enabled, catch2_enabled, 0, syms.len() as int);
}

/// A binary that opens, is an executable or shared object, and declares
/// a symbol table whose string-table link lies outside the section
/// header table is reported as malformed, never silently excluded.
pub proof fn lemma_invalid_link_is_malformed(data: Seq<u8>, gtest_enabled: bool, catch2_enabled: bool)
    requires
        opens(data),
        ({
            let h = data.subrange(0, 64);
            header_field(h, 0x10, 2) == 2 || header_field(h, 0x10, 2) == 3
        }),
        ({
            let h = data.subrange(0, 64);
            header_field(h, 0x28, 8) + 64 * header_field(h, 0x3C, 2) <= data.len()
        }),
        symtab_index(section_blocks(data)) is Some,
        ({
            let si = symtab_index(section_blocks(data))->Some_0;
            section_field(section_blocks(data)[si], 0x28, 4) >= header_field(
                data.subrange(0, 64),
                0x3C,
                2,
            )
        }),
    ensures
        classification(data, gtest_enabled, catch2_enabled) == Err::<
            Option<ExecutableType>,
            Error,
        >(Error::MalformedBinary),
{
}

/// Removing one candidate removes exactly its contribution from the
/// multiset of scan results.
proof fn lemma_scan_remove(s: Seq<CandidateFileModel>, j: int, gtest_enabled: bool, catch2_enabled: bool)
    requires
        0 <= j < s.len(),
    ensures
        scan_results(s, gtest_enabled, catch2_enabled).to_multiset() =~= scan_results(
            s.remove(j),
            gtest_enabled,
            catch2_enabled,
        ).to_multiset().add(candidate_result(s[j], gtest_enabled, catch2_enabled).to_multiset()),
    decreases s.len(),
{
    broadcast use vstd::seq_lib::group_to_multiset_ensures;
    broadcast use vstd::multiset::group_multiset_axioms;

    vstd::seq_lib::lemma_multiset_commutative(
        scan_results(s.drop_last(), gtest_enabled, catch2_enabled),
        candidate_result(s.last(), gtest_enabled, catch2_enabled),
    );
    if j == s.len() - 1 {
        assert(s.remove(j) =~= s.drop_last());
    } else {
        assert(s.remove(j).drop_last() =~= s.drop_last().remove(j));
        assert(s.remove(j).last() == s.last());
        lemma_scan_remove(s.drop_last(), j, gtest_enabled, catch2_enabled);
        vstd::seq_lib::lemma_multiset_commutative(
            scan_results(s.remove(j).drop_last(), gtest_enabled, catch2_enabled),
            candidate_result(s.remove(j).last(), gtest_enabled, catch2_enabled),
        );
        assert(s.drop_last()[j] == s[j]);
    }
}

/// Scanning is deterministic up to ordering: two candidate sequences
/// holding the same multiset of files yield the same multiset of
/// classified executables, whatever order concurrent classification
/// delivered them in.
pub proof fn lemma_scan_multiset_deterministic(
    a: Seq<CandidateFileModel>,
    b: Seq<CandidateFileModel>,
    gtest_enabled: bool,
    catch2_enabled: bool,
)
    requires
        a.to_multiset() == b.to_multiset(),
    ensures
        scan_results(a, gtest_enabled, catch2_enabled).to_multiset() == scan_results(
            b,
            gtest_enabled,
            catch2_enabled,
        ).to_multiset(),
    decreases a.len(),
{
    broadcast use vstd::seq_lib::group_to_multiset_ensures;
    broadcast use vstd::multiset::group_multiset_axioms;

    if a.len() == 0 {
        assert(a.to_multiset().len() == 0);
        assert(b.to_multiset().len() == 0);
        assert(b.len() == 0);
        assert(scan_results(a, gtest_enabled, catch2_enabled) =~= scan_results(
            b,
            gtest_enabled,
            catch2_enabled,
        ));
    } else {
        let x = a.last();
        assert(a.contains(x));
        assert(b.to_multiset().count(x) > 0);
        assert(b.contains(x));
        let j = choose|j: int| 0 <= j < b.len() && b[j] == x;
        let b2 = b.remove(j);
        assert(a.remove(a.len() - 1) =~= a.drop_last());
        assert(a.drop_last().to_multiset() == a.to_multiset().remove(x));
        assert(b2.to_multiset() == b.to_multiset().remove(x));
        lemma_scan_multiset_deterministic(a.drop_last(), b2, gtest_enabled, catch2_enabled);
        lemma_scan_remove(b, j, gtest_enabled, catch2_enabled);
        vstd::seq_lib::lemma_multiset_commutative(
            scan_results(a.drop_last(), gtest_enabled, catch2_enabled),
            candidate_result(x, gtest_enabled, catch2_enabled),
        );
        assert(scan_results(a, gtest_enabled, catch2_enabled).to_multiset() =~= scan_results(
            b,
            gtest_enabled,
            catch2_enabled,
        ).to_multiset());
    }
}

} // verus!
