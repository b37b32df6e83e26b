//! A reader over 64-bit ELF images held in memory.
//!
//! The reader decodes the fixed-size file header, the section header
//! table, symbol table entries and string tables — just enough to find
//! the names a binary exports. Every accessor reads a fixed offset of a
//! raw byte block; multi-byte fields of the file header decode under the
//! endianness recorded in the header itself, while section headers and
//! symbols decode little-endian, the convention of the supported target.

use crate::bytes::{get_u16, get_u32, get_u64, get_u8, lemma_pow256_values, lemma_word_at_bound,
    lemma_word_at_single, word_at};
use crate::Error;
use vstd::prelude::*;

verus! {

/// The four magic bytes that open every ELF image.
pub open spec fn elf_magic() -> Seq<u8> {
    seq![0x7fu8, 0x45u8, 0x4cu8, 0x46u8]
}

/// Whether the first bytes of `data` carry the ELF magic signature.
pub open spec fn has_elf_magic(data: Seq<u8>) -> bool {
    data.len() >= 4 && data.subrange(0, 4) == elf_magic()
}

/// Whether the header block declares little-endian encoding.
pub open spec fn header_is_le(h: Seq<u8>) -> bool {
    h[5] == 1
}

/// A multi-byte field of the file header, decoded under the header's own
/// endianness flag.
pub open spec fn header_field(h: Seq<u8>, off: int, n: int) -> nat {
    word_at(h, off, n, header_is_le(h))
}

/// A field of a section header or symbol record, decoded little-endian.
pub open spec fn section_field(b: Seq<u8>, off: int, n: int) -> nat {
    word_at(b, off, n, true)
}

/// Typed access to integers stored at fixed offsets of a raw byte block.
pub trait FetchInteger {
    /// Endianness under which the accessors decode multi-byte fields.
    spec fn spec_little_endian(&self) -> bool;

    /// The raw bytes the accessors read.
    spec fn spec_data(&self) -> Seq<u8>;

    /// Reports the endianness used by the accessors.
    fn is_little_endian(&self) -> (r: bool)
        ensures
            r == self.spec_little_endian(),
    ;

    /// The raw byte block.
    fn data(&self) -> (r: &[u8])
        ensures
            r@ == self.spec_data(),
    ;

    /// The eight-byte word at `offset`, or `None` when out of range.
    fn get_u64(&self, offset: u64) -> (r: Option<u64>)
        ensures
            match r {
                Some(v) => offset + 8 <= self.spec_data().len() && v == word_at(
                    self.spec_data(),
                    offset as int,
                    8,
                    self.spec_little_endian(),
                ),
                None => offset + 8 > self.spec_data().len(),
            },
    {
        get_u64(self.data(), offset, self.is_little_endian())
    }

    /// The four-byte word at `offset`, or `None` when out of range.
    fn get_u32(&self, offset: u64) -> (r: Option<u32>)
        ensures
            match r {
                Some(v) => offset + 4 <= self.spec_data().len() && v == word_at(
                    self.spec_data(),
                    offset as int,
                    4,
                    self.spec_little_endian(),
                ),
                None => offset + 4 > self.spec_data().len(),
            },
    {
        get_u32(self.data(), offset, self.is_little_endian())
    }

    /// The two-byte word at `offset`, or `None` when out of range.
    fn get_u16(&self, offset: u64) -> (r: Option<u16>)
        ensures
            match r {
                Some(v) => offset + 2 <= self.spec_data().len() && v == word_at(
                    self.spec_data(),
                    offset as int,
                    2,
                    self.spec_little_endian(),
                ),
                None => offset + 2 > self.spec_data().len(),
            },
    {
        get_u16(self.data(), offset, self.is_little_endian())
    }

    /// The byte at `offset`, or `None` when out of range.
    fn get_u8(&self, offset: u64) -> (r: Option<u8>)
        ensures
            match r {
                Some(v) => offset + 1 <= self.spec_data().len() && v == word_at(
                    self.spec_data(),
                    offset as int,
                    1,
                    self.spec_little_endian(),
                ),
                None => offset + 1 > self.spec_data().len(),
            },
    {
        get_u8(self.data(), offset, self.is_little_endian())
    }
}

/// The 64-byte fixed header of an ELF image.
pub struct Header {
    buf: Vec<u8>,
}

impl Header {
    /// The header block is always exactly 64 bytes.
    #[verifier::type_invariant]
    pub closed spec fn wf(self) -> bool {
        self.buf@.len() == 64
    }

    /// Wraps a 64-byte block as a header.
    pub(crate) fn from_block(buf: Vec<u8>) -> (r: Header)
        requires
            buf@.len() == 64,
        ensures
            r@ == buf@,
    {
        Header { buf }
    }
}

impl View for Header {
    type V = Seq<u8>;

    closed spec fn view(&self) -> Seq<u8> {
        self.buf@
    }
}

impl FetchInteger for Header {
    open spec fn spec_little_endian(&self) -> bool {
        header_is_le(self@)
    }

    open spec fn spec_data(&self) -> Seq<u8> {
        self@
    }

    fn is_little_endian(&self) -> (r: bool) {
        proof {
            use_type_invariant(self);
        }
        let b = self.buf[5];
        b == 1
    }

    fn data(&self) -> (r: &[u8]) {
        self.buf.as_slice()
    }
}

impl Header {
    /// Whether the class byte declares a 64-bit image.
    pub fn e_type_is_64_bits(&self) -> (r: bool)
        ensures
            r == (self@[4] == 2),
    {
        proof {
            use_type_invariant(self);
            lemma_word_at_single(self@, 4, self.spec_little_endian());
        }
        self.get_u8(0x4).unwrap() == 2
    }

    /// The ELF version byte.
    pub fn e_type_version(&self) -> (r: u8)
        ensures
            r == self@[6],
    {
        proof {
            use_type_invariant(self);
            lemma_word_at_single(self@, 6, self.spec_little_endian());
        }
        self.get_u8(0x6).unwrap()
    }

    /// The OS ABI byte.
    pub fn e_type_os_abi(&self) -> (r: u8)
        ensures
            r == self@[7],
    {
        proof {
            use_type_invariant(self);
            lemma_word_at_single(self@, 7, self.spec_little_endian());
        }
        self.get_u8(0x7).unwrap()
    }

    /// The ABI version byte.
    pub fn e_type_abi_version(&self) -> (r: u8)
        ensures
            r == self@[8],
    {
        proof {
            use_type_invariant(self);
            lemma_word_at_single(self@, 8, self.spec_little_endian());
        }
        self.get_u8(0x8).unwrap()
    }

    /// The object file type field.
    pub fn e_type(&self) -> (r: u16)
        ensures
            r == header_field(self@, 0x10, 2),
    {
        proof {
            use_type_invariant(self);
        }
        self.get_u16(0x10).unwrap()
    }

    /// The machine architecture field.
    pub fn e_machine(&self) -> (r: u16)
        ensures
            r == header_field(self@, 0x12, 2),
    {
        proof {
            use_type_invariant(self);
        }
        self.get_u16(0x12).unwrap()
    }

    /// The object file version field.
    pub fn e_version(&self) -> (r: u32)
        ensures
            r == header_field(self@, 0x14, 4),
    {
        proof {
            use_type_invariant(self);
        }
        self.get_u32(0x14).unwrap()
    }

    /// The entry point address.
    pub fn e_entry(&self) -> (r: u64)
        ensures
            r == header_field(self@, 0x18, 8),
    {
        proof {
            use_type_invariant(self);
        }
        self.get_u64(0x18).unwrap()
    }

    /// The program header table offset.
    pub fn e_phoff(&self) -> (r: u64)
        ensures
            r == header_field(self@, 0x20, 8),
    {
        proof {
            use_type_invariant(self);
        }
        self.get_u64(0x20).unwrap()
    }

    /// The section header table offset.
    pub fn e_shoff(&self) -> (r: u64)
        ensures
            r == header_field(self@, 0x28, 8),
    {
        proof {
            use_type_invariant(self);
        }
        self.get_u64(0x28).unwrap()
    }

    /// The processor-specific flags field.
    pub fn e_flags(&self) -> (r: u32)
        ensures
            r == header_field(self@, 0x30, 4),
    {
        proof {
            use_type_invariant(self);
        }
        self.get_u32(0x30).unwrap()
    }

    /// The size of this header.
    pub fn e_ehsize(&self) -> (r: u16)
        ensures
            r == header_field(self@, 0x34, 2),
    {
        proof {
            use_type_invariant(self);
        }
        self.get_u16(0x34).unwrap()
    }

    /// The size of one program header table entry.
    pub fn e_phentsize(&self) -> (r: u16)
        ensures
            r == header_field(self@, 0x36, 2),
    {
        proof {
            use_type_invariant(self);
        }
        self.get_u16(0x36).unwrap()
    }

    /// The number of program header table entries.
    pub fn e_phnum(&self) -> (r: u16)
        ensures
            r == header_field(self@, 0x38, 2),
    {
        proof {
            use_type_invariant(self);
        }
        self.get_u16(0x38).unwrap()
    }

    /// The size of one section header table entry.
    pub fn e_shentsize(&self) -> (r: u16)
        ensures
            r == header_field(self@, 0x3A, 2),
    {
        proof {
            use_type_invariant(self);
        }
        self.get_u16(0x3A).unwrap()
    }

    /// The number of section header table entries.
    pub fn e_shnum(&self) -> (r: u16)
        ensures
            r == header_field(self@, 0x3C, 2),
    {
        proof {
            use_type_invariant(self);
        }
        self.get_u16(0x3C).unwrap()
    }

    /// The section name string table index.
    pub fn e_shstrndx(&self) -> (r: u16)
        ensures
            r == header_field(self@, 0x3E, 2),
    {
        proof {
            use_type_invariant(self);
        }
        self.get_u16(0x3E).unwrap()
    }
}

/// One 64-byte record of the section header table.
pub struct SectionHeader {
    buf: Vec<u8>,
}

impl SectionHeader {
    /// A section header record is always exactly 64 bytes.
    #[verifier::type_invariant]
    pub closed spec fn wf(self) -> bool {
        self.buf@.len() == 64
    }

    /// Wraps a 64-byte record as a section header.
    pub(crate) fn from_block(buf: Vec<u8>) -> (r: SectionHeader)
        requires
            buf@.len() == 64,
        ensures
            r@ == buf@,
    {
        SectionHeader { buf }
    }
}

impl View for SectionHeader {
    type V = Seq<u8>;

    closed spec fn view(&self) -> Seq<u8> {
        self.buf@
    }
}

impl DeepView for SectionHeader {
    type V = Seq<u8>;

    open spec fn deep_view(&self) -> Seq<u8> {
        self@
    }
}

impl FetchInteger for SectionHeader {
    open spec fn spec_little_endian(&self) -> bool {
        true
    }

    open spec fn spec_data(&self) -> Seq<u8> {
        self@
    }

    fn is_little_endian(&self) -> (r: bool) {
        true
    }

    fn data(&self) -> (r: &[u8]) {
        self.buf.as_slice()
    }
}

impl SectionHeader {
    /// The section name offset field.
    pub fn sh_name(&self) -> (r: u32)
        ensures
            r == section_field(self@, 0x00, 4),
    {
        proof {
            use_type_invariant(self);
        }
        self.get_u32(0x00).unwrap()
    }

    /// The section type field.
    pub fn sh_type(&self) -> (r: u32)
        ensures
            r == section_field(self@, 0x04, 4),
    {
        proof {
            use_type_invariant(self);
        }
        self.get_u32(0x04).unwrap()
    }

    /// The section flags field.
    pub fn sh_flags(&self) -> (r: u64)
        ensures
            r == section_field(self@, 0x08, 8),
    {
        proof {
            use_type_invariant(self);
        }
        self.get_u64(0x08).unwrap()
    }

    /// The virtual address field.
    pub fn sh_addr(&self) -> (r: u64)
        ensures
            r == section_field(self@, 0x10, 8),
    {
        proof {
            use_type_invariant(self);
        }
        self.get_u64(0x10).unwrap()
    }

    /// The file offset of the section's payload.
    pub fn sh_offset(&self) -> (r: u64)
        ensures
            r == section_field(self@, 0x18, 8),
    {
        proof {
            use_type_invariant(self);
        }
        self.get_u64(0x18).unwrap()
    }

    /// The byte size of the section's payload.
    pub fn sh_size(&self) -> (r: u64)
        ensures
            r == section_field(self@, 0x20, 8),
    {
        proof {
            use_type_invariant(self);
        }
        self.get_u64(0x20).unwrap()
    }

    /// The index of an associated section, for a symbol table the string
    /// table holding its names.
    pub fn sh_link(&self) -> (r: u32)
        ensures
            r == section_field(self@, 0x28, 4),
    {
        proof {
            use_type_invariant(self);
        }
        self.get_u32(0x28).unwrap()
    }

    /// The extra information field.
    pub fn sh_info(&self) -> (r: u32)
        ensures
            r == section_field(self@, 0x2C, 4),
    {
        proof {
            use_type_invariant(self);
        }
        self.get_u32(0x2C).unwrap()
    }

    /// The alignment field.
    pub fn sh_addralign(&self) -> (r: u64)
        ensures
            r == section_field(self@, 0x30, 8),
    {
        proof {
            use_type_invariant(self);
        }
        self.get_u64(0x30).unwrap()
    }

    /// The size of one entry, for sections holding fixed-size records.
    pub fn sh_entsize(&self) -> (r: u64)
        ensures
            r == section_field(self@, 0x38, 8),
    {
        proof {
            use_type_invariant(self);
        }
        self.get_u64(0x38).unwrap()
    }
}

/// Whether a section header record declares a symbol table.
pub open spec fn is_symtab_block(b: Seq<u8>) -> bool {
    section_field(b, 0x04, 4) == 2
}

/// Index of the first symbol table at or after position `i`.
pub open spec fn symtab_index_from(blocks: Seq<Seq<u8>>, i: int) -> Option<int>
    decreases blocks.len() - i,
{
    if i < 0 || i >= blocks.len() {
        None
    } else if is_symtab_block(blocks[i]) {
        Some(i)
    } else {
        symtab_index_from(blocks, i + 1)
    }
}

/// Index of the first section header declaring a symbol table.
pub open spec fn symtab_index(blocks: Seq<Seq<u8>>) -> Option<int> {
    symtab_index_from(blocks, 0)
}

/// What a resolved scan position means: a found index is in range,
/// names a symbol table, and nothing earlier does; no index means no
/// symbol table at all.
pub proof fn lemma_symtab_index_from_props(blocks: Seq<Seq<u8>>, k: int)
    requires
        0 <= k <= blocks.len(),
    ensures
        match symtab_index_from(blocks, k) {
            Some(i) => k <= i < blocks.len() && is_symtab_block(blocks[i]) && forall|j: int|
                k <= j < i ==> !is_symtab_block(blocks[j]),
            None => forall|j: int| k <= j < blocks.len() ==> !is_symtab_block(blocks[j]),
        },
    decreases blocks.len() - k,
{
    if k < blocks.len() && !is_symtab_block(blocks[k]) {
        lemma_symtab_index_from_props(blocks, k + 1);
    }
}

/// A scan that saw no symbol table before `i` resolves to `i` when a
/// symbol table stands there, and to nothing when `i` passed the end.
pub proof fn lemma_symtab_scan(blocks: Seq<Seq<u8>>, k: int, i: int)
    requires
        0 <= k <= i <= blocks.len(),
        forall|j: int| k <= j < i ==> !is_symtab_block(blocks[j]),
        i < blocks.len() ==> is_symtab_block(blocks[i]),
    ensures
        symtab_index_from(blocks, k) == if i < blocks.len() {
            Some(i)
        } else {
            None::<int>
        },
    decreases i - k,
{
    if k < i {
        lemma_symtab_scan(blocks, k + 1, i);
    }
}

/// The ordered section header table of an image.
pub struct SectionHeaders {
    /// The records, in file order.
    pub headers: Vec<SectionHeader>,
}

impl SectionHeaders {
    /// Returns the first section header declaring a symbol table, if any.
    pub fn find_symbol_table_header(&self) -> (r: Option<&SectionHeader>)
        ensures
            match r {
                Some(h) => {
                    &&& symtab_index(self.headers.deep_view()) matches Some(i)
                    &&& 0 <= i < self.headers@.len()
                    &&& *h == self.headers@[i]
                },
                None => symtab_index(self.headers.deep_view()) is None,
            },
    {
        let ghost blocks = self.headers.deep_view();
        let n = self.headers.len();
        let mut i: usize = 0;
        while i < n
            invariant
                n == self.headers@.len(),
                blocks == self.headers.deep_view(),
                i <= n,
                forall|j: int| 0 <= j < i ==> !is_symtab_block(blocks[j]),
            decreases n - i,
        {
            if self.headers[i].sh_type() == 2 {
                proof {
                    lemma_symtab_scan(blocks, 0, i as int);
                }
                return Some(&self.headers[i]);
            }
            i = i + 1;
        }
        proof {
            lemma_symtab_scan(blocks, 0, n as int);
        }
        None
    }
}

/// One fixed-size record of a symbol table: a named program entity.
#[derive(Clone, Copy, Debug, PartialEq, Eq, Structural)]
pub struct Elf64Sym {
    /// Offset of the symbol's name in the linked string table.
    pub st_name: u32,
    /// Binding and type byte.
    pub st_info: u8,
    /// Visibility byte.
    pub st_other: u8,
    /// Index of the section the symbol belongs to.
    pub st_shndx: u16,
    /// The symbol's value, usually an address.
    pub st_value: u64,
    /// The symbol's size in bytes.
    pub st_size: u64,
}

/// The symbol record encoded by 24 bytes, fields little-endian.
pub open spec fn spec_symbol(rec: Seq<u8>) -> Elf64Sym {
    Elf64Sym {
        st_name: section_field(rec, 0, 4) as u32,
        st_info: rec[4],
        st_other: rec[5],
        st_shndx: section_field(rec, 6, 2) as u16,
        st_value: section_field(rec, 8, 8) as u64,
        st_size: section_field(rec, 16, 8) as u64,
    }
}

/// Decodes one 24-byte symbol record.
fn parse_symbol(rec: &[u8]) -> (r: Elf64Sym)
    requires
        rec@.len() == 24,
    ensures
        r == spec_symbol(rec@),
{
    proof {
        lemma_pow256_values();
        lemma_word_at_bound(rec@, 0, 4, true);
        lemma_word_at_bound(rec@, 6, 2, true);
        lemma_word_at_bound(rec@, 8, 8, true);
        lemma_word_at_bound(rec@, 16, 8, true);
        lemma_word_at_single(rec@, 4, true);
        lemma_word_at_single(rec@, 5, true);
    }
    Elf64Sym {
        st_name: get_u32(rec, 0, true).unwrap(),
        st_info: get_u8(rec, 4, true).unwrap(),
        st_other: get_u8(rec, 5, true).unwrap(),
        st_shndx: get_u16(rec, 6, true).unwrap(),
        st_value: get_u64(rec, 8, true).unwrap(),
        st_size: get_u64(rec, 16, true).unwrap(),
    }
}

/// Position of the first NUL byte at or after `i`.
pub open spec fn first_nul_from(s: Seq<u8>, i: int) -> Option<int>
    decreases s.len() - i,
{
    if i < 0 || i >= s.len() {
        None
    } else if s[i] == 0 {
        Some(i)
    } else {
        first_nul_from(s, i + 1)
    }
}

/// A scan that saw no NUL before `i` resolves to `i` when a NUL stands
/// there, and to nothing when `i` passed the end.
pub proof fn lemma_nul_scan(s: Seq<u8>, k: int, i: int)
    requires
        0 <= k <= i <= s.len(),
        forall|j: int| k <= j < i ==> s[j] != 0,
        i < s.len() ==> s[i] == 0,
    ensures
        first_nul_from(s, k) == if i < s.len() {
            Some(i)
        } else {
            None::<int>
        },
    decreases i - k,
{
    if k < i {
        lemma_nul_scan(s, k + 1, i);
    }
}

/// The NUL-terminated name starting at offset `idx` of a string table,
/// without its terminator; nothing when the offset lies outside the
/// table or no terminator follows.
pub open spec fn symbol_name_at(s: Seq<u8>, idx: int) -> Option<Seq<u8>> {
    match first_nul_from(s, idx) {
        Some(j) => Some(s.subrange(idx, j)),
        None => None,
    }
}

/// The raw byte blob of a string table section.
pub struct StringTable {
    /// The blob; names are NUL-terminated runs inside it.
    pub data: Vec<u8>,
}

impl StringTable {
    /// Looks up the NUL-terminated name a symbol points at.
    pub fn get_symbol_name(&self, symbol: &Elf64Sym) -> (r: Option<Vec<u8>>)
        ensures
            match r {
                Some(name) => symbol_name_at(self.data@, symbol.st_name as int) == Some(name@),
                None => symbol_name_at(self.data@, symbol.st_name as int) is None,
            },
    {
        let idx = symbol.st_name as usize;
        let n = self.data.len();
        if idx > n || symbol.st_name as u64 > usize::MAX as u64 {
            proof {
                assert(first_nul_from(self.data@, symbol.st_name as int) is None);
            }
            return None;
        }
        let mut j: usize = idx;
        while j < n
            invariant
                n == self.data@.len(),
                idx == symbol.st_name,
                idx <= j <= n,
                forall|k: int| idx <= k < j ==> self.data@[k] != 0,
            decreases n - j,
        {
            if self.data[j] == 0 {
                proof {
                    lemma_nul_scan(self.data@, idx as int, j as int);
                }
                let name = vstd::slice::slice_subrange(self.data.as_slice(), idx, j);
                return Some(vstd::slice::slice_to_vec(name));
            }
            j = j + 1;
        }
        proof {
            lemma_nul_scan(self.data@, idx as int, n as int);
        }
        None
    }
}

/// A decoded section payload: only symbol tables and string tables are
/// read; every other section type is deliberately left alone.
pub enum Section {
    /// A symbol table's records.
    Symbols(Vec<Elf64Sym>),
    /// A string table's raw blob.
    Strings(StringTable),
    /// A section type this reader never parses.
    NotImplemented,
}

/// The bytes of the `i`-th section header record of a table at `shoff`.
pub open spec fn section_block(data: Seq<u8>, shoff: int, i: int) -> Seq<u8> {
    data.subrange(shoff + 64 * i, shoff + 64 * i + 64)
}

/// The error an image too small for its own declared layout produces.
pub open spec fn open_error(data: Seq<u8>) -> Error {
    if data.len() < 64 {
        Error::NotABinary
    } else if !has_elf_magic(data) {
        Error::NotABinary
    } else {
        Error::Unsupported64Bit
    }
}

/// Whether an image opens successfully: long enough for the fixed
/// header, carrying the magic signature, of the 64-bit class.
pub open spec fn opens(data: Seq<u8>) -> bool {
    data.len() >= 64 && has_elf_magic(data) && data[4] == 2
}

/// An in-memory ELF image together with its decoded fixed header.
pub struct Elf {
    header: Header,
    data: Vec<u8>,
}

impl View for Elf {
    type V = Seq<u8>;

    closed spec fn view(&self) -> Seq<u8> {
        self.data@
    }
}

impl Elf {
    /// The image is at least one header long and the header block is its
    /// first 64 bytes.
    #[verifier::type_invariant]
    pub closed spec fn wf(self) -> bool {
        self.data@.len() >= 64 && self.header@ == self.data@.subrange(0, 64)
    }

    /// The first 64 bytes of the image: its fixed header block.
    pub open spec fn header_block(&self) -> Seq<u8> {
        self@.subrange(0, 64)
    }

    /// The decoded fixed header.
    pub fn header(&self) -> (r: &Header)
        ensures
            r@ == self.header_block(),
            self@.len() >= 64,
    {
        proof {
            use_type_invariant(self);
        }
        &self.header
    }

    /// Validates and wraps an image: it must hold a full header, open
    /// with the magic signature, and declare the 64-bit class.
    pub fn new(data: Vec<u8>) -> (r: Result<Elf, Error>)
        ensures
            match r {
                Ok(elf) => opens(data@) && elf@ == data@,
                Err(e) => !opens(data@) && e == open_error(data@),
            },
    {
        if data.len() < 64 {
            return Err(Error::NotABinary);
        }
        let is_elf = data[0] == 0x7f && data[1] == 0x45 && data[2] == 0x4c && data[3] == 0x46;
        proof {
            assert(elf_magic().len() == 4);
            if is_elf {
                assert(data@.subrange(0, 4) =~= elf_magic());
            } else {
                assert(data@.subrange(0, 4)[0] == data@[0]);
                assert(data@.subrange(0, 4)[1] == data@[1]);
                assert(data@.subrange(0, 4)[2] == data@[2]);
                assert(data@.subrange(0, 4)[3] == data@[3]);
            }
        }
        if !is_elf {
            return Err(Error::NotABinary);
        }
        let block = vstd::slice::slice_to_vec(vstd::slice::slice_subrange(data.as_slice(), 0, 64));
        let header = Header::from_block(block);
        if data[4] != 2 {
            return Err(Error::Unsupported64Bit);
        }
        Ok(Elf { header, data })
    }

    /// Reads the whole section header table declared by the fixed
    /// header: one bulk range of the image, split into 64-byte records.
    pub fn get_all_section_headers(&self) -> (r: Result<SectionHeaders, Error>)
        ensures
            ({
                let h = self.header_block();
                let shoff = header_field(h, 0x28, 8);
                let shnum = header_field(h, 0x3C, 2);
                match r {
                    Ok(s) => {
                        &&& shoff + 64 * shnum <= self@.len()
                        &&& s.headers@.len() == shnum
                        &&& forall|i: int|
                            0 <= i < shnum ==> s.headers@[i]@ == section_block(
                                self@,
                                shoff as int,
                                i,
                            )
                    },
                    Err(e) => {
                        &&& e == Error::IoFailure
                        &&& shoff + 64 * shnum > self@.len()
                    },
                }
            }),
    {
        proof {
            use_type_invariant(self);
            lemma_pow256_values();
            lemma_word_at_bound(self.header_block(), 0x28, 8, header_is_le(self.header_block()));
            lemma_word_at_bound(self.header_block(), 0x3C, 2, header_is_le(self.header_block()));
        }
        let shoff: u64 = self.header().e_shoff();
        let shnum: u16 = self.header().e_shnum();
        let total: u64 = 64 * (shnum as u64);
        let dlen: usize = self.data.len();
        let len: u64 = dlen as u64;
        if shoff > len || total > len - shoff {
            return Err(Error::IoFailure);
        }
        let mut headers: Vec<SectionHeader> = Vec::new();
        let mut i: usize = 0;
        while i < shnum as usize
            invariant
                self.wf(),
                dlen == self@.len(),
                shoff + 64 * (shnum as int) <= dlen,
                i <= shnum,
                headers@.len() == i,
                forall|j: int|
                    0 <= j < i ==> headers@[j]@ == section_block(self@, shoff as int, j),
            decreases shnum - i,
        {
            let start: usize = (shoff as usize) + 64 * i;
            proof {
                assert(start == shoff + 64 * (i as int));
            }
            let block = vstd::slice::slice_to_vec(
                vstd::slice::slice_subrange(self.data.as_slice(), start, start + 64),
            );
            headers.push(SectionHeader::from_block(block));
            i = i + 1;
        }
        Ok(SectionHeaders { headers })
    }

    /// Decodes a section's payload according to its type: symbol tables
    /// and string tables are read, anything else is left unparsed.
    pub fn get_section(&self, section_header: &SectionHeader) -> (r: Result<Section, Error>)
        ensures
            ({
                let b = section_header@;
                let t = section_field(b, 0x04, 4);
                let off = section_field(b, 0x18, 8);
                let size = section_field(b, 0x20, 8);
                let count = size / 24;
                match r {
                    Ok(Section::Symbols(v)) => {
                        &&& t == 2
                        &&& off + count * 24 <= self@.len()
                        &&& v@.len() == count
                        &&& forall|i: int|
                            0 <= i < count ==> v@[i] == spec_symbol(
                                self@.subrange(off + 24 * i, off + 24 * i + 24),
                            )
                    },
                    Ok(Section::Strings(st)) => {
                        &&& t == 3
                        &&& off + size <= self@.len()
                        &&& st.data@ == self@.subrange(off as int, off + size as int)
                    },
                    Ok(Section::NotImplemented) => t != 2 && t != 3,
                    Err(e) => {
                        &&& e == Error::IoFailure
                        &&& (t == 2 && off + count * 24 > self@.len()) || (t == 3 && off + size
                            > self@.len())
                    },
                }
            }),
    {
        proof {
            use_type_invariant(self);
            use_type_invariant(section_header);
            lemma_pow256_values();
            lemma_word_at_bound(section_header@, 0x18, 8, true);
            lemma_word_at_bound(section_header@, 0x20, 8, true);
        }
        let header_type = section_header.sh_type();
        let off: u64 = section_header.sh_offset();
        let size: u64 = section_header.sh_size();
        let dlen: usize = self.data.len();
        let len: u64 = dlen as u64;
        if header_type == 2 {
            let count: u64 = size / 24;
            proof {
                vstd::arithmetic::div_mod::lemma_fundamental_div_mod(size as int, 24);
                assert(count <= count * 24) by (nonlinear_arith)
                    requires count >= 0;
            }
            if off > len || count * 24 > len - off {
                return Err(Error::IoFailure);
            }
            let mut symbols: Vec<Elf64Sym> = Vec::new();
            let mut i: usize = 0;
            while i < count as usize
                invariant
                    self.wf(),
                    dlen == self@.len(),
                    count == section_field(section_header@, 0x20, 8) / 24,
                    off == section_field(section_header@, 0x18, 8),
                    off + count * 24 <= dlen,
                    count <= dlen,
                    i <= count,
                    symbols@.len() == i,
                    forall|j: int|
                        0 <= j < i ==> symbols@[j] == spec_symbol(
                            self@.subrange(off + 24 * j, off + 24 * j + 24),
                        ),
                decreases count - i,
            {
                let start: usize = (off as usize) + 24 * i;
                proof {
                    assert(24 * (i as int) + 24 <= 24 * (count as int)) by (nonlinear_arith)
                        requires i < count;
                    assert(start == off + 24 * (i as int));
                }
                let rec = vstd::slice::slice_subrange(self.data.as_slice(), start, start + 24);
                symbols.push(parse_symbol(rec));
                i = i + 1;
            }
            Ok(Section::Symbols(symbols))
        } else if header_type == 3 {
            if off > len || size > len - off {
                return Err(Error::IoFailure);
            }
            let blob = vstd::slice::slice_to_vec(
                vstd::slice::slice_subrange(
                    self.data.as_slice(),
                    off as usize,
                    (off + size) as usize,
                ),
            );
            Ok(Section::Strings(StringTable { data: blob }))
        } else {
            Ok(Section::NotImplemented)
        }
    }
}


} // verus!
