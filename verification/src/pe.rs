//! Reading Windows PE images: the machine type, and the names of the DLLs
//! that the import directory lists.
//!
//! All offsets are computed over the whole file as bytes; a header that does
//! not fit in the file gives "no information" rather than an error.
use vstd::prelude::*;
use vstd::utf8::{
    decode_first_scalar, decode_utf8, is_leading_byte_width_1, is_leading_byte_width_2,
    is_leading_byte_width_3, pop_first_scalar, valid_first_scalar,
    valid_utf8,
};
use crate::text::{
    lemma_trim_exists, string_views, to_lowercase, trim, trim_bounds, trim_spec,
    unicode_lowercase, unicode_white_space, utf8_str,
};

verus! {

/// The little-endian 16-bit value at `off`.
pub open spec fn le16(d: Seq<u8>, off: int) -> int {
    d[off] as int + d[off + 1] as int * 256
}

/// The little-endian 32-bit value at `off`.
pub open spec fn le32(d: Seq<u8>, off: int) -> int {
    le16(d, off) + le16(d, off + 2) * 65536
}

/// The file begins with the DOS magic "MZ".
pub open spec fn has_mz_magic(d: Seq<u8>) -> bool {
    d.len() >= 2 && d[0] == 0x4D && d[1] == 0x5A
}

/// The file holds a whole DOS header (64 bytes) that begins with "MZ".
pub open spec fn has_dos_header(d: Seq<u8>) -> bool {
    d.len() >= 0x40 && has_mz_magic(d)
}

/// Where the DOS header says the PE header starts.
pub open spec fn e_lfanew(d: Seq<u8>) -> int {
    le32(d, 0x3C)
}

/// The bytes at `e` are the PE signature "PE\0\0".
pub open spec fn pe_signature_at(d: Seq<u8>, e: int) -> bool {
    d[e] == 0x50 && d[e + 1] == 0x45 && d[e + 2] == 0 && d[e + 3] == 0
}

/// The COFF machine field, when the file has a DOS header, a PE signature
/// and the two bytes of the machine field after it.
pub open spec fn machine_type(d: Seq<u8>) -> Option<int> {
    let e = e_lfanew(d);
    if has_dos_header(d) && e + 6 <= d.len() && pe_signature_at(d, e) {
        Some(le16(d, e + 4))
    } else {
        None
    }
}

/// The machine type of 32-bit x86 (i386) images.
pub open spec fn machine_i386() -> int {
    0x014C
}

/// An image counts as 64-bit unless its header says i386; an image whose
/// header cannot be read counts as 64-bit.
pub open spec fn image_is_64bit(d: Seq<u8>) -> bool {
    match machine_type(d) {
        Some(m) => m != machine_i386(),
        None => true,
    }
}

/// Where the section table stands, how many sections it declares, and the
/// RVA of the import directory; `None` when the image has no usable import
/// directory. The import directory is the second entry of the data
/// directories, which follow the 96 bytes (PE32) or 112 bytes (PE32+, magic
/// 0x20B) of fixed optional-header fields.
pub open spec fn import_directory(d: Seq<u8>) -> Option<(int, int, int)> {
    let e = e_lfanew(d);
    let coff = e + 4;
    let opt = coff + 20;
    let opt_size = le16(d, coff + 16);
    let dir = if le16(d, opt) == 0x20B {
        opt + 120
    } else {
        opt + 104
    };
    if !has_dos_header(d) || e + 4 > d.len() || !pe_signature_at(d, e) {
        None
    } else if coff + 20 > d.len() {
        None
    } else if opt_size < 4 || opt + opt_size > d.len() {
        None
    } else if dir + 8 > d.len() {
        None
    } else if le32(d, dir) == 0 || le32(d, dir + 4) == 0 {
        None
    } else {
        Some((opt + opt_size, le16(d, coff + 2), le32(d, dir)))
    }
}

/// The file offset of `rva`, found in the first section (from the `i`-th on)
/// whose virtual range holds it; the search stops at a section header that
/// does not fit in the file.
pub open spec fn section_offset(d: Seq<u8>, table: int, count: int, rva: int, i: int) -> Option<
    int,
>
    decreases count - i,
{
    if i < 0 || i >= count {
        None
    } else {
        let sec = table + 40 * i;
        let va = le32(d, sec + 12);
        let raw_size = le32(d, sec + 16);
        let raw_offset = le32(d, sec + 20);
        if sec + 40 > d.len() {
            None
        } else if va <= rva && rva < va + raw_size {
            Some(raw_offset + (rva - va))
        } else {
            section_offset(d, table, count, rva, i + 1)
        }
    }
}

/// The end of the NUL-terminated string that starts at `start`: the first
/// zero byte from `start` on, or the end of the file.
pub open spec fn nul_end(d: Seq<u8>, start: int) -> int
    decreases d.len() - start,
{
    if start >= d.len() {
        d.len() as int
    } else if d[start] == 0 {
        start
    } else {
        nul_end(d, start + 1)
    }
}

/// The name that an import descriptor contributes: its bytes decoded as
/// UTF-8, trimmed, and lower-cased; nothing when the bytes are not UTF-8 or
/// nothing is left after trimming.
pub open spec fn import_name(raw: Seq<u8>) -> Option<Seq<char>> {
    if valid_utf8(raw) {
        let t = trim_spec(decode_utf8(raw));
        if t.len() == 0 {
            None
        } else {
            Some(unicode_lowercase(t))
        }
    } else {
        None
    }
}

/// Walks the import descriptors (20 bytes each) from `off`, adding each
/// name to `acc`; stops at a descriptor that does not fit or whose name RVA
/// is zero. `None` when a name's file offset lies past the end of the file.
pub open spec fn import_scan(
    d: Seq<u8>,
    table: int,
    count: int,
    off: int,
    acc: Seq<Seq<char>>,
) -> Option<Seq<Seq<char>>>
    decreases d.len() - off,
{
    if off + 20 > d.len() {
        Some(acc)
    } else {
        let name_rva = le32(d, off + 12);
        if name_rva == 0 {
            Some(acc)
        } else {
            match section_offset(d, table, count, name_rva, 0) {
                None => import_scan(d, table, count, off + 20, acc),
                Some(no) => if no > d.len() {
                    None
                } else {
                    let next = match import_name(d.subrange(no, nul_end(d, no))) {
                        Some(n) => acc.push(n),
                        None => acc,
                    };
                    import_scan(d, table, count, off + 20, next)
                },
            }
        }
    }
}

/// The import names of an image, in descriptor order; `None` when a name
/// lies past the end of the file.
pub open spec fn pe_import_scan(d: Seq<u8>) -> Option<Seq<Seq<char>>> {
    match import_directory(d) {
        None => Some(Seq::empty()),
        Some((table, count, rva)) => match section_offset(d, table, count, rva, 0) {
            None => Some(Seq::empty()),
            Some(start) => import_scan(d, table, count, start, Seq::empty()),
        },
    }
}

/// Every import name of the image starts inside the file.
pub open spec fn pe_imports_in_bounds(d: Seq<u8>) -> bool {
    pe_import_scan(d) is Some
}

/// The import names of an image whose names start inside the file.
pub open spec fn pe_imports(d: Seq<u8>) -> Seq<Seq<char>> {
    pe_import_scan(d).unwrap()
}

/// `t` is non-empty, holds no NUL and has no White_Space at either end.
pub open spec fn is_plain_trimmed(t: Seq<char>) -> bool {
    &&& t.len() > 0
    &&& !unicode_white_space(t[0])
    &&& !unicode_white_space(t.last())
    &&& forall|k: int| 0 <= k < t.len() ==> t[k] != '\0'
}

/// An import name is the lower-casing of a non-empty string that holds no
/// NUL and has no White_Space at either end.
pub open spec fn import_name_shape(s: Seq<char>) -> bool {
    exists|t: Seq<char>| #[trigger] is_plain_trimmed(t) && s == unicode_lowercase(t)
}

/// A section lookup never gives a negative offset.
proof fn lemma_section_offset_nonneg(d: Seq<u8>, table: int, count: int, rva: int, i: int)
    ensures
        section_offset(d, table, count, rva, i) matches Some(o) ==> o >= 0,
    decreases count - i,
{
    if 0 <= i < count {
        lemma_section_offset_nonneg(d, table, count, rva, i + 1);
    }
}

/// The bytes from `start` up to `nul_end` hold no zero.
proof fn lemma_nul_end(d: Seq<u8>, start: int)
    requires
        0 <= start <= d.len(),
    ensures
        start <= nul_end(d, start) <= d.len(),
        forall|j: int| start <= j < nul_end(d, start) ==> d[j] != 0,
    decreases d.len() - start,
{
    if start < d.len() && d[start] != 0 {
        lemma_nul_end(d, start + 1);
    }
}

/// The first scalar of a valid encoding whose first byte is not zero is a
/// character other than NUL.
proof fn lemma_first_scalar_nonzero(b: Seq<u8>)
    requires
        b.len() > 0,
        valid_first_scalar(b),
        b[0] != 0,
    ensures
        decode_first_scalar(b) != 0,
        decode_first_scalar(b) < 0xD800 || 0xE000 <= decode_first_scalar(b) <= 0x10FFFF,
{
    let x = b[0];
    if is_leading_byte_width_1(x) {
        assert(x != 0 && x <= 0x7f ==> (x & 0x7F) as u32 != 0 && (x & 0x7F) as u32 <= 0x7F)
            by (bit_vector);
    } else if is_leading_byte_width_2(x) {
        let y = b[1];
        assert((((x & 0x1F) as u32) << 6) | ((y & 0x3f) as u32) <= 0x7FF) by (bit_vector);
    } else if is_leading_byte_width_3(x) {
        let y = b[1];
        let z = b[2];
        assert((((x & 0x0F) as u32) << 12) | (((y & 0x3f) as u32) << 6) | ((z & 0x3f) as u32)
            <= 0xFFFF) by (bit_vector);
    }
}

/// Decoding bytes without a zero byte gives no NUL character.
pub proof fn lemma_decode_no_nul(b: Seq<u8>)
    requires
        valid_utf8(b),
        forall|j: int| 0 <= j < b.len() ==> b[j] != 0,
    ensures
        forall|k: int| 0 <= k < decode_utf8(b).len() ==> decode_utf8(b)[k] != '\0',
    decreases b.len(),
{
    if b.len() > 0 {
        let rest = pop_first_scalar(b);
        assert forall|j: int| 0 <= j < rest.len() implies rest[j] != 0 by {
            assert(rest[j] == b[j + (b.len() - rest.len())]);
        }
        lemma_decode_no_nul(rest);
        lemma_first_scalar_nonzero(b);
        let cp = decode_first_scalar(b);
        let first = cp as char;
        assert(first != '\0');
        assert(decode_utf8(b) == seq![first] + decode_utf8(rest));
        assert forall|k: int| 0 <= k < decode_utf8(b).len() implies decode_utf8(b)[k] != '\0' by {
            if k > 0 {
                assert(decode_utf8(b)[k] == decode_utf8(rest)[k - 1]);
            }
        }
    }
}

/// A name read up to a NUL has the shape of an import name.
proof fn lemma_import_name_shape(raw: Seq<u8>)
    requires
        forall|j: int| 0 <= j < raw.len() ==> raw[j] != 0,
        import_name(raw) is Some,
    ensures
        import_name_shape(import_name(raw)->0),
{
    let chars = decode_utf8(raw);
    lemma_decode_no_nul(raw);
    lemma_trim_exists(chars);
    let t = trim_spec(chars);
    let (a, b) = choose|a: int, b: int| trim_bounds(chars, t, a, b);
    assert(t[0] == chars[a]);
    assert(t.last() == chars[b - 1]);
    assert forall|k: int| 0 <= k < t.len() implies t[k] != '\0' by {
        assert(t[k] == chars[a + k]);
    }
    assert(is_plain_trimmed(t));
}

/// Each descriptor walked from `off` adds at most one name, of the shape of
/// an import name, and descriptors are 20 bytes apart.
proof fn lemma_scan_shape(d: Seq<u8>, table: int, count: int, off: int, acc: Seq<Seq<char>>)
    requires
        off >= 0,
        forall|i: int| 0 <= i < acc.len() ==> import_name_shape(#[trigger] acc[i]),
    ensures
        import_scan(d, table, count, off, acc) matches Some(r) ==> {
            &&& 20 * (r.len() - acc.len()) <= if off <= d.len() {
                d.len() - off
            } else {
                0
            }
            &&& forall|i: int| 0 <= i < r.len() ==> import_name_shape(#[trigger] r[i])
        },
    decreases d.len() - off,
{
    if off + 20 <= d.len() && le32(d, off + 12) != 0 {
        let name_rva = le32(d, off + 12);
        lemma_section_offset_nonneg(d, table, count, name_rva, 0);
        match section_offset(d, table, count, name_rva, 0) {
            None => lemma_scan_shape(d, table, count, off + 20, acc),
            Some(no) => if no <= d.len() {
                lemma_nul_end(d, no);
                let raw = d.subrange(no, nul_end(d, no));
                assert forall|j: int| 0 <= j < raw.len() implies raw[j] != 0 by {
                    assert(raw[j] == d[no + j]);
                }
                match import_name(raw) {
                    Some(n) => {
                        lemma_import_name_shape(raw);
                        let next = acc.push(n);
                        assert forall|i: int| 0 <= i < next.len() implies import_name_shape(
                            #[trigger] next[i],
                        ) by {
                            if i < acc.len() {
                                assert(next[i] == acc[i]);
                            }
                        }
                        lemma_scan_shape(d, table, count, off + 20, next);
                    },
                    None => lemma_scan_shape(d, table, count, off + 20, acc),
                }
            },
        }
    }
}

/// The import names of an image are at most one per 20 bytes of the file,
/// and each is the lower-casing of a non-empty string with no NUL and no
/// White_Space at either end.
pub proof fn lemma_pe_imports_shape(d: Seq<u8>)
    requires
        pe_imports_in_bounds(d),
    ensures
        20 * pe_imports(d).len() <= d.len(),
        forall|i: int| 0 <= i < pe_imports(d).len() ==> import_name_shape(#[trigger] pe_imports(d)[i]),
{
    if let Some((table, count, rva)) = import_directory(d) {
        lemma_section_offset_nonneg(d, table, count, rva, 0);
        if let Some(start) = section_offset(d, table, count, rva, 0) {
            lemma_scan_shape(d, table, count, start, Seq::empty());
        }
    }
}

/// The unsigned value of the two bytes at `o`, least significant first.
pub open spec fn bytes_u16(d: Seq<u8>, o: int) -> int {
    d[o] as int + 256 * (d[o + 1] as int)
}

/// The unsigned value of the four bytes at `o`, least significant first.
pub open spec fn bytes_u32(d: Seq<u8>, o: int) -> int {
    d[o] as int + 256 * (d[o + 1] as int) + 65536 * (d[o + 2] as int) + 16777216 * (
    d[o + 3] as int)
}

/// The section header at `h` (PE layout: VirtualAddress at +12,
/// SizeOfRawData at +16) covers `rva`.
pub open spec fn header_covers(d: Seq<u8>, h: int, rva: int) -> bool {
    bytes_u32(d, h + 12) <= rva < bytes_u32(d, h + 12) + bytes_u32(d, h + 16)
}

/// The file starts with a whole DOS header whose magic is "MZ", and the
/// four bytes at the offset that its bytes 0x3C..0x40 give are "PE\0\0".
pub open spec fn pe_header_at(d: Seq<u8>, e: int, need: int) -> bool {
    &&& d.len() >= 0x40
    &&& d[0] == 0x4D
    &&& d[1] == 0x5A
    &&& e == bytes_u32(d, 0x3C)
    &&& e + need <= d.len()
    &&& d[e] == 0x50
    &&& d[e + 1] == 0x45
    &&& d[e + 2] == 0
    &&& d[e + 3] == 0
}

/// An image is 32-bit exactly when it has a DOS header, a PE signature at
/// the offset held in the 32-bit field at 0x3C, and the COFF machine field
/// right after the signature is 0x014C (i386); every other file, including
/// one whose header cannot be read, counts as 64-bit.
pub proof fn law_image_bitness(d: Seq<u8>)
    ensures
        !image_is_64bit(d) <==> exists|e: int|
            pe_header_at(d, e, 6) && bytes_u16(d, e + 4) == 0x014C,
{
    let e = bytes_u32(d, 0x3C);
    if d.len() >= 0x40 {
        assert(e_lfanew(d) == e);
    }
    if !image_is_64bit(d) {
        assert(pe_header_at(d, e, 6) && bytes_u16(d, e + 4) == 0x014C);
    }
}

/// Where the import names are looked for: the section table starts right
/// after the optional header, at the signature + 24 + SizeOfOptionalHeader
/// (the 16-bit field at signature + 20); its count is NumberOfSections (at
/// signature + 6); the import directory is the second data directory, at
/// optional header + 104 (PE32) or + 120 (PE32+, magic 0x20B), and is used
/// when it fits in the file and its RVA and size are not zero.
pub proof fn law_import_directory(d: Seq<u8>)
    ensures
        forall|e: int|
            #![trigger pe_header_at(d, e, 4)]
            pe_header_at(d, e, 4) ==> {
                let opt = e + 24;
                let opt_size = bytes_u16(d, e + 20);
                let dir = if bytes_u16(d, opt) == 0x20B {
                    opt + 120
                } else {
                    opt + 104
                };
                let usable = opt <= d.len() && opt_size >= 4 && opt + opt_size <= d.len() && dir
                    + 8 <= d.len() && bytes_u32(d, dir) != 0 && bytes_u32(d, dir + 4) != 0;
                &&& usable ==> import_directory(d) == Some(
                    (opt + opt_size, bytes_u16(d, e + 6), bytes_u32(d, dir)),
                )
                &&& !usable ==> import_directory(d) is None
            },
        (forall|e: int| !pe_header_at(d, e, 4)) ==> import_directory(d) is None,
{
    let e = bytes_u32(d, 0x3C);
    if d.len() >= 0x40 {
        assert(e_lfanew(d) == e);
    }
    if import_directory(d) is Some {
        assert(pe_header_at(d, e, 4));
    }
}

/// Section lookup from header `s` on, when header `i` is the first (from
/// `s`) that covers `rva`.
proof fn lemma_lookup_hit(d: Seq<u8>, table: int, count: int, rva: int, s: int, i: int)
    requires
        0 <= s <= i < count,
        table + 40 * i + 40 <= d.len(),
        header_covers(d, table + 40 * i, rva),
        forall|j: int| s <= j < i ==> !header_covers(d, #[trigger] (table + 40 * j), rva),
    ensures
        section_offset(d, table, count, rva, s) == Some(
            bytes_u32(d, table + 40 * i + 20) + rva - bytes_u32(d, table + 40 * i + 12),
        ),
    decreases i - s,
{
    if s < i {
        assert(!header_covers(d, table + 40 * s, rva));
        lemma_lookup_hit(d, table, count, rva, s + 1, i);
    }
}

/// Section lookup from header `s` on, when no header from `s` covers `rva`.
proof fn lemma_lookup_miss(d: Seq<u8>, table: int, count: int, rva: int, s: int)
    requires
        0 <= s,
        forall|j: int| s <= j < count ==> !header_covers(d, #[trigger] (table + 40 * j), rva),
    ensures
        section_offset(d, table, count, rva, s) is None,
    decreases count - s,
{
    if s < count {
        assert(!header_covers(d, table + 40 * s, rva));
        lemma_lookup_miss(d, table, count, rva, s + 1);
    }
}

/// An RVA is found through the section table: section headers are 40 bytes
/// apart; the first header that covers the RVA (VirtualAddress <= rva <
/// VirtualAddress + SizeOfRawData) maps it to PointerToRawData (at +20) +
/// (rva - VirtualAddress), provided every header up to it lies in the file;
/// when no header covers it, it maps nowhere.
pub proof fn law_section_lookup(d: Seq<u8>, table: int, count: int, rva: int)
    ensures
        forall|i: int|
            #![trigger header_covers(d, table + 40 * i, rva)]
            0 <= i < count && table + 40 * i + 40 <= d.len() && header_covers(
                d,
                table + 40 * i,
                rva,
            ) && (forall|j: int|
                0 <= j < i ==> !header_covers(d, #[trigger] (table + 40 * j), rva))
                ==> section_offset(d, table, count, rva, 0) == Some(
                bytes_u32(d, table + 40 * i + 20) + rva - bytes_u32(d, table + 40 * i + 12),
            ),
        (forall|j: int| 0 <= j < count ==> !header_covers(d, #[trigger] (table + 40 * j), rva))
            ==> section_offset(d, table, count, rva, 0) is None,
{
    assert forall|i: int|
        #![trigger header_covers(d, table + 40 * i, rva)]
        0 <= i < count && table + 40 * i + 40 <= d.len() && header_covers(d, table + 40 * i, rva)
            && (forall|j: int|
            0 <= j < i ==> !header_covers(d, #[trigger] (table + 40 * j), rva))
            implies section_offset(d, table, count, rva, 0) == Some(
        bytes_u32(d, table + 40 * i + 20) + rva - bytes_u32(d, table + 40 * i + 12),
    ) by {
        lemma_lookup_hit(d, table, count, rva, 0, i);
    }
    if forall|j: int| 0 <= j < count ==> !header_covers(d, #[trigger] (table + 40 * j), rva) {
        lemma_lookup_miss(d, table, count, rva, 0);
    }
}

/// A name ends at the first zero byte from its start, or at the end of the
/// file.
pub proof fn law_name_end(d: Seq<u8>, start: int)
    requires
        0 <= start <= d.len(),
    ensures
        start <= nul_end(d, start) <= d.len(),
        forall|j: int| start <= j < nul_end(d, start) ==> d[j] != 0,
        nul_end(d, start) < d.len() ==> d[nul_end(d, start)] == 0,
    decreases d.len() - start,
{
    lemma_nul_end(d, start);
    if start < d.len() && d[start] != 0 {
        law_name_end(d, start + 1);
    }
}

/// The import descriptors are 20 bytes apart and each names its DLL by the
/// RVA at +12: the walk ends at a descriptor that does not fit in the file
/// or whose name RVA is zero; a name RVA that no section covers adds
/// nothing; otherwise the name read from its file offset up to the next zero
/// byte is added (when it decodes, trimmed, to something non-empty).
pub proof fn law_descriptor_walk(
    d: Seq<u8>,
    table: int,
    count: int,
    off: int,
    acc: Seq<Seq<char>>,
)
    requires
        off >= 0,
    ensures
        off + 20 > d.len() ==> import_scan(d, table, count, off, acc) == Some(acc),
        off + 20 <= d.len() && bytes_u32(d, off + 12) == 0 ==> import_scan(
            d,
            table,
            count,
            off,
            acc,
        ) == Some(acc),
        off + 20 <= d.len() && bytes_u32(d, off + 12) != 0 ==> {
            let rva = bytes_u32(d, off + 12);
            match section_offset(d, table, count, rva, 0) {
                None => import_scan(d, table, count, off, acc) == import_scan(
                    d,
                    table,
                    count,
                    off + 20,
                    acc,
                ),
                Some(no) => if no > d.len() {
                    import_scan(d, table, count, off, acc) is None
                } else {
                    let raw = d.subrange(no, nul_end(d, no));
                    import_scan(d, table, count, off, acc) == import_scan(
                        d,
                        table,
                        count,
                        off + 20,
                        if valid_utf8(raw) && trim_spec(decode_utf8(raw)).len() > 0 {
                            acc.push(unicode_lowercase(trim_spec(decode_utf8(raw))))
                        } else {
                            acc
                        },
                    )
                },
            }
        },
{
}

/// The walk of import descriptors starts where the section table maps the
/// import directory's RVA, with no names yet; an image without a usable
/// import directory, or whose directory no section covers, imports nothing.
pub proof fn law_import_start(d: Seq<u8>)
    ensures
        import_directory(d) is None ==> pe_imports_in_bounds(d) && pe_imports(d).len() == 0,
        import_directory(d) matches Some((table, count, rva)) ==> match section_offset(
            d,
            table,
            count,
            rva,
            0,
        ) {
            None => pe_imports_in_bounds(d) && pe_imports(d).len() == 0,
            Some(start) => pe_import_scan(d) == import_scan(
                d,
                table,
                count,
                start,
                Seq::empty(),
            ),
        },
{
}

/// Reads the little-endian 16-bit value at `off`.
pub fn read_u16_le(d: &[u8], off: usize) -> (r: u16)
    requires
        off + 2 <= d.len(),
    ensures
        r == le16(d@, off as int),
        r == bytes_u16(d@, off as int),
{
    d[off] as u16 + (d[off + 1] as u16) * 256
}

/// Reads the little-endian 32-bit value at `off`.
pub fn read_u32_le(d: &[u8], off: usize) -> (r: u32)
    requires
        off + 4 <= d.len(),
    ensures
        r == le32(d@, off as int),
        r == bytes_u32(d@, off as int),
{
    let lo = read_u16_le(d, off) as u32;
    let hi = read_u16_le(d, off + 2) as u32;
    lo + hi * 65536
}

/// Whether the first bytes of a file are the DOS magic "MZ".
pub fn is_pe_header(head: &[u8]) -> (r: bool)
    ensures
        r == has_mz_magic(head@),
        r <==> head@.len() >= 2 && head@[0] == 0x4D && head@[1] == 0x5A,
{
    head.len() >= 2 && head[0] == 0x4D && head[1] == 0x5A
}

/// Whether an image is 64-bit: false only for an image whose PE header
/// names the i386 machine.
pub fn is_64bit_image(data: &[u8]) -> (r: bool)
    ensures
        r == image_is_64bit(data@),
        machine_type(data@) is None ==> r,
        !r <==> exists|e: int| pe_header_at(data@, e, 6) && bytes_u16(data@, e + 4) == 0x014C,
{
    proof {
        law_image_bitness(data@);
    }
    let len = data.len();
    if len < 0x40 || data[0] != 0x4D || data[1] != 0x5A {
        return true;
    }
    let e = read_u32_le(data, 0x3C) as usize;
    if e > len - 6 {
        return true;
    }
    if data[e] != 0x50 || data[e + 1] != 0x45 || data[e + 2] != 0 || data[e + 3] != 0 {
        return true;
    }
    let machine = read_u16_le(data, e + 4);
    machine != 0x014C
}

/// Finds the section table, the section count and the import directory RVA.
fn find_import_directory(d: &[u8]) -> (r: Option<(usize, usize, u32)>)
    ensures
        match r {
            Some((table, count, rva)) => {
                &&& import_directory(d@) == Some((table as int, count as int, rva as int))
                &&& table <= d@.len()
            },
            None => import_directory(d@) is None,
        },
{
    let len = d.len();
    if len < 0x40 || d[0] != 0x4D || d[1] != 0x5A {
        return None;
    }
    let e = read_u32_le(d, 0x3C) as usize;
    if e > len - 4 {
        return None;
    }
    if d[e] != 0x50 || d[e + 1] != 0x45 || d[e + 2] != 0 || d[e + 3] != 0 {
        return None;
    }
    let coff = e + 4;
    if coff > len - 20 {
        return None;
    }
    let opt_size = read_u16_le(d, coff + 16) as usize;
    let opt = coff + 20;
    if opt_size < 4 || opt_size > len - opt {
        return None;
    }
    let magic = read_u16_le(d, opt);
    let extra: usize = if magic == 0x20B {
        120
    } else {
        104
    };
    if len - opt < 8 || extra > len - opt - 8 {
        return None;
    }
    let dir = opt + extra;
    let import_rva = read_u32_le(d, dir);
    let import_size = read_u32_le(d, dir + 4);
    if import_rva == 0 || import_size == 0 {
        return None;
    }
    let count = read_u16_le(d, coff + 2) as usize;
    Some((opt + opt_size, count, import_rva))
}

/// The file offset of an RVA, by the section table.
fn rva_to_file_offset(d: &[u8], table: usize, count: usize, rva: u32) -> (r: Option<u64>)
    requires
        table <= d@.len(),
    ensures
        match r {
            Some(o) => section_offset(d@, table as int, count as int, rva as int, 0) == Some(
                o as int,
            ),
            None => section_offset(d@, table as int, count as int, rva as int, 0) is None,
        },
{
    let mut i: usize = 0;
    let mut sec: usize = table;
    while i < count
        invariant
            i <= count,
            sec == table + 40 * i,
            sec <= d@.len(),
            section_offset(d@, table as int, count as int, rva as int, 0) == section_offset(
                d@,
                table as int,
                count as int,
                rva as int,
                i as int,
            ),
        decreases count - i,
    {
        if d.len() - sec < 40 {
            return None;
        }
        let va = read_u32_le(d, sec + 12) as u64;
        let raw_size = read_u32_le(d, sec + 16) as u64;
        let raw_offset = read_u32_le(d, sec + 20) as u64;
        let r = rva as u64;
        if va <= r && r < va + raw_size {
            return Some(raw_offset + (r - va));
        }
        sec = sec + 40;
        i = i + 1;
    }
    None
}

/// The end of the NUL-terminated string at `start`.
fn find_nul(d: &[u8], start: usize) -> (r: usize)
    requires
        start <= d@.len(),
    ensures
        r == nul_end(d@, start as int),
        start <= r <= d@.len(),
{
    let mut j = start;
    while j < d.len() && d[j] != 0
        invariant
            start <= j <= d@.len(),
            nul_end(d@, start as int) == nul_end(d@, j as int),
        decreases d.len() - j,
    {
        j = j + 1;
    }
    j
}

/// Decodes, trims and lower-cases the name bytes of one import.
fn decode_import_name(raw: &[u8]) -> (r: Option<String>)
    ensures
        match r {
            Some(s) => import_name(raw@) == Some(s@),
            None => import_name(raw@) is None,
        },
{
    match utf8_str(raw) {
        None => None,
        Some(name) => {
            let t = trim(name);
            if t.is_empty() {
                None
            } else {
                Some(to_lowercase(t))
            }
        },
    }
}

/// The import names of an image, or `None` when a name lies past its end.
fn scan_import_names(d: &[u8]) -> (r: Option<Vec<String>>)
    ensures
        match r {
            Some(v) => pe_import_scan(d@) == Some(string_views(v@)),
            None => pe_import_scan(d@) is None,
        },
{
    let (table, count, rva) = match find_import_directory(d) {
        None => {
            return Some(Vec::new());
        },
        Some(t) => t,
    };
    let start = match rva_to_file_offset(d, table, count, rva) {
        None => {
            assert(string_views(Seq::<String>::empty()) =~= Seq::<Seq<char>>::empty());
            return Some(Vec::new());
        },
        Some(o) => o,
    };
    let n: usize = d.len();
    let len = n as u64;
    let mut imports: Vec<String> = Vec::new();
    let mut off: u64 = start;
    assert(string_views(imports@) =~= Seq::<Seq<char>>::empty());
    loop
        invariant
            n == d@.len(),
            len == n,
            table <= d@.len(),
            pe_import_scan(d@) == import_scan(
                d@,
                table as int,
                count as int,
                off as int,
                string_views(imports@),
            ),
        ensures
            pe_import_scan(d@) == Some(string_views(imports@)),
        decreases d@.len() - off,
    {
        if off > len || len - off < 20 {
            break;
        }
        let at = off as usize;
        let name_rva = read_u32_le(d, at + 12);
        if name_rva == 0 {
            break;
        }
        match rva_to_file_offset(d, table, count, name_rva) {
            None => {},
            Some(no) => {
                if no > len {
                    return None;
                }
                let start = no as usize;
                let end = find_nul(d, start);
                let raw = &d[start..end];
                assert(raw@ == d@.subrange(start as int, end as int));
                match decode_import_name(raw) {
                    Some(name) => {
                        let ghost before = imports@;
                        imports.push(name);
                        assert(string_views(imports@) =~= string_views(before).push(name@));
                    },
                    None => {},
                }
            },
        }
        off = off + 20;
    }
    Some(imports)
}

/// Whether every import name of the image starts inside the file, that is,
/// whether `parse_pe_imports` may be called on it.
pub fn import_names_in_bounds(data: &[u8]) -> (r: bool)
    ensures
        r == pe_imports_in_bounds(data@),
{
    scan_import_names(data).is_some()
}

/// The names of the DLLs that an image imports, in the order of its import
/// descriptors, each trimmed and lower-cased; empty for a file that is not a
/// PE image or has no import directory.
pub fn parse_pe_imports(data: &[u8]) -> (r: Vec<String>)
    requires
        pe_imports_in_bounds(data@),
    ensures
        string_views(r@) == pe_imports(data@),
        !has_dos_header(data@) ==> r@.len() == 0,
        20 * r@.len() <= data@.len(),
        forall|i: int| 0 <= i < r@.len() ==> import_name_shape(#[trigger] r@[i]@),
{
    proof {
        lemma_pe_imports_shape(data@);
        if !has_dos_header(data@) {
            assert(string_views(Seq::<String>::empty()) =~= Seq::<Seq<char>>::empty());
        }
    }
    let r = match scan_import_names(data) {
        Some(v) => v,
        None => Vec::new(),
    };
    proof {
        assert forall|i: int| 0 <= i < r@.len() implies import_name_shape(#[trigger] r@[i]@) by {
            assert(string_views(r@)[i] == r@[i]@);
        }
    }
    r
}

/// The imports of a file, given its contents, or `None` when it could not be
/// read: an unreadable file imports nothing.
pub fn get_pe_imports(contents: Option<&[u8]>) -> (r: Vec<String>)
    requires
        contents matches Some(d) ==> pe_imports_in_bounds(d@),
    ensures
        contents is None ==> r@.len() == 0,
        contents matches Some(d) ==> string_views(r@) == pe_imports(d@),
{
    match contents {
        None => Vec::new(),
        Some(d) => parse_pe_imports(d),
    }
}

} // verus!
