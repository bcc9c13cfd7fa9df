use creamlinux::pe::{
    get_pe_imports, import_names_in_bounds, is_64bit_image, is_pe_header, parse_pe_imports,
    read_u16_le, read_u32_le,
};

fn put_u16(buf: &mut [u8], off: usize, v: u16) {
    buf[off..off + 2].copy_from_slice(&v.to_le_bytes());
}

fn put_u32(buf: &mut [u8], off: usize, v: u32) {
    buf[off..off + 4].copy_from_slice(&v.to_le_bytes());
}

/// A PE32 image with one section (RVA 0x1000 at file offset 0x200) and an
/// import directory at RVA 0x1000 listing the given name RVAs.
fn image(machine: u16, magic: u16, name_rvas: &[u32], names: &[(usize, &[u8])]) -> Vec<u8> {
    let mut b = vec![0u8; 0x400];
    b[0] = b'M';
    b[1] = b'Z';
    put_u32(&mut b, 0x3C, 0x40);
    b[0x40..0x44].copy_from_slice(b"PE\0\0");
    let coff = 0x44;
    put_u16(&mut b, coff, machine);
    put_u16(&mut b, coff + 2, 1);
    put_u16(&mut b, coff + 16, 0xF0);
    let opt = coff + 20;
    put_u16(&mut b, opt, magic);
    let dir = if magic == 0x20B { opt + 120 } else { opt + 104 };
    put_u32(&mut b, dir, 0x1000);
    put_u32(&mut b, dir + 4, 0x100);
    let sec = opt + 0xF0;
    put_u32(&mut b, sec + 12, 0x1000);
    put_u32(&mut b, sec + 16, 0x300);
    put_u32(&mut b, sec + 20, 0x100);
    for (i, rva) in name_rvas.iter().enumerate() {
        put_u32(&mut b, 0x100 + 20 * i + 12, *rva);
    }
    for (off, bytes) in names {
        b[*off..*off + bytes.len()].copy_from_slice(bytes);
    }
    b
}

#[test]
fn little_endian_reads() {
    let d = [0x34u8, 0x12, 0x78, 0x56];
    assert_eq!(read_u16_le(&d, 0), 0x1234);
    assert_eq!(read_u32_le(&d, 0), 0x5678_1234);
}

#[test]
fn imports_are_listed_in_order_trimmed_and_lowercased() {
    let d = image(
        0x14C,
        0x10B,
        &[0x1200, 0x1210],
        &[(0x300, b"KERNEL32.dll\0"), (0x310, b"  VERSION.DLL \t\0")],
    );
    assert!(import_names_in_bounds(&d));
    assert_eq!(parse_pe_imports(&d), vec!["kernel32.dll".to_string(), "version.dll".to_string()]);
}

#[test]
fn pe32_plus_uses_its_own_directory_offset() {
    let d = image(0x8664, 0x20B, &[0x1200], &[(0x300, b"WinMM.dll\0")]);
    assert_eq!(parse_pe_imports(&d), vec!["winmm.dll".to_string()]);
}

#[test]
fn names_that_are_empty_blank_or_not_utf8_are_skipped() {
    let d = image(
        0x14C,
        0x10B,
        &[0x1200, 0x1210, 0x1220, 0x1230],
        &[(0x300, b"\0"), (0x310, b"   \0"), (0x320, b"\xff\xfe.dll\0"), (0x330, b"hid.dll\0")],
    );
    assert_eq!(parse_pe_imports(&d), vec!["hid.dll".to_string()]);
}

#[test]
fn name_outside_every_section_is_skipped() {
    let d = image(0x14C, 0x10B, &[0x9000, 0x1200], &[(0x300, b"dxgi.dll\0")]);
    assert_eq!(parse_pe_imports(&d), vec!["dxgi.dll".to_string()]);
}

#[test]
fn name_running_to_end_of_file_is_read_to_the_end() {
    let mut d = image(0x14C, 0x10B, &[0x12F8], &[]);
    d[0x3F8..0x400].copy_from_slice(b"d3d9.dll");
    assert_eq!(parse_pe_imports(&d), vec!["d3d9.dll".to_string()]);
}

#[test]
fn name_past_end_of_file_is_out_of_bounds() {
    let mut d = image(0x14C, 0x10B, &[0x1200], &[]);
    // the section now maps RVA 0x1000 to file offset 0x100, and the name RVA
    // 0x1200 to 0x300; moving the section's data far out puts it past the end
    put_u32(&mut d, 0x44 + 20 + 0xF0 + 16, 0x100000);
    put_u32(&mut d, 0x44 + 20 + 0xF0 + 20, 0x100);
    put_u32(&mut d, 0x100 + 12, 0x50000);
    assert!(!import_names_in_bounds(&d));
    let ok = image(0x14C, 0x10B, &[0x1200], &[(0x300, b"a.dll\0")]);
    assert!(import_names_in_bounds(&ok));
}

#[test]
fn files_that_are_not_pe_images_import_nothing() {
    assert_eq!(parse_pe_imports(b""), Vec::<String>::new());
    assert_eq!(parse_pe_imports(&[0u8; 0x100]), Vec::<String>::new());
    let mut d = image(0x14C, 0x10B, &[0x1200], &[(0x300, b"a.dll\0")]);
    d[0x42] = b'X';
    assert_eq!(parse_pe_imports(&d), Vec::<String>::new());
    let short = &image(0x14C, 0x10B, &[0x1200], &[(0x300, b"a.dll\0")])[..0x3F];
    assert_eq!(parse_pe_imports(short), Vec::<String>::new());
}

#[test]
fn zero_import_directory_gives_nothing() {
    let mut d = image(0x14C, 0x10B, &[0x1200], &[(0x300, b"a.dll\0")]);
    put_u32(&mut d, 0x44 + 20 + 104 + 4, 0);
    assert_eq!(parse_pe_imports(&d), Vec::<String>::new());
}

#[test]
fn unreadable_file_imports_nothing() {
    assert_eq!(get_pe_imports(None), Vec::<String>::new());
    let d = image(0x14C, 0x10B, &[0x1200], &[(0x300, b"Dwmapi.DLL\0")]);
    assert_eq!(get_pe_imports(Some(&d)), vec!["dwmapi.dll".to_string()]);
}

#[test]
fn machine_type_decides_bitness() {
    assert!(!is_64bit_image(&image(0x14C, 0x10B, &[], &[])));
    assert!(is_64bit_image(&image(0x8664, 0x20B, &[], &[])));
    assert!(is_64bit_image(&image(0x1C4, 0x10B, &[], &[])));
}

#[test]
fn unreadable_header_counts_as_64bit() {
    assert!(is_64bit_image(b""));
    assert!(is_64bit_image(b"MZ"));
    let mut d = image(0x14C, 0x10B, &[], &[]);
    put_u32(&mut d, 0x3C, 0x3FC);
    assert!(is_64bit_image(&d));
    let mut d = image(0x14C, 0x10B, &[], &[]);
    d[0] = b'Z';
    assert!(is_64bit_image(&d));
}

#[test]
fn mz_magic_marks_pe_files() {
    assert!(is_pe_header(b"MZ"));
    assert!(is_pe_header(b"MZ\x90\x00"));
    assert!(!is_pe_header(b"M"));
    assert!(!is_pe_header(b""));
    assert!(!is_pe_header(b"ZM"));
}

#[test]
fn names_are_few_nonempty_and_free_of_nul() {
    let d = image(
        0x14C,
        0x10B,
        &[0x1200, 0x1210, 0x1220],
        &[(0x300, b"A.DLL\0"), (0x310, b" \0"), (0x320, b"b.dll\0")],
    );
    let v = parse_pe_imports(&d);
    assert!(20 * v.len() <= d.len());
    for s in &v {
        assert!(!s.is_empty());
        assert_eq!(s.trim(), s);
        assert!(!s.contains('\0'));
    }
    assert_eq!(v, vec!["a.dll".to_string(), "b.dll".to_string()]);
}
