use sos2::elf64::{et_to_str, read_u16, read_u32, read_u64, Elf64, ElfError, ProgramHeader, PF_R,
    PF_W, PF_X, PT_LOAD, PT_NOTE};

fn put_u16(b: &mut Vec<u8>, off: usize, v: u16) {
    b[off..off + 2].copy_from_slice(&v.to_le_bytes());
}

fn put_u32(b: &mut Vec<u8>, off: usize, v: u32) {
    b[off..off + 4].copy_from_slice(&v.to_le_bytes());
}

fn put_u64(b: &mut Vec<u8>, off: usize, v: u64) {
    b[off..off + 8].copy_from_slice(&v.to_le_bytes());
}

fn image(headers: &[ProgramHeader], payload: &[u8]) -> Vec<u8> {
    let mut b = vec![0u8; 64 + 56 * headers.len()];
    b[0..4].copy_from_slice(&[0x7f, 0x45, 0x4c, 0x46]);
    b[4] = 2;
    put_u16(&mut b, 16, 2);
    put_u16(&mut b, 18, 0x3e);
    put_u32(&mut b, 20, 1);
    put_u64(&mut b, 24, 0x0400_0080);
    put_u64(&mut b, 32, 64);
    put_u16(&mut b, 52, 64);
    put_u16(&mut b, 54, 56);
    put_u16(&mut b, 56, headers.len() as u16);
    for (i, h) in headers.iter().enumerate() {
        let off = 64 + 56 * i;
        put_u32(&mut b, off, h.p_type);
        put_u32(&mut b, off + 4, h.p_flags);
        put_u64(&mut b, off + 8, h.p_offset);
        put_u64(&mut b, off + 16, h.p_vaddr);
        put_u64(&mut b, off + 24, h.p_paddr);
        put_u64(&mut b, off + 32, h.p_filesz);
        put_u64(&mut b, off + 40, h.p_memsz);
        put_u64(&mut b, off + 48, h.p_align);
    }
    b.extend_from_slice(payload);
    b
}

fn segment(p_type: u32, p_flags: u32, p_offset: u64, p_vaddr: u64, p_filesz: u64, p_memsz: u64) -> ProgramHeader {
    ProgramHeader { p_type, p_flags, p_offset, p_vaddr, p_paddr: p_vaddr, p_filesz, p_memsz, p_align: 0x1000 }
}

#[test]
fn reads_little_endian() {
    let b = [0x01u8, 0x02, 0x03, 0x04, 0x05, 0x06, 0x07, 0x08, 0x09];
    assert_eq!(read_u16(&b, 0), 0x0201);
    assert_eq!(read_u16(&b, 7), 0x0908);
    assert_eq!(read_u32(&b, 1), 0x0504_0302);
    assert_eq!(read_u64(&b, 1), 0x0908_0706_0504_0302);
}

#[test]
fn names_of_types() {
    assert_eq!(et_to_str(0), "NONE");
    assert_eq!(et_to_str(1), "REL");
    assert_eq!(et_to_str(2), "EXEC");
    assert_eq!(et_to_str(3), "DYN");
    assert_eq!(et_to_str(4), "CORE");
    assert_eq!(et_to_str(5), "NUM");
    assert_eq!(et_to_str(6), "UNKNOWN_ET");
    assert_eq!(et_to_str(0xffff), "UNKNOWN_ET");
}

#[test]
fn header_is_read() {
    let b = image(&[segment(PT_LOAD, PF_R | PF_X, 120, 0x0400_0000, 8, 16)], &[1, 2, 3, 4, 5, 6, 7, 8]);
    let elf = Elf64::from(&b).unwrap();
    assert_eq!(elf.header.e_type, 2);
    assert_eq!(elf.header.e_machine, 0x3e);
    assert_eq!(elf.header.e_version, 1);
    assert_eq!(elf.header.e_entry, 0x0400_0080);
    assert_eq!(elf.header.e_phoff, 64);
    assert_eq!(elf.header.e_phentsize, 56);
    assert_eq!(elf.header.e_phnum, 1);
    assert_eq!(elf.data.len(), b.len());
}

#[test]
fn images_are_turned_down() {
    let good = image(&[], &[]);
    assert!(Elf64::from(&good).is_ok());
    assert_eq!(Elf64::from(&good[..63]).unwrap_err(), ElfError::TooShort);
    assert_eq!(Elf64::from(&[]).unwrap_err(), ElfError::TooShort);
    let mut b = good.clone();
    b[1] = 0x46;
    assert_eq!(Elf64::from(&b).unwrap_err(), ElfError::BadMagic);
    let mut b = good.clone();
    b[4] = 1;
    assert_eq!(Elf64::from(&b).unwrap_err(), ElfError::NotClass64);
    let mut b = good.clone();
    b[16] = 3;
    assert_eq!(Elf64::from(&b).unwrap_err(), ElfError::NotExecutable);
    // the first reason counts
    let mut b = good.clone();
    b[0] = 0;
    b[4] = 1;
    b[16] = 3;
    assert_eq!(Elf64::from(&b).unwrap_err(), ElfError::BadMagic);
}

#[test]
fn program_headers_in_order() {
    let hs = [
        segment(PT_NOTE, PF_R, 0, 0, 0, 0),
        segment(PT_LOAD, PF_R | PF_X, 176, 0x0400_0000, 4, 8),
        segment(PT_LOAD, PF_R | PF_W, 180, 0x0400_1000, 2, 2),
    ];
    let b = image(&hs, &[9, 8, 7, 6, 5, 4]);
    let elf = Elf64::from(&b).unwrap();
    let mut it = elf.program_headers();
    assert_eq!(it.next(), Some(hs[0]));
    assert_eq!(it.next(), Some(hs[1]));
    assert_eq!(it.next(), Some(hs[2]));
    assert_eq!(it.next(), None);
    assert_eq!(it.next(), None);
    assert!(!hs[0].is_load());
    assert!(hs[1].is_load() && hs[1].is_executable());
    assert!(hs[2].is_load() && !hs[2].is_executable());
}

#[test]
fn program_headers_end_where_the_image_ends() {
    let hs = [segment(PT_LOAD, PF_R, 0, 0, 0, 0), segment(PT_LOAD, PF_X, 0, 0, 0, 0)];
    let b = image(&hs, &[]);
    let cut = &b[..b.len() - 1];
    let elf = Elf64::from(cut).unwrap();
    let mut it = elf.program_headers();
    assert_eq!(it.next(), Some(hs[0]));
    assert_eq!(it.next(), None);
}

#[test]
fn segment_bytes_then_zeros() {
    let h = segment(PT_LOAD, PF_R | PF_X, 3, 0x0400_0000, 4, 10);
    let data = [0xaau8, 0xbb, 0xcc, 1, 2, 3, 4, 0xdd];
    assert_eq!(h.image(&data), Ok(vec![1, 2, 3, 4, 0, 0, 0, 0, 0, 0]));
    let same = segment(PT_LOAD, PF_R, 0, 0, 8, 8);
    assert_eq!(same.image(&data), Ok(data.to_vec()));
    let empty = segment(PT_LOAD, PF_R, 8, 0, 0, 0);
    assert_eq!(empty.image(&data), Ok(vec![]));
}

#[test]
fn segment_outside_the_image() {
    let data = [0u8; 8];
    assert_eq!(segment(PT_LOAD, PF_R, 5, 0, 4, 4).image(&data), Err(ElfError::BadSegment));
    assert_eq!(segment(PT_LOAD, PF_R, 9, 0, 0, 0).image(&data), Err(ElfError::BadSegment));
    assert_eq!(segment(PT_LOAD, PF_R, 0, 0, 4, 3).image(&data), Err(ElfError::BadSegment));
    assert_eq!(
        segment(PT_LOAD, PF_R, u64::MAX, 0, 4, 4).image(&data),
        Err(ElfError::BadSegment)
    );
}
