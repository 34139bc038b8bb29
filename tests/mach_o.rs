use objc_core::mach_o::{FileKind, LoadCommandInfo, LoadError, MachO, CPU_TYPE_ARM};

fn arm32() -> FileKind {
    FileKind::MachFile { cputype: CPU_TYPE_ARM, big_endian: false, is_64bit: false }
}

fn header(cputype: u32, ncmds: u32) -> Vec<u8> {
    let mut v = Vec::new();
    for word in [0xfeed_face_u32, cputype, 9, 2, ncmds, 0, 0] {
        v.extend_from_slice(&word.to_le_bytes());
    }
    v
}

#[test]
fn arm_executable_is_accepted() {
    let cmds = vec![LoadCommandInfo::Other, LoadCommandInfo::EncryptionInfo { id: 0 }];
    assert_eq!(MachO::check_image(arm32(), &cmds), Ok(MachO {}));
    assert_eq!(MachO::check_image(arm32(), &vec![]), Ok(MachO {}));
}

#[test]
fn each_rule_has_its_error() {
    let none = vec![];
    assert_eq!(MachO::check_image(FileKind::FatFile, &none), Err(LoadError::FatBinary));
    assert_eq!(MachO::check_image(FileKind::Other, &none), Err(LoadError::NotExecutable));
    let x86 = FileKind::MachFile { cputype: 7, big_endian: false, is_64bit: false };
    assert_eq!(MachO::check_image(x86, &none), Err(LoadError::NotArm));
    let big = FileKind::MachFile { cputype: CPU_TYPE_ARM, big_endian: true, is_64bit: false };
    assert_eq!(MachO::check_image(big, &none), Err(LoadError::BigEndian));
    let wide = FileKind::MachFile { cputype: CPU_TYPE_ARM, big_endian: false, is_64bit: true };
    assert_eq!(MachO::check_image(wide, &none), Err(LoadError::Not32Bit));
    let enc = vec![LoadCommandInfo::Other, LoadCommandInfo::EncryptionInfo { id: 1 }];
    assert_eq!(MachO::check_image(arm32(), &enc), Err(LoadError::Encrypted));
}

#[test]
fn first_broken_rule_wins() {
    let enc = vec![LoadCommandInfo::EncryptionInfo { id: 3 }];
    let x86_big = FileKind::MachFile { cputype: 7, big_endian: true, is_64bit: true };
    assert_eq!(MachO::check_image(x86_big, &enc), Err(LoadError::NotArm));
}

#[test]
fn garbage_does_not_parse() {
    assert_eq!(MachO::from_bytes(&[1, 2, 3]), Err(LoadError::ParseFailed));
    assert_eq!(MachO::from_bytes(&[]), Err(LoadError::ParseFailed));
}

#[test]
fn minimal_arm_header_is_accepted() {
    assert_eq!(MachO::from_bytes(&header(12, 0)), Ok(MachO {}));
}

#[test]
fn minimal_x86_header_is_refused() {
    assert_eq!(MachO::from_bytes(&header(7, 0)), Err(LoadError::NotArm));
}

fn with_command(cmd: u32, cmdsize: u32, field: u32) -> Vec<u8> {
    let mut v = header(12, 1);
    for word in [cmd, cmdsize, field] {
        v.extend_from_slice(&word.to_le_bytes());
    }
    v
}

#[test]
fn rpath_offset_past_its_command_is_refused_before_parsing() {
    let image = with_command(0x8000_001c, 12, 100);
    assert_eq!(image.len(), 40);
    assert_eq!(MachO::from_bytes(&image), Err(LoadError::MalformedLoadCommand));
}

#[test]
fn dylib_offset_inside_fixed_part_is_refused_before_parsing() {
    let mut image = with_command(0xc, 24, 8);
    image.extend_from_slice(&[0; 12]);
    assert_eq!(MachO::from_bytes(&image), Err(LoadError::MalformedLoadCommand));
    let mut lcstr = with_command(0xe, 12, 4);
    lcstr.extend_from_slice(&[0; 4]);
    assert_eq!(MachO::from_bytes(&lcstr), Err(LoadError::MalformedLoadCommand));
}

#[test]
fn wide_fat_and_archive_images_are_refused() {
    let mut wide = header(0x0100_000c, 0);
    wide[0] = 0xcf;
    wide.extend_from_slice(&[0; 4]);
    // An arm64 image: its CPU type is not `CPU_TYPE_ARM`.
    assert_eq!(MachO::from_bytes(&wide), Err(LoadError::NotArm));
    assert_eq!(MachO::from_bytes(&[0xca, 0xfe, 0xba, 0xbe, 0, 0, 0, 0]), Err(LoadError::FatBinary));
    assert_eq!(MachO::from_bytes(b"!<arch>\nrest"), Err(LoadError::NotExecutable));
}

#[test]
fn encrypted_image_is_refused() {
    let mut image = with_command(0x21, 20, 0);
    image.extend_from_slice(&0u32.to_le_bytes());
    image.extend_from_slice(&1u32.to_le_bytes());
    assert_eq!(MachO::from_bytes(&image), Err(LoadError::Encrypted));
}

#[test]
fn truncated_arm_header_does_not_parse() {
    let image = header(12, 0);
    assert_eq!(MachO::from_bytes(&image[..20]), Err(LoadError::ParseFailed));
}

#[test]
fn truncated_wide_header_does_not_parse() {
    assert_eq!(MachO::from_bytes(&[0xcf, 0xfa, 0xed, 0xfe]), Err(LoadError::ParseFailed));
}

#[test]
fn wide_x86_header_is_not_arm() {
    let mut image = header(0x0100_0007, 0);
    image[0] = 0xcf;
    image.extend_from_slice(&[0; 4]);
    assert_eq!(image.len(), 32);
    assert_eq!(MachO::from_bytes(&image), Err(LoadError::NotArm));
}

#[test]
fn big_endian_wide_arm_header_is_big_endian() {
    let mut image = Vec::new();
    for word in [0xfeed_facf_u32, 12, 9, 2, 0, 0, 0, 0] {
        image.extend_from_slice(&word.to_be_bytes());
    }
    assert_eq!(MachO::from_bytes(&image), Err(LoadError::BigEndian));
}

#[test]
fn big_endian_arm_header_is_big_endian() {
    let mut image = Vec::new();
    for word in [0xfeed_face_u32, 12, 9, 2, 0, 0, 0] {
        image.extend_from_slice(&word.to_be_bytes());
    }
    assert_eq!(MachO::from_bytes(&image), Err(LoadError::BigEndian));
}

#[test]
fn large_unknown_command_is_accepted() {
    let mut image = with_command(0x7777, 256, 0);
    image.resize(64 * 1024, 0);
    // Read big-endian, the command would look like a dylib command.
    image[28] = 0x0c;
    image[29] = 0;
    image[30] = 0;
    image[31] = 0x77;
    assert_eq!(MachO::from_bytes(&image), Ok(MachO {}));
}
