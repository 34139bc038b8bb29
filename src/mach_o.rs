//! Acceptance of Mach-O files, the executable format of iPhone OS. Only
//! 32-bit little-endian ARM executables that are not encrypted are accepted.
//!
//! This module reads the Mach-O header (magic number, CPU type, command
//! count) in the byte order that the magic number announces, hands each load
//! command in turn to mach_object's parser in that same order, and decides
//! from the result whether the image can be run. Universal binaries are not
//! supported and archives are not executables: both are refused by their
//! magic number, without being parsed.

use byteorder::{BigEndian, LittleEndian};
use mach_object::{LoadCommand, MachHeader};
use vstd::prelude::*;

verus! {

/// `CPU_TYPE_ARM` of `<mach/machine.h>`.
pub const CPU_TYPE_ARM: u32 = 12;

/// An accepted executable.
#[derive(Debug, PartialEq, Eq, Structural)]
pub struct MachO {}

/// What kind of object file a parse found, with the header fields that
/// acceptance looks at.
#[derive(Clone, Copy, Debug, PartialEq, Eq, Structural)]
pub enum FileKind {
    /// A single-architecture Mach-O file.
    MachFile { cputype: u32, big_endian: bool, is_64bit: bool },
    /// A universal ("fat") binary holding several architectures.
    FatFile,
    /// An archive or a symbol definition table.
    Other,
}

/// A load command, as far as acceptance looks at it.
#[derive(Clone, Copy, Debug, PartialEq, Eq, Structural)]
pub enum LoadCommandInfo {
    /// `LC_ENCRYPTION_INFO`; `id` 0 means not encrypted.
    EncryptionInfo { id: u32 },
    Other,
}

/// Why an image is refused.
#[derive(Clone, Copy, Debug, PartialEq, Eq, Structural)]
pub enum LoadError {
    /// The bytes are not an object file.
    ParseFailed,
    /// Universal binaries are not supported.
    FatBinary,
    /// An archive or symbol table, not an executable.
    NotExecutable,
    /// The executable is not for an ARM CPU.
    NotArm,
    /// The executable is not little-endian.
    BigEndian,
    /// The executable is not 32-bit.
    Not32Bit,
    /// The executable is encrypted.
    Encrypted,
    /// A load command's string offset or count lies outside what its command
    /// and the file can hold.
    MalformedLoadCommand,
}

/// Load commands whose first field after `cmdsize` is a string offset or a
/// count.
pub const LC_LOADFVMLIB: u32 = 0x6;
pub const LC_IDFVMLIB: u32 = 0x7;
pub const LC_LOAD_DYLIB: u32 = 0xc;
pub const LC_ID_DYLIB: u32 = 0xd;
pub const LC_LOAD_DYLINKER: u32 = 0xe;
pub const LC_ID_DYLINKER: u32 = 0xf;
pub const LC_SUB_FRAMEWORK: u32 = 0x12;
pub const LC_SUB_UMBRELLA: u32 = 0x13;
pub const LC_SUB_CLIENT: u32 = 0x14;
pub const LC_SUB_LIBRARY: u32 = 0x15;
pub const LC_LOAD_WEAK_DYLIB: u32 = 0x8000_0018;
pub const LC_RPATH: u32 = 0x8000_001c;
pub const LC_REEXPORT_DYLIB: u32 = 0x8000_001f;
pub const LC_LAZY_LOAD_DYLIB: u32 = 0x20;
pub const LC_LOAD_UPWARD_DYLIB: u32 = 0x8000_0023;
pub const LC_DYLD_ENVIRONMENT: u32 = 0x27;
pub const LC_LINKER_OPTION: u32 = 0x2d;

/// `LC_ENCRYPTION_INFO`: offset, size and encryption system of the
/// encrypted range.
pub const LC_ENCRYPTION_INFO: u32 = 0x21;

/// Size of a 32-bit Mach-O header; the load commands follow it.
pub const HEADER_SIZE: usize = 28;

/// Offset of the load commands of a 64-bit Mach-O image (a reserved word
/// follows the header's fields; it is skipped even where the file ends).
pub const HEADER_SIZE_64: usize = 32;

/// The 32-bit word at `p`, in big-endian order if `big`, else little-endian.
pub open spec fn word_at(b: Seq<u8>, p: int, big: bool) -> int {
    if big {
        b[p] as int * 16777216 + b[p + 1] as int * 65536 + b[p + 2] as int * 256 + b[p + 3] as int
    } else {
        b[p] as int + b[p + 1] as int * 256 + b[p + 2] as int * 65536 + b[p + 3] as int * 16777216
    }
}

/// The first field of command `cmd` (of `size` bytes, in a file of `len`
/// bytes) is in range: a string offset lies within its command and after the
/// command's fixed part, and a count of strings is no larger than the file.
pub open spec fn field_in_range(cmd: int, field: int, size: int, len: int) -> bool {
    if cmd == LC_RPATH as int {
        field <= size
    } else if cmd == LC_ID_DYLINKER as int || cmd == LC_LOAD_DYLINKER as int || cmd == LC_DYLD_ENVIRONMENT as int
        || cmd == LC_SUB_FRAMEWORK as int || cmd == LC_SUB_UMBRELLA as int || cmd == LC_SUB_CLIENT as int || cmd
        == LC_SUB_LIBRARY as int {
        field >= 12
    } else if cmd == LC_IDFVMLIB as int || cmd == LC_LOADFVMLIB as int {
        field >= 20
    } else if cmd == LC_ID_DYLIB as int || cmd == LC_LOAD_DYLIB as int || cmd == LC_LOAD_WEAK_DYLIB as int || cmd
        == LC_REEXPORT_DYLIB as int || cmd == LC_LOAD_UPWARD_DYLIB as int || cmd == LC_LAZY_LOAD_DYLIB as int {
        field >= 24
    } else if cmd == LC_LINKER_OPTION as int {
        field <= len
    } else {
        true
    }
}

/// The first four bytes of `b` are `m0 m1 m2 m3`.
pub open spec fn has_magic(b: Seq<u8>, m0: u8, m1: u8, m2: u8, m3: u8) -> bool {
    b.len() >= 4 && b[0] == m0 && b[1] == m1 && b[2] == m2 && b[3] == m3
}

/// A universal binary's magic number, 32- or 64-bit, in either byte order.
pub open spec fn is_fat(b: Seq<u8>) -> bool {
    has_magic(b, 0xca, 0xfe, 0xba, 0xbe) || has_magic(b, 0xbe, 0xba, 0xfe, 0xca) || has_magic(
        b,
        0xca,
        0xfe,
        0xba,
        0xbf,
    ) || has_magic(b, 0xbf, 0xba, 0xfe, 0xca)
}

/// An archive: `b` starts with `!<arch>` and a newline.
pub open spec fn is_archive(b: Seq<u8>) -> bool {
    b.len() >= 8 && b[0] == 0x21 && b[1] == 0x3c && b[2] == 0x61 && b[3] == 0x72 && b[4] == 0x63
        && b[5] == 0x68 && b[6] == 0x3e && b[7] == 0x0a
}

fn word(b: &[u8], p: usize, big: bool) -> (r: u64)
    requires
        p + 4 <= b@.len(),
    ensures
        r == word_at(b@, p as int, big),
{
    if big {
        b[p] as u64 * 16777216 + b[p + 1] as u64 * 65536 + b[p + 2] as u64 * 256 + b[p + 3] as u64
    } else {
        b[p] as u64 + b[p + 1] as u64 * 256 + b[p + 2] as u64 * 65536 + b[p + 3] as u64 * 16777216
    }
}

fn field_ok(cmd: u64, field: u64, size: u64, len: u64) -> (r: bool)
    ensures
        r == field_in_range(cmd as int, field as int, size as int, len as int),
{
    if cmd == LC_RPATH as u64 {
        field <= size
    } else if cmd == LC_ID_DYLINKER as u64 || cmd == LC_LOAD_DYLINKER as u64 || cmd
        == LC_DYLD_ENVIRONMENT as u64 || cmd == LC_SUB_FRAMEWORK as u64 || cmd
        == LC_SUB_UMBRELLA as u64 || cmd == LC_SUB_CLIENT as u64 || cmd == LC_SUB_LIBRARY as u64 {
        field >= 12
    } else if cmd == LC_IDFVMLIB as u64 || cmd == LC_LOADFVMLIB as u64 {
        field >= 20
    } else if cmd == LC_ID_DYLIB as u64 || cmd == LC_LOAD_DYLIB as u64 || cmd
        == LC_LOAD_WEAK_DYLIB as u64 || cmd == LC_REEXPORT_DYLIB as u64 || cmd
        == LC_LOAD_UPWARD_DYLIB as u64 || cmd == LC_LAZY_LOAD_DYLIB as u64 {
        field >= 24
    } else if cmd == LC_LINKER_OPTION as u64 {
        field <= len
    } else {
        true
    }
}

/// The byte order and word size that the magic number of a single-architecture
/// Mach-O image announces: `Some((big_endian, wide))`.
pub open spec fn mach_magic(b: Seq<u8>) -> Option<(bool, bool)> {
    if has_magic(b, 0xce, 0xfa, 0xed, 0xfe) {
        Some((false, false))
    } else if has_magic(b, 0xfe, 0xed, 0xfa, 0xce) {
        Some((true, false))
    } else if has_magic(b, 0xcf, 0xfa, 0xed, 0xfe) {
        Some((false, true))
    } else if has_magic(b, 0xfe, 0xed, 0xfa, 0xcf) {
        Some((true, true))
    } else {
        None
    }
}

/// Before the parse of the command at `p`: its first field is in range, or
/// the parse stops with an error before it uses that field.
pub open spec fn command_guard(b: Seq<u8>, p: int, big: bool) -> bool {
    p + 12 > b.len() || field_in_range(
        word_at(b, p, big),
        word_at(b, p + 8, big),
        word_at(b, p + 4, big),
        b.len() as int,
    )
}

/// Whether mach_object's `LoadCommand::parse` succeeds on the command at `p`
/// of `b`, read in the given byte order, for a file of CPU type `cputype`.
pub uninterp spec fn parses_command(b: Seq<u8>, p: int, cputype: u32, big: bool) -> bool;

/// The command at `p`, as far as acceptance looks at it.
pub open spec fn info_at(b: Seq<u8>, p: int, big: bool) -> LoadCommandInfo {
    if word_at(b, p, big) == LC_ENCRYPTION_INFO as int {
        LoadCommandInfo::EncryptionInfo { id: word_at(b, p + 16, big) as u32 }
    } else {
        LoadCommandInfo::Other
    }
}

/// The `k` load commands from offset `p`, parsed in turn as the loader does,
/// or the error of the first that cannot be parsed.
pub open spec fn walk(b: Seq<u8>, p: int, k: nat, cputype: u32, big: bool) -> Result<
    Seq<LoadCommandInfo>,
    LoadError,
>
    decreases k,
{
    if k == 0 {
        Ok(Seq::empty())
    } else if p + 8 > b.len() {
        Err(LoadError::ParseFailed)
    } else if !command_guard(b, p, big) {
        Err(LoadError::MalformedLoadCommand)
    } else if !parses_command(b, p, cputype, big) {
        Err(LoadError::ParseFailed)
    } else {
        match walk(b, p + word_at(b, p + 4, big), (k - 1) as nat, cputype, big) {
            Ok(rest) => Ok(seq![info_at(b, p, big)] + rest),
            Err(e) => Err(e),
        }
    }
}

/// The outcome of loading the image `b`: a single-architecture Mach-O image
/// has its header read and every load command parsed, then the rules of
/// `verdict` apply. Universal binaries and archives are refused by their
/// magic number without being parsed.
pub open spec fn load_verdict(b: Seq<u8>) -> Result<(), LoadError> {
    match mach_magic(b) {
        Some((big, wide)) => {
            let header = if wide {
                HEADER_SIZE_64
            } else {
                HEADER_SIZE
            };
            if b.len() < HEADER_SIZE {
                Err(LoadError::ParseFailed)
            } else {
                let cputype = word_at(b, 4, big) as u32;
                match walk(b, header as int, word_at(b, 16, big) as nat, cputype, big) {
                    Err(e) => Err(e),
                    Ok(commands) => verdict(
                        FileKind::MachFile {
                            cputype,
                            big_endian: big,
                            is_64bit: cputype / 0x100_0000 == 1,
                        },
                        commands,
                    ),
                }
            }
        },
        None => if is_fat(b) {
            Err(LoadError::FatBinary)
        } else if is_archive(b) {
            Err(LoadError::NotExecutable)
        } else {
            Err(LoadError::ParseFailed)
        },
    }
}

/// Relies on mach_object::LoadCommand::parse: parses the load command at
/// `pos` in the given byte order and returns it with its `cmdsize`. Its
/// source refuses a `cmdsize` under 8 or past the end of the file, reads an
/// `LC_ENCRYPTION_INFO` as offset, size and id, and uses the header only for
/// its CPU type. Its string offsets are subtracted unchecked, so the command
/// must pass `command_guard`.
#[verifier::external_body]
fn parse_command(b: &[u8], pos: usize, cputype: u32, big: bool) -> (r: Option<(LoadCommandInfo, usize)>)
    requires
        pos + 8 <= b@.len(),
        command_guard(b@, pos as int, big),
    ensures
        r is Some == parses_command(b@, pos as int, cputype, big),
        r matches Some((info, n)) ==> {
            &&& n as int == word_at(b@, pos + 4, big)
            &&& 8 <= n && pos + n <= b@.len()
            &&& info == info_at(b@, pos as int, big)
        },
{
    let header = MachHeader { cputype: cputype as i32, ..MachHeader::default() };
    let mut cur = std::io::Cursor::new(b);
    cur.set_position(pos as u64);
    let parsed = if big {
        LoadCommand::parse::<BigEndian, _>(&header, &mut cur)
    } else {
        LoadCommand::parse::<LittleEndian, _>(&header, &mut cur)
    };
    let (cmd, n) = parsed.ok()?;
    Some((match cmd {
        LoadCommand::EncryptionInfo { id, .. } => LoadCommandInfo::EncryptionInfo { id },
        _ => LoadCommandInfo::Other,
    }, n))
}

fn magic_is(b: &[u8], m0: u8, m1: u8, m2: u8, m3: u8) -> (r: bool)
    ensures
        r == has_magic(b@, m0, m1, m2, m3),
{
    b.len() >= 4 && b[0] == m0 && b[1] == m1 && b[2] == m2 && b[3] == m3
}

/// The command is an encryption record with a non-zero system.
pub open spec fn is_encrypted(c: LoadCommandInfo) -> bool {
    match c {
        LoadCommandInfo::EncryptionInfo { id } => id != 0,
        LoadCommandInfo::Other => false,
    }
}

/// The verdict on an image of kind `kind` whose load commands are
/// `commands`: the first rule broken, in the order kind, CPU, byte order,
/// word size, encryption.
pub open spec fn verdict(kind: FileKind, commands: Seq<LoadCommandInfo>) -> Result<(), LoadError> {
    match kind {
        FileKind::FatFile => Err(LoadError::FatBinary),
        FileKind::Other => Err(LoadError::NotExecutable),
        FileKind::MachFile { cputype, big_endian, is_64bit } => if cputype != CPU_TYPE_ARM {
            Err(LoadError::NotArm)
        } else if big_endian {
            Err(LoadError::BigEndian)
        } else if is_64bit {
            Err(LoadError::Not32Bit)
        } else if exists|i: int| 0 <= i < commands.len() && is_encrypted(#[trigger] commands[i]) {
            Err(LoadError::Encrypted)
        } else {
            Ok(())
        },
    }
}

impl MachO {
    /// Decide whether an image with the given kind and load commands can be
    /// run.
    pub fn check_image(kind: FileKind, commands: &Vec<LoadCommandInfo>) -> (r: Result<MachO, LoadError>)
        ensures
            match verdict(kind, commands@) {
                Ok(()) => r == Ok::<MachO, LoadError>(MachO {}),
                Err(e) => r == Err::<MachO, LoadError>(e),
            },
    {
        match kind {
            FileKind::FatFile => return Err(LoadError::FatBinary),
            FileKind::Other => return Err(LoadError::NotExecutable),
            FileKind::MachFile { cputype, big_endian, is_64bit } => {
                if cputype != CPU_TYPE_ARM {
                    return Err(LoadError::NotArm);
                }
                if big_endian {
                    return Err(LoadError::BigEndian);
                }
                if is_64bit {
                    return Err(LoadError::Not32Bit);
                }
            },
        }
        let mut i: usize = 0;
        while i < commands.len()
            invariant
                0 <= i <= commands@.len(),
                kind == (FileKind::MachFile { cputype: CPU_TYPE_ARM, big_endian: false, is_64bit: false }),
                forall|j: int| 0 <= j < i ==> !is_encrypted(#[trigger] commands@[j]),
            decreases commands@.len() - i,
        {
            match commands[i] {
                LoadCommandInfo::EncryptionInfo { id } => {
                    if id != 0 {
                        assert(is_encrypted(commands@[i as int]));
                        return Err(LoadError::Encrypted);
                    }
                },
                LoadCommandInfo::Other => {},
            }
            i = i + 1;
        }
        Ok(MachO {})
    }

    /// Read an executable image and decide whether it can be run.
    pub fn from_bytes(bytes: &[u8]) -> (r: Result<MachO, LoadError>)
        ensures
            match load_verdict(bytes@) {
                Ok(()) => r == Ok::<MachO, LoadError>(MachO {}),
                Err(e) => r == Err::<MachO, LoadError>(e),
            },
    {
        let (big, wide) = if magic_is(bytes, 0xce, 0xfa, 0xed, 0xfe) {
            (false, false)
        } else if magic_is(bytes, 0xfe, 0xed, 0xfa, 0xce) {
            (true, false)
        } else if magic_is(bytes, 0xcf, 0xfa, 0xed, 0xfe) {
            (false, true)
        } else if magic_is(bytes, 0xfe, 0xed, 0xfa, 0xcf) {
            (true, true)
        } else if magic_is(bytes, 0xca, 0xfe, 0xba, 0xbe) || magic_is(bytes, 0xbe, 0xba, 0xfe, 0xca)
            || magic_is(bytes, 0xca, 0xfe, 0xba, 0xbf) || magic_is(bytes, 0xbf, 0xba, 0xfe, 0xca) {
            return Err(LoadError::FatBinary);
        } else if bytes.len() >= 8 && bytes[0] == 0x21 && bytes[1] == 0x3c && bytes[2] == 0x61
            && bytes[3] == 0x72 && bytes[4] == 0x63 && bytes[5] == 0x68 && bytes[6] == 0x3e
            && bytes[7] == 0x0a {
            return Err(LoadError::NotExecutable);
        } else {
            return Err(LoadError::ParseFailed);
        };
        let header = if wide {
            HEADER_SIZE_64
        } else {
            HEADER_SIZE
        };
        if bytes.len() < HEADER_SIZE {
            return Err(LoadError::ParseFailed);
        }
        let cputype = word(bytes, 4, big) as u32;
        let ncmds = word(bytes, 16, big);
        let ghost total = walk(bytes@, header as int, ncmds as nat, cputype, big);
        let mut commands: Vec<LoadCommandInfo> = Vec::new();
        let mut p: usize = header;
        let mut k: u64 = ncmds;
        while k > 0
            invariant
                p <= bytes@.len() || p == HEADER_SIZE_64,
                load_verdict(bytes@) == match total {
                    Err(e) => Err(e),
                    Ok(cmds) => verdict(
                        FileKind::MachFile { cputype, big_endian: big, is_64bit: cputype / 0x100_0000 == 1 },
                        cmds,
                    ),
                },
                total == match walk(bytes@, p as int, k as nat, cputype, big) {
                    Ok(rest) => Ok(commands@ + rest),
                    Err(e) => Err(e),
                },
            decreases k,
        {
            if p > bytes.len() || bytes.len() - p < 8 {
                return Err(LoadError::ParseFailed);
            }
            if bytes.len() - p >= 12 {
                let field = word(bytes, p + 8, big);
                if !field_ok(word(bytes, p, big), field, word(bytes, p + 4, big), bytes.len() as u64) {
                    return Err(LoadError::MalformedLoadCommand);
                }
            }
            match parse_command(bytes, p, cputype, big) {
                None => return Err(LoadError::ParseFailed),
                Some((info, n)) => {
                    proof {
                        match walk(bytes@, p + n, (k - 1) as nat, cputype, big) {
                            Ok(rest) => {
                                assert(commands@ + (seq![info] + rest) =~= commands@.push(info) + rest);
                            },
                            Err(_) => {},
                        }
                    }
                    commands.push(info);
                    p = p + n;
                    k = k - 1;
                },
            }
        }
        let kind = FileKind::MachFile { cputype, big_endian: big, is_64bit: cputype / 0x100_0000 == 1 };
        MachO::check_image(kind, &commands)
    }
}

} // verus!
