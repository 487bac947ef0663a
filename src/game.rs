//! The target application: its CPU architecture and engine backend, as the
//! resolver needs them.
use vstd::prelude::*;
use crate::version::Version;

verus! {

/// The CPU architecture of a target application.
#[derive(Debug, Clone, Copy, PartialEq, Eq, Structural)]
pub enum GameArch {
    X64,
    X86,
}

/// The engine backend of a target application: managed (Mono) or natively
/// compiled (IL2CPP).
#[derive(Debug, Clone, Copy, PartialEq, Eq, Structural, PartialOrd, Ord)]
pub enum GameType {
    UnityMono,
    UnityIL2CPP,
}

pub open spec fn arch_token(a: GameArch) -> Seq<char> {
    match a {
        GameArch::X64 => seq!['x', '6', '4'],
        GameArch::X86 => seq!['x', '8', '6'],
    }
}

/// The backend's display token, with its internal dot.
pub open spec fn type_token(t: GameType) -> Seq<char> {
    match t {
        GameType::UnityMono => seq!['U', 'n', 'i', 't', 'y', '.', 'M', 'o', 'n', 'o'],
        GameType::UnityIL2CPP => seq!['U', 'n', 'i', 't', 'y', '.', 'I', 'L', '2', 'C', 'P', 'P'],
    }
}

/// `s` with every `.` removed.
pub open spec fn without_dots(s: Seq<char>) -> Seq<char>
    decreases s.len(),
{
    if s.len() == 0 {
        s
    } else if s.last() == '.' {
        without_dots(s.drop_last())
    } else {
        without_dots(s.drop_last()).push(s.last())
    }
}

/// The backend token as artifact file names carry it: the display token with
/// its dots removed.
pub open spec fn collapsed_type_token(t: GameType) -> Seq<char> {
    without_dots(type_token(t))
}

/// The first `len` bytes from `at`, read little-endian.
pub open spec fn le_value(b: Seq<u8>, at: int, len: nat) -> int
    decreases len,
{
    if len == 0 {
        0
    } else {
        b[at] + 256 * le_value(b, at + 1, (len - 1) as nat)
    }
}

/// The architecture that a PE image's machine field names: the offset of the
/// PE header is the signed 32-bit value at byte 60, the machine field follows
/// the 4-byte signature. `None` where the image is too short for either.
pub open spec fn image_arch(b: Seq<u8>) -> Option<GameArch> {
    if b.len() < 64 {
        None
    } else {
        let start = le_value(b, 60, 4);
        if start >= 0x8000_0000 || start + 6 > b.len() {
            None
        } else if le_value(b, start + 4, 2) == 0x8664 {
            Some(GameArch::X64)
        } else {
            Some(GameArch::X86)
        }
    }
}

impl GameArch {
    /// `x64` or `x86`.
    pub fn to_string(&self) -> (r: String)
        ensures
            r@ == arch_token(*self),
    {
        match self {
            GameArch::X64 => {
                let s = "x64";
                proof {
                    reveal_strlit("x64");
                }
                let r = String::from_str(s);
                assert(r@ =~= arch_token(*self));
                r
            },
            GameArch::X86 => {
                let s = "x86";
                proof {
                    reveal_strlit("x86");
                }
                let r = String::from_str(s);
                assert(r@ =~= arch_token(*self));
                r
            },
        }
    }

    /// The architecture named by the machine field of a PE image's header.
    pub fn from_image(bytes: &Vec<u8>) -> (r: Option<GameArch>)
        ensures
            r == image_arch(bytes@),
    {
        if bytes.len() < 64 {
            return None;
        }
        let start: u64 = bytes[60] as u64 + 256 * (bytes[61] as u64 + 256 * (bytes[62] as u64
            + 256 * (bytes[63] as u64)));
        assert(start == le_value(bytes@, 60, 4)) by {
            reveal_with_fuel(le_value, 5);
        }
        if start >= 0x8000_0000 || start + 6 > bytes.len() as u64 {
            return None;
        }
        let at = start as usize;
        let machine: u64 = bytes[at + 4] as u64 + 256 * (bytes[at + 5] as u64);
        assert(machine == le_value(bytes@, start + 4, 2)) by {
            reveal_with_fuel(le_value, 3);
        }
        if machine == 0x8664 {
            Some(GameArch::X64)
        } else {
            Some(GameArch::X86)
        }
    }
}

impl GameType {
    /// `Unity.Mono` or `Unity.IL2CPP`.
    pub fn to_string(&self) -> (r: String)
        ensures
            r@ == type_token(*self),
    {
        match self {
            GameType::UnityMono => {
                let s = "Unity.Mono";
                proof {
                    reveal_strlit("Unity.Mono");
                }
                let r = String::from_str(s);
                assert(r@ =~= type_token(*self));
                r
            },
            GameType::UnityIL2CPP => {
                let s = "Unity.IL2CPP";
                proof {
                    reveal_strlit("Unity.IL2CPP");
                }
                let r = String::from_str(s);
                assert(r@ =~= type_token(*self));
                r
            },
        }
    }

    /// The display token with its dots removed, as artifact names carry it.
    pub fn file_token(&self) -> (r: String)
        ensures
            r@ == collapsed_type_token(*self),
    {
        let shown = crate::text::chars_of(self.to_string().as_str());
        let mut out: Vec<char> = Vec::new();
        let mut i: usize = 0;
        while i < shown.len()
            invariant
                i <= shown@.len(),
                shown@ == type_token(*self),
                out@ == without_dots(shown@.subrange(0, i as int)),
            decreases shown.len() - i,
        {
            assert(shown@.subrange(0, i + 1).drop_last() =~= shown@.subrange(0, i as int));
            if shown[i] != '.' {
                out.push(shown[i]);
            }
            i = i + 1;
        }
        assert(shown@.subrange(0, shown@.len() as int) =~= shown@);
        crate::text::string_of(&out)
    }

    /// The backend that a game's data directory shows: a `Managed` directory
    /// means Mono, else an `il2cpp_data` directory means IL2CPP.
    pub fn from_data_dir(has_managed: bool, has_il2cpp_data: bool) -> (r: Option<GameType>)
        ensures
            has_managed ==> r == Some(GameType::UnityMono),
            !has_managed && has_il2cpp_data ==> r == Some(GameType::UnityIL2CPP),
            !has_managed && !has_il2cpp_data ==> r is None,
    {
        if has_managed {
            Some(GameType::UnityMono)
        } else if has_il2cpp_data {
            Some(GameType::UnityIL2CPP)
        } else {
            None
        }
    }
}

/// A target application instance.
#[derive(Debug, Clone, PartialEq, Eq)]
pub struct Game {
    pub name: String,
    pub arch: GameArch,
    pub path: String,
    pub ty: Option<GameType>,
    pub bepinex_version: Option<Version>,
}

impl Game {
    pub fn set_bie(&mut self, bie: Option<Version>)
        ensures
            final(self).bepinex_version == bie,
            final(self).name == old(self).name,
            final(self).arch == old(self).arch,
            final(self).path == old(self).path,
            final(self).ty == old(self).ty,
    {
        self.bepinex_version = bie;
    }

    pub fn set_arch(&mut self, arch: GameArch)
        ensures
            final(self).arch == arch,
            final(self).name == old(self).name,
            final(self).path == old(self).path,
            final(self).ty == old(self).ty,
            final(self).bepinex_version == old(self).bepinex_version,
    {
        self.arch = arch;
    }

    pub fn set_ty(&mut self, ty: Option<GameType>)
        ensures
            final(self).ty == ty,
            final(self).name == old(self).name,
            final(self).arch == old(self).arch,
            final(self).path == old(self).path,
            final(self).bepinex_version == old(self).bepinex_version,
    {
        self.ty = ty;
    }
}

impl Default for Game {
    /// No game selected yet: 64-bit, backend unknown, no framework installed.
    fn default() -> (r: Game)
        ensures
            r.name@ == seq!['N', 'o', 't', ' ', 's', 'e', 'l', 'e', 'c', 't', 'e', 'd'],
            r.arch == GameArch::X64,
            r.path@.len() == 0,
            r.ty is None,
            r.bepinex_version is None,
    {
        let s = "Not selected";
        proof {
            reveal_strlit("Not selected");
        }
        let name = String::from_str(s);
        assert(name@ =~= seq!['N', 'o', 't', ' ', 's', 'e', 'l', 'e', 'c', 't', 'e', 'd']);
        Game { name, arch: GameArch::X64, path: String::new(), ty: None, bepinex_version: None }
    }
}

} // verus!
