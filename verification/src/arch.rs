//! Debian architecture names, e.g. `amd64`, `linux-any`, `any`.

use vstd::prelude::*;

use crate::error::Error;
use crate::text::{chars_eq_str, chars_of, slice_chars};

verus! {

/// An architecture: a kernel and a cpu, either of which may be "any".
#[derive(Clone, Copy, Debug, Hash, PartialOrd, Ord, PartialEq, Eq, Structural)]
pub struct Arch {
    kernel: Option<Kernel>,
    cpu: Option<Cpu>,
    boogered: bool,
}

/// Index of the last `c` in `s[..j]`, or -1.
pub open spec fn rfind_before(s: Seq<char>, c: char, j: int) -> int
    decreases j,
{
    if j <= 0 || j > s.len() {
        -1
    } else if s[j - 1] == c {
        j - 1
    } else {
        rfind_before(s, c, j - 1)
    }
}

proof fn lemma_rfind_bounds(s: Seq<char>, c: char, j: int)
    requires
        0 <= j <= s.len(),
    ensures
        -1 <= rfind_before(s, c, j) < j,
        rfind_before(s, c, j) >= 0 ==> s[rfind_before(s, c, j)] == c,
    decreases j,
{
    if j > 0 && s[j - 1] != c {
        lemma_rfind_bounds(s, c, j - 1);
    }
}

/// A kernel part: `any`, or a named kernel.
pub open spec fn kernel_part(s: Seq<char>) -> Option<Option<Kernel>> {
    if s == "any"@ {
        Some(None)
    } else {
        match kernel_named(s) {
            Some(k) => Some(Some(k)),
            None => None,
        }
    }
}

/// A cpu part: `any`, or a named cpu.
pub open spec fn cpu_part(s: Seq<char>) -> Option<Option<Cpu>> {
    if s == "any"@ {
        Some(None)
    } else {
        match cpu_named(s) {
            Some(c) => Some(Some(c)),
            None => None,
        }
    }
}

impl Arch {
    /// The architecture with the given kernel and cpu (`None` for "any").
    pub closed spec fn of(kernel: Option<Kernel>, cpu: Option<Cpu>) -> Arch {
        Arch { kernel, cpu, boogered: false }
    }

    pub closed spec fn spec_kernel(&self) -> Option<Kernel> {
        self.kernel
    }

    pub closed spec fn spec_cpu(&self) -> Option<Cpu> {
        self.cpu
    }

    pub closed spec fn spec_boogered(&self) -> bool {
        self.boogered
    }

    /// The architecture made of a kernel and a cpu has that kernel and
    /// that cpu, is not the marker for a value that could not be understood,
    /// and is made of no other kernel and cpu.
    pub proof fn lemma_of(kernel: Option<Kernel>, cpu: Option<Cpu>)
        ensures
            Arch::of(kernel, cpu).spec_kernel() == kernel,
            Arch::of(kernel, cpu).spec_cpu() == cpu,
            !Arch::of(kernel, cpu).spec_boogered(),
            forall|k: Option<Kernel>, c: Option<Cpu>|
                #[trigger] Arch::of(k, c) == Arch::of(kernel, cpu) ==> k == kernel && c == cpu,
    {
    }

    /// Whether neither kernel nor cpu is fixed.
    pub fn is_any(&self) -> (r: bool)
        ensures
            r == (self.spec_kernel() is None && self.spec_cpu() is None),
    {
        self.kernel.is_none() && self.cpu.is_none()
    }

    /// The marker architecture for a value that could not be understood.
    pub fn boogered() -> (r: Arch)
        ensures
            r.spec_kernel() is None && r.spec_cpu() is None && r.spec_boogered(),
    {
        Arch { kernel: None, cpu: None, boogered: true }
    }

    /// The kernel, if fixed.
    pub fn kernel(&self) -> (r: Option<Kernel>)
        ensures
            r == self.spec_kernel(),
    {
        self.kernel
    }

    /// The cpu, if fixed.
    pub fn cpu(&self) -> (r: Option<Cpu>)
        ensures
            r == self.spec_cpu(),
    {
        self.cpu
    }

    /// Read an architecture name given as characters.
    pub fn parse_chars(s: &[char]) -> (r: Result<Arch, Error>)
        ensures
            match r {
                Ok(a) => arch_named(s@) == Some(a),
                Err(e) => arch_named(s@) is None && e == Error::UnknownArch,
            },
    {
        match parse_arch(s) {
            Some(a) => Ok(a),
            None => Err(Error::UnknownArch),
        }
    }

    /// Read an architecture name.
    pub fn parse(s: &str) -> (r: Result<Arch, Error>)
        ensures
            match r {
                Ok(a) => arch_named(s@) == Some(a),
                Err(e) => arch_named(s@) is None && e == Error::UnknownArch,
            },
    {
        let cs = chars_of(s);
        Arch::parse_chars(cs.as_slice())
    }
}

/// The architecture a name denotes: `any` and `all` denote any kernel and
/// cpu; `kernel-cpu` (split at the last `-`) names both, either as `any`;
/// a name without `-` is a cpu.
pub open spec fn arch_named(s: Seq<char>) -> Option<Arch> {
    if s == "any"@ || s == "all"@ {
        Some(Arch::of(None, None))
    } else {
        let pos = rfind_before(s, '-', s.len() as int);
        if pos >= 0 {
            match (kernel_part(s.subrange(0, pos)), cpu_part(s.subrange(pos + 1, s.len() as int))) {
                (Some(k), Some(c)) => Some(Arch::of(k, c)),
                _ => None,
            }
        } else {
            match cpu_named(s) {
                Some(c) => Some(Arch::of(None, Some(c))),
                None => None,
            }
        }
    }
}

/// What a parsed name gives: `any` and `all` give any kernel and cpu; a
/// name with a `-` gives the kernel and cpu of its two parts (`None` for an
/// `any` part); a name without one gives its cpu and any kernel. No parsed
/// name gives the marker for a value that could not be understood (with
/// `Arch::lemma_of`, the kernel and cpu of each result follow).
pub proof fn lemma_arch_named(s: Seq<char>)
    ensures
        arch_named(s) matches Some(a) ==> !a.spec_boogered(),
        (s == "any"@ || s == "all"@) ==> arch_named(s) == Some(Arch::of(None, None)),
        !(s == "any"@ || s == "all"@) && rfind_before(s, '-', s.len() as int) >= 0 ==> {
            let pos = rfind_before(s, '-', s.len() as int);
            arch_named(s) == match (kernel_part(s.subrange(0, pos)), cpu_part(s.subrange(pos + 1, s.len() as int))) {
                (Some(k), Some(c)) => Some(Arch::of(k, c)),
                _ => None,
            }
        },
        !(s == "any"@ || s == "all"@) && rfind_before(s, '-', s.len() as int) < 0 ==> arch_named(s) == match cpu_named(s) {
            Some(c) => Some(Arch::of(None, Some(c))),
            None => None,
        },
{
}

fn parse_kernel_part(s: &[char]) -> (r: Option<Option<Kernel>>)
    ensures
        r == kernel_part(s@),
{
    if chars_eq_str(s, "any") {
        return Some(None);
    }
    match parse_kernel(s) {
        Some(k) => Some(Some(k)),
        None => None,
    }
}

fn parse_cpu_part(s: &[char]) -> (r: Option<Option<Cpu>>)
    ensures
        r == cpu_part(s@),
{
    if chars_eq_str(s, "any") {
        return Some(None);
    }
    match parse_cpu(s) {
        Some(c) => Some(Some(c)),
        None => None,
    }
}

/// Look up an architecture by name.
pub fn parse_arch(s: &[char]) -> (r: Option<Arch>)
    ensures
        r == arch_named(s@),
{
    if chars_eq_str(s, "any") || chars_eq_str(s, "all") {
        return Some(Arch { kernel: None, cpu: None, boogered: false });
    }
    let mut j = s.len();
    proof {
        lemma_rfind_bounds(s@, '-', s@.len() as int);
    }
    while j > 0 && s[j - 1] != '-'
        invariant
            j <= s@.len(),
            rfind_before(s@, '-', s@.len() as int) == rfind_before(s@, '-', j as int),
        decreases j,
    {
        j = j - 1;
    }
    if j > 0 {
        let pos = j - 1;
        let k = slice_chars(s, 0, pos);
        let c = slice_chars(s, pos + 1, s.len());
        match (parse_kernel_part(k.as_slice()), parse_cpu_part(c.as_slice())) {
            (Some(kk), Some(cc)) => Some(Arch { kernel: kk, cpu: cc, boogered: false }),
            _ => None,
        }
    } else {
        match parse_cpu(s) {
            Some(c) => Some(Arch { kernel: None, cpu: Some(c), boogered: false }),
            None => None,
        }
    }
}

/// An operating system kernel of an architecture name.
#[derive(Clone, Copy, Debug, Hash, PartialOrd, Ord, PartialEq, Eq, Structural)]
pub enum Kernel {
    Aix,
    Darwin,
    DragonflyBsd,
    FreeBsd,
    Hurd,
    KFreeBsd,
    KNetBsd,
    KOpenSolaris,
    Linux,
    Mint,
    MuslLinux,
    NetBsd,
    OpenBsd,
    Solaris,
    UcLibcLinux,
    UcLinux,
}

/// The kernel that a name denotes.
pub open spec fn kernel_named(s: Seq<char>) -> Option<Kernel> {
    if s == "aix"@ {
        Some(Kernel::Aix)
    } else if s == "darwin"@ {
        Some(Kernel::Darwin)
    } else if s == "dragonflybsd"@ {
        Some(Kernel::DragonflyBsd)
    } else if s == "freebsd"@ {
        Some(Kernel::FreeBsd)
    } else if s == "hurd"@ {
        Some(Kernel::Hurd)
    } else if s == "kfreebsd"@ {
        Some(Kernel::KFreeBsd)
    } else if s == "knetbsd"@ {
        Some(Kernel::KNetBsd)
    } else if s == "kopensolaris"@ {
        Some(Kernel::KOpenSolaris)
    } else if s == "linux"@ {
        Some(Kernel::Linux)
    } else if s == "mint"@ {
        Some(Kernel::Mint)
    } else if s == "musl-linux"@ {
        Some(Kernel::MuslLinux)
    } else if s == "netbsd"@ {
        Some(Kernel::NetBsd)
    } else if s == "openbsd"@ {
        Some(Kernel::OpenBsd)
    } else if s == "solaris"@ {
        Some(Kernel::Solaris)
    } else if s == "uclibc-linux"@ {
        Some(Kernel::UcLibcLinux)
    } else if s == "uclinux"@ {
        Some(Kernel::UcLinux)
    } else {
        None
    }
}

/// Look up a kernel by name.
pub fn parse_kernel(s: &[char]) -> (r: Option<Kernel>)
    ensures
        r == kernel_named(s@),
{
    if chars_eq_str(s, "aix") {
        return Some(Kernel::Aix);
    }
    if chars_eq_str(s, "darwin") {
        return Some(Kernel::Darwin);
    }
    if chars_eq_str(s, "dragonflybsd") {
        return Some(Kernel::DragonflyBsd);
    }
    if chars_eq_str(s, "freebsd") {
        return Some(Kernel::FreeBsd);
    }
    if chars_eq_str(s, "hurd") {
        return Some(Kernel::Hurd);
    }
    if chars_eq_str(s, "kfreebsd") {
        return Some(Kernel::KFreeBsd);
    }
    if chars_eq_str(s, "knetbsd") {
        return Some(Kernel::KNetBsd);
    }
    if chars_eq_str(s, "kopensolaris") {
        return Some(Kernel::KOpenSolaris);
    }
    if chars_eq_str(s, "linux") {
        return Some(Kernel::Linux);
    }
    if chars_eq_str(s, "mint") {
        return Some(Kernel::Mint);
    }
    if chars_eq_str(s, "musl-linux") {
        return Some(Kernel::MuslLinux);
    }
    if chars_eq_str(s, "netbsd") {
        return Some(Kernel::NetBsd);
    }
    if chars_eq_str(s, "openbsd") {
        return Some(Kernel::OpenBsd);
    }
    if chars_eq_str(s, "solaris") {
        return Some(Kernel::Solaris);
    }
    if chars_eq_str(s, "uclibc-linux") {
        return Some(Kernel::UcLibcLinux);
    }
    if chars_eq_str(s, "uclinux") {
        return Some(Kernel::UcLinux);
    }
    None
}

/// A processor of an architecture name.
#[derive(Clone, Copy, Debug, Hash, PartialOrd, Ord, PartialEq, Eq, Structural)]
pub enum Cpu {
    Native,
    Alpha,
    Amd64,
    Arm,
    Arm64,
    Arm64ilp32,
    Armeb,
    Armel,
    Armhf,
    Avr32,
    Hppa,
    I386,
    Ia64,
    Lpia,
    M32r,
    M68k,
    Mips,
    Mips64,
    Mips64el,
    Mips64r6,
    Mips64r6el,
    Mipsel,
    Mipsn32,
    Mipsn32el,
    Mipsn32r6,
    Mipsn32r6el,
    Mipsr6,
    Mipsr6el,
    Nios2,
    Or1k,
    Powerpc,
    Powerpcel,
    Powerpcspe,
    Ppc64,
    Ppc64el,
    Riscv64,
    S390,
    S390x,
    Sh3,
    Sh3eb,
    Sh4,
    Sh4eb,
    Sparc,
    Sparc64,
    Tilegx,
    X32,
}

/// The cpu that a name denotes.
pub open spec fn cpu_named(s: Seq<char>) -> Option<Cpu> {
    if s == "native"@ {
        Some(Cpu::Native)
    } else if s == "alpha"@ {
        Some(Cpu::Alpha)
    } else if s == "amd64"@ {
        Some(Cpu::Amd64)
    } else if s == "arm"@ {
        Some(Cpu::Arm)
    } else if s == "arm64"@ {
        Some(Cpu::Arm64)
    } else if s == "arm64ilp32"@ {
        Some(Cpu::Arm64ilp32)
    } else if s == "armeb"@ {
        Some(Cpu::Armeb)
    } else if s == "armel"@ {
        Some(Cpu::Armel)
    } else if s == "armhf"@ {
        Some(Cpu::Armhf)
    } else if s == "avr32"@ {
        Some(Cpu::Avr32)
    } else if s == "hppa"@ {
        Some(Cpu::Hppa)
    } else if s == "i386"@ {
        Some(Cpu::I386)
    } else if s == "ia64"@ {
        Some(Cpu::Ia64)
    } else if s == "lpia"@ {
        Some(Cpu::Lpia)
    } else if s == "m32r"@ {
        Some(Cpu::M32r)
    } else if s == "m68k"@ {
        Some(Cpu::M68k)
    } else if s == "mips"@ {
        Some(Cpu::Mips)
    } else if s == "mips64"@ {
        Some(Cpu::Mips64)
    } else if s == "mips64el"@ {
        Some(Cpu::Mips64el)
    } else if s == "mips64r6"@ {
        Some(Cpu::Mips64r6)
    } else if s == "mips64r6el"@ {
        Some(Cpu::Mips64r6el)
    } else if s == "mipsel"@ {
        Some(Cpu::Mipsel)
    } else if s == "mipsn32"@ {
        Some(Cpu::Mipsn32)
    } else if s == "mipsn32el"@ {
        Some(Cpu::Mipsn32el)
    } else if s == "mipsn32r6"@ {
        Some(Cpu::Mipsn32r6)
    } else if s == "mipsn32r6el"@ {
        Some(Cpu::Mipsn32r6el)
    } else if s == "mipsr6"@ {
        Some(Cpu::Mipsr6)
    } else if s == "mipsr6el"@ {
        Some(Cpu::Mipsr6el)
    } else if s == "nios2"@ {
        Some(Cpu::Nios2)
    } else if s == "or1k"@ {
        Some(Cpu::Or1k)
    } else if s == "powerpc"@ {
        Some(Cpu::Powerpc)
    } else if s == "powerpcel"@ {
        Some(Cpu::Powerpcel)
    } else if s == "powerpcspe"@ {
        Some(Cpu::Powerpcspe)
    } else if s == "ppc64"@ {
        Some(Cpu::Ppc64)
    } else if s == "ppc64el"@ {
        Some(Cpu::Ppc64el)
    } else if s == "riscv64"@ {
        Some(Cpu::Riscv64)
    } else if s == "s390"@ {
        Some(Cpu::S390)
    } else if s == "s390x"@ {
        Some(Cpu::S390x)
    } else if s == "sh3"@ {
        Some(Cpu::Sh3)
    } else if s == "sh3eb"@ {
        Some(Cpu::Sh3eb)
    } else if s == "sh4"@ {
        Some(Cpu::Sh4)
    } else if s == "sh4eb"@ {
        Some(Cpu::Sh4eb)
    } else if s == "sparc"@ {
        Some(Cpu::Sparc)
    } else if s == "sparc64"@ {
        Some(Cpu::Sparc64)
    } else if s == "tilegx"@ {
        Some(Cpu::Tilegx)
    } else if s == "x32"@ {
        Some(Cpu::X32)
    } else {
        None
    }
}

/// Look up a cpu by name.
pub fn parse_cpu(s: &[char]) -> (r: Option<Cpu>)
    ensures
        r == cpu_named(s@),
{
    if chars_eq_str(s, "native") {
        return Some(Cpu::Native);
    }
    if chars_eq_str(s, "alpha") {
        return Some(Cpu::Alpha);
    }
    if chars_eq_str(s, "amd64") {
        return Some(Cpu::Amd64);
    }
    if chars_eq_str(s, "arm") {
        return Some(Cpu::Arm);
    }
    if chars_eq_str(s, "arm64") {
        return Some(Cpu::Arm64);
    }
    if chars_eq_str(s, "arm64ilp32") {
        return Some(Cpu::Arm64ilp32);
    }
    if chars_eq_str(s, "armeb") {
        return Some(Cpu::Armeb);
    }
    if chars_eq_str(s, "armel") {
        return Some(Cpu::Armel);
    }
    if chars_eq_str(s, "armhf") {
        return Some(Cpu::Armhf);
    }
    if chars_eq_str(s, "avr32") {
        return Some(Cpu::Avr32);
    }
    if chars_eq_str(s, "hppa") {
        return Some(Cpu::Hppa);
    }
    if chars_eq_str(s, "i386") {
        return Some(Cpu::I386);
    }
    if chars_eq_str(s, "ia64") {
        return Some(Cpu::Ia64);
    }
    if chars_eq_str(s, "lpia") {
        return Some(Cpu::Lpia);
    }
    if chars_eq_str(s, "m32r") {
        return Some(Cpu::M32r);
    }
    if chars_eq_str(s, "m68k") {
        return Some(Cpu::M68k);
    }
    if chars_eq_str(s, "mips") {
        return Some(Cpu::Mips);
    }
    if chars_eq_str(s, "mips64") {
        return Some(Cpu::Mips64);
    }
    if chars_eq_str(s, "mips64el") {
        return Some(Cpu::Mips64el);
    }
    if chars_eq_str(s, "mips64r6") {
        return Some(Cpu::Mips64r6);
    }
    if chars_eq_str(s, "mips64r6el") {
        return Some(Cpu::Mips64r6el);
    }
    if chars_eq_str(s, "mipsel") {
        return Some(Cpu::Mipsel);
    }
    if chars_eq_str(s, "mipsn32") {
        return Some(Cpu::Mipsn32);
    }
    if chars_eq_str(s, "mipsn32el") {
        return Some(Cpu::Mipsn32el);
    }
    if chars_eq_str(s, "mipsn32r6") {
        return Some(Cpu::Mipsn32r6);
    }
    if chars_eq_str(s, "mipsn32r6el") {
        return Some(Cpu::Mipsn32r6el);
    }
    if chars_eq_str(s, "mipsr6") {
        return Some(Cpu::Mipsr6);
    }
    if chars_eq_str(s, "mipsr6el") {
        return Some(Cpu::Mipsr6el);
    }
    if chars_eq_str(s, "nios2") {
        return Some(Cpu::Nios2);
    }
    if chars_eq_str(s, "or1k") {
        return Some(Cpu::Or1k);
    }
    if chars_eq_str(s, "powerpc") {
        return Some(Cpu::Powerpc);
    }
    if chars_eq_str(s, "powerpcel") {
        return Some(Cpu::Powerpcel);
    }
    if chars_eq_str(s, "powerpcspe") {
        return Some(Cpu::Powerpcspe);
    }
    if chars_eq_str(s, "ppc64") {
        return Some(Cpu::Ppc64);
    }
    if chars_eq_str(s, "ppc64el") {
        return Some(Cpu::Ppc64el);
    }
    if chars_eq_str(s, "riscv64") {
        return Some(Cpu::Riscv64);
    }
    if chars_eq_str(s, "s390") {
        return Some(Cpu::S390);
    }
    if chars_eq_str(s, "s390x") {
        return Some(Cpu::S390x);
    }
    if chars_eq_str(s, "sh3") {
        return Some(Cpu::Sh3);
    }
    if chars_eq_str(s, "sh3eb") {
        return Some(Cpu::Sh3eb);
    }
    if chars_eq_str(s, "sh4") {
        return Some(Cpu::Sh4);
    }
    if chars_eq_str(s, "sh4eb") {
        return Some(Cpu::Sh4eb);
    }
    if chars_eq_str(s, "sparc") {
        return Some(Cpu::Sparc);
    }
    if chars_eq_str(s, "sparc64") {
        return Some(Cpu::Sparc64);
    }
    if chars_eq_str(s, "tilegx") {
        return Some(Cpu::Tilegx);
    }
    if chars_eq_str(s, "x32") {
        return Some(Cpu::X32);
    }
    None
}

} // verus!
