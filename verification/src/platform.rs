//! Machines: their processors and the tags that stand for them.
use crate::text::same_text;
use vstd::prelude::*;

verus! {

/// The processor of a machine.
#[derive(Debug, Clone, Copy, PartialEq, Eq, Structural)]
pub enum CpuArch {
    X86_64,
    ARM64,
}

/// The processor that a target architecture stands for.
pub open spec fn arch_named(target_arch: Seq<char>) -> CpuArch {
    if target_arch == "aarch64"@ {
        CpuArch::ARM64
    } else {
        CpuArch::X86_64
    }
}

/// The processor of the machine whose target architecture is given; an unknown
/// one counts as x86-64.
pub fn get_current_arch(target_arch: &str) -> (r: CpuArch)
    ensures
        r == arch_named(target_arch@),
        r is ARM64 <==> target_arch@ == "aarch64"@,
{
    if same_text(target_arch, "aarch64") {
        CpuArch::ARM64
    } else {
        CpuArch::X86_64
    }
}

/// The tag of the files for a processor under Linux.
pub open spec fn linux_tag(arch: CpuArch) -> Seq<char> {
    match arch {
        CpuArch::ARM64 => "arm64_linux"@,
        CpuArch::X86_64 => "x86_64_linux"@,
    }
}

/// The tag of the files for a processor under Linux.
pub fn platform_key(arch: CpuArch) -> (r: &'static str)
    ensures
        r@ == linux_tag(arch),
        arch is ARM64 ==> r@ == "arm64_linux"@,
        arch is X86_64 ==> r@ == "x86_64_linux"@,
{
    match arch {
        CpuArch::ARM64 => "arm64_linux",
        CpuArch::X86_64 => "x86_64_linux",
    }
}

} // verus!
