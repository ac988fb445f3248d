use vstd::prelude::*;
use crate::text::str_eq;

verus! {

/// Node's `process.platform` name for a Rust `target_os` value.
pub open spec fn spec_node_os(target_os: Seq<char>) -> Seq<char> {
    if target_os == "linux"@ {
        "linux"@
    } else if target_os == "macos"@ {
        "darwin"@
    } else if target_os == "windows"@ {
        "win32"@
    } else if target_os == "freebsd"@ {
        "freebsd"@
    } else if target_os == "openbsd"@ {
        "openbsd"@
    } else {
        "unknown"@
    }
}

/// Return the OS string as pnpm sees it, for the Rust `target_os`
/// value of the running build (`std::env::consts::OS`).
pub fn current_os(target_os: &str) -> (r: &'static str)
    ensures
        r@ == spec_node_os(target_os@),
{
    proof {
        reveal_strlit("linux");
        reveal_strlit("macos");
        reveal_strlit("darwin");
        reveal_strlit("windows");
        reveal_strlit("win32");
        reveal_strlit("freebsd");
        reveal_strlit("openbsd");
        reveal_strlit("unknown");
    }
    if str_eq(target_os, "linux") {
        "linux"
    } else if str_eq(target_os, "macos") {
        "darwin"
    } else if str_eq(target_os, "windows") {
        "win32"
    } else if str_eq(target_os, "freebsd") {
        "freebsd"
    } else if str_eq(target_os, "openbsd") {
        "openbsd"
    } else {
        "unknown"
    }
}

/// Node's `process.arch` name for a Rust `target_arch` value.
pub open spec fn spec_node_cpu(target_arch: Seq<char>) -> Seq<char> {
    if target_arch == "x86_64"@ {
        "x64"@
    } else if target_arch == "aarch64"@ {
        "arm64"@
    } else if target_arch == "x86"@ {
        "ia32"@
    } else if target_arch == "arm"@ {
        "arm"@
    } else if target_arch == "riscv64"@ {
        "riscv64"@
    } else if target_arch == "s390x"@ {
        "s390x"@
    } else if target_arch == "powerpc64"@ {
        "ppc64"@
    } else {
        "unknown"@
    }
}

/// Return the CPU architecture string as pnpm sees it, for the Rust
/// `target_arch` value of the running build (`std::env::consts::ARCH`).
pub fn current_cpu(target_arch: &str) -> (r: &'static str)
    ensures
        r@ == spec_node_cpu(target_arch@),
{
    proof {
        reveal_strlit("x86_64");
        reveal_strlit("x64");
        reveal_strlit("aarch64");
        reveal_strlit("arm64");
        reveal_strlit("x86");
        reveal_strlit("ia32");
        reveal_strlit("arm");
        reveal_strlit("riscv64");
        reveal_strlit("s390x");
        reveal_strlit("powerpc64");
        reveal_strlit("ppc64");
        reveal_strlit("unknown");
    }
    if str_eq(target_arch, "x86_64") {
        "x64"
    } else if str_eq(target_arch, "aarch64") {
        "arm64"
    } else if str_eq(target_arch, "x86") {
        "ia32"
    } else if str_eq(target_arch, "arm") {
        "arm"
    } else if str_eq(target_arch, "riscv64") {
        "riscv64"
    } else if str_eq(target_arch, "s390x") {
        "s390x"
    } else if str_eq(target_arch, "powerpc64") {
        "ppc64"
    } else {
        "unknown"
    }
}

/// The C library identifier as pnpm sees it: `musl` or `glibc` on
/// Linux (by the Rust `target_env`), `unknown` everywhere else.
pub open spec fn spec_node_libc(target_os: Seq<char>, target_env: Seq<char>) -> Seq<char> {
    if target_os == "linux"@ && target_env == "musl"@ {
        "musl"@
    } else if target_os == "linux"@ {
        "glibc"@
    } else {
        "unknown"@
    }
}

/// Return the C library identifier as pnpm sees it, for the Rust
/// `target_os` and `target_env` of the running build.
pub fn current_libc(target_os: &str, target_env: &str) -> (r: &'static str)
    ensures
        r@ == spec_node_libc(target_os@, target_env@),
{
    proof {
        reveal_strlit("linux");
        reveal_strlit("musl");
        reveal_strlit("glibc");
        reveal_strlit("unknown");
    }
    if str_eq(target_os, "linux") && str_eq(target_env, "musl") {
        "musl"
    } else if str_eq(target_os, "linux") {
        "glibc"
    } else {
        "unknown"
    }
}

/// The views of a list of strings.
pub open spec fn string_views(list: Seq<String>) -> Seq<Seq<char>> {
    list.map_values(|s: String| s@)
}

/// An entry of the form `!name` excludes `name`.
pub open spec fn is_exclusion(entry: Seq<char>) -> bool {
    entry.len() > 0 && entry[0] == '!'
}

/// Whether `value` satisfies a package's `os` / `cpu` / `libc` list:
/// `["any"]` accepts everything; an exclusion `!value` rejects; a
/// positive entry equal to `value` accepts; a list made only of
/// exclusions (none of which matched) accepts.
pub open spec fn spec_check_list(value: Seq<char>, list: Seq<Seq<char>>) -> bool {
    if list.len() == 1 && list[0] == "any"@ {
        true
    } else if exists|i: int|
        0 <= i < list.len() && is_exclusion(#[trigger] list[i]) && list[i].drop_first() == value {
        false
    } else {
        (exists|i: int| 0 <= i < list.len() && !is_exclusion(#[trigger] list[i]) && list[i] == value)
            || (forall|i: int| 0 <= i < list.len() ==> is_exclusion(#[trigger] list[i]))
    }
}

/// Check whether `value` satisfies `list` (pnpm's `checkList`).
pub fn check_list(value: &str, list: &[String]) -> (r: bool)
    ensures
        r == spec_check_list(value@, string_views(list@)),
{
    let ghost views = string_views(list@);
    proof {
        reveal_strlit("any");
    }
    if list.len() == 1 && str_eq(list[0].as_str(), "any") {
        return true;
    }
    assert(!(views.len() == 1 && views[0] == "any"@));
    let mut any_match = false;
    let mut blacklist_count: usize = 0;
    let mut i: usize = 0;
    while i < list.len()
        invariant
            views == string_views(list@),
            views.len() == list@.len(),
            !(views.len() == 1 && views[0] == "any"@),
            i <= list.len(),
            blacklist_count <= i,
            any_match == (exists|j: int|
                0 <= j < i && !is_exclusion(#[trigger] views[j]) && views[j] == value@),
            (blacklist_count == i) == (forall|j: int| 0 <= j < i ==> is_exclusion(#[trigger] views[j])),
            forall|j: int|
                0 <= j < i && is_exclusion(#[trigger] views[j]) ==> views[j].drop_first() != value@,
        decreases list.len() - i,
    {
        let entry = list[i].as_str();
        let n = entry.unicode_len();
        assert(views[i as int] == entry@);
        if n > 0 && entry.get_char(0) == '!' {
            let excluded = entry.substring_char(1, n);
            assert(excluded@ =~= views[i as int].drop_first());
            if str_eq(excluded, value) {
                assert(is_exclusion(views[i as int]) && views[i as int].drop_first() == value@);
                return false;
            }
            blacklist_count = blacklist_count + 1;
        } else if str_eq(entry, value) {
            any_match = true;
        }
        i = i + 1;
    }
    any_match || blacklist_count == list.len()
}

/// Whether a package with the given platform constraints is
/// installable on a host with the given `os`, `cpu` and `libc`
/// (as pnpm names them). `None` means "no constraint". The libc check
/// is skipped when the host libc is `unknown`.
pub open spec fn spec_platform_supported(
    os: Option<Seq<Seq<char>>>,
    cpu: Option<Seq<Seq<char>>>,
    libc: Option<Seq<Seq<char>>>,
    host_os: Seq<char>,
    host_cpu: Seq<char>,
    host_libc: Seq<char>,
) -> bool {
    &&& (os matches Some(l) ==> spec_check_list(host_os, l))
    &&& (cpu matches Some(l) ==> spec_check_list(host_cpu, l))
    &&& (libc matches Some(l) ==> host_libc == "unknown"@ || spec_check_list(host_libc, l))
}

/// The views of an optional list of strings.
pub open spec fn opt_list_views(list: Option<&[String]>) -> Option<Seq<Seq<char>>> {
    match list {
        Some(l) => Some(string_views(l@)),
        None => None,
    }
}

/// Return `true` if a package with the given platform constraints is
/// installable on the host described by `host_os`, `host_cpu` and
/// `host_libc` (the values of [`current_os`], [`current_cpu`] and
/// [`current_libc`]).
pub fn is_platform_supported(
    os: Option<&[String]>,
    cpu: Option<&[String]>,
    libc: Option<&[String]>,
    host_os: &str,
    host_cpu: &str,
    host_libc: &str,
) -> (r: bool)
    ensures
        r == spec_platform_supported(
            opt_list_views(os),
            opt_list_views(cpu),
            opt_list_views(libc),
            host_os@,
            host_cpu@,
            host_libc@,
        ),
{
    proof {
        reveal_strlit("unknown");
    }
    if let Some(os_list) = os {
        if !check_list(host_os, os_list) {
            return false;
        }
    }
    if let Some(cpu_list) = cpu {
        if !check_list(host_cpu, cpu_list) {
            return false;
        }
    }
    if let Some(libc_list) = libc {
        if !str_eq(host_libc, "unknown") && !check_list(host_libc, libc_list) {
            return false;
        }
    }
    true
}


/// Each constraint a package declares must accept the host: an `os` or
/// `cpu` list that rejects the host's value makes the package
/// unsupported, and so does a `libc` list that rejects a known host libc.
/// When every declared list accepts (or the libc is unknown), the
/// package is supported.
pub proof fn law_every_declared_axis_must_accept_host(
    os: Option<Seq<Seq<char>>>,
    cpu: Option<Seq<Seq<char>>>,
    libc: Option<Seq<Seq<char>>>,
    host_os: Seq<char>,
    host_cpu: Seq<char>,
    host_libc: Seq<char>,
)
    ensures
        (os matches Some(l) && !spec_check_list(host_os, l)) ==> !spec_platform_supported(os, cpu, libc, host_os, host_cpu, host_libc),
        (cpu matches Some(l) && !spec_check_list(host_cpu, l)) ==> !spec_platform_supported(os, cpu, libc, host_os, host_cpu, host_libc),
        (libc matches Some(l) && host_libc != "unknown"@ && !spec_check_list(host_libc, l))
            ==> !spec_platform_supported(os, cpu, libc, host_os, host_cpu, host_libc),
        ((os matches Some(l) ==> spec_check_list(host_os, l)) && (cpu matches Some(l) ==> spec_check_list(host_cpu, l))
            && (libc matches Some(l) ==> host_libc == "unknown"@ || spec_check_list(host_libc, l)))
            ==> spec_platform_supported(os, cpu, libc, host_os, host_cpu, host_libc),
{
}

/// A list of plain names (no `any`, no `!` exclusions) accepts exactly
/// the values it names; so a package whose `cpu` list names only other
/// architectures is unsupported on the host.
pub proof fn law_plain_cpu_list_names_the_host(
    os: Option<Seq<Seq<char>>>,
    cpu: Seq<Seq<char>>,
    libc: Option<Seq<Seq<char>>>,
    host_os: Seq<char>,
    host_cpu: Seq<char>,
    host_libc: Seq<char>,
)
    requires
        forall|i: int| 0 <= i < cpu.len() ==> !is_exclusion(#[trigger] cpu[i]) && cpu[i] != "any"@,
        cpu.len() > 0,
        !cpu.contains(host_cpu),
    ensures
        !spec_platform_supported(os, Some(cpu), libc, host_os, host_cpu, host_libc),
{
    assert(!is_exclusion(cpu[0]));
    assert(!spec_check_list(host_cpu, cpu)) by {
        if exists|i: int| 0 <= i < cpu.len() && !is_exclusion(#[trigger] cpu[i]) && cpu[i] == host_cpu {
            let i = choose|i: int| 0 <= i < cpu.len() && !is_exclusion(#[trigger] cpu[i]) && cpu[i] == host_cpu;
            assert(cpu.contains(host_cpu));
        }
    }
}

} // verus!
