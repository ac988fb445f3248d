//! How a snapshot's package is fetched: the tarball URL and integrity
//! of tarball and registry resolutions, and which fetcher a resolution
//! goes to.
use vstd::prelude::*;
use crate::slots::{key_name, spec_key_name};
use crate::text::{concat2, concat3, ends_with_char, find_char, lemma_find_props, spec_find, substr};
pub use crate::virtual_store::PlatformTarget;
use crate::virtual_store::{BinaryResolution, PlatformVariant, Resolution, VariantResolution};

verus! {

broadcast use vstd::seq_lib::group_seq_properties;

/// A registry URL without its trailing `/`.
pub open spec fn strip_trailing_slash(s: Seq<char>) -> Seq<char> {
    if s.len() > 0 && s.last() == '/' { s.drop_last() } else { s }
}

/// A package name without its scope.
pub open spec fn spec_bare_name(name: Seq<char>) -> Seq<char> {
    if name.len() > 0 && name[0] == '@' {
        match spec_find(name, '/', 0) {
            Some(i) => name.skip(i + 1),
            None => name,
        }
    } else {
        name
    }
}

/// The version of a key: after the name's `@`, without a peer suffix.
pub open spec fn spec_key_version(key: Seq<char>) -> Seq<char> {
    let name = spec_key_name(key);
    let rest = if name.len() < key.len() { key.skip(name.len() + 1int) } else { Seq::empty() };
    crate::lockfile::spec_without_peer(rest)
}

/// The tarball URL of a registry package:
/// `<registry>/<name>/-/<bare name>-<version>.tgz`.
pub open spec fn spec_registry_tarball_url(registry: Seq<char>, key: Seq<char>) -> Seq<char> {
    strip_trailing_slash(registry) + "/"@ + spec_key_name(key) + "/-/"@ + spec_bare_name(spec_key_name(key)) + "-"@
        + spec_key_version(key) + ".tgz"@
}

fn bare_name(name: &str) -> (r: String)
    ensures
        r@ == spec_bare_name(name@),
{
    if name.unicode_len() > 0 && name.get_char(0) == '@' {
        proof {
            lemma_find_props(name@, '/', 0);
        }
        match find_char(name, '/', 0) {
            Some(i) => substr(name, i + 1, name.unicode_len()),
            None => name.to_owned(),
        }
    } else {
        name.to_owned()
    }
}

pub fn key_version(key: &str) -> (r: String)
    ensures
        r@ == spec_key_version(key@),
{
    let name = key_name(key);
    let n = key.unicode_len();
    let rest = if name.unicode_len() < n {
        proof {
            lemma_find_props(key@, '@', 1);
        }
        substr(key, name.unicode_len() + 1, n)
    } else {
        String::new()
    };
    proof {
        if name@.len() < key@.len() {
            assert(rest@ =~= key@.skip(name@.len() + 1int));
        } else {
            assert(rest@ =~= Seq::<char>::empty());
        }
    }
    crate::lockfile::without_peer(rest.as_str())
}

/// The URL and integrity of a tarball or registry resolution.
#[derive(Debug, PartialEq, Eq)]
pub struct TarballSource {
    pub url: String,
    pub integrity: String,
}

/// A tarball resolution without integrity.
#[derive(Debug, PartialEq, Eq)]
pub struct MissingTarballIntegrity {
    pub package_key: String,
}

/// The URL and integrity to download: a tarball resolution's own URL, or
/// the registry's URL for a registry resolution.
pub fn tarball_url_and_integrity(resolution: &Resolution, package_key: &str, registry: &str) -> (r: Result<TarballSource, MissingTarballIntegrity>)
    requires
        resolution is Tarball || resolution is Registry,
    ensures
        match *resolution {
            Resolution::Tarball { tarball, integrity, .. } => match integrity {
                Some(i) => (r matches Ok(s) && s.url@ == tarball@ && s.integrity@ == i@),
                None => (r matches Err(e) && e.package_key@ == package_key@),
            },
            Resolution::Registry { integrity } => (r matches Ok(s)
                && s.url@ == spec_registry_tarball_url(registry@, package_key@) && s.integrity@ == integrity@),
            _ => true,
        },
{
    proof {
        reveal_strlit("/");
        reveal_strlit("/-/");
        reveal_strlit("-");
        reveal_strlit(".tgz");
    }
    match resolution {
        Resolution::Tarball { tarball, integrity, .. } => match integrity {
            Some(i) => Ok(TarballSource { url: tarball.clone(), integrity: i.clone() }),
            None => Err(MissingTarballIntegrity { package_key: package_key.to_owned() }),
        },
        Resolution::Registry { integrity } => {
            let base = if ends_with_char(registry, '/') {
                substr(registry, 0, registry.unicode_len() - 1)
            } else {
                registry.to_owned()
            };
            assert(base@ == strip_trailing_slash(registry@));
            let name = key_name(package_key);
            let a = concat3(base.as_str(), "/", name.as_str());
            let b = concat3(a.as_str(), "/-/", bare_name(name.as_str()).as_str());
            let c = concat3(b.as_str(), "-", key_version(package_key).as_str());
            let url = concat2(c.as_str(), ".tgz");
            Ok(TarballSource { url, integrity: integrity.clone() })
        },
        _ => Err(MissingTarballIntegrity { package_key: package_key.to_owned() }),
    }
}

/// Which fetcher a resolution goes to.
#[derive(Debug, Clone, Copy, PartialEq, Eq, Structural)]
pub enum FetchKind {
    /// Download the tarball into the store.
    Tarball,
    /// Download the tarball of a git host, then prepare it.
    GitHostedTarball,
    /// Clone the repository and check out the commit.
    Git,
    /// Download a runtime binary's archive.
    Binary,
    /// Pick the host's variant, then download its runtime binary.
    Variations,
    /// Not fetched here.
    Unsupported,
}

/// The fetcher of a resolution.
pub open spec fn spec_fetch_kind(r: Resolution) -> FetchKind {
    match r {
        Resolution::Tarball { git_hosted, .. } => if git_hosted { FetchKind::GitHostedTarball } else { FetchKind::Tarball },
        Resolution::Registry { .. } => FetchKind::Tarball,
        Resolution::Directory { .. } => FetchKind::Unsupported,
        Resolution::Git { .. } => FetchKind::Git,
        Resolution::Binary(_) => FetchKind::Binary,
        Resolution::Variations { .. } => FetchKind::Variations,
    }
}

/// The fetcher of a resolution.
pub fn fetch_kind(resolution: &Resolution) -> (r: FetchKind)
    ensures
        r == spec_fetch_kind(*resolution),
{
    match resolution {
        Resolution::Tarball { git_hosted, .. } => if *git_hosted { FetchKind::GitHostedTarball } else { FetchKind::Tarball },
        Resolution::Registry { .. } => FetchKind::Tarball,
        Resolution::Directory { .. } => FetchKind::Unsupported,
        Resolution::Git { .. } => FetchKind::Git,
        Resolution::Binary(_) => FetchKind::Binary,
        Resolution::Variations { .. } => FetchKind::Variations,
    }
}

} // verus!

verus! {

/// The host a runtime binary variant is picked for.
#[derive(Debug, PartialEq, Eq)]
pub struct PlatformSelector {
    pub os: String,
    pub cpu: String,
    /// `None` where the host's libc is not known.
    pub libc: Option<String>,
}

/// The selector of a host: its os and cpu, and its libc unless that is
/// `unknown`.
pub fn host_platform_selector(os: &str, cpu: &str, libc: &str) -> (r: PlatformSelector)
    ensures
        r.os@ == os@,
        r.cpu@ == cpu@,
        libc@ == "unknown"@ ==> r.libc is None,
        libc@ != "unknown"@ ==> (r.libc matches Some(l) && l@ == libc@),
{
    let libc = if crate::text::str_eq(libc, "unknown") { None } else { Some(libc.to_owned()) };
    PlatformSelector { os: os.to_owned(), cpu: cpu.to_owned(), libc }
}

/// A target as `os/cpu`, or `os/cpu+libc`.
pub open spec fn spec_render_target(t: PlatformTarget) -> Seq<char> {
    t.os@ + "/"@ + t.cpu@ + match t.libc {
        Some(l) => "+"@ + l@,
        None => Seq::empty(),
    }
}

/// The rendered targets of each variant in turn.
pub open spec fn variant_entries(variants: Seq<PlatformVariant>) -> Seq<Seq<char>>
    decreases variants.len(),
{
    if variants.len() == 0 {
        Seq::empty()
    } else {
        variant_entries(variants.drop_last()) + variants.last().targets@.map_values(
            |t: PlatformTarget| spec_render_target(t),
        )
    }
}

fn render_target(t: &PlatformTarget) -> (r: String)
    ensures
        r@ == spec_render_target(*t),
        r@.len() > 0,
{
    proof {
        reveal_strlit("/");
        reveal_strlit("+");
    }
    let head = concat3(t.os.as_str(), "/", t.cpu.as_str());
    match &t.libc {
        Some(l) => {
            let r = concat3(head.as_str(), "+", l.as_str());
            assert(r@ =~= spec_render_target(*t));
            r
        },
        None => {
            assert(head@ =~= spec_render_target(*t));
            head
        },
    }
}

/// Every target of every variant, rendered and joined with `, ` (what a
/// host without a matching variant is told is available).
pub fn render_variant_targets(variants: &Vec<PlatformVariant>) -> (r: String)
    ensures
        r@ == crate::validate_modules::join_with_comma(variant_entries(variants@)),
{
    proof {
        reveal_strlit(", ");
    }
    let mut out = String::new();
    let ghost mut parts: Seq<Seq<char>> = Seq::empty();
    let mut i: usize = 0;
    assert(variant_entries(variants@.take(0)) =~= Seq::<Seq<char>>::empty());
    while i < variants.len()
        invariant
            i <= variants@.len(),
            out@ == crate::validate_modules::join_with_comma(parts),
            out@.len() == 0 <==> parts.len() == 0,
            parts == variant_entries(variants@.take(i as int)),
        decreases variants.len() - i,
    {
        let targets = &variants[i].targets;
        let ghost base = parts;
        let mut k: usize = 0;
        assert(targets@.take(0).map_values(|t: PlatformTarget| spec_render_target(t)) =~= Seq::<Seq<char>>::empty());
        assert(base + Seq::<Seq<char>>::empty() =~= base);
        while k < targets.len()
            invariant
                k <= targets@.len(),
                out@ == crate::validate_modules::join_with_comma(parts),
                out@.len() == 0 <==> parts.len() == 0,
                parts == base + targets@.take(k as int).map_values(|t: PlatformTarget| spec_render_target(t)),
            decreases targets.len() - k,
        {
            let entry = render_target(&targets[k]);
            let ghost before = out@;
            if out.unicode_len() > 0 {
                out.append(", ");
            }
            out.append(entry.as_str());
            proof {
                let next = parts.push(entry@);
                assert(next.drop_last() =~= parts);
                if parts.len() == 0 {
                    assert(out@ =~= entry@);
                } else {
                    assert(out@ =~= before + ", "@ + entry@);
                }
                assert(targets@.take(k + 1).map_values(|t: PlatformTarget| spec_render_target(t)) =~= targets@.take(
                    k as int,
                ).map_values(|t: PlatformTarget| spec_render_target(t)).push(entry@));
                parts = next;
            }
            k = k + 1;
        }
        proof {
            assert(targets@.take(targets@.len() as int) =~= targets@);
            assert(variants@.take(i + 1).drop_last() =~= variants@.take(i as int));
            assert(variants@.take(i + 1).last() == variants@[i as int]);
            assert(variants@[i as int].targets@ == targets@);
        }
        i = i + 1;
    }
    assert(variants@.take(variants@.len() as int) =~= variants@);
    out
}


/// Why a `variations` resolution yields no binary to install.
#[derive(Debug, PartialEq, Eq)]
pub enum VariantError {
    /// No variant targets the host; the message lists what is available.
    NoMatchingPlatformVariant {
        package_key: String,
        host_os: String,
        host_cpu: String,
        host_libc: Option<String>,
        available_targets: String,
    },
    /// The host's variant holds a resolution other than a binary.
    VariantHasNonBinaryResolution { package_key: String, inner_kind: String },
}

/// The name of a variant's resolution kind.
pub open spec fn variant_kind_name(r: VariantResolution) -> Seq<char> {
    match r {
        VariantResolution::Binary(_) => "binary"@,
        VariantResolution::Tarball => "tarball"@,
        VariantResolution::Registry => "registry"@,
        VariantResolution::Directory => "directory"@,
        VariantResolution::Git => "git"@,
        VariantResolution::Variations => "variations"@,
    }
}

fn kind_name(r: &VariantResolution) -> (s: String)
    ensures
        s@ == variant_kind_name(*r),
{
    match r {
        VariantResolution::Binary(_) => "binary".to_string(),
        VariantResolution::Tarball => "tarball".to_string(),
        VariantResolution::Registry => "registry".to_string(),
        VariantResolution::Directory => "directory".to_string(),
        VariantResolution::Git => "git".to_string(),
        VariantResolution::Variations => "variations".to_string(),
    }
}

/// The runtime binary a `variations` resolution installs on the host,
/// given the variant the platform selector chose (`chosen`, its index):
/// none chosen is an error naming the host and every available target;
/// a chosen variant that is not a binary is an error naming its kind.
pub fn variant_binary<'a>(
    package_key: &str,
    variants: &'a Vec<PlatformVariant>,
    chosen: Option<usize>,
    host: &PlatformSelector,
) -> (r: Result<&'a BinaryResolution, VariantError>)
    requires
        chosen matches Some(i) ==> i < variants@.len(),
    ensures
        chosen is None ==> (r matches Err(VariantError::NoMatchingPlatformVariant {
            package_key: k,
            host_os,
            host_cpu,
            host_libc,
            available_targets,
        }) && k@ == package_key@ && host_os@ == host.os@ && host_cpu@ == host.cpu@ && host_libc == host.libc
            && available_targets@ == crate::validate_modules::join_with_comma(variant_entries(variants@))),
        chosen matches Some(i) ==> match variants@[i as int].resolution {
            VariantResolution::Binary(b) => (r matches Ok(x) && *x == b),
            other => (r matches Err(VariantError::VariantHasNonBinaryResolution { package_key: k, inner_kind })
                && k@ == package_key@ && inner_kind@ == variant_kind_name(other)),
        },
{
    proof {
        reveal_strlit("binary");
        reveal_strlit("tarball");
        reveal_strlit("registry");
        reveal_strlit("directory");
        reveal_strlit("git");
        reveal_strlit("variations");
    }
    match chosen {
        None => Err(VariantError::NoMatchingPlatformVariant {
            package_key: package_key.to_owned(),
            host_os: host.os.clone(),
            host_cpu: host.cpu.clone(),
            host_libc: match &host.libc {
                Some(l) => Some(l.clone()),
                None => None,
            },
            available_targets: render_variant_targets(variants),
        }),
        Some(i) => match &variants[i].resolution {
            VariantResolution::Binary(b) => Ok(b),
            other => Err(VariantError::VariantHasNonBinaryResolution {
                package_key: package_key.to_owned(),
                inner_kind: kind_name(other),
            }),
        },
    }
}

} // verus!
