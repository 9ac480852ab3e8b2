//! Discovered packages and the package managers they come from.

pub mod apt;
pub mod dnf;
pub mod docker;
pub mod flatpak;
pub mod mise;
pub mod nix;
pub mod oci;
pub mod pacman;
pub mod podman;
pub mod snap;

use vstd::prelude::*;

use crate::strutil::str_eq_str;

verus! {

/// The package manager that installed a package.
#[derive(Debug, Clone, Copy, PartialEq, Eq, Hash, Structural)]
pub enum PackageSource {
    Pacman,
    Apt,
    Dnf,
    Flatpak,
    Snap,
    Nix,
    Mise,
    Brew,
    Docker,
    Podman,
}

impl PackageSource {
    /// The stable lowercase identifier of this source, used in reports,
    /// storage and log output.
    pub fn label(&self) -> (r: &'static str)
        ensures
            r@ == spec_source_label(*self),
    {
        match self {
            PackageSource::Pacman => "pacman",
            PackageSource::Apt => "apt",
            PackageSource::Dnf => "dnf",
            PackageSource::Flatpak => "flatpak",
            PackageSource::Snap => "snap",
            PackageSource::Nix => "nix",
            PackageSource::Mise => "mise",
            PackageSource::Brew => "brew",
            PackageSource::Docker => "docker",
            PackageSource::Podman => "podman",
        }
    }

    /// Position of this source in the fixed source ordering.
    pub fn rank(&self) -> (r: u8)
        ensures
            r == spec_source_rank(*self),
    {
        match self {
            PackageSource::Pacman => 0,
            PackageSource::Apt => 1,
            PackageSource::Dnf => 2,
            PackageSource::Flatpak => 3,
            PackageSource::Snap => 4,
            PackageSource::Nix => 5,
            PackageSource::Mise => 6,
            PackageSource::Brew => 7,
            PackageSource::Docker => 8,
            PackageSource::Podman => 9,
        }
    }
}

/// The display label of each package source.
pub open spec fn spec_source_label(s: PackageSource) -> Seq<char> {
    match s {
        PackageSource::Pacman => "pacman"@,
        PackageSource::Apt => "apt"@,
        PackageSource::Dnf => "dnf"@,
        PackageSource::Flatpak => "flatpak"@,
        PackageSource::Snap => "snap"@,
        PackageSource::Nix => "nix"@,
        PackageSource::Mise => "mise"@,
        PackageSource::Brew => "brew"@,
        PackageSource::Docker => "docker"@,
        PackageSource::Podman => "podman"@,
    }
}

/// The position of each source in the fixed source ordering, mirroring the
/// declaration order of the variants.
pub open spec fn spec_source_rank(s: PackageSource) -> u8 {
    match s {
        PackageSource::Pacman => 0,
        PackageSource::Apt => 1,
        PackageSource::Dnf => 2,
        PackageSource::Flatpak => 3,
        PackageSource::Snap => 4,
        PackageSource::Nix => 5,
        PackageSource::Mise => 6,
        PackageSource::Brew => 7,
        PackageSource::Docker => 8,
        PackageSource::Podman => 9,
    }
}

/// Error raised when a package manager's output is missing a required
/// field.
#[derive(Debug)]
pub struct ParseError {
    /// Human-readable description of the failure.
    pub message: String,
}

impl ParseError {
    /// Human-readable description of the failure.
    pub fn message(&self) -> (r: String)
        ensures
            r == self.message,
    {
        self.message.clone()
    }
}

/// Error for a source string that names no known package manager.
#[derive(Debug)]
pub struct SourceError {
    /// Human-readable description of the failure.
    pub message: String,
}

impl SourceError {
    /// Human-readable description of the failure.
    pub fn message(&self) -> (r: String)
        ensures
            r == self.message,
    {
        self.message.clone()
    }
}

/// Parse a package-source label back into the enum: the inverse of
/// [`PackageSource::label`]. Fails on every other string.
pub fn parse_package_source(s: &str) -> (r: Result<PackageSource, SourceError>)
    ensures
        r is Ok <==> (exists|src: PackageSource| spec_source_label(src) == s@),
        r is Ok ==> spec_source_label(r->Ok_0) == s@,
{
    if str_eq_str(s, "pacman") {
        proof {
            assert(spec_source_label(PackageSource::Pacman) == s@);
        }
        Ok(PackageSource::Pacman)
    } else if str_eq_str(s, "apt") {
        proof {
            assert(spec_source_label(PackageSource::Apt) == s@);
        }
        Ok(PackageSource::Apt)
    } else if str_eq_str(s, "dnf") {
        proof {
            assert(spec_source_label(PackageSource::Dnf) == s@);
        }
        Ok(PackageSource::Dnf)
    } else if str_eq_str(s, "flatpak") {
        proof {
            assert(spec_source_label(PackageSource::Flatpak) == s@);
        }
        Ok(PackageSource::Flatpak)
    } else if str_eq_str(s, "snap") {
        proof {
            assert(spec_source_label(PackageSource::Snap) == s@);
        }
        Ok(PackageSource::Snap)
    } else if str_eq_str(s, "nix") {
        proof {
            assert(spec_source_label(PackageSource::Nix) == s@);
        }
        Ok(PackageSource::Nix)
    } else if str_eq_str(s, "mise") {
        proof {
            assert(spec_source_label(PackageSource::Mise) == s@);
        }
        Ok(PackageSource::Mise)
    } else if str_eq_str(s, "brew") {
        proof {
            assert(spec_source_label(PackageSource::Brew) == s@);
        }
        Ok(PackageSource::Brew)
    } else if str_eq_str(s, "docker") {
        proof {
            assert(spec_source_label(PackageSource::Docker) == s@);
        }
        Ok(PackageSource::Docker)
    } else if str_eq_str(s, "podman") {
        proof {
            assert(spec_source_label(PackageSource::Podman) == s@);
        }
        Ok(PackageSource::Podman)
    } else {
        proof {
            assert forall|src: PackageSource| spec_source_label(src) != s@ by {
                match src {
                    PackageSource::Pacman => assert(spec_source_label(src) != s@),
                    PackageSource::Apt => assert(spec_source_label(src) != s@),
                    PackageSource::Dnf => assert(spec_source_label(src) != s@),
                    PackageSource::Flatpak => assert(spec_source_label(src) != s@),
                    PackageSource::Snap => assert(spec_source_label(src) != s@),
                    PackageSource::Nix => assert(spec_source_label(src) != s@),
                    PackageSource::Mise => assert(spec_source_label(src) != s@),
                    PackageSource::Brew => assert(spec_source_label(src) != s@),
                    PackageSource::Docker => assert(spec_source_label(src) != s@),
                    PackageSource::Podman => assert(spec_source_label(src) != s@),
                }
            }
        }
        let mut message = "Unknown package source: ".to_owned();
        message.append(s);
        Err(SourceError { message })
    }
}

/// A package manager backend.
///
/// Each implementation represents one package manager. It is instantiated
/// unconditionally, probed once at startup through `is_available`, and —
/// when present — asked to enumerate every installed package. `discover`
/// performs real I/O (reading databases, running helper commands) and so
/// lives with the implementations, outside this library; a failure is
/// logged by the caller, which continues with the other backends.
pub trait Discoverer {
    /// A stable, lowercase identifier for this package manager, matching
    /// the [`PackageSource`] label.
    fn name(&self) -> &'static str;

    /// Whether the package manager is present on this system; called once
    /// at startup to filter the active set, so it must be cheap.
    fn is_available(&self) -> bool;

    /// Enumerate every package currently installed by this manager.
    fn discover(&self) -> Result<Vec<InstalledPackage>, crate::enrich::BackendError>;
}

/// A discovered package installed on the system, as reported by one package
/// manager. Names and versions are manager-local and never canonicalized
/// across managers.
#[derive(Debug, PartialEq)]
pub struct InstalledPackage {
    /// Package name as reported by the package manager.
    pub name: String,
    /// Version string in the manager's own format.
    pub version: String,
    /// Short human-readable description, when the manager provides one.
    pub description: Option<String>,
    /// Upstream project homepage URL, used for grouping.
    pub url: Option<String>,
    /// Which package manager discovered this package.
    pub source: PackageSource,
    /// License identifiers associated with the package.
    pub licenses: Vec<String>,
}

/// Field-for-field sameness of two packages; the license list is compared
/// by contents.
pub open spec fn spec_package_eq(a: InstalledPackage, b: InstalledPackage) -> bool {
    &&& a.name == b.name
    &&& a.version == b.version
    &&& a.description == b.description
    &&& a.url == b.url
    &&& a.source == b.source
    &&& a.licenses@ == b.licenses@
}

impl Clone for InstalledPackage {
    fn clone(&self) -> (res: InstalledPackage)
        ensures
            spec_package_eq(*self, res),
    {
        let licenses = self.licenses.clone();
        proof {
            assert(licenses@ =~= self.licenses@);
        }
        InstalledPackage {
            name: self.name.clone(),
            version: self.version.clone(),
            description: crate::project::clone_opt_string(&self.description),
            url: crate::project::clone_opt_string(&self.url),
            source: self.source,
            licenses,
        }
    }
}

} // verus!
