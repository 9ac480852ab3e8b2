//! Building packages from Docker image listings. Querying the daemon
//! happens outside the library.

use vstd::prelude::*;

use crate::discover::oci::{build_package_from_labels, spec_label_lookup, LabelMap};
use crate::discover::{InstalledPackage, PackageSource};

verus! {

/// One entry of a Docker image listing, reduced to the fields the logic
/// reads.
#[derive(Debug, PartialEq)]
pub struct DockerImage {
    /// The image repository name; `<none>` marks a dangling image.
    pub repository: String,
    /// The image tag; `<none>` marks an untagged image.
    pub tag: String,
    /// The image identifier.
    pub id: String,
}

/// Build a package from a Docker image entry and its OCI labels: the
/// repository is the name and the tag the version, with the standard
/// label fallbacks of [`build_package_from_labels`].
pub fn build_package(image: &DockerImage, labels: &LabelMap) -> (r: InstalledPackage)
    ensures
        r.name@ == image.repository@,
        image.tag@ == "<none>"@ ==> r.version@ == "unknown"@,
        image.tag@ != "<none>"@ ==> r.version@ == image.tag@,
        ({
            let src = spec_label_lookup(labels.entries@, "org.opencontainers.image.source"@);
            let url = spec_label_lookup(labels.entries@, "org.opencontainers.image.url"@);
            &&& (src is Some ==> r.url is Some && r.url->0@ == src->0)
            &&& (src is None && url is Some ==> r.url is Some && r.url->0@ == url->0)
            &&& (src is None && url is None ==> r.url is None)
        }),
        ({
            let d = spec_label_lookup(labels.entries@, "org.opencontainers.image.description"@);
            &&& (r.description is Some <==> d is Some)
            &&& (r.description is Some ==> r.description->0@ == d->0)
        }),
        ({
            let l = spec_label_lookup(labels.entries@, "org.opencontainers.image.licenses"@);
            &&& (l is Some ==> r.licenses@.len() == 1 && r.licenses@[0]@ == l->0)
            &&& (l is None ==> r.licenses@.len() == 0)
        }),
        r.source is Docker,
{
    build_package_from_labels(
        image.repository.as_str(),
        image.tag.as_str(),
        labels,
        PackageSource::Docker,
    )
}

} // verus!
