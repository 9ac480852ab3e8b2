//! OSI license classification: deciding whether a project's licenses are
//! all OSI-approved, from a built-in list of SPDX identifiers.

use vstd::prelude::*;

use crate::project::UpstreamProject;
use crate::strutil::{
    lower_str, spec_lower, spec_strip_suffix, spec_trim, str_eq_str, strip_suffix_str, trim_str,
};

verus! {

/// An SPDX identifier normalized for lookup: trimmed, lowercased, with one
/// `-or-later`, `-only` and `+` suffix removed in that order.
pub open spec fn spec_normalize_spdx(s: Seq<char>) -> Seq<char> {
    spec_strip_suffix(
        spec_strip_suffix(spec_strip_suffix(spec_lower(spec_trim(s)), "-or-later"@), "-only"@),
        "+"@,
    )
}

/// Normalize an SPDX identifier for lookup: lowercase, strip
/// `-or-later`/`-only` suffixes, and strip a trailing `+`.
pub fn normalize_spdx(id: &str) -> (r: String)
    ensures
        r@ == spec_normalize_spdx(id@),
{
    let s = lower_str(trim_str(id).as_str());
    let s = match strip_suffix_str(s.as_str(), "-or-later") {
        Some(x) => x,
        None => s,
    };
    let s = match strip_suffix_str(s.as_str(), "-only") {
        Some(x) => x,
        None => s,
    };
    match strip_suffix_str(s.as_str(), "+") {
        Some(x) => x,
        None => s,
    }
}

/// Whether a normalized identifier is on the built-in OSI-approved list.
pub open spec fn spec_is_osi_approved(s: Seq<char>) -> bool {
    ||| s == "0bsd"@
    ||| s == "aal"@
    ||| s == "afl-3.0"@
    ||| s == "agpl-3.0"@
    ||| s == "apache-1.1"@
    ||| s == "apache-2.0"@
    ||| s == "apsl-2.0"@
    ||| s == "artistic-1.0"@
    ||| s == "artistic-2.0"@
    ||| s == "blueoak-1.0.0"@
    ||| s == "bsd-1-clause"@
    ||| s == "bsd-2-clause"@
    ||| s == "bsd-2-clause-patent"@
    ||| s == "bsd-3-clause"@
    ||| s == "bsd-3-clause-lbnl"@
    ||| s == "bsl-1.0"@
    ||| s == "cal-1.0"@
    ||| s == "cal-1.0-combined-work-exception"@
    ||| s == "catosl-1.1"@
    ||| s == "cern-ohl-p-2.0"@
    ||| s == "cern-ohl-s-2.0"@
    ||| s == "cern-ohl-w-2.0"@
    ||| s == "cnri-python"@
    ||| s == "cpal-1.0"@
    ||| s == "cua-opl-1.0"@
    ||| s == "ecl-1.0"@
    ||| s == "ecl-2.0"@
    ||| s == "ecos-2.0"@
    ||| s == "efl-1.0"@
    ||| s == "efl-2.0"@
    ||| s == "entessa"@
    ||| s == "epl-1.0"@
    ||| s == "epl-2.0"@
    ||| s == "eupl-1.1"@
    ||| s == "eupl-1.2"@
    ||| s == "fair"@
    ||| s == "frameworx-1.0"@
    ||| s == "gpl-2.0"@
    ||| s == "gpl-3.0"@
    ||| s == "hpnd"@
    ||| s == "intel"@
    ||| s == "ipa"@
    ||| s == "ipl-1.0"@
    ||| s == "isc"@
    ||| s == "jam"@
    ||| s == "lgpl-2.0"@
    ||| s == "lgpl-2.1"@
    ||| s == "lgpl-3.0"@
    ||| s == "liliq-p-1.1"@
    ||| s == "liliq-r-1.1"@
    ||| s == "liliq-rplus-1.1"@
    ||| s == "lpl-1.0"@
    ||| s == "lpl-1.02"@
    ||| s == "lppl-1.0"@
    ||| s == "lppl-1.1"@
    ||| s == "lppl-1.2"@
    ||| s == "lppl-1.3a"@
    ||| s == "lppl-1.3c"@
    ||| s == "mit"@
    ||| s == "mit-0"@
    ||| s == "mit-modern-variant"@
    ||| s == "motosoto"@
    ||| s == "mpl-1.0"@
    ||| s == "mpl-1.1"@
    ||| s == "mpl-2.0"@
    ||| s == "ms-pl"@
    ||| s == "ms-rl"@
    ||| s == "mulanpsl-2.0"@
    ||| s == "multics"@
    ||| s == "nasa-1.3"@
    ||| s == "ncsa"@
    ||| s == "ngpl"@
    ||| s == "nokia"@
    ||| s == "nposl-3.0"@
    ||| s == "ntp"@
    ||| s == "oclc-2.0"@
    ||| s == "ofl-1.0"@
    ||| s == "ofl-1.1"@
    ||| s == "ogtsl"@
    ||| s == "oldap-2.8"@
    ||| s == "oset-pl-2.1"@
    ||| s == "osl-1.0"@
    ||| s == "osl-1.1"@
    ||| s == "osl-2.0"@
    ||| s == "osl-2.1"@
    ||| s == "osl-3.0"@
    ||| s == "php-3.0"@
    ||| s == "php-3.01"@
    ||| s == "postgresql"@
    ||| s == "python-2.0"@
    ||| s == "qpl-1.0"@
    ||| s == "rpl-1.1"@
    ||| s == "rpl-1.5"@
    ||| s == "rpsl-1.0"@
    ||| s == "rscpl"@
    ||| s == "simpl-2.0"@
    ||| s == "sissl"@
    ||| s == "sleepycat"@
    ||| s == "spl-1.0"@
    ||| s == "ucl-1.0"@
    ||| s == "unicode-dfs-2016"@
    ||| s == "unlicense"@
    ||| s == "upl-1.0"@
    ||| s == "vsl-1.0"@
    ||| s == "w3c"@
    ||| s == "watcom-1.0"@
    ||| s == "xnet"@
    ||| s == "zlib"@
    ||| s == "zpl-2.0"@
    ||| s == "zpl-2.1"@
}

/// Check a normalized SPDX identifier against the OSI-approved list.
pub fn is_osi_approved(normalized: &str) -> (r: bool)
    ensures
        r == spec_is_osi_approved(normalized@),
{
    let r = false
    || str_eq_str(normalized, "0bsd")
    || str_eq_str(normalized, "aal")
    || str_eq_str(normalized, "afl-3.0")
    || str_eq_str(normalized, "agpl-3.0")
    || str_eq_str(normalized, "apache-1.1")
    || str_eq_str(normalized, "apache-2.0")
    || str_eq_str(normalized, "apsl-2.0")
    || str_eq_str(normalized, "artistic-1.0")
    || str_eq_str(normalized, "artistic-2.0")
    || str_eq_str(normalized, "blueoak-1.0.0")
    || str_eq_str(normalized, "bsd-1-clause")
    || str_eq_str(normalized, "bsd-2-clause")
    || str_eq_str(normalized, "bsd-2-clause-patent")
    || str_eq_str(normalized, "bsd-3-clause")
    || str_eq_str(normalized, "bsd-3-clause-lbnl")
    || str_eq_str(normalized, "bsl-1.0")
    || str_eq_str(normalized, "cal-1.0")
    || str_eq_str(normalized, "cal-1.0-combined-work-exception")
    || str_eq_str(normalized, "catosl-1.1")
    || str_eq_str(normalized, "cern-ohl-p-2.0")
    || str_eq_str(normalized, "cern-ohl-s-2.0")
    || str_eq_str(normalized, "cern-ohl-w-2.0")
    || str_eq_str(normalized, "cnri-python")
    || str_eq_str(normalized, "cpal-1.0")
    || str_eq_str(normalized, "cua-opl-1.0")
    || str_eq_str(normalized, "ecl-1.0")
    || str_eq_str(normalized, "ecl-2.0")
    || str_eq_str(normalized, "ecos-2.0")
    || str_eq_str(normalized, "efl-1.0")
    || str_eq_str(normalized, "efl-2.0")
    || str_eq_str(normalized, "entessa")
    || str_eq_str(normalized, "epl-1.0")
    || str_eq_str(normalized, "epl-2.0")
    || str_eq_str(normalized, "eupl-1.1")
    || str_eq_str(normalized, "eupl-1.2")
    || str_eq_str(normalized, "fair")
    || str_eq_str(normalized, "frameworx-1.0")
    || str_eq_str(normalized, "gpl-2.0")
    || str_eq_str(normalized, "gpl-3.0")
    || str_eq_str(normalized, "hpnd")
    || str_eq_str(normalized, "intel")
    || str_eq_str(normalized, "ipa")
    || str_eq_str(normalized, "ipl-1.0")
    || str_eq_str(normalized, "isc")
    || str_eq_str(normalized, "jam")
    || str_eq_str(normalized, "lgpl-2.0")
    || str_eq_str(normalized, "lgpl-2.1")
    || str_eq_str(normalized, "lgpl-3.0")
    || str_eq_str(normalized, "liliq-p-1.1")
    || str_eq_str(normalized, "liliq-r-1.1")
    || str_eq_str(normalized, "liliq-rplus-1.1")
    || str_eq_str(normalized, "lpl-1.0")
    || str_eq_str(normalized, "lpl-1.02")
    || str_eq_str(normalized, "lppl-1.0")
    || str_eq_str(normalized, "lppl-1.1")
    || str_eq_str(normalized, "lppl-1.2")
    || str_eq_str(normalized, "lppl-1.3a")
    || str_eq_str(normalized, "lppl-1.3c")
    || str_eq_str(normalized, "mit")
    || str_eq_str(normalized, "mit-0")
    || str_eq_str(normalized, "mit-modern-variant")
    || str_eq_str(normalized, "motosoto")
    || str_eq_str(normalized, "mpl-1.0")
    || str_eq_str(normalized, "mpl-1.1")
    || str_eq_str(normalized, "mpl-2.0")
    || str_eq_str(normalized, "ms-pl")
    || str_eq_str(normalized, "ms-rl")
    || str_eq_str(normalized, "mulanpsl-2.0")
    || str_eq_str(normalized, "multics")
    || str_eq_str(normalized, "nasa-1.3")
    || str_eq_str(normalized, "ncsa")
    || str_eq_str(normalized, "ngpl")
    || str_eq_str(normalized, "nokia")
    || str_eq_str(normalized, "nposl-3.0")
    || str_eq_str(normalized, "ntp")
    || str_eq_str(normalized, "oclc-2.0")
    || str_eq_str(normalized, "ofl-1.0")
    || str_eq_str(normalized, "ofl-1.1")
    || str_eq_str(normalized, "ogtsl")
    || str_eq_str(normalized, "oldap-2.8")
    || str_eq_str(normalized, "oset-pl-2.1")
    || str_eq_str(normalized, "osl-1.0")
    || str_eq_str(normalized, "osl-1.1")
    || str_eq_str(normalized, "osl-2.0")
    || str_eq_str(normalized, "osl-2.1")
    || str_eq_str(normalized, "osl-3.0")
    || str_eq_str(normalized, "php-3.0")
    || str_eq_str(normalized, "php-3.01")
    || str_eq_str(normalized, "postgresql")
    || str_eq_str(normalized, "python-2.0")
    || str_eq_str(normalized, "qpl-1.0")
    || str_eq_str(normalized, "rpl-1.1")
    || str_eq_str(normalized, "rpl-1.5")
    || str_eq_str(normalized, "rpsl-1.0")
    || str_eq_str(normalized, "rscpl")
    || str_eq_str(normalized, "simpl-2.0")
    || str_eq_str(normalized, "sissl")
    || str_eq_str(normalized, "sleepycat")
    || str_eq_str(normalized, "spl-1.0")
    || str_eq_str(normalized, "ucl-1.0")
    || str_eq_str(normalized, "unicode-dfs-2016")
    || str_eq_str(normalized, "unlicense")
    || str_eq_str(normalized, "upl-1.0")
    || str_eq_str(normalized, "vsl-1.0")
    || str_eq_str(normalized, "w3c")
    || str_eq_str(normalized, "watcom-1.0")
    || str_eq_str(normalized, "xnet")
    || str_eq_str(normalized, "zlib")
    || str_eq_str(normalized, "zpl-2.0")
    || str_eq_str(normalized, "zpl-2.1");
    r
}

/// Whether every license in the list is OSI-approved after normalization.
pub open spec fn spec_all_osi(licenses: Seq<String>) -> bool {
    forall|i: int|
        0 <= i < licenses.len() ==> spec_is_osi_approved(
            spec_normalize_spdx(#[trigger] licenses[i]@),
        )
}

/// Enrichment backend that classifies a project as open source when every
/// one of its licenses is OSI-approved. Requires no network access.
#[derive(Debug)]
pub struct LicenseClassifyBackend;

impl LicenseClassifyBackend {
    /// Set `is_open_source` from the license list: a project with licenses
    /// is open source exactly when all of them are OSI-approved; a project
    /// without licenses stays unclassified.
    pub fn classify(project: &UpstreamProject) -> (r: UpstreamProject)
        ensures
            r.name == project.name,
            r.repo_url == project.repo_url,
            r.homepage == project.homepage,
            r.licenses@ == project.licenses@,
            r.funding@ == project.funding@,
            r.bug_tracker == project.bug_tracker,
            r.contributing_url == project.contributing_url,
            r.documentation_url == project.documentation_url,
            r.good_first_issues_url == project.good_first_issues_url,
            r.stars == project.stars,
            project.licenses@.len() == 0 ==> r.is_open_source == project.is_open_source,
            project.licenses@.len() > 0 ==> r.is_open_source == Some(
                spec_all_osi(project.licenses@),
            ),
    {
        let mut enriched = project.clone();
        if enriched.licenses.len() > 0 {
            let mut all_osi = true;
            let mut i: usize = 0;
            while i < project.licenses.len()
                invariant
                    i <= project.licenses@.len(),
                    all_osi == (forall|k: int|
                        0 <= k < i ==> spec_is_osi_approved(
                            spec_normalize_spdx(#[trigger] project.licenses@[k]@),
                        )),
                decreases project.licenses@.len() - i,
            {
                let norm = normalize_spdx(project.licenses[i].as_str());
                if !is_osi_approved(norm.as_str()) {
                    all_osi = false;
                }
                i += 1;
            }
            enriched.is_open_source = Some(all_osi);
        }
        enriched
    }
}

} // verus!
