//! Parsing Nix store paths and `nix profile list` output. Running the
//! commands and reading the store happen outside the library.

use vstd::prelude::*;

use crate::discover::{InstalledPackage, PackageSource};
use crate::strutil::{
    fields_of, has_prefix, is_digit_char, spec_fields, spec_split_lines, spec_trim, split_lines_str,
    str_eq_str, strip_prefix_str, substring_string, trim_str, views_of,
};

verus! {

/// The split position of a Nix `name-version` string: the last `-` that is
/// immediately followed by a digit, or -1 when there is none.
pub open spec fn spec_nv_pos(s: Seq<char>) -> int
    decreases s.len(),
{
    if s.len() < 2 {
        -1
    } else if s[s.len() - 2] == '-' && is_digit_char(s.last()) {
        s.len() - 2
    } else {
        spec_nv_pos(s.drop_last())
    }
}

/// The (name, version) split of a Nix derivation name: the version starts
/// after the last `-` that is followed by a digit; without one, the whole
/// string is the name and the version is `unknown`.
pub open spec fn spec_split_name_version(s: Seq<char>) -> (Seq<char>, Seq<char>) {
    let p = spec_nv_pos(s);
    if p == -1 {
        (s, "unknown"@)
    } else {
        (s.take(p), s.skip(p + 1))
    }
}

/// Split a Nix derivation `name-version` string into name and version.
pub fn split_name_version(s: &str) -> (r: (String, String))
    ensures
        (r.0@, r.1@) == spec_split_name_version(s@),
{
    let n = s.unicode_len();
    let mut j: usize = n;
    proof {
        assert(s@.take(n as int) =~= s@);
    }
    while j >= 2
        invariant
            j <= n,
            n == s@.len(),
            spec_nv_pos(s@) == spec_nv_pos(s@.take(j as int)),
        decreases j,
    {
        proof {
            assert(s@.take(j as int)[j - 2] == s@[j - 2]);
            assert(s@.take(j as int).last() == s@[j - 1]);
            assert(s@.take(j as int).drop_last() =~= s@.take(j - 1));
        }
        if s.get_char(j - 2) == '-' && crate::strutil::char_is_digit(s.get_char(j - 1)) {
            proof {
                assert(spec_nv_pos(s@) == j - 2);
            }
            let name = substring_string(s, 0, j - 2);
            let version = substring_string(s, j - 1, n);
            proof {
                assert(name@ == s@.take(j - 2));
                assert(version@ == s@.skip(j - 2 + 1));
            }
            return (name, version);
        }
        j -= 1;
    }
    proof {
        assert(spec_nv_pos(s@.take(j as int)) == -1);
        assert(s@.take(n as int) =~= s@);
    }
    (s.to_owned(), "unknown".to_owned())
}

/// The (name, version) parse of a Nix store path, which must have the form
/// `/nix/store/<32-character hash>-<name>[-<version>]`.
pub open spec fn spec_store_nv(path: Seq<char>) -> Option<(Seq<char>, Seq<char>)> {
    if !"/nix/store/"@.is_prefix_of(path) {
        None
    } else {
        let after = path.skip("/nix/store/"@.len() as int);
        if after.len() < 34 || after[32] != '-' {
            None
        } else {
            Some(spec_split_name_version(after.skip(33)))
        }
    }
}

/// Parse a Nix store path into a package, reading the name and version
/// from the part after the 32-character hash.
pub fn parse_store_path(path: &str) -> (r: Option<InstalledPackage>)
    ensures
        r is Some <==> spec_store_nv(path@) is Some,
        r is Some ==> ({
            let p = r->0;
            let nv = spec_store_nv(path@)->0;
            &&& p.name@ == nv.0
            &&& p.version@ == nv.1
            &&& p.description is None
            &&& p.url is None
            &&& p.source is Nix
            &&& p.licenses@.len() == 0
        }),
{
    let after = match strip_prefix_str(path, "/nix/store/") {
        Some(x) => x,
        None => {
            return None;
        },
    };
    let n = after.as_str().unicode_len();
    if n < 34 || after.as_str().get_char(32) != '-' {
        return None;
    }
    let name_version = substring_string(after.as_str(), 33, n);
    proof {
        assert(name_version@ == after@.skip(33));
    }
    let (name, version) = split_name_version(name_version.as_str());
    Some(
        InstalledPackage {
            name,
            version,
            description: None,
            url: None,
            source: PackageSource::Nix,
            licenses: Vec::new(),
        },
    )
}

/// The package a store path contributes, as zero or one entries.
pub open spec fn spec_store_pkgs(field: Seq<char>) -> Seq<(Seq<char>, Seq<char>)> {
    match spec_store_nv(field) {
        Some(nv) => seq![nv],
        None => Seq::<(Seq<char>, Seq<char>)>::empty(),
    }
}

/// The first whitespace-separated field of `s` that begins with
/// `/nix/store/`, if any.
pub open spec fn spec_first_store_field(fields: Seq<Seq<char>>) -> Option<Seq<char>>
    decreases fields.len(),
{
    if fields.len() == 0 {
        None
    } else if "/nix/store/"@.is_prefix_of(fields[0]) {
        Some(fields[0])
    } else {
        spec_first_store_field(fields.drop_first())
    }
}

/// The packages of one legacy-format line: its first store-path field,
/// when that field parses.
pub open spec fn spec_legacy_line_pkgs(line: Seq<char>) -> Seq<(Seq<char>, Seq<char>)> {
    let t = spec_trim(line);
    if t.len() == 0 {
        Seq::<(Seq<char>, Seq<char>)>::empty()
    } else {
        match spec_first_store_field(spec_fields(t)) {
            Some(f) => spec_store_pkgs(f),
            None => Seq::<(Seq<char>, Seq<char>)>::empty(),
        }
    }
}

/// The (name, version) pairs of all packages in legacy profile output.
pub open spec fn spec_legacy_pkgs(lines: Seq<Seq<char>>) -> Seq<(Seq<char>, Seq<char>)>
    decreases lines.len(),
{
    if lines.len() == 0 {
        Seq::<(Seq<char>, Seq<char>)>::empty()
    } else {
        spec_legacy_pkgs(lines.drop_last()) + spec_legacy_line_pkgs(lines.last())
    }
}

/// The (name, version) views of a package list from this module: every
/// other field is fixed by construction.
pub open spec fn spec_nix_views(pkgs: Seq<InstalledPackage>) -> Seq<(Seq<char>, Seq<char>)> {
    pkgs.map_values(|p: InstalledPackage| (p.name@, p.version@))
}

/// Whether every package came from the Nix source with no extras.
pub open spec fn spec_all_nix(pkgs: Seq<InstalledPackage>) -> bool {
    forall|i: int|
        0 <= i < pkgs.len() ==> {
            let p = #[trigger] pkgs[i];
            &&& p.description is None
            &&& p.url is None
            &&& p.source is Nix
            &&& p.licenses@.len() == 0
        }
}

/// Parse the legacy single-line `nix profile list` format: each line's
/// first `/nix/store/` field names one package.
pub fn parse_legacy_profile_format(output: &str) -> (r: Vec<InstalledPackage>)
    ensures
        spec_nix_views(r@) == spec_legacy_pkgs(spec_split_lines(output@)),
        spec_all_nix(r@),
{
    let lines = split_lines_str(output);
    let ghost lv = views_of(lines@);
    let mut r: Vec<InstalledPackage> = Vec::new();
    let mut i: usize = 0;
    proof {
        assert(spec_nix_views(r@) =~= spec_legacy_pkgs(lv.take(0)));
    }
    while i < lines.len()
        invariant
            i <= lines@.len(),
            lv == views_of(lines@),
            spec_nix_views(r@) == spec_legacy_pkgs(lv.take(i as int)),
            spec_all_nix(r@),
        decreases lines@.len() - i,
    {
        proof {
            assert(lv.take(i + 1).drop_last() =~= lv.take(i as int));
            assert(lv.take(i + 1).last() == lv[i as int]);
            assert(lv[i as int] == lines@[i as int]@);
        }
        let t = trim_str(lines[i].as_str());
        if t.as_str().unicode_len() > 0 {
            let fields = fields_of(t.as_str());
            let ghost fv = views_of(fields@);
            let mut k: usize = 0;
            let mut found: Option<String> = None;
            proof {
                assert(fv.skip(0) =~= fv);
            }
            while k < fields.len() && found.is_none()
                invariant
                    k <= fields@.len(),
                    fv == views_of(fields@),
                    found is None ==> spec_first_store_field(fv) == spec_first_store_field(
                        fv.skip(k as int),
                    ),
                    found is Some ==> spec_first_store_field(fv) is Some && found->0@
                        == spec_first_store_field(fv)->0,
                decreases fields@.len() - k + (if found is None {
                    1int
                } else {
                    0int
                }),
            {
                proof {
                    assert(fv.skip(k as int)[0] == fv[k as int]);
                    assert(fv[k as int] == fields@[k as int]@);
                    assert(fv.skip(k as int).drop_first() =~= fv.skip(k + 1));
                }
                if has_prefix(fields[k].as_str(), "/nix/store/") {
                    found = Some(fields[k].clone());
                    proof {
                        assert(spec_first_store_field(fv.skip(k as int)) == Some(fv[k as int]));
                    }
                } else {
                    k += 1;
                }
            }
            proof {
                if found is None {
                    assert(fv.skip(fv.len() as int) =~= Seq::<Seq<char>>::empty());
                    assert(spec_first_store_field(fv) is None);
                }
                assert(fv == spec_fields(t@));
            }
            match found {
                Some(f) => {
                    proof {
                        assert(spec_legacy_line_pkgs(lv[i as int]) == spec_store_pkgs(f@));
                    }
                    match parse_store_path(f.as_str()) {
                        Some(pkg) => {
                            r.push(pkg);
                            proof {
                                assert(spec_nix_views(r@) =~= spec_legacy_pkgs(lv.take(i + 1)));
                            }
                        },
                        None => {
                            proof {
                                assert(spec_legacy_pkgs(lv.take(i + 1)) =~= spec_legacy_pkgs(
                                    lv.take(i as int),
                                ));
                            }
                        },
                    }
                },
                None => {
                    proof {
                        assert(spec_legacy_line_pkgs(lv[i as int]) =~= Seq::<(
                            Seq<char>,
                            Seq<char>,
                        )>::empty());
                        assert(spec_legacy_pkgs(lv.take(i + 1)) =~= spec_legacy_pkgs(
                            lv.take(i as int),
                        ));
                    }
                },
            }
        } else {
            proof {
                assert(spec_legacy_pkgs(lv.take(i + 1)) =~= spec_legacy_pkgs(lv.take(i as int)));
            }
        }
        i += 1;
    }
    proof {
        assert(lv.take(lv.len() as int) =~= lv);
    }
    r
}

/// The store path a flushed entry contributes: its first whitespace field,
/// or the whole entry when it has no fields.
pub open spec fn spec_entry_first_path(sp: Seq<char>) -> Seq<char> {
    let fs = spec_fields(sp);
    if fs.len() == 0 {
        sp
    } else {
        fs[0]
    }
}

/// One step of the new-format scan: a `Store paths:` line records the
/// paths; a blank or `Name:` line flushes the recorded entry.
pub open spec fn spec_new_step(
    st: (Option<Seq<char>>, Seq<(Seq<char>, Seq<char>)>),
    line: Seq<char>,
) -> (Option<Seq<char>>, Seq<(Seq<char>, Seq<char>)>) {
    let t = spec_trim(line);
    let recorded = if "Store paths:"@.is_prefix_of(t) {
        Some(spec_trim(t.skip("Store paths:"@.len() as int)))
    } else if "Store path:"@.is_prefix_of(t) {
        Some(spec_trim(t.skip("Store path:"@.len() as int)))
    } else {
        st.0
    };
    if (t.len() == 0 || "Name:"@.is_prefix_of(t)) && recorded is Some {
        (None, st.1 + spec_store_pkgs(spec_entry_first_path(recorded->0)))
    } else {
        (recorded, st.1)
    }
}

/// The scan state after all lines of new-format output.
pub open spec fn spec_new_scan(lines: Seq<Seq<char>>) -> (
    Option<Seq<char>>,
    Seq<(Seq<char>, Seq<char>)>,
)
    decreases lines.len(),
{
    if lines.len() == 0 {
        (None, Seq::<(Seq<char>, Seq<char>)>::empty())
    } else {
        spec_new_step(spec_new_scan(lines.drop_last()), lines.last())
    }
}

/// The packages of new-format output: the scanned entries, plus a final
/// flush of a still-recorded entry.
pub open spec fn spec_new_pkgs(lines: Seq<Seq<char>>) -> Seq<(Seq<char>, Seq<char>)> {
    let st = spec_new_scan(lines);
    match st.0 {
        Some(sp) => st.1 + spec_store_pkgs(spec_entry_first_path(sp)),
        None => st.1,
    }
}

/// Flush helper: parse the first field of a recorded `Store paths:` entry.
fn flush_entry(sp: &str, r: &mut Vec<InstalledPackage>)
    requires
        spec_all_nix(old(r)@),
    ensures
        spec_nix_views(final(r)@) == spec_nix_views(old(r)@) + spec_store_pkgs(
            spec_entry_first_path(sp@),
        ),
        spec_all_nix(final(r)@),
{
    let fields = fields_of(sp);
    let first: String = if fields.len() > 0 {
        proof {
            assert(views_of(fields@)[0] == fields@[0]@);
        }
        fields[0].clone()
    } else {
        sp.to_owned()
    };
    proof {
        assert(first@ == spec_entry_first_path(sp@));
    }
    match parse_store_path(first.as_str()) {
        Some(pkg) => {
            r.push(pkg);
            proof {
                assert(spec_nix_views(r@) =~= spec_nix_views(old(r)@) + spec_store_pkgs(
                    spec_entry_first_path(sp@),
                ));
            }
        },
        None => {
            proof {
                assert(spec_nix_views(r@) =~= spec_nix_views(old(r)@) + spec_store_pkgs(
                    spec_entry_first_path(sp@),
                ));
            }
        },
    }
}

/// Parse the multi-line `nix profile list` format, where each entry's
/// `Store paths:` line carries its store path and a blank or `Name:` line
/// ends the entry.
pub fn parse_new_profile_format(output: &str) -> (r: Vec<InstalledPackage>)
    ensures
        spec_nix_views(r@) == spec_new_pkgs(spec_split_lines(output@)),
        spec_all_nix(r@),
{
    let lines = split_lines_str(output);
    let ghost lv = views_of(lines@);
    let mut r: Vec<InstalledPackage> = Vec::new();
    let mut current: Option<String> = None;
    let mut i: usize = 0;
    proof {
        assert(spec_new_scan(lv.take(0)) == (
            None::<Seq<char>>,
            Seq::<(Seq<char>, Seq<char>)>::empty(),
        ));
        assert(spec_nix_views(r@) =~= Seq::<(Seq<char>, Seq<char>)>::empty());
    }
    while i < lines.len()
        invariant
            i <= lines@.len(),
            lv == views_of(lines@),
            spec_all_nix(r@),
            ({
                let st = spec_new_scan(lv.take(i as int));
                &&& (current is Some <==> st.0 is Some)
                &&& (current is Some ==> current->0@ == st.0->0)
                &&& spec_nix_views(r@) == st.1
            }),
        decreases lines@.len() - i,
    {
        proof {
            assert(lv.take(i + 1).drop_last() =~= lv.take(i as int));
            assert(lv.take(i + 1).last() == lv[i as int]);
            assert(lv[i as int] == lines@[i as int]@);
        }
        let t = trim_str(lines[i].as_str());
        let tn = t.as_str().unicode_len();
        match strip_prefix_str(t.as_str(), "Store paths:") {
            Some(rest) => {
                current = Some(trim_str(rest.as_str()));
            },
            None => {
                match strip_prefix_str(t.as_str(), "Store path:") {
                    Some(rest) => {
                        current = Some(trim_str(rest.as_str()));
                    },
                    None => {},
                }
            },
        }
        if (tn == 0 || has_prefix(t.as_str(), "Name:")) && current.is_some() {
            match &current {
                Some(sp) => {
                    let sp2 = sp.clone();
                    flush_entry(sp2.as_str(), &mut r);
                },
                None => {},
            }
            current = None;
        }
        i += 1;
    }
    proof {
        assert(lv.take(lv.len() as int) =~= lv);
    }
    match &current {
        Some(sp) => {
            let sp2 = sp.clone();
            flush_entry(sp2.as_str(), &mut r);
        },
        None => {},
    }
    r
}

/// Parse `nix profile list` output in whichever format it uses: the
/// multi-line format when a `Store paths:` marker occurs, else the legacy
/// single-line format.
pub fn parse_profile_output(output: &str) -> (r: Vec<InstalledPackage>)
    ensures
        crate::strutil::spec_contains_sub(output@, "Store paths:"@) || crate::strutil::spec_contains_sub(
            output@,
            "Store path:"@,
        ) ==> spec_nix_views(r@) == spec_new_pkgs(spec_split_lines(output@)),
        !(crate::strutil::spec_contains_sub(output@, "Store paths:"@)
            || crate::strutil::spec_contains_sub(output@, "Store path:"@)) ==> spec_nix_views(r@)
            == spec_legacy_pkgs(spec_split_lines(output@)),
        spec_all_nix(r@),
{
    if crate::strutil::contains_sub_str(output, "Store paths:") || crate::strutil::contains_sub_str(
        output,
        "Store path:",
    ) {
        parse_new_profile_format(output)
    } else {
        parse_legacy_profile_format(output)
    }
}

/// Whether some package in `pkgs` is named `name`.
pub open spec fn spec_name_in(pkgs: Seq<InstalledPackage>, name: Seq<char>) -> bool {
    exists|i: int| 0 <= i < pkgs.len() && #[trigger] pkgs[i].name@ == name
}

/// The package list with earlier duplicates removed: a package stays
/// exactly when no later package has the same name.
pub open spec fn spec_dedup_keep_last(pkgs: Seq<InstalledPackage>) -> Seq<InstalledPackage>
    decreases pkgs.len(),
{
    if pkgs.len() == 0 {
        Seq::<InstalledPackage>::empty()
    } else if spec_name_in(pkgs.drop_first(), pkgs[0].name@) {
        spec_dedup_keep_last(pkgs.drop_first())
    } else {
        seq![pkgs[0]] + spec_dedup_keep_last(pkgs.drop_first())
    }
}

/// Whether any package at index `from` or later is named `name`.
fn name_in_tail(packages: &Vec<InstalledPackage>, from: usize, name: &str) -> (r: bool)
    requires
        from <= packages@.len(),
    ensures
        r == spec_name_in(packages@.skip(from as int), name@),
{
    let mut k = from;
    while k < packages.len()
        invariant
            from <= k <= packages@.len(),
            forall|j: int| from <= j < k ==> #[trigger] packages@[j].name@ != name@,
        decreases packages@.len() - k,
    {
        if str_eq_str(packages[k].name.as_str(), name) {
            proof {
                assert(packages@.skip(from as int)[k - from].name@ == name@);
            }
            return true;
        }
        k += 1;
    }
    proof {
        assert forall|j: int| 0 <= j < packages@.skip(from as int).len() implies #[trigger] packages@.skip(
            from as int,
        )[j].name@ != name@ by {
            assert(packages@.skip(from as int)[j] == packages@[from + j]);
        }
    }
    false
}

/// Remove duplicate packages by name, keeping the last occurrence (system
/// packages override profile ones).
pub fn dedup_packages(packages: &mut Vec<InstalledPackage>)
    ensures
        final(packages)@ == spec_dedup_keep_last(old(packages)@),
{
    let ghost orig = old(packages)@;
    let mut i: usize = 0;
    proof {
        assert(packages@.take(0) =~= Seq::<InstalledPackage>::empty());
        assert(packages@.skip(0) =~= packages@);
    }
    while i < packages.len()
        invariant
            i <= packages@.len(),
            spec_dedup_keep_last(orig) == packages@.take(i as int) + spec_dedup_keep_last(
                packages@.skip(i as int),
            ),
        decreases packages@.len() - i,
    {
        let ghost pv = packages@;
        proof {
            assert(pv.skip(i as int)[0] == pv[i as int]);
            assert(pv.skip(i as int).drop_first() =~= pv.skip(i + 1));
        }
        let name = packages[i].name.clone();
        proof {
            assert(name@ == pv[i as int].name@);
        }
        if name_in_tail(packages, i + 1, name.as_str()) {
            packages.remove(i);
            proof {
                assert(packages@.take(i as int) =~= pv.take(i as int));
                assert(packages@.skip(i as int) =~= pv.skip(i + 1));
            }
        } else {
            proof {
                assert(pv.take(i as int) + (seq![pv[i as int]] + spec_dedup_keep_last(
                    pv.skip(i + 1),
                )) =~= pv.take(i + 1) + spec_dedup_keep_last(pv.skip(i + 1)));
            }
            i += 1;
        }
    }
    proof {
        assert(packages@.skip(i as int) =~= Seq::<InstalledPackage>::empty());
        assert(packages@.take(i as int) =~= packages@);
    }
}

} // verus!
