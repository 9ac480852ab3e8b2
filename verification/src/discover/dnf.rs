//! Parsing `rpm -qa` query output. Running the command happens outside the
//! library.

use vstd::prelude::*;

use crate::discover::{InstalledPackage, PackageSource, ParseError};
use crate::strutil::{spec_split, spec_split_lines, split_char_str, split_lines_str, views_of};

verus! {

/// An optional tab-separated column: present when it exists, is non-empty
/// and is not the literal `(none)` RPM uses for missing values.
pub open spec fn spec_rpm_col(fs: Seq<Seq<char>>, i: int) -> Option<Seq<char>> {
    if i < fs.len() && fs[i].len() > 0 && fs[i] != "(none)"@ {
        Some(fs[i])
    } else {
        None
    }
}

/// The parse of one `rpm -qa` line. Columns: name, version-release,
/// summary, URL, license. Fails only when the name column is empty.
pub open spec fn spec_rpm_line(line: Seq<char>) -> Option<
    (Seq<char>, Seq<char>, Option<Seq<char>>, Option<Seq<char>>, Option<Seq<char>>),
> {
    let fs = spec_split(line, '\t');
    if fs[0].len() == 0 {
        None
    } else {
        let version = if 1 < fs.len() && fs[1].len() > 0 {
            fs[1]
        } else {
            "unknown"@
        };
        Some((fs[0], version, spec_rpm_col(fs, 2), spec_rpm_col(fs, 3), spec_rpm_col(fs, 4)))
    }
}

/// Parse a single tab-separated line of `rpm -qa --queryformat` output.
pub fn parse_rpm_line(line: &str) -> (r: Result<InstalledPackage, ParseError>)
    ensures
        r is Ok <==> spec_rpm_line(line@) is Some,
        r is Ok ==> ({
            let p = r->Ok_0;
            let e = spec_rpm_line(line@)->0;
            &&& p.name@ == e.0
            &&& p.version@ == e.1
            &&& (p.description is Some <==> e.2 is Some)
            &&& (p.description is Some ==> p.description->0@ == e.2->0)
            &&& (p.url is Some <==> e.3 is Some)
            &&& (p.url is Some ==> p.url->0@ == e.3->0)
            &&& p.source is Dnf
            &&& (e.4 is Some ==> p.licenses@.len() == 1 && p.licenses@[0]@ == e.4->0)
            &&& (e.4 is None ==> p.licenses@.len() == 0)
        }),
{
    let fields = split_char_str(line, '\t');
    let ghost fv = views_of(fields@);
    proof {
        crate::strutil::lemma_split_nonempty(line@, '\t');
        assert(fv[0] == fields@[0]@);
    }
    if fields[0].as_str().unicode_len() == 0 {
        return Err(ParseError { message: "Missing package name".to_owned() });
    }
    let name = fields[0].clone();
    let version = if fields.len() > 1 && fields[1].as_str().unicode_len() > 0 {
        proof {
            assert(fv[1] == fields@[1]@);
        }
        fields[1].clone()
    } else {
        proof {
            if 1 < fv.len() {
                assert(fv[1] == fields@[1]@);
            }
        }
        "unknown".to_owned()
    };
    let description = rpm_col(&fields, 2);
    let url = rpm_col(&fields, 3);
    let mut licenses: Vec<String> = Vec::new();
    match rpm_col(&fields, 4) {
        Some(l) => {
            licenses.push(l);
            proof {
                assert(licenses@[0]@ == spec_rpm_col(fv, 4)->0);
            }
        },
        None => {},
    }
    Ok(
        InstalledPackage {
            name,
            version,
            description,
            url,
            source: PackageSource::Dnf,
            licenses,
        },
    )
}

/// Read one optional RPM column.
fn rpm_col(fields: &Vec<String>, i: usize) -> (r: Option<String>)
    ensures
        r is Some <==> spec_rpm_col(views_of(fields@), i as int) is Some,
        r is Some ==> r->0@ == spec_rpm_col(views_of(fields@), i as int)->0,
{
    if i < fields.len() {
        proof {
            assert(views_of(fields@)[i as int] == fields@[i as int]@);
        }
        if fields[i].as_str().unicode_len() > 0 && !crate::strutil::str_eq_str(
            fields[i].as_str(),
            "(none)",
        ) {
            Some(fields[i].clone())
        } else {
            None
        }
    } else {
        None
    }
}

/// The parsed entries of whole `rpm -qa` output: one per nonempty line
/// whose name column is present.
pub open spec fn spec_rpm_pkgs(lines: Seq<Seq<char>>) -> Seq<
    (Seq<char>, Seq<char>, Option<Seq<char>>, Option<Seq<char>>, Option<Seq<char>>),
>
    decreases lines.len(),
{
    if lines.len() == 0 {
        Seq::<(Seq<char>, Seq<char>, Option<Seq<char>>, Option<Seq<char>>, Option<Seq<char>>)>::empty()
    } else {
        spec_rpm_pkgs(lines.drop_last()) + (if lines.last().len() > 0 {
            match spec_rpm_line(lines.last()) {
                Some(e) => seq![e],
                None => Seq::<
                    (Seq<char>, Seq<char>, Option<Seq<char>>, Option<Seq<char>>, Option<Seq<char>>),
                >::empty(),
            }
        } else {
            Seq::<
                (Seq<char>, Seq<char>, Option<Seq<char>>, Option<Seq<char>>, Option<Seq<char>>),
            >::empty()
        })
    }
}

/// The column views of a parsed package list from this module.
pub open spec fn spec_rpm_views(pkgs: Seq<InstalledPackage>) -> Seq<
    (Seq<char>, Seq<char>, Option<Seq<char>>, Option<Seq<char>>, Option<Seq<char>>),
> {
    pkgs.map_values(
        |p: InstalledPackage|
            (
                p.name@,
                p.version@,
                match p.description {
                    Some(d) => Some(d@),
                    None => None,
                },
                match p.url {
                    Some(u) => Some(u@),
                    None => None,
                },
                if p.licenses@.len() > 0 {
                    Some(p.licenses@[0]@)
                } else {
                    None
                },
            ),
    )
}

/// Parse the tab-separated output of `rpm -qa --queryformat`, skipping
/// blank lines and lines without a package name.
pub fn parse_rpm_output(output: &str) -> (r: Vec<InstalledPackage>)
    ensures
        spec_rpm_views(r@) == spec_rpm_pkgs(spec_split_lines(output@)),
        forall|i: int| 0 <= i < r@.len() ==> (#[trigger] r@[i]).source is Dnf,
{
    let lines = split_lines_str(output);
    let ghost lv = views_of(lines@);
    let mut r: Vec<InstalledPackage> = Vec::new();
    let mut i: usize = 0;
    proof {
        assert(spec_rpm_views(r@) =~= spec_rpm_pkgs(lv.take(0)));
    }
    while i < lines.len()
        invariant
            i <= lines@.len(),
            lv == views_of(lines@),
            spec_rpm_views(r@) == spec_rpm_pkgs(lv.take(i as int)),
            forall|k: int| 0 <= k < r@.len() ==> (#[trigger] r@[k]).source is Dnf,
        decreases lines@.len() - i,
    {
        proof {
            assert(lv.take(i + 1).drop_last() =~= lv.take(i as int));
            assert(lv.take(i + 1).last() == lv[i as int]);
            assert(lv[i as int] == lines@[i as int]@);
        }
        if lines[i].as_str().unicode_len() > 0 {
            match parse_rpm_line(lines[i].as_str()) {
                Ok(pkg) => {
                    r.push(pkg);
                    proof {
                        assert(spec_rpm_views(r@) =~= spec_rpm_pkgs(lv.take(i + 1)));
                    }
                },
                Err(_) => {
                    proof {
                        assert(spec_rpm_pkgs(lv.take(i + 1)) =~= spec_rpm_pkgs(lv.take(i as int)));
                    }
                },
            }
        } else {
            proof {
                assert(spec_rpm_pkgs(lv.take(i + 1)) =~= spec_rpm_pkgs(lv.take(i as int)));
            }
        }
        i += 1;
    }
    proof {
        assert(lv.take(lv.len() as int) =~= lv);
    }
    r
}

} // verus!
