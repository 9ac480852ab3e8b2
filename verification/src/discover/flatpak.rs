//! Parsing `flatpak list` output. Running the command happens outside the
//! library.

use vstd::prelude::*;

use crate::discover::{InstalledPackage, PackageSource, ParseError};
use crate::strutil::{spec_split, spec_split_lines, split_char_str, split_lines_str, views_of};

verus! {

/// The parse of one `flatpak list` line. Columns: application ID, version,
/// description, origin. Fails only when the application ID is empty.
pub open spec fn spec_flatpak_line(line: Seq<char>) -> Option<
    (Seq<char>, Seq<char>, Option<Seq<char>>),
> {
    let fs = spec_split(line, '\t');
    if fs[0].len() == 0 {
        None
    } else {
        let version = if 1 < fs.len() && fs[1].len() > 0 {
            fs[1]
        } else {
            "unknown"@
        };
        let description = if 2 < fs.len() && fs[2].len() > 0 {
            Some(fs[2])
        } else {
            None
        };
        Some((fs[0], version, description))
    }
}

/// Parse a single tab-separated line of `flatpak list` output.
pub fn parse_flatpak_line(line: &str) -> (r: Result<InstalledPackage, ParseError>)
    ensures
        r is Ok <==> spec_flatpak_line(line@) is Some,
        r is Ok ==> ({
            let p = r->Ok_0;
            let e = spec_flatpak_line(line@)->0;
            &&& p.name@ == e.0
            &&& p.version@ == e.1
            &&& (p.description is Some <==> e.2 is Some)
            &&& (p.description is Some ==> p.description->0@ == e.2->0)
            &&& p.url is None
            &&& p.source is Flatpak
            &&& p.licenses@.len() == 0
        }),
{
    let fields = split_char_str(line, '\t');
    let ghost fv = views_of(fields@);
    proof {
        crate::strutil::lemma_split_nonempty(line@, '\t');
        assert(fv[0] == fields@[0]@);
    }
    if fields[0].as_str().unicode_len() == 0 {
        return Err(ParseError { message: "Missing application ID".to_owned() });
    }
    let name = fields[0].clone();
    let version = if fields.len() > 1 && fields[1].as_str().unicode_len() > 0 {
        proof {
            assert(fv[1] == fields@[1]@);
        }
        fields[1].clone()
    } else {
        proof {
            if 1 < fv.len() {
                assert(fv[1] == fields@[1]@);
            }
        }
        "unknown".to_owned()
    };
    let description = if fields.len() > 2 && fields[2].as_str().unicode_len() > 0 {
        proof {
            assert(fv[2] == fields@[2]@);
        }
        Some(fields[2].clone())
    } else {
        proof {
            if 2 < fv.len() {
                assert(fv[2] == fields@[2]@);
            }
        }
        None
    };
    Ok(
        InstalledPackage {
            name,
            version,
            description,
            url: None,
            source: PackageSource::Flatpak,
            licenses: Vec::new(),
        },
    )
}

/// The parsed entries of whole `flatpak list` output: one per nonempty
/// line whose application ID is present.
pub open spec fn spec_flatpak_pkgs(lines: Seq<Seq<char>>) -> Seq<
    (Seq<char>, Seq<char>, Option<Seq<char>>),
>
    decreases lines.len(),
{
    if lines.len() == 0 {
        Seq::<(Seq<char>, Seq<char>, Option<Seq<char>>)>::empty()
    } else {
        spec_flatpak_pkgs(lines.drop_last()) + (if lines.last().len() > 0 {
            match spec_flatpak_line(lines.last()) {
                Some(e) => seq![e],
                None => Seq::<(Seq<char>, Seq<char>, Option<Seq<char>>)>::empty(),
            }
        } else {
            Seq::<(Seq<char>, Seq<char>, Option<Seq<char>>)>::empty()
        })
    }
}

/// The column views of a parsed package list from this module.
pub open spec fn spec_flatpak_views(pkgs: Seq<InstalledPackage>) -> Seq<
    (Seq<char>, Seq<char>, Option<Seq<char>>),
> {
    pkgs.map_values(
        |p: InstalledPackage|
            (
                p.name@,
                p.version@,
                match p.description {
                    Some(d) => Some(d@),
                    None => None,
                },
            ),
    )
}

/// Parse the tab-separated output of `flatpak list`, skipping blank lines
/// and lines without an application ID.
pub fn parse_flatpak_output(output: &str) -> (r: Vec<InstalledPackage>)
    ensures
        spec_flatpak_views(r@) == spec_flatpak_pkgs(spec_split_lines(output@)),
        forall|i: int|
            0 <= i < r@.len() ==> (#[trigger] r@[i]).source is Flatpak && r@[i].url is None
                && r@[i].licenses@.len() == 0,
{
    let lines = split_lines_str(output);
    let ghost lv = views_of(lines@);
    let mut r: Vec<InstalledPackage> = Vec::new();
    let mut i: usize = 0;
    proof {
        assert(spec_flatpak_views(r@) =~= spec_flatpak_pkgs(lv.take(0)));
    }
    while i < lines.len()
        invariant
            i <= lines@.len(),
            lv == views_of(lines@),
            spec_flatpak_views(r@) == spec_flatpak_pkgs(lv.take(i as int)),
            forall|k: int|
                0 <= k < r@.len() ==> (#[trigger] r@[k]).source is Flatpak && r@[k].url is None
                    && r@[k].licenses@.len() == 0,
        decreases lines@.len() - i,
    {
        proof {
            assert(lv.take(i + 1).drop_last() =~= lv.take(i as int));
            assert(lv.take(i + 1).last() == lv[i as int]);
            assert(lv[i as int] == lines@[i as int]@);
        }
        if lines[i].as_str().unicode_len() > 0 {
            match parse_flatpak_line(lines[i].as_str()) {
                Ok(pkg) => {
                    r.push(pkg);
                    proof {
                        assert(spec_flatpak_views(r@) =~= spec_flatpak_pkgs(lv.take(i + 1)));
                    }
                },
                Err(_) => {
                    proof {
                        assert(spec_flatpak_pkgs(lv.take(i + 1)) =~= spec_flatpak_pkgs(
                            lv.take(i as int),
                        ));
                    }
                },
            }
        } else {
            proof {
                assert(spec_flatpak_pkgs(lv.take(i + 1)) =~= spec_flatpak_pkgs(lv.take(i as int)));
            }
        }
        i += 1;
    }
    proof {
        assert(lv.take(lv.len() as int) =~= lv);
    }
    r
}

} // verus!
