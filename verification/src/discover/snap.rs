//! Parsing `snap list` output and snap.yaml descriptions. Running the
//! command and reading files happen outside the library.

use vstd::prelude::*;

use crate::discover::{InstalledPackage, PackageSource, ParseError};
use crate::strutil::{
    fields_of, spec_fields, spec_split_lines, spec_trim, split_lines_str, strip_prefix_str,
    trim_str, views_of,
};

verus! {

/// The (name, version) parse of one `snap list` row: the first two
/// whitespace-separated columns, the version defaulting to `unknown`.
pub open spec fn spec_snap_line(line: Seq<char>) -> Option<(Seq<char>, Seq<char>)> {
    let fs = spec_fields(line);
    if fs.len() == 0 {
        None
    } else if fs.len() == 1 {
        Some((fs[0], "unknown"@))
    } else {
        Some((fs[0], fs[1]))
    }
}

/// Parse a single `snap list` row into a package; fails when the row has
/// no columns at all.
pub fn parse_snap_line(line: &str) -> (r: Result<InstalledPackage, ParseError>)
    ensures
        r is Ok <==> spec_snap_line(line@) is Some,
        r is Ok ==> ({
            let p = r->Ok_0;
            let nv = spec_snap_line(line@)->0;
            &&& p.name@ == nv.0
            &&& p.version@ == nv.1
            &&& p.description is None
            &&& p.url is None
            &&& p.source is Snap
            &&& p.licenses@.len() == 0
        }),
{
    let fields = fields_of(line);
    if fields.len() == 0 {
        return Err(ParseError { message: "Missing snap name".to_owned() });
    }
    proof {
        assert(views_of(fields@)[0] == fields@[0]@);
        if fields@.len() > 1 {
            assert(views_of(fields@)[1] == fields@[1]@);
        }
    }
    let name = fields[0].clone();
    let version = if fields.len() > 1 {
        fields[1].clone()
    } else {
        "unknown".to_owned()
    };
    Ok(
        InstalledPackage {
            name,
            version,
            description: None,
            url: None,
            source: PackageSource::Snap,
            licenses: Vec::new(),
        },
    )
}

/// The nonempty lines of `lines`, in order.
pub open spec fn spec_nonempty_lines(lines: Seq<Seq<char>>) -> Seq<Seq<char>>
    decreases lines.len(),
{
    if lines.len() == 0 {
        Seq::<Seq<char>>::empty()
    } else {
        let prior = spec_nonempty_lines(lines.drop_last());
        if lines.last().len() > 0 {
            prior.push(lines.last())
        } else {
            prior
        }
    }
}

/// The (name, version) pairs of `snap list` output: every nonempty row
/// after the header that has at least one column.
pub open spec fn spec_snap_pkgs(rows: Seq<Seq<char>>) -> Seq<(Seq<char>, Seq<char>)>
    decreases rows.len(),
{
    if rows.len() <= 1 {
        Seq::<(Seq<char>, Seq<char>)>::empty()
    } else {
        spec_snap_pkgs(rows.drop_last()) + (match spec_snap_line(rows.last()) {
            Some(nv) => seq![nv],
            None => Seq::<(Seq<char>, Seq<char>)>::empty(),
        })
    }
}

/// The (name, version) views of a snap package list.
pub open spec fn spec_snap_views(pkgs: Seq<InstalledPackage>) -> Seq<(Seq<char>, Seq<char>)> {
    pkgs.map_values(|p: InstalledPackage| (p.name@, p.version@))
}

/// Whether every package came from the Snap source with no extras.
pub open spec fn spec_all_snap(pkgs: Seq<InstalledPackage>) -> bool {
    forall|i: int|
        0 <= i < pkgs.len() ==> {
            let p = #[trigger] pkgs[i];
            &&& p.description is None
            &&& p.url is None
            &&& p.source is Snap
            &&& p.licenses@.len() == 0
        }
}

/// Parse the columnar output of `snap list`: the first nonempty line is a
/// header row; every later nonempty line names one installed snap.
pub fn parse_snap_output(output: &str) -> (r: Vec<InstalledPackage>)
    ensures
        spec_snap_views(r@) == spec_snap_pkgs(
            spec_nonempty_lines(spec_split_lines(output@)),
        ),
        spec_all_snap(r@),
{
    let all_lines = split_lines_str(output);
    let ghost av = views_of(all_lines@);
    let mut rows: Vec<String> = Vec::new();
    let mut i: usize = 0;
    proof {
        assert(views_of(rows@) =~= spec_nonempty_lines(av.take(0)));
    }
    while i < all_lines.len()
        invariant
            i <= all_lines@.len(),
            av == views_of(all_lines@),
            views_of(rows@) == spec_nonempty_lines(av.take(i as int)),
        decreases all_lines@.len() - i,
    {
        proof {
            assert(av.take(i + 1).drop_last() =~= av.take(i as int));
            assert(av.take(i + 1).last() == av[i as int]);
            assert(av[i as int] == all_lines@[i as int]@);
        }
        if all_lines[i].as_str().unicode_len() > 0 {
            rows.push(all_lines[i].clone());
            proof {
                assert(views_of(rows@) =~= spec_nonempty_lines(av.take(i + 1)));
            }
        }
        i += 1;
    }
    proof {
        assert(av.take(av.len() as int) =~= av);
    }
    let ghost rv = views_of(rows@);
    let mut r: Vec<InstalledPackage> = Vec::new();
    let mut j: usize = 1;
    proof {
        assert(spec_snap_views(r@) =~= Seq::<(Seq<char>, Seq<char>)>::empty());
        if rv.len() > 0 {
            assert(rv.take(1).len() == 1);
            assert(spec_snap_pkgs(rv.take(1)) =~= Seq::<(Seq<char>, Seq<char>)>::empty());
        } else {
            assert(spec_snap_pkgs(rv) =~= Seq::<(Seq<char>, Seq<char>)>::empty());
        }
    }
    while j < rows.len()
        invariant
            1 <= j,
            rows@.len() > 0 ==> j <= rows@.len(),
            rv == views_of(rows@),
            spec_all_snap(r@),
            rows@.len() > 0 ==> spec_snap_views(r@) == spec_snap_pkgs(rv.take(j as int)),
            rows@.len() == 0 ==> spec_snap_views(r@) == spec_snap_pkgs(rv),
        decreases rows@.len() - j,
    {
        proof {
            assert(rv.take(j + 1).drop_last() =~= rv.take(j as int));
            assert(rv.take(j + 1).last() == rv[j as int]);
            assert(rv[j as int] == rows@[j as int]@);
        }
        match parse_snap_line(rows[j].as_str()) {
            Ok(pkg) => {
                r.push(pkg);
                proof {
                    assert(spec_snap_views(r@) =~= spec_snap_pkgs(rv.take(j + 1)));
                }
            },
            Err(_) => {
                proof {
                    assert(spec_snap_pkgs(rv.take(j + 1)) =~= spec_snap_pkgs(rv.take(j as int)));
                }
            },
        }
        j += 1;
    }
    proof {
        if rows@.len() > 0 {
            assert(rv.take(rv.len() as int) =~= rv);
        }
    }
    r
}

/// Strip surrounding single or double quotes, in any mixture, from both
/// ends.
pub open spec fn spec_trim_quotes(s: Seq<char>) -> Seq<char>
    decreases s.len(),
{
    if s.len() > 0 && (s.last() == '\'' || s.last() == '"') {
        spec_trim_quotes(s.drop_last())
    } else if s.len() > 0 && (s[0] == '\'' || s[0] == '"') {
        spec_trim_quotes(s.drop_first())
    } else {
        s
    }
}

/// Exec mirror of [`spec_trim_quotes`].
fn trim_quotes(s: &str) -> (r: String)
    ensures
        r@ == spec_trim_quotes(s@),
    decreases s@.len(),
{
    let n = s.unicode_len();
    if n > 0 {
        let last = s.get_char(n - 1);
        if last == '\'' || last == '"' {
            let inner = crate::strutil::substring_string(s, 0, n - 1);
            proof {
                assert(inner@ =~= s@.drop_last());
            }
            return trim_quotes(inner.as_str());
        }
        let first = s.get_char(0);
        if first == '\'' || first == '"' {
            let inner = crate::strutil::substring_string(s, 1, n);
            proof {
                assert(inner@ =~= s@.drop_first());
            }
            return trim_quotes(inner.as_str());
        }
    }
    s.to_owned()
}

/// The description a snap.yaml file declares: the trimmed, unquoted value
/// of its first `description:` line with a non-empty value.
pub open spec fn spec_extract_description(lines: Seq<Seq<char>>) -> Option<Seq<char>>
    decreases lines.len(),
{
    if lines.len() == 0 {
        None
    } else {
        let t = spec_trim(lines[0]);
        if "description:"@.is_prefix_of(t) {
            let v = spec_trim_quotes(spec_trim(t.skip("description:"@.len() as int)));
            if v.len() > 0 {
                Some(v)
            } else {
                spec_extract_description(lines.drop_first())
            }
        } else {
            spec_extract_description(lines.drop_first())
        }
    }
}

/// Extract the `description` field from a snap.yaml file by simple
/// line-based scanning (no full YAML).
pub fn extract_description(yaml: &str) -> (r: Option<String>)
    ensures
        r is Some <==> spec_extract_description(spec_split_lines(yaml@)) is Some,
        r is Some ==> r->0@ == spec_extract_description(spec_split_lines(yaml@))->0,
{
    let lines = split_lines_str(yaml);
    let ghost lv = views_of(lines@);
    let mut i: usize = 0;
    proof {
        assert(lv.skip(0) =~= lv);
    }
    while i < lines.len()
        invariant
            i <= lines@.len(),
            lv == views_of(lines@),
            lv == spec_split_lines(yaml@),
            spec_extract_description(lv) == spec_extract_description(lv.skip(i as int)),
        decreases lines@.len() - i,
    {
        proof {
            assert(lv.skip(i as int)[0] == lv[i as int]);
            assert(lv[i as int] == lines@[i as int]@);
            assert(lv.skip(i as int).drop_first() =~= lv.skip(i + 1));
        }
        let t = trim_str(lines[i].as_str());
        match strip_prefix_str(t.as_str(), "description:") {
            Some(rest) => {
                let v = trim_quotes(trim_str(rest.as_str()).as_str());
                if v.as_str().unicode_len() > 0 {
                    proof {
                        assert(spec_extract_description(lv.skip(i as int)) == Some(v@));
                    }
                    return Some(v);
                }
            },
            None => {},
        }
        i += 1;
    }
    proof {
        assert(lv.skip(lv.len() as int) =~= Seq::<Seq<char>>::empty());
    }
    None
}

} // verus!
