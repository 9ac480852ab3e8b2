//! Parsing the dpkg status database (Debian control file format). Reading
//! the file happens outside the library.

use vstd::prelude::*;

use crate::discover::{InstalledPackage, PackageSource, ParseError};
use crate::strutil::{
    find_sub_str, spec_contains_sub, spec_find_sub, spec_split_lines, spec_trim, split_lines_str,
    substring_string, trim_str, views_of,
};

verus! {

/// Split `s` at every occurrence of `pat`. The guards against a negative
/// or overlong match index never fire; they only bound the recursion.
pub open spec fn spec_split_sub(s: Seq<char>, pat: Seq<char>) -> Seq<Seq<char>>
    decreases s.len(),
{
    if pat.len() == 0 {
        seq![s]
    } else {
        let i = spec_find_sub(s, pat);
        if i < 0 || i + pat.len() > s.len() {
            seq![s]
        } else {
            seq![s.take(i)] + spec_split_sub(s.skip(i + pat.len()), pat)
        }
    }
}

/// Split `s` at every occurrence of `pat`.
pub fn split_sub_str(s: &str, pat: &str) -> (r: Vec<String>)
    requires
        pat@.len() > 0,
    ensures
        views_of(r@) == spec_split_sub(s@, pat@),
{
    let n = s.unicode_len();
    let m = pat.unicode_len();
    let mut out: Vec<String> = Vec::new();
    let mut pos: usize = 0;
    proof {
        assert(s@.skip(0) =~= s@);
        assert(views_of(out@) + spec_split_sub(s@.skip(0), pat@) =~~= spec_split_sub(s@, pat@));
    }
    loop
        invariant
            pos <= n,
            n == s@.len(),
            m == pat@.len(),
            m > 0,
            spec_split_sub(s@, pat@) == views_of(out@) + spec_split_sub(s@.skip(pos as int), pat@),
        decreases n - pos,
    {
        let rem = substring_string(s, pos, n);
        proof {
            assert(rem@ == s@.skip(pos as int));
            crate::strutil::lemma_find_sub(rem@, pat@);
        }
        match find_sub_str(rem.as_str(), pat) {
            Some(i) => {
                let piece = substring_string(rem.as_str(), 0, i);
                proof {
                    assert(piece@ =~= rem@.take(i as int));
                    assert(rem@.skip(i + pat@.len()) =~= s@.skip(pos + i + pat@.len()));
                    assert(views_of(out@.push(piece)) =~= views_of(out@) + seq![piece@]);
                    assert(views_of(out@) + spec_split_sub(rem@, pat@) =~~= views_of(
                        out@.push(piece),
                    ) + spec_split_sub(s@.skip(pos + i + m), pat@));
                }
                out.push(piece);
                pos = pos + i + m;
            },
            None => {
                proof {
                    assert(spec_split_sub(rem@, pat@) == seq![rem@]);
                    assert(views_of(out@.push(rem)) =~= views_of(out@) + seq![rem@]);
                }
                out.push(rem);
                return out;
            },
        }
    }
}

/// The scan state of a dpkg paragraph: the current field key and the
/// collected name, version, homepage, status and description lines.
pub type DpkgState = (
    Option<Seq<char>>,
    Option<Seq<char>>,
    Option<Seq<char>>,
    Option<Seq<char>>,
    Option<Seq<char>>,
    Seq<Seq<char>>,
);

/// One line of a dpkg paragraph: a leading space continues the previous
/// field (only `Description` continuations are collected, with a lone `.`
/// standing for a blank line); a `Key: value` line starts a field.
pub open spec fn spec_dpkg_step(st: DpkgState, line: Seq<char>) -> DpkgState {
    if line.len() > 0 && line[0] == ' ' {
        if st.0 == Some("Description"@) {
            let rest = line.skip(1);
            let entry = if rest == "."@ {
                Seq::<char>::empty()
            } else {
                rest
            };
            (st.0, st.1, st.2, st.3, st.4, st.5.push(entry))
        } else {
            st
        }
    } else {
        let i = spec_find_sub(line, ": "@);
        if i == -1 {
            st
        } else {
            let key = line.take(i);
            let value = line.skip(i + 2);
            if key == "Package"@ {
                (Some(key), Some(value), st.2, st.3, st.4, st.5)
            } else if key == "Version"@ {
                (Some(key), st.1, Some(value), st.3, st.4, st.5)
            } else if key == "Homepage"@ {
                (Some(key), st.1, st.2, Some(value), st.4, st.5)
            } else if key == "Status"@ {
                (Some(key), st.1, st.2, st.3, Some(value), st.5)
            } else if key == "Description"@ {
                (Some(key), st.1, st.2, st.3, st.4, seq![value])
            } else {
                (Some(key), st.1, st.2, st.3, st.4, st.5)
            }
        }
    }
}

/// The scan state after all lines of a dpkg paragraph.
pub open spec fn spec_dpkg_scan(lines: Seq<Seq<char>>) -> DpkgState
    decreases lines.len(),
{
    if lines.len() == 0 {
        (
            None::<Seq<char>>,
            None::<Seq<char>>,
            None::<Seq<char>>,
            None::<Seq<char>>,
            None::<Seq<char>>,
            Seq::<Seq<char>>::empty(),
        )
    } else {
        spec_dpkg_step(spec_dpkg_scan(lines.drop_last()), lines.last())
    }
}

/// Description lines joined with newlines.
pub open spec fn spec_join_nl(parts: Seq<Seq<char>>) -> Seq<char>
    decreases parts.len(),
{
    if parts.len() == 0 {
        Seq::<char>::empty()
    } else if parts.len() == 1 {
        parts[0]
    } else {
        spec_join_nl(parts.drop_last()) + seq!['\n'] + parts.last()
    }
}

/// Join description lines with newlines.
fn join_nl(parts: &Vec<String>) -> (r: String)
    ensures
        r@ == spec_join_nl(views_of(parts@)),
{
    let ghost pv = views_of(parts@);
    let mut r = String::new();
    let mut i: usize = 0;
    proof {
        assert(pv.take(0) =~= Seq::<Seq<char>>::empty());
    }
    while i < parts.len()
        invariant
            i <= parts@.len(),
            pv == views_of(parts@),
            r@ == spec_join_nl(pv.take(i as int)),
        decreases parts@.len() - i,
    {
        proof {
            assert(pv.take(i + 1).drop_last() =~= pv.take(i as int));
            assert(pv.take(i + 1).last() == pv[i as int]);
            assert(pv[i as int] == parts@[i as int]@);
            if i == 0 {
                assert(pv.take(1)[0] == pv[0]);
            }
        }
        if i > 0 {
            crate::strutil::push_char(&mut r, '\n');
            proof {
                assert(spec_join_nl(pv.take(i as int)) + seq!['\n'] =~= r@);
            }
        }
        r.append(parts[i].as_str());
        i += 1;
    }
    proof {
        assert(pv.take(pv.len() as int) =~= pv);
    }
    r
}

/// Whether a scanned paragraph is in an installed state: no `Status`
/// field, or one whose value mentions `installed`.
pub open spec fn spec_dpkg_installed(st: DpkgState) -> bool {
    match st.4 {
        Some(status) => spec_contains_sub(status, "installed"@),
        None => true,
    }
}

/// Parse one dpkg status paragraph.
///
/// Yields `Ok(None)` for a package that is not in an installed state, and
/// an error only when the required `Package` or `Version` field is
/// missing.
pub fn parse_dpkg_entry(entry: &str) -> (r: Result<Option<InstalledPackage>, ParseError>)
    ensures
        ({
            let st = spec_dpkg_scan(spec_split_lines(entry@));
            &&& (r is Err <==> spec_dpkg_installed(st) && (st.1 is None || st.2 is None))
            &&& (r is Ok ==> ((r->Ok_0 is Some) <==> spec_dpkg_installed(st)))
            &&& (r is Ok && r->Ok_0 is Some ==> {
                let p = r->Ok_0->0;
                &&& p.name@ == st.1->0
                &&& p.version@ == st.2->0
                &&& (p.url is Some <==> st.3 is Some)
                &&& (p.url is Some ==> p.url->0@ == st.3->0)
                &&& (p.description is Some <==> st.5.len() > 0)
                &&& (p.description is Some ==> p.description->0@ == spec_join_nl(st.5))
                &&& p.source is Apt
                &&& p.licenses@.len() == 0
            })
            &&& (r is Err && st.1 is None ==> spec_contains_sub(r->Err_0.message@, "Package"@))
            &&& (r is Err && st.1 is Some ==> spec_contains_sub(r->Err_0.message@, "Version"@))
        }),
{
    let lines = split_lines_str(entry);
    let ghost lv = views_of(lines@);
    let mut current: Option<String> = None;
    let mut name: Option<String> = None;
    let mut version: Option<String> = None;
    let mut homepage: Option<String> = None;
    let mut status: Option<String> = None;
    let mut desc: Vec<String> = Vec::new();
    let mut i: usize = 0;
    proof {
        assert(views_of(desc@) =~= Seq::<Seq<char>>::empty());
    }
    while i < lines.len()
        invariant
            i <= lines@.len(),
            lv == views_of(lines@),
            ({
                let st = spec_dpkg_scan(lv.take(i as int));
                &&& (current is Some <==> st.0 is Some)
                &&& (current is Some ==> current->0@ == st.0->0)
                &&& (name is Some <==> st.1 is Some)
                &&& (name is Some ==> name->0@ == st.1->0)
                &&& (version is Some <==> st.2 is Some)
                &&& (version is Some ==> version->0@ == st.2->0)
                &&& (homepage is Some <==> st.3 is Some)
                &&& (homepage is Some ==> homepage->0@ == st.3->0)
                &&& (status is Some <==> st.4 is Some)
                &&& (status is Some ==> status->0@ == st.4->0)
                &&& views_of(desc@) == st.5
            }),
        decreases lines@.len() - i,
    {
        proof {
            assert(lv.take(i + 1).drop_last() =~= lv.take(i as int));
            assert(lv.take(i + 1).last() == lv[i as int]);
            assert(lv[i as int] == lines@[i as int]@);
        }
        let line = &lines[i];
        let n = line.as_str().unicode_len();
        if n > 0 && line.as_str().get_char(0) == ' ' {
            let is_desc = match &current {
                Some(k) => crate::strutil::str_eq_str(k.as_str(), "Description"),
                None => false,
            };
            if is_desc {
                let rest = substring_string(line.as_str(), 1, n);
                proof {
                    assert(rest@ == line@.skip(1));
                }
                let entry_line = if crate::strutil::str_eq_str(rest.as_str(), ".") {
                    String::new()
                } else {
                    rest
                };
                desc.push(entry_line);
                proof {
                    assert(views_of(desc@) =~= spec_dpkg_scan(lv.take(i + 1)).5);
                }
            }
        } else {
            match find_sub_str(line.as_str(), ": ") {
                Some(pos) => {
                    proof {
                        crate::strutil::lemma_find_sub(line@, ": "@);
                        reveal_strlit(": ");
                    }
                    let key = substring_string(line.as_str(), 0, pos);
                    let value = substring_string(line.as_str(), pos + 2, n);
                    proof {
                        assert(key@ == line@.take(pos as int));
                        assert(value@ == line@.skip(pos + 2));
                    }
                    if crate::strutil::str_eq_str(key.as_str(), "Package") {
                        name = Some(value);
                    } else if crate::strutil::str_eq_str(key.as_str(), "Version") {
                        version = Some(value);
                    } else if crate::strutil::str_eq_str(key.as_str(), "Homepage") {
                        homepage = Some(value);
                    } else if crate::strutil::str_eq_str(key.as_str(), "Status") {
                        status = Some(value);
                    } else if crate::strutil::str_eq_str(key.as_str(), "Description") {
                        desc.clear();
                        desc.push(value);
                        proof {
                            assert(views_of(desc@) =~= spec_dpkg_scan(lv.take(i + 1)).5);
                        }
                    }
                    current = Some(key);
                },
                None => {},
            }
        }
        i += 1;
    }
    proof {
        assert(lv.take(lv.len() as int) =~= lv);
    }
    let installed = match &status {
        Some(s) => crate::strutil::contains_sub_str(s.as_str(), "installed"),
        None => true,
    };
    if !installed {
        return Ok(None);
    }
    let name = match name {
        Some(x) => x,
        None => {
            proof {
                reveal_strlit("Missing Package field in dpkg entry");
                reveal_strlit("Package");
                let j: int = 8;
                assert("Missing Package field in dpkg entry"@.subrange(j, j + "Package"@.len())
                    =~= "Package"@);
                assert(spec_contains_sub(
                    "Missing Package field in dpkg entry"@,
                    "Package"@,
                ));
            }
            return Err(
                ParseError { message: "Missing Package field in dpkg entry".to_owned() },
            );
        },
    };
    let version = match version {
        Some(x) => x,
        None => {
            proof {
                reveal_strlit("Missing Version field in dpkg entry");
                reveal_strlit("Version");
                let j: int = 8;
                assert("Missing Version field in dpkg entry"@.subrange(j, j + "Version"@.len())
                    =~= "Version"@);
                assert(spec_contains_sub(
                    "Missing Version field in dpkg entry"@,
                    "Version"@,
                ));
            }
            return Err(
                ParseError { message: "Missing Version field in dpkg entry".to_owned() },
            );
        },
    };
    let description = if desc.len() == 0 {
        None
    } else {
        Some(join_nl(&desc))
    };
    Ok(
        Some(
            InstalledPackage {
                name,
                version,
                description,
                url: homepage,
                source: PackageSource::Apt,
                licenses: Vec::new(),
            },
        ),
    )
}

/// The scanned states of the installed paragraphs of a whole status file,
/// in order: nonblank paragraphs that are installed and carry both
/// required fields.
pub open spec fn spec_dpkg_pkgs(paragraphs: Seq<Seq<char>>) -> Seq<DpkgState>
    decreases paragraphs.len(),
{
    if paragraphs.len() == 0 {
        Seq::<DpkgState>::empty()
    } else {
        let prior = spec_dpkg_pkgs(paragraphs.drop_last());
        let t = spec_trim(paragraphs.last());
        if t.len() == 0 {
            prior
        } else {
            let st = spec_dpkg_scan(spec_split_lines(t));
            if spec_dpkg_installed(st) && st.1 is Some && st.2 is Some {
                prior.push(st)
            } else {
                prior
            }
        }
    }
}

/// The scan-state views of parsed packages.
pub open spec fn spec_dpkg_views(pkgs: Seq<InstalledPackage>) -> Seq<
    (Seq<char>, Seq<char>, Option<Seq<char>>, Option<Seq<char>>),
> {
    pkgs.map_values(
        |p: InstalledPackage|
            (
                p.name@,
                p.version@,
                match p.url {
                    Some(u) => Some(u@),
                    None => None,
                },
                match p.description {
                    Some(d) => Some(d@),
                    None => None,
                },
            ),
    )
}

/// The same views read from scanned paragraph states.
pub open spec fn spec_dpkg_state_views(sts: Seq<DpkgState>) -> Seq<
    (Seq<char>, Seq<char>, Option<Seq<char>>, Option<Seq<char>>),
> {
    sts.map_values(
        |st: DpkgState|
            (
                st.1->0,
                st.2->0,
                st.3,
                if st.5.len() > 0 {
                    Some(spec_join_nl(st.5))
                } else {
                    None::<Seq<char>>
                },
            ),
    )
}

/// Parse the whole dpkg status file: paragraphs are separated by blank
/// lines; paragraphs that are not installed or lack a required field are
/// skipped.
#[verifier::rlimit(100)]
pub fn parse_dpkg_status(content: &str) -> (r: Vec<InstalledPackage>)
    ensures
        spec_dpkg_views(r@) == spec_dpkg_state_views(
            spec_dpkg_pkgs(spec_split_sub(content@, "\n\n"@)),
        ),
        forall|i: int|
            0 <= i < r@.len() ==> (#[trigger] r@[i]).source is Apt && r@[i].licenses@.len() == 0,
{
    proof {
        reveal_strlit("\n\n");
    }
    let paragraphs = split_sub_str(content, "\n\n");
    let ghost pv = views_of(paragraphs@);
    let mut r: Vec<InstalledPackage> = Vec::new();
    let mut i: usize = 0;
    proof {
        assert(spec_dpkg_views(r@) =~= spec_dpkg_state_views(spec_dpkg_pkgs(pv.take(0))));
    }
    while i < paragraphs.len()
        invariant
            i <= paragraphs@.len(),
            pv == views_of(paragraphs@),
            spec_dpkg_views(r@) == spec_dpkg_state_views(spec_dpkg_pkgs(pv.take(i as int))),
            forall|k: int|
                0 <= k < r@.len() ==> (#[trigger] r@[k]).source is Apt && r@[k].licenses@.len()
                    == 0,
        decreases paragraphs@.len() - i,
    {
        proof {
            assert(pv.take(i + 1).drop_last() =~= pv.take(i as int));
            assert(pv.take(i + 1).last() == pv[i as int]);
            assert(pv[i as int] == paragraphs@[i as int]@);
        }
        let t = trim_str(paragraphs[i].as_str());
        if t.as_str().unicode_len() > 0 {
            match parse_dpkg_entry(t.as_str()) {
                Ok(Some(pkg)) => {
                    proof {
                        let st = spec_dpkg_scan(spec_split_lines(t@));
                        assert(spec_dpkg_installed(st) && st.1 is Some && st.2 is Some);
                        assert(spec_dpkg_pkgs(pv.take(i + 1)) == spec_dpkg_pkgs(
                            pv.take(i as int),
                        ).push(st));
                    }
                    proof {
                        let st = spec_dpkg_scan(spec_split_lines(t@));
                        assert((match pkg.url {
                            Some(u) => Some(u@),
                            None => None::<Seq<char>>,
                        }) == st.3);
                        assert((match pkg.description {
                            Some(d) => Some(d@),
                            None => None::<Seq<char>>,
                        }) == (if st.5.len() > 0 {
                            Some(spec_join_nl(st.5))
                        } else {
                            None::<Seq<char>>
                        }));
                    }
                    let ghost r0 = r@;
                    r.push(pkg);
                    proof {
                        let st = spec_dpkg_scan(spec_split_lines(t@));
                        assert(r@ == r0.push(pkg));
                        let lhs = spec_dpkg_views(r@);
                        let rhs = spec_dpkg_state_views(spec_dpkg_pkgs(pv.take(i + 1)));
                        assert(lhs.len() == r0.len() + 1);
                        assert(rhs.len() == spec_dpkg_pkgs(pv.take(i as int)).len() + 1);
                        assert(spec_dpkg_views(r0).len() == spec_dpkg_state_views(
                            spec_dpkg_pkgs(pv.take(i as int)),
                        ).len());
                        assert(lhs.len() == rhs.len());
                        assert forall|k: int| 0 <= k < lhs.len() implies lhs[k] == rhs[k] by {
                            if k < lhs.len() - 1 {
                                assert(lhs[k] == spec_dpkg_views(r0)[k]);
                                assert(rhs[k] == spec_dpkg_state_views(
                                    spec_dpkg_pkgs(pv.take(i as int)),
                                )[k]);
                            } else {
                                assert(lhs[k] == (
                                    pkg.name@,
                                    pkg.version@,
                                    match pkg.url {
                                        Some(u) => Some(u@),
                                        None => None::<Seq<char>>,
                                    },
                                    match pkg.description {
                                        Some(d) => Some(d@),
                                        None => None::<Seq<char>>,
                                    },
                                ));
                                assert(rhs[k] == (
                                    st.1->0,
                                    st.2->0,
                                    st.3,
                                    if st.5.len() > 0 {
                                        Some(spec_join_nl(st.5))
                                    } else {
                                        None::<Seq<char>>
                                    },
                                ));
                            }
                        }
                        assert(lhs =~= rhs);
                    }
                },
                Ok(None) => {
                    proof {
                        assert(spec_dpkg_pkgs(pv.take(i + 1)) =~= spec_dpkg_pkgs(pv.take(i as int)));
                    }
                },
                Err(_) => {
                    proof {
                        assert(spec_dpkg_pkgs(pv.take(i + 1)) =~= spec_dpkg_pkgs(pv.take(i as int)));
                    }
                },
            }
        } else {
            proof {
                assert(spec_dpkg_pkgs(pv.take(i + 1)) =~= spec_dpkg_pkgs(pv.take(i as int)));
            }
        }
        i += 1;
    }
    proof {
        assert(pv.take(pv.len() as int) =~= pv);
    }
    r
}

} // verus!
