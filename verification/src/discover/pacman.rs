//! Parsing pacman `desc` database files. Reading the database directory
//! happens outside the library.

use vstd::prelude::*;

use crate::discover::{InstalledPackage, PackageSource, ParseError};
use crate::strutil::{spec_split_lines, spec_trim, split_lines_str, trim_str, views_of};

verus! {

/// The scan state of a desc file: the current `%FIELD%` header and the
/// values collected so far.
pub type DescState = (
    Option<Seq<char>>,
    Option<Seq<char>>,
    Option<Seq<char>>,
    Option<Seq<char>>,
    Option<Seq<char>>,
    Seq<Seq<char>>,
);

/// One line of a desc file: a `%FIELD%` header opens a field, a blank line
/// closes it, and any other line is a value of the current field.
pub open spec fn spec_desc_step(st: DescState, line: Seq<char>) -> DescState {
    let t = spec_trim(line);
    if t.len() >= 2 && t[0] == '%' && t.last() == '%' {
        (Some(t), st.1, st.2, st.3, st.4, st.5)
    } else if t.len() == 0 {
        (None, st.1, st.2, st.3, st.4, st.5)
    } else if st.0 == Some("%NAME%"@) {
        (st.0, Some(t), st.2, st.3, st.4, st.5)
    } else if st.0 == Some("%VERSION%"@) {
        (st.0, st.1, Some(t), st.3, st.4, st.5)
    } else if st.0 == Some("%DESC%"@) {
        (st.0, st.1, st.2, Some(t), st.4, st.5)
    } else if st.0 == Some("%URL%"@) {
        (st.0, st.1, st.2, st.3, Some(t), st.5)
    } else if st.0 == Some("%LICENSE%"@) {
        (st.0, st.1, st.2, st.3, st.4, st.5.push(t))
    } else {
        st
    }
}

/// The scan state after all lines of a desc file.
pub open spec fn spec_desc_scan(lines: Seq<Seq<char>>) -> DescState
    decreases lines.len(),
{
    if lines.len() == 0 {
        (
            None::<Seq<char>>,
            None::<Seq<char>>,
            None::<Seq<char>>,
            None::<Seq<char>>,
            None::<Seq<char>>,
            Seq::<Seq<char>>::empty(),
        )
    } else {
        spec_desc_step(spec_desc_scan(lines.drop_last()), lines.last())
    }
}

/// Parse the content of a pacman desc file. The `%NAME%` and `%VERSION%`
/// fields are required; `%DESC%`, `%URL%` and `%LICENSE%` values are
/// optional, with one license per line.
pub fn parse_desc_content(content: &str) -> (r: Result<InstalledPackage, ParseError>)
    ensures
        ({
            let st = spec_desc_scan(spec_split_lines(content@));
            &&& (r is Ok <==> st.1 is Some && st.2 is Some)
            &&& (r is Ok ==> {
                let p = r->Ok_0;
                &&& p.name@ == st.1->0
                &&& p.version@ == st.2->0
                &&& (p.description is Some <==> st.3 is Some)
                &&& (p.description is Some ==> p.description->0@ == st.3->0)
                &&& (p.url is Some <==> st.4 is Some)
                &&& (p.url is Some ==> p.url->0@ == st.4->0)
                &&& p.source is Pacman
                &&& views_of(p.licenses@) == st.5
            })
            &&& (r is Err && st.1 is None ==> crate::strutil::spec_contains_sub(
                r->Err_0.message@,
                "NAME"@,
            ))
            &&& (r is Err && st.1 is Some ==> crate::strutil::spec_contains_sub(
                r->Err_0.message@,
                "VERSION"@,
            ))
        }),
{
    let lines = split_lines_str(content);
    let ghost lv = views_of(lines@);
    let mut current: Option<String> = None;
    let mut name: Option<String> = None;
    let mut version: Option<String> = None;
    let mut description: Option<String> = None;
    let mut url: Option<String> = None;
    let mut licenses: Vec<String> = Vec::new();
    let mut i: usize = 0;
    proof {
        assert(views_of(licenses@) =~= Seq::<Seq<char>>::empty());
    }
    while i < lines.len()
        invariant
            i <= lines@.len(),
            lv == views_of(lines@),
            ({
                let st = spec_desc_scan(lv.take(i as int));
                &&& (current is Some <==> st.0 is Some)
                &&& (current is Some ==> current->0@ == st.0->0)
                &&& (name is Some <==> st.1 is Some)
                &&& (name is Some ==> name->0@ == st.1->0)
                &&& (version is Some <==> st.2 is Some)
                &&& (version is Some ==> version->0@ == st.2->0)
                &&& (description is Some <==> st.3 is Some)
                &&& (description is Some ==> description->0@ == st.3->0)
                &&& (url is Some <==> st.4 is Some)
                &&& (url is Some ==> url->0@ == st.4->0)
                &&& views_of(licenses@) == st.5
            }),
        decreases lines@.len() - i,
    {
        proof {
            assert(lv.take(i + 1).drop_last() =~= lv.take(i as int));
            assert(lv.take(i + 1).last() == lv[i as int]);
            assert(lv[i as int] == lines@[i as int]@);
        }
        let t = trim_str(lines[i].as_str());
        let n = t.as_str().unicode_len();
        if n >= 2 && t.as_str().get_char(0) == '%' && t.as_str().get_char(n - 1) == '%' {
            proof {
                assert(t@.last() == t@[n - 1]);
            }
            current = Some(t);
        } else if n == 0 {
            current = None;
        } else {
            match &current {
                Some(field) => {
                    if crate::strutil::str_eq_str(field.as_str(), "%NAME%") {
                        name = Some(t);
                    } else if crate::strutil::str_eq_str(field.as_str(), "%VERSION%") {
                        version = Some(t);
                    } else if crate::strutil::str_eq_str(field.as_str(), "%DESC%") {
                        description = Some(t);
                    } else if crate::strutil::str_eq_str(field.as_str(), "%URL%") {
                        url = Some(t);
                    } else if crate::strutil::str_eq_str(field.as_str(), "%LICENSE%") {
                        licenses.push(t);
                        proof {
                            assert(views_of(licenses@) =~= spec_desc_scan(lv.take(i + 1)).5);
                        }
                    }
                },
                None => {},
            }
        }
        i += 1;
    }
    proof {
        assert(lv.take(lv.len() as int) =~= lv);
    }
    let name = match name {
        Some(x) => x,
        None => {
            proof {
                reveal_strlit("Missing %NAME% in desc file");
                reveal_strlit("NAME");
                let j: int = 9;
                assert("Missing %NAME% in desc file"@.subrange(j, j + "NAME"@.len()) =~= "NAME"@);
                assert(crate::strutil::spec_contains_sub(
                    "Missing %NAME% in desc file"@,
                    "NAME"@,
                ));
            }
            return Err(ParseError { message: "Missing %NAME% in desc file".to_owned() });
        },
    };
    let version = match version {
        Some(x) => x,
        None => {
            proof {
                reveal_strlit("Missing %VERSION% in desc file");
                reveal_strlit("VERSION");
                let j: int = 9;
                assert("Missing %VERSION% in desc file"@.subrange(j, j + "VERSION"@.len())
                    =~= "VERSION"@);
                assert(crate::strutil::spec_contains_sub(
                    "Missing %VERSION% in desc file"@,
                    "VERSION"@,
                ));
            }
            return Err(ParseError { message: "Missing %VERSION% in desc file".to_owned() });
        },
    };
    Ok(
        InstalledPackage {
            name,
            version,
            description,
            url,
            source: PackageSource::Pacman,
            licenses,
        },
    )
}

} // verus!
