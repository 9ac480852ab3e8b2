//! HTML rendering helpers: escaping and package formatting. Assembling
//! and writing the page happen outside the library.

use vstd::prelude::*;

use crate::discover::{spec_source_label, InstalledPackage};
use crate::strutil::push_char;

verus! {

/// The HTML expansion of one character: the four HTML-special characters
/// become entities, everything else stands for itself.
pub open spec fn spec_escape_char(c: char) -> Seq<char> {
    if c == '&' {
        "&amp;"@
    } else if c == '<' {
        "&lt;"@
    } else if c == '>' {
        "&gt;"@
    } else if c == '"' {
        "&quot;"@
    } else {
        seq![c]
    }
}

/// A string with every HTML-special character expanded to its entity.
pub open spec fn spec_escape_html(s: Seq<char>) -> Seq<char>
    decreases s.len(),
{
    if s.len() == 0 {
        Seq::<char>::empty()
    } else {
        spec_escape_html(s.drop_last()) + spec_escape_char(s.last())
    }
}

/// Escape the HTML-special characters `&`, `<`, `>` and `"`.
pub fn escape_html(s: &str) -> (r: String)
    ensures
        r@ == spec_escape_html(s@),
{
    let n = s.unicode_len();
    let mut r = String::new();
    let mut i: usize = 0;
    proof {
        assert(r@ =~= spec_escape_html(s@.take(0)));
    }
    while i < n
        invariant
            i <= n,
            n == s@.len(),
            r@ == spec_escape_html(s@.take(i as int)),
        decreases n - i,
    {
        let c = s.get_char(i);
        proof {
            assert(s@.take(i + 1).drop_last() =~= s@.take(i as int));
            assert(s@.take(i + 1).last() == s@[i as int]);
        }
        if c == '&' {
            r.append("&amp;");
        } else if c == '<' {
            r.append("&lt;");
        } else if c == '>' {
            r.append("&gt;");
        } else if c == '"' {
            r.append("&quot;");
        } else {
            push_char(&mut r, c);
            proof {
                assert(r@ =~= spec_escape_html(s@.take(i + 1)));
            }
        }
        i += 1;
    }
    proof {
        assert(s@.take(n as int) =~= s@);
    }
    r
}

/// Format a package name for the HTML report, with a source badge when the
/// report mixes several sources; both parts are escaped.
pub fn format_package_html(pkg: &InstalledPackage, show_badge: bool) -> (r: String)
    ensures
        show_badge ==> r@ == spec_escape_html(pkg.name@) + "<span class=\"badge\">"@
            + spec_escape_html(spec_source_label(pkg.source)) + "</span>"@,
        !show_badge ==> r@ == spec_escape_html(pkg.name@),
{
    if show_badge {
        let mut r = escape_html(pkg.name.as_str());
        r.append("<span class=\"badge\">");
        r.append(escape_html(pkg.source.label()).as_str());
        r.append("</span>");
        r
    } else {
        escape_html(pkg.name.as_str())
    }
}

} // verus!
