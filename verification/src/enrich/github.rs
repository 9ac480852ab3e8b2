//! GitHub-side enrichment logic: decoding FUNDING.yml content fetched from
//! the GitHub API and turning repository metadata into project fields.
//!
//! Network access itself (the `gh` CLI) lives outside the library; the
//! functions here work on the plain values those calls return.

use vstd::prelude::*;

use crate::project::{FundingChannel, UpstreamProject};
use crate::strutil::{
    find_char_str, lower_str, spec_find, spec_lower, spec_split, spec_split_lines, spec_trim,
    spec_trim_char_both, split_char_str, split_lines_str, str_eq_str, substring_string,
    trim_char_both_str, trim_str, views_of,
};
use vstd::utf8::{encode_utf8, valid_utf8};

verus! {

/// The six-bit value of a base64 alphabet character, if it is one.
pub open spec fn spec_b64_val(c: char) -> Option<u8> {
    if 'A' <= c && c <= 'Z' {
        Some(((c as u32) - ('A' as u32)) as u8)
    } else if 'a' <= c && c <= 'z' {
        Some((((c as u32) - ('a' as u32)) + 26) as u8)
    } else if '0' <= c && c <= '9' {
        Some((((c as u32) - ('0' as u32)) + 52) as u8)
    } else if c == '+' {
        Some(62u8)
    } else if c == '/' {
        Some(63u8)
    } else {
        None
    }
}

/// Exec mirror of [`spec_b64_val`].
fn b64_val(c: char) -> (r: Option<u8>)
    ensures
        r == spec_b64_val(c),
{
    if 'A' <= c && c <= 'Z' {
        Some(((c as u32) - ('A' as u32)) as u8)
    } else if 'a' <= c && c <= 'z' {
        Some((((c as u32) - ('a' as u32)) + 26) as u8)
    } else if '0' <= c && c <= '9' {
        Some((((c as u32) - ('0' as u32)) + 52) as u8)
    } else if c == '+' {
        Some(62)
    } else if c == '/' {
        Some(63)
    } else {
        None
    }
}

/// Drop padding (`=`) and line breaks before decoding.
pub open spec fn spec_b64_filter(s: Seq<char>) -> Seq<char>
    decreases s.len(),
{
    if s.len() == 0 {
        Seq::<char>::empty()
    } else {
        let prior = spec_b64_filter(s.drop_last());
        if s.last() == '=' || s.last() == '\n' || s.last() == '\r' {
            prior
        } else {
            prior.push(s.last())
        }
    }
}

/// Decode a filtered base64 character stream, four characters at a time; a
/// final partial group is padded with zero bits. Any character outside the
/// alphabet fails the whole decode.
pub open spec fn spec_b64_groups(cs: Seq<char>) -> Option<Seq<u8>>
    decreases cs.len(),
{
    if cs.len() == 0 {
        Some(Seq::<u8>::empty())
    } else {
        match spec_b64_val(cs[0]) {
            None => None,
            Some(b0) => {
                let ob1 = if cs.len() > 1 {
                    spec_b64_val(cs[1])
                } else {
                    Some(0u8)
                };
                let ob2 = if cs.len() > 2 {
                    spec_b64_val(cs[2])
                } else {
                    Some(0u8)
                };
                let ob3 = if cs.len() > 3 {
                    spec_b64_val(cs[3])
                } else {
                    Some(0u8)
                };
                if ob1 is Some && ob2 is Some && ob3 is Some {
                    let here = spec_b64_group_bytes(
                        b0,
                        ob1->0,
                        ob2->0,
                        ob3->0,
                        cs.len() > 2,
                        cs.len() > 3,
                    );
                    if cs.len() > 4 {
                        match spec_b64_groups(cs.skip(4)) {
                            Some(rest) => Some(here + rest),
                            None => None,
                        }
                    } else {
                        Some(here)
                    }
                } else {
                    None
                }
            },
        }
    }
}

/// The one to three bytes of a decoded base64 group.
pub open spec fn spec_b64_group_bytes(
    b0: u8,
    b1: u8,
    b2: u8,
    b3: u8,
    has2: bool,
    has3: bool,
) -> Seq<u8> {
    let triple: u32 = ((b0 as u32) << 18u32) | ((b1 as u32) << 12u32) | ((b2 as u32) << 6u32) | (
    b3 as u32);
    let first = seq![(triple >> 16u32) as u8];
    let second = if has2 {
        seq![((triple >> 8u32) & 0xffu32) as u8]
    } else {
        Seq::<u8>::empty()
    };
    let third = if has3 {
        seq![(triple & 0xffu32) as u8]
    } else {
        Seq::<u8>::empty()
    };
    first + second + third
}

/// The bytes a base64 string decodes to, if every character (after
/// dropping `=`, `\n` and `\r`) is in the alphabet.
pub open spec fn spec_b64_decode(s: Seq<char>) -> Option<Seq<u8>> {
    spec_b64_groups(spec_b64_filter(s))
}

/// Relies on `String::from_utf8`: succeeds exactly on valid UTF-8 and
/// decodes those bytes into the string they encode.
#[verifier::external_body]
fn bytes_to_string(v: Vec<u8>) -> (r: Option<String>)
    ensures
        r is Some <==> valid_utf8(v@),
        r is Some ==> encode_utf8(r->0@) == v@,
{
    String::from_utf8(v).ok()
}

/// Decode a base64 string (tolerating `=` padding and embedded line
/// breaks), yielding the decoded text when the result is valid UTF-8.
pub fn base64_decode(input: &str) -> (r: Option<String>)
    ensures
        r is Some <==> (spec_b64_decode(input@) is Some && valid_utf8(
            spec_b64_decode(input@)->0,
        )),
        r is Some ==> encode_utf8(r->0@) == spec_b64_decode(input@)->0,
{
    let n = input.unicode_len();
    let mut cs: Vec<char> = Vec::new();
    let mut i: usize = 0;
    proof {
        assert(cs@ =~= spec_b64_filter(input@.take(0)));
    }
    while i < n
        invariant
            i <= n,
            n == input@.len(),
            cs@ == spec_b64_filter(input@.take(i as int)),
        decreases n - i,
    {
        let c = input.get_char(i);
        proof {
            assert(input@.take(i + 1).drop_last() =~= input@.take(i as int));
            assert(input@.take(i + 1).last() == input@[i as int]);
        }
        if !(c == '=' || c == '\n' || c == '\r') {
            cs.push(c);
        }
        i += 1;
    }
    proof {
        assert(input@.take(n as int) =~= input@);
    }
    let ghost fs = cs@;
    let mut buf: Vec<u8> = Vec::new();
    let mut j: usize = 0;
    proof {
        assert(fs.skip(0) =~= fs);
    }
    while j < cs.len()
        invariant
            j <= cs@.len(),
            fs == cs@,
            fs == spec_b64_filter(input@),
            match spec_b64_groups(fs.skip(j as int)) {
                Some(rest) => spec_b64_groups(fs) == Some(buf@ + rest),
                None => spec_b64_groups(fs) is None,
            },
        decreases cs@.len() - j,
    {
        let ghost g = fs.skip(j as int);
        proof {
            assert(g[0] == fs[j as int]);
            if j + 1 < fs.len() {
                assert(g[1] == fs[j + 1]);
            }
            if j + 2 < fs.len() {
                assert(g[2] == fs[j + 2]);
            }
            if j + 3 < fs.len() {
                assert(g[3] == fs[j + 3]);
            }
        }
        let b0 = match b64_val(cs[j]) {
            Some(b) => b,
            None => {
                return None;
            },
        };
        let b1 = if cs.len() - j > 1 {
            match b64_val(cs[j + 1]) {
                Some(b) => b,
                None => {
                    return None;
                },
            }
        } else {
            0
        };
        let b2 = if cs.len() - j > 2 {
            match b64_val(cs[j + 2]) {
                Some(b) => b,
                None => {
                    return None;
                },
            }
        } else {
            0
        };
        let b3 = if cs.len() - j > 3 {
            match b64_val(cs[j + 3]) {
                Some(b) => b,
                None => {
                    return None;
                },
            }
        } else {
            0
        };
        let triple: u32 = ((b0 as u32) << 18u32) | ((b1 as u32) << 12u32) | ((b2 as u32) << 6u32)
            | (b3 as u32);
        let ghost old_buf = buf@;
        buf.push((triple >> 16u32) as u8);
        if cs.len() - j > 2 {
            buf.push(((triple >> 8u32) & 0xffu32) as u8);
        }
        if cs.len() - j > 3 {
            buf.push((triple & 0xffu32) as u8);
        }
        proof {
            assert(buf@ =~= old_buf + spec_b64_group_bytes(
                b0,
                b1,
                b2,
                b3,
                g.len() > 2,
                g.len() > 3,
            ));
        }
        if cs.len() - j <= 4 {
            proof {
                assert(fs.skip(fs.len() as int) =~= Seq::<char>::empty());
                assert(spec_b64_groups(fs) == Some(buf@)) by {
                    assert(spec_b64_groups(g) == Some(
                        spec_b64_group_bytes(b0, b1, b2, b3, g.len() > 2, g.len() > 3),
                    ));
                    assert(old_buf + spec_b64_group_bytes(
                        b0,
                        b1,
                        b2,
                        b3,
                        g.len() > 2,
                        g.len() > 3,
                    ) =~= buf@);
                }
                assert(buf@ + Seq::<u8>::empty() =~= buf@);
            }
            j = cs.len();
        } else {
            proof {
                assert(g.skip(4) =~= fs.skip(j + 4));
                assert(spec_b64_groups(g) == match spec_b64_groups(fs.skip(j + 4)) {
                    Some(rest) => Some(
                        spec_b64_group_bytes(b0, b1, b2, b3, g.len() > 2, g.len() > 3) + rest,
                    ),
                    None => None::<Seq<u8>>,
                });
                match spec_b64_groups(fs.skip(j + 4)) {
                    Some(rest) => {
                        assert(old_buf + (spec_b64_group_bytes(
                            b0,
                            b1,
                            b2,
                            b3,
                            g.len() > 2,
                            g.len() > 3,
                        ) + rest) =~= buf@ + rest);
                    },
                    None => {},
                }
            }
            j += 4;
        }
    }
    proof {
        assert(fs.skip(fs.len() as int) =~= Seq::<char>::empty());
        if j == fs.len() {
            assert(spec_b64_groups(fs.skip(j as int)) == Some(Seq::<u8>::empty()));
            assert(buf@ + Seq::<u8>::empty() =~= buf@);
        }
        assert(spec_b64_groups(fs) == Some(buf@));
    }
    bytes_to_string(buf)
}

/// Remove whitespace before decoding: the GitHub API returns base64 with
/// embedded newlines.
pub open spec fn spec_ws_filter(s: Seq<char>) -> Seq<char>
    decreases s.len(),
{
    if s.len() == 0 {
        Seq::<char>::empty()
    } else {
        let prior = spec_ws_filter(s.drop_last());
        if crate::strutil::is_space_char(s.last()) {
            prior
        } else {
            prior.push(s.last())
        }
    }
}

/// Decode base64 file content fetched from the GitHub API: strip all
/// whitespace, decode, and fall back to the empty string when the content
/// is not valid base64-encoded UTF-8.
pub fn decode_base64_content(encoded: &str) -> (r: String)
    ensures
        ({
            let d = spec_b64_decode(spec_ws_filter(encoded@));
            &&& (d is Some && valid_utf8(d->0)) ==> encode_utf8(r@) == d->0
            &&& !(d is Some && valid_utf8(d->0)) ==> r@ == Seq::<char>::empty()
        }),
{
    let n = encoded.unicode_len();
    let mut clean = String::new();
    let mut i: usize = 0;
    proof {
        assert(clean@ =~= spec_ws_filter(encoded@.take(0)));
    }
    while i < n
        invariant
            i <= n,
            n == encoded@.len(),
            clean@ == spec_ws_filter(encoded@.take(i as int)),
        decreases n - i,
    {
        let c = encoded.get_char(i);
        proof {
            assert(encoded@.take(i + 1).drop_last() =~= encoded@.take(i as int));
            assert(encoded@.take(i + 1).last() == encoded@[i as int]);
        }
        if !crate::strutil::char_is_space(c) {
            crate::strutil::push_char(&mut clean, c);
        }
        i += 1;
    }
    proof {
        assert(encoded@.take(n as int) =~= encoded@);
    }
    match base64_decode(clean.as_str()) {
        Some(s) => s,
        None => String::new(),
    }
}

/// Strip surrounding double quotes, then surrounding single quotes.
pub open spec fn spec_unquote(s: Seq<char>) -> Seq<char> {
    spec_trim_char_both(spec_trim_char_both(s, '"'), '\'')
}

/// Exec mirror of [`spec_unquote`].
fn unquote(s: &str) -> (r: String)
    ensures
        r@ == spec_unquote(s@),
{
    let t = trim_char_both_str(s, '"');
    trim_char_both_str(t.as_str(), '\'')
}

/// Clean the items of an inline YAML array: trim and unquote each part and
/// drop the empty ones.
pub open spec fn spec_clean_items(parts: Seq<Seq<char>>) -> Seq<Seq<char>>
    decreases parts.len(),
{
    if parts.len() == 0 {
        Seq::<Seq<char>>::empty()
    } else {
        let prior = spec_clean_items(parts.drop_last());
        let c = spec_unquote(spec_trim(parts.last()));
        if c.len() > 0 {
            prior.push(c)
        } else {
            prior
        }
    }
}

/// The values of a YAML scalar or inline array: `[a, b]` yields its cleaned
/// items; anything else yields the single unquoted value.
pub open spec fn spec_yaml_items(value: Seq<char>) -> Seq<Seq<char>> {
    let v = spec_trim(value);
    if v.len() >= 2 && v[0] == '[' && v.last() == ']' {
        spec_clean_items(spec_split(v.subrange(1, v.len() - 1), ','))
    } else {
        seq![spec_unquote(v)]
    }
}

/// Parse a YAML value that is either a scalar or an inline array
/// (`[a, b, c]`), yielding the trimmed, unquoted entries.
pub fn parse_yaml_value(value: &str) -> (r: Vec<String>)
    ensures
        views_of(r@) == spec_yaml_items(value@),
{
    let v = trim_str(value);
    let n = v.as_str().unicode_len();
    if n >= 2 && v.as_str().get_char(0) == '[' && v.as_str().get_char(n - 1) == ']' {
        let inner = substring_string(v.as_str(), 1, n - 1);
        proof {
            assert(v@.last() == v@[n - 1]);
            assert(inner@ == v@.subrange(1, v@.len() - 1));
        }
        let parts = split_char_str(inner.as_str(), ',');
        let ghost pv = views_of(parts@);
        let mut out: Vec<String> = Vec::new();
        let mut i: usize = 0;
        proof {
            assert(views_of(out@) =~= spec_clean_items(pv.take(0)));
        }
        while i < parts.len()
            invariant
                i <= parts@.len(),
                pv == views_of(parts@),
                views_of(out@) == spec_clean_items(pv.take(i as int)),
            decreases parts@.len() - i,
        {
            proof {
                assert(pv.take(i + 1).drop_last() =~= pv.take(i as int));
                assert(pv.take(i + 1).last() == pv[i as int]);
                assert(pv[i as int] == parts@[i as int]@);
            }
            let trimmed = trim_str(parts[i].as_str());
            let cleaned = unquote(trimmed.as_str());
            if cleaned.as_str().unicode_len() > 0 {
                out.push(cleaned);
                proof {
                    assert(views_of(out@) =~= spec_clean_items(pv.take(i + 1)));
                }
            }
            i += 1;
        }
        proof {
            assert(pv.take(pv.len() as int) =~= pv);
        }
        out
    } else {
        proof {
            if v@.len() >= 2 {
                assert(v@.last() == v@[n - 1]);
            }
        }
        let mut out: Vec<String> = Vec::new();
        out.push(unquote(v.as_str()));
        proof {
            assert(views_of(out@) =~= seq![spec_unquote(v@)]);
        }
        out
    }
}

/// The funding platform a FUNDING.yml key names: its display label and the
/// URL prefix its account names are appended to.
pub open spec fn spec_platform_of(key: Seq<char>) -> Option<(Seq<char>, Seq<char>)> {
    if key == "github"@ {
        Some(("GitHub Sponsors"@, "https://github.com/sponsors/"@))
    } else if key == "open_collective"@ {
        Some(("Open Collective"@, "https://opencollective.com/"@))
    } else if key == "ko_fi"@ {
        Some(("Ko-fi"@, "https://ko-fi.com/"@))
    } else if key == "patreon"@ {
        Some(("Patreon"@, "https://www.patreon.com/"@))
    } else if key == "liberapay"@ {
        Some(("Liberapay"@, "https://liberapay.com/"@))
    } else if key == "community_bridge"@ {
        Some(("Community Bridge"@, "https://funding.communitybridge.org/projects/"@))
    } else if key == "issuehunt"@ {
        Some(("IssueHunt"@, "https://issuehunt.io/r/"@))
    } else if key == "polar"@ {
        Some(("Polar"@, "https://polar.sh/"@))
    } else if key == "buy_me_a_coffee"@ {
        Some(("Buy Me a Coffee"@, "https://buymeacoffee.com/"@))
    } else if key == "thanks_dev"@ {
        Some(("thanks.dev"@, "https://thanks.dev/d/gh/"@))
    } else {
        None
    }
}

/// Exec mirror of [`spec_platform_of`].
fn platform_of(key: &str) -> (r: Option<(&'static str, &'static str)>)
    ensures
        r is Some <==> spec_platform_of(key@) is Some,
        r is Some ==> ({
            let p = spec_platform_of(key@)->0;
            (r->0).0@ == p.0 && (r->0).1@ == p.1
        }),
{
    if str_eq_str(key, "github") {
        Some(("GitHub Sponsors", "https://github.com/sponsors/"))
    } else if str_eq_str(key, "open_collective") {
        Some(("Open Collective", "https://opencollective.com/"))
    } else if str_eq_str(key, "ko_fi") {
        Some(("Ko-fi", "https://ko-fi.com/"))
    } else if str_eq_str(key, "patreon") {
        Some(("Patreon", "https://www.patreon.com/"))
    } else if str_eq_str(key, "liberapay") {
        Some(("Liberapay", "https://liberapay.com/"))
    } else if str_eq_str(key, "community_bridge") {
        Some(("Community Bridge", "https://funding.communitybridge.org/projects/"))
    } else if str_eq_str(key, "issuehunt") {
        Some(("IssueHunt", "https://issuehunt.io/r/"))
    } else if str_eq_str(key, "polar") {
        Some(("Polar", "https://polar.sh/"))
    } else if str_eq_str(key, "buy_me_a_coffee") {
        Some(("Buy Me a Coffee", "https://buymeacoffee.com/"))
    } else if str_eq_str(key, "thanks_dev") {
        Some(("thanks.dev", "https://thanks.dev/d/gh/"))
    } else {
        None
    }
}

/// The channels one platform contributes: one per non-empty account name,
/// with the name appended to the platform's URL prefix.
pub open spec fn spec_platform_channels(
    items: Seq<Seq<char>>,
    platform: Seq<char>,
    prefix: Seq<char>,
) -> Seq<(Seq<char>, Seq<char>)>
    decreases items.len(),
{
    if items.len() == 0 {
        Seq::<(Seq<char>, Seq<char>)>::empty()
    } else {
        let prior = spec_platform_channels(items.drop_last(), platform, prefix);
        if items.last().len() > 0 {
            prior.push((platform, prefix + items.last()))
        } else {
            prior
        }
    }
}

/// The channels a `custom:` entry contributes: one per non-empty URL, with
/// any remaining quotes stripped.
pub open spec fn spec_custom_channels(items: Seq<Seq<char>>) -> Seq<(Seq<char>, Seq<char>)>
    decreases items.len(),
{
    if items.len() == 0 {
        Seq::<(Seq<char>, Seq<char>)>::empty()
    } else {
        let prior = spec_custom_channels(items.drop_last());
        if items.last().len() > 0 {
            prior.push(("Custom"@, spec_unquote(items.last())))
        } else {
            prior
        }
    }
}

/// The channels one FUNDING.yml line contributes: none for blank lines,
/// comments, lines without `:`, empty values, and unknown platforms.
pub open spec fn spec_line_channels(line: Seq<char>) -> Seq<(Seq<char>, Seq<char>)> {
    let l = spec_trim(line);
    if l.len() == 0 || l[0] == '#' {
        Seq::<(Seq<char>, Seq<char>)>::empty()
    } else {
        let i = spec_find(l, ':');
        if i == -1 {
            Seq::<(Seq<char>, Seq<char>)>::empty()
        } else {
            let key = spec_lower(spec_trim(l.take(i)));
            let value = spec_trim(l.skip(i + 1));
            if value.len() == 0 {
                Seq::<(Seq<char>, Seq<char>)>::empty()
            } else {
                match spec_platform_of(key) {
                    Some(p) => spec_platform_channels(spec_yaml_items(value), p.0, p.1),
                    None => if key == "custom"@ {
                        spec_custom_channels(spec_yaml_items(value))
                    } else {
                        Seq::<(Seq<char>, Seq<char>)>::empty()
                    },
                }
            }
        }
    }
}

/// The channels of a whole FUNDING.yml file, line by line.
pub open spec fn spec_funding_channels(lines: Seq<Seq<char>>) -> Seq<(Seq<char>, Seq<char>)>
    decreases lines.len(),
{
    if lines.len() == 0 {
        Seq::<(Seq<char>, Seq<char>)>::empty()
    } else {
        spec_funding_channels(lines.drop_last()) + spec_line_channels(lines.last())
    }
}

/// The (platform, URL) views of a funding channel list.
pub open spec fn spec_channel_views(cs: Seq<FundingChannel>) -> Seq<(Seq<char>, Seq<char>)> {
    cs.map_values(|c: FundingChannel| (c.platform@, c.url@))
}

/// The channels contributed by one line of a FUNDING.yml file.
fn line_channels(line: &str) -> (r: Vec<FundingChannel>)
    ensures
        spec_channel_views(r@) == spec_line_channels(line@),
{
    let l = trim_str(line);
    let mut r: Vec<FundingChannel> = Vec::new();
    proof {
        assert(spec_channel_views(r@) =~= Seq::<(Seq<char>, Seq<char>)>::empty());
    }
    if l.as_str().unicode_len() == 0 || l.as_str().get_char(0) == '#' {
        return r;
    }
    let i = match find_char_str(l.as_str(), ':') {
        None => {
            return r;
        },
        Some(i) => i,
    };
    proof {
        crate::strutil::lemma_find_char(l@, ':');
    }
    let key = lower_str(trim_str(substring_string(l.as_str(), 0, i).as_str()).as_str());
    let value = trim_str(
        substring_string(l.as_str(), i + 1, l.as_str().unicode_len()).as_str(),
    );
    proof {
        assert(l@.take(i as int) == l@.subrange(0, i as int));
        assert(l@.skip(i + 1) == l@.subrange(i + 1, l@.len() as int));
    }
    if value.as_str().unicode_len() == 0 {
        return r;
    }
    match platform_of(key.as_str()) {
        Some((platform, prefix)) => {
            let items = parse_yaml_value(value.as_str());
            let ghost iv = views_of(items@);
            let mut k: usize = 0;
            proof {
                assert(spec_channel_views(r@) =~= spec_platform_channels(
                    iv.take(0),
                    platform@,
                    prefix@,
                ));
            }
            while k < items.len()
                invariant
                    k <= items@.len(),
                    iv == views_of(items@),
                    spec_channel_views(r@) == spec_platform_channels(
                        iv.take(k as int),
                        platform@,
                        prefix@,
                    ),
                decreases items@.len() - k,
            {
                proof {
                    assert(iv.take(k + 1).drop_last() =~= iv.take(k as int));
                    assert(iv.take(k + 1).last() == iv[k as int]);
                    assert(iv[k as int] == items@[k as int]@);
                }
                if items[k].as_str().unicode_len() > 0 {
                    let mut url = prefix.to_owned();
                    url.append(items[k].as_str());
                    r.push(FundingChannel { platform: platform.to_owned(), url });
                    proof {
                        assert(spec_channel_views(r@) =~= spec_platform_channels(
                            iv.take(k + 1),
                            platform@,
                            prefix@,
                        ));
                    }
                }
                k += 1;
            }
            proof {
                assert(iv.take(iv.len() as int) =~= iv);
            }
            r
        },
        None => {
            if str_eq_str(key.as_str(), "custom") {
                let items = parse_yaml_value(value.as_str());
                let ghost iv = views_of(items@);
                let mut k: usize = 0;
                proof {
                    assert(spec_channel_views(r@) =~= spec_custom_channels(iv.take(0)));
                }
                while k < items.len()
                    invariant
                        k <= items@.len(),
                        iv == views_of(items@),
                        spec_channel_views(r@) == spec_custom_channels(iv.take(k as int)),
                    decreases items@.len() - k,
                {
                    proof {
                        assert(iv.take(k + 1).drop_last() =~= iv.take(k as int));
                        assert(iv.take(k + 1).last() == iv[k as int]);
                        assert(iv[k as int] == items@[k as int]@);
                    }
                    if items[k].as_str().unicode_len() > 0 {
                        r.push(
                            FundingChannel {
                                platform: "Custom".to_owned(),
                                url: unquote(items[k].as_str()),
                            },
                        );
                        proof {
                            assert(spec_channel_views(r@) =~= spec_custom_channels(iv.take(k + 1)));
                        }
                    }
                    k += 1;
                }
                proof {
                    assert(iv.take(iv.len() as int) =~= iv);
                }
                r
            } else {
                r
            }
        },
    }
}

/// Parse a FUNDING.yml file line by line (simple `key: value` entries, no
/// full YAML), yielding the funding channels it declares.
///
/// Recognized platforms get one channel per listed account name; `custom:`
/// entries contribute their URLs directly; blank lines, comments and
/// unknown keys contribute nothing.
pub fn parse_funding_yml(content: &str) -> (r: Vec<FundingChannel>)
    ensures
        spec_channel_views(r@) == spec_funding_channels(spec_split_lines(content@)),
{
    let lines = split_lines_str(content);
    let ghost lv = views_of(lines@);
    let mut r: Vec<FundingChannel> = Vec::new();
    let mut i: usize = 0;
    proof {
        assert(spec_channel_views(r@) =~= spec_funding_channels(lv.take(0)));
    }
    while i < lines.len()
        invariant
            i <= lines@.len(),
            lv == views_of(lines@),
            spec_channel_views(r@) == spec_funding_channels(lv.take(i as int)),
        decreases lines@.len() - i,
    {
        proof {
            assert(lv.take(i + 1).drop_last() =~= lv.take(i as int));
            assert(lv.take(i + 1).last() == lv[i as int]);
            assert(lv[i as int] == lines@[i as int]@);
        }
        let mut here = line_channels(lines[i].as_str());
        proof {
            assert(spec_channel_views(r@ + here@) =~= spec_channel_views(r@)
                + spec_channel_views(here@));
        }
        r.append(&mut here);
        i += 1;
    }
    proof {
        assert(lv.take(lv.len() as int) =~= lv);
    }
    r
}

/// Repository metadata fetched from the GitHub API, reduced to the plain
/// fields the enrichment logic reads.
#[derive(Debug, PartialEq)]
pub struct RepoMetadata {
    /// Stargazer count.
    pub stars: Option<u64>,
    /// The repository's declared homepage, possibly empty.
    pub homepage: Option<String>,
    /// The SPDX identifier of the repository license, when known.
    pub spdx_id: Option<String>,
    /// Whether the repository has its issue tracker enabled.
    pub has_issues: Option<bool>,
    /// The repository's HTML URL.
    pub html_url: Option<String>,
}

/// Enrichment backend backed by the GitHub API. The network calls are made
/// outside the library; [`GitHubBackend::apply_repo_metadata`] and
/// [`GitHubBackend::add_funding_channels`] apply whatever they returned.
#[derive(Debug)]
pub struct GitHubBackend;

impl GitHubBackend {
    /// Fill gaps in a project from fetched repository metadata: stars, a
    /// non-empty homepage, an asserted license not yet listed, and — when
    /// the repository's HTML URL is known — issue-tracker, good-first-issue
    /// and contributing links. Populated fields are never replaced.
    pub fn apply_repo_metadata(project: &UpstreamProject, repo: &RepoMetadata) -> (r:
        UpstreamProject)
        ensures
            r.name == project.name,
            r.repo_url == project.repo_url,
            r.funding@ == project.funding@,
            r.is_open_source == project.is_open_source,
            r.documentation_url == project.documentation_url,
            r.stars == crate::enrich::spec_first_some(project.stars, repo.stars),
            project.homepage is None && repo.homepage is Some && repo.homepage->0@.len() > 0
                ==> r.homepage == repo.homepage,
            !(project.homepage is None && repo.homepage is Some && repo.homepage->0@.len() > 0)
                ==> r.homepage == project.homepage,
            repo.spdx_id is Some && repo.spdx_id->0@ != "NOASSERTION"@
                && !crate::enrich::spec_contains_string(project.licenses@, repo.spdx_id->0@)
                ==> r.licenses@ == project.licenses@.push(repo.spdx_id->0),
            !(repo.spdx_id is Some && repo.spdx_id->0@ != "NOASSERTION"@
                && !crate::enrich::spec_contains_string(project.licenses@, repo.spdx_id->0@))
                ==> r.licenses@ == project.licenses@,
            project.bug_tracker is None && repo.html_url is Some && repo.has_issues == Some(true)
                ==> r.bug_tracker is Some && r.bug_tracker->0@ == repo.html_url->0@ + "/issues"@,
            !(project.bug_tracker is None && repo.html_url is Some && repo.has_issues == Some(
                true,
            )) ==> r.bug_tracker == project.bug_tracker,
            project.good_first_issues_url is None && repo.html_url is Some
                ==> r.good_first_issues_url is Some && r.good_first_issues_url->0@
                == repo.html_url->0@
                + "/issues?q=is%3Aissue+is%3Aopen+label%3A%22good+first+issue%22"@,
            !(project.good_first_issues_url is None && repo.html_url is Some)
                ==> r.good_first_issues_url == project.good_first_issues_url,
            project.contributing_url is None && repo.html_url is Some ==> r.contributing_url
                is Some && r.contributing_url->0@ == repo.html_url->0@
                + "/blob/HEAD/CONTRIBUTING.md"@,
            !(project.contributing_url is None && repo.html_url is Some) ==> r.contributing_url
                == project.contributing_url,
    {
        let mut enriched = project.clone();
        if enriched.stars.is_none() {
            enriched.stars = repo.stars;
        }
        if enriched.homepage.is_none() {
            match &repo.homepage {
                Some(hp) => {
                    if hp.as_str().unicode_len() > 0 {
                        enriched.homepage = Some(hp.clone());
                    }
                },
                None => {},
            }
        }
        match &repo.spdx_id {
            Some(spdx) => {
                if !str_eq_str(spdx.as_str(), "NOASSERTION") && !crate::enrich::contains_license(
                    &enriched.licenses,
                    spdx,
                ) {
                    enriched.licenses.push(spdx.clone());
                }
            },
            None => {},
        }
        match &repo.html_url {
            Some(html_url) => {
                let has_issues = match repo.has_issues {
                    Some(b) => b,
                    None => false,
                };
                if enriched.bug_tracker.is_none() && has_issues {
                    let mut url = html_url.clone();
                    url.append("/issues");
                    enriched.bug_tracker = Some(url);
                }
                if enriched.good_first_issues_url.is_none() {
                    let mut url = html_url.clone();
                    url.append("/issues?q=is%3Aissue+is%3Aopen+label%3A%22good+first+issue%22");
                    enriched.good_first_issues_url = Some(url);
                }
                if enriched.contributing_url.is_none() {
                    let mut url = html_url.clone();
                    url.append("/blob/HEAD/CONTRIBUTING.md");
                    enriched.contributing_url = Some(url);
                }
            },
            None => {},
        }
        enriched
    }

    /// Add the channels declared by a repository's FUNDING.yml, skipping
    /// any whose URL the project already lists.
    pub fn add_funding_channels(project: &UpstreamProject, channels: &Vec<FundingChannel>) -> (r:
        UpstreamProject)
        ensures
            r.name == project.name,
            r.repo_url == project.repo_url,
            r.homepage == project.homepage,
            r.licenses@ == project.licenses@,
            r.bug_tracker == project.bug_tracker,
            r.contributing_url == project.contributing_url,
            r.is_open_source == project.is_open_source,
            r.documentation_url == project.documentation_url,
            r.good_first_issues_url == project.good_first_issues_url,
            r.stars == project.stars,
            r.funding@ == crate::enrich::spec_union_funding(project.funding@, channels@),
    {
        let mut enriched = project.clone();
        proof {
            assert(channels@.skip(0) =~= channels@);
        }
        let mut i: usize = 0;
        while i < channels.len()
            invariant
                i <= channels@.len(),
                enriched.name == project.name,
                enriched.repo_url == project.repo_url,
                enriched.homepage == project.homepage,
                enriched.licenses@ == project.licenses@,
                enriched.bug_tracker == project.bug_tracker,
                enriched.contributing_url == project.contributing_url,
                enriched.is_open_source == project.is_open_source,
                enriched.documentation_url == project.documentation_url,
                enriched.good_first_issues_url == project.good_first_issues_url,
                enriched.stars == project.stars,
                crate::enrich::spec_union_funding(project.funding@, channels@)
                    == crate::enrich::spec_union_funding(
                    enriched.funding@,
                    channels@.skip(i as int),
                ),
            decreases channels@.len() - i,
        {
            let chan = &channels[i];
            proof {
                assert(channels@.skip(i as int)[0] == channels@[i as int]);
                assert(channels@.skip(i as int).drop_first() =~= channels@.skip(i + 1));
            }
            if !crate::enrich::contains_funding_url(&enriched.funding, &chan.url) {
                enriched.funding.push(chan.clone());
            }
            i += 1;
        }
        proof {
            assert(crate::enrich::spec_union_funding(
                enriched.funding@,
                channels@.skip(channels@.len() as int),
            ) == enriched.funding@);
        }
        enriched
    }
}

} // verus!
