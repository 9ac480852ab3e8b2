//! Shared helpers for OCI-compatible container image discoverers: parsing
//! inspect-label JSON and building packages from the standard OCI labels.

use vstd::prelude::*;

use crate::discover::{InstalledPackage, PackageSource, ParseError};
use crate::strutil::{spec_trim, str_eq_str, trim_str};

verus! {

/// What a JSON object of string values parses to: its key/value pairs in
/// key order, or nothing when the text is not such an object.
pub uninterp spec fn json_string_object(s: Seq<char>) -> Option<Seq<(Seq<char>, Seq<char>)>>;

/// Relies on `serde_json::from_str` into a `BTreeMap<String, String>`: it
/// succeeds exactly on a JSON object whose values are all strings, and the
/// map iterates its distinct keys in sorted order.
#[verifier::external_body]
fn parse_json_string_object(s: &str) -> (r: Option<Vec<(String, String)>>)
    ensures
        r is Some <==> json_string_object(s@) is Some,
        r is Some ==> r->0@.map_values(|p: (String, String)| (p.0@, p.1@)) == json_string_object(
            s@,
        )->0,
        r is Some ==> forall|i: int, j: int|
            0 <= i < j < r->0@.len() ==> (#[trigger] r->0@[i]).0@ != (#[trigger] r->0@[j]).0@,
{
    serde_json::from_str::<std::collections::BTreeMap<String, String>>(s).ok().map(
        |m| m.into_iter().collect(),
    )
}

/// The value stored under `key`, reading the first matching entry.
pub open spec fn spec_label_lookup(entries: Seq<(String, String)>, key: Seq<char>) -> Option<
    Seq<char>,
>
    decreases entries.len(),
{
    if entries.len() == 0 {
        None
    } else if entries[0].0@ == key {
        Some(entries[0].1@)
    } else {
        spec_label_lookup(entries.drop_first(), key)
    }
}

/// A set of OCI image labels: a lookup table from label names to values,
/// with pairwise-distinct names.
#[derive(Debug)]
pub struct LabelMap {
    /// The (name, value) entries.
    pub entries: Vec<(String, String)>,
}

impl LabelMap {
    /// Pairwise-distinct label names.
    pub open spec fn wf(self) -> bool {
        forall|i: int, j: int|
            0 <= i < j < self.entries@.len() ==> (#[trigger] self.entries@[i]).0@ != (
            #[trigger] self.entries@[j]).0@
    }

    /// An empty label set.
    pub fn new() -> (r: LabelMap)
        ensures
            r.wf(),
            r.entries@.len() == 0,
    {
        LabelMap { entries: Vec::new() }
    }

    /// Number of labels.
    pub fn len(&self) -> (r: usize)
        ensures
            r == self.entries@.len(),
    {
        self.entries.len()
    }

    /// Whether the set has no labels.
    pub fn is_empty(&self) -> (r: bool)
        ensures
            r == (self.entries@.len() == 0),
    {
        self.entries.len() == 0
    }

    /// Store `value` under `key`, replacing an existing entry of that key.
    pub fn insert(&mut self, key: String, value: String)
        requires
            old(self).wf(),
        ensures
            final(self).wf(),
            spec_label_lookup(final(self).entries@, key@) == Some(value@),
            forall|k: Seq<char>|
                k != key@ ==> spec_label_lookup(final(self).entries@, k) == spec_label_lookup(
                    old(self).entries@,
                    k,
                ),
    {
        let ghost orig = self.entries@;
        let mut i: usize = 0;
        proof {
            assert(orig.skip(0) =~= orig);
        }
        while i < self.entries.len()
            invariant
                i <= self.entries@.len(),
                self.entries@ == orig,
                orig == old(self).entries@,
                old(self).wf(),
                forall|k: int| 0 <= k < i ==> (#[trigger] orig[k]).0@ != key@,
            decreases self.entries@.len() - i,
        {
            if str_eq_str(self.entries[i].0.as_str(), key.as_str()) {
                proof {
                    assert(orig[i as int].0@ == key@);
                    assert forall|a: int|
                        0 <= a < orig.len() && a != i implies (#[trigger] orig[a]).0@ != key@ by {
                        if a < i {
                            assert(orig[a].0@ != orig[i as int].0@);
                        } else {
                            assert(orig[i as int].0@ != orig[a].0@);
                        }
                    }
                }
                self.entries.set(i, (key, value));
                proof {
                    assert forall|a: int, b: int|
                        0 <= a < b < self.entries@.len() implies (#[trigger] self.entries@[a]).0@
                        != (#[trigger] self.entries@[b]).0@ by {
                        if a != i && b != i {
                            assert(orig[a].0@ != orig[b].0@);
                        }
                    }
                    lemma_label_lookup_update(orig, self.entries@, i as int, key@);
                }
                return ;
            }
            i += 1;
        }
        self.entries.push((key, value));
        proof {
            assert forall|a: int, b: int|
                0 <= a < b < self.entries@.len() implies (#[trigger] self.entries@[a]).0@ != (
                #[trigger] self.entries@[b]).0@ by {
                if b < orig.len() {
                    assert(orig[a].0@ != orig[b].0@);
                } else {
                    assert(orig[a].0@ != key@);
                }
            }
            lemma_label_lookup_append(orig, self.entries@, key@);
        }
    }

    /// Read the value stored under `key`.
    pub fn get(&self, key: &str) -> (r: Option<String>)
        ensures
            r is Some <==> spec_label_lookup(self.entries@, key@) is Some,
            r is Some ==> r->0@ == spec_label_lookup(self.entries@, key@)->0,
    {
        let mut i: usize = 0;
        proof {
            assert(self.entries@.skip(0) =~= self.entries@);
        }
        while i < self.entries.len()
            invariant
                i <= self.entries@.len(),
                spec_label_lookup(self.entries@, key@) == spec_label_lookup(
                    self.entries@.skip(i as int),
                    key@,
                ),
            decreases self.entries@.len() - i,
        {
            proof {
                assert(self.entries@.skip(i as int)[0] == self.entries@[i as int]);
                assert(self.entries@.skip(i as int).drop_first() =~= self.entries@.skip(i + 1));
            }
            if str_eq_str(self.entries[i].0.as_str(), key) {
                return Some(self.entries[i].1.clone());
            }
            i += 1;
        }
        proof {
            assert(self.entries@.skip(self.entries@.len() as int) =~= Seq::<(
                String,
                String,
            )>::empty());
        }
        None
    }
}

/// Updating the first entry of `key` in place leaves every other lookup
/// unchanged and makes `key` resolve to the new entry.
proof fn lemma_label_lookup_update(
    orig: Seq<(String, String)>,
    upd: Seq<(String, String)>,
    i: int,
    key: Seq<char>,
)
    requires
        0 <= i < orig.len(),
        upd.len() == orig.len(),
        upd[i].0@ == key,
        forall|k: int| 0 <= k < orig.len() && k != i ==> #[trigger] upd[k] == orig[k],
        forall|k: int| 0 <= k < i ==> (#[trigger] orig[k]).0@ != key,
        orig[i].0@ == key,
    ensures
        spec_label_lookup(upd, key) == Some(upd[i].1@),
        forall|k: Seq<char>|
            k != key ==> #[trigger] spec_label_lookup(upd, k) == spec_label_lookup(orig, k),
    decreases orig.len(),
{
    if i == 0 {
        assert(upd.drop_first() =~= orig.drop_first());
        assert forall|k: Seq<char>| k != key implies #[trigger] spec_label_lookup(upd, k)
            == spec_label_lookup(orig, k) by {
            assert(spec_label_lookup(upd, k) == spec_label_lookup(upd.drop_first(), k));
            assert(spec_label_lookup(orig, k) == spec_label_lookup(orig.drop_first(), k));
        }
    } else {
        assert forall|k: int|
            0 <= k < orig.drop_first().len() && k != i - 1 implies #[trigger] upd.drop_first()[k]
            == orig.drop_first()[k] by {
            assert(upd.drop_first()[k] == upd[k + 1]);
            assert(orig.drop_first()[k] == orig[k + 1]);
        }
        assert forall|k: int| 0 <= k < i - 1 implies (#[trigger] orig.drop_first()[k]).0@
            != key by {
            assert(orig.drop_first()[k] == orig[k + 1]);
        }
        assert(upd.drop_first()[i - 1] == upd[i]);
        assert(orig.drop_first()[i - 1] == orig[i]);
        lemma_label_lookup_update(orig.drop_first(), upd.drop_first(), i - 1, key);
        assert(upd[0] == orig[0]);
        assert(upd[0].0@ != key);
        assert(spec_label_lookup(upd, key) == spec_label_lookup(upd.drop_first(), key));
        assert forall|k: Seq<char>| k != key implies #[trigger] spec_label_lookup(upd, k)
            == spec_label_lookup(orig, k) by {
            if upd[0].0@ != k {
                assert(spec_label_lookup(upd, k) == spec_label_lookup(upd.drop_first(), k));
                assert(spec_label_lookup(orig, k) == spec_label_lookup(orig.drop_first(), k));
            }
        }
    }
}

/// Appending an entry of a fresh key leaves every other lookup unchanged
/// and makes that key resolve to the new entry.
proof fn lemma_label_lookup_append(
    orig: Seq<(String, String)>,
    upd: Seq<(String, String)>,
    key: Seq<char>,
)
    requires
        upd.len() == orig.len() + 1,
        upd[orig.len() as int].0@ == key,
        forall|k: int| 0 <= k < orig.len() ==> #[trigger] upd[k] == orig[k],
        forall|k: int| 0 <= k < orig.len() ==> (#[trigger] orig[k]).0@ != key,
    ensures
        spec_label_lookup(upd, key) == Some(upd[orig.len() as int].1@),
        forall|k: Seq<char>|
            k != key ==> #[trigger] spec_label_lookup(upd, k) == spec_label_lookup(orig, k),
    decreases orig.len(),
{
    if orig.len() == 0 {
        assert(upd.drop_first() =~= Seq::<(String, String)>::empty());
        assert forall|k: Seq<char>| k != key implies #[trigger] spec_label_lookup(upd, k)
            == spec_label_lookup(orig, k) by {
            assert(upd[0].0@ == key);
            assert(spec_label_lookup(upd, k) == spec_label_lookup(upd.drop_first(), k));
            assert(spec_label_lookup(upd.drop_first(), k) is None);
            assert(spec_label_lookup(orig, k) is None);
        }
    } else {
        assert forall|k: int|
            0 <= k < orig.drop_first().len() implies #[trigger] upd.drop_first()[k]
            == orig.drop_first()[k] by {
            assert(upd.drop_first()[k] == upd[k + 1]);
            assert(orig.drop_first()[k] == orig[k + 1]);
        }
        assert forall|k: int| 0 <= k < orig.drop_first().len() implies (
        #[trigger] orig.drop_first()[k]).0@ != key by {
            assert(orig.drop_first()[k] == orig[k + 1]);
        }
        assert(upd.drop_first()[orig.drop_first().len() as int] == upd[orig.len() as int]);
        lemma_label_lookup_append(orig.drop_first(), upd.drop_first(), key);
        assert(upd[0] == orig[0]);
        assert(upd[0].0@ != key);
        assert(spec_label_lookup(upd, key) == spec_label_lookup(upd.drop_first(), key));
        assert forall|k: Seq<char>| k != key implies #[trigger] spec_label_lookup(upd, k)
            == spec_label_lookup(orig, k) by {
            if upd[0].0@ != k {
                assert(spec_label_lookup(upd, k) == spec_label_lookup(upd.drop_first(), k));
                assert(spec_label_lookup(orig, k) == spec_label_lookup(orig.drop_first(), k));
            }
        }
    }
}

/// Parse a JSON object of OCI labels. Empty input and the literal `null`
/// yield an empty label set; anything else must be a JSON object whose
/// values are strings.
pub fn parse_labels(output: &str) -> (r: Result<LabelMap, ParseError>)
    ensures
        ({
            let t = spec_trim(output@);
            &&& t.len() == 0 || t == "null"@ ==> r is Ok && r->Ok_0.entries@.len() == 0
            &&& !(t.len() == 0 || t == "null"@) ==> {
                &&& (r is Ok <==> json_string_object(t) is Some)
                &&& (r is Ok ==> r->Ok_0.entries@.map_values(|p: (String, String)| (p.0@, p.1@))
                    == json_string_object(t)->0)
            }
            &&& r is Ok ==> r->Ok_0.wf()
        }),
{
    let trimmed = trim_str(output);
    if trimmed.as_str().unicode_len() == 0 || str_eq_str(trimmed.as_str(), "null") {
        return Ok(LabelMap::new());
    }
    match parse_json_string_object(trimmed.as_str()) {
        Some(entries) => Ok(LabelMap { entries }),
        None => Err(
            ParseError { message: "Failed to parse container inspect labels JSON".to_owned() },
        ),
    }
}

/// Build a package from a container image name, tag and OCI labels: the
/// tag is the version (`<none>` becoming `unknown`), the URL prefers the
/// `source` label over the `url` label, and the `description` and
/// `licenses` labels fill the matching fields.
pub fn build_package_from_labels(
    name: &str,
    tag: &str,
    labels: &LabelMap,
    source: PackageSource,
) -> (r: InstalledPackage)
    ensures
        r.name@ == name@,
        tag@ == "<none>"@ ==> r.version@ == "unknown"@,
        tag@ != "<none>"@ ==> r.version@ == tag@,
        ({
            let src = spec_label_lookup(labels.entries@, "org.opencontainers.image.source"@);
            let url = spec_label_lookup(labels.entries@, "org.opencontainers.image.url"@);
            &&& (src is Some ==> r.url is Some && r.url->0@ == src->0)
            &&& (src is None && url is Some ==> r.url is Some && r.url->0@ == url->0)
            &&& (src is None && url is None ==> r.url is None)
        }),
        ({
            let d = spec_label_lookup(labels.entries@, "org.opencontainers.image.description"@);
            &&& (r.description is Some <==> d is Some)
            &&& (r.description is Some ==> r.description->0@ == d->0)
        }),
        ({
            let l = spec_label_lookup(labels.entries@, "org.opencontainers.image.licenses"@);
            &&& (l is Some ==> r.licenses@.len() == 1 && r.licenses@[0]@ == l->0)
            &&& (l is None ==> r.licenses@.len() == 0)
        }),
        r.source == source,
{
    let version = if str_eq_str(tag, "<none>") {
        "unknown".to_owned()
    } else {
        tag.to_owned()
    };
    let url = match labels.get("org.opencontainers.image.source") {
        Some(u) => Some(u),
        None => labels.get("org.opencontainers.image.url"),
    };
    let description = labels.get("org.opencontainers.image.description");
    let mut licenses: Vec<String> = Vec::new();
    match labels.get("org.opencontainers.image.licenses") {
        Some(l) => {
            licenses.push(l);
        },
        None => {},
    }
    InstalledPackage {
        name: name.to_owned(),
        version,
        description,
        url,
        source,
        licenses,
    }
}

} // verus!
