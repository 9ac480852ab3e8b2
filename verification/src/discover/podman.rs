//! Reading Podman image references. Querying the image store happens
//! outside the library.

use vstd::prelude::*;

use crate::strutil::{rfind_char_str, spec_rfind, spec_strip_prefix, strip_prefix_str,
    substring_string};

verus! {

/// A full image ID shortened to a 12-character prefix, after dropping a
/// `sha256:` prefix.
pub open spec fn spec_short_id(id: Seq<char>) -> Seq<char> {
    let hex = spec_strip_prefix(id, "sha256:"@);
    if hex.len() <= 12 {
        hex
    } else {
        hex.take(12)
    }
}

/// Truncate a full image ID to a short 12-character prefix.
pub fn short_id(id: &str) -> (r: String)
    ensures
        r@ == spec_short_id(id@),
{
    let hex = match strip_prefix_str(id, "sha256:") {
        Some(x) => x,
        None => id.to_owned(),
    };
    let n = hex.as_str().unicode_len();
    if n <= 12 {
        hex
    } else {
        substring_string(hex.as_str(), 0, 12)
    }
}

/// One entry of `podman image ls` output, reduced to the fields the logic
/// reads. Podman stores full references like `registry/name:tag` in the
/// names list; an image without names is dangling.
#[derive(Debug, PartialEq)]
pub struct PodmanImage {
    /// The full image identifier.
    pub id: String,
    /// The image's name references; empty for dangling images.
    pub names: Vec<String>,
}

impl PodmanImage {
    /// The repository name and tag of this image: the first reference
    /// split at its last `:`, the name falling back to the short image ID
    /// and the tag to `<none>`.
    pub fn name_and_tag(&self) -> (r: (String, String))
        ensures
            self.names@.len() == 0 ==> r.0@ == spec_short_id(self.id@) && r.1@ == "<none>"@,
            self.names@.len() > 0 ==> ({
                let reference = self.names@[0]@;
                let i = spec_rfind(reference, ':');
                &&& (i == -1 ==> r.0@ == reference && r.1@ == "<none>"@)
                &&& (i != -1 ==> r.0@ == reference.take(i) && r.1@ == reference.skip(i + 1))
            }),
    {
        if self.names.len() == 0 {
            return (short_id(self.id.as_str()), "<none>".to_owned());
        }
        let reference = &self.names[0];
        let n = reference.as_str().unicode_len();
        match rfind_char_str(reference.as_str(), ':') {
            Some(i) => {
                proof {
                    crate::strutil::lemma_rfind_char(reference@, ':');
                }
                let name = substring_string(reference.as_str(), 0, i);
                let tag = substring_string(reference.as_str(), i + 1, n);
                proof {
                    assert(name@ == reference@.take(i as int));
                    assert(tag@ == reference@.skip(i + 1));
                }
                (name, tag)
            },
            None => (reference.clone(), "<none>".to_owned()),
        }
    }
}

} // verus!
