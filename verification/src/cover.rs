//! Cover art: which embedded picture of a file becomes its cover, and the
//! `data:` URL that carries it to the user interface.
use vstd::prelude::*;
use vstd::string::*;
use base64::Engine;

verus! {

/// What an embedded picture is for (when the file says).
#[derive(Debug, Clone, Copy, PartialEq, Eq, Structural)]
pub enum VisualUsage {
    FrontCover,
    Other,
    /// Any other declared use (back cover, artist, ...).
    Different,
}

/// A picture embedded in an audio file.
pub struct CoverVisual {
    pub usage: Option<VisualUsage>,
    /// Its MIME type, when the file gives one.
    pub media_type: Option<String>,
    pub data: Vec<u8>,
}

/// The character for the 6-bit value `v` in the standard base64 alphabet.
pub open spec fn base64_char(v: int) -> char {
    if v < 26 {
        (65 + v) as char
    } else if v < 52 {
        (97 + v - 26) as char
    } else if v < 62 {
        (48 + v - 52) as char
    } else if v == 62 {
        '+'
    } else {
        '/'
    }
}

/// Standard base64 (RFC 4648, with `=` padding): every 3 bytes become 4 characters of
/// 6 bits each, most significant first; a last group of 1 or 2 bytes is padded.
pub open spec fn base64_standard(d: Seq<u8>) -> Seq<char>
    decreases d.len(),
{
    let b0 = d[0] as int;
    let b1 = d[1] as int;
    let b2 = d[2] as int;
    if d.len() == 0 {
        Seq::empty()
    } else if d.len() == 1 {
        seq![base64_char(b0 / 4), base64_char((b0 % 4) * 16), '=', '=']
    } else if d.len() == 2 {
        seq![
            base64_char(b0 / 4),
            base64_char((b0 % 4) * 16 + b1 / 16),
            base64_char((b1 % 16) * 4),
            '=',
        ]
    } else {
        seq![
            base64_char(b0 / 4),
            base64_char((b0 % 4) * 16 + b1 / 16),
            base64_char((b1 % 16) * 4 + b2 / 64),
            base64_char(b2 % 64),
        ] + base64_standard(d.skip(3))
    }
}

/// The encoded length fits in memory, as the encoder checks before it writes.
pub open spec fn base64_len_ok(len: nat) -> bool {
    len / 3 * 4 + 4 <= usize::MAX
}

/// Whether the base64 text of `len` bytes fits in memory.
pub fn base64_fits(len: usize) -> (fits: bool)
    ensures
        fits == base64_len_ok(len as nat),
{
    len / 3 <= (usize::MAX - 4) / 4
}

/// Encodes `data` with base64's `general_purpose::STANDARD` engine (`Engine::encode`),
/// which writes standard base64 with padding.
#[verifier::external_body]
fn base64_encode(data: &[u8]) -> (text: String)
    requires
        base64_len_ok(data@.len()),
    ensures
        text@ == base64_standard(data@),
{
    base64::engine::general_purpose::STANDARD.encode(data)
}

/// A picture may serve as the cover: it is a front cover, of "other" use, or of no
/// declared use.
pub open spec fn usable_as_cover(v: CoverVisual) -> bool {
    v.usage == Some(VisualUsage::FrontCover) || v.usage == Some(VisualUsage::Other) || v.usage
        is None
}

/// The first picture that may serve as the cover, if any.
pub open spec fn first_cover(visuals: Seq<CoverVisual>, i: int) -> bool {
    &&& 0 <= i < visuals.len()
    &&& usable_as_cover(visuals[i])
    &&& forall|j: int| 0 <= j < i ==> !usable_as_cover(visuals[j])
}

/// The `data:` URL of a picture: its MIME type (JPEG when it has none) and its bytes
/// in base64.
pub open spec fn data_url(v: CoverVisual) -> Seq<char> {
    let mime = match v.media_type {
        Some(m) => m@,
        None => "image/jpeg"@,
    };
    "data:"@ + mime + ";base64,"@ + base64_standard(v.data@)
}

/// The cover of a file with embedded pictures `visuals`: the `data:` URL of the first
/// picture that may serve as the cover, or `None`.
pub fn cover_from_visuals(visuals: &Vec<CoverVisual>) -> (cover: Option<String>)
    requires
        forall|i: int| 0 <= i < visuals@.len() ==> base64_len_ok(#[trigger] visuals@[i].data@.len()),
    ensures
        match cover {
            Some(url) => exists|i: int| first_cover(visuals@, i) && url@ == data_url(visuals@[i]),
            None => forall|i: int| 0 <= i < visuals@.len() ==> !usable_as_cover(#[trigger] visuals@[i]),
        },
{
    let mut i: usize = 0;
    while i < visuals.len()
        invariant
            i <= visuals@.len(),
            forall|j: int| 0 <= j < i ==> !usable_as_cover(#[trigger] visuals@[j]),
            forall|k: int| 0 <= k < visuals@.len() ==> base64_len_ok(#[trigger] visuals@[k].data@.len()),
        decreases visuals@.len() - i,
    {
        let v = &visuals[i];
        let usable = match v.usage {
            Some(VisualUsage::FrontCover) => true,
            Some(VisualUsage::Other) => true,
            Some(VisualUsage::Different) => false,
            None => true,
        };
        if usable {
            let encoded = base64_encode(v.data.as_slice());
            let mut url = String::from_str("data:");
            match &v.media_type {
                Some(m) => url.append(m.as_str()),
                None => url.append("image/jpeg"),
            }
            url.append(";base64,");
            url.append(encoded.as_str());
            assert(first_cover(visuals@, i as int));
            return Some(url);
        }
        i = i + 1;
    }
    None
}

/// Covers already looked up, by file path: `None` records a file without a cover.
/// The pairs are held in a vector, whose contents the contracts below describe entry
/// by entry, rather than in a hash map keyed by `String`, whose contents no contract
/// here could describe.
pub struct CoverCache {
    pub entries: Vec<(String, Option<String>)>,
}

/// Entry `i` holds `path`.
pub open spec fn cached_at(entries: Seq<(String, Option<String>)>, i: int, path: Seq<char>) -> bool {
    0 <= i < entries.len() && entries[i].0@ == path
}

/// `i` is the first entry that holds `path`.
pub open spec fn first_cached(entries: Seq<(String, Option<String>)>, i: int, path: Seq<char>) -> bool {
    &&& cached_at(entries, i, path)
    &&& forall|j: int| 0 <= j < i ==> entries[j].0@ != path
}

/// What the cache holds for `path`: the cover of its first entry, or nothing.
pub open spec fn cached_cover(entries: Seq<(String, Option<String>)>, path: Seq<char>) -> Option<
    Option<String>,
>
    decreases entries.len(),
{
    if entries.len() == 0 {
        None
    } else if entries.last().0@ == path && !(exists|j: int| cached_at(entries.drop_last(), j, path)) {
        Some(entries.last().1)
    } else {
        cached_cover(entries.drop_last(), path)
    }
}

proof fn lemma_cached_cover_first(entries: Seq<(String, Option<String>)>, i: int, path: Seq<char>)
    requires
        first_cached(entries, i, path),
    ensures
        cached_cover(entries, path) == Some(entries[i].1),
    decreases entries.len(),
{
    let n = entries.len() as int;
    if i == n - 1 {
        if exists|j: int| cached_at(entries.drop_last(), j, path) {
            let j = choose|j: int| cached_at(entries.drop_last(), j, path);
            assert(entries[j].0@ != path);
        }
    } else {
        assert(first_cached(entries.drop_last(), i, path));
        assert(cached_at(entries.drop_last(), i, path));
        lemma_cached_cover_first(entries.drop_last(), i, path);
    }
}

proof fn lemma_cached_cover_none(entries: Seq<(String, Option<String>)>, path: Seq<char>)
    requires
        forall|j: int| 0 <= j < entries.len() ==> entries[j].0@ != path,
    ensures
        cached_cover(entries, path) is None,
    decreases entries.len(),
{
    if entries.len() > 0 {
        lemma_cached_cover_none(entries.drop_last(), path);
    }
}

fn copy_cover(cover: &Option<String>) -> (copy: Option<String>)
    ensures
        copy == *cover,
{
    match cover {
        Some(url) => Some(url.clone()),
        None => None,
    }
}

impl CoverCache {
    /// An empty cache.
    pub fn new() -> (cache: CoverCache)
        ensures
            cache.entries@.len() == 0,
    {
        CoverCache { entries: Vec::new() }
    }

    fn position(&self, key: &String) -> (found: Option<usize>)
        ensures
            match found {
                Some(i) => first_cached(self.entries@, i as int, key@),
                None => forall|j: int| 0 <= j < self.entries@.len() ==> self.entries@[j].0@ != key@,
            },
    {
        let mut i: usize = 0;
        while i < self.entries.len()
            invariant
                i <= self.entries@.len(),
                forall|j: int| 0 <= j < i ==> self.entries@[j].0@ != key@,
            decreases self.entries@.len() - i,
        {
            if self.entries[i].0 == *key {
                return Some(i);
            }
            i = i + 1;
        }
        None
    }

    /// The cover recorded for `path`: `Some(cover)` when it was looked up before.
    pub fn get(&self, path: &str) -> (cover: Option<Option<String>>)
        ensures
            cover == cached_cover(self.entries@, path@),
    {
        let key = path.to_owned();
        match self.position(&key) {
            Some(i) => {
                proof {
                    lemma_cached_cover_first(self.entries@, i as int, path@);
                }
                Some(copy_cover(&self.entries[i].1))
            },
            None => {
                proof {
                    lemma_cached_cover_none(self.entries@, path@);
                }
                None
            },
        }
    }

    /// Records `cover` for `path`, in place of what was recorded for it before.
    pub fn insert(&mut self, path: String, cover: Option<String>)
        ensures
            cached_cover(final(self).entries@, path@) == Some(cover),
            forall|other: Seq<char>| other != path@ ==> cached_cover(final(self).entries@, other)
                == cached_cover(old(self).entries@, other),
    {
        match self.position(&path) {
            Some(i) => {
                let ghost before = self.entries@;
                let key = self.entries[i].0.clone();
                self.entries.set(i, (key, cover));
                proof {
                    let after = self.entries@;
                    assert(first_cached(after, i as int, path@));
                    lemma_cached_cover_first(after, i as int, path@);
                    assert forall|other: Seq<char>| other != path@ implies cached_cover(after, other)
                        == cached_cover(before, other) by {
                        lemma_cached_cover_update(before, i as int, (key, cover), other);
                    }
                }
            },
            None => {
                let ghost before = self.entries@;
                self.entries.push((path, cover));
                proof {
                    let after = self.entries@;
                    assert(after.drop_last() =~= before);
                    assert forall|other: Seq<char>| other != path@ implies cached_cover(after, other)
                        == cached_cover(before, other) by {
                    }
                    assert(!(exists|j: int| cached_at(after.drop_last(), j, path@)));
                }
            },
        }
    }
}

proof fn lemma_cached_cover_update(
    entries: Seq<(String, Option<String>)>,
    i: int,
    item: (String, Option<String>),
    other: Seq<char>,
)
    requires
        0 <= i < entries.len(),
        item.0@ == entries[i].0@,
        entries[i].0@ != other,
    ensures
        cached_cover(entries.update(i, item), other) == cached_cover(entries, other),
    decreases entries.len(),
{
    let updated = entries.update(i, item);
    let n = entries.len() as int;
    if i == n - 1 {
        assert(updated.drop_last() =~= entries.drop_last());
    } else {
        assert(updated.drop_last() =~= entries.drop_last().update(i, item));
        lemma_cached_cover_update(entries.drop_last(), i, item, other);
        assert forall|j: int| cached_at(updated.drop_last(), j, other) <==> cached_at(
            entries.drop_last(),
            j,
            other,
        ) by {
            if j == i {
            }
        }
    }
}

} // verus!
