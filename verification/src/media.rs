//! Which files the player handles, in which order a folder's files come, and the
//! numbers it derives from what the general-purpose decoder reports.
use vstd::prelude::*;
use vstd::string::*;
use crate::nwa::trunc_div;

verus! {

/// The code of a character once ASCII capitals are made small.
pub open spec fn lower_code(c: char) -> int {
    let u = c as int;
    if 65 <= u <= 90 {
        u + 32
    } else {
        u
    }
}

/// `s` equals the all-small text `small` when ASCII capitals in `s` are made small.
/// (For texts of small ASCII letters, digits and dots, this is what comparing after
/// Unicode lower-casing gives: no other character lower-cases to one of them.)
pub open spec fn matches_ignoring_case(s: Seq<char>, small: Seq<char>) -> bool {
    &&& s.len() == small.len()
    &&& forall|i: int| 0 <= i < s.len() ==> lower_code(#[trigger] s[i]) == small[i] as int
}

/// The file name extensions of the formats the player reads, in any case.
pub open spec fn audio_extension(ext: Seq<char>) -> bool {
    ||| matches_ignoring_case(ext, "mp3"@)
    ||| matches_ignoring_case(ext, "wav"@)
    ||| matches_ignoring_case(ext, "ogg"@)
    ||| matches_ignoring_case(ext, "flac"@)
    ||| matches_ignoring_case(ext, "nwa"@)
}

/// The path names an NWA file: it ends with ".nwa", in any case.
pub open spec fn nwa_path(path: Seq<char>) -> bool {
    path.len() >= 4 && matches_ignoring_case(path.subrange(path.len() - 4, path.len() as int), ".nwa"@)
}

/// `s` with its ASCII capitals made small.
pub open spec fn ascii_lowercase(s: Seq<char>) -> Seq<char> {
    Seq::new(s.len(), |i: int| lower_code(s[i]) as char)
}

proof fn lemma_lower_code_idempotent(c: char)
    ensures
        lower_code(lower_code(c) as char) == lower_code(c),
{
    let u = c as int;
    if 65 <= u <= 90 {
        assert((u + 32) as char as int == u + 32);
    } else {
        assert(u as char as int == u);
    }
}

/// Matching a text ignoring case does not depend on the case of the text.
proof fn lemma_match_ignores_case(s: Seq<char>, small: Seq<char>)
    ensures
        matches_ignoring_case(s, small) == matches_ignoring_case(ascii_lowercase(s), small),
{
    let l = ascii_lowercase(s);
    assert forall|i: int| 0 <= i < s.len() implies lower_code(#[trigger] l[i]) == lower_code(s[i]) by {
        lemma_lower_code_idempotent(s[i]);
    }
    if matches_ignoring_case(l, small) {
        assert forall|i: int| 0 <= i < s.len() implies lower_code(#[trigger] s[i]) == small[i] as int by {
            assert(lower_code(l[i]) == small[i] as int);
        }
    }
    if matches_ignoring_case(s, small) {
        assert forall|i: int| 0 <= i < l.len() implies lower_code(#[trigger] l[i]) == small[i] as int by {
            assert(lower_code(s[i]) == small[i] as int);
        }
    }
}

/// Whether an extension is one the player reads does not depend on ASCII case: the
/// answer for `ext` is the answer for its small-letter form, so every case variant of
/// mp3, wav, ogg, flac and nwa is accepted as the small-letter one is.
pub proof fn law_audio_extension_ignores_case(ext: Seq<char>)
    ensures
        audio_extension(ext) == audio_extension(ascii_lowercase(ext)),
{
    lemma_match_ignores_case(ext, "mp3"@);
    lemma_match_ignores_case(ext, "wav"@);
    lemma_match_ignores_case(ext, "ogg"@);
    lemma_match_ignores_case(ext, "flac"@);
    lemma_match_ignores_case(ext, "nwa"@);
}

/// The five supported extensions, written small, are accepted.
pub proof fn law_supported_extensions()
    ensures
        audio_extension("mp3"@),
        audio_extension("wav"@),
        audio_extension("ogg"@),
        audio_extension("flac"@),
        audio_extension("nwa"@),
{
    reveal_strlit("mp3");
    reveal_strlit("wav");
    reveal_strlit("ogg");
    reveal_strlit("flac");
    reveal_strlit("nwa");
    assert(matches_ignoring_case("mp3"@, "mp3"@));
    assert(matches_ignoring_case("wav"@, "wav"@));
    assert(matches_ignoring_case("ogg"@, "ogg"@));
    assert(matches_ignoring_case("flac"@, "flac"@));
    assert(matches_ignoring_case("nwa"@, "nwa"@));
}

/// Whether a path names an NWA file does not depend on ASCII case.
pub proof fn law_nwa_path_ignores_case(path: Seq<char>)
    ensures
        nwa_path(path) == nwa_path(ascii_lowercase(path)),
{
    if path.len() >= 4 {
        let tail = path.subrange(path.len() - 4, path.len() as int);
        let l = ascii_lowercase(path);
        assert(l.subrange(l.len() - 4, l.len() as int) =~= ascii_lowercase(tail));
        lemma_match_ignores_case(tail, ".nwa"@);
    }
}

/// Whether the characters of `s` from `start` on match `small` ignoring ASCII case.
fn matches_at(s: &str, start: usize, small: &str) -> (matched: bool)
    requires
        start + small@.len() <= s@.len(),
    ensures
        matched == matches_ignoring_case(s@.subrange(start as int, start + small@.len()), small@),
{
    let total = s.unicode_len();
    let n = small.unicode_len();
    let ghost part = s@.subrange(start as int, start + small@.len());
    let mut i: usize = 0;
    while i < n
        invariant
            n == small@.len(),
            total == s@.len(),
            start + n <= s@.len(),
            i <= n,
            part == s@.subrange(start as int, start + n),
            forall|j: int| 0 <= j < i ==> lower_code(#[trigger] part[j]) == small@[j] as int,
        decreases n - i,
    {
        let c = s.get_char(start + i);
        let code: u32 = c as u32;
        let lowered: u32 = if 65 <= code && code <= 90 {
            code + 32
        } else {
            code
        };
        assert(part[i as int] == c);
        if lowered != small.get_char(i) as u32 {
            return false;
        }
        i = i + 1;
    }
    true
}

/// Whether `s` matches the all-small text `small` ignoring ASCII case.
fn same_ignoring_case(s: &str, small: &str) -> (matched: bool)
    ensures
        matched == matches_ignoring_case(s@, small@),
{
    let n = s.unicode_len();
    if n != small.unicode_len() {
        return false;
    }
    let m = matches_at(s, 0, small);
    assert(s@.subrange(0, n as int) =~= s@);
    m
}

/// Whether a file with extension `ext` is one the player reads (mp3, wav, ogg, flac
/// or nwa, in any case).
pub fn is_audio_extension(ext: &str) -> (audio: bool)
    ensures
        audio == audio_extension(ext@),
{
    same_ignoring_case(ext, "mp3") || same_ignoring_case(ext, "wav") || same_ignoring_case(
        ext,
        "ogg",
    ) || same_ignoring_case(ext, "flac") || same_ignoring_case(ext, "nwa")
}

/// Whether `path` names an NWA file, which the player's own NWA decoder reads.
pub fn is_nwa_path(path: &str) -> (nwa: bool)
    ensures
        nwa == nwa_path(path@),
{
    let n = path.unicode_len();
    if n < 4 {
        return false;
    }
    proof {
        reveal_strlit(".nwa");
    }
    matches_at(path, n - 4, ".nwa")
}

/// Texts in order: compared character by character by code; a proper prefix comes
/// first. (This is the order of the texts' UTF-8 bytes, which `String`'s `cmp` uses.)
pub open spec fn text_le(a: Seq<char>, b: Seq<char>) -> bool
    decreases a.len(),
{
    if a.len() == 0 {
        true
    } else if b.len() == 0 {
        false
    } else if a[0] != b[0] {
        (a[0] as int) < (b[0] as int)
    } else {
        text_le(a.drop_first(), b.drop_first())
    }
}

proof fn lemma_text_le_total(a: Seq<char>, b: Seq<char>)
    ensures
        text_le(a, b) || text_le(b, a),
    decreases a.len(),
{
    if a.len() > 0 && b.len() > 0 && a[0] == b[0] {
        lemma_text_le_total(a.drop_first(), b.drop_first());
    } else if a.len() > 0 && b.len() > 0 {
        assert((a[0] as int) != (b[0] as int));
    }
}

proof fn lemma_text_le_trans(a: Seq<char>, b: Seq<char>, c: Seq<char>)
    requires
        text_le(a, b),
        text_le(b, c),
    ensures
        text_le(a, c),
    decreases a.len(),
{
    if a.len() > 0 && b.len() > 0 && c.len() > 0 && a[0] == b[0] && b[0] == c[0] {
        lemma_text_le_trans(a.drop_first(), b.drop_first(), c.drop_first());
    }
}

/// Whether `a` comes no later than `b` in the order of `text_le`.
fn path_le(a: &String, b: &String) -> (le: bool)
    ensures
        le == text_le(a@, b@),
{
    let sa = a.as_str();
    let sb = b.as_str();
    let na = sa.unicode_len();
    let nb = sb.unicode_len();
    let mut i: usize = 0;
    assert(a@.skip(0) =~= a@);
    assert(b@.skip(0) =~= b@);
    while i < na && i < nb
        invariant
            na == a@.len(),
            nb == b@.len(),
            sa@ == a@,
            sb@ == b@,
            i <= na,
            i <= nb,
            text_le(a@, b@) == text_le(a@.skip(i as int), b@.skip(i as int)),
        decreases na - i,
    {
        let ca = sa.get_char(i);
        let cb = sb.get_char(i);
        assert(a@.skip(i as int)[0] == ca);
        assert(b@.skip(i as int)[0] == cb);
        if ca != cb {
            return (ca as u32) < (cb as u32);
        }
        assert(a@.skip(i as int).drop_first() =~= a@.skip(i + 1));
        assert(b@.skip(i as int).drop_first() =~= b@.skip(i + 1));
        i = i + 1;
    }
    i == na
}

/// The paths are in order.
pub open spec fn sorted_by_path(files: Seq<(String, u64)>) -> bool {
    forall|i: int, j: int| 0 <= i < j < files.len() ==> text_le(files[i].0@, files[j].0@)
}

/// `sorted` is `files` rearranged by `perm` (entry `k` of `sorted` is entry `perm[k]` of
/// `files`, each taken once), and files with the same path keep their order.
pub open spec fn stable_rearrangement(
    sorted: Seq<(String, u64)>,
    files: Seq<(String, u64)>,
    perm: Seq<int>,
) -> bool {
    &&& perm.len() == sorted.len() == files.len()
    &&& forall|k: int| 0 <= k < perm.len() ==> 0 <= #[trigger] perm[k] < files.len()
    &&& forall|k: int| 0 <= k < perm.len() ==> #[trigger] sorted[k] == files[perm[k]]
    &&& forall|k: int, l: int| 0 <= k < l < perm.len() ==> perm[k] != perm[l]
    &&& forall|k: int, l: int|
        0 <= k < l < perm.len() && sorted[k].0@ == sorted[l].0@ ==> perm[k] < perm[l]
}

proof fn lemma_text_le_refl(a: Seq<char>)
    ensures
        text_le(a, a),
    decreases a.len(),
{
    if a.len() > 0 {
        lemma_text_le_refl(a.drop_first());
    }
}

/// The files of `files` whose path is `path`, in their order.
pub open spec fn with_path(files: Seq<(String, u64)>, path: Seq<char>) -> Seq<(String, u64)> {
    files.filter(|f: (String, u64)| f.0@ == path)
}

/// The files of a folder in the order of their paths: the same files, sorted, and
/// files with the same path in the order they came in (a stable sort).
pub fn sort_by_path(files: Vec<(String, u64)>) -> (sorted: Vec<(String, u64)>)
    ensures
        sorted@.to_multiset() == files@.to_multiset(),
        sorted_by_path(sorted@),
        forall|path: Seq<char>| #[trigger] with_path(sorted@, path) == with_path(files@, path),
        exists|perm: Seq<int>| stable_rearrangement(sorted@, files@, perm),
{
    broadcast use vstd::seq_lib::group_to_multiset_ensures;
    broadcast use vstd::multiset::group_multiset_axioms;

    let ghost all = files@;
    let mut rest = files;
    let mut out: Vec<(String, u64)> = Vec::new();
    let ghost mut perm: Seq<int> = Seq::empty();
    assert(rest@.skip(0) =~= all);
    while rest.len() > 0
        invariant
            out@.to_multiset().add(rest@.to_multiset()) == all.to_multiset(),
            sorted_by_path(out@),
            out@.len() + rest@.len() == all.len(),
            rest@ == all.skip(out@.len() as int),
            stable_rearrangement(out@, all.take(out@.len() as int), perm),
            forall|q: Seq<char>| #[trigger] with_path(out@, q) == with_path(all.take(out@.len() as int), q),
        decreases rest@.len(),
    {
        let ghost m = out@.len() as int;
        let ghost rest_before = rest@;
        let item = rest.remove(0);
        proof {
            vstd::seq_lib::to_multiset_remove(rest_before, 0);
            vstd::seq_lib::to_multiset_contains(rest_before, item);
            assert(rest_before.contains(item));
        }
        let mut p: usize = 0;
        while p < out.len() && path_le(&out[p].0, &item.0)
            invariant
                p <= out@.len(),
                forall|q: int| 0 <= q < p ==> text_le(#[trigger] out@[q].0@, item.0@),
            decreases out@.len() - p,
        {
            p = p + 1;
        }
        let ghost before = out@;
        proof {
            if p < before.len() {
                lemma_text_le_total(before[p as int].0@, item.0@);
                assert forall|q: int| p <= q < before.len() implies text_le(
                    item.0@,
                    #[trigger] before[q].0@,
                ) by {
                    if q > p {
                        lemma_text_le_trans(item.0@, before[p as int].0@, before[q].0@);
                    }
                }
            }
        }
        out.insert(p, item);
        proof {
            let old_perm = perm;
            perm = old_perm.insert(p as int, m);
            assert(item == all[m]);
            assert(rest@ =~= all.skip(m + 1));
            let taken = all.take(m + 1);
            assert forall|k: int| 0 <= k < perm.len() implies #[trigger] out@[k] == taken[perm[k]] by {
                if k < p {
                } else if k == p {
                } else {
                    assert(out@[k] == before[k - 1]);
                    assert(perm[k] == old_perm[k - 1]);
                }
            }
            assert forall|k: int, l: int| 0 <= k < l < perm.len() implies perm[k] != perm[l] by {
                if l < p {
                } else if l == p {
                    assert(old_perm[k] < m);
                } else if k < p {
                    assert(perm[l] == old_perm[l - 1]);
                } else if k == p {
                    assert(perm[l] == old_perm[l - 1]);
                    assert(old_perm[l - 1] < m);
                } else {
                    assert(perm[k] == old_perm[k - 1]);
                    assert(perm[l] == old_perm[l - 1]);
                }
            }
            assert forall|k: int, l: int|
                0 <= k < l < perm.len() && out@[k].0@ == out@[l].0@ implies perm[k] < perm[l] by {
                if l < p {
                } else if l == p {
                    assert(old_perm[k] < m);
                } else if k < p {
                    assert(perm[l] == old_perm[l - 1]);
                    assert(out@[l] == before[l - 1]);
                } else if k == p {
                    assert(out@[l] == before[l - 1]);
                    lemma_text_le_refl(item.0@);
                    if l - 1 > p {
                        lemma_text_le_trans(before[p as int].0@, before[l - 1].0@, item.0@);
                    }
                    assert(false);
                } else {
                    assert(perm[k] == old_perm[k - 1]);
                    assert(perm[l] == old_perm[l - 1]);
                    assert(out@[k] == before[k - 1]);
                    assert(out@[l] == before[l - 1]);
                }
            }
            assert forall|k: int| 0 <= k < perm.len() implies 0 <= #[trigger] perm[k] < taken.len() by {
                if k > p {
                    assert(perm[k] == old_perm[k - 1]);
                }
            }
            assert(stable_rearrangement(out@, taken, perm));
            assert forall|k: int| p <= k < before.len() implies before[k].0@ != item.0@ by {
                if before[k].0@ == item.0@ {
                    lemma_text_le_refl(item.0@);
                    if k > p {
                        lemma_text_le_trans(before[p as int].0@, before[k].0@, item.0@);
                    }
                }
            }
            lemma_with_path_after_insert(before, p as int, item, all.take(m));
            assert(taken =~= all.take(m).push(item));
            vstd::seq_lib::to_multiset_insert(before, p as int, item);
            assert forall|i: int, j: int| 0 <= i < j < out@.len() implies text_le(
                out@[i].0@,
                out@[j].0@,
            ) by {
                if j < p {
                } else if j == p {
                } else if i < p {
                    assert(out@[j] == before[j - 1]);
                    lemma_text_le_trans(out@[i].0@, item.0@, out@[j].0@);
                } else if i == p {
                    assert(out@[j] == before[j - 1]);
                } else {
                    assert(out@[i] == before[i - 1]);
                    assert(out@[j] == before[j - 1]);
                }
            }
            assert(out@.to_multiset().add(rest@.to_multiset()) =~= all.to_multiset());
        }
    }
    proof {
        assert(rest@.to_multiset() =~= vstd::multiset::Multiset::empty());
        assert(out@.to_multiset() =~= all.to_multiset());
        assert(all.take(out@.len() as int) =~= all);
    }
    out
}

proof fn lemma_with_path_after_insert(
    before: Seq<(String, u64)>,
    p: int,
    item: (String, u64),
    taken: Seq<(String, u64)>,
)
    requires
        0 <= p <= before.len(),
        forall|k: int| p <= k < before.len() ==> before[k].0@ != item.0@,
        forall|q: Seq<char>| #[trigger] with_path(before, q) == with_path(taken, q),
    ensures
        forall|q: Seq<char>| #[trigger] with_path(before.insert(p, item), q) == with_path(
            taken.push(item),
            q,
        ),
{
    let head = before.take(p);
    let tail = before.skip(p);
    assert(before =~= head + tail);
    assert(before.insert(p, item) =~= head.push(item) + tail);
    assert forall|q: Seq<char>| #[trigger] with_path(before.insert(p, item), q) == with_path(
        taken.push(item),
        q,
    ) by {
        let pred = |f: (String, u64)| f.0@ == q;
        Seq::filter_distributes_over_add(head.push(item), tail, pred);
        Seq::filter_distributes_over_add(head, tail, pred);
        head.lemma_filter_push(item, pred);
        taken.lemma_filter_push(item, pred);
        assert(with_path(before, q) == with_path(taken, q));
        if item.0@ == q {
            assert(tail.all(|x: (String, u64)| !pred(x)));
            tail.lemma_all_neg_filter_empty(pred);
            assert(tail.filter(pred) =~= Seq::<(String, u64)>::empty());
            assert(head.filter(pred) + tail.filter(pred) =~= head.filter(pred));
            assert((head.filter(pred).push(item) + tail.filter(pred)) =~= head.filter(pred).push(item));
        } else {
            assert(head.filter(pred) + tail.filter(pred) == before.filter(pred));
        }
    }
}

/// The sample rate and channel count of a track, where the file leaves them out:
/// 44100 Hz and 2 channels.
pub fn stream_format(sample_rate: Option<u32>, channels: Option<u16>) -> (format: (u32, u16))
    ensures
        format.0 == (match sample_rate {
            Some(r) => r,
            None => 44100,
        }),
        format.1 == (match channels {
            Some(c) => c,
            None => 2,
        }),
{
    let rate = match sample_rate {
        Some(r) => r,
        None => 44100,
    };
    let count = match channels {
        Some(c) => c,
        None => 2,
    };
    (rate, count)
}

/// The time, in nanoseconds, of timestamp `ts` in a time base of `numer / denom`
/// seconds per tick: `ts * numer * 10^9 / denom`, rounded towards zero; `None` when its
/// whole seconds (rounded down) do not fit in an `i64`.
pub open spec fn spec_time_nanos(numer: u32, denom: u32, ts: i64) -> Option<i128> {
    let total = trunc_div(ts * numer * 1_000_000_000, denom as int);
    if i64::MIN <= total / 1_000_000_000 <= i64::MAX {
        Some(total as i128)
    } else {
        None
    }
}

/// Converts timestamp `ts` with symphonia's `TimeBase::calc_time` in the time base
/// `numer / denom`, and reads the result with `Time::as_nanos`. The source computes
/// `ts * numer * 10^9 / denom` (rounding towards zero, in `i64` when the products fit,
/// else in `i128`) and answers `None` only when the whole seconds overflow an `i64`;
/// `as_nanos` gives the total back.
#[verifier::external_body]
fn calc_time_nanos(numer: u32, denom: u32, ts: i64) -> (nanos: Option<i128>)
    requires
        numer > 0,
        denom > 0,
    ensures
        nanos == spec_time_nanos(numer, denom, ts),
{
    match symphonia::core::units::TimeBase::try_new(numer, denom) {
        Some(time_base) => match time_base.calc_time(symphonia::core::units::Timestamp::new(ts)) {
            Some(time) => Some(time.as_nanos()),
            None => None,
        },
        None => None,
    }
}

/// The length in nanoseconds of `ts` ticks of a track whose time base is
/// `numer / denom` seconds per tick (both non-zero, as a time base is), as
/// `spec_time_nanos` says.
pub fn track_time_nanos(numer: u32, denom: u32, ts: i64) -> (nanos: Option<i128>)
    requires
        numer > 0,
        denom > 0,
    ensures
        nanos == spec_time_nanos(numer, denom, ts),
        nanos matches Some(n) ==> n == trunc_div(ts * numer * 1_000_000_000, denom as int),
{
    calc_time_nanos(numer, denom, ts)
}

/// The duration in milliseconds of a track: from its length in nanoseconds when the
/// decoder could compute it (taken as unsigned, then whole milliseconds), else from its
/// number of frames at `sample_rate` (the product with 1000 wraps around, as Rust's
/// release builds compute it), else 0.
pub open spec fn spec_track_duration_ms(nanos: Option<i128>, frames: Option<u64>, sample_rate: u32) -> u64 {
    match nanos {
        Some(n) => ((n as u128) / 1_000_000) as u64,
        None => match frames {
            Some(f) => (vstd::wrapping::u64_specs::wrapping_mul(f, 1000) / (sample_rate as u64)) as u64,
            None => 0,
        },
    }
}

/// Computes `spec_track_duration_ms`.
pub fn track_duration_ms(nanos: Option<i128>, frames: Option<u64>, sample_rate: u32) -> (ms: u64)
    requires
        nanos is None && frames is Some ==> sample_rate > 0,
    ensures
        ms == spec_track_duration_ms(nanos, frames, sample_rate),
{
    match nanos {
        Some(n) => {
            let unsigned: u128 = #[verifier::truncate] (n as u128);
            #[verifier::truncate]
            ((unsigned / 1_000_000) as u64)
        },
        None => match frames {
            Some(f) => f.wrapping_mul(1000) / (sample_rate as u64),
            None => 0,
        },
    }
}

/// The whole seconds and the nanoseconds of the rest of `ms` milliseconds.
pub fn seek_time_parts(ms: u64) -> (parts: (i64, u32))
    ensures
        parts.0 == ms / 1000,
        parts.1 == (ms % 1000) * 1_000_000,
        parts.1 < 1_000_000_000,
{
    let seconds: i64 = (ms / 1000) as i64;
    let nanos: u32 = ((ms % 1000) * 1_000_000) as u32;
    (seconds, nanos)
}

} // verus!
