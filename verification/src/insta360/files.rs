//! Choosing the two lens recordings of one capture among the files of a directory.
//!
//! The directory listing itself is read by the caller; this module decides which of
//! the listed file names are lens videos and which two of them form the pair.

use vstd::prelude::*;
use crate::text::{
    before_first, before_first_chars, chars_equal, chars_of, contains_chars, eq_ignore_ascii_case,
    eq_ignore_case_chars, has_prefix, has_substring, lemma_lex_le_antisymmetric, lemma_lex_le_transitive, lemma_lex_total,
    lex_le, lex_less, starts_with_chars, string_from_chars, suffix_from,
};
use crate::error::AppError;

verus! {

/// `k` is the position of the last `'.'` in `name`.
pub open spec fn is_last_dot(name: Seq<char>, k: int) -> bool {
    &&& 0 <= k < name.len()
    &&& name[k] == '.'
    &&& forall|j: int| k < j < name.len() ==> name[j] != '.'
}

/// The extension of a plain file name, as `Path::extension` gives it: the text after
/// the last `'.'`, unless there is no `'.'`, the only `'.'` starts the name, or the
/// name is `".."`.
pub open spec fn file_extension(name: Seq<char>) -> Option<Seq<char>> {
    if name == seq!['.', '.'] {
        None
    } else if exists|k: int| is_last_dot(name, k) {
        let k = choose|k: int| is_last_dot(name, k);
        if k == 0 {
            None
        } else {
            Some(name.subrange(k + 1, name.len() as int))
        }
    } else {
        None
    }
}

/// The name carries a video extension (`insv`, `mp4` or `mov`, in any ASCII case).
pub open spec fn is_video_name(name: Seq<char>) -> bool {
    match file_extension(name) {
        Some(ext) => eq_ignore_ascii_case(ext, "insv"@) || eq_ignore_ascii_case(ext, "mp4"@)
            || eq_ignore_ascii_case(ext, "mov"@),
        None => false,
    }
}

/// The number of video names in `names`.
pub open spec fn video_count(names: Seq<String>) -> nat
    decreases names.len(),
{
    if names.len() == 0 {
        0
    } else {
        video_count(names.drop_last()) + if is_video_name(names.last()@) {
            1nat
        } else {
            0nat
        }
    }
}

/// Marker of the first lens's file (`…_00_…`).
pub open spec fn lens_a_marker() -> Seq<char> {
    "_00_"@
}

/// Marker of the second lens's file (`…_10_…`).
pub open spec fn lens_b_marker() -> Seq<char> {
    "_10_"@
}

/// `b` is a second-lens file of the same recording as the first-lens file `a`: it
/// carries the second-lens marker and starts with the text of `a` before its marker.
pub open spec fn pairs_with(a: Seq<char>, b: Seq<char>) -> bool {
    has_substring(b, lens_b_marker()) && has_prefix(b, before_first(a, lens_a_marker()))
}

/// `a` is a first-lens file for which some video in `names` is the second lens.
pub open spec fn is_lens_a_candidate(names: Seq<String>, a: Seq<char>) -> bool {
    &&& has_substring(a, lens_a_marker())
    &&& exists|j: int| 0 <= j < names.len() && is_video_name(#[trigger] names[j]@) && pairs_with(a, names[j]@)
}

/// The two lens files chosen for a capture.
#[derive(Debug, Clone)]
pub struct LensPair {
    pub lens_a: String,
    pub lens_b: String,
    /// The pair was found by the `_00_` / `_10_` naming rule rather than by falling back
    /// to the first two videos by name.
    pub paired_by_name: bool,
}

/// What `pick_lens_pair` must return for `names`, given the returned pair.
pub open spec fn is_lens_pair_choice(names: Seq<String>, p: LensPair) -> bool {
    let any_candidate = exists|i: int|
        0 <= i < names.len() && is_video_name(#[trigger] names[i]@) && is_lens_a_candidate(names, names[i]@);
    &&& p.paired_by_name == any_candidate
    &&& any_candidate ==> {
        // the smallest first-lens candidate, paired with its smallest second-lens file
        &&& exists|i: int|
            0 <= i < names.len() && is_video_name(#[trigger] names[i]@) && is_lens_a_candidate(names, names[i]@)
                && names[i]@ == p.lens_a@
        &&& forall|k: int|
            0 <= k < names.len() && is_video_name(#[trigger] names[k]@) && is_lens_a_candidate(names, names[k]@)
                ==> lex_le(p.lens_a@, names[k]@)
        &&& exists|j: int|
            0 <= j < names.len() && is_video_name(#[trigger] names[j]@) && pairs_with(p.lens_a@, names[j]@)
                && names[j]@ == p.lens_b@
        &&& forall|k: int|
            0 <= k < names.len() && is_video_name(#[trigger] names[k]@) && pairs_with(p.lens_a@, names[k]@)
                ==> lex_le(p.lens_b@, names[k]@)
    }
    &&& !any_candidate ==> {
        // the first two videos in name order
        exists|i: int, j: int|
            #![trigger names[i], names[j]]
            0 <= i < names.len() && 0 <= j < names.len() && i != j && is_video_name(names[i]@) && is_video_name(names[j]@)
                && names[i]@ == p.lens_a@ && names[j]@ == p.lens_b@
                && (forall|k: int| 0 <= k < names.len() && is_video_name(#[trigger] names[k]@) ==> lex_le(p.lens_a@, names[k]@))
                && (forall|k: int| 0 <= k < names.len() && k != i && is_video_name(#[trigger] names[k]@) ==> lex_le(p.lens_b@, names[k]@))
    }
}

/// The extension of a file name (`Path::extension`).
pub fn extension_of(name: &Vec<char>) -> (r: Option<Vec<char>>)
    ensures
        r matches Some(e) ==> file_extension(name@) == Some(e@),
        r is None ==> file_extension(name@) is None,
{
    let dots = vec!['.', '.'];
    if chars_equal(name, &dots) {
        assert(dots@ =~= seq!['.', '.']);
        return None;
    }
    assert(dots@ =~= seq!['.', '.']);
    let mut k: usize = name.len();
    while k > 0
        invariant
            k <= name.len(),
            name@ != seq!['.', '.'],
            forall|j: int| k <= j < name.len() ==> name@[j] != '.',
        decreases k,
    {
        if name[k - 1] == '.' {
            let last = (k - 1) as usize;
            assert(is_last_dot(name@, last as int));
            proof {
                let c = choose|c: int| is_last_dot(name@, c);
                assert(is_last_dot(name@, c));
                if c < last {
                    assert(name@[last as int] != '.');
                } else if c > last {
                    assert(name@[c] != '.');
                }
                assert(c == last);
                assert(name@ != seq!['.', '.']);
            }
            if last == 0 {
                return None;
            }
            return Some(suffix_from(name, last + 1));
        }
        k = k - 1;
    }
    assert(!exists|c: int| is_last_dot(name@, c));
    None
}

/// The file name carries a video extension.
pub fn is_video_file(name: &Vec<char>) -> (r: bool)
    ensures
        r == is_video_name(name@),
{
    match extension_of(name) {
        Some(ext) => {
            let insv = chars_of("insv");
            let mp4 = chars_of("mp4");
            let mov = chars_of("mov");
            eq_ignore_case_chars(&ext, &insv) || eq_ignore_case_chars(&ext, &mp4)
                || eq_ignore_case_chars(&ext, &mov)
        },
        None => false,
    }
}

/// Index of the smallest name among the videos whose flag is set, skipping `skip`.
fn smallest_flagged(
    names: &Vec<Vec<char>>,
    flags: &Vec<bool>,
    skip: Option<usize>,
) -> (r: Option<usize>)
    requires
        names.len() == flags.len(),
    ensures
        r matches Some(i) ==> {
            &&& i < names.len()
            &&& flags@[i as int]
            &&& skip != Some(i)
            &&& forall|k: int|
                0 <= k < names.len() && flags@[k] && skip != Some(k as usize) ==> lex_le(
                    names@[i as int]@,
                    #[trigger] names@[k]@,
                )
        },
        r is None ==> forall|k: int| 0 <= k < names.len() && skip != Some(k as usize) ==> !flags@[k],
{
    let mut best: Option<usize> = None;
    let mut i: usize = 0;
    while i < names.len()
        invariant
            names.len() == flags.len(),
            i <= names.len(),
            best matches Some(b) ==> {
                &&& b < i
                &&& flags@[b as int]
                &&& skip != Some(b)
                &&& forall|k: int|
                    0 <= k < i && flags@[k] && skip != Some(k as usize) ==> lex_le(
                        names@[b as int]@,
                        #[trigger] names@[k]@,
                    )
            },
            best is None ==> forall|k: int| 0 <= k < i && skip != Some(k as usize) ==> !flags@[k],
        decreases names.len() - i,
    {
        if flags[i] && skip != Some(i) {
            match best {
                None => {
                    best = Some(i);
                },
                Some(b) => {
                    if lex_less(&names[i], &names[b]) {
                        proof {
                            assert forall|k: int|
                                0 <= k < i + 1 && flags@[k] && skip != Some(k as usize) implies lex_le(
                                names@[i as int]@,
                                #[trigger] names@[k]@,
                            ) by {
                                if k < i {
                                    lemma_lex_le_transitive(
                                        names@[i as int]@,
                                        names@[b as int]@,
                                        names@[k]@,
                                    );
                                }
                            }
                        }
                        best = Some(i);
                    } else {
                        proof {
                            lemma_lex_total(names@[i as int]@, names@[b as int]@);
                        }
                    }
                },
            }
        }
        i = i + 1;
    }
    best
}

/// Chooses the two lens recordings among the files of a capture directory.
///
/// Only names with a video extension take part. Among them, the smallest name (in
/// `String` order) that holds `_00_` and has a partner — a video holding `_10_` that
/// starts with the text before the `_00_` — is the first lens, and its smallest partner
/// the second. Without such a pair, the first two videos in name order are taken.
/// Fewer than two videos is an error carrying the number found.
pub fn pick_lens_pair(file_names: &Vec<String>) -> (r: Result<LensPair, usize>)
    ensures
        r matches Err(n) ==> video_count(file_names@) < 2 && n == video_count(file_names@),
        r matches Ok(p) ==> video_count(file_names@) >= 2 && is_lens_pair_choice(file_names@, p),
{
    let ghost names = file_names@;
    let n = file_names.len();
    let mut chars: Vec<Vec<char>> = Vec::new();
    let mut video: Vec<bool> = Vec::new();
    let mut count: usize = 0;
    let mut i: usize = 0;
    while i < n
        invariant
            n == names.len(),
            names == file_names@,
            i <= n,
            chars.len() == i,
            video.len() == i,
            count <= i,
            count == video_count(names.subrange(0, i as int)),
            forall|k: int| 0 <= k < i ==> (#[trigger] chars@[k])@ == names[k]@,
            forall|k: int| 0 <= k < i ==> video@[k] == is_video_name(#[trigger] names[k]@),
        decreases n - i,
    {
        let c = chars_of(file_names[i].as_str());
        let v = is_video_file(&c);
        assert(names.subrange(0, i + 1).drop_last() =~= names.subrange(0, i as int));
        if v {
            count = count + 1;
        }
        chars.push(c);
        video.push(v);
        i = i + 1;
    }
    assert(names.subrange(0, n as int) =~= names);
    if count < 2 {
        return Err(count);
    }
    let marker_a = chars_of("_00_");
    let marker_b = chars_of("_10_");
    // first-lens candidates and, for each, the index of its smallest partner
    let mut candidate: Vec<bool> = Vec::new();
    let mut partner: Vec<usize> = Vec::new();
    let mut i: usize = 0;
    while i < n
        invariant
            n == names.len(),
            chars.len() == n,
            video.len() == n,
            marker_a@ == lens_a_marker(),
            marker_b@ == lens_b_marker(),
            forall|k: int| 0 <= k < n ==> (#[trigger] chars@[k])@ == names[k]@,
            forall|k: int| 0 <= k < n ==> video@[k] == is_video_name(#[trigger] names[k]@),
            i <= n,
            candidate.len() == i,
            partner.len() == i,
            forall|k: int|
                0 <= k < i ==> #[trigger] candidate@[k] == (video@[k] && is_lens_a_candidate(
                    names,
                    names[k]@,
                )),
            forall|k: int|
                0 <= k < i && #[trigger] candidate@[k] ==> {
                    let p = partner@[k] as int;
                    &&& 0 <= p < n
                    &&& is_video_name(names[p]@)
                    &&& pairs_with(names[k]@, names[p]@)
                    &&& forall|q: int|
                        0 <= q < n && is_video_name(#[trigger] names[q]@) && pairs_with(names[k]@, names[q]@)
                            ==> lex_le(names[p]@, names[q]@)
                },
        decreases n - i,
    {
        let mut found = false;
        let mut best: usize = 0;
        if video[i] && contains_chars(&chars[i], &marker_a) {
            let prefix = before_first_chars(&chars[i], &marker_a);
            let mut j: usize = 0;
            while j < n
                invariant
                    n == names.len(),
                    chars.len() == n,
                    video.len() == n,
                    i < n,
                    marker_b@ == lens_b_marker(),
                    prefix@ == before_first(names[i as int]@, lens_a_marker()),
                    forall|k: int| 0 <= k < n ==> (#[trigger] chars@[k])@ == names[k]@,
                    forall|k: int| 0 <= k < n ==> video@[k] == is_video_name(#[trigger] names[k]@),
                    j <= n,
                    found ==> {
                        &&& best < j
                        &&& is_video_name(names[best as int]@)
                        &&& pairs_with(names[i as int]@, names[best as int]@)
                        &&& forall|q: int|
                            0 <= q < j && is_video_name(#[trigger] names[q]@) && pairs_with(names[i as int]@, names[q]@)
                                ==> lex_le(names[best as int]@, names[q]@)
                    },
                    !found ==> forall|q: int|
                        0 <= q < j ==> !(is_video_name(#[trigger] names[q]@) && pairs_with(names[i as int]@, names[q]@)),
                decreases n - j,
            {
                if video[j] && contains_chars(&chars[j], &marker_b) && starts_with_chars(
                    &chars[j],
                    &prefix,
                ) {
                    if !found {
                        found = true;
                        best = j;
                    } else if lex_less(&chars[j], &chars[best]) {
                        proof {
                            assert forall|q: int|
                                0 <= q < j + 1 && is_video_name(#[trigger] names[q]@) && pairs_with(
                                    names[i as int]@,
                                    names[q]@,
                                ) implies lex_le(names[j as int]@, names[q]@) by {
                                if q < j {
                                    lemma_lex_le_transitive(
                                        names[j as int]@,
                                        names[best as int]@,
                                        names[q]@,
                                    );
                                }
                            }
                        }
                        best = j;
                    } else {
                        proof {
                            lemma_lex_total(names[j as int]@, names[best as int]@);
                        }
                    }
                }
                j = j + 1;
            }
        }
        proof {
            if found {
                assert(is_lens_a_candidate(names, names[i as int]@));
            } else if video@[i as int] && is_lens_a_candidate(names, names[i as int]@) {
                let q = choose|q: int|
                    0 <= q < names.len() && is_video_name(#[trigger] names[q]@) && pairs_with(
                        names[i as int]@,
                        names[q]@,
                    );
                assert(!(is_video_name(names[q]@) && pairs_with(names[i as int]@, names[q]@)));
            }
        }
        candidate.push(found);
        partner.push(best);
        i = i + 1;
    }
    match smallest_flagged(&chars, &candidate, None) {
        Some(a) => {
            let b = partner[a];
            let p = LensPair {
                lens_a: file_names[a].clone(),
                lens_b: file_names[b].clone(),
                paired_by_name: true,
            };
            proof {
                assert(candidate@[a as int]);
                assert forall|k: int|
                    0 <= k < names.len() && is_video_name(#[trigger] names[k]@) && is_lens_a_candidate(
                        names,
                        names[k]@,
                    ) implies lex_le(p.lens_a@, names[k]@) by {
                    assert(candidate@[k]);
                    assert(chars@[k]@ == names[k]@);
                }
                assert forall|k: int|
                    0 <= k < names.len() && is_video_name(#[trigger] names[k]@) && pairs_with(
                        p.lens_a@,
                        names[k]@,
                    ) implies lex_le(p.lens_b@, names[k]@) by {
                    assert(names[a as int]@ == p.lens_a@);
                }
            }
            Ok(p)
        },
        None => {
            proof {
                assert forall|k: int|
                    0 <= k < names.len() && is_video_name(#[trigger] names[k]@) implies !is_lens_a_candidate(
                    names,
                    names[k]@,
                ) by {
                    assert(!candidate@[k]);
                }
                lemma_two_videos_exist(names);
            }
            let first = smallest_flagged(&chars, &video, None);
            match first {
                Some(a) => {
                    let second = smallest_flagged(&chars, &video, Some(a));
                    match second {
                        Some(b) => {
                            let p = LensPair {
                                lens_a: file_names[a].clone(),
                                lens_b: file_names[b].clone(),
                                paired_by_name: false,
                            };
                            proof {
                                assert forall|k: int|
                                    0 <= k < names.len() && is_video_name(#[trigger] names[k]@) implies lex_le(
                                    p.lens_a@,
                                    names[k]@,
                                ) by {
                                    assert(video@[k]);
                                    assert(chars@[k]@ == names[k]@);
                                }
                                assert forall|k: int|
                                    0 <= k < names.len() && k != a && is_video_name(
                                        #[trigger] names[k]@,
                                    ) implies lex_le(p.lens_b@, names[k]@) by {
                                    assert(video@[k]);
                                    assert(chars@[k]@ == names[k]@);
                                }
                                assert(names[a as int] == names[a as int]);
                                assert(names[b as int] == names[b as int]);
                            }
                            Ok(p)
                        },
                        None => {
                            proof {
                                let (x, y) = lemma_two_videos_exist(names);
                                if x == a {
                                    assert(!video@[y]);
                                } else {
                                    assert(!video@[x]);
                                }
                            }
                            Err(count)
                        },
                    }
                },
                None => {
                    proof {
                        let (x, y) = lemma_two_videos_exist(names);
                        assert(!video@[x]);
                    }
                    Err(count)
                },
            }
        },
    }
}

/// `prefix` followed by `s`, as a new string.
fn with_prefix(prefix: &str, s: &str) -> (r: String)
    ensures
        r@ == prefix@ + s@,
{
    let mut v = chars_of(prefix);
    let t = chars_of(s);
    let mut i: usize = 0;
    while i < t.len()
        invariant
            i <= t@.len(),
            t@ == s@,
            v@ == prefix@ + t@.subrange(0, i as int),
        decreases t@.len() - i,
    {
        v.push(t[i]);
        assert(t@.subrange(0, i + 1) =~= t@.subrange(0, i as int).push(t@[i as int]));
        i = i + 1;
    }
    assert(t@.subrange(0, t@.len() as int) =~= t@);
    string_from_chars(&v)
}

/// Checks two named lens files before they are probed, in this order: the first must
/// exist, then the second, and they must not be the same file. The caller tells which
/// files exist and whether the two paths name the same file; `a` and `b` are the paths
/// as displayed in the messages.
pub fn check_pair_files(a: &str, b: &str, a_exists: bool, b_exists: bool, same_file: bool) -> (r: Result<(), AppError>)
    ensures
        !a_exists ==> (r matches Err(AppError::InvalidInput(m)) && m@ == "video-a not found: "@ + a@),
        a_exists && !b_exists ==> (r matches Err(AppError::MissingLens(m)) && m@ == "video-b not found: "@ + b@),
        a_exists && b_exists && same_file ==> (r matches Err(AppError::InvalidInput(m))
            && m@ == "video-a and video-b are the same file"@),
        a_exists && b_exists && !same_file ==> r is Ok,
{
    if !a_exists {
        return Err(AppError::InvalidInput(with_prefix("video-a not found: ", a)));
    }
    if !b_exists {
        return Err(AppError::MissingLens(with_prefix("video-b not found: ", b)));
    }
    if same_file {
        let msg = chars_of("video-a and video-b are the same file");
        return Err(AppError::InvalidInput(string_from_chars(&msg)));
    }
    Ok(())
}

/// One of the two lens files of a pair.
#[derive(Debug, Clone, Copy, PartialEq, Eq)]
pub enum PairFile {
    /// The first lens's file (`video-a`).
    A,
    /// The second lens's file (`video-b`).
    B,
}

/// The file to read telemetry from: the first when it carries the telemetry trailer,
/// otherwise the second when it does, otherwise none.
pub fn telemetry_file(a_has_trailer: bool, b_has_trailer: bool) -> (r: Option<PairFile>)
    ensures
        r == if a_has_trailer {
            Some(PairFile::A)
        } else if b_has_trailer {
            Some(PairFile::B)
        } else {
            None::<PairFile>
        },
{
    if a_has_trailer {
        Some(PairFile::A)
    } else if b_has_trailer {
        Some(PairFile::B)
    } else {
        None
    }
}

/// Where the two lens recordings are to be found.
#[derive(Debug, Clone)]
pub enum PairRequest {
    /// Both files were named.
    Files(String, String),
    /// The pair is to be discovered in this directory.
    Directory(String),
    /// Neither was given.
    Missing,
}

/// Both lens files when both are named; otherwise the input directory when one is
/// given; otherwise nothing.
pub fn resolve_pair(video_a: &Option<String>, video_b: &Option<String>, input_directory: &Option<String>) -> (r:
    PairRequest)
    ensures
        (video_a is Some && video_b is Some) ==> (r matches PairRequest::Files(a, b) && a@ == video_a->0@
            && b@ == video_b->0@),
        !(video_a is Some && video_b is Some) && input_directory is Some ==> (r matches PairRequest::Directory(
            d,
        ) && d@ == input_directory->0@),
        !(video_a is Some && video_b is Some) && input_directory is None ==> r is Missing,
{
    match (video_a, video_b) {
        (Some(a), Some(b)) => PairRequest::Files(a.clone(), b.clone()),
        _ => match input_directory {
            Some(d) => PairRequest::Directory(d.clone()),
            None => PairRequest::Missing,
        },
    }
}

/// `names2` lists the same entries as `names1` in another order: entry `k` of `names2`
/// is entry `to1[k]` of `names1`, entry `i` of `names1` is entry `to2[i]` of `names2`,
/// and the two position maps undo each other.
pub open spec fn is_reordering(names1: Seq<String>, names2: Seq<String>, to1: Seq<int>, to2: Seq<int>) -> bool {
    &&& names1.len() == names2.len()
    &&& to1.len() == names2.len()
    &&& to2.len() == names1.len()
    &&& forall|k: int| 0 <= k < to1.len() ==> 0 <= #[trigger] to1[k] < names1.len() && names2[k] == names1[to1[k]]
    &&& forall|i: int| 0 <= i < to2.len() ==> 0 <= #[trigger] to2[i] < names2.len() && names1[i] == names2[to2[i]]
    &&& forall|k: int| 0 <= k < to1.len() ==> #[trigger] to2[to1[k]] == k
    &&& forall|i: int| 0 <= i < to2.len() ==> #[trigger] to1[to2[i]] == i
}

/// Whether a name is a first-lens candidate does not depend on the listing order.
proof fn lemma_candidate_reordered(names1: Seq<String>, names2: Seq<String>, to1: Seq<int>, to2: Seq<int>, a: Seq<char>)
    requires
        is_reordering(names1, names2, to1, to2),
    ensures
        is_lens_a_candidate(names1, a) <==> is_lens_a_candidate(names2, a),
{
    if is_lens_a_candidate(names1, a) {
        let j = choose|j: int| 0 <= j < names1.len() && is_video_name(#[trigger] names1[j]@) && pairs_with(a, names1[j]@);
        let k = to2[j];
        assert(names2[k] == names1[j]);
        assert(is_video_name(names2[k]@) && pairs_with(a, names2[k]@));
    }
    if is_lens_a_candidate(names2, a) {
        let k = choose|k: int| 0 <= k < names2.len() && is_video_name(#[trigger] names2[k]@) && pairs_with(a, names2[k]@);
        let j = to1[k];
        assert(names2[k] == names1[j]);
        assert(is_video_name(names1[j]@) && pairs_with(a, names1[j]@));
    }
}

/// One direction of the order-independence law: what is chosen from `names1` is at
/// most what is chosen from its reordering `names2`.
proof fn lemma_choice_le_reordered(
    names1: Seq<String>,
    names2: Seq<String>,
    to1: Seq<int>, to2: Seq<int>,
    p1: LensPair,
    p2: LensPair,
)
    requires
        is_reordering(names1, names2, to1, to2),
        is_lens_pair_choice(names1, p1),
        is_lens_pair_choice(names2, p2),
    ensures
        p1.paired_by_name == p2.paired_by_name,
        lex_le(p1.lens_a@, p2.lens_a@),
        p1.lens_a@ == p2.lens_a@ ==> lex_le(p1.lens_b@, p2.lens_b@),
{
    let any1 = exists|i: int|
        0 <= i < names1.len() && is_video_name(#[trigger] names1[i]@) && is_lens_a_candidate(names1, names1[i]@);
    let any2 = exists|i: int|
        0 <= i < names2.len() && is_video_name(#[trigger] names2[i]@) && is_lens_a_candidate(names2, names2[i]@);
    if any1 {
        let i = choose|i: int|
            0 <= i < names1.len() && is_video_name(#[trigger] names1[i]@) && is_lens_a_candidate(names1, names1[i]@);
        let k = to2[i];
        assert(names2[k] == names1[i]);
        lemma_candidate_reordered(names1, names2, to1, to2, names1[i]@);
        assert(is_video_name(names2[k]@) && is_lens_a_candidate(names2, names2[k]@));
    }
    if any2 {
        let k = choose|k: int|
            0 <= k < names2.len() && is_video_name(#[trigger] names2[k]@) && is_lens_a_candidate(names2, names2[k]@);
        let i = to1[k];
        assert(names2[k] == names1[i]);
        lemma_candidate_reordered(names1, names2, to1, to2, names1[i]@);
        assert(is_video_name(names1[i]@) && is_lens_a_candidate(names1, names1[i]@));
    }
    assert(any1 == any2);
    if any1 {
        let k2 = choose|k: int|
            0 <= k < names2.len() && is_video_name(#[trigger] names2[k]@) && is_lens_a_candidate(names2, names2[k]@)
                && names2[k]@ == p2.lens_a@;
        let i2 = to1[k2];
        assert(names2[k2] == names1[i2]);
        lemma_candidate_reordered(names1, names2, to1, to2, p2.lens_a@);
        assert(is_video_name(names1[i2]@) && is_lens_a_candidate(names1, names1[i2]@));
        assert(lex_le(p1.lens_a@, p2.lens_a@));
        if p1.lens_a@ == p2.lens_a@ {
            let j2 = choose|j: int|
                0 <= j < names2.len() && is_video_name(#[trigger] names2[j]@) && pairs_with(p2.lens_a@, names2[j]@)
                    && names2[j]@ == p2.lens_b@;
            let m = to1[j2];
            assert(names2[j2] == names1[m]);
            assert(is_video_name(names1[m]@) && pairs_with(p1.lens_a@, names1[m]@));
            assert(lex_le(p1.lens_b@, p2.lens_b@));
        }
    } else {
        let (i1, j1) = choose|i: int, j: int|
            #![trigger names1[i], names1[j]]
            0 <= i < names1.len() && 0 <= j < names1.len() && i != j && is_video_name(names1[i]@) && is_video_name(names1[j]@)
                && names1[i]@ == p1.lens_a@ && names1[j]@ == p1.lens_b@
                && (forall|k: int| 0 <= k < names1.len() && is_video_name(#[trigger] names1[k]@) ==> lex_le(p1.lens_a@, names1[k]@))
                && (forall|k: int| 0 <= k < names1.len() && k != i && is_video_name(#[trigger] names1[k]@) ==> lex_le(p1.lens_b@, names1[k]@));
        let (i2, j2) = choose|i: int, j: int|
            #![trigger names2[i], names2[j]]
            0 <= i < names2.len() && 0 <= j < names2.len() && i != j && is_video_name(names2[i]@) && is_video_name(names2[j]@)
                && names2[i]@ == p2.lens_a@ && names2[j]@ == p2.lens_b@
                && (forall|k: int| 0 <= k < names2.len() && is_video_name(#[trigger] names2[k]@) ==> lex_le(p2.lens_a@, names2[k]@))
                && (forall|k: int| 0 <= k < names2.len() && k != i && is_video_name(#[trigger] names2[k]@) ==> lex_le(p2.lens_b@, names2[k]@));
        let ai = to1[i2];
        let bj = to1[j2];
        assert(names2[i2] == names1[ai]);
        assert(names2[j2] == names1[bj]);
        assert(to2[to1[i2]] == i2 && to2[to1[j2]] == j2);
        assert(ai != bj);
        assert(is_video_name(names1[ai]@));
        assert(lex_le(p1.lens_a@, p2.lens_a@));
        if p1.lens_a@ == p2.lens_a@ {
            assert(is_video_name(names1[bj]@));
            if bj != i1 {
                assert(lex_le(p1.lens_b@, names1[bj]@));
            } else {
                assert(ai != i1);
                assert(names1[ai]@ == p2.lens_a@);
                assert(lex_le(p1.lens_b@, names1[ai]@));
                assert(names1[bj]@ == p1.lens_a@);
            }
            assert(lex_le(p1.lens_b@, p2.lens_b@));
        }
    }
}

/// The pair chosen for a directory does not depend on the order in which its entries
/// are listed: any two choices for two orderings of the same entries name the same
/// files and agree on whether the naming rule found them.
pub proof fn lemma_lens_pair_choice_order_independent(
    names1: Seq<String>,
    names2: Seq<String>,
    to1: Seq<int>, to2: Seq<int>,
    p1: LensPair,
    p2: LensPair,
)
    requires
        is_reordering(names1, names2, to1, to2),
        is_lens_pair_choice(names1, p1),
        is_lens_pair_choice(names2, p2),
    ensures
        p1.lens_a@ == p2.lens_a@,
        p1.lens_b@ == p2.lens_b@,
        p1.paired_by_name == p2.paired_by_name,
{
    lemma_choice_le_reordered(names1, names2, to1, to2, p1, p2);
    lemma_choice_le_reordered(names2, names1, to2, to1, p2, p1);
    lemma_lex_le_antisymmetric(p1.lens_a@, p2.lens_a@);
    lemma_lex_le_antisymmetric(p1.lens_b@, p2.lens_b@);
}

/// With two or more videos there are two distinct positions holding one.
proof fn lemma_two_videos_exist(names: Seq<String>) -> (r: (int, int))
    requires
        video_count(names) >= 2,
    ensures
        0 <= r.0 < names.len(),
        0 <= r.1 < names.len(),
        r.0 != r.1,
        is_video_name(names[r.0]@),
        is_video_name(names[r.1]@),
    decreases names.len(),
{
    let last = names.len() - 1;
    let init = names.drop_last();
    if video_count(init) >= 2 {
        let (x, y) = lemma_two_videos_exist(init);
        (x, y)
    } else {
        assert(is_video_name(names[last]@));
        let x = lemma_one_video_exists(init);
        (x, last)
    }
}

/// With at least one video there is a position holding one.
proof fn lemma_one_video_exists(names: Seq<String>) -> (r: int)
    requires
        video_count(names) >= 1,
    ensures
        0 <= r < names.len(),
        is_video_name(names[r]@),
    decreases names.len(),
{
    let init = names.drop_last();
    if video_count(init) >= 1 {
        lemma_one_video_exists(init)
    } else {
        names.len() - 1
    }
}

} // verus!
