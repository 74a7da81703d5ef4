//! Where extracted frames are written. Paths are Unix paths held as text.

use vstd::prelude::*;
use vstd::string::*;
use crate::output::naming::{decimal, format_zero_padded, lemma_zero_padded_injective, zero_padded};
use crate::text::chars_of;

verus! {

/// The text placed before a relative path when joining it to `base`: nothing for an
/// empty base, the base itself when it ends in `/`, otherwise the base and a `/`.
pub open spec fn join_prefix(base: Seq<char>) -> Seq<char> {
    if base.len() == 0 {
        base
    } else if base.last() == '/' {
        base
    } else {
        base.push('/')
    }
}

/// `PathBuf::join` on Unix: an absolute `rel` replaces the base; otherwise `rel` is
/// appended with a separator when one is needed.
pub open spec fn path_join(base: Seq<char>, rel: Seq<char>) -> Seq<char> {
    if rel.len() > 0 && rel[0] == '/' {
        rel
    } else {
        join_prefix(base) + rel
    }
}

/// Joins a relative or absolute path onto a base path.
pub fn join_path(base: &str, rel: &str) -> (r: String)
    ensures
        r@ == path_join(base@, rel@),
{
    let rc = chars_of(rel);
    if rc.len() > 0 && rc[0] == '/' {
        return String::from_str(rel);
    }
    let bc = chars_of(base);
    let mut r = String::from_str(base);
    if bc.len() > 0 && bc[bc.len() - 1] != '/' {
        r.append("/");
        proof {
            reveal_strlit("/");
            assert(base@ + "/"@ =~= base@.push('/'));
        }
    }
    r.append(rel);
    r
}

/// The directory of frame `id` in the nested layout: `frames/<id:06>` under `root`.
pub open spec fn nested_frame_dir(root: Seq<char>, id: nat) -> Seq<char> {
    path_join(root, "frames/"@ + zero_padded(id, 6))
}

/// The lens A and lens B image paths of frame `id`: `frames/<id:06>_a.jpg` and
/// `frames/<id:06>_b.jpg` in the flat layout, `frames/<id:06>/lens_a.jpg` and
/// `frames/<id:06>/lens_b.jpg` in the nested one.
pub open spec fn frame_path_pair(root: Seq<char>, id: nat, flat: bool) -> (Seq<char>, Seq<char>) {
    if flat {
        let dir = path_join(root, "frames"@);
        (
            path_join(dir, zero_padded(id, 6) + "_a.jpg"@),
            path_join(dir, zero_padded(id, 6) + "_b.jpg"@),
        )
    } else {
        let dir = nested_frame_dir(root, id);
        (path_join(dir, "lens_a.jpg"@), path_join(dir, "lens_b.jpg"@))
    }
}

/// The output paths of the two lens images of frame `id`.
pub fn frame_paths(root: &str, id: usize, flat: bool) -> (r: (String, String))
    ensures
        (r.0@, r.1@) == frame_path_pair(root@, id as nat, flat),
{
    let padded = format_zero_padded(id as u64, 6);
    if flat {
        let dir = join_path(root, "frames");
        let mut name_a = padded.clone();
        name_a.append("_a.jpg");
        let mut name_b = padded;
        name_b.append("_b.jpg");
        (join_path(dir.as_str(), name_a.as_str()), join_path(dir.as_str(), name_b.as_str()))
    } else {
        let mut sub = String::from_str("frames/");
        sub.append(padded.as_str());
        let dir = join_path(root, sub.as_str());
        (join_path(dir.as_str(), "lens_a.jpg"), join_path(dir.as_str(), "lens_b.jpg"))
    }
}

/// The file name of frame `id` in a lens's image directory: `<id:08>.jpg`.
pub open spec fn lens_image_file_name(id: nat) -> Seq<char> {
    zero_padded(id, 8) + ".jpg"@
}

/// The file name of frame `id` in a lens's image directory.
pub fn lens_image_name(id: usize) -> (r: String)
    ensures
        r@ == lens_image_file_name(id as nat),
{
    let mut s = format_zero_padded(id as u64, 8);
    s.append(".jpg");
    s
}

/// The database name of an image: `cam<sensor>/<file>`.
pub open spec fn colmap_image_path(sensor: nat, file: Seq<char>) -> Seq<char> {
    "cam"@ + decimal(sensor) + "/"@ + file
}

/// The database name of an image of a sensor.
pub fn colmap_image_name(sensor: u32, file: &str) -> (r: String)
    ensures
        r@ == colmap_image_path(sensor as nat, file@),
{
    let mut s = String::from_str("cam");
    let digits = format_zero_padded(sensor as u64, 0);
    proof {
        assert(zero_padded(sensor as nat, 0) == decimal(sensor as nat));
    }
    s.append(digits.as_str());
    s.append("/");
    s.append(file);
    s
}

/// The images of a project for pairing: each lens's files (in the order given) as
/// `(cam<sensor>/<file>, frame id from 1, sensor)`, sensor 0 first.
pub open spec fn project_image_list(cam0: Seq<String>, cam1: Seq<String>) -> Seq<(Seq<char>, u64, u32)> {
    Seq::new(cam0.len(), |i: int| (colmap_image_path(0, cam0[i]@), (i + 1) as u64, 0u32)) + Seq::new(
        cam1.len(),
        |i: int| (colmap_image_path(1, cam1[i]@), (i + 1) as u64, 1u32),
    )
}

/// Each lens's images are numbered from 1 in their own order: the `k`-th file of lens
/// 0 and the `k`-th file of lens 1 both get frame id `k + 1`, with lens 0's images
/// first, so the same frame of the two lenses carries the same id.
pub proof fn lemma_project_frame_ids(cam0: Seq<String>, cam1: Seq<String>)
    requires
        cam0.len() <= u64::MAX,
        cam1.len() <= u64::MAX,
    ensures
        project_image_list(cam0, cam1).len() == cam0.len() + cam1.len(),
        forall|k: int|
            0 <= k < cam0.len() ==> (#[trigger] project_image_list(cam0, cam1)[k]).1 == k + 1
                && project_image_list(cam0, cam1)[k].2 == 0,
        forall|k: int|
            0 <= k < cam1.len() ==> (#[trigger] project_image_list(cam0, cam1)[cam0.len() + k]).1 == k + 1
                && project_image_list(cam0, cam1)[cam0.len() + k].2 == 1,
        forall|k: int|
            0 <= k < cam0.len() && k < cam1.len() ==> (#[trigger] project_image_list(cam0, cam1)[k]).1
                == project_image_list(cam0, cam1)[cam0.len() + k].1,
        forall|k: int| 0 <= k < cam0.len() ==> (#[trigger] project_image_list(cam0, cam1)[k]).0 == "cam0/"@ + cam0[k]@,
        forall|k: int|
            0 <= k < cam1.len() ==> (#[trigger] project_image_list(cam0, cam1)[cam0.len() + k]).0 == "cam1/"@ + cam1[k]@,
{
    reveal_strlit("cam");
    reveal_strlit("/");
    reveal_strlit("cam0/");
    reveal_strlit("cam1/");
    assert("cam"@ + decimal(0) + "/"@ =~= "cam0/"@);
    assert("cam"@ + decimal(1) + "/"@ =~= "cam1/"@);
}

/// Appends one lens's images to `out`.
fn append_lens_images(files: &Vec<String>, sensor: u32, out: &mut Vec<(String, u64, u32)>)
    ensures
        final(out)@.len() == old(out)@.len() + files@.len(),
        forall|i: int| 0 <= i < old(out)@.len() ==> #[trigger] final(out)@[i] == old(out)@[i],
        forall|i: int|
            0 <= i < files@.len() ==> {
                let e = #[trigger] final(out)@[old(out)@.len() + i];
                e.0@ == colmap_image_path(sensor as nat, files@[i]@) && e.1 == (i + 1) as u64 && e.2 == sensor
            },
{
    let ghost start = out@;
    let mut i: usize = 0;
    while i < files.len()
        invariant
            i <= files@.len(),
            out@.len() == start.len() + i,
            forall|k: int| 0 <= k < start.len() ==> #[trigger] out@[k] == start[k],
            forall|k: int|
                0 <= k < i ==> {
                    let e = #[trigger] out@[start.len() + k];
                    e.0@ == colmap_image_path(sensor as nat, files@[k]@) && e.1 == (k + 1) as u64 && e.2 == sensor
                },
        decreases files@.len() - i,
    {
        let name = colmap_image_name(sensor, files[i].as_str());
        out.push((name, (i + 1) as u64, sensor));
        i = i + 1;
    }
}

/// The image list of a project: lens 0's files then lens 1's, each numbered from 1.
pub fn project_images(cam0_files: &Vec<String>, cam1_files: &Vec<String>) -> (r: Vec<(String, u64, u32)>)
    ensures
        r@.len() == project_image_list(cam0_files@, cam1_files@).len(),
        forall|i: int|
            0 <= i < r@.len() ==> {
                let e = #[trigger] r@[i];
                let f = project_image_list(cam0_files@, cam1_files@)[i];
                e.0@ == f.0 && e.1 == f.1 && e.2 == f.2
            },
{
    let mut out: Vec<(String, u64, u32)> = Vec::new();
    append_lens_images(cam0_files, 0, &mut out);
    append_lens_images(cam1_files, 1, &mut out);
    proof {
        let spec = project_image_list(cam0_files@, cam1_files@);
        let n0 = cam0_files@.len();
        assert forall|i: int| 0 <= i < out@.len() implies {
            let e = #[trigger] out@[i];
            let f = spec[i];
            e.0@ == f.0 && e.1 == f.1 && e.2 == f.2
        } by {
            if i < n0 {
                assert(out@[0 + i] == out@[i]);
            } else {
                assert(out@[n0 + (i - n0)] == out@[i]);
            }
        }
    }
    out
}

/// `x` is recovered from `a + x + b` given `a` and `b`.
proof fn lemma_cancel_middle(a: Seq<char>, x: Seq<char>, y: Seq<char>, b: Seq<char>)
    requires
        a + x + b == a + y + b,
    ensures
        x == y,
{
    assert((a + x + b).len() == a.len() + x.len() + b.len());
    assert((a + y + b).len() == a.len() + y.len() + b.len());
    assert(x.len() == y.len());
    assert(x =~= (a + x + b).subrange(a.len() as int, (a.len() + x.len()) as int));
    assert(y =~= (a + y + b).subrange(a.len() as int, (a.len() + y.len()) as int));
}

/// Distinct frames are written to distinct image paths, in both layouts and for both
/// lenses.
pub proof fn lemma_frame_paths_distinct(root: Seq<char>, id1: nat, id2: nat, flat: bool)
    requires
        id1 != id2,
    ensures
        frame_path_pair(root, id1, flat).0 != frame_path_pair(root, id2, flat).0,
        frame_path_pair(root, id1, flat).1 != frame_path_pair(root, id2, flat).1,
{
    reveal_strlit("frames");
    reveal_strlit("frames/");
    reveal_strlit("_a.jpg");
    reveal_strlit("_b.jpg");
    reveal_strlit("lens_a.jpg");
    reveal_strlit("lens_b.jpg");
    let p1 = zero_padded(id1, 6);
    let p2 = zero_padded(id2, 6);
    if p1 == p2 {
        lemma_zero_padded_injective(id1, id2, 6);
    }
    lemma_padded_digits(id1, 6);
    lemma_padded_digits(id2, 6);
    lemma_padded_digits(id1, 6);
    lemma_padded_digits(id2, 6);
    if flat {
        let dir = path_join(root, "frames"@);
        let pre = join_prefix(dir);
        assert(dir.len() > 0 && dir.last() == 's');
        assert(pre == dir.push('/'));
        let e: Seq<char> = Seq::empty();
        if frame_path_pair(root, id1, flat).0 == frame_path_pair(root, id2, flat).0 {
            assert(path_join(dir, p1 + "_a.jpg"@) == pre + (p1 + "_a.jpg"@));
            assert(pre + (p1 + "_a.jpg"@) =~= pre + p1 + "_a.jpg"@);
            assert(pre + (p2 + "_a.jpg"@) =~= pre + p2 + "_a.jpg"@);
            lemma_cancel_middle(pre, p1, p2, "_a.jpg"@);
        }
        if frame_path_pair(root, id1, flat).1 == frame_path_pair(root, id2, flat).1 {
            assert(pre + (p1 + "_b.jpg"@) =~= pre + p1 + "_b.jpg"@);
            assert(pre + (p2 + "_b.jpg"@) =~= pre + p2 + "_b.jpg"@);
            lemma_cancel_middle(pre, p1, p2, "_b.jpg"@);
        }
    } else {
        let d1 = nested_frame_dir(root, id1);
        let d2 = nested_frame_dir(root, id2);
        let rpre = join_prefix(root);
        assert(d1 == rpre + ("frames/"@ + p1));
        assert(d2 == rpre + ("frames/"@ + p2));
        crate::output::naming::lemma_decimal_value(id1);
        crate::output::naming::lemma_decimal_value(id2);
        lemma_dir_ends_with_digit(rpre, p1, id1);
        lemma_dir_ends_with_digit(rpre, p2, id2);
        let e: Seq<char> = Seq::empty();
        if d1 == d2 {
            assert(rpre + ("frames/"@ + p1) =~= (rpre + "frames/"@) + p1 + e);
            assert(rpre + ("frames/"@ + p2) =~= (rpre + "frames/"@) + p2 + e);
            lemma_cancel_middle(rpre + "frames/"@, p1, p2, e);
        }
        if frame_path_pair(root, id1, flat).0 == frame_path_pair(root, id2, flat).0 {
            assert(path_join(d1, "lens_a.jpg"@) == d1.push('/') + "lens_a.jpg"@);
            assert(path_join(d2, "lens_a.jpg"@) == d2.push('/') + "lens_a.jpg"@);
            assert(d1.push('/') + "lens_a.jpg"@ =~= e + d1 + seq!['/'] + "lens_a.jpg"@);
            assert(d2.push('/') + "lens_a.jpg"@ =~= e + d2 + seq!['/'] + "lens_a.jpg"@);
            assert(e + d1 + (seq!['/'] + "lens_a.jpg"@) =~= e + d1 + seq!['/'] + "lens_a.jpg"@);
            assert(e + d2 + (seq!['/'] + "lens_a.jpg"@) =~= e + d2 + seq!['/'] + "lens_a.jpg"@);
            lemma_cancel_middle(e, d1, d2, seq!['/'] + "lens_a.jpg"@);
        }
        if frame_path_pair(root, id1, flat).1 == frame_path_pair(root, id2, flat).1 {
            assert(path_join(d1, "lens_b.jpg"@) == d1.push('/') + "lens_b.jpg"@);
            assert(path_join(d2, "lens_b.jpg"@) == d2.push('/') + "lens_b.jpg"@);
            assert(e + d1 + (seq!['/'] + "lens_b.jpg"@) =~= d1.push('/') + "lens_b.jpg"@);
            assert(e + d2 + (seq!['/'] + "lens_b.jpg"@) =~= d2.push('/') + "lens_b.jpg"@);
            lemma_cancel_middle(e, d1, d2, seq!['/'] + "lens_b.jpg"@);
        }
    }
}

/// A zero-padded number is a non-empty string of digits.
proof fn lemma_padded_digits(n: nat, width: nat)
    ensures
        zero_padded(n, width).len() >= 1,
        forall|i: int| 0 <= i < zero_padded(n, width).len() ==> crate::duration::is_digit(#[trigger] zero_padded(n, width)[i]),
{
    crate::output::naming::lemma_decimal_value(n);
    let d = decimal(n);
    let p = zero_padded(n, width);
    if d.len() < width {
        let z = Seq::new((width - d.len()) as nat, |i: int| '0');
        assert forall|i: int| 0 <= i < p.len() implies crate::duration::is_digit(#[trigger] p[i]) by {
            if i < z.len() {
                assert(p[i] == '0');
            } else {
                assert(p[i] == d[i - z.len()]);
            }
        }
    }
}

/// A frame directory is non-empty and ends with the last digit of its number, not `/`.
proof fn lemma_dir_ends_with_digit(rpre: Seq<char>, p: Seq<char>, id: nat)
    requires
        p == zero_padded(id, 6),
        forall|i: int| 0 <= i < decimal(id).len() ==> crate::duration::is_digit(#[trigger] decimal(id)[i]),
        decimal(id).len() >= 1,
    ensures
        (rpre + ("frames/"@ + p)).len() > 0,
        (rpre + ("frames/"@ + p)).last() != '/',
{
    let d = decimal(id);
    assert(p.last() == d.last());
    assert(crate::duration::is_digit(d[d.len() - 1]));
    assert((rpre + ("frames/"@ + p)).last() == p.last());
}

} // verus!
