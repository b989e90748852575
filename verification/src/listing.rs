//! What the tools find in an input directory: the files they list for
//! preview, and the checks on a file chosen for preview.
use vstd::prelude::*;

use crate::models::{
    InputDirectoryImageListResult, InputDirectoryPdfListResult, InputDirectoryVideoListResult,
};
use crate::paths::{
    display_relative_path, extension_in, image_extensions, is_absolute, is_preview_image_path,
    is_preview_pdf_path, is_preview_video_path, normal_parts, path_starts_with,
    path_starts_with_exec, slash_display, video_extensions, normal_part_bounds,
};
use crate::text::{chars_less, chars_lt, chars_of, copy_range, split_on, string_of, trim};
use crate::validation::require_value;

verus! {

// ---------------------------------------------------------------------------
// Orders of paths
// ---------------------------------------------------------------------------

/// Lexicographic order of component sequences, each compared by code point.
pub open spec fn components_lt(a: Seq<Seq<char>>, b: Seq<Seq<char>>) -> bool
    decreases a.len(),
{
    if a.len() == 0 {
        b.len() > 0
    } else if b.len() == 0 {
        false
    } else if a[0] != b[0] {
        chars_lt(a[0], b[0])
    } else {
        components_lt(a.drop_first(), b.drop_first())
    }
}

/// How a list of paths is ordered.
#[derive(Clone, Copy, Debug, PartialEq, Eq)]
pub enum PathOrder {
    /// As strings (`String`'s order).
    Text,
    /// Component by component (`Path`'s order, for relative paths).
    Components,
}

pub open spec fn path_lt(order: PathOrder, a: Seq<char>, b: Seq<char>) -> bool {
    match order {
        PathOrder::Text => chars_lt(a, b),
        PathOrder::Components => components_lt(
            normal_parts(split_on(a, '/')),
            normal_parts(split_on(b, '/')),
        ),
    }
}

/// Where `x` goes in `s`: after every element that does not sort after it.
pub open spec fn path_insert_pos(s: Seq<Seq<char>>, x: Seq<char>, order: PathOrder) -> nat
    decreases s.len(),
{
    if s.len() == 0 {
        0
    } else if path_lt(order, x, s[0]) {
        0
    } else {
        1 + path_insert_pos(s.drop_first(), x, order)
    }
}

/// `s` sorted by `order`, equal elements kept in input order.
pub open spec fn sort_paths(s: Seq<Seq<char>>, order: PathOrder) -> Seq<Seq<char>>
    decreases s.len(),
{
    if s.len() == 0 {
        s
    } else {
        let t = sort_paths(s.drop_last(), order);
        t.insert(path_insert_pos(t, s.last(), order) as int, s.last())
    }
}

/// Where an element goes lies within the sequence.
pub proof fn lemma_path_insert_pos_bound(s: Seq<Seq<char>>, x: Seq<char>, order: PathOrder)
    ensures
        path_insert_pos(s, x, order) <= s.len(),
    decreases s.len(),
{
    if s.len() > 0 && !path_lt(order, x, s[0]) {
        lemma_path_insert_pos_bound(s.drop_first(), x, order);
    }
}

/// Sorting keeps the length.
pub proof fn lemma_sort_paths_len(s: Seq<Seq<char>>, order: PathOrder)
    ensures
        sort_paths(s, order).len() == s.len(),
    decreases s.len(),
{
    if s.len() > 0 {
        lemma_sort_paths_len(s.drop_last(), order);
        lemma_path_insert_pos_bound(sort_paths(s.drop_last(), order), s.last(), order);
    }
}

pub open spec fn strings_view(v: Seq<String>) -> Seq<Seq<char>> {
    v.map_values(|s: String| s@)
}

/// Whether `a` sorts before `b` in `order`.
fn path_less(order: PathOrder, a: &String, b: &String) -> (r: bool)
    ensures
        r == path_lt(order, a@, b@),
{
    let ac = chars_of(a.as_str());
    let bc = chars_of(b.as_str());
    match order {
        PathOrder::Text => chars_less(&ac, &bc),
        PathOrder::Components => {
            let pa = normal_part_bounds(&ac);
            let pb = normal_part_bounds(&bc);
            let ghost na = normal_parts(split_on(a@, '/'));
            let ghost nb = normal_parts(split_on(b@, '/'));
            let mut i: usize = 0;
            assert(na.skip(0) == na && nb.skip(0) == nb);
            while i < pa.len() && i < pb.len()
                invariant
                    i <= pa@.len(),
                    i <= pb@.len(),
                    na == normal_parts(split_on(a@, '/')),
                    nb == normal_parts(split_on(b@, '/')),
                    ac@ == a@,
                    bc@ == b@,
                    order == PathOrder::Components,
                    pa@.len() == na.len(),
                    pb@.len() == nb.len(),
                    forall|k: int|
                        0 <= k < pa@.len() ==> (#[trigger] pa@[k]).0 <= pa@[k].1 <= ac@.len()
                            && ac@.subrange(pa@[k].0 as int, pa@[k].1 as int) == na[k],
                    forall|k: int|
                        0 <= k < pb@.len() ==> (#[trigger] pb@[k]).0 <= pb@[k].1 <= bc@.len()
                            && bc@.subrange(pb@[k].0 as int, pb@[k].1 as int) == nb[k],
                    components_lt(na, nb) == components_lt(na.skip(i as int), nb.skip(i as int)),
                decreases pa.len() - i,
            {
                let (x0, x1) = pa[i];
                let (y0, y1) = pb[i];
                let x = copy_range(&ac, x0, x1);
                let y = copy_range(&bc, y0, y1);
                assert(na.skip(i as int)[0] == na[i as int]);
                assert(nb.skip(i as int)[0] == nb[i as int]);
                if chars_less(&x, &y) {
                    assert(na[i as int] != nb[i as int]) by {
                        if na[i as int] == nb[i as int] {
                            crate::text::lemma_chars_lt_irreflexive(x@);
                        }
                    }
                    return true;
                }
                if chars_less(&y, &x) {
                    assert(na[i as int] != nb[i as int]) by {
                        if na[i as int] == nb[i as int] {
                            crate::text::lemma_chars_lt_irreflexive(x@);
                        }
                    }
                    proof {
                        crate::text::lemma_chars_lt_asymmetric(y@, x@);
                    }
                    return false;
                }
                proof {
                    crate::text::lemma_chars_lt_total(x@, y@);
                }
                assert(na.skip(i as int).drop_first() == na.skip(i + 1));
                assert(nb.skip(i as int).drop_first() == nb.skip(i + 1));
                i = i + 1;
            }
            i == pa.len() && i < pb.len()
        },
    }
}

/// Sorts `v` by `order` (a stable insertion sort).
pub(crate) fn sort_strings(v: Vec<String>, order: PathOrder) -> (r: Vec<String>)
    ensures
        strings_view(r@) == sort_paths(strings_view(v@), order),
{
    let mut sorted: Vec<String> = Vec::new();
    let mut k: usize = 0;
    assert(strings_view(sorted@) =~= seq![]);
    assert(strings_view(v@).take(0) =~= seq![]);
    while k < v.len()
        invariant
            k <= v@.len(),
            strings_view(sorted@) == sort_paths(strings_view(v@).take(k as int), order),
        decreases v.len() - k,
    {
        let x = &v[k];
        let ghost s = strings_view(sorted@);
        let mut p: usize = 0;
        assert(s.skip(0) == s);
        while p < sorted.len() && !path_less(order, x, &sorted[p])
            invariant
                p <= sorted@.len(),
                s == strings_view(sorted@),
                path_insert_pos(s, x@, order) == p + path_insert_pos(s.skip(p as int), x@, order),
            decreases sorted.len() - p,
        {
            assert(s.skip(p as int).drop_first() == s.skip(p + 1));
            p = p + 1;
        }
        proof {
            if p < sorted@.len() {
                assert(s.skip(p as int)[0] == sorted@[p as int]@);
            }
        }
        sorted.insert(p, x.clone());
        assert(strings_view(sorted@) =~= s.insert(p as int, x@));
        assert(strings_view(v@).take(k + 1).drop_last() == strings_view(v@).take(k as int));
        assert(strings_view(v@).take(k + 1).last() == x@);
        k = k + 1;
    }
    assert(strings_view(v@).take(v@.len() as int) == strings_view(v@));
    sorted
}

// ---------------------------------------------------------------------------
// Listings
// ---------------------------------------------------------------------------

/// What a walk through an input directory (the given path, trimmed) found.
#[derive(Debug)]
pub struct DirectoryListing {
    /// Whether the path names a directory (nothing was walked otherwise).
    pub is_dir: bool,
    /// The path, relative to the directory, of every entry found walking it
    /// recursively that is not a directory.
    pub files: Vec<String>,
}

/// The kinds of files that can be listed and previewed.
#[derive(Clone, Copy, Debug, PartialEq, Eq)]
pub enum PreviewKind {
    Image,
    Pdf,
    Video,
}

/// Whether `path` is a file of kind `kind`, by its extension.
pub open spec fn is_kind(kind: PreviewKind, path: Seq<char>) -> bool {
    match kind {
        PreviewKind::Image => extension_in(path, image_extensions()),
        PreviewKind::Pdf => extension_in(path, seq!["pdf"@]),
        PreviewKind::Video => extension_in(path, video_extensions()),
    }
}

/// Whether `path` is a file of kind `kind`.
pub fn path_is_kind(kind: PreviewKind, path: &str) -> (r: bool)
    ensures
        r == is_kind(kind, path@),
{
    match kind {
        PreviewKind::Image => is_preview_image_path(path),
        PreviewKind::Pdf => is_preview_pdf_path(path),
        PreviewKind::Video => is_preview_video_path(path),
    }
}

/// The files of kind `kind` among `files`, in order.
pub open spec fn files_of_kind(files: Seq<Seq<char>>, kind: PreviewKind) -> Seq<Seq<char>>
    decreases files.len(),
{
    if files.len() == 0 {
        seq![]
    } else {
        let rest = files_of_kind(files.drop_last(), kind);
        if is_kind(kind, files.last()) {
            rest.push(files.last())
        } else {
            rest
        }
    }
}

/// The listing of the files of kind `kind`: images and videos are shown with
/// `/` separators and sorted as strings; PDF files are sorted by path
/// components and then shown with `/` separators.
pub open spec fn listed_files(files: Seq<Seq<char>>, kind: PreviewKind) -> Seq<Seq<char>> {
    let picked = files_of_kind(files, kind);
    match kind {
        PreviewKind::Pdf => sort_paths(picked, PathOrder::Components).map_values(
            |p: Seq<char>| slash_display(p),
        ),
        _ => sort_paths(picked.map_values(|p: Seq<char>| slash_display(p)), PathOrder::Text),
    }
}

/// The files of kind `kind` among `files`, in order.
fn pick_kind(files: &Vec<String>, kind: PreviewKind) -> (r: Vec<String>)
    ensures
        strings_view(r@) == files_of_kind(strings_view(files@), kind),
{
    let ghost all = strings_view(files@);
    let mut picked: Vec<String> = Vec::new();
    let mut k: usize = 0;
    assert(strings_view(picked@) =~= seq![]);
    assert(all.take(0) =~= seq![]);
    while k < files.len()
        invariant
            k <= files@.len(),
            all == strings_view(files@),
            strings_view(picked@) == files_of_kind(all.take(k as int), kind),
        decreases files.len() - k,
    {
        let f = &files[k];
        assert(all.take(k + 1).drop_last() == all.take(k as int));
        assert(all.take(k + 1).last() == f@);
        if path_is_kind(kind, f.as_str()) {
            let ghost before = strings_view(picked@);
            picked.push(f.clone());
            assert(strings_view(picked@) == before.push(f@));
        }
        k = k + 1;
    }
    assert(all.take(k as int) == all);
    picked
}

/// The files a batch works through: those of kind `kind` among the files
/// found under its input directory (paths relative to it), sorted component
/// by component.
pub fn collect_files_of_kind(files: &Vec<String>, kind: PreviewKind) -> (r: Vec<String>)
    ensures
        strings_view(r@) == sort_paths(
            files_of_kind(strings_view(files@), kind),
            PathOrder::Components,
        ),
{
    sort_strings(pick_kind(files, kind), PathOrder::Components)
}

/// The error for an input directory that does not exist.
pub open spec fn missing_input_dir_message() -> Seq<char> {
    "输入目录不存在或不是有效目录"@
}

/// The first failing check on an input directory to list: it must be given,
/// and name a directory.
pub open spec fn listing_error(input_dir: Seq<char>, is_dir: bool) -> Option<Seq<char>> {
    if trim(input_dir).len() == 0 {
        Some("输入目录"@ + "不能为空"@)
    } else if !is_dir {
        Some(missing_input_dir_message())
    } else {
        None
    }
}

/// The files of kind `kind` in a directory listing, or the error for a path
/// that is not a directory.
pub fn list_previewable_files(input_dir: String, listing: &DirectoryListing, kind: PreviewKind) -> (r:
    Result<Vec<String>, String>)
    ensures
        match listing_error(input_dir@, listing.is_dir) {
            Some(m) => r matches Err(e) && e@ == m,
            None => r matches Ok(v) && strings_view(v@) == listed_files(
                strings_view(listing.files@),
                kind,
            ),
        },
{
    require_value("输入目录", input_dir)?;
    if !listing.is_dir {
        return Err(string_of(&chars_of("输入目录不存在或不是有效目录")));
    }
    let picked = pick_kind(&listing.files, kind);
    let ghost chosen = strings_view(picked@);
    match kind {
        PreviewKind::Pdf => {
            let sorted = sort_strings(picked, PathOrder::Components);
            let mut shown: Vec<String> = Vec::new();
            let mut i: usize = 0;
            let ghost target = sort_paths(chosen, PathOrder::Components);
            assert(strings_view(shown@) =~= target.take(0).map_values(
                |p: Seq<char>| slash_display(p),
            ));
            while i < sorted.len()
                invariant
                    i <= sorted@.len(),
                    strings_view(sorted@) == target,
                    strings_view(shown@) == target.take(i as int).map_values(
                        |p: Seq<char>| slash_display(p),
                    ),
                decreases sorted.len() - i,
            {
                let d = display_relative_path(sorted[i].as_str());
                let ghost before = strings_view(shown@);
                assert(strings_view(sorted@)[i as int] == sorted@[i as int]@);
                shown.push(d);
                assert(strings_view(shown@) == before.push(d@));
                assert(target.take(i + 1) == target.take(i as int).push(target[i as int]));
                assert(strings_view(shown@) =~= target.take(i + 1).map_values(
                    |p: Seq<char>| slash_display(p),
                ));
                i = i + 1;
            }
            assert(target.take(i as int) == target);
            Ok(shown)
        },
        _ => {
            let mut shown: Vec<String> = Vec::new();
            let mut i: usize = 0;
            assert(strings_view(shown@) =~= chosen.take(0).map_values(
                |p: Seq<char>| slash_display(p),
            ));
            while i < picked.len()
                invariant
                    i <= picked@.len(),
                    strings_view(picked@) == chosen,
                    strings_view(shown@) == chosen.take(i as int).map_values(
                        |p: Seq<char>| slash_display(p),
                    ),
                decreases picked.len() - i,
            {
                let d = display_relative_path(picked[i].as_str());
                let ghost before = strings_view(shown@);
                assert(strings_view(picked@)[i as int] == picked@[i as int]@);
                shown.push(d);
                assert(strings_view(shown@) == before.push(d@));
                assert(chosen.take(i + 1) == chosen.take(i as int).push(chosen[i as int]));
                assert(strings_view(shown@) =~= chosen.take(i + 1).map_values(
                    |p: Seq<char>| slash_display(p),
                ));
                i = i + 1;
            }
            assert(chosen.take(i as int) == chosen);
            Ok(sort_strings(shown, PathOrder::Text))
        },
    }
}

/// The images under the input directory `input_dir`, whose walk is `listing`,
/// sorted by relative path; or the error for a blank or missing directory.
pub fn list_input_directory_images(input_dir: String, listing: &DirectoryListing) -> (r: Result<
    InputDirectoryImageListResult,
    String,
>)
    ensures
        match listing_error(input_dir@, listing.is_dir) {
            Some(m) => r matches Err(e) && e@ == m,
            None => r matches Ok(v) && strings_view(v.files@) == listed_files(
                strings_view(listing.files@),
                PreviewKind::Image,
            ),
        },
{
    Ok(InputDirectoryImageListResult { files: list_previewable_files(input_dir, listing, PreviewKind::Image)? })
}

/// The PDF files under the input directory `input_dir`, whose walk is `listing`,
/// sorted by relative path; or the error for a blank or missing directory.
pub fn list_input_directory_pdfs(input_dir: String, listing: &DirectoryListing) -> (r: Result<
    InputDirectoryPdfListResult,
    String,
>)
    ensures
        match listing_error(input_dir@, listing.is_dir) {
            Some(m) => r matches Err(e) && e@ == m,
            None => r matches Ok(v) && strings_view(v.files@) == listed_files(
                strings_view(listing.files@),
                PreviewKind::Pdf,
            ),
        },
{
    Ok(InputDirectoryPdfListResult { files: list_previewable_files(input_dir, listing, PreviewKind::Pdf)? })
}

/// The videos under the input directory `input_dir`, whose walk is `listing`,
/// sorted by relative path; or the error for a blank or missing directory.
pub fn list_input_directory_videos(input_dir: String, listing: &DirectoryListing) -> (r: Result<
    InputDirectoryVideoListResult,
    String,
>)
    ensures
        match listing_error(input_dir@, listing.is_dir) {
            Some(m) => r matches Err(e) && e@ == m,
            None => r matches Ok(v) && strings_view(v.files@) == listed_files(
                strings_view(listing.files@),
                PreviewKind::Video,
            ),
        },
{
    Ok(InputDirectoryVideoListResult { files: list_previewable_files(input_dir, listing, PreviewKind::Video)? })
}

// ---------------------------------------------------------------------------
// Preview requests
// ---------------------------------------------------------------------------

/// The name under which a preview file is asked for.
pub open spec fn preview_label(kind: PreviewKind) -> Seq<char> {
    match kind {
        PreviewKind::Image => "预览图片"@,
        PreviewKind::Pdf => "预览 PDF"@,
        PreviewKind::Video => "预览视频"@,
    }
}

/// The error for a preview path that is refused.
pub open spec fn preview_invalid_message(kind: PreviewKind) -> Seq<char> {
    match kind {
        PreviewKind::Image => "预览图片路径不合法"@,
        PreviewKind::Pdf => "预览 PDF 路径不合法"@,
        PreviewKind::Video => "预览视频路径不合法"@,
    }
}

/// The error for a preview file that does not exist.
pub open spec fn preview_missing_message(kind: PreviewKind) -> Seq<char> {
    match kind {
        PreviewKind::Image => "预览图片不存在"@,
        PreviewKind::Pdf => "预览 PDF 不存在"@,
        PreviewKind::Video => "预览视频不存在"@,
    }
}

fn preview_invalid(kind: PreviewKind) -> (r: String)
    ensures
        r@ == preview_invalid_message(kind),
{
    match kind {
        PreviewKind::Image => string_of(&chars_of("预览图片路径不合法")),
        PreviewKind::Pdf => string_of(&chars_of("预览 PDF 路径不合法")),
        PreviewKind::Video => string_of(&chars_of("预览视频路径不合法")),
    }
}

/// The error for a preview file that does not exist, as a string.
pub fn preview_missing(kind: PreviewKind) -> (r: String)
    ensures
        r@ == preview_missing_message(kind),
{
    match kind {
        PreviewKind::Image => string_of(&chars_of("预览图片不存在")),
        PreviewKind::Pdf => string_of(&chars_of("预览 PDF 不存在")),
        PreviewKind::Video => string_of(&chars_of("预览视频不存在")),
    }
}

/// The relative path of a preview file, trimmed; it must not be empty nor
/// absolute.
pub fn check_preview_relative_path(kind: PreviewKind, relative_path: String) -> (r: Result<
    String,
    String,
>)
    ensures
        match r {
            Ok(p) => p@ == trim(relative_path@) && p@.len() > 0 && !is_absolute(p@),
            Err(e) => if trim(relative_path@).len() == 0 {
                e@ == preview_label(kind) + "不能为空"@
            } else {
                is_absolute(trim(relative_path@)) && e@ == preview_invalid_message(kind)
            },
        },
{
    let label = match kind {
        PreviewKind::Image => "预览图片",
        PreviewKind::Pdf => "预览 PDF",
        PreviewKind::Video => "预览视频",
    };
    let p = require_value(label, relative_path)?;
    let c = chars_of(p.as_str());
    if c.len() > 0 && c[0] == '/' {
        return Err(preview_invalid(kind));
    }
    Ok(p)
}

/// Checks the resolved path of a preview file: it must lie under the
/// resolved input directory `root`, be a file, and be of kind `kind`.
pub fn check_preview_target(kind: PreviewKind, root: &str, resolved: &str, is_file: bool) -> (r:
    Result<(), String>)
    ensures
        match r {
            Ok(_) => path_starts_with(resolved@, root@) && is_file && is_kind(kind, resolved@),
            Err(e) => !(path_starts_with(resolved@, root@) && is_file && is_kind(kind, resolved@))
                && e@ == preview_invalid_message(kind),
        },
{
    if !path_starts_with_exec(resolved, root) || !is_file || !path_is_kind(kind, resolved) {
        return Err(preview_invalid(kind));
    }
    Ok(())
}

} // verus!
