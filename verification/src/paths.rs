//! Path strings: file names, extensions, stems and components, the kinds of
//! files that the tools pick up, and where their outputs go.
//!
//! Paths use `/` as separator, as on the Unix systems the tools run on.
use vstd::prelude::*;

use crate::text::{
    find_char, lemma_find_char, has_prefix,
    ascii_lower_seq, chars_eq, chars_of, copy_range, lower_ascii, push_all, split_bounds,
    split_on, string_of,
};

verus! {

// ---------------------------------------------------------------------------
// Components and names
// ---------------------------------------------------------------------------

/// The pieces of a path that name something: not empty and not `.`.
pub open spec fn normal_parts(pieces: Seq<Seq<char>>) -> Seq<Seq<char>>
    decreases pieces.len(),
{
    if pieces.len() == 0 {
        seq![]
    } else {
        let rest = normal_parts(pieces.drop_last());
        let p = pieces.last();
        if p.len() > 0 && p != seq!['.'] {
            rest.push(p)
        } else {
            rest
        }
    }
}

/// The last component of a path, unless it is `..` or there is none
/// (`Path::file_name`).
pub open spec fn file_name(path: Seq<char>) -> Option<Seq<char>> {
    let parts = normal_parts(split_on(path, '/'));
    if parts.len() == 0 || parts.last() == seq!['.', '.'] {
        None
    } else {
        Some(parts.last())
    }
}

/// Index of the last `.` in `s`.
pub open spec fn last_dot(s: Seq<char>) -> Option<int>
    decreases s.len(),
{
    if s.len() == 0 {
        None
    } else if s.last() == '.' {
        Some(s.len() - 1)
    } else {
        last_dot(s.drop_last())
    }
}

/// The extension of a file name: the text after its last `.`, unless that
/// dot starts the name or there is none (`Path::extension`).
pub open spec fn name_extension(name: Seq<char>) -> Option<Seq<char>> {
    match last_dot(name) {
        Some(i) => if i > 0 {
            Some(name.skip(i + 1))
        } else {
            None
        },
        None => None,
    }
}

/// The stem of a file name: the text before its last `.`, or the whole name
/// when the dot starts it or there is none (`Path::file_stem`).
pub open spec fn name_stem(name: Seq<char>) -> Seq<char> {
    match last_dot(name) {
        Some(i) => if i > 0 {
            name.take(i)
        } else {
            name
        },
        None => name,
    }
}

/// The extension of a path's file name.
pub open spec fn path_extension(path: Seq<char>) -> Option<Seq<char>> {
    match file_name(path) {
        Some(n) => name_extension(n),
        None => None,
    }
}

pub proof fn lemma_last_dot(s: Seq<char>)
    ensures
        last_dot(s) matches Some(i) ==> 0 <= i < s.len() && s[i] == '.',
    decreases s.len(),
{
    if s.len() > 0 && s.last() != '.' {
        lemma_last_dot(s.drop_last());
    }
}

/// The non-empty, non-`.` pieces of a path, as windows of `c`.
pub fn normal_part_bounds(c: &[char]) -> (r: Vec<(usize, usize)>)
    ensures
        r@.len() == normal_parts(split_on(c@, '/')).len(),
        forall|k: int|
            0 <= k < r@.len() ==> (#[trigger] r@[k]).0 <= r@[k].1 <= c@.len() && c@.subrange(
                r@[k].0 as int,
                r@[k].1 as int,
            ) == normal_parts(split_on(c@, '/'))[k],
{
    let pieces = split_bounds(c, 0, c.len(), '/');
    assert(c@.subrange(0, c@.len() as int) == c@);
    let ghost all = split_on(c@, '/');
    let mut r: Vec<(usize, usize)> = Vec::new();
    let mut i: usize = 0;
    assert(all.take(0) =~= Seq::<Seq<char>>::empty());
    while i < pieces.len()
        invariant
            all == split_on(c@, '/'),
            pieces@.len() == all.len(),
            forall|k: int|
                0 <= k < pieces@.len() ==> (#[trigger] pieces@[k]).0 <= pieces@[k].1 <= c@.len()
                    && c@.subrange(pieces@[k].0 as int, pieces@[k].1 as int) == all[k],
            i <= pieces@.len(),
            r@.len() == normal_parts(all.take(i as int)).len(),
            forall|k: int|
                0 <= k < r@.len() ==> (#[trigger] r@[k]).0 <= r@[k].1 <= c@.len() && c@.subrange(
                    r@[k].0 as int,
                    r@[k].1 as int,
                ) == normal_parts(all.take(i as int))[k],
        decreases pieces.len() - i,
    {
        let (a, b) = pieces[i];
        let dot = b - a == 1 && c[a] == '.';
        let ghost p = all[i as int];
        assert(all.take(i + 1).drop_last() == all.take(i as int));
        assert(all.take(i + 1).last() == p);
        assert(dot == (p == seq!['.'])) by {
            if p == seq!['.'] {
                assert(p[0] == c@[a as int]);
            }
            if dot {
                assert(p =~= seq!['.']);
            }
        }
        let ghost before = r@;
        if a < b && !dot {
            r.push((a, b));
            assert forall|k: int| 0 <= k < r@.len() implies (#[trigger] r@[k]).0 <= r@[k].1
                <= c@.len() && c@.subrange(r@[k].0 as int, r@[k].1 as int) == normal_parts(
                all.take(i + 1),
            )[k] by {
                if k < before.len() {
                    assert(r@[k] == before[k]);
                }
            }
        }
        i = i + 1;
    }
    assert(all.take(i as int) == all);
    r
}

/// Bounds of the file name of a path held in `c`.
fn file_name_bounds(c: &[char]) -> (r: Option<(usize, usize)>)
    ensures
        match r {
            Some((a, b)) => a <= b <= c@.len() && file_name(c@) == Some(
                c@.subrange(a as int, b as int),
            ),
            None => file_name(c@) is None,
        },
{
    let parts = normal_part_bounds(c);
    if parts.len() == 0 {
        return None;
    }
    let (a, b) = parts[parts.len() - 1];
    let dots = b - a == 2 && c[a] == '.' && c[a + 1] == '.';
    let ghost last = c@.subrange(a as int, b as int);
    assert(dots == (last == seq!['.', '.'])) by {
        if last == seq!['.', '.'] {
            assert(last[0] == c@[a as int] && last[1] == c@[a + 1]);
        }
        if dots {
            assert(last =~= seq!['.', '.']);
        }
    }
    if dots {
        None
    } else {
        Some((a, b))
    }
}

/// Index of the last `.` in `c[a..b]`.
fn last_dot_in(c: &[char], a: usize, b: usize) -> (r: Option<usize>)
    requires
        a <= b <= c@.len(),
    ensures
        match r {
            Some(i) => a <= i < b && last_dot(c@.subrange(a as int, b as int)) == Some(i - a),
            None => last_dot(c@.subrange(a as int, b as int)) is None,
        },
{
    let mut e = b;
    while e > a && c[e - 1] != '.'
        invariant
            a <= e <= b <= c@.len(),
            last_dot(c@.subrange(a as int, b as int)) == last_dot(c@.subrange(a as int, e as int)),
        decreases e - a,
    {
        assert(c@.subrange(a as int, e as int).drop_last() == c@.subrange(a as int, e - 1));
        e = e - 1;
    }
    if e == a {
        None
    } else {
        Some(e - 1)
    }
}

/// The file name of a path, if it has one.
pub fn path_file_name(path: &str) -> (r: Option<String>)
    ensures
        match r {
            Some(n) => file_name(path@) == Some(n@),
            None => file_name(path@) is None,
        },
{
    let c = chars_of(path);
    match file_name_bounds(&c) {
        Some((a, b)) => Some(string_of(&copy_range(&c, a, b))),
        None => None,
    }
}

/// The extension of a path's file name, as characters.
pub fn extension_chars(path: &str) -> (r: Option<Vec<char>>)
    ensures
        match r {
            Some(e) => path_extension(path@) == Some(e@),
            None => path_extension(path@) is None,
        },
{
    let c = chars_of(path);
    let (a, b) = match file_name_bounds(&c) {
        Some(w) => w,
        None => return None,
    };
    match last_dot_in(&c, a, b) {
        Some(i) => {
            if i == a {
                return None;
            }
            assert(c@.subrange(a as int, b as int).skip(i - a + 1) == c@.subrange(i + 1, b as int));
            Some(copy_range(&c, i + 1, b))
        },
        None => None,
    }
}

/// The stem of a path's file name, if it has a file name.
pub fn path_file_stem(path: &str) -> (r: Option<String>)
    ensures
        match r {
            Some(s) => file_name(path@) matches Some(n) && s@ == name_stem(n),
            None => file_name(path@) is None,
        },
{
    let c = chars_of(path);
    let (a, b) = match file_name_bounds(&c) {
        Some(w) => w,
        None => return None,
    };
    match last_dot_in(&c, a, b) {
        Some(i) => {
            if i == a {
                return Some(string_of(&copy_range(&c, a, b)));
            }
            assert(c@.subrange(a as int, b as int).take(i - a) == c@.subrange(a as int, i as int));
            Some(string_of(&copy_range(&c, a, i)))
        },
        None => Some(string_of(&copy_range(&c, a, b))),
    }
}

// ---------------------------------------------------------------------------
// Kinds of files
// ---------------------------------------------------------------------------

/// Whether the path's extension, in ASCII lower case, is one of `names`.
pub open spec fn extension_in(path: Seq<char>, names: Seq<Seq<char>>) -> bool {
    match path_extension(path) {
        Some(e) => names.contains(ascii_lower_seq(e)),
        None => false,
    }
}

/// Image files that can be previewed and watermarked.
pub open spec fn image_extensions() -> Seq<Seq<char>> {
    seq!["png"@, "jpg"@, "jpeg"@, "gif"@, "bmp"@, "webp"@, "tif"@, "tiff"@]
}

/// Video files that can be previewed and watermarked.
pub open spec fn video_extensions() -> Seq<Seq<char>> {
    seq!["mp4"@, "mov"@, "m4v"@, "mkv"@, "avi"@, "webm"@]
}

/// Whether `e` is one of `names`.
fn chars_in(e: &[char], names: &[&str]) -> (r: bool)
    ensures
        r == names@.map_values(|s: &str| s@).contains(e@),
{
    let ghost views = names@.map_values(|s: &str| s@);
    let mut i: usize = 0;
    while i < names.len()
        invariant
            i <= names@.len(),
            views == names@.map_values(|s: &str| s@),
            forall|k: int| 0 <= k < i ==> views[k] != e@,
        decreases names.len() - i,
    {
        if chars_eq(e, &chars_of(names[i])) {
            assert(views[i as int] == e@);
            return true;
        }
        i = i + 1;
    }
    false
}

/// Whether the path's extension, lower-cased, is one of `names`.
fn has_extension_in(path: &str, names: &[&str]) -> (r: bool)
    ensures
        r == (match path_extension(path@) {
            Some(e) => names@.map_values(|s: &str| s@).contains(ascii_lower_seq(e)),
            None => false,
        }),
{
    match extension_chars(path) {
        Some(e) => chars_in(&lower_ascii(&e), names),
        None => false,
    }
}

/// Whether `path` names an image that the image tools take.
pub fn is_preview_image_path(path: &str) -> (r: bool)
    ensures
        r == extension_in(path@, image_extensions()),
{
    let names: [&str; 8] = ["png", "jpg", "jpeg", "gif", "bmp", "webp", "tif", "tiff"];
    let r = has_extension_in(path, &names);
    assert(names@.map_values(|s: &str| s@) =~= image_extensions());
    r
}

/// Whether `path` names a video that the video tools take.
pub fn is_preview_video_path(path: &str) -> (r: bool)
    ensures
        r == extension_in(path@, video_extensions()),
{
    let names: [&str; 6] = ["mp4", "mov", "m4v", "mkv", "avi", "webm"];
    let r = has_extension_in(path, &names);
    assert(names@.map_values(|s: &str| s@) =~= video_extensions());
    r
}

/// Whether `path` names a PDF file (extension `pdf` in any ASCII case).
pub fn is_preview_pdf_path(path: &str) -> (r: bool)
    ensures
        r == extension_in(path@, seq!["pdf"@]),
{
    let names: [&str; 1] = ["pdf"];
    let r = has_extension_in(path, &names);
    assert(names@.map_values(|s: &str| s@) =~= seq!["pdf"@]);
    r
}

/// Whether `path` names a TXT download list (extension `txt` in any ASCII case).
pub fn is_text_file(path: &str) -> (r: bool)
    ensures
        r == extension_in(path@, seq!["txt"@]),
{
    let names: [&str; 1] = ["txt"];
    let r = has_extension_in(path, &names);
    assert(names@.map_values(|s: &str| s@) =~= seq!["txt"@]);
    r
}

// ---------------------------------------------------------------------------
// Image formats
// ---------------------------------------------------------------------------

/// The image encodings that watermarked images are written in.
#[derive(Clone, Copy, Debug, PartialEq, Eq)]
pub enum ImageFormat {
    Png,
    Jpeg,
    WebP,
    Bmp,
    Tiff,
}

/// The image format for a path, by its lower-cased extension, or the error
/// for a missing or unsupported extension.
pub open spec fn image_format_for(path: Seq<char>) -> Result<ImageFormat, Seq<char>> {
    match path_extension(path) {
        None => Err("无法识别图片格式："@ + path),
        Some(e) => {
            let l = ascii_lower_seq(e);
            if l == "png"@ {
                Ok(ImageFormat::Png)
            } else if l == "jpg"@ || l == "jpeg"@ {
                Ok(ImageFormat::Jpeg)
            } else if l == "webp"@ {
                Ok(ImageFormat::WebP)
            } else if l == "bmp"@ {
                Ok(ImageFormat::Bmp)
            } else if l == "tif"@ || l == "tiff"@ {
                Ok(ImageFormat::Tiff)
            } else {
                Err("不支持的图片格式："@ + l)
            }
        },
    }
}

/// Whether `e` is the text of the literal `s`.
fn is_word(e: &[char], s: &str) -> (r: bool)
    ensures
        r == (e@ == s@),
{
    chars_eq(e, &chars_of(s))
}

/// The format to write an image at `path` in.
pub fn image_format_from_path(path: &str) -> (r: Result<ImageFormat, String>)
    ensures
        match r {
            Ok(f) => image_format_for(path@) == Ok::<ImageFormat, Seq<char>>(f),
            Err(e) => image_format_for(path@) == Err::<ImageFormat, Seq<char>>(e@),
        },
{
    let e = match extension_chars(path) {
        Some(e) => e,
        None => {
            let mut m = chars_of("无法识别图片格式：");
            push_all(&mut m, &chars_of(path));
            return Err(string_of(&m));
        },
    };
    let l = lower_ascii(&e);
    if is_word(&l, "png") {
        Ok(ImageFormat::Png)
    } else if is_word(&l, "jpg") || is_word(&l, "jpeg") {
        Ok(ImageFormat::Jpeg)
    } else if is_word(&l, "webp") {
        Ok(ImageFormat::WebP)
    } else if is_word(&l, "bmp") {
        Ok(ImageFormat::Bmp)
    } else if is_word(&l, "tif") || is_word(&l, "tiff") {
        Ok(ImageFormat::Tiff)
    } else {
        let mut m = chars_of("不支持的图片格式：");
        push_all(&mut m, &l);
        Err(string_of(&m))
    }
}

// ---------------------------------------------------------------------------
// Display of relative paths
// ---------------------------------------------------------------------------

/// `s` with each `\` turned into `/`.
pub open spec fn slash_display(s: Seq<char>) -> Seq<char> {
    s.map_values(|c: char| if c == '\\' { '/' } else { c })
}

/// A relative path as the tools show it: with `/` separators only.
pub fn display_relative_path(path: &str) -> (r: String)
    ensures
        r@ == slash_display(path@),
{
    let c = chars_of(path);
    let mut out: Vec<char> = Vec::new();
    let mut i: usize = 0;
    while i < c.len()
        invariant
            i <= c@.len(),
            out@ == slash_display(c@.take(i as int)),
        decreases c.len() - i,
    {
        if c[i] == '\\' {
            out.push('/');
        } else {
            out.push(c[i]);
        }
        i = i + 1;
        assert(slash_display(c@.take(i as int)) == slash_display(c@.take(i - 1)).push(
            if c@[i - 1] == '\\' { '/' } else { c@[i - 1] },
        ));
    }
    assert(c@.take(c@.len() as int) == c@);
    string_of(&out)
}

// ---------------------------------------------------------------------------
// Outputs of the PDF batch
// ---------------------------------------------------------------------------

/// Where the watermarked copy of the PDF at relative path `path` goes,
/// relative to the output directory: in the same sub-directory, named
/// `{stem}-watermarked.pdf`; or the error for a path without a file name.
pub open spec fn batch_pdf_output(path: Seq<char>) -> Result<Seq<char>, Seq<char>> {
    match file_name(path) {
        None => Err("无法识别 PDF 文件名："@ + path),
        Some(n) => Ok(directory_part(path) + name_stem(n) + "-watermarked.pdf"@),
    }
}

/// The text of a path up to and including its last `/` (empty without one).
pub open spec fn directory_part(path: Seq<char>) -> Seq<char>
    decreases path.len(),
{
    if path.len() == 0 {
        path
    } else if path.last() == '/' {
        path
    } else {
        directory_part(path.drop_last())
    }
}

/// The relative path of the watermarked copy of the PDF at `relative_path`.
pub fn build_batch_pdf_output_path(relative_path: &str) -> (r: Result<String, String>)
    ensures
        match r {
            Ok(p) => batch_pdf_output(relative_path@) == Ok::<Seq<char>, Seq<char>>(p@),
            Err(e) => batch_pdf_output(relative_path@) == Err::<Seq<char>, Seq<char>>(e@),
        },
{
    let stem = match path_file_stem(relative_path) {
        Some(s) => s,
        None => {
            let mut m = chars_of("无法识别 PDF 文件名：");
            push_all(&mut m, &chars_of(relative_path));
            return Err(string_of(&m));
        },
    };
    let c = chars_of(relative_path);
    let mut e = c.len();
    assert(c@.take(e as int) == c@);
    while e > 0 && c[e - 1] != '/'
        invariant
            e <= c@.len(),
            directory_part(c@) == directory_part(c@.take(e as int)),
        decreases e,
    {
        assert(c@.take(e as int).drop_last() == c@.take(e - 1));
        e = e - 1;
    }
    let mut out = copy_range(&c, 0, e);
    assert(c@.subrange(0, e as int) == c@.take(e as int));
    push_all(&mut out, &chars_of(stem.as_str()));
    push_all(&mut out, &chars_of("-watermarked.pdf"));
    Ok(string_of(&out))
}

// ---------------------------------------------------------------------------
// Components and prefixes
// ---------------------------------------------------------------------------

/// The components of a path (`Path::components` on Unix): a leading `/`
/// stands for the root, a leading `.` for the current directory; then the
/// pieces between separators that are neither empty nor `.`.
pub open spec fn path_components(path: Seq<char>) -> Seq<Seq<char>> {
    let parts = normal_parts(split_on(path, '/'));
    if path.len() > 0 && path[0] == '/' {
        seq![seq!['/']] + parts
    } else if path == seq!['.'] || has_prefix(path, seq!['.', '/']) {
        seq![seq!['.']] + parts
    } else {
        parts
    }
}

/// Whether `path` lies under `base`, component by component (`Path::starts_with`).
pub open spec fn path_starts_with(path: Seq<char>, base: Seq<char>) -> bool {
    path_components(base).is_prefix_of(path_components(path))
}

/// A path is absolute when it starts with the root `/`.
pub open spec fn is_absolute(path: Seq<char>) -> bool {
    path.len() > 0 && path[0] == '/'
}

proof fn lemma_split_on_no_sep(s: Seq<char>, c: char)
    ensures
        forall|k: int, j: int|
            0 <= k < split_on(s, c).len() && 0 <= j < split_on(s, c)[k].len() ==> split_on(
                s,
                c,
            )[k][j] != c,
    decreases s.len(),
{
    lemma_find_char(s, c);
    match find_char(s, c) {
        None => {},
        Some(i) => {
            lemma_split_on_no_sep(s.skip(i + 1), c);
            let rest = split_on(s.skip(i + 1), c);
            assert(split_on(s, c) == seq![s.take(i)] + rest);
            assert forall|k: int, j: int|
                0 <= k < split_on(s, c).len() && 0 <= j < split_on(s, c)[k].len() implies split_on(
                s,
                c,
            )[k][j] != c by {
                if k > 0 {
                    assert(split_on(s, c)[k] == rest[k - 1]);
                }
            }
        },
    }
}

proof fn lemma_normal_parts(pieces: Seq<Seq<char>>)
    requires
        forall|k: int, j: int| 0 <= k < pieces.len() && 0 <= j < pieces[k].len() ==> pieces[k][j] != '/',
    ensures
        forall|k: int|
            0 <= k < normal_parts(pieces).len() ==> (#[trigger] normal_parts(pieces)[k]) != seq!['/']
                && normal_parts(pieces)[k] != seq!['.'],
    decreases pieces.len(),
{
    if pieces.len() > 0 {
        let d = pieces.drop_last();
        assert forall|k: int, j: int| 0 <= k < d.len() && 0 <= j < d[k].len() implies d[k][j]
            != '/' by {
            assert(d[k] == pieces[k]);
        }
        lemma_normal_parts(d);
        let rest = normal_parts(d);
        let p = pieces.last();
        if p.len() > 0 && p != seq!['.'] {
            assert(p != seq!['/']) by {
                if p == seq!['/'] {
                    assert(pieces[pieces.len() - 1][0] == '/');
                }
            }
            assert(normal_parts(pieces) == rest.push(p));
            assert forall|k: int| 0 <= k < normal_parts(pieces).len() implies (#[trigger] normal_parts(
                pieces,
            )[k]) != seq!['/'] && normal_parts(pieces)[k] != seq!['.'] by {
                if k < rest.len() {
                    assert(normal_parts(pieces)[k] == rest[k]);
                }
            }
        } else {
            assert(normal_parts(pieces) == rest);
        }
    }
}

/// 0 without a leading marker, 1 for the root, 2 for the current directory.
fn marker_of(c: &[char]) -> (m: u8)
    ensures
        m == 1 <==> (c@.len() > 0 && c@[0] == '/'),
        m == 2 <==> !(c@.len() > 0 && c@[0] == '/') && (c@ == seq!['.'] || has_prefix(
            c@,
            seq!['.', '/'],
        )),
        m <= 2,
{
    if c.len() > 0 && c[0] == '/' {
        return 1;
    }
    let single = c.len() == 1 && c[0] == '.';
    assert(single == (c@ == seq!['.'])) by {
        if single {
            assert(c@ =~= seq!['.']);
        }
    }
    let dot_slash = c.len() >= 2 && c[0] == '.' && c[1] == '/';
    assert(dot_slash == has_prefix(c@, seq!['.', '/'])) by {
        if dot_slash {
            assert(c@.take(2) =~= seq!['.', '/']);
        }
        if has_prefix(c@, seq!['.', '/']) {
            assert(c@.take(2)[0] == c@[0] && c@.take(2)[1] == c@[1]);
        }
    }
    if single || dot_slash {
        2
    } else {
        0
    }
}

/// Whether the path in `a` lies under the path in `b`, component by component.
pub fn path_starts_with_exec(path: &str, base: &str) -> (r: bool)
    ensures
        r == path_starts_with(path@, base@),
{
    let a = chars_of(path);
    let b = chars_of(base);
    let pa = normal_part_bounds(&a);
    let pb = normal_part_bounds(&b);
    let ma = marker_of(&a);
    let mb = marker_of(&b);
    let ghost na = normal_parts(split_on(a@, '/'));
    let ghost nb = normal_parts(split_on(b@, '/'));
    proof {
        lemma_split_on_no_sep(a@, '/');
        lemma_split_on_no_sep(b@, '/');
        lemma_normal_parts(split_on(a@, '/'));
        lemma_normal_parts(split_on(b@, '/'));
    }
    let ghost ca = path_components(a@);
    let ghost cb = path_components(b@);
    let ghost pre_a: Seq<Seq<char>> = if ma == 0 {
        seq![]
    } else if ma == 1 {
        seq![seq!['/']]
    } else {
        seq![seq!['.']]
    };
    let ghost pre_b: Seq<Seq<char>> = if mb == 0 {
        seq![]
    } else if mb == 1 {
        seq![seq!['/']]
    } else {
        seq![seq!['.']]
    };
    assert(ca == pre_a + na && cb == pre_b + nb);
    if mb != 0 && mb != ma {
        assert(!cb.is_prefix_of(ca)) by {
            if cb.is_prefix_of(ca) {
                assert(cb[0] == pre_b[0]);
                if ma != 0 {
                    assert(ca[0] == pre_a[0]);
                    assert(pre_a[0][0] != pre_b[0][0]);
                } else {
                    assert(ca[0] == na[0]);
                }
                assert(cb.len() >= 1);
                assert(cb[0] == ca.subrange(0, cb.len() as int)[0]);
                assert(cb[0] == ca[0]);
                if ma == 0 {
                    assert(ca == na);
                    assert(na[0] == ca[0]);
                }
            }
        }
        return false;
    }
    if mb == 0 && ma != 0 {
        if pb.len() == 0 {
            assert(cb.len() == 0);
            return true;
        }
        assert(!cb.is_prefix_of(ca)) by {
            if cb.is_prefix_of(ca) {
                assert(cb == nb);
                if ma == 1 {
                    assert(ca == seq![seq!['/']] + na);
                } else {
                    assert(ca == seq![seq!['.']] + na);
                }
                assert(cb[0] == ca.subrange(0, cb.len() as int)[0]);
                assert(cb[0] == ca[0]);
                assert(nb[0] == cb[0]);
            }
        }
        return false;
    }
    // Same marker: compare the named parts.
    let ghost pre: Seq<Seq<char>> = if ma == 0 {
        seq![]
    } else if ma == 1 {
        seq![seq!['/']]
    } else {
        seq![seq!['.']]
    };
    assert(ca == pre + na && cb == pre + nb);
    if pb.len() > pa.len() {
        return false;
    }
    let mut i: usize = 0;
    while i < pb.len()
        invariant
            i <= pb@.len() <= pa@.len(),
            pa@.len() == na.len(),
            pb@.len() == nb.len(),
            forall|k: int|
                0 <= k < pa@.len() ==> (#[trigger] pa@[k]).0 <= pa@[k].1 <= a@.len() && a@.subrange(
                    pa@[k].0 as int,
                    pa@[k].1 as int,
                ) == na[k],
            forall|k: int|
                0 <= k < pb@.len() ==> (#[trigger] pb@[k]).0 <= pb@[k].1 <= b@.len() && b@.subrange(
                    pb@[k].0 as int,
                    pb@[k].1 as int,
                ) == nb[k],
            forall|k: int| 0 <= k < i ==> na[k] == nb[k],
            ca == pre + na,
            cb == pre + nb,
            ca == path_components(path@),
            cb == path_components(base@),
            pre.len() == (if ma == 0 { 0int } else { 1int }),
        decreases pb.len() - i,
    {
        let (x0, x1) = pa[i];
        let (y0, y1) = pb[i];
        let same = chars_eq(&copy_range(&a, x0, x1), &copy_range(&b, y0, y1));
        if !same {
            assert(na[i as int] != nb[i as int]);
            assert(!cb.is_prefix_of(ca)) by {
                if cb.is_prefix_of(ca) {
                    let q = pre.len() + i;
                    assert(cb[q] == ca.subrange(0, cb.len() as int)[q]);
                    assert(cb[q] == nb[i as int]);
                    assert(ca[q] == na[i as int]);
                }
            }
            return false;
        }
        i = i + 1;
    }
    assert(cb.is_prefix_of(ca)) by {
        assert forall|k: int| 0 <= k < cb.len() implies cb[k] == ca[k] by {
            if k >= pre.len() {
                assert(cb[k] == nb[k - pre.len()]);
                assert(ca[k] == na[k - pre.len()]);
            }
        }
        assert(cb =~= ca.subrange(0, cb.len() as int));
    }
    true
}

} // verus!
