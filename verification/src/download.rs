//! Series download lists: parsing the `URL, 剧名 - 第N集` lines of TXT
//! lists into download items, merging several lists and summarising them.
use vstd::prelude::*;

use crate::models::{SeriesDownloadListSummary, SeriesDownloadSummary};
use crate::text::{
    chars_of, copy_range, decimal_chars, decimal_text, parse_usize, parse_usize_range,
    range_has_prefix, skip_end, skip_start, split_bounds, split_on, string_of, trim,
    trim_bounds, char_is_control, is_control, strip_end, strip_start, CharClass, push_all,
    has_prefix, chars_eq, chars_lt, chars_less,
};

verus! {

// ---------------------------------------------------------------------------
// Items
// ---------------------------------------------------------------------------

/// One episode to download.
#[derive(Debug)]
pub struct DownloadItem {
    pub url: String,
    pub series_name: String,
    pub directory_name: String,
    pub episode: usize,
}

/// The mathematical content of a [`DownloadItem`].
pub struct DownloadItemView {
    pub url: Seq<char>,
    pub series_name: Seq<char>,
    pub directory_name: Seq<char>,
    pub episode: usize,
}

impl View for DownloadItem {
    type V = DownloadItemView;

    open spec fn view(&self) -> DownloadItemView {
        DownloadItemView {
            url: self.url@,
            series_name: self.series_name@,
            directory_name: self.directory_name@,
            episode: self.episode,
        }
    }
}

pub open spec fn items_view(v: Seq<DownloadItem>) -> Seq<DownloadItemView> {
    v.map_values(|i: DownloadItem| i@)
}

/// A copy of `item`.
pub fn copy_item(item: &DownloadItem) -> (r: DownloadItem)
    ensures
        r@ == item@,
{
    DownloadItem {
        url: item.url.clone(),
        series_name: item.series_name.clone(),
        directory_name: item.directory_name.clone(),
        episode: item.episode,
    }
}

// ---------------------------------------------------------------------------
// Episode titles
// ---------------------------------------------------------------------------

/// The text between the series name and the episode number.
pub open spec fn episode_marker() -> Seq<char> {
    " - 第"@
}

/// Start of the last occurrence of `pat` in `s` (`str::rfind`).
pub open spec fn rfind(s: Seq<char>, pat: Seq<char>) -> Option<int>
    decreases s.len(),
{
    if s.len() < pat.len() {
        None
    } else if s.skip(s.len() - pat.len()) == pat {
        Some(s.len() - pat.len())
    } else if s.len() == 0 {
        None
    } else {
        rfind(s.drop_last(), pat)
    }
}

pub proof fn lemma_rfind(s: Seq<char>, pat: Seq<char>)
    ensures
        rfind(s, pat) matches Some(i) ==> 0 <= i && i + pat.len() <= s.len() && s.subrange(
            i,
            i + pat.len(),
        ) == pat,
    decreases s.len(),
{
    if s.len() >= pat.len() && s.skip(s.len() - pat.len()) != pat && s.len() > 0 {
        lemma_rfind(s.drop_last(), pat);
        if let Some(i) = rfind(s.drop_last(), pat) {
            assert(s.drop_last().subrange(i, i + pat.len()) == s.subrange(i, i + pat.len()));
        }
    }
}

/// The series name and episode number of a title `剧名 - 第N集`: the name
/// is the trimmed text before the last ` - 第`, the number the trimmed
/// text between it and a final `集`; both must be present, the number
/// positive.
pub open spec fn episode_title(title: Seq<char>) -> Option<(Seq<char>, usize)> {
    match rfind(title, episode_marker()) {
        None => None,
        Some(i) => {
            let series = trim(title.take(i));
            let rest = trim(title.skip(i + episode_marker().len()));
            if rest.len() > 0 && rest.last() == '集' {
                match parse_usize(trim(rest.drop_last())) {
                    Some(episode) => if series.len() > 0 && episode != 0 {
                        Some((series, episode))
                    } else {
                        None
                    },
                    None => None,
                }
            } else {
                None
            }
        },
    }
}

/// Index of the last occurrence of `pat` in `s`.
fn rfind_chars(s: &[char], pat: &[char]) -> (r: Option<usize>)
    ensures
        match r {
            Some(i) => rfind(s@, pat@) == Some(i as int),
            None => rfind(s@, pat@) == None::<int>,
        },
{
    let mut e = s.len();
    assert(s@.take(e as int) == s@);
    loop
        invariant
            e <= s@.len(),
            rfind(s@, pat@) == rfind(s@.take(e as int), pat@),
        decreases e,
    {
        let ghost t = s@.take(e as int);
        if e < pat.len() {
            return None;
        }
        let m = range_has_prefix(s, e - pat.len(), e, pat);
        assert(t.skip(t.len() - pat@.len()) == s@.subrange(e - pat@.len(), e as int));
        if m {
            assert(s@.subrange(e - pat@.len(), e as int).take(pat@.len() as int) == s@.subrange(
                e - pat@.len(),
                e as int,
            ));
            return Some(e - pat.len());
        }
        assert(s@.subrange(e - pat@.len(), e as int) != pat@) by {
            if s@.subrange(e - pat@.len(), e as int) == pat@ {
                assert(s@.subrange(e - pat@.len(), e as int).take(pat@.len() as int) == pat@);
            }
        }
        assert(e > 0) by {
            if e == 0 {
                assert(s@.subrange(0, 0) =~= pat@);
            }
        }
        assert(t.drop_last() == s@.take(e - 1));
        e = e - 1;
    }
}

/// Splits a title `剧名 - 第N集` into the series name and the episode number.
pub fn parse_episode_title(title: &str) -> (r: Option<(String, usize)>)
    ensures
        match r {
            Some((name, episode)) => episode_title(title@) == Some((name@, episode)),
            None => episode_title(title@) is None,
        },
{
    let t = chars_of(title);
    let marker = chars_of(" - 第");
    let i = match rfind_chars(&t, &marker) {
        Some(i) => i,
        None => return None,
    };
    let ghost m = episode_marker();
    proof {
        lemma_rfind(t@, m);
    }
    assert(t@.take(i as int) == t@.subrange(0, i as int));
    let (s0, s1) = trim_bounds(&t, 0, i);
    let (r0, r1) = trim_bounds(&t, i + marker.len(), t.len());
    assert(t@.skip(i + m.len()) == t@.subrange(i + m.len(), t@.len() as int));
    if !(r0 < r1 && t[r1 - 1] == '集') {
        return None;
    }
    let ghost rest = t@.subrange(r0 as int, r1 as int);
    assert(rest.drop_last() == t@.subrange(r0 as int, r1 - 1));
    let (d0, d1) = trim_bounds(&t, r0, r1 - 1);
    let episode = match parse_usize_range(&t, d0, d1) {
        Some(n) => n,
        None => return None,
    };
    if s0 == s1 || episode == 0 {
        return None;
    }
    let name = copy_range(&t, s0, s1);
    Some((string_of(&name), episode))
}

// ---------------------------------------------------------------------------
// Directory names
// ---------------------------------------------------------------------------

/// Characters that file systems refuse in a directory name.
pub open spec fn is_reserved_name_char(c: char) -> bool {
    c == '<' || c == '>' || c == ':' || c == '"' || c == '/' || c == '\\' || c == '|' || c == '?'
        || c == '*'
}

/// `c`, or `_` where `c` is a control or reserved character.
pub open spec fn directory_char(c: char) -> char {
    if is_control(c) || is_reserved_name_char(c) {
        '_'
    } else {
        c
    }
}

/// The directory name for a series: control and reserved characters become
/// `_`, the result is trimmed, stripped of trailing dots and spaces and
/// trimmed again; nothing is left, `.` or `..` gives no name.
pub open spec fn directory_name_for(name: Seq<char>) -> Option<Seq<char>> {
    let mapped = name.map_values(|c: char| directory_char(c));
    let t = trim(strip_end(trim(mapped), CharClass::DotOrSpace));
    if t.len() == 0 || t == seq!['.'] || t == seq!['.', '.'] {
        None
    } else {
        Some(t)
    }
}

/// Makes `name` usable as a directory name, or `None` where nothing usable is left.
pub fn sanitize_directory_name(name: &str) -> (r: Option<String>)
    ensures
        match r {
            Some(d) => directory_name_for(name@) == Some(d@),
            None => directory_name_for(name@) is None,
        },
{
    let src = chars_of(name);
    let mut mapped: Vec<char> = Vec::new();
    let mut i: usize = 0;
    while i < src.len()
        invariant
            i <= src@.len(),
            mapped@ == src@.take(i as int).map_values(|c: char| directory_char(c)),
        decreases src.len() - i,
    {
        let c = src[i];
        let reserved = c == '<' || c == '>' || c == ':' || c == '"' || c == '/' || c == '\\' || c
            == '|' || c == '?' || c == '*';
        if char_is_control(c) || reserved {
            mapped.push('_');
        } else {
            mapped.push(c);
        }
        i = i + 1;
        assert(src@.take(i as int).map_values(|c: char| directory_char(c)) == src@.take(
            i - 1,
        ).map_values(|c: char| directory_char(c)).push(directory_char(src@[i - 1])));
    }
    assert(src@.take(src@.len() as int) == src@);
    assert(mapped@.subrange(0, mapped@.len() as int) == mapped@);
    let (a, b) = trim_bounds(&mapped, 0, mapped.len());
    let b2 = skip_end(&mapped, a, b, CharClass::DotOrSpace);
    let (c0, c1) = trim_bounds(&mapped, a, b2);
    let t = copy_range(&mapped, c0, c1);
    let dot = t.len() == 1 && t[0] == '.';
    let dots = t.len() == 2 && t[0] == '.' && t[1] == '.';
    assert(dot == (t@ == seq!['.'])) by {
        if t@ == seq!['.'] {
            assert(t@[0] == '.');
        }
        if dot {
            assert(t@ =~= seq!['.']);
        }
    }
    assert(dots == (t@ == seq!['.', '.'])) by {
        if t@ == seq!['.', '.'] {
            assert(t@[0] == '.' && t@[1] == '.');
        }
        if dots {
            assert(t@ =~= seq!['.', '.']);
        }
    }
    if t.len() == 0 || dot || dots {
        None
    } else {
        Some(string_of(&t))
    }
}

// ---------------------------------------------------------------------------
// Ordering of items
// ---------------------------------------------------------------------------

/// Whether `a` sorts before `b`: by series name, then by episode.
pub open spec fn item_lt(a: DownloadItemView, b: DownloadItemView) -> bool {
    chars_lt(a.series_name, b.series_name) || (a.series_name == b.series_name && a.episode
        < b.episode)
}

/// Where `x` goes in `s`: after every element that does not sort after it.
pub open spec fn insert_pos(s: Seq<DownloadItemView>, x: DownloadItemView) -> nat
    decreases s.len(),
{
    if s.len() == 0 {
        0
    } else if item_lt(x, s[0]) {
        0
    } else {
        1 + insert_pos(s.drop_first(), x)
    }
}

/// `s` sorted by series name and episode, keeping the input order of
/// items that compare equal (`sort_by` on `(series_name, episode)`).
pub open spec fn sort_items(s: Seq<DownloadItemView>) -> Seq<DownloadItemView>
    decreases s.len(),
{
    if s.len() == 0 {
        s
    } else {
        let t = sort_items(s.drop_last());
        t.insert(insert_pos(t, s.last()) as int, s.last())
    }
}

/// Whether item `a` sorts before item `b`.
pub fn item_less(a: &DownloadItem, b: &DownloadItem) -> (r: bool)
    ensures
        r == item_lt(a@, b@),
{
    let an = chars_of(a.series_name.as_str());
    let bn = chars_of(b.series_name.as_str());
    chars_less(&an, &bn) || (a.series_name == b.series_name && a.episode < b.episode)
}

/// Inserts `x` into `v` where `insert_pos` puts it.
fn insert_sorted(v: &mut Vec<DownloadItem>, x: DownloadItem)
    ensures
        items_view(final(v)@) == items_view(old(v)@).insert(
            insert_pos(items_view(old(v)@), x@) as int,
            x@,
        ),
{
    let ghost s = items_view(v@);
    let mut p: usize = 0;
    assert(s.skip(0) == s);
    while p < v.len() && !item_less(&x, &v[p])
        invariant
            p <= v@.len(),
            s == items_view(v@),
            insert_pos(s, x@) == p + insert_pos(s.skip(p as int), x@),
        decreases v.len() - p,
    {
        assert(s.skip(p as int).drop_first() == s.skip(p + 1));
        p = p + 1;
    }
    proof {
        if p < v@.len() {
            assert(s.skip(p as int)[0] == v@[p as int]@);
        }
    }
    v.insert(p, x);
    assert(items_view(v@) =~= s.insert(p as int, x@));
}

// ---------------------------------------------------------------------------
// Lines of a download list
// ---------------------------------------------------------------------------

/// What one line of a download list holds.
pub enum LineEntry {
    Blank,
    Entry(DownloadItemView),
    Invalid(Seq<char>),
}

/// Whether a column is a video address.
pub open spec fn is_url(col: Seq<char>) -> bool {
    has_prefix(col, "https://"@) || has_prefix(col, "http://"@)
}

/// Index of the first column that is a video address.
pub open spec fn first_url_column(cols: Seq<Seq<char>>) -> Option<int>
    decreases cols.len(),
{
    if cols.len() == 0 {
        None
    } else if is_url(cols[0]) {
        Some(0)
    } else {
        match first_url_column(cols.drop_first()) {
            Some(i) => Some(i + 1),
            None => None,
        }
    }
}

/// `第 {n}` followed by `tail`.
pub open spec fn line_message(n: nat, tail: Seq<char>) -> Seq<char> {
    "第 "@ + decimal_text(n) + tail
}

/// The text of a line once trimmed and stripped of a leading byte order mark.
pub open spec fn line_text(raw: Seq<char>) -> Seq<char> {
    strip_start(trim(raw), CharClass::ByteOrderMark)
}

/// The trimmed comma-separated columns of a line.
pub open spec fn columns(line: Seq<char>) -> Seq<Seq<char>> {
    split_on(line, ',').map_values(|col: Seq<char>| trim(col))
}

/// What line number `n` (counting from 1) with text `raw` holds: nothing
/// when blank; otherwise the first column that starts with `https://` or
/// `http://` is the address and the next, non-empty column the title.
pub open spec fn line_entry(raw: Seq<char>, n: nat) -> LineEntry {
    let line = line_text(raw);
    if line.len() == 0 {
        LineEntry::Blank
    } else {
        let cols = columns(line);
        match first_url_column(cols) {
            None => LineEntry::Invalid(line_message(n, " 行缺少 http/https 视频地址"@)),
            Some(u) => if u + 1 >= cols.len() || cols[u + 1].len() == 0 {
                LineEntry::Invalid(line_message(n, " 行缺少剧名和集数"@))
            } else {
                match episode_title(cols[u + 1]) {
                    None => LineEntry::Invalid(line_message(n, " 行标题格式应为“剧名 - 第N集”"@)),
                    Some((series, episode)) => match directory_name_for(series) {
                        None => LineEntry::Invalid(line_message(n, " 行剧名不能用作目录名"@)),
                        Some(dir) => LineEntry::Entry(
                            DownloadItemView {
                                url: cols[u],
                                series_name: series,
                                directory_name: dir,
                                episode,
                            },
                        ),
                    },
                }
            },
        }
    }
}

/// Whether two items would be saved to the same file.
pub open spec fn same_target(a: DownloadItemView, b: DownloadItemView) -> bool {
    a.directory_name == b.directory_name && a.episode == b.episode
}

pub open spec fn has_target(items: Seq<DownloadItemView>, x: DownloadItemView) -> bool {
    exists|j: int| 0 <= j < items.len() && same_target(#[trigger] items[j], x)
}

/// `剧名 第N集`.
pub open spec fn episode_label(x: DownloadItemView) -> Seq<char> {
    x.series_name + " 第"@ + decimal_text(x.episode as nat) + "集"@
}

/// The items of the first `k` lines, in line order, or the error of the
/// first line that is invalid or repeats an earlier target.
pub open spec fn parse_lines(lines: Seq<Seq<char>>, k: nat) -> Result<
    Seq<DownloadItemView>,
    Seq<char>,
>
    decreases k,
{
    if k == 0 {
        Ok(seq![])
    } else {
        match parse_lines(lines, (k - 1) as nat) {
            Err(e) => Err(e),
            Ok(items) => match line_entry(lines[k - 1], k) {
                LineEntry::Blank => Ok(items),
                LineEntry::Invalid(m) => Err(m),
                LineEntry::Entry(x) => if has_target(items, x) {
                    Err(line_message(k, " 行存在重复剧集："@ + episode_label(x)))
                } else {
                    Ok(items.push(x))
                },
            },
        }
    }
}

/// What a download list gives: its items sorted by series and episode, or
/// the error of its first bad line, or an error when it holds no item.
/// Lines are the pieces between line feeds; a carriage return before a line
/// feed is white space and is trimmed with the line.
pub open spec fn download_list(content: Seq<char>) -> Result<Seq<DownloadItemView>, Seq<char>> {
    let lines = split_on(content, '\n');
    match parse_lines(lines, lines.len()) {
        Err(e) => Err(e),
        Ok(items) => if items.len() == 0 {
            Err("下载清单中没有可下载的剧集"@)
        } else {
            Ok(sort_items(items))
        },
    }
}

/// The view of a parse result.
pub open spec fn list_result_view(r: Result<Vec<DownloadItem>, String>) -> Result<
    Seq<DownloadItemView>,
    Seq<char>,
> {
    match r {
        Ok(v) => Ok(items_view(v@)),
        Err(e) => Err(e@),
    }
}

/// A line's content, for the exec side.
enum LineResult {
    Blank,
    Entry(DownloadItem),
    Invalid(String),
}

spec fn line_result_view(r: LineResult) -> LineEntry {
    match r {
        LineResult::Blank => LineEntry::Blank,
        LineResult::Entry(x) => LineEntry::Entry(x@),
        LineResult::Invalid(m) => LineEntry::Invalid(m@),
    }
}

/// `第 {n}` followed by `tail`, as a string.
fn line_message_string(n: usize, tail: &[char]) -> (r: String)
    ensures
        r@ == line_message(n as nat, tail@),
{
    let mut m = chars_of("第 ");
    let digits = decimal_chars(n);
    push_all(&mut m, &digits);
    push_all(&mut m, tail);
    string_of(&m)
}

/// Reads line number `n` held in `c[lo..hi]`.
fn read_line(c: &[char], lo: usize, hi: usize, n: usize) -> (r: LineResult)
    requires
        lo <= hi <= c@.len(),
    ensures
        line_result_view(r) == line_entry(c@.subrange(lo as int, hi as int), n as nat),
{
    let ghost raw = c@.subrange(lo as int, hi as int);
    let (a, b) = trim_bounds(c, lo, hi);
    let a2 = skip_start(c, a, b, CharClass::ByteOrderMark);
    let ghost line = c@.subrange(a2 as int, b as int);
    assert(line == line_text(raw));
    if a2 == b {
        return LineResult::Blank;
    }
    let pieces = split_bounds(c, a2, b, ',');
    let ghost cols = columns(line);
    let https = chars_of("https://");
    let http = chars_of("http://");
    // Find the first address column.
    let mut u: usize = 0;
    let mut found = false;
    assert(cols.skip(0) == cols);
    while !found && u < pieces.len()
        invariant
            a2 <= b <= c@.len(),
            line == c@.subrange(a2 as int, b as int),
            cols == columns(line),
            cols.len() == pieces@.len(),
            pieces@.len() == split_on(line, ',').len(),
            forall|k: int|
                0 <= k < pieces@.len() ==> a2 <= (#[trigger] pieces@[k]).0 <= pieces@[k].1 <= b
                    && c@.subrange(pieces@[k].0 as int, pieces@[k].1 as int) == split_on(
                    line,
                    ',',
                )[k],
            https@ == "https://"@,
            http@ == "http://"@,
            u <= pieces@.len(),
            first_url_column(cols) == (match first_url_column(cols.skip(u as int)) {
                Some(i) => Some(i + u),
                None => None::<int>,
            }),
            found ==> u < pieces@.len() && is_url(cols[u as int]),
        decreases pieces.len() - u + (if found {
            0int
        } else {
            1int
        }),
    {
        let (x0, x1) = pieces[u];
        let (t0, t1) = trim_bounds(c, x0, x1);
        assert(cols[u as int] == c@.subrange(t0 as int, t1 as int));
        let is_address = range_has_prefix(c, t0, t1, &https) || range_has_prefix(c, t0, t1, &http);
        assert(cols.skip(u as int)[0] == cols[u as int]);
        if is_address {
            found = true;
        } else {
            assert(cols.skip(u as int).drop_first() == cols.skip(u + 1));
            u = u + 1;
        }
    }
    if !found {
        assert(cols.skip(u as int).len() == 0);
        let tail = chars_of(" 行缺少 http/https 视频地址");
        return LineResult::Invalid(line_message_string(n, &tail));
    }
    assert(cols.skip(u as int)[0] == cols[u as int]);
    assert(first_url_column(cols) == Some(u as int));
    let (x0, x1) = pieces[u];
    let (url0, url1) = trim_bounds(c, x0, x1);
    if pieces.len() - u <= 1 {
        let tail = chars_of(" 行缺少剧名和集数");
        return LineResult::Invalid(line_message_string(n, &tail));
    }
    let (y0, y1) = pieces[u + 1];
    let (t0, t1) = trim_bounds(c, y0, y1);
    assert(cols[u + 1] == c@.subrange(t0 as int, t1 as int));
    if t0 == t1 {
        let tail = chars_of(" 行缺少剧名和集数");
        return LineResult::Invalid(line_message_string(n, &tail));
    }
    let title_chars = copy_range(c, t0, t1);
    let title = string_of(&title_chars);
    let (series, episode) = match parse_episode_title(title.as_str()) {
        Some(p) => p,
        None => {
            let tail = chars_of(" 行标题格式应为“剧名 - 第N集”");
            return LineResult::Invalid(line_message_string(n, &tail));
        },
    };
    let directory = match sanitize_directory_name(series.as_str()) {
        Some(d) => d,
        None => {
            let tail = chars_of(" 行剧名不能用作目录名");
            return LineResult::Invalid(line_message_string(n, &tail));
        },
    };
    let url_chars = copy_range(c, url0, url1);
    LineResult::Entry(
        DownloadItem {
            url: string_of(&url_chars),
            series_name: series,
            directory_name: directory,
            episode,
        },
    )
}

/// Once a line is in error, the error stays.
proof fn lemma_parse_lines_err(lines: Seq<Seq<char>>, k: nat, k2: nat)
    requires
        k <= k2,
        parse_lines(lines, k) is Err,
    ensures
        parse_lines(lines, k2) == parse_lines(lines, k),
    decreases k2 - k,
{
    if k < k2 {
        lemma_parse_lines_err(lines, k, (k2 - 1) as nat);
    }
}

/// The label `剧名 第N集` of an item, as characters.
fn episode_label_chars(x: &DownloadItem) -> (r: Vec<char>)
    ensures
        r@ == episode_label(x@),
{
    let mut m = chars_of(x.series_name.as_str());
    let sep = chars_of(" 第");
    push_all(&mut m, &sep);
    let digits = decimal_chars(x.episode);
    push_all(&mut m, &digits);
    let end = chars_of("集");
    push_all(&mut m, &end);
    m
}

/// Whether `items` already holds an item with the target of `x`.
fn find_target(items: &Vec<DownloadItem>, x: &DownloadItem) -> (r: bool)
    ensures
        r == has_target(items_view(items@), x@),
{
    let mut j: usize = 0;
    while j < items.len()
        invariant
            j <= items@.len(),
            forall|k: int| 0 <= k < j ==> !same_target(items_view(items@)[k], x@),
        decreases items.len() - j,
    {
        if items[j].episode == x.episode && items[j].directory_name == x.directory_name {
            assert(same_target(items_view(items@)[j as int], x@));
            return true;
        }
        j = j + 1;
    }
    false
}

/// Parses a download list: one episode per non-blank line, written as
/// comma-separated columns holding a `http(s)://` address followed by a
/// `剧名 - 第N集` title. The items come back sorted by series name and episode.
pub fn parse_download_list(content: &str) -> (r: Result<Vec<DownloadItem>, String>)
    ensures
        list_result_view(r) == download_list(content@),
{
    let c = chars_of(content);
    let lines = split_bounds(&c, 0, c.len(), '\n');
    assert(c@.subrange(0, c@.len() as int) == c@);
    let ghost all = split_on(content@, '\n');
    let mut seen: Vec<DownloadItem> = Vec::new();
    let mut sorted: Vec<DownloadItem> = Vec::new();
    let mut k: usize = 0;
    assert(items_view(seen@) =~= seq![]);
    assert(items_view(sorted@) =~= seq![]);
    while k < lines.len()
        invariant
            c@ == content@,
            all == split_on(content@, '\n'),
            lines@.len() == all.len(),
            forall|q: int|
                0 <= q < lines@.len() ==> 0 <= (#[trigger] lines@[q]).0 <= lines@[q].1 <= c@.len()
                    && c@.subrange(lines@[q].0 as int, lines@[q].1 as int) == all[q],
            k <= lines@.len(),
            parse_lines(all, k as nat) == Ok::<Seq<DownloadItemView>, Seq<char>>(
                items_view(seen@),
            ),
            items_view(sorted@) == sort_items(items_view(seen@)),
        decreases lines.len() - k,
    {
        let (lo, hi) = lines[k];
        let entry = read_line(&c, lo, hi, k + 1);
        let ghost before = items_view(seen@);
        match entry {
            LineResult::Blank => {},
            LineResult::Invalid(m) => {
                proof {
                    lemma_parse_lines_err(all, (k + 1) as nat, all.len());
                }
                return Err(m);
            },
            LineResult::Entry(x) => {
                if find_target(&seen, &x) {
                    let label = episode_label_chars(&x);
                    let mut t = chars_of(" 行存在重复剧集：");
                    push_all(&mut t, &label);
                    proof {
                        lemma_parse_lines_err(all, (k + 1) as nat, all.len());
                    }
                    return Err(line_message_string(k + 1, &t));
                }
                let copy = copy_item(&x);
                seen.push(copy);
                assert(items_view(seen@) == before.push(x@));
                assert(items_view(seen@).drop_last() == before);
                insert_sorted(&mut sorted, x);
            },
        }
        k = k + 1;
    }
    if seen.len() == 0 {
        return Err(string_of(&chars_of("下载清单中没有可下载的剧集")));
    }
    Ok(sorted)
}

// ---------------------------------------------------------------------------
// Several lists
// ---------------------------------------------------------------------------

/// A TXT download list found under the chosen directory, as it was read.
#[derive(Debug)]
pub enum ListFile {
    /// The list's text; `display` is its path relative to the directory.
    Text { display: String, content: String },
    /// The list could not be read, for `reason`.
    Unreadable { display: String, reason: String },
}

/// `TXT 清单“{display}”` followed by `tail`.
pub open spec fn list_message(display: Seq<char>, tail: Seq<char>) -> Seq<char> {
    "TXT 清单“"@ + display + tail
}

/// `acc` extended by `xs` in order, or the error for the first item of `xs`
/// whose target is already taken.
pub open spec fn add_list_items(
    acc: Seq<DownloadItemView>,
    xs: Seq<DownloadItemView>,
    display: Seq<char>,
) -> Result<Seq<DownloadItemView>, Seq<char>>
    decreases xs.len(),
{
    if xs.len() == 0 {
        Ok(acc)
    } else if has_target(acc, xs[0]) {
        Err(list_message(display, "”存在跨文件重复剧集："@ + episode_label(xs[0])))
    } else {
        add_list_items(acc.push(xs[0]), xs.drop_first(), display)
    }
}

/// The items of the first `k` lists, in list order, or the first error.
pub open spec fn merge_lists(files: Seq<ListFile>, k: nat) -> Result<Seq<DownloadItemView>, Seq<char>>
    decreases k,
{
    if k == 0 {
        Ok(seq![])
    } else {
        match merge_lists(files, (k - 1) as nat) {
            Err(e) => Err(e),
            Ok(acc) => match files[k - 1] {
                ListFile::Unreadable { display, reason } => Err(
                    "无法读取 TXT 清单“"@ + display@ + "”："@ + reason@,
                ),
                ListFile::Text { display, content } => match download_list(content@) {
                    Err(e) => Err(list_message(display@, "”解析失败："@ + e)),
                    Ok(xs) => add_list_items(acc, xs, display@),
                },
            },
        }
    }
}

/// What the lists of a directory give: the error for a path that is not a
/// directory; else all their items sorted by series and episode, and the
/// number of lists; or the first error.
pub open spec fn download_lists(is_dir: bool, files: Seq<ListFile>) -> Result<(Seq<DownloadItemView>, nat), Seq<char>> {
    if !is_dir {
        Err("TXT 清单目录不存在或不是有效目录"@)
    } else if files.len() == 0 {
        Err("所选目录中没有 TXT 下载清单"@)
    } else {
        match merge_lists(files, files.len()) {
            Err(e) => Err(e),
            Ok(items) => Ok((sort_items(items), files.len())),
        }
    }
}

proof fn lemma_merge_lists_err(files: Seq<ListFile>, k: nat, k2: nat)
    requires
        k <= k2,
        merge_lists(files, k) is Err,
    ensures
        merge_lists(files, k2) == merge_lists(files, k),
    decreases k2 - k,
{
    if k < k2 {
        lemma_merge_lists_err(files, k, (k2 - 1) as nat);
    }
}

/// The characters of `a`, `b` and `c` in a row.
fn concat3(a: &[char], b: &[char], c: &[char]) -> (r: Vec<char>)
    ensures
        r@ == a@ + b@ + c@,
{
    let mut r = copy_range(a, 0, a.len());
    assert(a@.subrange(0, a@.len() as int) == a@);
    push_all(&mut r, b);
    push_all(&mut r, c);
    r
}

/// Reads the items of the lists of a directory: `is_dir` says whether the
/// path names a directory, `files` are the lists found under it, in path
/// order. Each list must parse, and no episode target may appear in two
/// lists. Gives all items sorted by series and episode, and the number of lists.
pub fn read_download_lists(is_dir: bool, files: &[ListFile]) -> (r: Result<(Vec<DownloadItem>, usize), String>)
    ensures
        match r {
            Ok((items, n)) => download_lists(is_dir, files@) == Ok::<_, Seq<char>>(
                (items_view(items@), n as nat),
            ),
            Err(e) => download_lists(is_dir, files@) == Err::<(Seq<DownloadItemView>, nat), _>(e@),
        },
{
    if !is_dir {
        return Err(string_of(&chars_of("TXT 清单目录不存在或不是有效目录")));
    }
    if files.len() == 0 {
        return Err(string_of(&chars_of("所选目录中没有 TXT 下载清单")));
    }
    let mut seen: Vec<DownloadItem> = Vec::new();
    let mut sorted: Vec<DownloadItem> = Vec::new();
    let mut k: usize = 0;
    assert(items_view(seen@) =~= seq![]);
    assert(items_view(sorted@) =~= seq![]);
    while k < files.len()
        invariant
            is_dir,
            k <= files@.len(),
            merge_lists(files@, k as nat) == Ok::<Seq<DownloadItemView>, Seq<char>>(
                items_view(seen@),
            ),
            items_view(sorted@) == sort_items(items_view(seen@)),
        decreases files.len() - k,
    {
        match &files[k] {
            ListFile::Unreadable { display, reason } => {
                let head = chars_of("无法读取 TXT 清单“");
                let mid = concat3(&head, &chars_of(display.as_str()), &chars_of("”："));
                let msg = concat3(&mid, &chars_of(reason.as_str()), &[]);
                assert(msg@ =~= "无法读取 TXT 清单“"@ + display@ + "”："@ + reason@);
                proof {
                    lemma_merge_lists_err(files@, (k + 1) as nat, files@.len());
                }
                return Err(string_of(&msg));
            },
            ListFile::Text { display, content } => {
                let display_chars = chars_of(display.as_str());
                let xs = match parse_download_list(content.as_str()) {
                    Ok(xs) => xs,
                    Err(e) => {
                        let mut tail = chars_of("”解析失败：");
                        push_all(&mut tail, &chars_of(e.as_str()));
                        let msg = concat3(&chars_of("TXT 清单“"), &display_chars, &tail);
                        proof {
                            lemma_merge_lists_err(files@, (k + 1) as nat, files@.len());
                        }
                        return Err(string_of(&msg));
                    },
                };
                let ghost xv = items_view(xs@);
                let ghost acc0 = items_view(seen@);
                let mut j: usize = 0;
                assert(xv.skip(0) == xv);
                while j < xs.len()
                    invariant
                        is_dir,
                        k < files@.len(),
                        files@[k as int] == (ListFile::Text { display: *display, content: *content }),
                        display_chars@ == display@,
                        j <= xs@.len(),
                        xv == items_view(xs@),
                        add_list_items(acc0, xv, display@) == add_list_items(
                            items_view(seen@),
                            xv.skip(j as int),
                            display@,
                        ),
                        merge_lists(files@, (k + 1) as nat) == add_list_items(acc0, xv, display@),
                        items_view(sorted@) == sort_items(items_view(seen@)),
                    decreases xs.len() - j,
                {
                    let x = &xs[j];
                    assert(xv.skip(j as int)[0] == x@);
                    if find_target(&seen, x) {
                        let mut tail = chars_of("”存在跨文件重复剧集：");
                        push_all(&mut tail, &episode_label_chars(x));
                        let msg = concat3(&chars_of("TXT 清单“"), &display_chars, &tail);
                        proof {
                            lemma_merge_lists_err(files@, (k + 1) as nat, files@.len());
                        }
                        return Err(string_of(&msg));
                    }
                    let ghost before = items_view(seen@);
                    seen.push(copy_item(x));
                    assert(items_view(seen@) == before.push(x@));
                    assert(items_view(seen@).drop_last() == before);
                    insert_sorted(&mut sorted, copy_item(x));
                    assert(xv.skip(j as int).drop_first() == xv.skip(j + 1));
                    j = j + 1;
                }
                assert(xv.skip(j as int).len() == 0);
            },
        }
        k = k + 1;
    }
    Ok((sorted, files.len()))
}

// ---------------------------------------------------------------------------
// Summary
// ---------------------------------------------------------------------------

/// `counts` (sorted by name) with one more episode of series `name`: its
/// count goes up by one, or it is inserted in name order with count one.
pub open spec fn add_name(counts: Seq<(Seq<char>, nat)>, name: Seq<char>) -> Seq<(Seq<char>, nat)>
    decreases counts.len(),
{
    if counts.len() == 0 {
        seq![(name, 1nat)]
    } else if counts[0].0 == name {
        counts.update(0, (name, counts[0].1 + 1))
    } else if chars_lt(name, counts[0].0) {
        seq![(name, 1nat)] + counts
    } else {
        seq![counts[0]] + add_name(counts.drop_first(), name)
    }
}

/// The number of episodes of each series in `items`, in name order
/// (what counting into a `BTreeMap` gives).
pub open spec fn series_counts(items: Seq<DownloadItemView>) -> Seq<(Seq<char>, nat)>
    decreases items.len(),
{
    if items.len() == 0 {
        seq![]
    } else {
        add_name(series_counts(items.drop_last()), items.last().series_name)
    }
}

/// The sum of the counts.
pub open spec fn total_count(counts: Seq<(Seq<char>, nat)>) -> nat
    decreases counts.len(),
{
    if counts.len() == 0 {
        0
    } else {
        counts[0].1 + total_count(counts.drop_first())
    }
}

pub open spec fn summaries_view(v: Seq<SeriesDownloadSummary>) -> Seq<(Seq<char>, nat)> {
    v.map_values(|s: SeriesDownloadSummary| (s.name@, s.episode_count as nat))
}

proof fn lemma_total_add_name(counts: Seq<(Seq<char>, nat)>, name: Seq<char>)
    ensures
        total_count(add_name(counts, name)) == total_count(counts) + 1,
    decreases counts.len(),
{
    if counts.len() == 0 {
        assert(seq![(name, 1nat)].drop_first() =~= Seq::<(Seq<char>, nat)>::empty());
        assert(total_count(Seq::<(Seq<char>, nat)>::empty()) == 0);
    } else if counts[0].0 == name {
        assert(counts.update(0, (name, counts[0].1 + 1)).drop_first() == counts.drop_first());
    } else if chars_lt(name, counts[0].0) {
        assert((seq![(name, 1nat)] + counts).drop_first() == counts);
    } else {
        lemma_total_add_name(counts.drop_first(), name);
        assert((seq![counts[0]] + add_name(counts.drop_first(), name)).drop_first() == add_name(
            counts.drop_first(),
            name,
        ));
    }
}

proof fn lemma_count_le_total(counts: Seq<(Seq<char>, nat)>, i: int)
    requires
        0 <= i < counts.len(),
    ensures
        counts[i].1 <= total_count(counts),
    decreases counts.len(),
{
    if i > 0 {
        lemma_count_le_total(counts.drop_first(), i - 1);
    }
}

pub proof fn lemma_series_counts_total(items: Seq<DownloadItemView>)
    ensures
        total_count(series_counts(items)) == items.len(),
    decreases items.len(),
{
    if items.len() > 0 {
        lemma_series_counts_total(items.drop_last());
        lemma_total_add_name(series_counts(items.drop_last()), items.last().series_name);
    }
}

/// Counts one more episode of series `name` into `counts`.
fn add_series(counts: &mut Vec<SeriesDownloadSummary>, name: &String, limit: Ghost<nat>)
    requires
        total_count(summaries_view(old(counts)@)) < limit@,
        limit@ <= usize::MAX,
    ensures
        summaries_view(final(counts)@) == add_name(summaries_view(old(counts)@), name@),
{
    let ghost c = summaries_view(counts@);
    let name_chars = chars_of(name.as_str());
    let mut p: usize = 0;
    assert(c.skip(0) == c);
    while p < counts.len() && !(counts[p].name == *name) && !chars_less(
        &name_chars,
        &chars_of(counts[p].name.as_str()),
    )
        invariant
            p <= counts@.len(),
            c == summaries_view(counts@),
            name_chars@ == name@,
            add_name(c, name@) == c.take(p as int) + add_name(c.skip(p as int), name@),
        decreases counts.len() - p,
    {
        let ghost d = c.skip(p as int);
        assert(d[0] == c[p as int]);
        assert(d.drop_first() == c.skip(p + 1));
        assert(c.take(p + 1) == c.take(p as int).push(d[0]));
        p = p + 1;
    }
    let ghost d = c.skip(p as int);
    if p < counts.len() {
        assert(d[0] == c[p as int]);
    }
    if p < counts.len() && counts[p].name == *name {
        proof {
            lemma_count_le_total(c, p as int);
        }
        let n = counts[p].episode_count + 1;
        let entry = SeriesDownloadSummary { name: name.clone(), episode_count: n };
        counts.set(p, entry);
        assert(summaries_view(counts@) =~= c.take(p as int) + d.update(0, (name@, d[0].1 + 1)));
    } else {
        counts.insert(p, SeriesDownloadSummary { name: name.clone(), episode_count: 1 });
        if p < counts.len() - 1 {
            assert(summaries_view(counts@) =~= c.take(p as int) + (seq![(name@, 1nat)] + d));
        } else {
            assert(d.len() == 0);
            assert(summaries_view(counts@) =~= c.take(p as int) + seq![(name@, 1nat)]);
        }
    }
}

/// The summary of a set of download items: the number of lists, of
/// episodes, and the episode count of each series in name order.
pub fn build_summary(items: &[DownloadItem], file_count: usize) -> (r: SeriesDownloadListSummary)
    ensures
        r.file_count == file_count,
        r.episode_count == items@.len(),
        summaries_view(r.series@) == series_counts(items_view(items@)),
{
    let mut counts: Vec<SeriesDownloadSummary> = Vec::new();
    let mut k: usize = 0;
    assert(summaries_view(counts@) =~= seq![]);
    while k < items.len()
        invariant
            k <= items@.len(),
            summaries_view(counts@) == series_counts(items_view(items@.take(k as int))),
        decreases items.len() - k,
    {
        let ghost before = items_view(items@.take(k as int));
        proof {
            lemma_series_counts_total(before);
        }
        add_series(&mut counts, &items[k].series_name, Ghost((k + 1) as nat));
        assert(items_view(items@.take(k + 1)).drop_last() == before);
        assert(items_view(items@.take(k + 1)).last() == items@[k as int]@);
        k = k + 1;
    }
    assert(items@.take(items@.len() as int) == items@);
    SeriesDownloadListSummary { file_count, episode_count: items.len(), series: counts }
}

/// Summarises the download lists of a directory (`is_dir` says whether the
/// path names one; `files` are its lists in path order): the number of lists
/// and episodes, and each series' episode count.
pub fn inspect_series_download_directory(is_dir: bool, files: &[ListFile]) -> (r: Result<
    SeriesDownloadListSummary,
    String,
>)
    ensures
        match download_lists(is_dir, files@) {
            Ok((items, n)) => r matches Ok(summary) && summary.file_count == n
                && summary.episode_count == items.len() && summaries_view(summary.series@)
                == series_counts(items),
            Err(e) => r matches Err(m) && m@ == e,
        },
{
    match read_download_lists(is_dir, files) {
        Ok((items, n)) => Ok(build_summary(&items, n)),
        Err(e) => Err(e),
    }
}

} // verus!
