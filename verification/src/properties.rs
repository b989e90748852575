//! Properties of the library that hold across its functions: what a parsed
//! download list always looks like, and what the summaries and listings
//! always satisfy.
use vstd::prelude::*;

use crate::download::{
    columns, directory_name_for, download_list, first_url_column, line_text, download_lists, has_target, insert_pos, is_url, item_lt,
    line_entry, parse_lines, add_list_items, directory_char, is_reserved_name_char, episode_marker, episode_title, rfind, add_name, series_counts, total_count, merge_lists, ListFile, same_target, sort_items, DownloadItemView, LineEntry,
};
use crate::listing::{
    components_lt, files_of_kind, is_kind, listed_files, path_insert_pos, path_lt, sort_paths,
    PathOrder, PreviewKind,
};
use crate::paths::{
    batch_pdf_output, directory_part, file_name, image_extensions, image_format_for, last_dot,
    name_extension, name_stem, normal_parts, path_extension, slash_display, ImageFormat,
};
use crate::batch::{tally_step, video_report, FileOutcome, VideoBatch};
use crate::models::{BatchVideoWatermarkProgressPayload, SeriesDownloadProgressPayload};
use crate::recut::is_numbered;
use crate::download::DownloadItem;
use crate::series::{directory_names, download_report, names_episode, series_count, DownloadRun};
use crate::validation::normalized_directory;
use crate::series::episode_file_text;
use crate::text::{
    lemma_char_code, lemma_chars_lt_asymmetric, lemma_chars_lt_irreflexive,
    lemma_chars_lt_transitive, split_on, chars_lt, decimal_text, is_digit, is_white_space,
    lemma_decimal_text_digits, law_parse_decimal_text, class_has, is_control, lemma_find_char_at,
    parse_usize, ascii_lower_seq, find_char, lemma_find_char, decimal_value, unsigned_digits, strip_end, strip_start, trim, CharClass,
};

verus! {

broadcast use vstd::seq_lib::to_multiset_build, vstd::seq_lib::to_multiset_insert,
    vstd::seq_lib::to_multiset_contains;

// ---------------------------------------------------------------------------
// The order of items
// ---------------------------------------------------------------------------

/// No item sorts before an item that comes earlier.
pub open spec fn items_sorted(s: Seq<DownloadItemView>) -> bool {
    forall|i: int, j: int| 0 <= i < j < s.len() ==> !item_lt(#[trigger] s[j], #[trigger] s[i])
}

/// No two items are saved to the same file.
pub open spec fn targets_unique(s: Seq<DownloadItemView>) -> bool {
    forall|i: int, j: int| 0 <= i < j < s.len() ==> !same_target(#[trigger] s[i], #[trigger] s[j])
}

/// An item as a list line gives it: an http(s) address, a series name that
/// is not empty, its directory name, and a positive episode number.
pub open spec fn item_valid(x: DownloadItemView) -> bool {
    &&& is_url(x.url)
    &&& x.series_name.len() > 0
    &&& directory_name_for(x.series_name) == Some(x.directory_name)
    &&& x.episode > 0
}

proof fn lemma_item_lt_irreflexive(a: DownloadItemView)
    ensures
        !item_lt(a, a),
{
    lemma_chars_lt_irreflexive(a.series_name);
}

proof fn lemma_item_lt_transitive(a: DownloadItemView, b: DownloadItemView, c: DownloadItemView)
    requires
        item_lt(a, b),
        item_lt(b, c),
    ensures
        item_lt(a, c),
{
    if chars_lt_names(a, b) && chars_lt_names(b, c) {
        lemma_chars_lt_transitive(a.series_name, b.series_name, c.series_name);
    }
}

spec fn chars_lt_names(a: DownloadItemView, b: DownloadItemView) -> bool {
    crate::text::chars_lt(a.series_name, b.series_name)
}

proof fn lemma_insert_pos_facts(t: Seq<DownloadItemView>, x: DownloadItemView)
    ensures
        insert_pos(t, x) <= t.len(),
        forall|k: int| 0 <= k < insert_pos(t, x) ==> !item_lt(x, #[trigger] t[k]),
        insert_pos(t, x) < t.len() ==> item_lt(x, t[insert_pos(t, x) as int]),
    decreases t.len(),
{
    if t.len() > 0 && !item_lt(x, t[0]) {
        let d = t.drop_first();
        lemma_insert_pos_facts(d, x);
        assert forall|k: int| 0 <= k < insert_pos(t, x) implies !item_lt(x, #[trigger] t[k]) by {
            if k > 0 {
                assert(t[k] == d[k - 1]);
            }
        }
        if insert_pos(t, x) < t.len() {
            assert(t[insert_pos(t, x) as int] == d[insert_pos(d, x) as int]);
        }
    }
}

proof fn lemma_sort_items_sorted(s: Seq<DownloadItemView>)
    ensures
        items_sorted(sort_items(s)),
        sort_items(s).len() == s.len(),
    decreases s.len(),
{
    if s.len() > 0 {
        let t = sort_items(s.drop_last());
        let x = s.last();
        lemma_sort_items_sorted(s.drop_last());
        lemma_insert_pos_facts(t, x);
        let p = insert_pos(t, x) as int;
        let u = t.insert(p, x);
        assert(u.len() == t.len() + 1);
        assert forall|i: int, j: int| 0 <= i < j < u.len() implies !item_lt(
            #[trigger] u[j],
            #[trigger] u[i],
        ) by {
            if j < p {
                assert(u[i] == t[i] && u[j] == t[j]);
            } else if j == p {
                assert(u[i] == t[i] && u[j] == x);
            } else if i < p {
                assert(u[i] == t[i] && u[j] == t[j - 1]);
            } else if i == p {
                assert(u[i] == x && u[j] == t[j - 1]);
                if item_lt(t[j - 1], x) {
                    lemma_item_lt_transitive(t[j - 1], x, t[p]);
                    if j - 1 == p {
                        lemma_item_lt_irreflexive(t[p]);
                    }
                }
            } else {
                assert(u[i] == t[i - 1] && u[j] == t[j - 1]);
            }
        }
    }
}

proof fn lemma_sort_items_multiset(s: Seq<DownloadItemView>)
    ensures
        sort_items(s).to_multiset() == s.to_multiset(),
    decreases s.len(),
{
    if s.len() > 0 {
        lemma_sort_items_multiset(s.drop_last());
        let t = sort_items(s.drop_last());
        lemma_insert_pos_facts(t, s.last());
        assert(s.drop_last().push(s.last()) == s);
    }
}

/// Sorting items puts them in series and episode order, and keeps exactly
/// the items it was given, each as often.
pub proof fn law_sort_items(s: Seq<DownloadItemView>)
    ensures
        items_sorted(sort_items(s)),
        sort_items(s).to_multiset() == s.to_multiset(),
{
    lemma_sort_items_sorted(s);
    lemma_sort_items_multiset(s);
}

/// An element of a sequence is an element of any sequence with the same
/// multiset.
proof fn lemma_same_multiset_contains(a: Seq<DownloadItemView>, b: Seq<DownloadItemView>, i: int)
    requires
        a.to_multiset() == b.to_multiset(),
        0 <= i < a.len(),
    ensures
        exists|j: int| 0 <= j < b.len() && b[j] == a[i],
{
    assert(a.contains(a[i]));
    assert(a.to_multiset().count(a[i]) > 0);
    assert(b.to_multiset().count(a[i]) > 0);
    assert(b.contains(a[i]));
}

/// A pairwise property of `a` that does not depend on order holds of `b`
/// when the two hold the same items.
proof fn lemma_unique_after_sort(s: Seq<DownloadItemView>)
    requires
        targets_unique(s),
    ensures
        targets_unique(sort_items(s)),
    decreases s.len(),
{
    if s.len() > 0 {
        let d = s.drop_last();
        let x = s.last();
        assert(targets_unique(d)) by {
            assert forall|i: int, j: int| 0 <= i < j < d.len() implies !same_target(
                #[trigger] d[i],
                #[trigger] d[j],
            ) by {
                assert(d[i] == s[i] && d[j] == s[j]);
            }
        }
        lemma_unique_after_sort(d);
        let t = sort_items(d);
        lemma_sort_items_multiset(d);
        lemma_sort_items_sorted(d);
        lemma_insert_pos_facts(t, x);
        let p = insert_pos(t, x) as int;
        let u = t.insert(p, x);
        assert forall|k: int| 0 <= k < t.len() implies !same_target(#[trigger] t[k], x) by {
            lemma_same_multiset_contains(t, d, k);
            let j = choose|j: int| 0 <= j < d.len() && d[j] == t[k];
            assert(s[j] == d[j] && s[s.len() - 1] == x);
            if same_target(t[k], x) {
                assert(same_target(s[j], s[s.len() - 1]));
            }
        }
        assert forall|i: int, j: int| 0 <= i < j < u.len() implies !same_target(
            #[trigger] u[i],
            #[trigger] u[j],
        ) by {
            if j < p {
                assert(u[i] == t[i] && u[j] == t[j]);
            } else if j == p {
                assert(u[i] == t[i] && u[j] == x);
            } else if i < p {
                assert(u[i] == t[i] && u[j] == t[j - 1]);
            } else if i == p {
                assert(u[i] == x && u[j] == t[j - 1]);
                assert(!same_target(t[j - 1], x));
            } else {
                assert(u[i] == t[i - 1] && u[j] == t[j - 1]);
            }
        }
    }
}

// ---------------------------------------------------------------------------
// Download lists
// ---------------------------------------------------------------------------

proof fn lemma_parse_lines(lines: Seq<Seq<char>>, k: nat)
    requires
        k <= lines.len(),
    ensures
        parse_lines(lines, k) matches Ok(items) ==> targets_unique(items) && forall|i: int|
            0 <= i < items.len() ==> item_valid(#[trigger] items[i]),
    decreases k,
{
    if k > 0 {
        lemma_parse_lines(lines, (k - 1) as nat);
        if let Ok(items) = parse_lines(lines, (k - 1) as nat) {
            if let LineEntry::Entry(x) = line_entry(lines[k - 1], k) {
                if !has_target(items, x) {
                    let n = items.push(x);
                    lemma_line_entry_valid(lines[k - 1], k);
                    assert forall|i: int, j: int| 0 <= i < j < n.len() implies !same_target(
                        #[trigger] n[i],
                        #[trigger] n[j],
                    ) by {
                        if j == items.len() {
                            assert(n[j] == x && n[i] == items[i]);
                            if same_target(items[i], x) {
                                assert(has_target(items, x));
                            }
                        } else {
                            assert(n[i] == items[i] && n[j] == items[j]);
                        }
                    }
                    assert forall|i: int| 0 <= i < n.len() implies item_valid(#[trigger] n[i]) by {
                        if i < items.len() {
                            assert(n[i] == items[i]);
                        }
                    }
                }
            }
        }
    }
}

proof fn lemma_first_url_column(cols: Seq<Seq<char>>)
    ensures
        first_url_column(cols) matches Some(u) ==> 0 <= u < cols.len() && is_url(cols[u]),
    decreases cols.len(),
{
    if cols.len() > 0 && !is_url(cols[0]) {
        lemma_first_url_column(cols.drop_first());
        if let Some(u) = first_url_column(cols.drop_first()) {
            assert(cols[u + 1] == cols.drop_first()[u]);
        }
    }
}

proof fn lemma_line_entry_valid(raw: Seq<char>, n: nat)
    ensures
        line_entry(raw, n) matches LineEntry::Entry(x) ==> item_valid(x),
{
    lemma_first_url_column(columns(line_text(raw)));
}

/// A download list that parses gives items in series and episode order, no
/// two of them saved to the same file, each with an http(s) address, a
/// series name, its directory name and a positive episode number; they are
/// the entries of the list's lines.
pub proof fn law_download_list(content: Seq<char>)
    ensures
        download_list(content) matches Ok(items) ==> items.len() > 0 && items_sorted(items)
            && targets_unique(items) && forall|i: int|
            0 <= i < items.len() ==> item_valid(#[trigger] items[i]),
{
    let lines = split_on(content, '\n');
    lemma_parse_lines(lines, lines.len());
    if let Ok(raw) = parse_lines(lines, lines.len()) {
        if raw.len() > 0 {
            law_sort_items(raw);
            lemma_unique_after_sort(raw);
            lemma_sort_items_sorted(raw);
            let sorted = sort_items(raw);
            assert forall|i: int| 0 <= i < sorted.len() implies item_valid(#[trigger] sorted[i]) by {
                lemma_same_multiset_contains(sorted, raw, i);
            }
        }
    }
}

/// Items that keep the list properties: unique targets, each valid.
pub open spec fn items_well_formed(s: Seq<DownloadItemView>) -> bool {
    targets_unique(s) && forall|i: int| 0 <= i < s.len() ==> item_valid(#[trigger] s[i])
}

proof fn lemma_add_list_items(acc: Seq<DownloadItemView>, xs: Seq<DownloadItemView>, display: Seq<char>)
    requires
        items_well_formed(acc),
        forall|i: int| 0 <= i < xs.len() ==> item_valid(#[trigger] xs[i]),
    ensures
        add_list_items(acc, xs, display) matches Ok(r) ==> items_well_formed(r),
    decreases xs.len(),
{
    if xs.len() > 0 && !has_target(acc, xs[0]) {
        let n = acc.push(xs[0]);
        assert forall|i: int, j: int| 0 <= i < j < n.len() implies !same_target(
            #[trigger] n[i],
            #[trigger] n[j],
        ) by {
            if j == acc.len() {
                assert(n[j] == xs[0] && n[i] == acc[i]);
                if same_target(acc[i], xs[0]) {
                    assert(has_target(acc, xs[0]));
                }
            } else {
                assert(n[i] == acc[i] && n[j] == acc[j]);
            }
        }
        assert forall|i: int| 0 <= i < n.len() implies item_valid(#[trigger] n[i]) by {
            if i < acc.len() {
                assert(n[i] == acc[i]);
            } else {
                assert(n[i] == xs[0]);
            }
        }
        let d = xs.drop_first();
        assert forall|i: int| 0 <= i < d.len() implies item_valid(#[trigger] d[i]) by {
            assert(d[i] == xs[i + 1]);
        }
        lemma_add_list_items(n, d, display);
    }
}

proof fn lemma_merge_lists(files: Seq<ListFile>, k: nat)
    requires
        k <= files.len(),
    ensures
        merge_lists(files, k) matches Ok(r) ==> items_well_formed(r),
    decreases k,
{
    if k > 0 {
        lemma_merge_lists(files, (k - 1) as nat);
        if let Ok(acc) = merge_lists(files, (k - 1) as nat) {
            if let ListFile::Text { display, content } = files[k - 1] {
                law_download_list(content@);
                if let Ok(xs) = download_list(content@) {
                    lemma_add_list_items(acc, xs, display@);
                }
            }
        }
    }
}

/// The lists of a directory that all parse, with no episode in two of them,
/// give their items in series and episode order, no two saved to the same
/// file, each with an http(s) address, a series name, its directory name
/// and a positive episode number.
pub proof fn law_download_lists(is_dir: bool, files: Seq<ListFile>)
    ensures
        download_lists(is_dir, files) matches Ok((items, n)) ==> n == files.len() && items_sorted(items)
            && targets_unique(items) && forall|i: int|
            0 <= i < items.len() ==> item_valid(#[trigger] items[i]),
{
    if is_dir && files.len() > 0 {
        lemma_merge_lists(files, files.len());
        if let Ok(raw) = merge_lists(files, files.len()) {
            law_sort_items(raw);
            lemma_unique_after_sort(raw);
            let sorted = sort_items(raw);
            assert forall|i: int| 0 <= i < sorted.len() implies item_valid(#[trigger] sorted[i]) by {
                lemma_same_multiset_contains(sorted, raw, i);
            }
        }
    }
}

// ---------------------------------------------------------------------------
// Summaries
// ---------------------------------------------------------------------------

/// The number of items of series `name`.
pub open spec fn name_count(items: Seq<DownloadItemView>, name: Seq<char>) -> nat
    decreases items.len(),
{
    if items.len() == 0 {
        0
    } else {
        name_count(items.drop_last(), name) + if items.last().series_name == name {
            1nat
        } else {
            0nat
        }
    }
}

/// The count listed for `name`, or zero when it is not listed.
pub open spec fn lookup(counts: Seq<(Seq<char>, nat)>, name: Seq<char>) -> nat
    decreases counts.len(),
{
    if counts.len() == 0 {
        0
    } else if counts[0].0 == name {
        counts[0].1
    } else {
        lookup(counts.drop_first(), name)
    }
}

/// Names in strictly increasing order, each with a positive count.
pub open spec fn counts_well_formed(counts: Seq<(Seq<char>, nat)>) -> bool {
    &&& forall|i: int, j: int|
        0 <= i < j < counts.len() ==> chars_lt(#[trigger] counts[i].0, #[trigger] counts[j].0)
    &&& forall|i: int| 0 <= i < counts.len() ==> (#[trigger] counts[i]).1 > 0
}

proof fn lemma_lookup_absent(counts: Seq<(Seq<char>, nat)>, name: Seq<char>)
    requires
        counts_well_formed(counts),
        counts.len() > 0,
        chars_lt(name, counts[0].0),
    ensures
        lookup(counts, name) == 0,
    decreases counts.len(),
{
    lemma_chars_lt_irreflexive(name);
    assert(counts[0].0 != name);
    let d = counts.drop_first();
    assert(lookup(counts, name) == lookup(d, name));
    if d.len() > 0 {
        assert(d[0] == counts[1]);
        lemma_chars_lt_transitive(name, counts[0].0, counts[1].0);
        assert forall|i: int, j: int| 0 <= i < j < d.len() implies chars_lt(
            #[trigger] d[i].0,
            #[trigger] d[j].0,
        ) by {
            assert(d[i] == counts[i + 1] && d[j] == counts[j + 1]);
        }
        assert forall|i: int| 0 <= i < d.len() implies (#[trigger] d[i]).1 > 0 by {
            assert(d[i] == counts[i + 1]);
        }
        lemma_lookup_absent(d, name);
    }
}

proof fn lemma_add_name(counts: Seq<(Seq<char>, nat)>, name: Seq<char>)
    requires
        counts_well_formed(counts),
    ensures
        counts_well_formed(add_name(counts, name)),
        forall|n: Seq<char>|
            #![trigger lookup(add_name(counts, name), n)]
            lookup(add_name(counts, name), n) == lookup(counts, n) + if n == name {
                1nat
            } else {
                0nat
            },
        forall|i: int|
            0 <= i < add_name(counts, name).len() ==> (#[trigger] add_name(counts, name)[i]).0
                == name || exists|j: int| 0 <= j < counts.len() && counts[j].0 == add_name(
                counts,
                name,
            )[i].0,
    decreases counts.len(),
{
    let r = add_name(counts, name);
    if counts.len() == 0 {
        assert(r == seq![(name, 1nat)]);
        assert forall|n: Seq<char>| #![trigger lookup(r, n)] lookup(r, n) == lookup(counts, n)
            + if n == name {
            1nat
        } else {
            0nat
        } by {
            assert(r.drop_first().len() == 0);
            assert(lookup(r.drop_first(), n) == 0);
            assert(lookup(counts, n) == 0);
        }
    } else if counts[0].0 == name {
        assert(r.drop_first() == counts.drop_first());
        assert forall|i: int, j: int| 0 <= i < j < r.len() implies chars_lt(
            #[trigger] r[i].0,
            #[trigger] r[j].0,
        ) by {
            assert(counts[i].0 == r[i].0 && counts[j].0 == r[j].0);
        }
        assert forall|i: int| 0 <= i < r.len() implies (#[trigger] r[i]).0 == name || exists|
            j: int,
        | 0 <= j < counts.len() && counts[j].0 == r[i].0 by {
            assert(counts[i].0 == r[i].0);
        }
        assert forall|i: int| 0 <= i < r.len() implies (#[trigger] r[i]).1 > 0 by {
            if i > 0 {
                assert(r[i] == counts[i]);
            }
        }
    } else if chars_lt(name, counts[0].0) {
        let d = r.drop_first();
        assert(d == counts);
        assert forall|n: Seq<char>| #![trigger lookup(r, n)] lookup(r, n) == lookup(counts, n)
            + if n == name {
            1nat
        } else {
            0nat
        } by {
            if n == name {
                lemma_lookup_absent(counts, name);
            }
        }
        assert forall|i: int, j: int| 0 <= i < j < r.len() implies chars_lt(
            #[trigger] r[i].0,
            #[trigger] r[j].0,
        ) by {
            if i == 0 {
                assert(r[j] == counts[j - 1]);
                if j - 1 > 0 {
                    lemma_chars_lt_transitive(name, counts[0].0, counts[j - 1].0);
                }
            } else {
                assert(r[i] == counts[i - 1] && r[j] == counts[j - 1]);
            }
        }
        assert forall|i: int| 0 <= i < r.len() implies (#[trigger] r[i]).0 == name || exists|
            j: int,
        | 0 <= j < counts.len() && counts[j].0 == r[i].0 by {
            if i > 0 {
                assert(r[i] == counts[i - 1]);
            }
        }
        assert forall|i: int| 0 <= i < r.len() implies (#[trigger] r[i]).1 > 0 by {
            if i > 0 {
                assert(r[i] == counts[i - 1]);
            }
        }
    } else {
        let d = counts.drop_first();
        assert forall|i: int, j: int| 0 <= i < j < d.len() implies chars_lt(
            #[trigger] d[i].0,
            #[trigger] d[j].0,
        ) by {
            assert(d[i] == counts[i + 1] && d[j] == counts[j + 1]);
        }
        assert forall|i: int| 0 <= i < d.len() implies (#[trigger] d[i]).1 > 0 by {
            assert(d[i] == counts[i + 1]);
        }
        lemma_add_name(d, name);
        let a = add_name(d, name);
        assert(r == seq![counts[0]] + a);
        assert(r.drop_first() == a);
        lemma_chars_lt_total_or(name, counts[0].0);
        assert forall|i: int, j: int| 0 <= i < j < r.len() implies chars_lt(
            #[trigger] r[i].0,
            #[trigger] r[j].0,
        ) by {
            if i == 0 {
                assert(r[j] == a[j - 1]);
                if a[j - 1].0 != name {
                    let k = choose|k: int| 0 <= k < d.len() && d[k].0 == a[j - 1].0;
                    assert(d[k] == counts[k + 1]);
                }
            } else {
                assert(r[i] == a[i - 1] && r[j] == a[j - 1]);
            }
        }
        assert forall|i: int| 0 <= i < r.len() implies (#[trigger] r[i]).0 == name || exists|
            j: int,
        | 0 <= j < counts.len() && counts[j].0 == r[i].0 by {
            if i > 0 {
                assert(r[i] == a[i - 1]);
                if a[i - 1].0 != name {
                    let k = choose|k: int| 0 <= k < d.len() && d[k].0 == a[i - 1].0;
                    assert(d[k] == counts[k + 1]);
                }
            }
        }
        assert forall|i: int| 0 <= i < r.len() implies (#[trigger] r[i]).1 > 0 by {
            if i > 0 {
                assert(r[i] == a[i - 1]);
            }
        }
        assert forall|n: Seq<char>| #![trigger lookup(r, n)] lookup(r, n) == lookup(counts, n)
            + if n == name {
            1nat
        } else {
            0nat
        } by {
            assert(lookup(a, n) == lookup(d, n) + if n == name {
                1nat
            } else {
                0nat
            });
        }
    }
}

/// Two different sequences: one of them sorts before the other.
proof fn lemma_chars_lt_total_or(a: Seq<char>, b: Seq<char>)
    requires
        a != b,
        !chars_lt(a, b),
    ensures
        chars_lt(b, a),
{
    if !chars_lt(b, a) {
        crate::text::lemma_chars_lt_total(a, b);
    }
}

/// A summary lists each series once, in name order, with the number of
/// items of that series; series without items are not listed; and the
/// counts add up to the number of items.
pub proof fn law_series_counts(items: Seq<DownloadItemView>)
    ensures
        counts_well_formed(series_counts(items)),
        forall|n: Seq<char>| #[trigger] lookup(series_counts(items), n) == name_count(items, n),
        total_count(series_counts(items)) == items.len(),
    decreases items.len(),
{
    crate::download::lemma_series_counts_total(items);
    if items.len() > 0 {
        law_series_counts(items.drop_last());
        let c = series_counts(items.drop_last());
        lemma_add_name(c, items.last().series_name);
        assert forall|n: Seq<char>| #[trigger] lookup(series_counts(items), n) == name_count(
            items,
            n,
        ) by {
            assert(lookup(c, n) == name_count(items.drop_last(), n));
        }
    }
}

// ---------------------------------------------------------------------------
// Episode titles
// ---------------------------------------------------------------------------

/// A text whose ends are not white space is its own trim.
proof fn lemma_trim_unchanged(s: Seq<char>)
    requires
        s.len() > 0,
        !is_white_space(s[0]),
        !is_white_space(s.last()),
    ensures
        trim(s) == s,
{
    assert(strip_start(s, CharClass::WhiteSpace) == s);
    assert(strip_end(s, CharClass::WhiteSpace) == s);
}

/// `rfind` finds `pat` at `i` when no later window holds it.
proof fn lemma_rfind_at(s: Seq<char>, pat: Seq<char>, i: int)
    requires
        0 <= i,
        i + pat.len() <= s.len(),
        s.subrange(i, i + pat.len()) == pat,
        forall|j: int|
            i < j && j + pat.len() <= s.len() ==> #[trigger] s.subrange(j, j + pat.len()) != pat,
    ensures
        rfind(s, pat) == Some(i),
    decreases s.len(),
{
    if s.len() == i + pat.len() {
        assert(s.skip(s.len() - pat.len()) == s.subrange(i, i + pat.len()));
    } else {
        let j = s.len() - pat.len();
        assert(s.skip(j) == s.subrange(j, j + pat.len()));
        let d = s.drop_last();
        assert(d.subrange(i, i + pat.len()) == s.subrange(i, i + pat.len()));
        assert forall|k: int| i < k && k + pat.len() <= d.len() implies #[trigger] d.subrange(
            k,
            k + pat.len(),
        ) != pat by {
            assert(d.subrange(k, k + pat.len()) == s.subrange(k, k + pat.len()));
        }
        lemma_rfind_at(d, pat, i);
    }
}

/// The title written for a series name and an episode number.
pub open spec fn episode_title_text(name: Seq<char>, episode: usize) -> Seq<char> {
    name + episode_marker() + decimal_text(episode as nat) + "集"@
}

/// Reading back a title `剧名 - 第N集` written for a trimmed, non-empty
/// series name and a positive episode number gives that name and number.
pub proof fn law_episode_title_roundtrip(name: Seq<char>, episode: usize)
    requires
        name.len() > 0,
        trim(name) == name,
        episode > 0,
    ensures
        episode_title(episode_title_text(name, episode)) == Some((name, episode)),
{
    reveal_strlit(" - 第");
    reveal_strlit("集");
    let m = episode_marker();
    let d = decimal_text(episode as nat);
    lemma_decimal_text_digits(episode as nat);
    law_parse_decimal_text(episode);
    let t = episode_title_text(name, episode);
    let i = name.len() as int;
    assert(m == seq![' ', '-', ' ', '第']);
    assert(t.subrange(i, i + 4) == m);
    assert(forall|k: int| 0 <= k < d.len() ==> t[i + 4 + k] == d[k]);
    assert(t[t.len() - 1] == '集');
    assert forall|j: int| i < j && j + m.len() <= t.len() implies #[trigger] t.subrange(
        j,
        j + m.len(),
    ) != m by {
        if j == i + 1 {
            assert(t.subrange(j, j + 4)[0] == '-');
        } else if j == i + 2 {
            assert(t.subrange(j, j + 4)[1] == '第');
        } else if j == i + 3 {
            assert(t.subrange(j, j + 4)[0] == '第');
        } else if j < t.len() - 1 {
            assert(is_digit(d[j - i - 4]));
            assert(t.subrange(j, j + 4)[0] == d[j - i - 4]);
        } else {
            assert(t.subrange(j, j + 4)[0] == '集');
        }
    }
    lemma_rfind_at(t, m, i);
    assert(t.take(i) == name);
    let rest = t.skip(i + 4);
    assert(rest == d + seq!['集']);
    assert(is_digit(d[0]));
    lemma_trim_unchanged(rest);
    assert(rest.drop_last() == d);
    assert(is_digit(d[d.len() - 1]));
    lemma_trim_unchanged(d);
}

proof fn lemma_zeros_value(z: Seq<char>)
    requires
        forall|i: int| 0 <= i < z.len() ==> z[i] == '0',
    ensures
        decimal_value(z) == 0,
    decreases z.len(),
{
    if z.len() > 0 {
        lemma_zeros_value(z.drop_last());
    }
}

proof fn lemma_leading_zeros_value(z: Seq<char>, d: Seq<char>)
    requires
        forall|i: int| 0 <= i < z.len() ==> z[i] == '0',
    ensures
        decimal_value(z + d) == decimal_value(d),
    decreases d.len(),
{
    if d.len() == 0 {
        assert(z + d == z);
        lemma_zeros_value(z);
    } else {
        lemma_leading_zeros_value(z, d.drop_last());
        assert((z + d).drop_last() == z + d.drop_last());
        assert((z + d).last() == d.last());
    }
}

/// `k` zeros.
pub open spec fn zeros(k: nat) -> Seq<char> {
    Seq::new(k, |i: int| '0')
}

/// A title `剧名 - 第N集` whose number is written with any number of leading
/// zeros reads back as the series name and the value of the digits (as
/// `str::parse::<usize>` reads them), for a trimmed, non-empty name and a
/// positive number: `剧 - 第01集` is episode 1 of `剧`.
pub proof fn law_episode_title_leading_zeros(name: Seq<char>, episode: usize, k: nat)
    requires
        name.len() > 0,
        trim(name) == name,
        episode > 0,
    ensures
        episode_title(name + " - 第"@ + zeros(k) + decimal_text(episode as nat) + "集"@) == Some(
            (name, episode),
        ),
{
    reveal_strlit(" - 第");
    reveal_strlit("集");
    let m = episode_marker();
    let d = decimal_text(episode as nat);
    lemma_decimal_text_digits(episode as nat);
    let z = zeros(k);
    let dd = z + d;
    lemma_leading_zeros_value(z, d);
    assert forall|j: int| 0 <= j < dd.len() implies is_digit(#[trigger] dd[j]) by {
        if j < z.len() {
            assert(dd[j] == '0');
        } else {
            assert(dd[j] == d[j - z.len()]);
        }
    }
    assert(dd[0] != '+') by {
        if z.len() > 0 {
            assert(dd[0] == '0');
        } else {
            assert(dd[0] == d[0]);
        }
    }
    assert(unsigned_digits(dd) == dd);
    assert(parse_usize(dd) == Some(episode));
    let t = name + " - 第"@ + zeros(k) + decimal_text(episode as nat) + "集"@;
    let i = name.len() as int;
    assert(t == name + m + dd + seq!['集']);
    assert(m == seq![' ', '-', ' ', '第']);
    assert(t.subrange(i, i + 4) == m);
    assert(forall|q: int| 0 <= q < dd.len() ==> t[i + 4 + q] == dd[q]);
    assert(t[t.len() - 1] == '集');
    assert forall|j: int| i < j && j + m.len() <= t.len() implies #[trigger] t.subrange(
        j,
        j + m.len(),
    ) != m by {
        if j == i + 1 {
            assert(t.subrange(j, j + 4)[0] == '-');
        } else if j == i + 2 {
            assert(t.subrange(j, j + 4)[1] == '第');
        } else if j == i + 3 {
            assert(t.subrange(j, j + 4)[0] == '第');
        } else if j < t.len() - 1 {
            assert(is_digit(dd[j - i - 4]));
            assert(t.subrange(j, j + 4)[0] == dd[j - i - 4]);
        } else {
            assert(t.subrange(j, j + 4)[0] == '集');
        }
    }
    lemma_rfind_at(t, m, i);
    assert(t.take(i) == name);
    let rest = t.skip(i + 4);
    assert(rest == dd + seq!['集']);
    assert(is_digit(dd[0]));
    lemma_trim_unchanged(rest);
    assert(rest.drop_last() == dd);
    assert(is_digit(dd[dd.len() - 1]));
    lemma_trim_unchanged(dd);
}

// ---------------------------------------------------------------------------
// Listings
// ---------------------------------------------------------------------------

/// No path sorts, by `order`, before a path that comes earlier.
pub open spec fn paths_sorted(s: Seq<Seq<char>>, order: PathOrder) -> bool {
    forall|i: int, j: int| 0 <= i < j < s.len() ==> !path_lt(order, #[trigger] s[j], #[trigger] s[i])
}

proof fn lemma_components_lt_irreflexive(a: Seq<Seq<char>>)
    ensures
        !components_lt(a, a),
    decreases a.len(),
{
    if a.len() > 0 {
        lemma_components_lt_irreflexive(a.drop_first());
    }
}

proof fn lemma_components_lt_transitive(a: Seq<Seq<char>>, b: Seq<Seq<char>>, c: Seq<Seq<char>>)
    requires
        components_lt(a, b),
        components_lt(b, c),
    ensures
        components_lt(a, c),
    decreases a.len(),
{
    if a.len() > 0 && b.len() > 0 && c.len() > 0 {
        if a[0] != b[0] && b[0] != c[0] {
            lemma_chars_lt_transitive(a[0], b[0], c[0]);
            if a[0] == c[0] {
                lemma_chars_lt_asymmetric(a[0], b[0]);
            }
        } else if a[0] == b[0] && b[0] == c[0] {
            lemma_components_lt_transitive(a.drop_first(), b.drop_first(), c.drop_first());
        }
    }
}

proof fn lemma_path_lt_irreflexive(order: PathOrder, a: Seq<char>)
    ensures
        !path_lt(order, a, a),
{
    lemma_chars_lt_irreflexive(a);
    lemma_components_lt_irreflexive(normal_parts(split_on(a, '/')));
}

proof fn lemma_path_lt_transitive(order: PathOrder, a: Seq<char>, b: Seq<char>, c: Seq<char>)
    requires
        path_lt(order, a, b),
        path_lt(order, b, c),
    ensures
        path_lt(order, a, c),
{
    match order {
        PathOrder::Text => lemma_chars_lt_transitive(a, b, c),
        PathOrder::Components => lemma_components_lt_transitive(
            normal_parts(split_on(a, '/')),
            normal_parts(split_on(b, '/')),
            normal_parts(split_on(c, '/')),
        ),
    }
}

proof fn lemma_path_insert_pos_facts(t: Seq<Seq<char>>, x: Seq<char>, order: PathOrder)
    ensures
        path_insert_pos(t, x, order) <= t.len(),
        forall|k: int| 0 <= k < path_insert_pos(t, x, order) ==> !path_lt(order, x, #[trigger] t[k]),
        path_insert_pos(t, x, order) < t.len() ==> path_lt(
            order,
            x,
            t[path_insert_pos(t, x, order) as int],
        ),
    decreases t.len(),
{
    if t.len() > 0 && !path_lt(order, x, t[0]) {
        let d = t.drop_first();
        lemma_path_insert_pos_facts(d, x, order);
        assert forall|k: int| 0 <= k < path_insert_pos(t, x, order) implies !path_lt(
            order,
            x,
            #[trigger] t[k],
        ) by {
            if k > 0 {
                assert(t[k] == d[k - 1]);
            }
        }
        if path_insert_pos(t, x, order) < t.len() {
            assert(t[path_insert_pos(t, x, order) as int] == d[path_insert_pos(d, x, order) as int]);
        }
    }
}

/// Sorting paths puts them in `order` and keeps exactly the paths it was
/// given, each as often.
pub proof fn law_sort_paths(s: Seq<Seq<char>>, order: PathOrder)
    ensures
        paths_sorted(sort_paths(s, order), order),
        sort_paths(s, order).to_multiset() == s.to_multiset(),
    decreases s.len(),
{
    if s.len() > 0 {
        let t = sort_paths(s.drop_last(), order);
        let x = s.last();
        law_sort_paths(s.drop_last(), order);
        lemma_path_insert_pos_facts(t, x, order);
        let p = path_insert_pos(t, x, order) as int;
        let u = t.insert(p, x);
        assert(s.drop_last().push(x) == s);
        assert forall|i: int, j: int| 0 <= i < j < u.len() implies !path_lt(
            order,
            #[trigger] u[j],
            #[trigger] u[i],
        ) by {
            if j < p {
                assert(u[i] == t[i] && u[j] == t[j]);
            } else if j == p {
                assert(u[i] == t[i] && u[j] == x);
            } else if i < p {
                assert(u[i] == t[i] && u[j] == t[j - 1]);
            } else if i == p {
                assert(u[i] == x && u[j] == t[j - 1]);
                if path_lt(order, t[j - 1], x) {
                    lemma_path_lt_transitive(order, t[j - 1], x, t[p]);
                    if j - 1 == p {
                        lemma_path_lt_irreflexive(order, t[p]);
                    }
                }
            } else {
                assert(u[i] == t[i - 1] && u[j] == t[j - 1]);
            }
        }
    }
}

proof fn lemma_files_of_kind(files: Seq<Seq<char>>, kind: PreviewKind)
    ensures
        forall|i: int|
            0 <= i < files_of_kind(files, kind).len() ==> is_kind(
                kind,
                #[trigger] files_of_kind(files, kind)[i],
            ),
        forall|i: int|
            0 <= i < files.len() && is_kind(kind, #[trigger] files[i]) ==> files_of_kind(
                files,
                kind,
            ).contains(files[i]),
    decreases files.len(),
{
    if files.len() > 0 {
        let d = files.drop_last();
        lemma_files_of_kind(d, kind);
        let r = files_of_kind(d, kind);
        let f = files_of_kind(files, kind);
        assert forall|i: int| 0 <= i < f.len() implies is_kind(kind, #[trigger] f[i]) by {
            if i < r.len() {
                assert(f[i] == r[i]);
            }
        }
        assert forall|i: int| 0 <= i < files.len() && is_kind(kind, #[trigger] files[i]) implies f.contains(
            files[i],
        ) by {
            if i < d.len() {
                assert(files[i] == d[i]);
                let k = choose|k: int| 0 <= k < r.len() && r[k] == d[i];
                assert(f[k] == r[k]);
            } else {
                assert(f[f.len() - 1] == files[i]);
            }
        }
    }
}

/// The images or videos listed for a directory are sorted as strings, are
/// exactly the files of that kind found (shown with `/` separators), and
/// each of them is of that kind.
pub proof fn law_listed_files(files: Seq<Seq<char>>, kind: PreviewKind)
    requires
        kind != PreviewKind::Pdf,
    ensures
        paths_sorted(listed_files(files, kind), PathOrder::Text),
        listed_files(files, kind).to_multiset() == files_of_kind(files, kind).map_values(
            |p: Seq<char>| slash_display(p),
        ).to_multiset(),
        forall|i: int|
            0 <= i < files.len() && is_kind(kind, #[trigger] files[i]) ==> listed_files(
                files,
                kind,
            ).contains(slash_display(files[i])),
{
    let picked = files_of_kind(files, kind);
    let shown = picked.map_values(|p: Seq<char>| slash_display(p));
    law_sort_paths(shown, PathOrder::Text);
    lemma_files_of_kind(files, kind);
    assert forall|i: int| 0 <= i < files.len() && is_kind(kind, #[trigger] files[i]) implies listed_files(
        files,
        kind,
    ).contains(slash_display(files[i])) by {
        let k = choose|k: int| 0 <= k < picked.len() && picked[k] == files[i];
        assert(shown[k] == slash_display(files[i]));
        assert(shown.contains(slash_display(files[i])));
        assert(shown.to_multiset().count(slash_display(files[i])) > 0);
    }
}

/// The PDF files listed for a directory are those found, sorted by path
/// components and then shown with `/` separators.
pub proof fn law_listed_pdfs(files: Seq<Seq<char>>)
    ensures
        listed_files(files, PreviewKind::Pdf) == sort_paths(
            files_of_kind(files, PreviewKind::Pdf),
            PathOrder::Components,
        ).map_values(|p: Seq<char>| slash_display(p)),
        paths_sorted(
            sort_paths(files_of_kind(files, PreviewKind::Pdf), PathOrder::Components),
            PathOrder::Components,
        ),
        sort_paths(files_of_kind(files, PreviewKind::Pdf), PathOrder::Components).to_multiset()
            == files_of_kind(files, PreviewKind::Pdf).to_multiset(),
{
    law_sort_paths(files_of_kind(files, PreviewKind::Pdf), PathOrder::Components);
}

// ---------------------------------------------------------------------------
// Directory and file names
// ---------------------------------------------------------------------------

proof fn lemma_strip_start_suffix(s: Seq<char>, k: CharClass)
    ensures
        exists|a: int| 0 <= a <= s.len() && strip_start(s, k) == s.skip(a),
    decreases s.len(),
{
    if s.len() > 0 && class_has(k, s[0]) {
        lemma_strip_start_suffix(s.drop_first(), k);
        let a = choose|a: int|
            0 <= a <= s.drop_first().len() && strip_start(s.drop_first(), k) == s.drop_first().skip(a);
        assert(s.drop_first().skip(a) == s.skip(a + 1));
    } else {
        assert(s.skip(0) == s);
    }
}

proof fn lemma_strip_end_prefix(s: Seq<char>, k: CharClass)
    ensures
        exists|b: int| 0 <= b <= s.len() && strip_end(s, k) == s.take(b),
    decreases s.len(),
{
    if s.len() > 0 && class_has(k, s.last()) {
        lemma_strip_end_prefix(s.drop_last(), k);
        let b = choose|b: int|
            0 <= b <= s.drop_last().len() && strip_end(s.drop_last(), k) == s.drop_last().take(b);
        assert(s.drop_last().take(b) == s.take(b));
    } else {
        assert(s.take(s.len() as int) == s);
    }
}

/// Every character of a stripped text is a character of the text.
proof fn lemma_strip_chars(s: Seq<char>, k: CharClass)
    ensures
        forall|i: int|
            0 <= i < strip_start(s, k).len() ==> s.contains(#[trigger] strip_start(s, k)[i]),
        forall|i: int| 0 <= i < strip_end(s, k).len() ==> s.contains(#[trigger] strip_end(s, k)[i]),
{
    lemma_strip_start_suffix(s, k);
    lemma_strip_end_prefix(s, k);
    let a = choose|a: int| 0 <= a <= s.len() && strip_start(s, k) == s.skip(a);
    let b = choose|b: int| 0 <= b <= s.len() && strip_end(s, k) == s.take(b);
    assert forall|i: int| 0 <= i < strip_start(s, k).len() implies s.contains(
        #[trigger] strip_start(s, k)[i],
    ) by {
        assert(s[a + i] == strip_start(s, k)[i]);
    }
    assert forall|i: int| 0 <= i < strip_end(s, k).len() implies s.contains(
        #[trigger] strip_end(s, k)[i],
    ) by {
        assert(s[i] == strip_end(s, k)[i]);
    }
}

/// A character that a directory name may not hold.
pub open spec fn unsafe_name_char(c: char) -> bool {
    is_control(c) || is_reserved_name_char(c)
}

proof fn lemma_strip_start_first(s: Seq<char>, k: CharClass)
    ensures
        strip_start(s, k).len() > 0 ==> !class_has(k, strip_start(s, k)[0]),
    decreases s.len(),
{
    if s.len() > 0 && class_has(k, s[0]) {
        lemma_strip_start_first(s.drop_first(), k);
    }
}

proof fn lemma_strip_shorter(s: Seq<char>, k: CharClass)
    ensures
        strip_start(s, k).len() <= s.len(),
        strip_end(s, k).len() <= s.len(),
{
    lemma_strip_start_suffix(s, k);
    lemma_strip_end_prefix(s, k);
}

/// A directory name made for a series is not empty, not `.` or `..`, holds
/// no control character and none of `< > : " / \ | ? *`, has no white space
/// at either end, and is no longer than the series name.
pub proof fn law_directory_name(name: Seq<char>)
    ensures
        directory_name_for(name) matches Some(d) ==> d.len() > 0 && d != seq!['.'] && d != seq![
            '.',
            '.',
        ] && forall|i: int| 0 <= i < d.len() ==> !unsafe_name_char(#[trigger] d[i]),
        directory_name_for(name) matches Some(d) ==> trim(d) == d && d.len() <= name.len(),
{
    let mapped = name.map_values(|c: char| directory_char(c));
    assert forall|i: int| 0 <= i < mapped.len() implies !unsafe_name_char(#[trigger] mapped[i]) by {
        reveal_strlit("_");
    }
    let t1 = strip_start(mapped, CharClass::WhiteSpace);
    lemma_strip_chars(mapped, CharClass::WhiteSpace);
    let t2 = strip_end(t1, CharClass::WhiteSpace);
    lemma_strip_chars(t1, CharClass::WhiteSpace);
    let t3 = strip_end(t2, CharClass::DotOrSpace);
    lemma_strip_chars(t2, CharClass::DotOrSpace);
    let t4 = strip_start(t3, CharClass::WhiteSpace);
    lemma_strip_chars(t3, CharClass::WhiteSpace);
    let t5 = strip_end(t4, CharClass::WhiteSpace);
    lemma_strip_chars(t4, CharClass::WhiteSpace);
    assert forall|i: int| 0 <= i < t5.len() implies !unsafe_name_char(#[trigger] t5[i]) by {
        let c4 = t5[i];
        assert(t4.contains(c4));
        let j4 = choose|j: int| 0 <= j < t4.len() && t4[j] == c4;
        assert(t3.contains(t4[j4]));
        let j3 = choose|j: int| 0 <= j < t3.len() && t3[j] == c4;
        assert(t2.contains(t3[j3]));
        let j2 = choose|j: int| 0 <= j < t2.len() && t2[j] == c4;
        assert(t1.contains(t2[j2]));
        let j1 = choose|j: int| 0 <= j < t1.len() && t1[j] == c4;
        assert(mapped.contains(t1[j1]));
        let j0 = choose|j: int| 0 <= j < mapped.len() && mapped[j] == c4;
        assert(!unsafe_name_char(mapped[j0]));
    }
    lemma_strip_shorter(mapped, CharClass::WhiteSpace);
    lemma_strip_shorter(t1, CharClass::WhiteSpace);
    lemma_strip_shorter(t2, CharClass::DotOrSpace);
    lemma_strip_shorter(t3, CharClass::WhiteSpace);
    lemma_strip_shorter(t4, CharClass::WhiteSpace);
    lemma_strip_start_first(t3, CharClass::WhiteSpace);
    lemma_strip_end_prefix(t4, CharClass::WhiteSpace);
    lemma_strip_end_idempotent(t4, CharClass::WhiteSpace);
    if t5.len() > 0 {
        let b = choose|b: int| 0 <= b <= t4.len() && strip_end(t4, CharClass::WhiteSpace) == t4.take(b);
        assert(t5[0] == t4[0]);
        assert(strip_start(t5, CharClass::WhiteSpace) == t5);
    } else {
        assert(strip_start(t5, CharClass::WhiteSpace) == t5);
    }
    assert(trim(t5) == t5);
}

proof fn lemma_last_dot_at(s: Seq<char>, k: int)
    requires
        0 <= k < s.len(),
        s[k] == '.',
        forall|j: int| k < j < s.len() ==> s[j] != '.',
    ensures
        last_dot(s) == Some(k),
    decreases s.len(),
{
    if s.len() - 1 != k {
        let d = s.drop_last();
        assert forall|j: int| k < j < d.len() implies d[j] != '.' by {
            assert(d[j] == s[j]);
        }
        lemma_last_dot_at(d, k);
    }
}

/// The file an episode is saved to, `{N}.mp4`, is a numbered file whose
/// stem reads back as the episode number: the names that downloads give
/// are those that re-cutting counts.
pub proof fn law_episode_file_numbered(episode: usize)
    ensures
        file_name(episode_file_text(episode)) == Some(episode_file_text(episode)),
        parse_usize(name_stem(episode_file_text(episode))) == Some(episode),
        is_numbered(episode_file_text(episode)),
{
    reveal_strlit(".mp4");
    let d = decimal_text(episode as nat);
    lemma_decimal_text_digits(episode as nat);
    law_parse_decimal_text(episode);
    let s = episode_file_text(episode);
    assert(s == d + seq!['.', 'm', 'p', '4']);
    assert forall|j: int| 0 <= j < s.len() implies s[j] != '/' by {
        if j < d.len() {
            assert(is_digit(d[j]));
        }
    }
    lemma_find_char_at(s, '/', s.len() as int);
    assert(split_on(s, '/') == seq![s]);
    assert(seq![s].drop_last().len() == 0);
    assert(normal_parts(seq![s].drop_last()) == Seq::<Seq<char>>::empty());
    assert(s != seq!['.']) by {
        assert(s.len() >= 5);
    }
    assert(normal_parts(seq![s]) == seq![s]);
    assert(s != seq!['.', '.']);
    let k = d.len() as int;
    assert forall|j: int| k < j < s.len() implies s[j] != '.' by {}
    lemma_last_dot_at(s, k);
    assert(s.take(k) == d);
}

// ---------------------------------------------------------------------------
// Directories
// ---------------------------------------------------------------------------

proof fn lemma_strip_end_idempotent(s: Seq<char>, k: CharClass)
    ensures
        strip_end(strip_end(s, k), k) == strip_end(s, k),
    decreases s.len(),
{
    if s.len() > 0 && class_has(k, s.last()) {
        lemma_strip_end_idempotent(s.drop_last(), k);
    }
}

/// A directory with one separator added, as the extractor is given it,
/// still names the same directory: trailing separators aside it is the
/// directory it was made from.
pub proof fn law_trailing_separator(path: Seq<char>, separator: char)
    requires
        separator == '/' || separator == '\\',
    ensures
        normalized_directory(normalized_directory(path).push(separator)) == normalized_directory(
            path,
        ),
{
    let n = normalized_directory(path);
    lemma_strip_end_idempotent(path, CharClass::PathSeparator);
    assert(n.push(separator).drop_last() == n);
}

// ---------------------------------------------------------------------------
// Runs
// ---------------------------------------------------------------------------

/// Over a video batch of `n` files, reported once at the start and once
/// after each file (`batches[k]` is the batch as report `k` was made, the
/// `k`-th file had `outcomes[k - 1]` and is named `files[k - 1]`): there are
/// `n + 1` reports, all over `n` files; report `k` shows `k` files handled,
/// which are its successes, failures and skips; the first names no file and
/// report `k` names the `k`-th; the last shows the final counts, in which
/// every success got an overlay and no more overlays were made or reused
/// than there were successes and failures.
pub proof fn law_video_batch_reports(
    batches: Seq<VideoBatch>,
    reports: Seq<BatchVideoWatermarkProgressPayload>,
    outcomes: Seq<FileOutcome>,
    files: Seq<Option<String>>,
)
    requires
        batches.len() == outcomes.len() + 1,
        reports.len() == batches.len(),
        files.len() == outcomes.len(),
        batches[0].tally.scanned == outcomes.len(),
        batches[0].tally.success == 0 && batches[0].tally.failure == 0
            && batches[0].tally.skipped == 0,
        video_report(batches[0], reports[0], None),
        forall|k: int|
            0 <= k < outcomes.len() ==> tally_step(
                #[trigger] batches[k].tally,
                batches[k + 1].tally,
                outcomes[k],
            ),
        forall|k: int|
            0 <= k < outcomes.len() ==> video_report(
                #[trigger] batches[k + 1],
                reports[k + 1],
                files[k],
            ),
        batches[outcomes.len() as int].wf(),
        !batches[outcomes.len() as int].overlay_ready,
    ensures
        reports.len() == outcomes.len() + 1,
        forall|k: int|
            0 <= k < reports.len() ==> (#[trigger] reports[k]).scanned_file_count == outcomes.len()
                && reports[k].processed_file_count == k && reports[k].processed_file_count
                == reports[k].success_count + reports[k].failure_count + reports[k].skipped_count,
        reports[0].current_file is None,
        forall|k: int| 1 <= k < reports.len() ==> (#[trigger] reports[k]).current_file == files[k - 1],
        ({
            let last = reports[outcomes.len() as int];
            let b = batches[outcomes.len() as int];
            &&& last.success_count == b.tally.success && last.failure_count == b.tally.failure
                && last.skipped_count == b.tally.skipped
            &&& last.generated_overlay_count == b.generated_overlays
                && last.reused_overlay_count == b.reused_overlays
            &&& last.success_count <= last.generated_overlay_count + last.reused_overlay_count
                <= last.success_count + last.failure_count
        }),
{
    lemma_video_reports(batches, reports, outcomes, files);
    lemma_overlay_counts(batches[outcomes.len() as int]);
}

proof fn lemma_video_reports(
    batches: Seq<VideoBatch>,
    reports: Seq<BatchVideoWatermarkProgressPayload>,
    outcomes: Seq<FileOutcome>,
    files: Seq<Option<String>>,
)
    requires
        batches.len() == outcomes.len() + 1,
        reports.len() == batches.len(),
        files.len() == outcomes.len(),
        batches[0].tally.scanned == outcomes.len(),
        batches[0].tally.success == 0 && batches[0].tally.failure == 0
            && batches[0].tally.skipped == 0,
        video_report(batches[0], reports[0], None),
        forall|k: int|
            0 <= k < outcomes.len() ==> tally_step(
                #[trigger] batches[k].tally,
                batches[k + 1].tally,
                outcomes[k],
            ),
        forall|k: int|
            0 <= k < outcomes.len() ==> video_report(
                #[trigger] batches[k + 1],
                reports[k + 1],
                files[k],
            ),
    ensures
        reports.len() == outcomes.len() + 1,
        forall|k: int|
            0 <= k < reports.len() ==> (#[trigger] reports[k]).scanned_file_count == outcomes.len()
                && reports[k].processed_file_count == k && reports[k].processed_file_count
                == reports[k].success_count + reports[k].failure_count + reports[k].skipped_count,
        reports[0].current_file is None,
        forall|k: int| 1 <= k < reports.len() ==> (#[trigger] reports[k]).current_file == files[k - 1],
        ({
            let last = reports[outcomes.len() as int];
            let b = batches[outcomes.len() as int];
            &&& last.success_count == b.tally.success && last.failure_count == b.tally.failure
                && last.skipped_count == b.tally.skipped
            &&& last.generated_overlay_count == b.generated_overlays
                && last.reused_overlay_count == b.reused_overlays
        }),
{
    let n = outcomes.len() as int;
    assert forall|k: int| 0 <= k <= n implies (#[trigger] batches[k]).tally.scanned == n
        && batches[k].tally.processed_spec() == k by {
        lemma_tally_steps(batches, outcomes, k);
    }
    assert forall|k: int| 0 <= k < reports.len() implies (#[trigger] reports[k]).scanned_file_count
        == outcomes.len() && reports[k].processed_file_count == k
        && reports[k].processed_file_count == reports[k].success_count + reports[k].failure_count
        + reports[k].skipped_count by {
        assert(batches[k].tally.processed_spec() == k);
        if k > 0 {
            assert(video_report(batches[(k - 1) + 1], reports[(k - 1) + 1], files[k - 1]));
        }
    }
    assert forall|k: int| 1 <= k < reports.len() implies (#[trigger] reports[k]).current_file
        == files[k - 1] by {
        assert(video_report(batches[(k - 1) + 1], reports[(k - 1) + 1], files[k - 1]));
    }
    if n > 0 {
        assert(video_report(batches[(n - 1) + 1], reports[(n - 1) + 1], files[n - 1]));
    }
}

proof fn lemma_overlay_counts(b: VideoBatch)
    requires
        b.wf(),
        !b.overlay_ready,
    ensures
        b.tally.success <= b.generated_overlays + b.reused_overlays <= b.tally.success
            + b.tally.failure,
{
}

proof fn lemma_tally_steps(batches: Seq<VideoBatch>, outcomes: Seq<FileOutcome>, k: int)
    requires
        batches.len() == outcomes.len() + 1,
        0 <= k < batches.len(),
        batches[0].tally.success == 0 && batches[0].tally.failure == 0
            && batches[0].tally.skipped == 0,
        forall|j: int|
            0 <= j < outcomes.len() ==> tally_step(
                #[trigger] batches[j].tally,
                batches[j + 1].tally,
                outcomes[j],
            ),
    ensures
        batches[k].tally.scanned == batches[0].tally.scanned,
        batches[k].tally.processed_spec() == k,
    decreases k,
{
    if k > 0 {
        lemma_tally_steps(batches, outcomes, k - 1);
        assert(tally_step(batches[k - 1].tally, batches[k].tally, outcomes[k - 1]));
    }
}

proof fn lemma_download_steps(runs: Seq<DownloadRun>, k: int)
    requires
        0 <= k < runs.len(),
        runs[0].processed_spec() == 0,
        forall|j: int|
            0 <= j < runs.len() - 1 ==> (#[trigger] runs[j + 1]).result.total_count
                == runs[j].result.total_count && runs[j + 1].processed_spec()
                == runs[j].processed_spec() + 1,
    ensures
        runs[k].result.total_count == runs[0].result.total_count,
        runs[k].processed_spec() == k,
    decreases k,
{
    if k > 0 {
        lemma_download_steps(runs, k - 1);
        assert(runs[(k - 1) + 1].processed_spec() == runs[k - 1].processed_spec() + 1);
    }
}

/// Over a series download of `n` episodes, reported once at the start and
/// once as each episode finishes (`runs[k]` is the run as report `k` was
/// made, `items[k - 1]` the `k`-th episode to finish): there are `n + 1`
/// reports, all over `n` episodes; report `k` shows `k` finished, which are
/// its successes, failures and skips; the first names no episode and report
/// `k` names the `k`-th to finish; the last shows the final counts.
pub proof fn law_download_run_reports(
    runs: Seq<DownloadRun>,
    reports: Seq<SeriesDownloadProgressPayload>,
    items: Seq<DownloadItem>,
)
    requires
        runs.len() == items.len() + 1,
        reports.len() == runs.len(),
        runs[0].result.total_count == items.len(),
        runs[0].processed_spec() == 0,
        reports[0].current_series is None && reports[0].current_episode is None,
        forall|k: int| 0 <= k < runs.len() ==> download_report(#[trigger] runs[k], reports[k]),
        forall|k: int|
            0 <= k < items.len() ==> (#[trigger] runs[k + 1]).result.total_count
                == runs[k].result.total_count && runs[k + 1].processed_spec()
                == runs[k].processed_spec() + 1 && names_episode(reports[k + 1], items[k]),
    ensures
        reports.len() == items.len() + 1,
        forall|k: int|
            0 <= k < reports.len() ==> (#[trigger] reports[k]).total_count == items.len()
                && reports[k].processed_count == k && reports[k].processed_count
                == reports[k].success_count + reports[k].failure_count + reports[k].skipped_count,
        forall|k: int| 1 <= k < reports.len() ==> names_episode(#[trigger] reports[k], items[k - 1]),
        ({
            let last = reports[items.len() as int];
            let r = runs[items.len() as int].result;
            last.success_count == r.success_count && last.failure_count == r.failure_count
                && last.skipped_count == r.skipped_count
        }),
{
    assert forall|k: int| 0 <= k < reports.len() implies (#[trigger] reports[k]).total_count
        == items.len() && reports[k].processed_count == k && reports[k].processed_count
        == reports[k].success_count + reports[k].failure_count + reports[k].skipped_count by {
        lemma_download_steps(runs, k);
        assert(download_report(runs[k], reports[k]));
    }
    assert forall|k: int| 1 <= k < reports.len() implies names_episode(
        #[trigger] reports[k],
        items[k - 1],
    ) by {
        assert(runs[(k - 1) + 1].processed_spec() == runs[k - 1].processed_spec() + 1);
    }
    assert(download_report(runs[items.len() as int], reports[items.len() as int]));
}

// ---------------------------------------------------------------------------
// Series counts
// ---------------------------------------------------------------------------

/// Whether one of the items is saved under the directory `name`.
pub open spec fn has_directory(items: Seq<DownloadItemView>, name: Seq<char>) -> bool {
    exists|i: int| 0 <= i < items.len() && (#[trigger] items[i]).directory_name == name
}

/// The series of a run are its distinct directory names: no items make no
/// series; one more item adds a series exactly when its directory name is
/// new, whatever its episode number.
pub proof fn law_series_count(items: Seq<DownloadItemView>, x: DownloadItemView)
    ensures
        series_count(Seq::<DownloadItemView>::empty()) == 0,
        has_directory(items, x.directory_name) ==> series_count(items.push(x)) == series_count(
            items,
        ),
        !has_directory(items, x.directory_name) ==> series_count(items.push(x)) == series_count(
            items,
        ) + 1,
{
    broadcast use vstd::set::group_set_axioms, vstd::seq_lib::seq_to_set_is_finite;

    assert(directory_names(Seq::<DownloadItemView>::empty()).to_set() =~= Set::<
        Seq<char>,
    >::empty());
    let before = directory_names(items);
    assert(directory_names(items.push(x)) == before.push(x.directory_name));
    before.lemma_push_to_set_commute(x.directory_name);
    if has_directory(items, x.directory_name) {
        let i = choose|i: int| 0 <= i < items.len() && (#[trigger] items[i]).directory_name
            == x.directory_name;
        assert(before[i] == x.directory_name);
        assert(before.to_set().contains(x.directory_name));
    } else {
        assert(!before.to_set().contains(x.directory_name)) by {
            if before.contains(x.directory_name) {
                let i = choose|i: int| 0 <= i < before.len() && before[i] == x.directory_name;
                assert(items[i].directory_name == x.directory_name);
            }
        }
    }
}

/// Items that all share one directory name make one series, whatever their
/// episode numbers.
pub proof fn law_one_series(items: Seq<DownloadItemView>)
    requires
        items.len() > 0,
        forall|i: int| 0 <= i < items.len() ==> (#[trigger] items[i]).directory_name
            == items[0].directory_name,
    ensures
        series_count(items) == 1,
    decreases items.len(),
{
    let d = items.drop_last();
    law_series_count(d, items.last());
    assert(d.push(items.last()) == items);
    if d.len() == 0 {
        assert(d =~= Seq::<DownloadItemView>::empty());
        assert(!has_directory(d, items.last().directory_name));
    } else {
        assert forall|i: int| 0 <= i < d.len() implies (#[trigger] d[i]).directory_name
            == d[0].directory_name by {
            assert(d[i] == items[i]);
        }
        law_one_series(d);
        assert(d[0].directory_name == items.last().directory_name);
        assert(has_directory(d, items.last().directory_name));
    }
}

// ---------------------------------------------------------------------------
// File names and outputs
// ---------------------------------------------------------------------------

/// A name without `/`.
pub open spec fn plain_name(n: Seq<char>) -> bool {
    forall|i: int| 0 <= i < n.len() ==> n[i] != '/'
}

proof fn lemma_split_append(a: Seq<char>, n: Seq<char>)
    requires
        plain_name(n),
    ensures
        split_on(a + seq!['/'] + n, '/') == split_on(a, '/').push(n),
    decreases a.len(),
{
    let s = a + seq!['/'] + n;
    lemma_find_char(a, '/');
    lemma_find_char_at(n, '/', n.len() as int);
    assert(split_on(n, '/') == seq![n]);
    match find_char(a, '/') {
        None => {
            assert forall|j: int| 0 <= j < a.len() implies s[j] != '/' by {
                assert(s[j] == a[j]);
            }
            lemma_find_char_at(s, '/', a.len() as int);
            assert(s.take(a.len() as int) == a);
            assert(s.skip(a.len() as int + 1) == n);
            assert(split_on(s, '/') == seq![a] + seq![n]);
            assert(split_on(a, '/') == seq![a]);
        },
        Some(i) => {
            assert forall|j: int| 0 <= j < i implies s[j] != '/' by {
                assert(s[j] == a[j]);
            }
            lemma_find_char_at(s, '/', i);
            let r = a.skip(i + 1);
            assert(s.skip(i + 1) == r + seq!['/'] + n);
            assert(s.take(i) == a.take(i));
            lemma_split_append(r, n);
            assert(split_on(s, '/') == seq![a.take(i)] + split_on(r, '/').push(n));
            assert(split_on(a, '/') == seq![a.take(i)] + split_on(r, '/'));
        },
    }
}

proof fn lemma_directory_part_append(p: Seq<char>, n: Seq<char>)
    requires
        plain_name(n),
    ensures
        directory_part(p + n) == directory_part(p),
    decreases n.len(),
{
    if n.len() == 0 {
        assert(p + n == p);
    } else {
        assert((p + n).last() == n.last());
        assert((p + n).drop_last() == p + n.drop_last());
        lemma_directory_part_append(p, n.drop_last());
    }
}

/// The file name of `d/n`, and of `n` alone, is `n`.
proof fn lemma_file_name_of(d: Seq<char>, n: Seq<char>)
    requires
        plain_name(n),
        n.len() > 0,
        n != seq!['.'],
        n != seq!['.', '.'],
    ensures
        file_name(d + seq!['/'] + n) == Some(n),
        file_name(n) == Some(n),
{
    lemma_split_append(d, n);
    let xs = split_on(d, '/');
    assert(xs.push(n).drop_last() == xs);
    assert(normal_parts(xs.push(n)) == normal_parts(xs).push(n));
    lemma_find_char_at(n, '/', n.len() as int);
    assert(split_on(n, '/') == seq![n]);
    assert(seq![n].drop_last() =~= Seq::<Seq<char>>::empty());
    assert(normal_parts(Seq::<Seq<char>>::empty()) == Seq::<Seq<char>>::empty());
    assert(seq![n].last() == n);
    assert(Seq::<Seq<char>>::empty().push(n) =~= seq![n]);
    assert(normal_parts(seq![n]) == seq![n]);
}

/// The watermarked copy of the PDF at `d/n` goes into the same directory
/// `d/` (the whole of it, however deep), named after the stem of `n`; that
/// of `n` alone goes to the top of the output directory.
pub proof fn law_batch_pdf_output(d: Seq<char>, n: Seq<char>)
    requires
        plain_name(n),
        n.len() > 0,
        n != seq!['.'],
        n != seq!['.', '.'],
    ensures
        batch_pdf_output(d + seq!['/'] + n) == Ok::<Seq<char>, Seq<char>>(
            d + seq!['/'] + name_stem(n) + "-watermarked.pdf"@,
        ),
        batch_pdf_output(n) == Ok::<Seq<char>, Seq<char>>(name_stem(n) + "-watermarked.pdf"@),
{
    lemma_file_name_of(d, n);
    lemma_directory_part_append(d + seq!['/'], n);
    assert(directory_part(d + seq!['/']) == d + seq!['/']);
    lemma_directory_part_append(Seq::<char>::empty(), n);
    assert(Seq::<char>::empty() + n == n);
}

/// A file name `s.e` whose stem `s` is not empty and whose extension `e`
/// holds no `.` has stem `s` and extension `e`: the extension is the text
/// after the last dot.
pub proof fn law_name_stem_and_extension(s: Seq<char>, e: Seq<char>)
    requires
        s.len() > 0,
        forall|i: int| 0 <= i < e.len() ==> e[i] != '.',
    ensures
        name_stem(s + seq!['.'] + e) == s,
        name_extension(s + seq!['.'] + e) == Some(e),
{
    let n = s + seq!['.'] + e;
    assert forall|j: int| s.len() < j < n.len() implies n[j] != '.' by {
        assert(n[j] == e[j - s.len() - 1]);
    }
    lemma_last_dot_at(n, s.len() as int);
    assert(n.take(s.len() as int) == s);
    assert(n.skip(s.len() as int + 1) == e);
}

/// A file `d/s.e` (or `s.e`) is listed as a PDF exactly when its extension,
/// the text after the last dot, is `pdf` in any case: `a.v2.pdf` is a PDF.
pub proof fn law_pdf_by_last_extension(d: Seq<char>, s: Seq<char>, e: Seq<char>)
    requires
        s.len() > 0,
        plain_name(s),
        plain_name(e),
        forall|i: int| 0 <= i < e.len() ==> e[i] != '.',
        s + seq!['.'] + e != seq!['.', '.'],
    ensures
        path_extension(d + seq!['/'] + s + seq!['.'] + e) == Some(e),
        path_extension(s + seq!['.'] + e) == Some(e),
        is_kind(PreviewKind::Pdf, d + seq!['/'] + s + seq!['.'] + e) == (ascii_lower_seq(e)
            == "pdf"@),
        is_kind(PreviewKind::Pdf, s + seq!['.'] + e) == (ascii_lower_seq(e) == "pdf"@),
{
    let n = s + seq!['.'] + e;
    assert forall|i: int| 0 <= i < n.len() implies n[i] != '/' by {
        if i < s.len() {
            assert(n[i] == s[i]);
        } else if i > s.len() {
            assert(n[i] == e[i - s.len() - 1]);
        }
    }
    assert(n != seq!['.']) by {
        assert(n.len() >= 2);
    }
    lemma_file_name_of(d, n);
    assert(d + seq!['/'] + s + seq!['.'] + e == d + seq!['/'] + n);
    law_name_stem_and_extension(s, e);
    reveal_strlit("pdf");
    let l = ascii_lower_seq(e);
    assert(seq!["pdf"@].contains(l) == (l == "pdf"@)) by {
        if seq!["pdf"@].contains(l) {
            let k = choose|k: int| 0 <= k < 1 && seq!["pdf"@][k] == l;
        }
        if l == "pdf"@ {
            assert(seq!["pdf"@][0] == l);
        }
    }
}

/// Every image the batches pick up has a format to be written in, except
/// GIF; `jpeg` is JPEG as `jpg` is, and `tif` is TIFF as `tiff` is, in any
/// case.
pub proof fn law_image_formats(path: Seq<char>)
    ensures
        is_kind(PreviewKind::Image, path) ==> (image_format_for(path) is Ok <==> ascii_lower_seq(
            path_extension(path)->0,
        ) != "gif"@),
        path_extension(path) matches Some(e) ==> (ascii_lower_seq(e) == "jpeg"@
            || ascii_lower_seq(e) == "jpg"@ ==> image_format_for(path) == Ok::<
            ImageFormat,
            Seq<char>,
        >(ImageFormat::Jpeg)),
        path_extension(path) matches Some(e) ==> (ascii_lower_seq(e) == "tif"@
            || ascii_lower_seq(e) == "tiff"@ ==> image_format_for(path) == Ok::<
            ImageFormat,
            Seq<char>,
        >(ImageFormat::Tiff)),
{
    reveal_strlit("png");
    reveal_strlit("jpg");
    reveal_strlit("jpeg");
    reveal_strlit("gif");
    reveal_strlit("bmp");
    reveal_strlit("webp");
    reveal_strlit("tif");
    reveal_strlit("tiff");
    if let Some(e) = path_extension(path) {
        let l = ascii_lower_seq(e);
        if is_kind(PreviewKind::Image, path) {
            let k = choose|k: int| 0 <= k < image_extensions().len() && image_extensions()[k] == l;
            assert(k == 0 || k == 1 || k == 2 || k == 3 || k == 4 || k == 5 || k == 6 || k == 7);
            if k == 3 {
                assert(l == "gif"@);
                assert(l != "png"@ && l != "jpg"@ && l != "jpeg"@ && l != "webp"@ && l != "bmp"@
                    && l != "tif"@ && l != "tiff"@) by {
                    assert(l[0] == 'g');
                }
            } else {
                assert(l != "gif"@) by {
                    assert(l[0] != 'g' || l.len() != 3) by {
                        assert(image_extensions()[k] == l);
                    }
                }
            }
        }
        if l == "jpg"@ || l == "jpeg"@ {
            assert(l != "png"@) by {
                assert(l[0] == 'j');
            }
        }
        if l == "tif"@ || l == "tiff"@ {
            assert(l != "png"@ && l != "jpg"@ && l != "jpeg"@ && l != "webp"@ && l != "bmp"@) by {
                assert(l[0] == 't');
            }
        }
    }
}

} // verus!
