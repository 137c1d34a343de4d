use vstd::prelude::*;

use crate::dir_info::{DirEntryInfo, DirInfo, ExtStat, ExtStats};
use crate::globs::{lemma_views_push, string_views};
use crate::support::{
    decimal, format_num, format_size, grouped, pad_left, pad_right, padded_left, padded_right,
    push_decimal, size_text,
};

verus! {

/// A size and what it belongs to, as in `"  1.5 KB - txt"`.
pub open spec fn entry_line(size: u64, label: Seq<char>) -> Seq<char> {
    pad_right(size_text(size as nat), 8) + " - "@ + label
}

pub open spec fn ext_lines(st: ExtStats) -> Seq<Seq<char>> {
    st.top_by_ext@.map_values(|e: ExtStat| entry_line(e.size, e.ext@)) + if st.others_size > 0 {
        seq![entry_line(st.others_size, "(others)"@)]
    } else {
        Seq::<Seq<char>>::empty()
    }
}

pub open spec fn file_lines(fs: Seq<DirEntryInfo>) -> Seq<Seq<char>> {
    fs.map_values(|e: DirEntryInfo| entry_line(e.size, e.path@))
}

/// The detailed report on one tree: a header, the file count and total size,
/// the extension breakdown when there is one (titled with `nums`), the largest
/// files when there are any, and a closing rule.
pub open spec fn detail_text(info: DirInfo, nums: usize) -> Seq<Seq<char>> {
    seq![
        "==== Directory info on '"@ + info.path_processed@ + "'"@,
        Seq::<char>::empty(),
        "Number of files: "@ + grouped(info.total_numbers as nat),
        "     Total size: "@ + size_text(info.total_size as nat),
    ] + match info.ext_stats {
        Some(st) => seq![
            Seq::<char>::empty(),
            "== Top "@ + decimal(nums as nat) + " biggest size by extension"@,
        ] + ext_lines(st),
        None => Seq::<Seq<char>>::empty(),
    } + if info.top_files.len() > 0 {
        seq![
            Seq::<char>::empty(),
            "== Top "@ + decimal(info.top_files.len() as nat) + " biggest files"@,
        ] + file_lines(info.top_files@)
    } else {
        Seq::<Seq<char>>::empty()
    } + seq![Seq::<char>::empty(), "====="@]
}

fn push_line(lines: &mut Vec<String>, line: String)
    ensures
        string_views(final(lines)@) == string_views(old(lines)@).push(line@),
{
    proof {
        lemma_views_push(lines@, line);
    }
    lines.push(line);
}

fn entry_text(size: u64, label: &str) -> (r: String)
    ensures
        r@ == entry_line(size, label@),
{
    let s = format_size(size);
    let mut r = padded_right(s.as_str(), 8);
    r.append(" - ");
    r.append(label);
    r
}

fn titled_count(count: usize, rest: &str) -> (r: String)
    ensures
        r@ == "== Top "@ + decimal(count as nat) + rest@,
{
    let mut r = String::from_str("== Top ");
    push_decimal(&mut r, count as u64);
    r.append(rest);
    r
}

/// The lines of the detailed report on one tree.
pub fn detail_lines(info: &DirInfo, nums: usize) -> (r: Vec<String>)
    ensures
        string_views(r@) == detail_text(*info, nums),
{
    let mut lines: Vec<String> = Vec::new();
    let mut head = String::from_str("==== Directory info on '");
    head.append(info.path_processed.as_str());
    head.append("'");
    push_line(&mut lines, head);
    push_line(&mut lines, String::new());
    let mut count = String::from_str("Number of files: ");
    count.append(format_num(info.total_numbers).as_str());
    push_line(&mut lines, count);
    let mut total = String::from_str("     Total size: ");
    total.append(format_size(info.total_size).as_str());
    push_line(&mut lines, total);
    let ghost first = string_views(lines@);
    let ghost mid: Seq<Seq<char>> = Seq::empty();
    match &info.ext_stats {
        Some(st) => {
            push_line(&mut lines, String::new());
            push_line(&mut lines, titled_count(nums, " biggest size by extension"));
            let ghost start = string_views(lines@);
            let mut i: usize = 0;
            while i < st.top_by_ext.len()
                invariant
                    i <= st.top_by_ext.len(),
                    string_views(lines@) == start + st.top_by_ext@.take(i as int).map_values(
                        |e: ExtStat| entry_line(e.size, e.ext@),
                    ),
                decreases st.top_by_ext.len() - i,
            {
                let line = entry_text(st.top_by_ext[i].size, st.top_by_ext[i].ext.as_str());
                push_line(&mut lines, line);
                assert(st.top_by_ext@.take(i + 1).map_values(
                    |e: ExtStat| entry_line(e.size, e.ext@),
                ) =~= st.top_by_ext@.take(i as int).map_values(
                    |e: ExtStat| entry_line(e.size, e.ext@),
                ).push(entry_line(st.top_by_ext@[i as int].size, st.top_by_ext@[i as int].ext@)));
                i = i + 1;
            }
            assert(st.top_by_ext@.take(i as int) =~= st.top_by_ext@);
            if st.others_size > 0 {
                push_line(&mut lines, entry_text(st.others_size, "(others)"));
            }
            proof {
                mid = seq![
                    Seq::<char>::empty(),
                    "== Top "@ + decimal(nums as nat) + " biggest size by extension"@,
                ] + ext_lines(*st);
            }
            assert(string_views(lines@) =~= first + mid);
        },
        None => {
            assert(string_views(lines@) =~= first + mid);
        },
    }
    let ghost before_files = string_views(lines@);
    let ghost files: Seq<Seq<char>> = Seq::empty();
    if info.top_files.len() > 0 {
        push_line(&mut lines, String::new());
        push_line(&mut lines, titled_count(info.top_files.len(), " biggest files"));
        let ghost start = string_views(lines@);
        let mut i: usize = 0;
        while i < info.top_files.len()
            invariant
                i <= info.top_files.len(),
                string_views(lines@) == start + file_lines(info.top_files@.take(i as int)),
            decreases info.top_files.len() - i,
        {
            let line = entry_text(info.top_files[i].size, info.top_files[i].path.as_str());
            push_line(&mut lines, line);
            assert(file_lines(info.top_files@.take(i + 1)) =~= file_lines(
                info.top_files@.take(i as int),
            ).push(entry_line(info.top_files@[i as int].size, info.top_files@[i as int].path@)));
            i = i + 1;
        }
        assert(info.top_files@.take(i as int) =~= info.top_files@);
        proof {
            files = seq![
                Seq::<char>::empty(),
                "== Top "@ + decimal(info.top_files.len() as nat) + " biggest files"@,
            ] + file_lines(info.top_files@);
        }
    }
    assert(string_views(lines@) =~= before_files + files);
    push_line(&mut lines, String::new());
    push_line(&mut lines, String::from_str("====="));
    assert(string_views(lines@) =~= detail_text(*info, nums));
    lines
}

/// One line of the summary before alignment: path, file count, total size.
pub type Row = (Seq<char>, Seq<char>, Seq<char>);

/// Whether `a` comes before `b` in the order of their characters' code
/// points, a proper prefix first.
pub open spec fn text_lt(a: Seq<char>, b: Seq<char>) -> bool
    decreases a.len(),
{
    if b.len() == 0 {
        false
    } else if a.len() == 0 {
        true
    } else if a[0] != b[0] {
        (a[0] as u32) < (b[0] as u32)
    } else {
        text_lt(a.drop_first(), b.drop_first())
    }
}

/// Inserts `x` after every leading row whose path does not come after it.
pub open spec fn insert_row(s: Seq<Row>, x: Row) -> Seq<Row>
    decreases s.len(),
{
    if s.len() == 0 {
        seq![x]
    } else if !text_lt(x.0, s[0].0) {
        seq![s[0]] + insert_row(s.drop_first(), x)
    } else {
        seq![x] + s
    }
}

/// The stable sort of `s` by path.
pub open spec fn sort_rows(s: Seq<Row>) -> Seq<Row>
    decreases s.len(),
{
    if s.len() == 0 {
        Seq::empty()
    } else {
        insert_row(sort_rows(s.drop_last()), s.last())
    }
}

pub open spec fn summary_row(info: DirInfo) -> Row {
    (info.path_processed@, grouped(info.total_numbers as nat) + " files"@, size_text(info.total_size as nat))
}

pub open spec fn summary_rows(infos: Seq<DirInfo>) -> Seq<Row> {
    infos.map_values(|i: DirInfo| summary_row(i))
}

/// The length of the longest of `s`, 0 when there is none.
pub open spec fn max_len(s: Seq<Seq<char>>) -> nat
    decreases s.len(),
{
    if s.len() == 0 {
        0
    } else if s.last().len() > max_len(s.drop_last()) {
        s.last().len()
    } else {
        max_len(s.drop_last())
    }
}

pub open spec fn summary_line(r: Row, pw: nat, fw: nat, sw: nat) -> Seq<char> {
    pad_right(r.0, pw) + "  - "@ + pad_left(r.1, fw) + " | total size: "@ + pad_left(r.2, sw)
}

/// The summary of several trees: nothing for none; otherwise an empty line,
/// then one line per tree in path order, each column as wide as its widest
/// entry (path to the left, count and size to the right).
pub open spec fn summary_text(infos: Seq<DirInfo>) -> Seq<Seq<char>> {
    if infos.len() == 0 {
        Seq::empty()
    } else {
        let rows = sort_rows(summary_rows(infos));
        let pw = max_len(rows.map_values(|r: Row| r.0));
        let fw = max_len(rows.map_values(|r: Row| r.1));
        let sw = max_len(rows.map_values(|r: Row| r.2));
        seq![Seq::<char>::empty()] + rows.map_values(|r: Row| summary_line(r, pw, fw, sw))
    }
}

proof fn lemma_insert_row_at(s: Seq<Row>, x: Row, p: int)
    requires
        0 <= p <= s.len(),
        forall|j: int| 0 <= j < p ==> !text_lt(x.0, #[trigger] s[j].0),
        p == s.len() || text_lt(x.0, s[p].0),
    ensures
        insert_row(s, x) == s.insert(p, x),
    decreases p,
{
    if p > 0 {
        lemma_insert_row_at(s.drop_first(), x, p - 1);
        assert(insert_row(s, x) =~= s.insert(p, x));
    } else if s.len() == 0 {
        assert(seq![x] =~= s.insert(p, x));
    } else {
        assert(seq![x] + s =~= s.insert(p, x));
    }
}

struct SummaryRow {
    path: String,
    files: String,
    size: String,
}

spec fn row_of(r: SummaryRow) -> Row {
    (r.path@, r.files@, r.size@)
}

spec fn rows_of(v: Seq<SummaryRow>) -> Seq<Row> {
    v.map_values(|r: SummaryRow| row_of(r))
}

fn text_less(a: &str, b: &str) -> (r: bool)
    ensures
        r == text_lt(a@, b@),
{
    let la = a.unicode_len();
    let lb = b.unicode_len();
    let mut i: usize = 0;
    assert(a@.skip(0) =~= a@);
    assert(b@.skip(0) =~= b@);
    while i < la && i < lb
        invariant
            i <= la,
            i <= lb,
            la == a@.len(),
            lb == b@.len(),
            text_lt(a@, b@) == text_lt(a@.skip(i as int), b@.skip(i as int)),
        decreases la - i,
    {
        let ca = a.get_char(i);
        let cb = b.get_char(i);
        assert(a@.skip(i as int)[0] == ca);
        assert(b@.skip(i as int)[0] == cb);
        if ca != cb {
            return (ca as u32) < (cb as u32);
        }
        assert(a@.skip(i as int).drop_first() =~= a@.skip(i + 1));
        assert(b@.skip(i as int).drop_first() =~= b@.skip(i + 1));
        i = i + 1;
    }
    assert(b@.skip(i as int).len() == lb - i);
    i < lb
}

fn insert_summary_row(v: &mut Vec<SummaryRow>, x: SummaryRow)
    ensures
        rows_of(final(v)@) == insert_row(rows_of(old(v)@), row_of(x)),
{
    let mut p: usize = 0;
    while p < v.len() && !text_less(x.path.as_str(), v[p].path.as_str())
        invariant
            p <= v.len(),
            forall|j: int| 0 <= j < p ==> !text_lt(x.path@, #[trigger] rows_of(v@)[j].0),
        decreases v.len() - p,
    {
        p = p + 1;
    }
    proof {
        lemma_insert_row_at(rows_of(v@), row_of(x), p as int);
    }
    let ghost before = v@;
    v.insert(p, x);
    assert(rows_of(v@) =~= rows_of(before).insert(p as int, row_of(x)));
}

fn widest(v: &Vec<SummaryRow>, column: u8) -> (r: usize)
    requires
        column < 3,
    ensures
        column == 0 ==> r == max_len(rows_of(v@).map_values(|r: Row| r.0)),
        column == 1 ==> r == max_len(rows_of(v@).map_values(|r: Row| r.1)),
        column == 2 ==> r == max_len(rows_of(v@).map_values(|r: Row| r.2)),
{
    let ghost cols = if column == 0 {
        rows_of(v@).map_values(|r: Row| r.0)
    } else if column == 1 {
        rows_of(v@).map_values(|r: Row| r.1)
    } else {
        rows_of(v@).map_values(|r: Row| r.2)
    };
    let mut m: usize = 0;
    let mut i: usize = 0;
    assert(cols.take(0) =~= Seq::<Seq<char>>::empty());
    while i < v.len()
        invariant
            i <= v.len(),
            cols.len() == v.len(),
            column < 3,
            column == 0 ==> cols == rows_of(v@).map_values(|r: Row| r.0),
            column == 1 ==> cols == rows_of(v@).map_values(|r: Row| r.1),
            column == 2 ==> cols == rows_of(v@).map_values(|r: Row| r.2),
            m == max_len(cols.take(i as int)),
        decreases v.len() - i,
    {
        let n = if column == 0 {
            v[i].path.unicode_len()
        } else if column == 1 {
            v[i].files.unicode_len()
        } else {
            v[i].size.unicode_len()
        };
        assert(cols[i as int].len() == n);
        assert(cols.take(i + 1).drop_last() =~= cols.take(i as int));
        if n > m {
            m = n;
        }
        i = i + 1;
    }
    assert(cols.take(i as int) =~= cols);
    m
}

/// The lines of the summary of several trees.
pub fn summary_lines(infos: &Vec<DirInfo>) -> (r: Vec<String>)
    ensures
        string_views(r@) == summary_text(infos@),
{
    let mut lines: Vec<String> = Vec::new();
    if infos.len() == 0 {
        assert(string_views(lines@) =~= summary_text(infos@));
        return lines;
    }
    let ghost all = summary_rows(infos@);
    let mut rows: Vec<SummaryRow> = Vec::new();
    let mut i: usize = 0;
    assert(all.take(0) =~= Seq::<Row>::empty());
    while i < infos.len()
        invariant
            i <= infos.len(),
            all == summary_rows(infos@),
            rows_of(rows@) == sort_rows(all.take(i as int)),
        decreases infos.len() - i,
    {
        let info = &infos[i];
        let mut files = format_num(info.total_numbers);
        files.append(" files");
        let row = SummaryRow {
            path: String::from_str(info.path_processed.as_str()),
            files,
            size: format_size(info.total_size),
        };
        assert(row_of(row) == all[i as int]);
        insert_summary_row(&mut rows, row);
        assert(all.take(i + 1).drop_last() =~= all.take(i as int));
        i = i + 1;
    }
    assert(all.take(i as int) =~= all);
    let pw = widest(&rows, 0);
    let fw = widest(&rows, 1);
    let sw = widest(&rows, 2);
    let ghost sorted = rows_of(rows@);
    push_line(&mut lines, String::new());
    let mut j: usize = 0;
    while j < rows.len()
        invariant
            j <= rows.len(),
            sorted == rows_of(rows@),
            string_views(lines@) == seq![Seq::<char>::empty()] + sorted.take(j as int).map_values(
                |r: Row| summary_line(r, pw as nat, fw as nat, sw as nat),
            ),
        decreases rows.len() - j,
    {
        let mut line = padded_right(rows[j].path.as_str(), pw);
        line.append("  - ");
        line.append(padded_left(rows[j].files.as_str(), fw).as_str());
        line.append(" | total size: ");
        line.append(padded_left(rows[j].size.as_str(), sw).as_str());
        push_line(&mut lines, line);
        assert(sorted.take(j + 1).map_values(|r: Row| summary_line(r, pw as nat, fw as nat, sw as nat))
            =~= sorted.take(j as int).map_values(
            |r: Row| summary_line(r, pw as nat, fw as nat, sw as nat),
        ).push(summary_line(sorted[j as int], pw as nat, fw as nat, sw as nat)));
        j = j + 1;
    }
    assert(sorted.take(j as int) =~= sorted);
    assert(string_views(lines@) =~= summary_text(infos@));
    lines
}

} // verus!
