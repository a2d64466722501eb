//! Numbered menus on the terminal: the lines they print and the table
//! layout of `select_table` (columns as wide as their widest cell, in
//! bytes, cells padded to that many characters).

use vstd::prelude::*;
use crate::number::{decimal, u64_to_string};
use crate::text::{join_with, push_all, push_str, string_views, views, chars_of, string_from_chars};

verus! {

/// A provisioning profile offered in a menu.
#[derive(Debug, Clone, Copy, PartialEq, Eq)]
pub struct ProvisionOption<'a> {
    pub label: &'a str,
    pub description: &'a str,
}

/// The line of a menu entry: its number (from 1), `)`, then its text.
pub open spec fn entry_line(i: nat, text: Seq<char>) -> Seq<char> {
    "  "@ + decimal(i + 1) + ") "@ + text
}

fn entry_line_exec(i: usize, text: &str) -> (r: String)
    requires
        i < usize::MAX,
    ensures
        r@ == entry_line(i as nat, text@),
{
    let mut s = String::from_str("  ");
    s.append(u64_to_string((i + 1) as u64).as_str());
    s.append(") ");
    s.append(text);
    s
}

/// The lines of a list menu: one per item.
pub open spec fn spec_list_lines(items: Seq<Seq<char>>) -> Seq<Seq<char>> {
    Seq::new(items.len(), |i: int| entry_line(i as nat, items[i]))
}

/// The lines of a list menu.
pub fn list_lines(items: &Vec<String>) -> (r: Vec<String>)
    ensures
        string_views(r@) == spec_list_lines(string_views(items@)),
{
    let mut out: Vec<String> = Vec::new();
    let mut i: usize = 0;
    while i < items.len()
        invariant
            i <= items.len(),
            out@.len() == i,
            forall|j: int| 0 <= j < i ==> (#[trigger] out@[j])@ == entry_line(j as nat, items@[j]@),
        decreases items.len() - i,
    {
        out.push(entry_line_exec(i, items[i].as_str()));
        i += 1;
    }
    assert(string_views(out@) =~= spec_list_lines(string_views(items@)));
    out
}

/// The text of a provisioning profile's entry: its label, a dash, its
/// description.
pub open spec fn option_text(label: Seq<char>, description: Seq<char>) -> Seq<char> {
    label + " — "@ + description
}

/// The lines of the provisioning profile menu.
pub fn provision_lines(items: &Vec<ProvisionOption>) -> (r: Vec<String>)
    ensures
        r@.len() == items@.len(),
        forall|i: int|
            0 <= i < items@.len() ==> (#[trigger] r@[i])@ == entry_line(
                i as nat,
                option_text(items@[i].label@, items@[i].description@),
            ),
{
    let mut out: Vec<String> = Vec::new();
    let mut i: usize = 0;
    while i < items.len()
        invariant
            i <= items.len(),
            out@.len() == i,
            forall|j: int|
                0 <= j < i ==> (#[trigger] out@[j])@ == entry_line(
                    j as nat,
                    option_text(items@[j].label@, items@[j].description@),
                ),
        decreases items.len() - i,
    {
        let mut text = String::from_str(items[i].label);
        text.append(" — ");
        text.append(items[i].description);
        out.push(entry_line_exec(i, text.as_str()));
        i += 1;
    }
    out
}

/// The prompt under a menu of `count` entries.
pub open spec fn menu_prompt(head: Seq<char>, count: nat) -> Seq<char> {
    head + " (1-"@ + decimal(count) + ") or q to quit: "@
}

/// The prompt under a menu of `count` entries, after its `head`.
pub fn prompt(head: &str, count: usize) -> (r: String)
    ensures
        r@ == menu_prompt(head@, count as nat),
{
    let mut s = String::from_str(head);
    s.append(" (1-");
    s.append(u64_to_string(count as u64).as_str());
    s.append(") or q to quit: ");
    s
}

/// The length of a text in UTF-8 bytes.
pub open spec fn byte_len(s: Seq<char>) -> nat {
    vstd::utf8::encode_utf8(s).len()
}

/// The width of column `j`: the byte length of its header, or of its
/// widest cell if wider (cells past the headers are not counted).
pub open spec fn column_width(header: Seq<char>, rows: Seq<Seq<Seq<char>>>, j: int) -> nat
    decreases rows.len(),
{
    if rows.len() == 0 {
        byte_len(header)
    } else {
        let w = column_width(header, rows.drop_last(), j);
        let last = rows.last();
        if j < last.len() && byte_len(last[j]) > w {
            byte_len(last[j])
        } else {
            w
        }
    }
}

/// `s` padded with spaces to `w` characters (`{:<w$}`).
pub open spec fn pad(s: Seq<char>, w: nat) -> Seq<char> {
    if s.len() < w {
        s + Seq::new((w - s.len()) as nat, |i: int| ' ')
    } else {
        s
    }
}

/// The cells padded to their columns' widths, as many as there are both
/// cells and columns, two spaces apart.
pub open spec fn table_line(cells: Seq<Seq<char>>, widths: Seq<nat>) -> Seq<char> {
    let n = if cells.len() < widths.len() {
        cells.len()
    } else {
        widths.len()
    };
    join_with(Seq::new(n, |k: int| pad(cells[k], widths[k])), "  "@)
}

/// The lines of a table menu: the header line, a rule of `-` as long as
/// the header line is in bytes, and one numbered line per row.
pub open spec fn spec_table_lines(headers: Seq<Seq<char>>, rows: Seq<Seq<Seq<char>>>) -> Seq<Seq<char>> {
    let widths = Seq::new(headers.len(), |j: int| column_width(headers[j], rows, j));
    let head = table_line(headers, widths);
    seq![head, Seq::new(byte_len(head), |i: int| '-')] + Seq::new(
        rows.len(),
        |i: int| entry_line(i as nat, table_line(rows[i], widths)),
    )
}

/// The rows' cells.
pub open spec fn rows_view(rows: Seq<Vec<String>>) -> Seq<Seq<Seq<char>>> {
    rows.map_values(|r: Vec<String>| string_views(r@))
}

fn byte_len_exec(s: &str) -> (r: usize)
    ensures
        r as nat == byte_len(s@),
{
    s.as_bytes().len()
}

/// `s` padded with spaces to `w` characters.
pub fn pad_text(s: &str, w: usize) -> (r: String)
    ensures
        r@ == pad(s@, w as nat),
{
    string_from_chars(&pad_exec(s, w))
}

fn pad_exec(s: &str, w: usize) -> (r: Vec<char>)
    ensures
        r@ == pad(s@, w as nat),
{
    let mut out = chars_of(s);
    let n = out.len();
    if n < w {
        let mut k: usize = 0;
        while k < w - n
            invariant
                n < w,
                n == s@.len(),
                k <= w - n,
                out@ == s@ + Seq::new(k as nat, |i: int| ' '),
            decreases w - n - k,
        {
            out.push(' ');
            k += 1;
            assert(out@ =~= s@ + Seq::new(k as nat, |i: int| ' '));
        }
    }
    out
}

fn line_exec(cells: &Vec<String>, widths: &Vec<usize>) -> (r: Vec<char>)
    ensures
        r@ == table_line(string_views(cells@), widths@.map_values(|w: usize| w as nat)),
{
    let n = if cells.len() < widths.len() {
        cells.len()
    } else {
        widths.len()
    };
    let ghost ws = widths@.map_values(|w: usize| w as nat);
    let ghost padded = Seq::new(n as nat, |k: int| pad(string_views(cells@)[k], ws[k]));
    let mut out: Vec<char> = Vec::new();
    let mut k: usize = 0;
    assert(padded.take(0) =~= Seq::<Seq<char>>::empty());
    while k < n
        invariant
            k <= n,
            n <= cells.len(),
            n <= widths.len(),
            ws == widths@.map_values(|w: usize| w as nat),
            padded == Seq::new(n as nat, |k: int| pad(string_views(cells@)[k], ws[k])),
            out@ == join_with(padded.take(k as int), "  "@),
        decreases n - k,
    {
        let p = pad_exec(cells[k].as_str(), widths[k]);
        assert(p@ == padded[k as int]);
        let ghost prev = padded.take(k as int);
        assert(padded.take(k + 1).drop_last() =~= prev);
        if k > 0 {
            push_str(&mut out, "  ");
        }
        push_all(&mut out, &p);
        proof {
            if k == 0 {
                assert(out@ =~= padded.take(1)[0]);
            } else {
                assert(out@ =~= join_with(prev, "  "@) + "  "@ + padded.take(k + 1).last());
            }
        }
        k += 1;
    }
    assert(padded.take(n as int) =~= padded);
    out
}

/// The lines of a table menu.
pub fn table_lines(headers: &Vec<String>, rows: &Vec<Vec<String>>) -> (r: Vec<String>)
    requires
        rows@.len() < usize::MAX,
    ensures
        string_views(r@) == spec_table_lines(string_views(headers@), rows_view(rows@)),
{
    let ghost hs = string_views(headers@);
    let ghost rs = rows_view(rows@);
    let mut widths: Vec<usize> = Vec::new();
    let mut j: usize = 0;
    while j < headers.len()
        invariant
            j <= headers.len(),
            hs == string_views(headers@),
            rs == rows_view(rows@),
            widths@.len() == j,
            forall|k: int| 0 <= k < j ==> (#[trigger] widths@[k]) as nat == column_width(hs[k], rs, k),
        decreases headers.len() - j,
    {
        let mut w = byte_len_exec(headers[j].as_str());
        let mut i: usize = 0;
        assert(rs.take(0) =~= Seq::<Seq<Seq<char>>>::empty());
        while i < rows.len()
            invariant
                i <= rows.len(),
                j < headers.len(),
                hs == string_views(headers@),
                rs == rows_view(rows@),
                w as nat == column_width(hs[j as int], rs.take(i as int), j as int),
            decreases rows.len() - i,
        {
            assert(rs.take(i + 1).drop_last() =~= rs.take(i as int));
            assert(rs.take(i + 1).last() == string_views(rows@[i as int]@));
            if j < rows[i].len() {
                let c = byte_len_exec(rows[i][j].as_str());
                if c > w {
                    w = c;
                }
            }
            i += 1;
        }
        assert(rs.take(rows.len() as int) =~= rs);
        widths.push(w);
        j += 1;
    }
    let ghost ws = widths@.map_values(|w: usize| w as nat);
    assert(ws =~= Seq::new(hs.len(), |j: int| column_width(hs[j], rs, j)));
    let head = line_exec(headers, &widths);
    let head_s = string_from_chars(&head);
    let rule_len = byte_len_exec(head_s.as_str());
    let mut rule: Vec<char> = Vec::new();
    let mut k: usize = 0;
    while k < rule_len
        invariant
            k <= rule_len,
            rule@ == Seq::new(k as nat, |i: int| '-'),
        decreases rule_len - k,
    {
        rule.push('-');
        k += 1;
        assert(rule@ =~= Seq::new(k as nat, |i: int| '-'));
    }
    let mut out: Vec<String> = Vec::new();
    out.push(head_s);
    out.push(string_from_chars(&rule));
    let mut i: usize = 0;
    while i < rows.len()
        invariant
            i <= rows.len(),
            rows@.len() < usize::MAX,
            rs == rows_view(rows@),
            ws == widths@.map_values(|w: usize| w as nat),
            out@.len() == i + 2,
            string_views(out@).take(2) == seq![head@, rule@],
            forall|q: int| 0 <= q < i ==> (#[trigger] out@[q + 2])@ == entry_line(q as nat, table_line(rs[q], ws)),
        decreases rows.len() - i,
    {
        let line = line_exec(&rows[i], &widths);
        let text = string_from_chars(&line);
        let ghost before = out@;
        out.push(entry_line_exec(i, text.as_str()));
        assert(string_views(out@).take(2) =~= string_views(before).take(2));
        i += 1;
    }
    proof {
        let wspec = Seq::new(hs.len(), |j: int| column_width(hs[j], rs, j));
        assert(ws == wspec);
        assert(head@ == table_line(hs, wspec));
        let spec = spec_table_lines(hs, rs);
        assert(spec.len() == out@.len());
        assert(string_views(out@)[0] == string_views(out@).take(2)[0]);
        assert(string_views(out@)[1] == string_views(out@).take(2)[1]);
        assert forall|q: int| 0 <= q < spec.len() implies #[trigger] string_views(out@)[q] == spec[q] by {
            if q >= 2 {
                assert(out@[(q - 2) + 2]@ == entry_line((q - 2) as nat, table_line(rs[q - 2], ws)));
            }
        }
        assert(string_views(out@) =~= spec);
    }
    out
}

} // verus!
