//! The line-oriented `Label: value unit` table of the memory-info file.
use vstd::prelude::*;

use crate::text::{
    copy_range, lemma_lines_concat, lemma_lines_first, lines, run_end, same_bytes, span, split_lines, split_whitespace, tokens, views, Stop,
};

verus! {

/// One row of the table: the text before the first colon, and the first word
/// after it (the unit is dropped).
pub struct MemEntry {
    pub label: Vec<u8>,
    pub value: Vec<u8>,
}

pub open spec fn entry_views(v: Seq<MemEntry>) -> Seq<(Seq<u8>, Seq<u8>)> {
    v.map_values(|e: MemEntry| (e.label@, e.value@))
}

/// The entry that a line holds, or `None` for a line with no colon or with
/// nothing but whitespace after it.
pub open spec fn row_entry(line: Seq<u8>) -> Option<(Seq<u8>, Seq<u8>)> {
    let c = span(line, Stop::Colon);
    if c < line.len() {
        let words = tokens(line.skip(c + 1 as int));
        if words.len() > 0 {
            Some((line.take(c as int), words[0]))
        } else {
            None
        }
    } else {
        None
    }
}

/// The entries of the lines `ls` that hold one, in order.
pub open spec fn rows(ls: Seq<Seq<u8>>) -> Seq<(Seq<u8>, Seq<u8>)>
    decreases ls.len(),
{
    if ls.len() == 0 {
        seq![]
    } else {
        match row_entry(ls.last()) {
            Some(e) => rows(ls.drop_last()).push(e),
            None => rows(ls.drop_last()),
        }
    }
}

/// The entries of a memory-info text.
pub open spec fn table(s: Seq<u8>) -> Seq<(Seq<u8>, Seq<u8>)> {
    rows(lines(s))
}

/// The value of the last entry labelled `label`.
pub open spec fn lookup(t: Seq<(Seq<u8>, Seq<u8>)>, label: Seq<u8>) -> Option<Seq<u8>>
    decreases t.len(),
{
    if t.len() == 0 {
        None
    } else if t.last().0 == label {
        Some(t.last().1)
    } else {
        lookup(t.drop_last(), label)
    }
}

/// Reads the entry of one line.
pub fn parse_row(line: &[u8]) -> (r: Option<MemEntry>)
    ensures
        r matches Some(e) ==> row_entry(line@) == Some((e.label@, e.value@)),
        r is None ==> row_entry(line@) is None,
{
    let c = run_end(line, 0, Stop::Colon);
    assert(line@.subrange(0, line@.len() as int) =~= line@);
    if c >= line.len() {
        return None;
    }
    let rest = &line[c + 1..line.len()];
    assert(rest@ =~= line@.skip(c + 1 as int));
    let words = split_whitespace(rest);
    if words.len() == 0 {
        return None;
    }
    let first = &words[0];
    assert(first@ == tokens(rest@)[0]);
    let label = copy_range(line, 0, c);
    let value = copy_range(first.as_slice(), 0, first.len());
    assert(label@ =~= line@.take(c as int));
    assert(value@ =~= first@);
    Some(MemEntry { label, value })
}

/// Parses a memory-info text into its entries, skipping the lines that hold
/// none.
pub fn parse_table(contents: &[u8]) -> (r: Vec<MemEntry>)
    ensures
        entry_views(r@) == table(contents@),
{
    let ls = split_lines(contents);
    let mut out: Vec<MemEntry> = Vec::new();
    let mut i: usize = 0;
    assert(views(ls@).take(0) =~= Seq::<Seq<u8>>::empty());
    assert(entry_views(out@) =~= Seq::<(Seq<u8>, Seq<u8>)>::empty());
    while i < ls.len()
        invariant
            i <= ls@.len(),
            views(ls@) == lines(contents@),
            entry_views(out@) == rows(views(ls@).take(i as int)),
        decreases ls@.len() - i,
    {
        assert(views(ls@).take(i + 1).drop_last() =~= views(ls@).take(i as int));
        assert(views(ls@).take(i + 1).last() == ls@[i as int]@);
        match parse_row(ls[i].as_slice()) {
            Some(e) => {
                assert(entry_views(out@.push(e)) =~= entry_views(out@).push((e.label@, e.value@)));
                out.push(e);
            },
            None => {},
        }
        i = i + 1;
    }
    assert(views(ls@).take(i as int) =~= views(ls@));
    out
}

/// Looks up the value of the last entry labelled `label`.
pub fn find_value<'a>(entries: &'a Vec<MemEntry>, label: &[u8]) -> (r: Option<&'a Vec<u8>>)
    ensures
        r matches Some(v) ==> lookup(entry_views(entries@), label@) == Some(v@),
        r is None ==> lookup(entry_views(entries@), label@) is None,
{
    let ghost t = entry_views(entries@);
    let mut i: usize = entries.len();
    assert(t.take(i as int) =~= t);
    while i > 0
        invariant
            i <= entries@.len(),
            t == entry_views(entries@),
            lookup(t, label@) == lookup(t.take(i as int), label@),
        decreases i,
    {
        assert(t.take(i as int).drop_last() =~= t.take(i - 1));
        assert(t.take(i as int).last() == t[i - 1]);
        let e = &entries[i - 1];
        if same_bytes(e.label.as_slice(), label) {
            return Some(&e.value);
        }
        i = i - 1;
    }
    None
}

proof fn lemma_rows_concat(a: Seq<Seq<u8>>, b: Seq<Seq<u8>>)
    ensures
        rows(a + b) == rows(a) + rows(b),
    decreases b.len(),
{
    if b.len() == 0 {
        assert(a + b =~= a);
        assert(rows(a) + rows(b) =~= rows(a));
    } else {
        assert((a + b).drop_last() =~= a + b.drop_last());
        assert((a + b).last() == b.last());
        lemma_rows_concat(a, b.drop_last());
        match row_entry(b.last()) {
            Some(e) => {
                assert(rows(a + b) =~= rows(a) + rows(b));
            },
            None => {},
        }
    }
}

/// A line that holds no entry (no colon, or nothing after it) changes nothing
/// in the table: the lines before and after it are read as without it.
pub proof fn lemma_row_without_entry_skipped(before: Seq<u8>, row: Seq<u8>, after: Seq<u8>)
    requires
        before.len() == 0 || before.last() == 10,
        forall|i: int| 0 <= i < row.len() ==> row[i] != 10,
        row_entry(row) is None,
    ensures
        table(before + row + seq![10u8] + after) == table(before + after),
{
    let tail = row + seq![10u8] + after;
    assert(before + row + seq![10u8] + after =~= before + tail);
    lemma_lines_concat(before, tail);
    lemma_lines_first(row, after);
    lemma_lines_concat(before, after);
    let lb = lines(before);
    let la = lines(after);
    assert(lines(before + tail) =~= lb + seq![row] + la);
    lemma_rows_concat(lb + seq![row], la);
    lemma_rows_concat(lb, seq![row]);
    lemma_rows_concat(lb, la);
    assert(seq![row].drop_last() =~= Seq::<Seq<u8>>::empty());
    assert(seq![row].last() == row);
    assert(rows(Seq::<Seq<u8>>::empty()) =~= Seq::<(Seq<u8>, Seq<u8>)>::empty());
    assert(rows(seq![row]) =~= Seq::<(Seq<u8>, Seq<u8>)>::empty());
    assert(rows(lb) + rows(seq![row]) =~= rows(lb));
}

} // verus!
