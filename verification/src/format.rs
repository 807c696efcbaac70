//! Terminal-safe text and Markdown export.

use vstd::prelude::*;

use crate::text::{decimal, join_strings, join_with, push_char, render_decimal};
use crate::types::{annotation_views, Annotation, AnnotationView};
use crate::width::{
    cells_of, grapheme_clusters, graphemes, lemma_cells_of_push, string_views, string_width,
    unicode_str_width,
};

verus! {

// ---------------------------------------------------------------------------------------------
// Control characters.

/// The control characters that terminal display drops: everything below U+0020 except tab,
/// newline and carriage return, and DEL.
pub open spec fn dropped_control(c: char) -> bool {
    c <= '\u{0008}' || c == '\u{000b}' || c == '\u{000c}' || ('\u{000e}' <= c && c <= '\u{001f}')
        || c == '\u{007f}'
}

/// What one character becomes on the terminal: a tab is four spaces.
pub open spec fn sanitized_char(c: char) -> Seq<char> {
    if c == '\t' {
        seq![' ', ' ', ' ', ' ']
    } else if dropped_control(c) {
        seq![]
    } else {
        seq![c]
    }
}

/// The text with every character replaced by its terminal form.
pub open spec fn sanitized(text: Seq<char>) -> Seq<char>
    decreases text.len(),
{
    if text.len() == 0 {
        seq![]
    } else {
        sanitized(text.drop_last()) + sanitized_char(text.last())
    }
}

/// Remove terminal control characters while retaining useful whitespace.
///
/// The result holds no tab and none of the dropped control characters.
pub fn sanitize_terminal_text(text: &str) -> (out: String)
    ensures
        out@ == sanitized(text@),
        forall|i: int| 0 <= i < out@.len() ==> !dropped_control(#[trigger] out@[i]) && out@[i] != '\t',
{
    let chars = crate::text::chars_of(text);
    let mut out = String::new();
    let mut i: usize = 0;
    while i < chars.len()
        invariant
            i <= chars@.len(),
            chars@ == text@,
            out@ == sanitized(chars@.take(i as int)),
            forall|k: int| 0 <= k < out@.len() ==> !dropped_control(#[trigger] out@[k]) && out@[k]
                != '\t',
        decreases chars@.len() - i,
    {
        let c = chars[i];
        proof {
            assert(chars@.take(i + 1).drop_last() =~= chars@.take(i as int));
            assert(chars@.take(i + 1).last() == c);
        }
        let ghost before = out@;
        if c == '\t' {
            push_char(&mut out, ' ');
            push_char(&mut out, ' ');
            push_char(&mut out, ' ');
            push_char(&mut out, ' ');
            assert(out@ =~= before + seq![' ', ' ', ' ', ' ']);
        } else if c <= '\u{0008}' || c == '\u{000b}' || c == '\u{000c}' || ('\u{000e}' <= c && c
            <= '\u{001f}') || c == '\u{007f}' {
            assert(out@ =~= before + Seq::<char>::empty());
        } else {
            push_char(&mut out, c);
            assert(out@ =~= before + seq![c]);
        }
        i = i + 1;
    }
    assert(chars@.take(chars@.len() as int) =~= chars@);
    out
}

// ---------------------------------------------------------------------------------------------
// Wrapping.

/// The text with each `\r\n` replaced by `\n`, matching from the left.
pub open spec fn lf_normalized(text: Seq<char>) -> Seq<char>
    decreases text.len(),
{
    if text.len() == 0 {
        seq![]
    } else if text.len() >= 2 && text[0] == '\r' && text[1] == '\n' {
        seq!['\n'] + lf_normalized(text.skip(2))
    } else {
        seq![text[0]] + lf_normalized(text.drop_first())
    }
}

/// The pieces of `text` between `\n` characters; always at least one.
pub open spec fn split_newlines(text: Seq<char>) -> Seq<Seq<char>>
    decreases text.len(),
{
    if text.len() == 0 {
        seq![seq![]]
    } else {
        let before = split_newlines(text.drop_last());
        if text.last() == '\n' {
            before.push(seq![])
        } else {
            before.update(before.len() - 1, before.last().push(text.last()))
        }
    }
}

/// The rows one source line wraps into, with the row being filled and its width so far.
pub struct WrapState {
    pub done: Seq<Seq<char>>,
    pub current: Seq<char>,
    pub used: int,
}

/// Add one cluster: it starts a new row when it would overflow a row that already holds text.
pub open spec fn wrap_step(s: WrapState, g: Seq<char>, width: int) -> WrapState {
    let cells = unicode_str_width(g) as int;
    if s.used + cells > width && s.current.len() > 0 {
        WrapState { done: s.done.push(s.current), current: g, used: cells }
    } else {
        WrapState { done: s.done, current: s.current + g, used: s.used + cells }
    }
}

/// The rows after adding the clusters in order.
pub open spec fn wrap_fold(clusters: Seq<Seq<char>>, width: int) -> WrapState
    decreases clusters.len(),
{
    if clusters.len() == 0 {
        WrapState { done: seq![], current: seq![], used: 0 }
    } else {
        wrap_step(wrap_fold(clusters.drop_last(), width), clusters.last(), width)
    }
}

/// The rows one source line wraps into; an empty line stays one empty row.
pub open spec fn wrapped_line(line: Seq<char>, width: int) -> Seq<Seq<char>> {
    if line.len() == 0 {
        seq![seq![]]
    } else {
        let s = wrap_fold(grapheme_clusters(line), width);
        s.done.push(s.current)
    }
}

/// The rows of each line, concatenated.
pub open spec fn wrapped_lines(lines: Seq<Seq<char>>, width: int) -> Seq<Seq<char>>
    decreases lines.len(),
{
    if lines.len() == 0 {
        seq![]
    } else {
        wrapped_lines(lines.drop_last(), width) + wrapped_line(lines.last(), width)
    }
}

/// The rows `wrap_text` produces.
pub open spec fn wrapped(text: Seq<char>, width: int) -> Seq<Seq<char>> {
    wrapped_lines(split_newlines(lf_normalized(text)), if width < 1 { 1 } else { width })
}

/// The rows of one source line as lists of whole clusters, built as `wrap_fold` builds their
/// text.
pub struct RowClusters {
    pub done: Seq<Seq<Seq<char>>>,
    pub current: Seq<Seq<char>>,
    pub used: int,
}

/// Add one cluster to the rows, breaking where `wrap_step` breaks.
pub open spec fn row_clusters_step(s: RowClusters, g: Seq<char>, width: int) -> RowClusters {
    let cells = unicode_str_width(g) as int;
    if s.used + cells > width && s.current.len() > 0 {
        RowClusters { done: s.done.push(s.current), current: seq![g], used: cells }
    } else {
        RowClusters { done: s.done, current: s.current.push(g), used: s.used + cells }
    }
}

/// The cluster rows after adding the clusters in order.
pub open spec fn row_clusters_fold(clusters: Seq<Seq<char>>, width: int) -> RowClusters
    decreases clusters.len(),
{
    if clusters.len() == 0 {
        RowClusters { done: seq![], current: seq![], used: 0 }
    } else {
        row_clusters_step(row_clusters_fold(clusters.drop_last(), width), clusters.last(), width)
    }
}

/// The clusters of each row one source line wraps into.
pub open spec fn line_row_clusters(line: Seq<char>, width: int) -> Seq<Seq<Seq<char>>> {
    if line.len() == 0 {
        seq![seq![]]
    } else {
        let s = row_clusters_fold(grapheme_clusters(line), width);
        s.done.push(s.current)
    }
}

/// The clusters of each row of each line, concatenated.
pub open spec fn lines_row_clusters(lines: Seq<Seq<char>>, width: int) -> Seq<Seq<Seq<char>>>
    decreases lines.len(),
{
    if lines.len() == 0 {
        seq![]
    } else {
        lines_row_clusters(lines.drop_last(), width) + line_row_clusters(lines.last(), width)
    }
}

/// The clusters of each row `wrap_text` produces.
pub open spec fn wrapped_clusters(text: Seq<char>, width: int) -> Seq<Seq<Seq<char>>> {
    lines_row_clusters(split_newlines(lf_normalized(text)), if width < 1 { 1 } else { width })
}

/// The text of each row given as clusters.
pub open spec fn rows_text(rows: Seq<Seq<Seq<char>>>) -> Seq<Seq<char>> {
    rows.map_values(|r: Seq<Seq<char>>| r.flatten())
}

/// A row fits when its clusters take at most `width` cells; a single cluster wider than the
/// row has a row of its own.
pub open spec fn row_fits(row: Seq<Seq<char>>, width: int) -> bool {
    cells_of(row) <= width || row.len() == 1
}

proof fn lemma_row_clusters(clusters: Seq<Seq<char>>, width: int)
    requires
        0 <= width,
        forall|k: int| 0 <= k < clusters.len() ==> (#[trigger] clusters[k]).len() > 0,
    ensures
        ({
            let s = row_clusters_fold(clusters, width);
            let t = wrap_fold(clusters, width);
            &&& rows_text(s.done) == t.done
            &&& s.current.flatten() == t.current
            &&& s.used == t.used
            &&& cells_of(s.current) == s.used
            &&& (s.current.len() == 0) == (t.current.len() == 0)
            &&& s.used <= width || s.current.len() == 1
            &&& forall|k: int| 0 <= k < s.done.len() ==> row_fits(#[trigger] s.done[k], width)
        }),
    decreases clusters.len(),
{
    broadcast use Seq::lemma_flatten_push;

    if clusters.len() == 0 {
        assert(rows_text(Seq::<Seq<Seq<char>>>::empty()) =~= Seq::<Seq<char>>::empty());
        assert(cells_of(Seq::<Seq<char>>::empty()) == 0);
        assert(Seq::<Seq<char>>::empty().flatten() =~= Seq::<char>::empty());
    } else {
        let prev = clusters.drop_last();
        let g = clusters.last();
        assert(g == clusters[clusters.len() - 1]);
        assert forall|k: int| 0 <= k < prev.len() implies (#[trigger] prev[k]).len() > 0 by {
            assert(prev[k] == clusters[k]);
        }
        lemma_row_clusters(prev, width);
        let s = row_clusters_fold(prev, width);
        let t = wrap_fold(prev, width);
        let cells = unicode_str_width(g) as int;
        let s1 = row_clusters_fold(clusters, width);
        let t1 = wrap_fold(clusters, width);
        assert(s1 == row_clusters_step(s, g, width));
        assert(t1 == wrap_step(t, g, width));
        lemma_cells_of_push(s.current, g);
        lemma_cells_of_push(Seq::<Seq<char>>::empty(), g);
        assert(seq![g] =~= Seq::<Seq<char>>::empty().push(g));
        assert(Seq::<Seq<char>>::empty().flatten() =~= Seq::<char>::empty());
        assert(seq![g].flatten() == g);
        assert(cells_of(Seq::<Seq<char>>::empty()) == 0);
        if s.used + cells > width && s.current.len() > 0 {
            assert(rows_text(s.done.push(s.current)) =~= rows_text(s.done).push(s.current.flatten()));
            assert forall|k: int| 0 <= k < s1.done.len() implies row_fits(#[trigger] s1.done[k], width) by {
                if k < s.done.len() {
                    assert(s1.done[k] == s.done[k]);
                } else {
                    assert(s1.done[k] == s.current);
                }
            }
        } else {
            assert(s1.done == s.done);
            assert(s.current.push(g).flatten() == s.current.flatten() + g);
        }
    }
}

/// The characters other than `\n`.
pub open spec fn without_newlines(text: Seq<char>) -> Seq<char> {
    text.filter(|c: char| c != '\n')
}

fn normalize_newlines(text: &[char]) -> (out: Vec<char>)
    ensures
        out@ == lf_normalized(text@),
{
    let mut out: Vec<char> = Vec::new();
    let mut i: usize = 0;
    assert(text@.skip(0) =~= text@);
    while i < text.len()
        invariant
            i <= text@.len(),
            out@ + lf_normalized(text@.skip(i as int)) == lf_normalized(text@),
        decreases text@.len() - i,
    {
        let ghost rest = text@.skip(i as int);
        let ghost before = out@;
        if i + 1 < text.len() && text[i] == '\r' && text[i + 1] == '\n' {
            out.push('\n');
            assert(rest[0] == '\r' && rest[1] == '\n');
            assert(rest.skip(2) =~= text@.skip(i + 2));
            i = i + 2;
            assert(out@ + lf_normalized(text@.skip(i as int)) =~= before + (seq!['\n']
                + lf_normalized(rest.skip(2))));
        } else {
            out.push(text[i]);
            assert(rest[0] == text@[i as int]);
            assert(rest.drop_first() =~= text@.skip(i + 1));
            i = i + 1;
            assert(out@ + lf_normalized(text@.skip(i as int)) =~= before + (seq![rest[0]]
                + lf_normalized(rest.drop_first())));
        }
    }
    assert(text@.skip(i as int) =~= Seq::<char>::empty());
    assert(out@ + Seq::<char>::empty() =~= out@);
    out
}

pub(crate) proof fn lemma_split_nonempty(text: Seq<char>)
    ensures
        split_newlines(text).len() >= 1,
    decreases text.len(),
{
    if text.len() > 0 {
        lemma_split_nonempty(text.drop_last());
    }
}

/// The pieces of the text between newline characters.
pub fn split_on_newlines(text: &[char]) -> (lines: Vec<String>)
    ensures
        string_views(lines@) == split_newlines(text@),
{
    let mut done: Vec<String> = Vec::new();
    let mut current: Vec<char> = Vec::new();
    let mut i: usize = 0;
    assert(text@.take(0) =~= Seq::<char>::empty());
    while i < text.len()
        invariant
            i <= text@.len(),
            string_views(done@).push(current@) == split_newlines(text@.take(i as int)),
        decreases text@.len() - i,
    {
        proof {
            assert(text@.take(i + 1).drop_last() =~= text@.take(i as int));
            assert(text@.take(i + 1).last() == text@[i as int]);
            lemma_split_nonempty(text@.take(i as int));
        }
        let ghost before = string_views(done@).push(current@);
        if text[i] == '\n' {
            let line = crate::text::string_of(current.as_slice());
            done.push(line);
            current = Vec::new();
            assert(string_views(done@).push(current@) =~= before.push(seq![]));
        } else {
            current.push(text[i]);
            assert(string_views(done@).push(current@) =~= before.update(
                before.len() - 1,
                before.last().push(text@[i as int]),
            ));
        }
        i = i + 1;
    }
    assert(text@.take(text@.len() as int) =~= text@);
    let ghost finished = done@;
    done.push(crate::text::string_of(current.as_slice()));
    assert(string_views(done@) =~= string_views(finished).push(current@));
    done
}

proof fn lemma_take_last<A>(s: Seq<A>, i: int)
    requires
        0 <= i < s.len(),
    ensures
        s.take(i + 1).drop_last() == s.take(i),
        s.take(i + 1).last() == s[i],
{
    assert(s.take(i + 1).drop_last() =~= s.take(i));
}

fn wrap_line(line: &str, width: usize) -> (rows: Vec<String>)
    requires
        width >= 1,
    ensures
        string_views(rows@) == wrapped_line(line@, width as int),
        string_views(rows@).flatten() == line@,
        rows_text(line_row_clusters(line@, width as int)) == string_views(rows@),
        forall|k: int|
            0 <= k < rows@.len() ==> row_fits(
                #[trigger] line_row_clusters(line@, width as int)[k],
                width as int,
            ),
{
    if line.unicode_len() == 0 {
        let rows = vec![String::new()];
        assert(string_views(rows@) =~= seq![Seq::<char>::empty()]);
        proof {
            seq![Seq::<char>::empty()].lemma_flatten_one_element();
            assert(line@ =~= Seq::<char>::empty());
            assert(rows_text(seq![seq![]]) =~= seq![Seq::<char>::empty()]) by {
                Seq::<Seq<char>>::empty().lemma_flatten_one_element();
                assert(Seq::<Seq<char>>::empty().flatten() =~= Seq::<char>::empty());
            }
            assert(cells_of(Seq::<Seq<char>>::empty()) == 0);
        }
        return rows;
    }
    let clusters = graphemes(line);
    let ghost gs = string_views(clusters@);
    let mut done: Vec<String> = Vec::new();
    let mut current = String::new();
    let mut current_empty = true;
    let mut used: usize = 0;
    let mut i: usize = 0;
    assert(gs.take(0) =~= Seq::<Seq<char>>::empty());
    while i < clusters.len()
        invariant
            i <= clusters@.len(),
            gs == string_views(clusters@),
            gs == grapheme_clusters(line@),
            forall|k: int| 0 <= k < clusters@.len() ==> (#[trigger] clusters@[k])@.len() > 0,
            width >= 1,
            ({
                let s = wrap_fold(gs.take(i as int), width as int);
                &&& string_views(done@) == s.done
                &&& current@ == s.current
                &&& used == s.used
            }),
            current_empty == (current@.len() == 0),
            current_empty ==> used == 0,
        decreases clusters@.len() - i,
    {
        proof {
            lemma_take_last(gs, i as int);
        }
        let ghost g = gs[i as int];
        let cells = string_width(clusters[i].as_str());
        let fits = used <= width && cells <= width - used;
        if !fits && !current_empty {
            done.push(current);
            current = String::new();
            current.append(clusters[i].as_str());
            used = cells;
        } else {
            current.append(clusters[i].as_str());
            used = used + cells;
        }
        current_empty = false;
        i = i + 1;
        assert(string_views(done@) =~= wrap_fold(gs.take(i as int), width as int).done);
    }
    assert(gs.take(clusters@.len() as int) =~= gs);
    let ghost finished = done@;
    done.push(current);
    assert(string_views(done@) =~= string_views(finished).push(wrap_fold(gs, width as int).current));
    proof {
        lemma_wrap_fold_flatten(gs, width as int);
        lemma_row_clusters(gs, width as int);
        let r = row_clusters_fold(gs, width as int);
        assert(rows_text(r.done.push(r.current)) =~= rows_text(r.done).push(r.current.flatten()));
        assert forall|k: int| 0 <= k < done@.len() implies row_fits(
            #[trigger] line_row_clusters(line@, width as int)[k],
            width as int,
        ) by {
            if k < r.done.len() {
                assert(line_row_clusters(line@, width as int)[k] == r.done[k]);
            }
        }
    }
    done
}

/// Wrap text to terminal-cell-width lines while preserving explicit newlines.
///
/// Only row breaks are added: the rows, concatenated, give back the text without its newlines.
pub fn wrap_text(text: &str, width: usize) -> (rows: Vec<String>)
    ensures
        string_views(rows@) == wrapped(text@, width as int),
        string_views(rows@).flatten() == without_newlines(lf_normalized(text@)),
        // Every row is a run of whole clusters that fits the width, or one wider cluster.
        rows_text(wrapped_clusters(text@, width as int)) == string_views(rows@),
        forall|k: int|
            0 <= k < rows@.len() ==> row_fits(
                #[trigger] wrapped_clusters(text@, width as int)[k],
                if width < 1 {
                    1
                } else {
                    width as int
                },
            ),
{
    let safe_width: usize = if width < 1 { 1 } else { width };
    let chars = crate::text::chars_of(text);
    let normalized = normalize_newlines(chars.as_slice());
    let lines = split_on_newlines(normalized.as_slice());
    let ghost source = string_views(lines@);
    let mut rows: Vec<String> = Vec::new();
    let mut i: usize = 0;
    assert(source.take(0) =~= Seq::<Seq<char>>::empty());
    assert(rows_text(lines_row_clusters(source.take(0), safe_width as int)) =~= Seq::<
        Seq<char>,
    >::empty());
    while i < lines.len()
        invariant
            i <= lines@.len(),
            source == string_views(lines@),
            safe_width >= 1,
            string_views(rows@) == wrapped_lines(source.take(i as int), safe_width as int),
            string_views(rows@).flatten() == source.take(i as int).flatten(),
            rows_text(lines_row_clusters(source.take(i as int), safe_width as int)) == string_views(
                rows@,
            ),
            forall|k: int|
                0 <= k < rows@.len() ==> row_fits(
                    #[trigger] lines_row_clusters(source.take(i as int), safe_width as int)[k],
                    safe_width as int,
                ),
        decreases lines@.len() - i,
    {
        proof {
            lemma_take_last(source, i as int);
        }
        let piece = wrap_line(lines[i].as_str(), safe_width);
        let ghost before = rows@;
        let mut k: usize = 0;
        while k < piece.len()
            invariant
                k <= piece@.len(),
                rows@ == before + piece@.take(k as int),
            decreases piece@.len() - k,
        {
            rows.push(piece[k].clone());
            k = k + 1;
            assert(rows@ =~= before + piece@.take(k as int));
        }
        assert(piece@.take(piece@.len() as int) =~= piece@);
        assert(string_views(rows@) =~= string_views(before) + string_views(piece@));
        proof {
            lemma_flatten_concat(string_views(before), string_views(piece@));
            lemma_flatten_concat(source.take(i as int), seq![source[i as int]]);
            assert(source.take(i + 1) =~= source.take(i as int) + seq![source[i as int]]);
            seq![source[i as int]].lemma_flatten_one_element();
            let prior = lines_row_clusters(source.take(i as int), safe_width as int);
            let added = line_row_clusters(source[i as int], safe_width as int);
            assert(lines_row_clusters(source.take(i + 1), safe_width as int) == prior + added);
            assert(rows_text(prior + added) =~= rows_text(prior) + rows_text(added));
            assert forall|k: int| 0 <= k < rows@.len() implies row_fits(
                #[trigger] (prior + added)[k],
                safe_width as int,
            ) by {
                if k < prior.len() {
                    assert((prior + added)[k] == prior[k]);
                } else {
                    assert((prior + added)[k] == added[k - prior.len()]);
                    assert(piece@[k - prior.len()]@ == rows_text(added)[k - prior.len()]);
                }
            }
        }
        i = i + 1;
    }
    assert(source.take(lines@.len() as int) =~= source);
    proof {
        lemma_split_flatten(normalized@);
    }
    rows
}

proof fn lemma_wrap_fold_flatten(clusters: Seq<Seq<char>>, width: int)
    ensures
        ({
            let s = wrap_fold(clusters, width);
            s.done.push(s.current).flatten() == clusters.flatten()
        }),
    decreases clusters.len(),
{
    broadcast use Seq::lemma_flatten_push;

    if clusters.len() == 0 {
        assert(seq![Seq::<char>::empty()].drop_first() =~= Seq::<Seq<char>>::empty());
    } else {
        let prev = clusters.drop_last();
        lemma_wrap_fold_flatten(prev, width);
        Seq::lemma_flatten_and_flatten_alt_are_equivalent(clusters);
        Seq::lemma_flatten_and_flatten_alt_are_equivalent(prev);
        let s = wrap_fold(prev, width);
        assert(s.done.push(s.current).flatten() == s.done.flatten() + s.current);
        assert(s.done.push(s.current).push(clusters.last()).flatten() == s.done.flatten() + s.current
            + clusters.last());
        assert(s.done.push(s.current + clusters.last()).flatten() =~= s.done.flatten() + s.current
            + clusters.last());
    }
}


proof fn lemma_flatten_concat(a: Seq<Seq<char>>, b: Seq<Seq<char>>)
    ensures
        (a + b).flatten() == a.flatten() + b.flatten(),
    decreases a.len(),
{
    if a.len() == 0 {
        assert(a + b =~= b);
    } else {
        lemma_flatten_concat(a.drop_first(), b);
        assert((a + b).drop_first() =~= a.drop_first() + b);
        assert((a + b)[0] == a[0]);
    }
}

proof fn lemma_split_flatten(text: Seq<char>)
    ensures
        split_newlines(text).flatten() == without_newlines(text),
    decreases text.len(),
{
    broadcast use Seq::lemma_flatten_push;

    reveal_with_fuel(Seq::filter, 1);
    if text.len() == 0 {
        assert(seq![Seq::<char>::empty()].drop_first() =~= Seq::<Seq<char>>::empty());
        assert(without_newlines(text) =~= Seq::<char>::empty());
    } else {
        let prev = text.drop_last();
        lemma_split_flatten(prev);
        lemma_split_nonempty(prev);
        let before = split_newlines(prev);
        Seq::lemma_flatten_and_flatten_alt_are_equivalent(before);
        assert(text =~= prev.push(text.last()));
        if text.last() == '\n' {
            assert(without_newlines(text) == without_newlines(prev));
        } else {
            assert(without_newlines(text) == without_newlines(prev).push(text.last()));
            let updated = before.update(before.len() - 1, before.last().push(text.last()));
            Seq::lemma_flatten_and_flatten_alt_are_equivalent(updated);
            assert(updated.drop_last() =~= before.drop_last());
            assert(before.flatten_alt() == before.drop_last().flatten_alt() + before.last());
        }
    }
}

// ---------------------------------------------------------------------------------------------
// Markdown export.

/// The longest run of backticks in the text, and the run at its end.
pub open spec fn backtick_runs(text: Seq<char>) -> (int, int)
    decreases text.len(),
{
    if text.len() == 0 {
        (0, 0)
    } else {
        let (longest, current) = backtick_runs(text.drop_last());
        if text.last() == '`' {
            (if current + 1 > longest { current + 1 } else { longest }, current + 1)
        } else {
            (longest, 0)
        }
    }
}

/// How many backticks fence the text: one more than its longest run, and at least three.
pub open spec fn fence_len(text: Seq<char>) -> int {
    let longest = backtick_runs(text).0;
    if longest + 1 > 3 { longest + 1 } else { 3 }
}

/// The code fence for a text.
pub open spec fn fence(text: Seq<char>) -> Seq<char> {
    Seq::new(fence_len(text) as nat, |i: int| '`')
}

/// Whether `text[start..end]` is all backticks.
pub open spec fn backtick_run(text: Seq<char>, start: int, end: int) -> bool {
    forall|k: int| start <= k < end ==> text[k] == '`'
}

proof fn lemma_backtick_runs(text: Seq<char>)
    ensures
        0 <= backtick_runs(text).1 <= backtick_runs(text).0,
        backtick_runs(text).1 <= text.len(),
        backtick_run(text, text.len() - backtick_runs(text).1, text.len() as int),
        forall|start: int, end: int|
            0 <= start <= end <= text.len() && backtick_run(text, start, end) ==> end - start
                <= backtick_runs(text).0,
        forall|start: int|
            0 <= start <= text.len() && backtick_run(text, start, text.len() as int) ==> text.len()
                - start <= backtick_runs(text).1,
    decreases text.len(),
{
    if text.len() > 0 {
        let prev = text.drop_last();
        lemma_backtick_runs(prev);
        let (longest, current) = backtick_runs(prev);
        assert forall|start: int, end: int|
            0 <= start <= end <= text.len() && backtick_run(text, start, end) implies end - start
                <= backtick_runs(text).0 by {
            if end == text.len() && start < end {
                assert(backtick_run(prev, start, prev.len() as int)) by {
                    assert forall|k: int| start <= k < prev.len() implies prev[k] == '`' by {
                        assert(text[k] == '`');
                    }
                }
            } else if end < text.len() {
                assert(backtick_run(prev, start, end)) by {
                    assert forall|k: int| start <= k < end implies prev[k] == '`' by {
                        assert(text[k] == '`');
                    }
                }
            }
        }
        assert forall|start: int|
            0 <= start <= text.len() && backtick_run(
                text,
                start,
                text.len() as int,
            ) implies text.len() - start <= backtick_runs(text).1 by {
            if start < text.len() {
                assert(text[text.len() - 1] == '`');
                assert(backtick_run(prev, start, prev.len() as int)) by {
                    assert forall|k: int| start <= k < prev.len() implies prev[k] == '`' by {
                        assert(text[k] == '`');
                    }
                }
            }
        }
        assert forall|k: int|
            text.len() - backtick_runs(text).1 <= k < text.len() implies text[k] == '`' by {
            if k < text.len() - 1 {
                assert(prev[k] == '`');
            }
        }
    }
}

/// A run of backticks as long as the fence cannot occur in the fenced text, so the fence
/// cannot be closed early.
pub fn fence_for(text: &str) -> (f: String)
    ensures
        f@ == fence(text@),
        f@.len() >= 3,
        forall|start: int, end: int|
            0 <= start <= end <= text@.len() && backtick_run(text@, start, end) ==> end - start
                < f@.len(),
{
    let chars = crate::text::chars_of(text);
    let mut longest: usize = 0;
    let mut current: usize = 0;
    let mut i: usize = 0;
    while i < chars.len()
        invariant
            i <= chars@.len(),
            chars@ == text@,
            (longest as int, current as int) == backtick_runs(chars@.take(i as int)),
            current <= i,
            longest <= i,
        decreases chars@.len() - i,
    {
        proof {
            lemma_take_last(chars@, i as int);
            lemma_backtick_runs(chars@.take(i as int));
        }
        if chars[i] == '`' {
            current = current + 1;
            if current > longest {
                longest = current;
            }
        } else {
            current = 0;
        }
        i = i + 1;
    }
    assert(chars@.take(chars@.len() as int) =~= chars@);
    proof {
        lemma_backtick_runs(text@);
    }
    let count: u128 = if (longest as u128) + 1 > 3 { (longest as u128) + 1 } else { 3 };
    let mut f = String::new();
    let mut k: u128 = 0;
    while k < count
        invariant
            k <= count,
            count == fence_len(text@),
            f@ == Seq::new(k as nat, |i: int| '`'),
        decreases count - k,
    {
        push_char(&mut f, '`');
        k = k + 1;
        assert(f@ =~= Seq::new(k as nat, |i: int| '`'));
    }
    f
}

/// The workspace and tab labels that are present, in that order.
pub open spec fn label_parts(annotation: AnnotationView) -> Seq<Seq<char>> {
    let workspace = match annotation.context.workspace_label {
        Some(label) => seq![label],
        None => seq![],
    };
    let tab = match annotation.context.tab_label {
        Some(label) => seq![label],
        None => seq![],
    };
    workspace + tab
}

/// The `Source:` block of a section, empty when there is no source.
pub open spec fn source_block(annotation: AnnotationView) -> Seq<char> {
    let source = join_with(label_parts(annotation), " / "@);
    if source.len() == 0 {
        seq![]
    } else {
        "\nSource: "@ + source + seq!['\n']
    }
}

/// The lines of the section for the annotation at `index`, before blank runs are squeezed.
pub open spec fn section_lines(index: nat, annotation: AnnotationView) -> Seq<Seq<char>> {
    seq![
        "## Annotation "@ + decimal(index + 1),
        source_block(annotation),
        "Selected text:"@,
        seq![],
        fence(annotation.selected_text),
        annotation.selected_text,
        fence(annotation.selected_text),
        seq![],
        "Comment:"@,
        seq![],
        annotation.comment,
    ]
}

/// The lines with every empty line that follows an empty line dropped.
pub open spec fn squeeze_blank_lines(lines: Seq<Seq<char>>) -> Seq<Seq<char>>
    decreases lines.len(),
{
    if lines.len() == 0 {
        seq![]
    } else {
        let kept = squeeze_blank_lines(lines.drop_last());
        if lines.last().len() == 0 && kept.len() > 0 && kept.last().len() == 0 {
            kept
        } else {
            kept.push(lines.last())
        }
    }
}

/// One annotation's section of the export.
pub open spec fn section(index: nat, annotation: AnnotationView) -> Seq<char> {
    join_with(squeeze_blank_lines(section_lines(index, annotation)), seq!['\n'])
}

/// The Markdown export: a title, then the sections separated by blank lines.
pub open spec fn markdown(annotations: Seq<AnnotationView>) -> Seq<char> {
    "# Annotated context\n\n"@ + join_with(
        Seq::new(annotations.len(), |i: int| section(i as nat, annotations[i])),
        seq!['\n', '\n'],
    ) + seq!['\n']
}

fn source_text(annotation: &Annotation) -> (block: String)
    ensures
        block@ == source_block(annotation@),
{
    let mut parts: Vec<String> = Vec::new();
    match &annotation.context.workspace_label {
        Some(label) => parts.push(label.clone()),
        None => {},
    }
    match &annotation.context.tab_label {
        Some(label) => parts.push(label.clone()),
        None => {},
    }
    assert(parts@.map_values(|p: String| p@) =~= label_parts(annotation@));
    let source = join_strings(&parts, " / ");
    if source.as_str().unicode_len() == 0 {
        String::new()
    } else {
        let mut block = String::from_str("\nSource: ");
        block.append(source.as_str());
        push_char(&mut block, '\n');
        block
    }
}

fn squeeze(lines: Vec<String>) -> (kept: Vec<String>)
    ensures
        string_views(kept@) == squeeze_blank_lines(string_views(lines@)),
{
    let ghost all = string_views(lines@);
    let mut kept: Vec<String> = Vec::new();
    let mut last_empty = false;
    let mut i: usize = 0;
    assert(all.take(0) =~= Seq::<Seq<char>>::empty());
    while i < lines.len()
        invariant
            i <= lines@.len(),
            all == string_views(lines@),
            string_views(kept@) == squeeze_blank_lines(all.take(i as int)),
            last_empty == (kept@.len() > 0 && kept@.last()@.len() == 0),
        decreases lines@.len() - i,
    {
        proof {
            lemma_take_last(all, i as int);
        }
        let empty = lines[i].as_str().unicode_len() == 0;
        if empty && last_empty {
        } else {
            let ghost before = kept@;
            kept.push(lines[i].clone());
            assert(string_views(kept@) =~= string_views(before).push(all[i as int]));
            last_empty = empty;
        }
        i = i + 1;
    }
    assert(all.take(lines@.len() as int) =~= all);
    kept
}

fn format_section(index: usize, annotation: &Annotation) -> (text: String)
    requires
        index < usize::MAX,
    ensures
        text@ == section(index as nat, annotation@),
{
    let fence = fence_for(annotation.selected_text.as_str());
    let mut lines: Vec<String> = Vec::new();
    let mut heading = String::from_str("## Annotation ");
    let number = render_decimal((index + 1) as u128);
    heading.append(number.as_str());
    lines.push(heading);
    lines.push(source_text(annotation));
    lines.push(String::from_str("Selected text:"));
    lines.push(String::new());
    lines.push(fence.clone());
    lines.push(annotation.selected_text.clone());
    lines.push(fence);
    lines.push(String::new());
    lines.push(String::from_str("Comment:"));
    lines.push(String::new());
    lines.push(annotation.comment.clone());
    assert(string_views(lines@) =~= section_lines(index as nat, annotation@));
    let kept = squeeze(lines);
    let text = join_strings(&kept, "\n");
    proof {
        reveal_strlit("\n");
        assert("\n"@ =~= seq!['\n']);
    }
    text
}

/// Format saved annotations as portable, agent-neutral Markdown context.
pub fn format_annotations(annotations: &[Annotation]) -> (markdown_text: String)
    ensures
        markdown_text@ == markdown(annotation_views(annotations@)),
{
    let ghost views = annotation_views(annotations@);
    let ghost all_sections = Seq::new(views.len(), |i: int| section(i as nat, views[i]));
    let mut sections: Vec<String> = Vec::new();
    let mut i: usize = 0;
    while i < annotations.len()
        invariant
            i <= annotations@.len(),
            views == annotation_views(annotations@),
            all_sections == Seq::new(views.len(), |i: int| section(i as nat, views[i])),
            string_views(sections@) == all_sections.take(i as int),
        decreases annotations@.len() - i,
    {
        let ghost before = sections@;
        let text = format_section(i, &annotations[i]);
        assert(views[i as int] == annotations@[i as int]@);
        assert(all_sections[i as int] == section(i as nat, views[i as int]));
        assert(text@ == all_sections[i as int]);
        sections.push(text);
        assert(string_views(sections@) =~= string_views(before).push(all_sections[i as int]));
        assert(all_sections.take(i + 1) =~= all_sections.take(i as int).push(all_sections[i as int]));
        i = i + 1;
    }
    assert(all_sections.take(annotations@.len() as int) =~= all_sections);
    let body = join_strings(&sections, "\n\n");
    let mut out = String::from_str("# Annotated context\n\n");
    out.append(body.as_str());
    push_char(&mut out, '\n');
    proof {
        reveal_strlit("\n\n");
        assert("\n\n"@ =~= seq!['\n', '\n']);
    }
    out
}

/// The `Source:` line names every label that is present, workspace first and tab second,
/// joined by ` / `; a present label is never dropped because the other is missing, and a
/// section with neither label has no `Source:` line.
pub proof fn lemma_source_lists_present_labels(annotation: AnnotationView)
    ensures
        match (annotation.context.workspace_label, annotation.context.tab_label) {
            (Some(workspace), Some(tab)) => source_block(annotation) == "\nSource: "@ + workspace
                + " / "@ + tab + seq!['\n'],
            (Some(workspace), None) => workspace.len() > 0 ==> source_block(annotation)
                == "\nSource: "@ + workspace + seq!['\n'],
            (None, Some(tab)) => tab.len() > 0 ==> source_block(annotation) == "\nSource: "@ + tab
                + seq!['\n'],
            (None, None) => source_block(annotation).len() == 0,
        },
{
    let parts = label_parts(annotation);
    reveal_with_fuel(join_with, 3);
    match (annotation.context.workspace_label, annotation.context.tab_label) {
        (Some(workspace), Some(tab)) => {
            assert(parts =~= seq![workspace, tab]);
            assert(parts.drop_last() =~= seq![workspace]);
            reveal_strlit(" / ");
            assert(join_with(parts, " / "@).len() > 0);
        },
        (Some(workspace), None) => {
            assert(parts =~= seq![workspace]);
        },
        (None, Some(tab)) => {
            assert(parts =~= seq![tab]);
        },
        (None, None) => {
            assert(parts =~= Seq::<Seq<char>>::empty());
        },
    }
}


proof fn lemma_squeeze_prefix(lines: Seq<Seq<char>>, n: int)
    requires
        0 <= n <= lines.len(),
    ensures
        squeeze_blank_lines(lines).len() >= squeeze_blank_lines(lines.take(n)).len(),
        squeeze_blank_lines(lines).take(squeeze_blank_lines(lines.take(n)).len() as int)
            == squeeze_blank_lines(lines.take(n)),
    decreases lines.len() - n,
{
    if n == lines.len() {
        assert(lines.take(n) =~= lines);
        assert(squeeze_blank_lines(lines).take(squeeze_blank_lines(lines).len() as int)
            =~= squeeze_blank_lines(lines));
    } else {
        lemma_squeeze_prefix(lines, n + 1);
        let a = squeeze_blank_lines(lines.take(n));
        let b = squeeze_blank_lines(lines.take(n + 1));
        assert(lines.take(n + 1).drop_last() =~= lines.take(n));
        assert(b.take(a.len() as int) =~= a);
        let full = squeeze_blank_lines(lines);
        assert(full.take(a.len() as int) =~= full.take(b.len() as int).take(a.len() as int));
    }
}

proof fn lemma_join_prefix(parts: Seq<Seq<char>>, n: int, sep: Seq<char>)
    requires
        1 <= n < parts.len(),
    ensures
        join_with(parts, sep).len() >= join_with(parts.take(n), sep).len() + sep.len(),
        join_with(parts, sep).take((join_with(parts.take(n), sep).len() + sep.len()) as int)
            == join_with(parts.take(n), sep) + sep,
    decreases parts.len() - n,
{
    let j = join_with(parts, sep);
    let head = join_with(parts.take(n), sep) + sep;
    if n + 1 == parts.len() {
        assert(parts.drop_last() =~= parts.take(n));
        assert(j == join_with(parts.take(n), sep) + sep + parts.last());
        assert(j.take(head.len() as int) =~= head);
    } else {
        lemma_join_prefix(parts.drop_last(), n, sep);
        assert(parts.drop_last().take(n) =~= parts.take(n));
        let before = join_with(parts.drop_last(), sep);
        assert(j == before + sep + parts.last());
        assert(j.take(head.len() as int) =~= before.take(head.len() as int));
    }
}

/// A section starts with its heading line, then the `Source:` block when there is one, then
/// the `Selected text:` line: the source line is part of every section whose annotation has a
/// label.
pub proof fn lemma_section_starts_with_source(index: nat, annotation: AnnotationView)
    ensures
        ({
            let start = "## Annotation "@ + decimal(index + 1) + seq!['\n'] + source_block(annotation)
                + seq!['\n'] + "Selected text:"@;
            &&& section(index, annotation).len() >= start.len()
            &&& section(index, annotation).take(start.len() as int) == start
        }),
{
    let lines = section_lines(index, annotation);
    let heading = "## Annotation "@ + decimal(index + 1);
    reveal_strlit("## Annotation ");
    reveal_strlit("Selected text:");
    assert(heading.len() > 0);
    assert("Selected text:"@.len() > 0);
    lemma_squeeze_prefix(lines, 3);
    reveal_with_fuel(squeeze_blank_lines, 4);
    let first = lines.take(3);
    assert(first =~= seq![heading, source_block(annotation), "Selected text:"@]);
    assert(first.drop_last() =~= seq![heading, source_block(annotation)]);
    assert(first.drop_last().drop_last() =~= seq![heading]);
    assert(first.drop_last().drop_last().drop_last() =~= Seq::<Seq<char>>::empty());
    let kept = squeeze_blank_lines(first);
    assert(squeeze_blank_lines(seq![heading]) =~= seq![heading]) by {
        assert(seq![heading].drop_last() =~= Seq::<Seq<char>>::empty());
    }
    assert(kept =~= seq![heading, source_block(annotation), "Selected text:"@]);
    let all = squeeze_blank_lines(lines);
    assert(all.len() > 3) by {
        lemma_squeeze_prefix(lines, 4);
        let four = lines.take(4);
        assert(four.drop_last() =~= first);
        assert(squeeze_blank_lines(four).len() >= 3);
        assert(lines[3].len() == 0);
        assert(squeeze_blank_lines(four) == kept.push(lines[3]));
    }
    assert(all.take(3) == kept);
    lemma_join_prefix(all, 3, seq!['\n']);
    reveal_with_fuel(join_with, 4);
    assert(kept.drop_last() =~= seq![heading, source_block(annotation)]);
    assert(kept.drop_last().drop_last() =~= seq![heading]);
    assert(join_with(all.take(3), seq!['\n']) =~= heading + seq!['\n'] + source_block(annotation)
        + seq!['\n'] + "Selected text:"@);
}

} // verus!
