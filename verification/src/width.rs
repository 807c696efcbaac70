//! Terminal cell widths and grapheme clusters.
//!
//! Segmentation comes from `unicode-segmentation` and widths from `unicode-width`; both are
//! named here and the rest of the library is proved over those names.

use unicode_segmentation::UnicodeSegmentation;
use unicode_width::{UnicodeWidthChar, UnicodeWidthStr};
use vstd::prelude::*;

verus! {

/// The extended grapheme clusters of a text, as `UnicodeSegmentation::graphemes(text, true)`
/// yields them.
pub uninterp spec fn grapheme_clusters(text: Seq<char>) -> Seq<Seq<char>>;

/// The width in cells that `UnicodeWidthChar::width` reports for a character, `None` for a
/// control character.
pub uninterp spec fn unicode_char_width(c: char) -> Option<usize>;

/// The width in cells that `UnicodeWidthStr::width` reports for a string.
pub uninterp spec fn unicode_str_width(text: Seq<char>) -> usize;

/// The views of a sequence of strings.
pub open spec fn string_views(strings: Seq<String>) -> Seq<Seq<char>> {
    strings.map_values(|s: String| s@)
}

/// `UnicodeSegmentation::graphemes(text, true)`, collected into owned strings.
///
/// Claimed of the outside code: the clusters are `grapheme_clusters(text)`, and, as its
/// `Graphemes::next` slices the text from one boundary to the next, they are non-empty and
/// together spell the text in order.
#[verifier::external_body]
pub fn graphemes(text: &str) -> (clusters: Vec<String>)
    ensures
        string_views(clusters@) == grapheme_clusters(text@),
        string_views(clusters@).flatten() == text@,
        forall|i: int| 0 <= i < clusters@.len() ==> (#[trigger] clusters@[i])@.len() > 0,
{
    text.graphemes(true).map(str::to_owned).collect()
}

/// `UnicodeWidthChar::width`; the contract only names its result.
#[verifier::external_body]
fn unicode_width_of_char(c: char) -> (w: Option<usize>)
    ensures
        w == unicode_char_width(c),
{
    UnicodeWidthChar::width(c)
}

/// `UnicodeWidthStr::width`; the contract only names its result.
#[verifier::external_body]
fn unicode_width_of_str(text: &str) -> (w: usize)
    ensures
        w == unicode_str_width(text@),
{
    UnicodeWidthStr::width(text)
}

/// Cells occupied by one character; a control character counts as zero.
pub open spec fn char_cells(c: char) -> nat {
    match unicode_char_width(c) {
        Some(w) => w as nat,
        None => 0,
    }
}

/// Cells occupied by a single character. Control characters count as zero.
pub fn char_width(character: char) -> (w: usize)
    ensures
        w == char_cells(character),
{
    match unicode_width_of_char(character) {
        Some(w) => w,
        None => 0,
    }
}

/// Cells occupied by a string.
pub fn string_width(text: &str) -> (w: usize)
    ensures
        w == unicode_str_width(text@),
{
    unicode_width_of_str(text)
}

/// The clusters at the front of `clusters` that fit in `width` cells when `used` cells are
/// already taken, stopping at the first one that does not fit.
pub open spec fn fitting_clusters(clusters: Seq<Seq<char>>, width: int, used: int) -> Seq<Seq<char>>
    decreases clusters.len(),
{
    if clusters.len() == 0 {
        seq![]
    } else if used + unicode_str_width(clusters[0]) <= width {
        seq![clusters[0]] + fitting_clusters(
            clusters.drop_first(),
            width,
            used + unicode_str_width(clusters[0]),
        )
    } else {
        seq![]
    }
}

/// The longest run of whole grapheme clusters from the start of `text` whose widths add up to
/// at most `width`.
pub open spec fn kept_clusters(text: Seq<char>, width: nat) -> Seq<Seq<char>> {
    if width == 0 {
        seq![]
    } else {
        fitting_clusters(grapheme_clusters(text), width as int, 0)
    }
}

/// The text of the kept clusters.
pub open spec fn truncated(text: Seq<char>, width: nat) -> Seq<char> {
    kept_clusters(text, width).flatten()
}

/// The cells the clusters take side by side.
pub open spec fn cells_of(clusters: Seq<Seq<char>>) -> int
    decreases clusters.len(),
{
    if clusters.len() == 0 {
        0
    } else {
        unicode_str_width(clusters[0]) + cells_of(clusters.drop_first())
    }
}

/// The cells of a row grow by the cells of the cluster added at its end.
pub proof fn lemma_cells_of_push(row: Seq<Seq<char>>, g: Seq<char>)
    ensures
        cells_of(row.push(g)) == cells_of(row) + unicode_str_width(g),
    decreases row.len(),
{
    assert(row.push(g)[0] == if row.len() == 0 {
        g
    } else {
        row[0]
    });
    if row.len() == 0 {
        assert(row.push(g).drop_first() =~= Seq::<Seq<char>>::empty());
        assert(cells_of(Seq::<Seq<char>>::empty()) == 0);
    } else {
        lemma_cells_of_push(row.drop_first(), g);
        assert(row.push(g).drop_first() =~= row.drop_first().push(g));
    }
}

proof fn lemma_fitting_fits(clusters: Seq<Seq<char>>, width: int, used: int)
    requires
        used <= width,
    ensures
        used + cells_of(fitting_clusters(clusters, width, used)) <= width,
    decreases clusters.len(),
{
    if clusters.len() > 0 && used + unicode_str_width(clusters[0]) <= width {
        let next = used + unicode_str_width(clusters[0]);
        lemma_fitting_fits(clusters.drop_first(), width, next);
        let f = fitting_clusters(clusters, width, used);
        assert(f[0] == clusters[0]);
        assert(f.drop_first() =~= fitting_clusters(clusters.drop_first(), width, next));
    }
}

proof fn lemma_fitting_is_prefix(clusters: Seq<Seq<char>>, width: int, used: int)
    ensures
        fitting_clusters(clusters, width, used).len() <= clusters.len(),
        fitting_clusters(clusters, width, used) == clusters.take(
            fitting_clusters(clusters, width, used).len() as int,
        ),
    decreases clusters.len(),
{
    if clusters.len() > 0 && used + unicode_str_width(clusters[0]) <= width {
        let rest = clusters.drop_first();
        lemma_fitting_is_prefix(rest, width, used + unicode_str_width(clusters[0]));
        let f = fitting_clusters(rest, width, used + unicode_str_width(clusters[0]));
        assert(seq![clusters[0]] + f =~= clusters.take(f.len() + 1 as int));
    } else {
        assert(clusters.take(0) =~= Seq::<Seq<char>>::empty());
    }
}

/// The first `n` strings, joined, are a prefix of all of them joined.
pub proof fn lemma_flatten_take_prefix(s: Seq<Seq<char>>, n: int)
    requires
        0 <= n <= s.len(),
    ensures
        s.take(n).flatten().len() <= s.flatten().len(),
        s.flatten().take(s.take(n).flatten().len() as int) == s.take(n).flatten(),
    decreases s.len(),
{
    broadcast use Seq::lemma_flatten_push;

    if n == 0 {
        assert(s.take(0) =~= Seq::<Seq<char>>::empty());
    } else {
        assert(s =~= seq![s[0]] + s.drop_first());
        assert(s.flatten() == s[0] + s.drop_first().flatten());
        assert(s.take(n).drop_first() =~= s.drop_first().take(n - 1));
        assert(s.take(n)[0] == s[0]);
        assert(s.take(n).flatten() == s[0] + s.drop_first().take(n - 1).flatten());
        lemma_flatten_take_prefix(s.drop_first(), n - 1);
        let x = s.drop_first().flatten();
        let y = s.drop_first().take(n - 1).flatten();
        assert(x.take(y.len() as int) == y);
        assert((s[0] + x).take((s[0].len() + y.len()) as int) =~= s[0] + x.take(y.len() as int));
    }
}

/// Longest prefix of `text` that fits without splitting a character.
///
/// The result is made of whole grapheme clusters, so it is always a prefix of the text.
pub fn truncate_to_width(text: &str, width: usize) -> (out: String)
    ensures
        out@ == truncated(text@, width as nat),
        out@.len() <= text@.len(),
        text@.take(out@.len() as int) == out@,
        cells_of(kept_clusters(text@, width as nat)) <= width,
{
    proof {
        lemma_fitting_fits(grapheme_clusters(text@), width as int, 0);
    }
    if width == 0 {
        assert(text@.take(0) =~= Seq::<char>::empty());
        return String::new();
    }
    let clusters = graphemes(text);
    let ghost all = string_views(clusters@);
    let mut out = String::new();
    let mut used: usize = 0;
    let mut i: usize = 0;
    let mut stopped = false;
    assert(all.skip(0) =~= all);
    while i < clusters.len() && !stopped
        invariant
            i <= clusters@.len(),
            all == string_views(clusters@),
            used <= width,
            !stopped ==> out@ + fitting_clusters(all.skip(i as int), width as int, used as int).flatten()
                == fitting_clusters(all, width as int, 0).flatten(),
            stopped ==> out@ == fitting_clusters(all, width as int, 0).flatten(),
        decreases clusters@.len() - i + (if stopped { 0int } else { 1int }),
    {
        let next = string_width(clusters[i].as_str());
        let ghost rest = all.skip(i as int);
        assert(rest[0] == clusters@[i as int]@);
        assert(rest.drop_first() =~= all.skip(i + 1));
        if next <= width - used {
            out.append(clusters[i].as_str());
            used = used + next;
            i = i + 1;
            assert(fitting_clusters(rest, width as int, (used - next) as int) == seq![rest[0]]
                + fitting_clusters(all.skip(i as int), width as int, used as int));
            assert((seq![rest[0]] + fitting_clusters(all.skip(i as int), width as int, used as int)).flatten()
                =~= rest[0] + fitting_clusters(all.skip(i as int), width as int, used as int).flatten()) by {
                assert((seq![rest[0]] + fitting_clusters(all.skip(i as int), width as int, used as int)).drop_first()
                    =~= fitting_clusters(all.skip(i as int), width as int, used as int));
            }
        } else {
            stopped = true;
        }
    }
    if !stopped {
        assert(all.skip(i as int) =~= Seq::<Seq<char>>::empty());
    }
    proof {
        lemma_fitting_is_prefix(all, width as int, 0);
        let f = fitting_clusters(all, width as int, 0);
        lemma_flatten_take_prefix(all, f.len() as int);
        assert(out@ == all.take(f.len() as int).flatten());
    }
    out
}

} // verus!
