//! The rules of the JSONL annotation stores.
//!
//! Files, locks and clocks belong to the caller; this module decides what the stores hold: how
//! records are read and written, which annotations a removal keeps, what a merge adds, and what
//! each lock attempt and file error is reported as.

use vstd::prelude::*;

use crate::json::{decode_json, json_document, reads_back};
use crate::text::{owned, push_char, render_signed_decimal, signed_decimal, text_result};
use crate::types::{
    annotation_json, annotation_views, archive_from_json, archive_json,
    archive_views, parse_annotation, parse_archived_annotation_set, render_annotation,
    render_archive, Annotation, AnnotationView, ArchiveView, ArchivedAnnotationSet,
};

verus! {

/// The result of an expected annotation-store operation.
pub type StoreResult<T> = Result<T, String>;

/// The two stores in a plugin state directory.
#[derive(Debug, Clone, Copy, PartialEq, Eq, Structural)]
pub enum StoreName {
    Annotations,
    Archives,
}

/// The store's name in a sentence.
pub open spec fn store_lower(store: StoreName) -> Seq<char> {
    match store {
        StoreName::Annotations => "annotations"@,
        StoreName::Archives => "archives"@,
    }
}

/// The store's name at the start of a sentence.
pub open spec fn store_capitalized(store: StoreName) -> Seq<char> {
    match store {
        StoreName::Annotations => "Annotations"@,
        StoreName::Archives => "Archives"@,
    }
}

impl StoreName {
    /// The store's name in a sentence, and in its lock and file names.
    pub fn lower(self) -> (name: &'static str)
        ensures
            name@ == store_lower(self),
    {
        match self {
            StoreName::Annotations => "annotations",
            StoreName::Archives => "archives",
        }
    }

    /// The store's name at the start of a sentence.
    pub fn capitalized(self) -> (name: &'static str)
        ensures
            name@ == store_capitalized(self),
    {
        match self {
            StoreName::Annotations => "Annotations",
            StoreName::Archives => "Archives",
        }
    }

    /// The store's JSONL file inside the state directory.
    pub fn file_name(self) -> (name: &'static str)
        ensures
            name@ == match self {
                StoreName::Annotations => "annotations.jsonl"@,
                StoreName::Archives => "archives.jsonl"@,
            },
    {
        match self {
            StoreName::Annotations => "annotations.jsonl",
            StoreName::Archives => "archives.jsonl",
        }
    }

    /// The store's lock directory inside the state directory.
    pub fn lock_name(self) -> (name: &'static str)
        ensures
            name@ == match self {
                StoreName::Annotations => ".annotations.lock"@,
                StoreName::Archives => ".archives.lock"@,
            },
    {
        match self {
            StoreName::Annotations => ".annotations.lock",
            StoreName::Archives => ".archives.lock",
        }
    }
}

// ---------------------------------------------------------------------------------------------
// Ordering.

/// Present append-ordered annotations with the most recently saved first.
pub fn newest_first_annotations(annotations: &[Annotation]) -> (newest: Vec<Annotation>)
    ensures
        annotation_views(newest@) == annotation_views(annotations@).reverse(),
{
    let mut newest: Vec<Annotation> = Vec::new();
    let mut i: usize = annotations.len();
    while i > 0
        invariant
            i <= annotations@.len(),
            newest@.len() == annotations@.len() - i,
            forall|k: int| 0 <= k < newest@.len() ==> (#[trigger] newest@[k])@ == annotations@[annotations@.len() - 1 - k]@,
        decreases i,
    {
        i = i - 1;
        newest.push(annotations[i].duplicate());
    }
    assert(annotation_views(newest@) =~= annotation_views(annotations@).reverse());
    newest
}

/// Present append-ordered archive sets with the most recently archived first.
pub fn newest_first_archived_sets(archives: &[ArchivedAnnotationSet]) -> (newest: Vec<
    ArchivedAnnotationSet,
>)
    ensures
        archive_views(newest@) == archive_views(archives@).reverse(),
{
    let mut newest: Vec<ArchivedAnnotationSet> = Vec::new();
    let mut i: usize = archives.len();
    while i > 0
        invariant
            i <= archives@.len(),
            newest@.len() == archives@.len() - i,
            forall|k: int| 0 <= k < newest@.len() ==> (#[trigger] newest@[k])@ == archives@[archives@.len() - 1 - k]@,
        decreases i,
    {
        i = i - 1;
        newest.push(archives[i].duplicate());
    }
    assert(archive_views(newest@) =~= archive_views(archives@).reverse());
    newest
}

// ---------------------------------------------------------------------------------------------
// Removing and merging.

/// The ids of the annotations, in order.
pub open spec fn ids_of(annotations: Seq<AnnotationView>) -> Seq<Seq<char>> {
    annotations.map_values(|a: AnnotationView| a.id)
}

/// The annotations whose id is not among `ids`.
pub open spec fn without_ids(annotations: Seq<AnnotationView>, ids: Seq<Seq<char>>) -> Seq<
    AnnotationView,
> {
    annotations.filter(|a: AnnotationView| !ids.contains(a.id))
}

/// The annotations of `additions` whose id is not already among `existing`.
pub open spec fn new_annotations(existing: Seq<AnnotationView>, additions: Seq<AnnotationView>) -> Seq<
    AnnotationView,
> {
    additions.filter(|a: AnnotationView| !ids_of(existing).contains(a.id))
}

fn contains_text(values: &[String], text: &str) -> (found: bool)
    ensures
        found == values@.map_values(|v: String| v@).contains(text@),
{
    let ghost views = values@.map_values(|v: String| v@);
    let mut i: usize = 0;
    while i < values.len()
        invariant
            i <= values@.len(),
            views == values@.map_values(|v: String| v@),
            forall|k: int| 0 <= k < i ==> views[k] != text@,
        decreases values@.len() - i,
    {
        if crate::json::same_text(values[i].as_str(), text) {
            assert(views[i as int] == text@);
            return true;
        }
        i = i + 1;
    }
    false
}

/// The ids of the annotations, in order.
pub fn annotation_ids(annotations: &[Annotation]) -> (ids: Vec<String>)
    ensures
        ids@.map_values(|v: String| v@) == ids_of(annotation_views(annotations@)),
{
    let mut ids: Vec<String> = Vec::new();
    let mut i: usize = 0;
    while i < annotations.len()
        invariant
            i <= annotations@.len(),
            ids@.len() == i,
            forall|k: int| 0 <= k < i ==> (#[trigger] ids@[k])@ == annotations@[k]@.id,
        decreases annotations@.len() - i,
    {
        ids.push(annotations[i].id.clone());
        i = i + 1;
    }
    assert(ids@.map_values(|v: String| v@) =~= ids_of(annotation_views(annotations@)));
    ids
}

/// The loaded annotations without the ones whose id is listed, in their stored order.
pub fn retain_without_ids(loaded: &[Annotation], annotation_ids: &[String]) -> (retained: Vec<
    Annotation,
>)
    ensures
        annotation_views(retained@) == without_ids(
            annotation_views(loaded@),
            annotation_ids@.map_values(|v: String| v@),
        ),
{
    let ghost ids = annotation_ids@.map_values(|v: String| v@);
    let ghost all = annotation_views(loaded@);
    let mut retained: Vec<Annotation> = Vec::new();
    let mut i: usize = 0;
    while i < loaded.len()
        invariant
            i <= loaded@.len(),
            ids == annotation_ids@.map_values(|v: String| v@),
            all == annotation_views(loaded@),
            annotation_views(retained@) == without_ids(all.take(i as int), ids),
        decreases loaded@.len() - i,
    {
        proof {
            assert(all.take(i + 1).drop_last() =~= all.take(i as int));
            assert(all.take(i + 1).last() == loaded@[i as int]@);
            reveal_with_fuel(Seq::filter, 1);
        }
        let ghost before = retained@;
        if !contains_text(annotation_ids, loaded[i].id.as_str()) {
            retained.push(loaded[i].duplicate());
            assert(annotation_views(retained@) =~= annotation_views(before).push(loaded@[i as int]@));
        }
        i = i + 1;
    }
    assert(all.take(loaded@.len() as int) =~= all);
    retained
}

/// The loaded annotations followed by the additions whose ids are not loaded yet, and how many
/// were added.
pub fn merge_missing(loaded: &[Annotation], additions: &[Annotation]) -> (merged: (
    Vec<Annotation>,
    usize,
))
    ensures
        annotation_views(merged.0@) == annotation_views(loaded@) + new_annotations(
            annotation_views(loaded@),
            annotation_views(additions@),
        ),
        merged.1 == new_annotations(annotation_views(loaded@), annotation_views(additions@)).len(),
{
    let existing = annotation_ids(loaded);
    let ghost old_views = annotation_views(loaded@);
    let ghost adds = annotation_views(additions@);
    let mut merged = crate::types::duplicate_annotations(loaded);
    let mut count: usize = 0;
    let mut i: usize = 0;
    while i < additions.len()
        invariant
            i <= additions@.len(),
            old_views == annotation_views(loaded@),
            adds == annotation_views(additions@),
            existing@.map_values(|v: String| v@) == ids_of(old_views),
            annotation_views(merged@) == old_views + new_annotations(old_views, adds.take(i as int)),
            count == new_annotations(old_views, adds.take(i as int)).len(),
            count <= i,
        decreases additions@.len() - i,
    {
        proof {
            assert(adds.take(i + 1).drop_last() =~= adds.take(i as int));
            assert(adds.take(i + 1).last() == additions@[i as int]@);
            reveal_with_fuel(Seq::filter, 1);
        }
        let ghost before = merged@;
        if !contains_text(existing.as_slice(), additions[i].id.as_str()) {
            merged.push(additions[i].duplicate());
            count = count + 1;
            assert(annotation_views(merged@) =~= annotation_views(before).push(additions@[i as int]@));
        }
        i = i + 1;
    }
    assert(adds.take(additions@.len() as int) =~= adds);
    (merged, count)
}

/// The archived sets without the one whose id is `archive_id`.
pub fn retain_other_archives(archives: &[ArchivedAnnotationSet], archive_id: &str) -> (retained: Vec<
    ArchivedAnnotationSet,
>)
    ensures
        archive_views(retained@) == archive_views(archives@).filter(
            |a: ArchiveView| a.id != archive_id@,
        ),
{
    let ghost all = archive_views(archives@);
    let mut retained: Vec<ArchivedAnnotationSet> = Vec::new();
    let mut i: usize = 0;
    while i < archives.len()
        invariant
            i <= archives@.len(),
            all == archive_views(archives@),
            archive_views(retained@) == all.take(i as int).filter(
                |a: ArchiveView| a.id != archive_id@,
            ),
        decreases archives@.len() - i,
    {
        proof {
            assert(all.take(i + 1).drop_last() =~= all.take(i as int));
            assert(all.take(i + 1).last() == archives@[i as int]@);
            reveal_with_fuel(Seq::filter, 1);
        }
        let ghost before = retained@;
        if !crate::json::same_text(archives[i].id.as_str(), archive_id) {
            retained.push(archives[i].duplicate());
            assert(archive_views(retained@) =~= archive_views(before).push(archives@[i as int]@));
        }
        i = i + 1;
    }
    assert(all.take(archives@.len() as int) =~= all);
    retained
}

/// The archived sets with `archive` appended.
pub fn with_archive(archives: &[ArchivedAnnotationSet], archive: &ArchivedAnnotationSet) -> (all: Vec<
    ArchivedAnnotationSet,
>)
    ensures
        archive_views(all@) == archive_views(archives@).push(archive@),
{
    let mut all: Vec<ArchivedAnnotationSet> = Vec::new();
    let mut i: usize = 0;
    while i < archives.len()
        invariant
            i <= archives@.len(),
            all@.len() == i,
            forall|k: int| 0 <= k < i ==> (#[trigger] all@[k])@ == archives@[k]@,
        decreases archives@.len() - i,
    {
        all.push(archives[i].duplicate());
        i = i + 1;
    }
    all.push(archive.duplicate());
    assert(archive_views(all@) =~= archive_views(archives@).push(archive@));
    all
}

proof fn lemma_contains_id(annotations: Seq<AnnotationView>, k: int)
    requires
        0 <= k < annotations.len(),
    ensures
        ids_of(annotations).contains(annotations[k].id),
{
    assert(ids_of(annotations)[k] == annotations[k].id);
}

/// Clearing an archived set's ids from the active store and later merging the set back loses no
/// annotation: every id that was active, including ones saved in between, and every archived id
/// is active again afterwards.
pub proof fn lemma_clear_then_restore_keeps_every_id(
    active: Seq<AnnotationView>,
    archived: Seq<AnnotationView>,
    id: Seq<char>,
)
    requires
        ids_of(active).contains(id) || ids_of(archived).contains(id),
    ensures
        ({
            let kept = without_ids(active, ids_of(archived));
            ids_of(kept + new_annotations(kept, archived)).contains(id)
        }),
{
    let kept = without_ids(active, ids_of(archived));
    let added = new_annotations(kept, archived);
    let restored = kept + added;
    if ids_of(archived).contains(id) {
        let j = choose|j: int| 0 <= j < ids_of(archived).len() && ids_of(archived)[j] == id;
        assert(archived[j].id == id);
        if ids_of(kept).contains(id) {
            let k = choose|k: int| 0 <= k < ids_of(kept).len() && ids_of(kept)[k] == id;
            assert(restored[k] == kept[k]);
            lemma_contains_id(restored, k);
        } else {
            archived.lemma_filter_contains(|a: AnnotationView| !ids_of(kept).contains(a.id), j);
            let m = choose|m: int| 0 <= m < added.len() && added[m] == archived[j];
            assert(restored[kept.len() + m] == archived[j]);
            lemma_contains_id(restored, kept.len() + m);
        }
    } else {
        let k = choose|k: int| 0 <= k < ids_of(active).len() && ids_of(active)[k] == id;
        assert(active[k].id == id);
        active.lemma_filter_contains(|a: AnnotationView| !ids_of(archived).contains(a.id), k);
        let m = choose|m: int| 0 <= m < kept.len() && kept[m] == active[k];
        assert(restored[m] == active[k]);
        lemma_contains_id(restored, m);
    }
}

/// A merge never gives an id twice: when neither the active annotations nor the merged ones
/// repeat an id, the merged store does not either.
pub proof fn lemma_merge_adds_no_duplicate_ids(
    existing: Seq<AnnotationView>,
    additions: Seq<AnnotationView>,
)
    requires
        ids_of(existing).no_duplicates(),
        ids_of(additions).no_duplicates(),
    ensures
        ids_of(existing + new_annotations(existing, additions)).no_duplicates(),
{
    let pred = |a: AnnotationView| !ids_of(existing).contains(a.id);
    let added = additions.filter(pred);
    let merged = existing + added;
    assert(new_annotations(existing, additions) == added);
    assert forall|i: int, j: int|
        0 <= i < merged.len() && 0 <= j < merged.len() && i != j implies ids_of(merged)[i]
        != ids_of(merged)[j] by {
        assert(ids_of(merged)[i] == merged[i].id);
        assert(ids_of(merged)[j] == merged[j].id);
        if i < existing.len() && j < existing.len() {
            assert(ids_of(existing)[i] == existing[i].id);
            assert(ids_of(existing)[j] == existing[j].id);
        } else if i >= existing.len() && j >= existing.len() {
            lemma_filter_keeps_distinct_ids(additions, pred, i - existing.len(), j - existing.len());
        } else {
            let (e, a) = if i < existing.len() { (i, j - existing.len()) } else { (j, i - existing.len()) };
            additions.lemma_filter_pred(pred, a);
            lemma_contains_id(existing, e);
        }
    }
}

proof fn lemma_filter_keeps_distinct_ids(
    s: Seq<AnnotationView>,
    pred: spec_fn(AnnotationView) -> bool,
    i: int,
    j: int,
)
    requires
        ids_of(s).no_duplicates(),
        0 <= i < s.filter(pred).len(),
        0 <= j < s.filter(pred).len(),
        i != j,
    ensures
        s.filter(pred)[i].id != s.filter(pred)[j].id,
    decreases s.len(),
{
    reveal(Seq::filter);
    let f = s.filter(pred);
    let prev = s.drop_last();
    assert(ids_of(prev).no_duplicates()) by {
        assert forall|a: int, b: int|
            0 <= a < prev.len() && 0 <= b < prev.len() && a != b implies ids_of(prev)[a] != ids_of(prev)[b] by {
            assert(ids_of(prev)[a] == ids_of(s)[a]);
            assert(ids_of(prev)[b] == ids_of(s)[b]);
        }
    }
    if pred(s.last()) {
        assert(f == prev.filter(pred).push(s.last()));
        let n = prev.filter(pred).len() as int;
        if i < n && j < n {
            lemma_filter_keeps_distinct_ids(prev, pred, i, j);
        } else {
            let other = if i < n { i } else { j };
            assert(prev.filter(pred).contains(prev.filter(pred)[other]));
            prev.lemma_filter_contains_rev(pred, prev.filter(pred)[other]);
            let k = choose|k: int| 0 <= k < prev.len() && prev[k] == prev.filter(pred)[other];
            assert(ids_of(s)[k] == s[k].id);
            assert(ids_of(s)[s.len() - 1] == s.last().id);
        }
    } else {
        assert(f == prev.filter(pred));
        lemma_filter_keeps_distinct_ids(prev, pred, i, j);
    }
}

// ---------------------------------------------------------------------------------------------
// Reading and writing JSONL.

/// A piece that a newline ended, without the carriage return before that newline.
pub open spec fn line_content(piece: Seq<char>) -> Seq<char> {
    if piece.len() > 0 && piece.last() == '\r' {
        piece.drop_last()
    } else {
        piece
    }
}

/// The first `n` lines as `BufRead::lines` yields them from the pieces between newlines: a
/// carriage return before a newline goes with it, and the piece after the last newline is kept
/// as it is.
pub open spec fn read_lines(pieces: Seq<Seq<char>>, n: int) -> Seq<Seq<char>> {
    Seq::new(
        n as nat,
        |k: int|
            if k + 1 < pieces.len() {
                line_content(pieces[k])
            } else {
                pieces[k]
            },
    )
}

/// The non-empty lines of a store file.
pub open spec fn record_lines(text: Seq<char>) -> Seq<Seq<char>> {
    let pieces = crate::format::split_newlines(text);
    read_lines(pieces, pieces.len() as int).filter(|l: Seq<char>| l.len() > 0)
}

/// Every line read as a JSON document, or `None` if one is not JSON.
pub open spec fn line_documents(lines: Seq<Seq<char>>) -> Option<Seq<crate::json::JsonValue>>
    decreases lines.len(),
{
    if lines.len() == 0 {
        Some(seq![])
    } else {
        match (line_documents(lines.drop_last()), json_document(lines.last())) {
            (Some(done), Some(last)) => Some(done.push(last)),
            _ => None,
        }
    }
}

/// Every document read as an annotation, or `None` if one is not.
pub open spec fn documents_annotations(documents: Seq<crate::json::JsonValue>) -> Option<
    Seq<AnnotationView>,
> {
    crate::types::annotations_from_json(documents)
}

/// Every document read as an archived set, or `None` if one is not.
pub open spec fn documents_archives(documents: Seq<crate::json::JsonValue>) -> Option<Seq<ArchiveView>>
    decreases documents.len(),
{
    if documents.len() == 0 {
        Some(seq![])
    } else {
        match (documents_archives(documents.drop_last()), archive_from_json(documents.last())) {
            (Some(done), Some(last)) => Some(done.push(last)),
            _ => None,
        }
    }
}

/// The message for a store file that holds a malformed record.
pub open spec fn invalid_data_message(store: StoreName) -> Seq<char> {
    "Unable to read "@ + store_lower(store) + " (invalid data)"@
}

/// The active annotations a store file holds; malformed records are rejected, not dropped.
pub open spec fn annotations_in(text: Seq<char>) -> Result<Seq<AnnotationView>, Seq<char>> {
    match line_documents(record_lines(text)) {
        Some(documents) => match documents_annotations(documents) {
            Some(annotations) => Ok(annotations),
            None => Err(invalid_data_message(StoreName::Annotations)),
        },
        None => Err(invalid_data_message(StoreName::Annotations)),
    }
}

/// The archived sets an archive file holds; malformed records are rejected, not dropped.
pub open spec fn archives_in(text: Seq<char>) -> Result<Seq<ArchiveView>, Seq<char>> {
    match line_documents(record_lines(text)) {
        Some(documents) => match documents_archives(documents) {
            Some(archives) => Ok(archives),
            None => Err(invalid_data_message(StoreName::Archives)),
        },
        None => Err(invalid_data_message(StoreName::Archives)),
    }
}

fn invalid_data(store: StoreName) -> (message: String)
    ensures
        message@ == invalid_data_message(store),
{
    let mut message = owned("Unable to read ");
    message.append(store.lower());
    message.append(" (invalid data)");
    message
}

proof fn lemma_line_documents_prefix(lines: Seq<Seq<char>>, n: int)
    requires
        0 <= n <= lines.len(),
        line_documents(lines.take(n)) is None,
    ensures
        line_documents(lines) is None,
    decreases lines.len() - n,
{
    if n < lines.len() {
        assert(lines.take(n + 1).drop_last() =~= lines.take(n));
        lemma_line_documents_prefix(lines, n + 1);
    } else {
        assert(lines.take(n) =~= lines);
    }
}

/// The JSON documents on the non-empty lines of a store file, `None` if one is not JSON.
fn decode_lines(text: &str) -> (documents: Option<Vec<crate::json::JsonValue>>)
    ensures
        match documents {
            Some(docs) => line_documents(record_lines(text@)) == Some(docs@),
            None => line_documents(record_lines(text@)) is None,
        },
        forall|k: int|
            0 <= k < record_lines(text@).len() ==> reads_back(
                #[trigger] record_lines(text@)[k],
                json_document(record_lines(text@)[k]),
            ),
{
    let chars = crate::text::chars_of(text);
    let pieces = crate::format::split_on_newlines(chars.as_slice());
    let ghost all_pieces = crate::width::string_views(pieces@);
    let ghost lines = record_lines(text@);
    let mut documents: Vec<crate::json::JsonValue> = Vec::new();
    let mut i: usize = 0;
    let mut failed = false;
    let ghost kept: Seq<Seq<char>> = seq![];
    proof {
        assert(read_lines(all_pieces, 0).filter(|l: Seq<char>| l.len() > 0) =~= Seq::<
            Seq<char>,
        >::empty()) by {
            reveal_with_fuel(Seq::filter, 1);
        }
    }
    while i < pieces.len()
        invariant
            i <= pieces@.len(),
            all_pieces == crate::width::string_views(pieces@),
            all_pieces == crate::format::split_newlines(text@),
            lines == record_lines(text@),
            kept == read_lines(all_pieces, i as int).filter(|l: Seq<char>| l.len() > 0),
            !failed ==> line_documents(kept) == Some(documents@),
            failed ==> line_documents(kept) is None,
            forall|k: int|
                0 <= k < kept.len() ==> reads_back(#[trigger] kept[k], json_document(kept[k])),
        decreases pieces@.len() - i,
    {
        let piece = crate::text::chars_of(pieces[i].as_str());
        let mut end = piece.len();
        if end > 0 && piece[end - 1] == '\r' && i + 1 < pieces.len() {
            end = end - 1;
        }
        let mut content: Vec<char> = Vec::new();
        let mut k: usize = 0;
        while k < end
            invariant
                k <= end <= piece@.len(),
                content@ == piece@.take(k as int),
            decreases end - k,
        {
            content.push(piece[k]);
            k = k + 1;
            assert(content@ =~= piece@.take(k as int));
        }
        proof {
            assert(piece@ == all_pieces[i as int]);
            if i + 1 < pieces@.len() {
                assert(content@ =~= line_content(all_pieces[i as int]));
            } else {
                assert(content@ =~= all_pieces[i as int]);
            }
            let mapped = read_lines(all_pieces, i + 1);
            assert(mapped =~= read_lines(all_pieces, i as int).push(content@));
            reveal_with_fuel(Seq::filter, 1);
            assert(mapped.drop_last() =~= read_lines(all_pieces, i as int));
        }
        if end > 0 {
            let line = crate::text::string_of(content.as_slice());
            let parsed = decode_json(line.as_str());
            proof {
                let next = kept.push(content@);
                assert(next.drop_last() =~= kept);
                assert(forall|k: int| 0 <= k < kept.len() ==> next[k] == kept[k]);
            }
            match parsed {
                Some(document) => {
                    if !failed {
                        documents.push(document);
                    }
                },
                None => {
                    failed = true;
                },
            }
            proof {
                kept = kept.push(content@);
            }
        }
        i = i + 1;
    }
    proof {
        assert(read_lines(all_pieces, i as int).filter(|l: Seq<char>| l.len() > 0) == lines);
    }
    if failed {
        None
    } else {
        Some(documents)
    }
}

/// Load the complete active store from the annotations file's text, rejecting malformed records
/// instead of dropping data.
pub fn load_annotations(text: &str) -> (loaded: StoreResult<Vec<Annotation>>)
    ensures
        match loaded {
            Ok(annotations) => annotations_in(text@) == Ok::<Seq<AnnotationView>, Seq<char>>(
                annotation_views(annotations@),
            ),
            Err(message) => annotations_in(text@) == Err::<Seq<AnnotationView>, Seq<char>>(
                message@,
            ),
        },
        appends_read_back(text@),
{
    let decoded = decode_lines(text);
    proof {
        assert forall|stored: Seq<char>, annotation: AnnotationView|
            #![trigger annotations_in(stored), appended_annotation(annotation)]
            text@ == stored + appended_annotation(annotation)->Ok_0 && (stored.len() == 0
                || stored.last() == '\n') && crate::record_shapes::readable_annotation(
                annotation,
            ) implies annotations_in(text@) == loaded_after_append(stored, annotation) by {
            crate::types::lemma_annotation_record_on_one_line(annotation);
            crate::record_shapes::lemma_annotation_text(annotation);
            let record = annotation_json(annotation)->0;
            assert(!record.contains('\n'));
            assert(appended_annotation(annotation)->Ok_0 == record.push('\n'));
            lemma_append_record_line(stored, record);
            let lines = record_lines(text@);
            assert(lines[lines.len() - 1] == record);
            lemma_append_annotation_reads_back(stored, annotation);
        }
        assert(appends_read_back(text@));
    }
    let documents = match decoded {
        Some(documents) => documents,
        None => {
            return Err(invalid_data(StoreName::Annotations));
        },
    };
    let mut annotations: Vec<Annotation> = Vec::new();
    let mut i: usize = 0;
    assert(documents@.take(0) =~= Seq::<crate::json::JsonValue>::empty());
    while i < documents.len()
        invariant
            i <= documents@.len(),
            line_documents(record_lines(text@)) == Some(documents@),
            appends_read_back(text@),
            crate::types::annotations_from_json(documents@.take(i as int)) == Some(
                annotation_views(annotations@),
            ),
        decreases documents@.len() - i,
    {
        proof {
            assert(documents@.take(i + 1).drop_last() =~= documents@.take(i as int));
            assert(documents@.take(i + 1).last() == documents@[i as int]);
        }
        match parse_annotation(&documents[i]) {
            Some(annotation) => {
                let ghost before = annotations@;
                annotations.push(annotation);
                assert(annotation_views(annotations@) =~= annotation_views(before).push(
                    annotations@.last()@,
                ));
            },
            None => {
                proof {
                    crate::types::lemma_annotations_from_json_prefix(documents@, (i + 1) as int);
                }
                return Err(invalid_data(StoreName::Annotations));
            },
        }
        i = i + 1;
    }
    assert(documents@.take(documents@.len() as int) =~= documents@);
    Ok(annotations)
}

proof fn lemma_documents_archives_prefix(documents: Seq<crate::json::JsonValue>, n: int)
    requires
        0 <= n <= documents.len(),
        documents_archives(documents.take(n)) is None,
    ensures
        documents_archives(documents) is None,
    decreases documents.len() - n,
{
    if n < documents.len() {
        assert(documents.take(n + 1).drop_last() =~= documents.take(n));
        lemma_documents_archives_prefix(documents, n + 1);
    } else {
        assert(documents.take(n) =~= documents);
    }
}

/// Load the complete, parsed annotation sets from the archives file's text.
pub fn load_archived_sets(text: &str) -> (loaded: StoreResult<Vec<ArchivedAnnotationSet>>)
    ensures
        match loaded {
            Ok(archives) => archives_in(text@) == Ok::<Seq<ArchiveView>, Seq<char>>(
                archive_views(archives@),
            ),
            Err(message) => archives_in(text@) == Err::<Seq<ArchiveView>, Seq<char>>(message@),
        },
        rewrites_read_back(text@),
        archive_appends_read_back(text@),
{
    let decoded = decode_lines(text);
    proof {
        assert forall|archives: Seq<ArchiveView>|
            #![trigger rewritten_archives(archives)]
            rewritten_archives(archives) == Ok::<Seq<char>, Seq<char>>(text@) && (forall|k: int|
                0 <= k < archives.len() ==> crate::record_shapes::readable_archive(
                    #[trigger] archives[k],
                )) implies archives_in(text@) == Ok::<Seq<ArchiveView>, Seq<char>>(archives) by {
            let records = archives_json(archives)->0;
            lemma_rewritten_archives_read_back(archives);
            assert(record_lines(text@) == records);
            lemma_records_load(archives, records);
        }
        assert(rewrites_read_back(text@));
        assert forall|stored: Seq<char>, archive: ArchiveView|
            #![trigger archive_appended(stored, archive)]
            archive_appended(stored, archive) == Ok::<Seq<char>, Seq<char>>(text@)
                && crate::record_shapes::readable_archive(archive) implies archives_in(text@) == Ok::<
                Seq<ArchiveView>,
                Seq<char>,
            >(archives_in(stored)->Ok_0.push(archive)) by {
            let loaded = archives_in(stored)->Ok_0;
            lemma_loaded_archives_readable(line_documents(record_lines(stored))->0);
            let all = loaded.push(archive);
            assert forall|k: int| 0 <= k < all.len() implies crate::record_shapes::readable_archive(
                #[trigger] all[k],
            ) by {
                if k < loaded.len() {
                    assert(all[k] == loaded[k]);
                }
            }
            assert(rewritten_archives(all) == Ok::<Seq<char>, Seq<char>>(text@));
        }
    }
    let documents = match decoded {
        Some(documents) => documents,
        None => {
            return Err(invalid_data(StoreName::Archives));
        },
    };
    let mut archives: Vec<ArchivedAnnotationSet> = Vec::new();
    let mut i: usize = 0;
    assert(documents@.take(0) =~= Seq::<crate::json::JsonValue>::empty());
    while i < documents.len()
        invariant
            i <= documents@.len(),
            line_documents(record_lines(text@)) == Some(documents@),
            rewrites_read_back(text@),
            archive_appends_read_back(text@),
            documents_archives(documents@.take(i as int)) == Some(archive_views(archives@)),
        decreases documents@.len() - i,
    {
        proof {
            assert(documents@.take(i + 1).drop_last() =~= documents@.take(i as int));
            assert(documents@.take(i + 1).last() == documents@[i as int]);
        }
        match parse_archived_annotation_set(&documents[i]) {
            Some(archive) => {
                let ghost before = archives@;
                archives.push(archive);
                assert(archive_views(archives@) =~= archive_views(before).push(archives@.last()@));
            },
            None => {
                proof {
                    lemma_documents_archives_prefix(documents@, (i + 1) as int);
                }
                return Err(invalid_data(StoreName::Archives));
            },
        }
        i = i + 1;
    }
    assert(documents@.take(documents@.len() as int) =~= documents@);
    Ok(archives)
}

/// Records written one per line, each followed by a newline.
pub open spec fn jsonl(records: Seq<Seq<char>>) -> Seq<char> {
    records.map_values(|r: Seq<char>| r.push('\n')).flatten()
}

/// Every archived set as JSON, or `None` if one cannot be written.
pub open spec fn archives_json(archives: Seq<ArchiveView>) -> Option<Seq<Seq<char>>>
    decreases archives.len(),
{
    if archives.len() == 0 {
        Some(seq![])
    } else {
        match (archives_json(archives.drop_last()), archive_json(archives.last())) {
            (Some(done), Some(last)) => Some(done.push(last)),
            _ => None,
        }
    }
}

proof fn lemma_jsonl_push(records: Seq<Seq<char>>, last: Seq<char>)
    ensures
        jsonl(records.push(last)) == jsonl(records) + last.push('\n'),
{
    let mapped = records.map_values(|r: Seq<char>| r.push('\n'));
    assert(records.push(last).map_values(|r: Seq<char>| r.push('\n')) =~= mapped.push(last.push('\n')));
    mapped.lemma_flatten_push(last.push('\n'));
}

/// The text of an annotations file holding these annotations, one record per line.
pub fn render_annotation_lines(annotations: &[Annotation]) -> (text: Option<String>)
    ensures
        match crate::types::annotations_json(annotation_views(annotations@)) {
            Some(records) => text matches Some(t) && t@ == jsonl(records),
            None => text is None,
        },
{
    let records = match crate::types::render_annotations(annotations) {
        Some(records) => records,
        None => {
            return None;
        },
    };
    let ghost views = records@.map_values(|r: String| r@);
    let mut text = String::new();
    let mut i: usize = 0;
    assert(views.take(0).map_values(|r: Seq<char>| r.push('\n')) =~= Seq::<Seq<char>>::empty());
    while i < records.len()
        invariant
            i <= records@.len(),
            views == records@.map_values(|r: String| r@),
            text@ == jsonl(views.take(i as int)),
        decreases records@.len() - i,
    {
        proof {
            assert(views.take(i + 1) =~= views.take(i as int).push(records@[i as int]@));
            lemma_jsonl_push(views.take(i as int), records@[i as int]@);
        }
        text.append(records[i].as_str());
        push_char(&mut text, '\n');
        i = i + 1;
    }
    assert(views.take(records@.len() as int) =~= views);
    Some(text)
}

proof fn lemma_archives_json_prefix(archives: Seq<ArchiveView>, n: int)
    requires
        0 <= n <= archives.len(),
        archives_json(archives.take(n)) is None,
    ensures
        archives_json(archives) is None,
    decreases archives.len() - n,
{
    if n < archives.len() {
        assert(archives.take(n + 1).drop_last() =~= archives.take(n));
        lemma_archives_json_prefix(archives, n + 1);
    } else {
        assert(archives.take(n) =~= archives);
    }
}

/// The text of an archives file holding these sets, one record per line.
pub fn render_archive_lines(archives: &[ArchivedAnnotationSet]) -> (text: Option<String>)
    ensures
        match archives_json(archive_views(archives@)) {
            Some(records) => text matches Some(t) && t@ == jsonl(records),
            None => text is None,
        },
{
    let ghost all = archive_views(archives@);
    let ghost records: Seq<Seq<char>> = seq![];
    let mut text = String::new();
    let mut i: usize = 0;
    assert(all.take(0) =~= Seq::<ArchiveView>::empty());
    assert(Seq::<Seq<char>>::empty().map_values(|r: Seq<char>| r.push('\n')) =~= Seq::<Seq<char>>::empty());
    while i < archives.len()
        invariant
            i <= archives@.len(),
            all == archive_views(archives@),
            archives_json(all.take(i as int)) == Some(records),
            text@ == jsonl(records),
        decreases archives@.len() - i,
    {
        proof {
            assert(all.take(i + 1).drop_last() =~= all.take(i as int));
            assert(all.take(i + 1).last() == archives@[i as int]@);
        }
        match render_archive(&archives[i]) {
            Some(record) => {
                proof {
                    lemma_jsonl_push(records, record@);
                    records = records.push(record@);
                }
                text.append(record.as_str());
                push_char(&mut text, '\n');
            },
            None => {
                proof {
                    lemma_archives_json_prefix(all, (i + 1) as int);
                }
                return None;
            },
        }
        i = i + 1;
    }
    assert(all.take(archives@.len() as int) =~= all);
    Some(text)
}

// ---------------------------------------------------------------------------------------------
// Store operations: from the text a store file holds to the text it is to hold.

/// The message when a rewritten store cannot be written out.
pub open spec fn update_failed_message(store: StoreName) -> Seq<char> {
    "Unable to update "@ + store_lower(store)
}

// ---------------------------------------------------------------------------------------------
// Reading back what was written.

/// A line that a store writes as one record: non-empty, without a newline, and not ending in
/// the carriage return that reading drops before a newline.
pub open spec fn one_line_record(record: Seq<char>) -> bool {
    &&& record.len() > 0
    &&& !record.contains('\n')
    &&& record.last() != '\r'
}

proof fn lemma_split_extends_last(a: Seq<char>, r: Seq<char>)
    requires
        forall|i: int| 0 <= i < r.len() ==> r[i] != '\n',
    ensures
        crate::format::split_newlines(a + r) == crate::format::split_newlines(a).update(
            crate::format::split_newlines(a).len() - 1,
            crate::format::split_newlines(a).last() + r,
        ),
    decreases r.len(),
{
    crate::format::lemma_split_nonempty(a);
    let s = crate::format::split_newlines(a);
    if r.len() == 0 {
        assert(a + r =~= a);
        assert(s.last() + r =~= s.last());
        assert(s.update(s.len() - 1, s.last() + r) =~= s);
    } else {
        let r0 = r.drop_last();
        lemma_split_extends_last(a, r0);
        crate::format::lemma_split_nonempty(a + r0);
        assert((a + r).drop_last() =~= a + r0);
        assert((a + r).last() == r[r.len() - 1]);
        let before = crate::format::split_newlines(a + r0);
        assert(before.last().push(r.last()) =~= s.last() + r);
        assert(before.update(before.len() - 1, before.last().push(r.last())) =~= s.update(
            s.len() - 1,
            s.last() + r,
        ));
    }
}

/// Appending one record line to a store file that is empty or ends in a newline adds exactly
/// that record after the records already there, and the file's documents are the earlier ones
/// followed by the record's.
pub proof fn lemma_append_record_line(stored: Seq<char>, record: Seq<char>)
    requires
        stored.len() == 0 || stored.last() == '\n',
        one_line_record(record),
    ensures
        record_lines(stored + record.push('\n')) == record_lines(stored).push(record),
        line_documents(record_lines(stored + record.push('\n'))) == match (
            line_documents(record_lines(stored)),
            json_document(record),
        ) {
            (Some(earlier), Some(document)) => Some(earlier.push(document)),
            _ => None::<Seq<crate::json::JsonValue>>,
        },
{
    assert forall|i: int| 0 <= i < record.len() implies record[i] != '\n' by {
        if record[i] == '\n' {
            assert(record.contains('\n'));
        }
    }
    let s = crate::format::split_newlines(stored);
    crate::format::lemma_split_nonempty(stored);
    if stored.len() > 0 {
        crate::format::lemma_split_nonempty(stored.drop_last());
    }
    assert(s.last() == Seq::<char>::empty());
    lemma_split_extends_last(stored, record);
    let t = crate::format::split_newlines(stored + record);
    let grown = stored + record.push('\n');
    assert(grown =~= (stored + record).push('\n'));
    assert(grown.drop_last() =~= stored + record);
    let u = crate::format::split_newlines(grown);
    assert(u == t.push(Seq::<char>::empty()));
    let m = s.len() as int;
    assert(s.last() + record =~= record);
    let old_lines = read_lines(s, m);
    let new_lines = read_lines(u, m + 1);
    let kept = old_lines.drop_last();
    assert(old_lines =~= kept.push(Seq::<char>::empty()));
    assert(new_lines =~= kept.push(record).push(Seq::<char>::empty()));
    reveal_with_fuel(Seq::filter, 1);
    assert(kept.push(record).push(Seq::<char>::empty()).drop_last() =~= kept.push(record));
    assert(kept.push(record).drop_last() =~= kept);
    assert(kept.push(Seq::<char>::empty()).drop_last() =~= kept);
    assert(u.len() == m + 1);
    assert(record_lines(grown) == new_lines.filter(|l: Seq<char>| l.len() > 0));
    assert(record_lines(stored) == old_lines.filter(|l: Seq<char>| l.len() > 0));
    assert(new_lines.filter(|l: Seq<char>| l.len() > 0) == kept.push(record).filter(|l: Seq<char>| l.len() > 0));
    assert(kept.push(record).filter(|l: Seq<char>| l.len() > 0) == kept.filter(|l: Seq<char>| l.len() > 0).push(record));
    assert(old_lines.filter(|l: Seq<char>| l.len() > 0) == kept.filter(|l: Seq<char>| l.len() > 0));
    assert(record_lines(stored).push(record).drop_last() =~= record_lines(stored));
}

/// Loading the annotations file after appending one record line reads the annotations already
/// there followed by the one the record holds; a malformed record, old or new, fails the load.
pub proof fn lemma_append_then_load_annotations(stored: Seq<char>, record: Seq<char>)
    requires
        stored.len() == 0 || stored.last() == '\n',
        one_line_record(record),
    ensures
        annotations_in(stored + record.push('\n')) == match (annotations_in(stored), json_document(record)) {
            (Ok(earlier), Some(document)) => match crate::types::annotation_from_json(document) {
                Some(appended) => Ok(earlier.push(appended)),
                None => Err(invalid_data_message(StoreName::Annotations)),
            },
            (Ok(_), None) => Err(invalid_data_message(StoreName::Annotations)),
            (Err(message), _) => Err(message),
        },
{
    lemma_append_record_line(stored, record);
    match (line_documents(record_lines(stored)), json_document(record)) {
        (Some(earlier), Some(document)) => {
            assert(earlier.push(document).drop_last() =~= earlier);
        },
        _ => {},
    }
}

/// Loading the annotations file after appending an annotation's line (as `append_annotation`
/// gives it) reads the annotations already there followed by the one the appended record holds.
pub proof fn lemma_append_annotation_then_load(stored: Seq<char>, annotation: AnnotationView)
    requires
        stored.len() == 0 || stored.last() == '\n',
    ensures
        appended_annotation(annotation) matches Ok(line) ==> annotations_in(stored + line) == match (
            annotations_in(stored),
            json_document(line.drop_last()),
        ) {
            (Ok(earlier), Some(document)) => match crate::types::annotation_from_json(document) {
                Some(appended) => Ok(earlier.push(appended)),
                None => Err(invalid_data_message(StoreName::Annotations)),
            },
            (Ok(_), None) => Err(invalid_data_message(StoreName::Annotations)),
            (Err(message), _) => Err(message),
        },
{
    crate::types::lemma_annotation_record_on_one_line(annotation);
    if let Some(record) = annotation_json(annotation) {
        assert(!record.contains('\n'));
        assert(record.push('\n').drop_last() =~= record);
        lemma_append_then_load_annotations(stored, record);
    }
}

/// What loading the annotations file gives after appending `annotation`'s line: the
/// annotations already there followed by `annotation`, or the earlier file's error.
pub open spec fn loaded_after_append(stored: Seq<char>, annotation: AnnotationView) -> Result<
    Seq<AnnotationView>,
    Seq<char>,
> {
    match annotations_in(stored) {
        Ok(earlier) => Ok(earlier.push(annotation)),
        Err(message) => Err(message),
    }
}

/// Whenever `text` is a file that was empty or ended in a newline, followed by the line appended
/// for an annotation the store reads, it loads as the annotations already there followed by
/// that annotation.
pub open spec fn appends_read_back(text: Seq<char>) -> bool {
    forall|stored: Seq<char>, annotation: AnnotationView|
        #![trigger annotations_in(stored), appended_annotation(annotation)]
        text == stored + appended_annotation(annotation)->Ok_0 && (stored.len() == 0 || stored.last()
            == '\n') && crate::record_shapes::readable_annotation(annotation) ==> annotations_in(text)
            == loaded_after_append(stored, annotation)
}

/// Appending an annotation's line and loading the file reads the annotations already there
/// followed by that annotation with every field intact, when the annotation is one the store
/// reads and the parser reads the record's compact JSON back as written.
pub proof fn lemma_append_annotation_reads_back(stored: Seq<char>, annotation: AnnotationView)
    requires
        stored.len() == 0 || stored.last() == '\n',
        crate::record_shapes::readable_annotation(annotation),
        reads_back(
            annotation_json(annotation)->0,
            json_document(annotation_json(annotation)->0),
        ),
    ensures
        annotations_in(stored + appended_annotation(annotation)->Ok_0) == loaded_after_append(
            stored,
            annotation,
        ),
{
    crate::record_shapes::lemma_annotation_text(annotation);
    crate::record_shapes::lemma_annotation_writable(annotation, 100);
    let record = annotation_json(annotation)->0;
    let shape = crate::record_shapes::annotation_shape(annotation);
    assert(crate::json::shape_text(shape) == record);
    let value = json_document(record)->0;
    crate::record_shapes::lemma_annotation_reads_back(value, annotation);
    lemma_append_annotation_then_load(stored, annotation);
    assert(record.push('\n').drop_last() =~= record);
}

/// A file rewritten as `jsonl(records)` reads back as exactly those records, in order.
pub proof fn lemma_rewritten_file_reads_back(records: Seq<Seq<char>>)
    requires
        forall|k: int| 0 <= k < records.len() ==> one_line_record(#[trigger] records[k]),
    ensures
        record_lines(jsonl(records)) == records,
    decreases records.len(),
{
    if records.len() == 0 {
        assert(records.map_values(|r: Seq<char>| r.push('\n')) =~= Seq::<Seq<char>>::empty());
        assert(jsonl(records) =~= Seq::<char>::empty());
        reveal_with_fuel(Seq::filter, 2);
        let pieces = crate::format::split_newlines(Seq::<char>::empty());
        assert(pieces.len() == 1);
        let lines = read_lines(pieces, 1);
        assert(lines =~= seq![Seq::<char>::empty()]);
        assert(lines.drop_last() =~= Seq::<Seq<char>>::empty());
        assert(record_lines(Seq::<char>::empty()) == lines.filter(|l: Seq<char>| l.len() > 0));
        assert(lines.filter(|l: Seq<char>| l.len() > 0) =~= Seq::<Seq<char>>::empty());
    } else {
        let earlier = records.drop_last();
        let last = records.last();
        assert(records =~= earlier.push(last));
        lemma_rewritten_file_reads_back(earlier);
        lemma_jsonl_push(earlier, last);
        let text = jsonl(earlier);
        if earlier.len() > 0 {
            lemma_jsonl_push(earlier.drop_last(), earlier.last());
            assert(earlier =~= earlier.drop_last().push(earlier.last()));
            assert(text.last() == '\n');
        } else {
            assert(earlier.map_values(|r: Seq<char>| r.push('\n')) =~= Seq::<Seq<char>>::empty());
            assert(text =~= Seq::<char>::empty());
        }
        assert(one_line_record(records[records.len() - 1]));
        lemma_append_record_line(text, last);
    }
}

proof fn lemma_archive_records_one_line(archives: Seq<ArchiveView>)
    ensures
        archives_json(archives) matches Some(records) ==> forall|k: int|
            0 <= k < records.len() ==> one_line_record(#[trigger] records[k]),
    decreases archives.len(),
{
    if archives.len() > 0 {
        lemma_archive_records_one_line(archives.drop_last());
        crate::types::lemma_archive_record_on_one_line(archives.last());
        if let Some(records) = archives_json(archives) {
            let before = archives_json(archives.drop_last())->0;
            assert forall|k: int| 0 <= k < records.len() implies one_line_record(#[trigger] records[k]) by {
                if k < before.len() {
                    assert(records[k] == before[k]);
                }
                assert(!records[k].contains('\n'));
            }
        }
    }
}

proof fn lemma_annotation_records_one_line(annotations: Seq<AnnotationView>)
    ensures
        crate::types::annotations_json(annotations) matches Some(records) ==> forall|k: int|
            0 <= k < records.len() ==> one_line_record(#[trigger] records[k]),
    decreases annotations.len(),
{
    if annotations.len() > 0 {
        lemma_annotation_records_one_line(annotations.drop_last());
        crate::types::lemma_annotation_record_on_one_line(annotations.last());
        if let Some(records) = crate::types::annotations_json(annotations) {
            let before = crate::types::annotations_json(annotations.drop_last())->0;
            assert forall|k: int| 0 <= k < records.len() implies one_line_record(#[trigger] records[k]) by {
                if k < before.len() {
                    assert(records[k] == before[k]);
                }
                assert(!records[k].contains('\n'));
            }
        }
    }
}

/// A rewritten annotations file reads back as one record per annotation, in order.
pub proof fn lemma_rewritten_annotations_read_back(annotations: Seq<AnnotationView>)
    ensures
        rewritten_annotations(annotations) matches Ok(text) ==> record_lines(text)
            == crate::types::annotations_json(annotations)->0,
{
    lemma_annotation_records_one_line(annotations);
    if let Some(records) = crate::types::annotations_json(annotations) {
        lemma_rewritten_file_reads_back(records);
    }
}

/// A rewritten archives file reads back as one record per archived set, in order; appending a
/// set rewrites the file with the sets already there followed by the new one.
pub proof fn lemma_rewritten_archives_read_back(archives: Seq<ArchiveView>)
    ensures
        rewritten_archives(archives) matches Ok(text) ==> record_lines(text) == archives_json(
            archives,
        )->0,
{
    lemma_archive_records_one_line(archives);
    if let Some(records) = archives_json(archives) {
        lemma_rewritten_file_reads_back(records);
    }
}

/// Whenever `text` is an archives file rewritten for sets the store reads, it loads as exactly
/// those sets.
pub open spec fn rewrites_read_back(text: Seq<char>) -> bool {
    forall|archives: Seq<ArchiveView>|
        #![trigger rewritten_archives(archives)]
        rewritten_archives(archives) == Ok::<Seq<char>, Seq<char>>(text) && (forall|k: int|
            0 <= k < archives.len() ==> crate::record_shapes::readable_archive(#[trigger] archives[k]))
            ==> archives_in(text) == Ok::<Seq<ArchiveView>, Seq<char>>(archives)
}

/// Whenever `text` is what appending a set the store reads made of an archives file, it loads
/// as the sets already there followed by the appended one.
pub open spec fn archive_appends_read_back(text: Seq<char>) -> bool {
    forall|stored: Seq<char>, archive: ArchiveView|
        #![trigger archive_appended(stored, archive)]
        archive_appended(stored, archive) == Ok::<Seq<char>, Seq<char>>(text)
            && crate::record_shapes::readable_archive(archive) ==> archives_in(text) == Ok::<
            Seq<ArchiveView>,
            Seq<char>,
        >(archives_in(stored)->Ok_0.push(archive))
}

proof fn lemma_annotations_readable(items: Seq<crate::json::JsonValue>)
    ensures
        crate::types::annotations_from_json(items) matches Some(annotations) ==> forall|k: int|
            0 <= k < annotations.len() ==> crate::record_shapes::readable_annotation(
                #[trigger] annotations[k],
            ),
    decreases items.len(),
{
    if items.len() > 0 {
        lemma_annotations_readable(items.drop_last());
        if let Some(annotations) = crate::types::annotations_from_json(items) {
            let before = crate::types::annotations_from_json(items.drop_last())->0;
            assert forall|k: int| 0 <= k < annotations.len() implies crate::record_shapes::readable_annotation(
                #[trigger] annotations[k],
            ) by {
                if k < before.len() {
                    assert(annotations[k] == before[k]);
                }
            }
        }
    }
}

proof fn lemma_loaded_archives_readable(documents: Seq<crate::json::JsonValue>)
    ensures
        documents_archives(documents) matches Some(archives) ==> forall|k: int|
            0 <= k < archives.len() ==> crate::record_shapes::readable_archive(#[trigger] archives[k]),
    decreases documents.len(),
{
    if documents.len() > 0 {
        lemma_loaded_archives_readable(documents.drop_last());
        if let Some(archives) = documents_archives(documents) {
            let before = documents_archives(documents.drop_last())->0;
            let value = documents.last();
            if let Some(crate::json::JsonValue::Array(items)) = crate::json::json_member(value, "annotations"@) {
                lemma_annotations_readable(items@);
            }
            assert forall|k: int| 0 <= k < archives.len() implies crate::record_shapes::readable_archive(
                #[trigger] archives[k],
            ) by {
                if k < before.len() {
                    assert(archives[k] == before[k]);
                }
            }
        }
    }
}

proof fn lemma_records_load(archives: Seq<ArchiveView>, records: Seq<Seq<char>>)
    requires
        archives_json(archives) == Some(records),
        forall|k: int| 0 <= k < archives.len() ==> crate::record_shapes::readable_archive(#[trigger] archives[k]),
        forall|k: int| 0 <= k < records.len() ==> reads_back(#[trigger] records[k], json_document(records[k])),
    ensures
        line_documents(records) matches Some(documents) && documents_archives(documents) == Some(
            archives,
        ),
    decreases archives.len(),
{
    if archives.len() == 0 {
        assert(records.len() == 0);
    } else {
        let before = archives.drop_last();
        let earlier = archives_json(before)->0;
        assert(records.drop_last() =~= earlier);
        assert forall|k: int| 0 <= k < before.len() implies crate::record_shapes::readable_archive(#[trigger] before[k]) by {
            assert(before[k] == archives[k]);
        }
        assert forall|k: int| 0 <= k < earlier.len() implies reads_back(#[trigger] earlier[k], json_document(earlier[k])) by {
            assert(earlier[k] == records[k]);
        }
        lemma_records_load(before, earlier);
        let last = archives.last();
        assert(crate::record_shapes::readable_archive(archives[archives.len() - 1]));
        crate::record_shapes::lemma_archive_text(last);
        crate::record_shapes::lemma_archive_writable(last, 100);
        let record = records[records.len() - 1];
        assert(record == records.last());
        assert(reads_back(record, json_document(record)));
        let value = json_document(record)->0;
        crate::record_shapes::lemma_archive_reads_back(value, last);
        let documents = line_documents(earlier)->0;
        assert(documents.push(value).drop_last() =~= documents);
        assert(archives =~= before.push(last));
    }
}

/// The message when an annotation cannot be written out.
pub open spec fn save_failed_message() -> Seq<char> {
    "Unable to save annotation"@
}

/// The text of an annotations file holding `annotations`, or the update failure.
pub open spec fn rewritten_annotations(annotations: Seq<AnnotationView>) -> Result<Seq<char>, Seq<char>> {
    match crate::types::annotations_json(annotations) {
        Some(records) => Ok(jsonl(records)),
        None => Err(update_failed_message(StoreName::Annotations)),
    }
}

/// The text of an archives file holding `archives`, or the update failure.
pub open spec fn rewritten_archives(archives: Seq<ArchiveView>) -> Result<Seq<char>, Seq<char>> {
    match archives_json(archives) {
        Some(records) => Ok(jsonl(records)),
        None => Err(update_failed_message(StoreName::Archives)),
    }
}

fn rewrite_annotations(annotations: &[Annotation]) -> (text: StoreResult<String>)
    ensures
        text_result(text) == rewritten_annotations(annotation_views(annotations@)),
{
    match render_annotation_lines(annotations) {
        Some(text) => Ok(text),
        None => Err(crate::text::joined("Unable to update ", StoreName::Annotations.lower())),
    }
}

fn rewrite_archives(archives: &[ArchivedAnnotationSet]) -> (text: StoreResult<String>)
    ensures
        text_result(text) == rewritten_archives(archive_views(archives@)),
{
    match render_archive_lines(archives) {
        Some(text) => Ok(text),
        None => Err(crate::text::joined("Unable to update ", StoreName::Archives.lower())),
    }
}

/// The line that appends one annotation to the annotations file.
pub open spec fn appended_annotation(annotation: AnnotationView) -> Result<Seq<char>, Seq<char>> {
    match annotation_json(annotation) {
        Some(record) => Ok(record.push('\n')),
        None => Err(save_failed_message()),
    }
}

/// Append one annotation without rewriting existing records: the line to add at the end of the
/// annotations file.
pub fn append_annotation(annotation: &Annotation) -> (line: StoreResult<String>)
    ensures
        text_result(line) == appended_annotation(annotation@),
{
    match render_annotation(annotation) {
        Some(mut record) => {
            push_char(&mut record, '\n');
            Ok(record)
        },
        None => Err(owned("Unable to save annotation")),
    }
}

/// The annotations file after removing the listed ids.
pub open spec fn removed_by_id(stored: Seq<char>, ids: Seq<Seq<char>>) -> Result<Seq<char>, Seq<char>> {
    match annotations_in(stored) {
        Ok(loaded) => rewritten_annotations(without_ids(loaded, ids)),
        Err(message) => Err(message),
    }
}

/// Remove selected annotation ids from the annotations file's text, keeping every other
/// record in its order.
pub fn remove_annotations_by_id(stored: &str, annotation_ids: &[String]) -> (updated: StoreResult<String>)
    ensures
        text_result(updated) == removed_by_id(stored@, annotation_ids@.map_values(|v: String| v@)),
{
    let loaded = load_annotations(stored)?;
    let retained = retain_without_ids(loaded.as_slice(), annotation_ids);
    rewrite_annotations(retained.as_slice())
}

/// The annotations file after merging `additions`, and how many were added; `None` in place of
/// the text when nothing was added, so the file is left alone.
pub open spec fn merged_into(stored: Seq<char>, additions: Seq<AnnotationView>) -> Result<
    (Option<Seq<char>>, nat),
    Seq<char>,
> {
    match annotations_in(stored) {
        Ok(loaded) => {
            let added = new_annotations(loaded, additions);
            if added.len() == 0 {
                Ok((None, 0))
            } else {
                match rewritten_annotations(loaded + added) {
                    Ok(text) => Ok((Some(text), added.len())),
                    Err(message) => Err(message),
                }
            }
        },
        Err(message) => Err(message),
    }
}

/// A merge result as text.
pub open spec fn merge_result(r: StoreResult<(Option<String>, usize)>) -> Result<
    (Option<Seq<char>>, nat),
    Seq<char>,
> {
    match r {
        Ok((Some(t), n)) => Ok((Some(t@), n as nat)),
        Ok((None, n)) => Ok((None, n as nat)),
        Err(m) => Err(m@),
    }
}

/// Merge annotations into the annotations file's text without duplicating existing ids.
pub fn merge_annotations(stored: &str, annotations: &[Annotation]) -> (merged: StoreResult<
    (Option<String>, usize),
>)
    ensures
        merge_result(merged) == merged_into(stored@, annotation_views(annotations@)),
{
    let loaded = load_annotations(stored)?;
    let (all, count) = merge_missing(loaded.as_slice(), annotations);
    if count == 0 {
        return Ok((None, 0));
    }
    let text = rewrite_annotations(all.as_slice())?;
    Ok((Some(text), count))
}

/// The archives file after appending one set.
pub open spec fn archive_appended(stored: Seq<char>, archive: ArchiveView) -> Result<Seq<char>, Seq<char>> {
    match archives_in(stored) {
        Ok(loaded) => rewritten_archives(loaded.push(archive)),
        Err(message) => Err(message),
    }
}

/// Append one complete set to the archives file's text.
pub fn append_archived_set(stored: &str, archive: &ArchivedAnnotationSet) -> (updated: StoreResult<String>)
    ensures
        text_result(updated) == archive_appended(stored@, archive@),
{
    let loaded = load_archived_sets(stored)?;
    let all = with_archive(loaded.as_slice(), archive);
    rewrite_archives(all.as_slice())
}

/// The archives file after removing the set with `archive_id`.
pub open spec fn archive_removed(stored: Seq<char>, archive_id: Seq<char>) -> Result<Seq<char>, Seq<char>> {
    match archives_in(stored) {
        Ok(loaded) => rewritten_archives(loaded.filter(|a: ArchiveView| a.id != archive_id)),
        Err(message) => Err(message),
    }
}

/// Permanently remove one archived set by its id from the archives file's text.
pub fn remove_archived_set(stored: &str, archive_id: &str) -> (updated: StoreResult<String>)
    ensures
        text_result(updated) == archive_removed(stored@, archive_id@),
{
    let loaded = load_archived_sets(stored)?;
    let retained = retain_other_archives(loaded.as_slice(), archive_id);
    rewrite_archives(retained.as_slice())
}

// ---------------------------------------------------------------------------------------------
// File errors and locks.

/// The kinds of file error the stores name.
#[derive(Debug, Clone, Copy, PartialEq, Eq, Structural)]
pub enum FileErrorKind {
    NotFound,
    PermissionDenied,
    AlreadyExists,
    IsADirectory,
    NotADirectory,
    DirectoryNotEmpty,
    StorageFull,
    ReadOnlyFilesystem,
    InvalidInput,
    Other,
}

/// A failed file operation: its kind, and the operating system's error number if it gave one.
#[derive(Debug, Clone, Copy, PartialEq, Eq, Structural)]
pub struct FileError {
    pub kind: FileErrorKind,
    pub raw_os_error: Option<i32>,
}

/// The POSIX name for a file error, or its number.
pub open spec fn error_code_text(kind: FileErrorKind, raw: i32) -> Seq<char> {
    match kind {
        FileErrorKind::NotFound => "ENOENT"@,
        FileErrorKind::PermissionDenied => "EACCES"@,
        FileErrorKind::AlreadyExists => "EEXIST"@,
        FileErrorKind::IsADirectory => "EISDIR"@,
        FileErrorKind::NotADirectory => "ENOTDIR"@,
        FileErrorKind::DirectoryNotEmpty => "ENOTEMPTY"@,
        FileErrorKind::StorageFull => "ENOSPC"@,
        FileErrorKind::ReadOnlyFilesystem => "EROFS"@,
        FileErrorKind::InvalidInput => "EINVAL"@,
        FileErrorKind::Other => "OS error "@ + signed_decimal(raw as int),
    }
}

/// A file error reported without its path: the prefix, then the error's code when the
/// operating system gave a number.
pub open spec fn file_error_message(prefix: Seq<char>, error: FileError) -> Seq<char> {
    match error.raw_os_error {
        Some(raw) => prefix + " ("@ + error_code_text(error.kind, raw) + seq![')'],
        None => prefix,
    }
}

/// The POSIX name for a file error, or its number.
pub fn os_error_code(kind: FileErrorKind, raw: i32) -> (code: String)
    ensures
        code@ == error_code_text(kind, raw),
{
    match kind {
        FileErrorKind::NotFound => owned("ENOENT"),
        FileErrorKind::PermissionDenied => owned("EACCES"),
        FileErrorKind::AlreadyExists => owned("EEXIST"),
        FileErrorKind::IsADirectory => owned("EISDIR"),
        FileErrorKind::NotADirectory => owned("ENOTDIR"),
        FileErrorKind::DirectoryNotEmpty => owned("ENOTEMPTY"),
        FileErrorKind::StorageFull => owned("ENOSPC"),
        FileErrorKind::ReadOnlyFilesystem => owned("EROFS"),
        FileErrorKind::InvalidInput => owned("EINVAL"),
        FileErrorKind::Other => {
            let mut code = owned("OS error ");
            let number = render_signed_decimal(raw as i64);
            code.append(number.as_str());
            code
        },
    }
}

/// Report a file error without leaking its path.
pub fn safe_file_error(prefix: &str, error: &FileError) -> (message: String)
    ensures
        message@ == file_error_message(prefix@, *error),
{
    match error.raw_os_error {
        Some(raw) => {
            let mut message = owned(prefix);
            message.append(" (");
            let code = os_error_code(error.kind, raw);
            message.append(code.as_str());
            push_char(&mut message, ')');
            message
        },
        None => owned(prefix),
    }
}

/// What a store operation was doing when a file operation failed.
#[derive(Debug, Clone, Copy, PartialEq, Eq, Structural)]
pub enum StoreAction {
    Access,
    Lock,
    Read,
    Update,
    SaveAnnotation,
}

/// The prefix of the message for a failure during `action` on `store`.
pub open spec fn action_prefix(action: StoreAction, store: StoreName) -> Seq<char> {
    match action {
        StoreAction::Access => "Unable to access "@ + store_lower(store),
        StoreAction::Lock => "Unable to lock "@ + store_lower(store),
        StoreAction::Read => "Unable to read "@ + store_lower(store),
        StoreAction::Update => "Unable to update "@ + store_lower(store),
        StoreAction::SaveAnnotation => "Unable to save annotation"@,
    }
}

/// The message for a file error during `action` on `store`.
pub fn store_failure(action: StoreAction, store: StoreName, error: &FileError) -> (message: String)
    ensures
        message@ == file_error_message(action_prefix(action, store), *error),
{
    let prefix = match action {
        StoreAction::Access => crate::text::joined("Unable to access ", store.lower()),
        StoreAction::Lock => crate::text::joined("Unable to lock ", store.lower()),
        StoreAction::Read => crate::text::joined("Unable to read ", store.lower()),
        StoreAction::Update => crate::text::joined("Unable to update ", store.lower()),
        StoreAction::SaveAnnotation => owned("Unable to save annotation"),
    };
    safe_file_error(prefix.as_str(), error)
}

/// How long a lock may be held before it counts as abandoned.
pub const STALE_LOCK_SECONDS: u64 = 30;

/// Whether a lock last touched `age_seconds` ago is abandoned; an unknown age never is.
pub fn is_stale_lock(age_seconds: Option<u64>) -> (stale: bool)
    ensures
        stale == (age_seconds matches Some(age) && age >= STALE_LOCK_SECONDS),
{
    match age_seconds {
        Some(age) => age >= STALE_LOCK_SECONDS,
        None => false,
    }
}

/// The outcome of trying to create a store's lock directory and its owner file.
#[derive(Debug, Clone, Copy, PartialEq, Eq, Structural)]
pub enum LockAttempt {
    Created,
    AlreadyExists,
    Failed(FileError),
}

/// What to do next while acquiring a store lock.
#[derive(Debug, Clone, PartialEq, Eq)]
pub enum LockStep {
    /// The lock is held.
    Acquired,
    /// Another owner holds the lock: look at its age.
    CheckStale,
    /// The lock was abandoned: remove it and try once more.
    RemoveAndRetry,
    /// Give up with this message.
    Refused(String),
}

/// The message for a store that another process holds.
pub open spec fn busy_message(store: StoreName) -> Seq<char> {
    store_capitalized(store) + " are busy; try again."@
}

fn busy(store: StoreName) -> (message: String)
    ensures
        message@ == busy_message(store),
{
    crate::text::joined(store.capitalized(), " are busy; try again.")
}

/// Decide after an attempt to create the lock: a first attempt that finds a lock leads to the
/// stale check, a second one means another process took it in between.
pub fn after_lock_attempt(store: StoreName, retried: bool, attempt: &LockAttempt) -> (step: LockStep)
    ensures
        match *attempt {
            LockAttempt::Created => step == LockStep::Acquired,
            LockAttempt::AlreadyExists => if retried {
                step matches LockStep::Refused(m) && m@ == busy_message(store)
            } else {
                step == LockStep::CheckStale
            },
            LockAttempt::Failed(error) => step matches LockStep::Refused(m) && m@
                == file_error_message(action_prefix(StoreAction::Lock, store), error),
        },
{
    match attempt {
        LockAttempt::Created => LockStep::Acquired,
        LockAttempt::AlreadyExists => if retried {
            LockStep::Refused(busy(store))
        } else {
            LockStep::CheckStale
        },
        LockAttempt::Failed(error) => LockStep::Refused(
            store_failure(StoreAction::Lock, store, error),
        ),
    }
}

/// Decide after looking at the age of a lock held by another owner.
pub fn after_stale_check(store: StoreName, age_seconds: Option<u64>) -> (step: LockStep)
    ensures
        (age_seconds matches Some(age) && age >= STALE_LOCK_SECONDS) ==> step
            == LockStep::RemoveAndRetry,
        !(age_seconds matches Some(age) && age >= STALE_LOCK_SECONDS) ==> (step matches LockStep::Refused(m)
            && m@ == busy_message(store)),
{
    if is_stale_lock(age_seconds) {
        LockStep::RemoveAndRetry
    } else {
        LockStep::Refused(busy(store))
    }
}

} // verus!
