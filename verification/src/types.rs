//! Persisted annotation records and Herdr invocation wire types.
//!
//! Records are read from `JsonValue` documents and written as JSON text with the stores' fixed
//! field names and order, so every record is written byte for byte the same way.

use vstd::prelude::*;

use crate::json::{
    json_is_one, json_member, json_string_literal, quote_json, string_member, text_of, JsonValue,
};
use crate::text::{is_javascript_blank, join_with, js_trimmed};

verus! {

/// Herdr invocation fields retained as useful annotation provenance.
#[derive(Debug, Clone, PartialEq, Eq)]
pub struct InvocationContext {
    pub workspace_id: Option<String>,
    pub workspace_label: Option<String>,
    pub tab_id: Option<String>,
    pub tab_label: Option<String>,
    pub focused_pane_id: Option<String>,
    pub focused_pane_cwd: Option<String>,
    pub focused_pane_agent: Option<String>,
}

/// Clipboard text and provenance waiting for a user comment.
#[derive(Debug, Clone, PartialEq, Eq)]
pub struct PendingAnnotation {
    pub selected_text: String,
    pub context: InvocationContext,
    pub captured_at: String,
}

/// A saved annotation with a non-empty user comment.
#[derive(Debug, Clone, PartialEq, Eq)]
pub struct Annotation {
    pub selected_text: String,
    pub context: InvocationContext,
    pub captured_at: String,
    pub id: String,
    pub comment: String,
    pub created_at: String,
}

/// One recoverable set of annotations moved out of the active list.
#[derive(Debug, Clone, PartialEq, Eq)]
pub struct ArchivedAnnotationSet {
    pub version: u8,
    pub id: String,
    pub archived_at: String,
    pub annotations: Vec<Annotation>,
}

/// The provenance fields as text.
pub struct ContextView {
    pub workspace_id: Option<Seq<char>>,
    pub workspace_label: Option<Seq<char>>,
    pub tab_id: Option<Seq<char>>,
    pub tab_label: Option<Seq<char>>,
    pub focused_pane_id: Option<Seq<char>>,
    pub focused_pane_cwd: Option<Seq<char>>,
    pub focused_pane_agent: Option<Seq<char>>,
}

/// A pending record as text.
pub struct PendingView {
    pub selected_text: Seq<char>,
    pub context: ContextView,
    pub captured_at: Seq<char>,
}

/// An annotation as text.
pub struct AnnotationView {
    pub selected_text: Seq<char>,
    pub context: ContextView,
    pub captured_at: Seq<char>,
    pub id: Seq<char>,
    pub comment: Seq<char>,
    pub created_at: Seq<char>,
}

/// An archived set as text.
pub struct ArchiveView {
    pub version: u8,
    pub id: Seq<char>,
    pub archived_at: Seq<char>,
    pub annotations: Seq<AnnotationView>,
}

impl View for InvocationContext {
    type V = ContextView;

    open spec fn view(&self) -> ContextView {
        ContextView {
            workspace_id: self.workspace_id.deep_view(),
            workspace_label: self.workspace_label.deep_view(),
            tab_id: self.tab_id.deep_view(),
            tab_label: self.tab_label.deep_view(),
            focused_pane_id: self.focused_pane_id.deep_view(),
            focused_pane_cwd: self.focused_pane_cwd.deep_view(),
            focused_pane_agent: self.focused_pane_agent.deep_view(),
        }
    }
}

impl View for PendingAnnotation {
    type V = PendingView;

    open spec fn view(&self) -> PendingView {
        PendingView {
            selected_text: self.selected_text@,
            context: self.context@,
            captured_at: self.captured_at@,
        }
    }
}

impl View for Annotation {
    type V = AnnotationView;

    open spec fn view(&self) -> AnnotationView {
        AnnotationView {
            selected_text: self.selected_text@,
            context: self.context@,
            captured_at: self.captured_at@,
            id: self.id@,
            comment: self.comment@,
            created_at: self.created_at@,
        }
    }
}

/// The views of a sequence of annotations.
pub open spec fn annotation_views(annotations: Seq<Annotation>) -> Seq<AnnotationView> {
    annotations.map_values(|a: Annotation| a@)
}

impl View for ArchivedAnnotationSet {
    type V = ArchiveView;

    open spec fn view(&self) -> ArchiveView {
        ArchiveView {
            version: self.version,
            id: self.id@,
            archived_at: self.archived_at@,
            annotations: annotation_views(self.annotations@),
        }
    }
}

/// The views of a sequence of archived sets.
pub open spec fn archive_views(archives: Seq<ArchivedAnnotationSet>) -> Seq<ArchiveView> {
    archives.map_values(|a: ArchivedAnnotationSet| a@)
}

/// A context without any provenance.
pub open spec fn empty_context() -> ContextView {
    ContextView {
        workspace_id: None,
        workspace_label: None,
        tab_id: None,
        tab_label: None,
        focused_pane_id: None,
        focused_pane_cwd: None,
        focused_pane_agent: None,
    }
}

impl Default for InvocationContext {
    fn default() -> (context: Self)
        ensures
            context@ == empty_context(),
    {
        InvocationContext {
            workspace_id: None,
            workspace_label: None,
            tab_id: None,
            tab_label: None,
            focused_pane_id: None,
            focused_pane_cwd: None,
            focused_pane_agent: None,
        }
    }
}

fn copy_text(value: &Option<String>) -> (copy: Option<String>)
    ensures
        copy.deep_view() == value.deep_view(),
{
    match value {
        Some(s) => Some(s.clone()),
        None => None,
    }
}

impl InvocationContext {
    /// A copy with the same fields.
    pub fn duplicate(&self) -> (copy: Self)
        ensures
            copy@ == self@,
    {
        InvocationContext {
            workspace_id: copy_text(&self.workspace_id),
            workspace_label: copy_text(&self.workspace_label),
            tab_id: copy_text(&self.tab_id),
            tab_label: copy_text(&self.tab_label),
            focused_pane_id: copy_text(&self.focused_pane_id),
            focused_pane_cwd: copy_text(&self.focused_pane_cwd),
            focused_pane_agent: copy_text(&self.focused_pane_agent),
        }
    }
}

impl Annotation {
    /// Complete a pending record with its id, comment and creation time, in the persisted field
/// order.
    pub fn from_pending(
        pending: PendingAnnotation,
        id: String,
        comment: String,
        created_at: String,
    ) -> (annotation: Self)
        ensures
            annotation@ == (AnnotationView {
                selected_text: pending@.selected_text,
                context: pending@.context,
                captured_at: pending@.captured_at,
                id: id@,
                comment: comment@,
                created_at: created_at@,
            }),
    {
        Annotation {
            selected_text: pending.selected_text,
            context: pending.context,
            captured_at: pending.captured_at,
            id,
            comment,
            created_at,
        }
    }

    /// A copy with the same fields.
    pub fn duplicate(&self) -> (copy: Self)
        ensures
            copy@ == self@,
    {
        Annotation {
            selected_text: self.selected_text.clone(),
            context: self.context.duplicate(),
            captured_at: self.captured_at.clone(),
            id: self.id.clone(),
            comment: self.comment.clone(),
            created_at: self.created_at.clone(),
        }
    }
}

/// Copies of the annotations, in the same order.
pub fn duplicate_annotations(annotations: &[Annotation]) -> (copies: Vec<Annotation>)
    ensures
        annotation_views(copies@) == annotation_views(annotations@),
{
    let mut copies: Vec<Annotation> = Vec::new();
    let mut i: usize = 0;
    while i < annotations.len()
        invariant
            i <= annotations@.len(),
            copies@.len() == i,
            forall|j: int| 0 <= j < i ==> (#[trigger] copies@[j])@ == annotations@[j]@,
        decreases annotations@.len() - i,
    {
        copies.push(annotations[i].duplicate());
        i = i + 1;
    }
    assert(annotation_views(copies@) =~= annotation_views(annotations@));
    copies
}

impl ArchivedAnnotationSet {
    /// A copy with the same fields.
    pub fn duplicate(&self) -> (copy: Self)
        ensures
            copy@ == self@,
    {
        ArchivedAnnotationSet {
            version: self.version,
            id: self.id.clone(),
            archived_at: self.archived_at.clone(),
            annotations: duplicate_annotations(self.annotations.as_slice()),
        }
    }
}

// ---------------------------------------------------------------------------------------------
// Reading records from JSON documents.

/// The provenance that `parse_invocation_context` keeps from a document.
pub open spec fn context_from_json(value: JsonValue) -> ContextView {
    if value is Object {
        ContextView {
            workspace_id: string_member(value, "workspace_id"@),
            workspace_label: string_member(value, "workspace_label"@),
            tab_id: string_member(value, "tab_id"@),
            tab_label: string_member(value, "tab_label"@),
            focused_pane_id: string_member(value, "focused_pane_id"@),
            focused_pane_cwd: string_member(value, "focused_pane_cwd"@),
            focused_pane_agent: string_member(value, "focused_pane_agent"@),
        }
    } else {
        empty_context()
    }
}

/// The non-blank `selected_text` of an invocation document.
pub open spec fn selection_from_json(value: JsonValue) -> Option<Seq<char>> {
    match string_member(value, "selected_text"@) {
        Some(text) => if js_trimmed(text).len() == 0 {
            None
        } else {
            Some(text)
        },
        None => None,
    }
}

/// The pending record a pending-annotation file holds.
pub open spec fn pending_from_json(value: JsonValue) -> Option<PendingView> {
    if !(value is Object) {
        None
    } else {
        match (string_member(value, "selectedText"@), string_member(value, "capturedAt"@)) {
            (Some(selected_text), Some(captured_at)) => Some(
                PendingView {
                    selected_text,
                    context: match json_member(value, "context"@) {
                        Some(context) => context_from_json(context),
                        None => empty_context(),
                    },
                    captured_at,
                },
            ),
            _ => None,
        }
    }
}

/// The annotation one persisted record holds.
pub open spec fn annotation_from_json(value: JsonValue) -> Option<AnnotationView> {
    match (
        pending_from_json(value),
        string_member(value, "id"@),
        string_member(value, "comment"@),
        string_member(value, "createdAt"@),
    ) {
        (Some(pending), Some(id), Some(comment), Some(created_at)) => if id.len() == 0 || js_trimmed(
            comment,
        ).len() == 0 || created_at.len() == 0 {
            None
        } else {
            Some(
                AnnotationView {
                    selected_text: pending.selected_text,
                    context: pending.context,
                    captured_at: pending.captured_at,
                    id,
                    comment,
                    created_at,
                },
            )
        },
        _ => None,
    }
}

/// Every item read as an annotation, or `None` if any item is not one.
pub open spec fn annotations_from_json(items: Seq<JsonValue>) -> Option<Seq<AnnotationView>>
    decreases items.len(),
{
    if items.len() == 0 {
        Some(seq![])
    } else {
        match (annotations_from_json(items.drop_last()), annotation_from_json(items.last())) {
            (Some(done), Some(last)) => Some(done.push(last)),
            _ => None,
        }
    }
}

/// The archived set one persisted record holds; partial sets are not accepted.
pub open spec fn archive_from_json(value: JsonValue) -> Option<ArchiveView> {
    if !json_is_one(json_member(value, "version"@)) {
        None
    } else {
        match (
            string_member(value, "id"@),
            string_member(value, "archivedAt"@),
            json_member(value, "annotations"@),
        ) {
            (Some(id), Some(archived_at), Some(JsonValue::Array(items))) => if id.len() == 0
                || archived_at.len() == 0 || items@.len() == 0 {
                None
            } else {
                match annotations_from_json(items@) {
                    Some(annotations) => Some(
                        ArchiveView { version: 1, id, archived_at, annotations },
                    ),
                    None => None,
                }
            },
            _ => None,
        }
    }
}

fn optional_string(value: &JsonValue, key: &str) -> (text: Option<String>)
    ensures
        text.deep_view() == string_member(*value, key@),
{
    text_of(value.get(key))
}

/// Parse untrusted Herdr context JSON into the small provenance shape the plugin stores.
pub fn parse_invocation_context(value: &JsonValue) -> (context: InvocationContext)
    ensures
        context@ == context_from_json(*value),
{
    if !value.is_object() {
        return InvocationContext::default();
    }
    InvocationContext {
        workspace_id: optional_string(value, "workspace_id"),
        workspace_label: optional_string(value, "workspace_label"),
        tab_id: optional_string(value, "tab_id"),
        tab_label: optional_string(value, "tab_label"),
        focused_pane_id: optional_string(value, "focused_pane_id"),
        focused_pane_cwd: optional_string(value, "focused_pane_cwd"),
        focused_pane_agent: optional_string(value, "focused_pane_agent"),
    }
}

/// Read a non-empty terminal selection from Herdr's plugin invocation context.
pub fn selected_text_from_invocation(value: &JsonValue) -> (selected: Option<String>)
    ensures
        selected.deep_view() == selection_from_json(*value),
{
    match optional_string(value, "selected_text") {
        Some(selected) => if is_javascript_blank(selected.as_str()) {
            None
        } else {
            Some(selected)
        },
        None => None,
    }
}

/// Build a pending annotation from selected text supplied by a Herdr pane invocation.
pub fn pending_annotation_from_invocation(value: &JsonValue, captured_at: &str) -> (pending: Option<
    PendingAnnotation,
>)
    ensures
        match selection_from_json(*value) {
            Some(selected_text) => pending matches Some(p) && p@ == (PendingView {
                selected_text,
                context: context_from_json(*value),
                captured_at: captured_at@,
            }),
            None => pending is None,
        },
{
    let selected_text = match selected_text_from_invocation(value) {
        Some(text) => text,
        None => {
            return None;
        },
    };
    Some(
        PendingAnnotation {
            selected_text,
            context: parse_invocation_context(value),
            captured_at: String::from_str(captured_at),
        },
    )
}

/// The view of an optional pending record.
pub open spec fn pending_views(pending: Option<PendingAnnotation>) -> Option<PendingView> {
    match pending {
        Some(p) => Some(p@),
        None => None,
    }
}

/// The view of an optional annotation.
pub open spec fn annotation_view_of(annotation: Option<Annotation>) -> Option<AnnotationView> {
    match annotation {
        Some(a) => Some(a@),
        None => None,
    }
}

/// The view of an optional archived set.
pub open spec fn archive_view_of(archive: Option<ArchivedAnnotationSet>) -> Option<ArchiveView> {
    match archive {
        Some(a) => Some(a@),
        None => None,
    }
}

/// Parse a pending-annotation file, returning `None` when required fields are invalid.
pub fn parse_pending_annotation(value: &JsonValue) -> (pending: Option<PendingAnnotation>)
    ensures
        pending_views(pending) == pending_from_json(*value),
{
    if !value.is_object() {
        return None;
    }
    let selected_text = match optional_string(value, "selectedText") {
        Some(text) => text,
        None => {
            return None;
        },
    };
    let context = match value.get("context") {
        Some(context) => parse_invocation_context(context),
        None => InvocationContext::default(),
    };
    let captured_at = match optional_string(value, "capturedAt") {
        Some(text) => text,
        None => {
            return None;
        },
    };
    Some(PendingAnnotation { selected_text, context, captured_at })
}

/// Parse one persisted JSONL record, returning `None` for malformed records.
pub fn parse_annotation(value: &JsonValue) -> (annotation: Option<Annotation>)
    ensures
        annotation_view_of(annotation) == annotation_from_json(*value),
{
    let pending = match parse_pending_annotation(value) {
        Some(pending) => pending,
        None => {
            return None;
        },
    };
    let id = match optional_string(value, "id") {
        Some(text) => text,
        None => {
            return None;
        },
    };
    let comment = match optional_string(value, "comment") {
        Some(text) => text,
        None => {
            return None;
        },
    };
    let created_at = match optional_string(value, "createdAt") {
        Some(text) => text,
        None => {
            return None;
        },
    };
    if id.as_str().unicode_len() == 0 || is_javascript_blank(comment.as_str())
        || created_at.as_str().unicode_len() == 0 {
        return None;
    }
    Some(Annotation::from_pending(pending, id, comment, created_at))
}

/// Parse one persisted archive record without accepting partial annotation sets.
#[verifier::loop_isolation(false)]
pub fn parse_archived_annotation_set(value: &JsonValue) -> (archive: Option<ArchivedAnnotationSet>)
    ensures
        archive_view_of(archive) == archive_from_json(*value),
{
    match value.get("version") {
        Some(version) => if !version.is_one() {
            return None;
        },
        None => {
            return None;
        },
    }
    let id = match optional_string(value, "id") {
        Some(text) => text,
        None => {
            return None;
        },
    };
    let archived_at = match optional_string(value, "archivedAt") {
        Some(text) => text,
        None => {
            return None;
        },
    };
    let items = match value.get("annotations") {
        Some(JsonValue::Array(items)) => items,
        _ => {
            return None;
        },
    };
    if id.as_str().unicode_len() == 0 || archived_at.as_str().unicode_len() == 0 || items.len()
        == 0 {
        return None;
    }
    let mut annotations: Vec<Annotation> = Vec::new();
    let mut i: usize = 0;
    while i < items.len()
        invariant
            i <= items@.len(),
            annotations_from_json(items@.take(i as int)) == Some(annotation_views(annotations@)),
        decreases items@.len() - i,
    {
        proof {
            assert(items@.take(i + 1).drop_last() =~= items@.take(i as int));
            assert(items@.take(i + 1).last() == items@[i as int]);
        }
        match parse_annotation(&items[i]) {
            Some(annotation) => {
                annotations.push(annotation);
            },
            None => {
                proof {
                    assert(annotation_from_json(items@[i as int]) is None);
                    assert(annotations_from_json(items@.take(i + 1)) is None);
                    lemma_annotations_from_json_prefix(items@, (i + 1) as int);
                }
                return None;
            },
        }
        i = i + 1;
        assert(annotation_views(annotations@) =~= annotation_views(annotations@).drop_last().push(
            annotations@.last()@,
        ));
    }
    assert(items@.take(items@.len() as int) =~= items@);
    Some(ArchivedAnnotationSet { version: 1, id, archived_at, annotations })
}

/// Once a prefix of the items fails to read as annotations, so do all the items.
pub proof fn lemma_annotations_from_json_prefix(items: Seq<JsonValue>, n: int)
    requires
        0 <= n <= items.len(),
        annotations_from_json(items.take(n)) is None,
    ensures
        annotations_from_json(items) is None,
    decreases items.len() - n,
{
    if n < items.len() {
        assert(items.take(n + 1).drop_last() =~= items.take(n));
        lemma_annotations_from_json_prefix(items, n + 1);
    } else {
        assert(items.take(n) =~= items);
    }
}

// ---------------------------------------------------------------------------------------------
// Writing records as JSON text.

/// `{` + the members separated by commas + `}`.
pub open spec fn json_object(members: Seq<Seq<char>>) -> Seq<char> {
    seq!['{'] + join_with(members, seq![',']) + seq!['}']
}

/// `[` + the items separated by commas + `]`.
pub open spec fn json_array(items: Seq<Seq<char>>) -> Seq<char> {
    seq!['['] + join_with(items, seq![',']) + seq![']']
}

/// The members written for the present fields among `entries` (a written key, then the text),
/// each text as a JSON string literal; `None` if a literal cannot be written.
pub open spec fn string_members(entries: Seq<(Seq<char>, Option<Seq<char>>)>) -> Option<
    Seq<Seq<char>>,
>
    decreases entries.len(),
{
    if entries.len() == 0 {
        Some(seq![])
    } else {
        match string_members(entries.drop_last()) {
            None => None,
            Some(done) => match entries.last().1 {
                None => Some(done),
                Some(text) => match json_string_literal(text) {
                    Some(literal) => Some(done.push(entries.last().0 + literal)),
                    None => None,
                },
            },
        }
    }
}

/// The fields of a context, in the order they are written, each with its written key.
pub open spec fn context_entries(context: ContextView) -> Seq<(Seq<char>, Option<Seq<char>>)> {
    seq![
        ("\"workspace_id\":"@, context.workspace_id),
        ("\"workspace_label\":"@, context.workspace_label),
        ("\"tab_id\":"@, context.tab_id),
        ("\"tab_label\":"@, context.tab_label),
        ("\"focused_pane_id\":"@, context.focused_pane_id),
        ("\"focused_pane_cwd\":"@, context.focused_pane_cwd),
        ("\"focused_pane_agent\":"@, context.focused_pane_agent),
    ]
}

/// A context as a JSON object; absent fields are left out.
pub open spec fn context_json(context: ContextView) -> Option<Seq<char>> {
    match string_members(context_entries(context)) {
        Some(members) => Some(json_object(members)),
        None => None,
    }
}

/// A pending record as JSON: `selectedText`, `context`, `capturedAt`.
pub open spec fn pending_json(pending: PendingView) -> Option<Seq<char>> {
    match (
        json_string_literal(pending.selected_text),
        context_json(pending.context),
        json_string_literal(pending.captured_at),
    ) {
        (Some(selected), Some(context), Some(captured)) => Some(
            json_object(
                seq![
                    "\"selectedText\":"@ + selected,
                    "\"context\":"@ + context,
                    "\"capturedAt\":"@ + captured,
                ],
            ),
        ),
        _ => None,
    }
}

/// An annotation as JSON, in the persisted field order: `selectedText`, `context`,
/// `capturedAt`, `id`, `comment`, `createdAt`.
pub open spec fn annotation_json(annotation: AnnotationView) -> Option<Seq<char>> {
    match (
        json_string_literal(annotation.selected_text),
        context_json(annotation.context),
        json_string_literal(annotation.captured_at),
        json_string_literal(annotation.id),
        json_string_literal(annotation.comment),
        json_string_literal(annotation.created_at),
    ) {
        (
            Some(selected),
            Some(context),
            Some(captured),
            Some(id),
            Some(comment),
            Some(created),
        ) => Some(
            json_object(
                seq![
                    "\"selectedText\":"@ + selected,
                    "\"context\":"@ + context,
                    "\"capturedAt\":"@ + captured,
                    "\"id\":"@ + id,
                    "\"comment\":"@ + comment,
                    "\"createdAt\":"@ + created,
                ],
            ),
        ),
        _ => None,
    }
}

// ---------------------------------------------------------------------------------------------
// Records fit on one line.

/// Text without a line break.
pub open spec fn without_line_break(text: Seq<char>) -> bool {
    forall|i: int| 0 <= i < text.len() ==> text[i] != '\n'
}

proof fn lemma_escape_on_one_line(c: char)
    ensures
        without_line_break(crate::json::json_char_escape(c)),
{
    let escape = crate::json::json_char_escape(c);
    if c != '"' && c != '\\' && c != '\u{8}' && c != '\t' && c != '\n' && c != '\u{c}' && c != '\r'
        && (c as int) < 0x20 {
        let hi = (c as int) / 16;
        let lo = (c as int) % 16;
        assert(0 <= hi < 16 && 0 <= lo < 16);
        assert(crate::json::hex_digit(hi) != '\n');
        assert(crate::json::hex_digit(lo) != '\n');
    }
}

proof fn lemma_escaped_on_one_line(text: Seq<char>)
    ensures
        without_line_break(text.map_values(|c: char| crate::json::json_char_escape(c)).flatten()),
    decreases text.len(),
{
    let pieces = text.map_values(|c: char| crate::json::json_char_escape(c));
    if text.len() == 0 {
        assert(pieces =~= Seq::<Seq<char>>::empty());
        assert(pieces.flatten() =~= Seq::<char>::empty());
    } else {
        let before = text.drop_last();
        lemma_escaped_on_one_line(before);
        lemma_escape_on_one_line(text.last());
        assert(pieces =~= before.map_values(|c: char| crate::json::json_char_escape(c)).push(
            crate::json::json_char_escape(text.last()),
        ));
        before.map_values(|c: char| crate::json::json_char_escape(c)).lemma_flatten_push(
            crate::json::json_char_escape(text.last()),
        );
    }
}

/// A JSON string literal has no line break: a newline in the text is written as `\n`.
pub proof fn lemma_literal_on_one_line(text: Seq<char>)
    ensures
        json_string_literal(text) matches Some(literal) ==> without_line_break(literal),
{
    reveal(json_string_literal);
    lemma_escaped_on_one_line(text);
}

proof fn lemma_join_on_one_line(parts: Seq<Seq<char>>)
    requires
        forall|k: int| 0 <= k < parts.len() ==> without_line_break(#[trigger] parts[k]),
    ensures
        without_line_break(join_with(parts, seq![','])),
    decreases parts.len(),
{
    if parts.len() > 1 {
        let before = parts.drop_last();
        assert forall|k: int| 0 <= k < before.len() implies without_line_break(#[trigger] before[k]) by {
            assert(before[k] == parts[k]);
        }
        lemma_join_on_one_line(before);
        assert(without_line_break(parts[parts.len() - 1]));
    } else if parts.len() == 1 {
        assert(without_line_break(parts[0]));
    }
}

/// A JSON object of one-line members is on one line.
proof fn lemma_object_on_one_line(members: Seq<Seq<char>>)
    requires
        forall|k: int| 0 <= k < members.len() ==> without_line_break(#[trigger] members[k]),
    ensures
        without_line_break(json_object(members)),
{
    lemma_join_on_one_line(members);
}

proof fn lemma_members_on_one_line(entries: Seq<(Seq<char>, Option<Seq<char>>)>)
    requires
        forall|k: int| 0 <= k < entries.len() ==> without_line_break(#[trigger] entries[k].0),
    ensures
        string_members(entries) matches Some(members) ==> forall|k: int|
            0 <= k < members.len() ==> without_line_break(#[trigger] members[k]),
    decreases entries.len(),
{
    if entries.len() > 0 {
        let before = entries.drop_last();
        assert forall|k: int| 0 <= k < before.len() implies without_line_break(#[trigger] before[k].0) by {
            assert(before[k] == entries[k]);
        }
        lemma_members_on_one_line(before);
        let last = entries.last();
        assert(without_line_break(entries[entries.len() - 1].0));
        if let Some(text) = last.1 {
            lemma_literal_on_one_line(text);
        }
    }
}

/// An annotation's record, when it can be written, is one non-empty line ending in `}`.
pub proof fn lemma_annotation_record_on_one_line(annotation: AnnotationView)
    ensures
        annotation_json(annotation) matches Some(record) ==> {
            &&& without_line_break(record)
            &&& record.len() > 0
            &&& record.last() == '}'
        },
{
    reveal_strlit("\"workspace_id\":");
    reveal_strlit("\"workspace_label\":");
    reveal_strlit("\"tab_id\":");
    reveal_strlit("\"tab_label\":");
    reveal_strlit("\"focused_pane_id\":");
    reveal_strlit("\"focused_pane_cwd\":");
    reveal_strlit("\"focused_pane_agent\":");
    reveal_strlit("\"selectedText\":");
    reveal_strlit("\"context\":");
    reveal_strlit("\"capturedAt\":");
    reveal_strlit("\"id\":");
    reveal_strlit("\"comment\":");
    reveal_strlit("\"createdAt\":");
    let entries = context_entries(annotation.context);
    assert forall|k: int| 0 <= k < entries.len() implies without_line_break(#[trigger] entries[k].0) by {
    }
    lemma_members_on_one_line(entries);
    if let Some(members) = string_members(entries) {
        lemma_object_on_one_line(members);
    }
    lemma_literal_on_one_line(annotation.selected_text);
    lemma_literal_on_one_line(annotation.captured_at);
    lemma_literal_on_one_line(annotation.id);
    lemma_literal_on_one_line(annotation.comment);
    lemma_literal_on_one_line(annotation.created_at);
    match annotation_json(annotation) {
        Some(record) => {
            let parts = seq![
                "\"selectedText\":"@ + json_string_literal(annotation.selected_text)->0,
                "\"context\":"@ + context_json(annotation.context)->0,
                "\"capturedAt\":"@ + json_string_literal(annotation.captured_at)->0,
                "\"id\":"@ + json_string_literal(annotation.id)->0,
                "\"comment\":"@ + json_string_literal(annotation.comment)->0,
                "\"createdAt\":"@ + json_string_literal(annotation.created_at)->0,
            ];
            assert(record == json_object(parts));
            assert forall|k: int| 0 <= k < parts.len() implies without_line_break(#[trigger] parts[k]) by {
            }
            lemma_object_on_one_line(parts);
        },
        None => {},
    }
}

/// Every annotation as JSON, or `None` if one cannot be written.
pub open spec fn annotations_json(annotations: Seq<AnnotationView>) -> Option<Seq<Seq<char>>>
    decreases annotations.len(),
{
    if annotations.len() == 0 {
        Some(seq![])
    } else {
        match (annotations_json(annotations.drop_last()), annotation_json(annotations.last())) {
            (Some(done), Some(last)) => Some(done.push(last)),
            _ => None,
        }
    }
}

/// An archived set as JSON: `version`, `id`, `archivedAt`, `annotations`.
pub open spec fn archive_json(archive: ArchiveView) -> Option<Seq<char>> {
    match (
        json_string_literal(archive.id),
        json_string_literal(archive.archived_at),
        annotations_json(archive.annotations),
    ) {
        (Some(id), Some(archived_at), Some(items)) => Some(
            json_object(
                seq![
                    "\"version\":"@ + crate::text::decimal(archive.version as nat),
                    "\"id\":"@ + id,
                    "\"archivedAt\":"@ + archived_at,
                    "\"annotations\":"@ + json_array(items),
                ],
            ),
        ),
        _ => None,
    }
}

proof fn lemma_decimal_on_one_line(n: nat)
    ensures
        without_line_break(crate::text::decimal(n)),
    decreases n,
{
    if n >= 10 {
        lemma_decimal_on_one_line(n / 10);
    }
}

proof fn lemma_records_on_one_line(annotations: Seq<AnnotationView>)
    ensures
        annotations_json(annotations) matches Some(records) ==> forall|k: int|
            0 <= k < records.len() ==> without_line_break(#[trigger] records[k]),
    decreases annotations.len(),
{
    if annotations.len() > 0 {
        lemma_records_on_one_line(annotations.drop_last());
        lemma_annotation_record_on_one_line(annotations.last());
        if let Some(records) = annotations_json(annotations) {
            let before = annotations_json(annotations.drop_last())->0;
            assert forall|k: int| 0 <= k < records.len() implies without_line_break(#[trigger] records[k]) by {
                if k < before.len() {
                    assert(records[k] == before[k]);
                }
            }
        }
    }
}

/// An archived set's record, when it can be written, is one non-empty line ending in `}`.
pub proof fn lemma_archive_record_on_one_line(archive: ArchiveView)
    ensures
        archive_json(archive) matches Some(record) ==> {
            &&& without_line_break(record)
            &&& record.len() > 0
            &&& record.last() == '}'
        },
{
    reveal_strlit("\"version\":");
    reveal_strlit("\"id\":");
    reveal_strlit("\"archivedAt\":");
    reveal_strlit("\"annotations\":");
    lemma_literal_on_one_line(archive.id);
    lemma_literal_on_one_line(archive.archived_at);
    lemma_decimal_on_one_line(archive.version as nat);
    lemma_records_on_one_line(archive.annotations);
    match archive_json(archive) {
        Some(record) => {
            let items = annotations_json(archive.annotations)->0;
            lemma_join_on_one_line(items);
            let parts = seq![
                "\"version\":"@ + crate::text::decimal(archive.version as nat),
                "\"id\":"@ + json_string_literal(archive.id)->0,
                "\"archivedAt\":"@ + json_string_literal(archive.archived_at)->0,
                "\"annotations\":"@ + json_array(items),
            ];
            assert(record == json_object(parts));
            assert forall|k: int| 0 <= k < parts.len() implies without_line_break(#[trigger] parts[k]) by {
            }
            lemma_object_on_one_line(parts);
        },
        None => {},
    }
}


fn push_member(members: &mut Vec<String>, key: &str, value: &str)
    ensures
        final(members)@ == old(members)@.push(final(members)@.last()),
        final(members)@.last()@ == key@ + value@,
{
    members.push(crate::text::joined(key, value));
}

fn object_text(members: &Vec<String>) -> (text: String)
    ensures
        text@ == json_object(members@.map_values(|m: String| m@)),
{
    let mut text = String::new();
    crate::text::push_char(&mut text, '{');
    let inner = crate::text::join_strings(members, ",");
    text.append(inner.as_str());
    crate::text::push_char(&mut text, '}');
    proof {
        reveal_strlit(",");
        assert(","@ =~= seq![',']);
    }
    assert(text@ =~= json_object(members@.map_values(|m: String| m@)));
    text
}

/// Write the present context fields as a JSON object.
pub fn render_context(context: &InvocationContext) -> (json: Option<String>)
    ensures
        json.deep_view() == context_json(context@),
{
    let ghost entries = context_entries(context@);
    let keys: [&str; 7] = [
        "\"workspace_id\":",
        "\"workspace_label\":",
        "\"tab_id\":",
        "\"tab_label\":",
        "\"focused_pane_id\":",
        "\"focused_pane_cwd\":",
        "\"focused_pane_agent\":",
    ];
    let values: [&Option<String>; 7] = [
        &context.workspace_id,
        &context.workspace_label,
        &context.tab_id,
        &context.tab_label,
        &context.focused_pane_id,
        &context.focused_pane_cwd,
        &context.focused_pane_agent,
    ];
    assert(forall|k: int| 0 <= k < 7 ==> keys@[k]@ == #[trigger] entries[k].0);
    assert(forall|k: int| 0 <= k < 7 ==> values@[k].deep_view() == #[trigger] entries[k].1);
    let mut members: Vec<String> = Vec::new();
    let mut i: usize = 0;
    while i < 7
        invariant
            i <= 7,
            entries == context_entries(context@),
            entries.len() == 7,
            forall|k: int| 0 <= k < 7 ==> keys@[k]@ == #[trigger] entries[k].0,
            forall|k: int| 0 <= k < 7 ==> values@[k].deep_view() == #[trigger] entries[k].1,
            string_members(entries.take(i as int)) == Some(members@.map_values(|m: String| m@)),
        decreases 7 - i,
    {
        proof {
            assert(entries.take(i + 1).drop_last() =~= entries.take(i as int));
            assert(entries.take(i + 1).last() == entries[i as int]);
        }
        let ghost before = members@;
        match values[i] {
            Some(value) => {
                match quote_json(value.as_str()) {
                    Some(literal) => {
                        push_member(&mut members, keys[i], literal.as_str());
                        assert(members@.map_values(|m: String| m@) =~= before.map_values(
                            |m: String| m@,
                        ).push(keys@[i as int]@ + literal@));
                    },
                    None => {
                        proof {
                            lemma_string_members_prefix(entries, (i + 1) as int);
                        }
                        return None;
                    },
                }
            },
            None => {},
        }
        i = i + 1;
    }
    assert(entries.take(7) =~= entries);
    Some(object_text(&members))
}

proof fn lemma_string_members_prefix(entries: Seq<(Seq<char>, Option<Seq<char>>)>, n: int)
    requires
        0 <= n <= entries.len(),
        string_members(entries.take(n)) is None,
    ensures
        string_members(entries) is None,
    decreases entries.len() - n,
{
    if n < entries.len() {
        assert(entries.take(n + 1).drop_last() =~= entries.take(n));
        lemma_string_members_prefix(entries, n + 1);
    } else {
        assert(entries.take(n) =~= entries);
    }
}

fn quoted_member(members: &mut Vec<String>, key: &str, value: &str) -> (ok: bool)
    ensures
        ok == (json_string_literal(value@) is Some),
        ok ==> final(members)@ == old(members)@.push(final(members)@.last()),
        ok ==> final(members)@.last()@ == key@ + json_string_literal(value@)->0,
        !ok ==> final(members)@ == old(members)@,
{
    match quote_json(value) {
        Some(literal) => {
            push_member(members, key, literal.as_str());
            true
        },
        None => false,
    }
}

/// Write an annotation as one JSON record in the persisted field order.
pub fn render_annotation(annotation: &Annotation) -> (json: Option<String>)
    ensures
        json.deep_view() == annotation_json(annotation@),
{
    let mut members: Vec<String> = Vec::new();
    if !quoted_member(&mut members, "\"selectedText\":", annotation.selected_text.as_str()) {
        return None;
    }
    let context = match render_context(&annotation.context) {
        Some(context) => context,
        None => {
            return None;
        },
    };
    push_member(&mut members, "\"context\":", context.as_str());
    if !quoted_member(&mut members, "\"capturedAt\":", annotation.captured_at.as_str()) {
        return None;
    }
    if !quoted_member(&mut members, "\"id\":", annotation.id.as_str()) {
        return None;
    }
    if !quoted_member(&mut members, "\"comment\":", annotation.comment.as_str()) {
        return None;
    }
    if !quoted_member(&mut members, "\"createdAt\":", annotation.created_at.as_str()) {
        return None;
    }
    let text = object_text(&members);
    assert(members@.map_values(|m: String| m@) =~= seq![
        "\"selectedText\":"@ + json_string_literal(annotation@.selected_text)->0,
        "\"context\":"@ + context_json(annotation@.context)->0,
        "\"capturedAt\":"@ + json_string_literal(annotation@.captured_at)->0,
        "\"id\":"@ + json_string_literal(annotation@.id)->0,
        "\"comment\":"@ + json_string_literal(annotation@.comment)->0,
        "\"createdAt\":"@ + json_string_literal(annotation@.created_at)->0,
    ]);
    Some(text)
}

/// Write a pending record as JSON.
pub fn render_pending(pending: &PendingAnnotation) -> (json: Option<String>)
    ensures
        json.deep_view() == pending_json(pending@),
{
    let mut members: Vec<String> = Vec::new();
    if !quoted_member(&mut members, "\"selectedText\":", pending.selected_text.as_str()) {
        return None;
    }
    let context = match render_context(&pending.context) {
        Some(context) => context,
        None => {
            return None;
        },
    };
    push_member(&mut members, "\"context\":", context.as_str());
    if !quoted_member(&mut members, "\"capturedAt\":", pending.captured_at.as_str()) {
        return None;
    }
    let text = object_text(&members);
    assert(members@.map_values(|m: String| m@) =~= seq![
        "\"selectedText\":"@ + json_string_literal(pending@.selected_text)->0,
        "\"context\":"@ + context_json(pending@.context)->0,
        "\"capturedAt\":"@ + json_string_literal(pending@.captured_at)->0,
    ]);
    Some(text)
}

/// Write every annotation as JSON, in order.
pub fn render_annotations(annotations: &[Annotation]) -> (json: Option<Vec<String>>)
    ensures
        match json {
            Some(items) => annotations_json(annotation_views(annotations@)) == Some(
                items@.map_values(|m: String| m@),
            ),
            None => annotations_json(annotation_views(annotations@)) is None,
        },
{
    let ghost views = annotation_views(annotations@);
    let mut items: Vec<String> = Vec::new();
    let mut i: usize = 0;
    while i < annotations.len()
        invariant
            i <= annotations@.len(),
            views == annotation_views(annotations@),
            annotations_json(views.take(i as int)) == Some(items@.map_values(|m: String| m@)),
        decreases annotations@.len() - i,
    {
        proof {
            assert(views.take(i + 1).drop_last() =~= views.take(i as int));
            assert(views.take(i + 1).last() == annotations@[i as int]@);
        }
        match render_annotation(&annotations[i]) {
            Some(item) => {
                let ghost before = items@;
                items.push(item);
                assert(items@.map_values(|m: String| m@) =~= before.map_values(|m: String| m@).push(
                    items@.last()@,
                ));
            },
            None => {
                proof {
                    lemma_annotations_json_prefix(views, (i + 1) as int);
                }
                return None;
            },
        }
        i = i + 1;
    }
    assert(views.take(annotations@.len() as int) =~= views);
    Some(items)
}

proof fn lemma_annotations_json_prefix(annotations: Seq<AnnotationView>, n: int)
    requires
        0 <= n <= annotations.len(),
        annotations_json(annotations.take(n)) is None,
    ensures
        annotations_json(annotations) is None,
    decreases annotations.len() - n,
{
    if n < annotations.len() {
        assert(annotations.take(n + 1).drop_last() =~= annotations.take(n));
        lemma_annotations_json_prefix(annotations, n + 1);
    } else {
        assert(annotations.take(n) =~= annotations);
    }
}

/// Write an archived set as one JSON record.
pub fn render_archive(archive: &ArchivedAnnotationSet) -> (json: Option<String>)
    ensures
        json.deep_view() == archive_json(archive@),
{
    let mut members: Vec<String> = Vec::new();
    let version = crate::text::render_decimal(archive.version as u128);
    push_member(&mut members, "\"version\":", version.as_str());
    if !quoted_member(&mut members, "\"id\":", archive.id.as_str()) {
        return None;
    }
    if !quoted_member(&mut members, "\"archivedAt\":", archive.archived_at.as_str()) {
        return None;
    }
    let items = match render_annotations(archive.annotations.as_slice()) {
        Some(items) => items,
        None => {
            return None;
        },
    };
    let mut array = String::new();
    crate::text::push_char(&mut array, '[');
    let inner = crate::text::join_strings(&items, ",");
    array.append(inner.as_str());
    crate::text::push_char(&mut array, ']');
    proof {
        reveal_strlit(",");
        assert(","@ =~= seq![',']);
        assert(array@ =~= json_array(items@.map_values(|m: String| m@)));
    }
    push_member(&mut members, "\"annotations\":", array.as_str());
    let text = object_text(&members);
    assert(members@.map_values(|m: String| m@) =~= seq![
        "\"version\":"@ + crate::text::decimal(archive@.version as nat),
        "\"id\":"@ + json_string_literal(archive@.id)->0,
        "\"archivedAt\":"@ + json_string_literal(archive@.archived_at)->0,
        "\"annotations\":"@ + json_array(annotations_json(archive@.annotations)->0),
    ]);
    Some(text)
}

} // verus!
