//! The records the stores write, as JSON shapes: the text of each record is the compact text of
//! its shape, and a document that reads as the shape reads back as the record.

use vstd::prelude::*;

use crate::json::{
    has_member, json_string_literal, json_text, member_lookup, member_texts, members_read_as,
    members_writable, plain_name, reads_as, shape_text, JsonShape, JsonValue,
};
use crate::types::{context_entries, string_members, AnnotationView, ArchiveView, ContextView};


verus! {

/// Optional string fields under their member names.
pub type Fields = Seq<(Seq<char>, Option<Seq<char>>)>;

/// The string members written for the present fields, in order.
pub open spec fn present_members(fields: Fields) -> Seq<(Seq<char>, JsonShape)>
    decreases fields.len(),
{
    if fields.len() == 0 {
        seq![]
    } else {
        let before = present_members(fields.drop_last());
        match fields.last().1 {
            Some(text) => before.push((fields.last().0, JsonShape::Str(text))),
            None => before,
        }
    }
}

/// The field names are distinct.
pub open spec fn distinct_names(fields: Fields) -> bool {
    forall|i: int, j: int| 0 <= i < j < fields.len() ==> #[trigger] fields[i].0 != #[trigger] fields[j].0
}

/// Each present member comes from a present field with its name and text.
proof fn lemma_present_from_fields(fields: Fields)
    ensures
        forall|j: int|
            0 <= j < present_members(fields).len() ==> exists|i: int|
                0 <= i < fields.len() && #[trigger] present_members(fields)[j].0 == fields[i].0
                    && fields[i].1 == Some(present_members(fields)[j].1->Str_0)
                    && present_members(fields)[j].1 is Str,
    decreases fields.len(),
{
    if fields.len() > 0 {
        let before = fields.drop_last();
        lemma_present_from_fields(before);
        let pb = present_members(before);
        let pm = present_members(fields);
        assert forall|j: int| 0 <= j < pm.len() implies exists|i: int|
            0 <= i < fields.len() && #[trigger] pm[j].0 == fields[i].0 && fields[i].1 == Some(
                pm[j].1->Str_0,
            ) && pm[j].1 is Str by {
            if j < pb.len() {
                assert(pm[j] == pb[j]);
                let i = choose|i: int|
                    0 <= i < before.len() && #[trigger] pb[j].0 == before[i].0 && before[i].1 == Some(
                        pb[j].1->Str_0,
                    ) && pb[j].1 is Str;
                assert(fields[i] == before[i]);
            } else {
                assert(fields[fields.len() - 1] == fields.last());
            }
        }
    }
}

/// Each present field gives a member with its name and text.
proof fn lemma_fields_present(fields: Fields)
    ensures
        forall|i: int|
            0 <= i < fields.len() && #[trigger] fields[i].1 is Some ==> exists|j: int|
                0 <= j < present_members(fields).len() && present_members(fields)[j] == (
                    fields[i].0,
                    JsonShape::Str(fields[i].1->0),
                ),
    decreases fields.len(),
{
    if fields.len() > 0 {
        let before = fields.drop_last();
        lemma_fields_present(before);
        let pb = present_members(before);
        let pm = present_members(fields);
        assert forall|i: int| 0 <= i < fields.len() && #[trigger] fields[i].1 is Some implies exists|j: int|
            0 <= j < pm.len() && pm[j] == (fields[i].0, JsonShape::Str(fields[i].1->0)) by {
            if i < before.len() {
                assert(before[i] == fields[i]);
                assert(before[i].1 is Some);
                let j = choose|j: int|
                    0 <= j < pb.len() && pb[j] == (before[i].0, JsonShape::Str(before[i].1->0));
                assert(pm[j] == pb[j]);
            } else {
                assert(pm[pm.len() - 1] == (fields[i].0, JsonShape::Str(fields[i].1->0)));
            }
        }
    }
}

/// Distinct field names give distinct member names.
proof fn lemma_present_distinct(fields: Fields)
    requires
        distinct_names(fields),
    ensures
        forall|j: int, k: int|
            0 <= j < k < present_members(fields).len() ==> #[trigger] present_members(fields)[j].0
                != #[trigger] present_members(fields)[k].0,
    decreases fields.len(),
{
    if fields.len() > 0 {
        let before = fields.drop_last();
        assert forall|a: int, b: int| 0 <= a < b < before.len() implies #[trigger] before[a].0
            != #[trigger] before[b].0 by {
            assert(before[a] == fields[a] && before[b] == fields[b]);
        }
        lemma_present_distinct(before);
        lemma_present_from_fields(before);
        let pb = present_members(before);
        let pm = present_members(fields);
        assert forall|j: int, k: int| 0 <= j < k < pm.len() implies #[trigger] pm[j].0
            != #[trigger] pm[k].0 by {
            if k < pb.len() {
                assert(pm[j] == pb[j] && pm[k] == pb[k]);
            } else {
                assert(pm[j] == pb[j]);
                let i = choose|i: int|
                    0 <= i < before.len() && #[trigger] pb[j].0 == before[i].0 && before[i].1
                        == Some(pb[j].1->Str_0) && pb[j].1 is Str;
                assert(fields[i] == before[i]);
                assert(pm[k].0 == fields[fields.len() - 1].0);
            }
        }
    }
}

/// The value found under `name` reads as `shape`.
pub open spec fn found_as(found: Seq<(String, JsonValue)>, name: Seq<char>, shape: JsonShape) -> bool {
    member_lookup(found, name) matches Some(value) && reads_as(value, shape)
}

/// Every member read as its shape is found under its name.
proof fn lemma_members_found(found: Seq<(String, JsonValue)>, members: Seq<(Seq<char>, JsonShape)>)
    requires
        members_read_as(found, members),
    ensures
        forall|j: int| 0 <= j < members.len() ==> found_as(found, #[trigger] members[j].0, members[j].1),
    decreases members.len(),
{
    if members.len() > 0 {
        lemma_members_found(found, members.drop_last());
        assert forall|j: int| 0 <= j < members.len() implies found_as(found, #[trigger] members[j].0, members[j].1) by {
            if j < members.len() - 1 {
                assert(members[j] == members.drop_last()[j]);
            }
        }
    }
}

/// A document that reads as the present members holds each field's text under its name, and
/// nothing under the name of an absent field.
pub proof fn lemma_fields_read_back(value: JsonValue, fields: Fields)
    requires
        distinct_names(fields),
        reads_as(value, JsonShape::Object(present_members(fields))),
    ensures
        forall|i: int|
            0 <= i < fields.len() ==> crate::json::string_member(value, #[trigger] fields[i].0)
                == fields[i].1,
{
    let members = present_members(fields);
    lemma_present_from_fields(fields);
    lemma_fields_present(fields);
    let found = value->Object_0@;
    lemma_members_found(found, members);
    assert forall|i: int| 0 <= i < fields.len() implies crate::json::string_member(
        value,
        #[trigger] fields[i].0,
    ) == fields[i].1 by {
        if fields[i].1 is Some {
            let j = choose|j: int|
                0 <= j < members.len() && members[j] == (fields[i].0, JsonShape::Str(fields[i].1->0));
            assert(found_as(found, members[j].0, members[j].1));
        } else {
            if has_member(members, fields[i].0) {
                let j = choose|j: int| 0 <= j < members.len() && #[trigger] members[j].0 == fields[i].0;
                let k = choose|k: int|
                    0 <= k < fields.len() && #[trigger] members[j].0 == fields[k].0 && fields[k].1
                        == Some(members[j].1->Str_0) && members[j].1 is Str;
                if k < i {
                    assert(fields[k].0 != fields[i].0);
                } else if i < k {
                    assert(fields[i].0 != fields[k].0);
                }
            }
            assert(member_lookup(found, fields[i].0) is None);
        }
    }
}

/// The members written for the present fields have plain names when the fields do.
pub proof fn lemma_present_members_writable(fields: Fields, depth: nat)
    requires
        forall|i: int| 0 <= i < fields.len() ==> plain_name(#[trigger] fields[i].0),
    ensures
        members_writable(present_members(fields), depth),
    decreases fields.len(),
{
    if fields.len() > 0 {
        let before = fields.drop_last();
        assert forall|i: int| 0 <= i < before.len() implies plain_name(#[trigger] before[i].0) by {
            assert(before[i] == fields[i]);
        }
        lemma_present_members_writable(before, depth);
        assert(plain_name(fields[fields.len() - 1].0));
        let pm = present_members(fields);
        if fields.last().1 is Some {
            assert(pm.drop_last() =~= present_members(before));
            assert(pm.last() == (fields.last().0, JsonShape::Str(fields.last().1->0)));
            assert(crate::json::writable(pm.last().1, depth));
        } else {
            assert(pm == present_members(before));
        }
    }
}

/// The member key `"name":` as the records write it.
pub open spec fn quoted_name(name: Seq<char>) -> Seq<char> {
    seq!['"'] + name + seq!['"', ':']
}

proof fn lemma_string_members_text(entries: Seq<(Seq<char>, Option<Seq<char>>)>, fields: Fields)
    requires
        entries.len() == fields.len(),
        forall|i: int|
            0 <= i < fields.len() ==> #[trigger] entries[i].0 == quoted_name(fields[i].0)
                && entries[i].1 == fields[i].1,
    ensures
        string_members(entries) == Some(member_texts(present_members(fields))),
    decreases fields.len(),
{
    reveal(json_string_literal);
    if fields.len() > 0 {
        let eb = entries.drop_last();
        let fb = fields.drop_last();
        assert forall|i: int| 0 <= i < fb.len() implies #[trigger] eb[i].0 == quoted_name(fb[i].0)
            && eb[i].1 == fb[i].1 by {
            assert(eb[i] == entries[i] && fb[i] == fields[i]);
        }
        lemma_string_members_text(eb, fb);
        let last = fields.len() - 1;
        assert(entries[last].0 == quoted_name(fields[last].0) && entries[last].1 == fields[last].1);
        let pb = present_members(fb);
        if let Some(text) = fields.last().1 {
            let pm = pb.push((fields.last().0, JsonShape::Str(text)));
            assert(pm.drop_last() =~= pb);
            assert(quoted_name(fields.last().0) + json_string_literal(text)->0 =~= seq!['"']
                + fields.last().0 + seq!['"', ':'] + shape_text(JsonShape::Str(text)));
        }
    }
}

/// The context fields under their member names, in the order they are written.
pub open spec fn context_fields(context: ContextView) -> Fields {
    seq![
        ("workspace_id"@, context.workspace_id),
        ("workspace_label"@, context.workspace_label),
        ("tab_id"@, context.tab_id),
        ("tab_label"@, context.tab_label),
        ("focused_pane_id"@, context.focused_pane_id),
        ("focused_pane_cwd"@, context.focused_pane_cwd),
        ("focused_pane_agent"@, context.focused_pane_agent),
    ]
}

/// A context as a shape: an object of its present fields.
pub open spec fn context_shape(context: ContextView) -> JsonShape {
    JsonShape::Object(present_members(context_fields(context)))
}

proof fn lemma_context_names()
    ensures
        "\"workspace_id\":"@ == quoted_name("workspace_id"@),
        "\"workspace_label\":"@ == quoted_name("workspace_label"@),
        "\"tab_id\":"@ == quoted_name("tab_id"@),
        "\"tab_label\":"@ == quoted_name("tab_label"@),
        "\"focused_pane_id\":"@ == quoted_name("focused_pane_id"@),
        "\"focused_pane_cwd\":"@ == quoted_name("focused_pane_cwd"@),
        "\"focused_pane_agent\":"@ == quoted_name("focused_pane_agent"@),
{
    reveal_strlit("\"workspace_id\":");
    reveal_strlit("workspace_id");
    reveal_strlit("\"workspace_label\":");
    reveal_strlit("workspace_label");
    reveal_strlit("\"tab_id\":");
    reveal_strlit("tab_id");
    reveal_strlit("\"tab_label\":");
    reveal_strlit("tab_label");
    reveal_strlit("\"focused_pane_id\":");
    reveal_strlit("focused_pane_id");
    reveal_strlit("\"focused_pane_cwd\":");
    reveal_strlit("focused_pane_cwd");
    reveal_strlit("\"focused_pane_agent\":");
    reveal_strlit("focused_pane_agent");
    assert("\"workspace_id\":"@ =~= quoted_name("workspace_id"@));
    assert("\"workspace_label\":"@ =~= quoted_name("workspace_label"@));
    assert("\"tab_id\":"@ =~= quoted_name("tab_id"@));
    assert("\"tab_label\":"@ =~= quoted_name("tab_label"@));
    assert("\"focused_pane_id\":"@ =~= quoted_name("focused_pane_id"@));
    assert("\"focused_pane_cwd\":"@ =~= quoted_name("focused_pane_cwd"@));
    assert("\"focused_pane_agent\":"@ =~= quoted_name("focused_pane_agent"@));
}

/// A context is written as the compact text of its shape.
pub proof fn lemma_context_text(context: ContextView)
    ensures
        crate::types::context_json(context) == Some(shape_text(context_shape(context))),
{
    lemma_context_names();
    let entries = context_entries(context);
    let fields = context_fields(context);
    assert forall|i: int| 0 <= i < fields.len() implies #[trigger] entries[i].0 == quoted_name(
        fields[i].0,
    ) && entries[i].1 == fields[i].1 by {}
    lemma_string_members_text(entries, fields);
}

/// The context's member names are plain and distinct.
pub proof fn lemma_context_names_plain(context: ContextView)
    ensures
        distinct_names(context_fields(context)),
        forall|i: int|
            0 <= i < context_fields(context).len() ==> plain_name(#[trigger] context_fields(context)[i].0),
{
    reveal_strlit("workspace_id");
    reveal_strlit("workspace_label");
    reveal_strlit("tab_id");
    reveal_strlit("tab_label");
    reveal_strlit("focused_pane_id");
    reveal_strlit("focused_pane_cwd");
    reveal_strlit("focused_pane_agent");
    let fields = context_fields(context);
    assert forall|i: int, j: int| 0 <= i < j < fields.len() implies #[trigger] fields[i].0
        != #[trigger] fields[j].0 by {
        if fields[i].0.len() == fields[j].0.len() {
            assert(fields[i].0[0] != fields[j].0[0] || fields[i].0[fields[i].0.len() - 2] != fields[j].0[fields[j].0.len() - 2]
                || fields[i].0[4] != fields[j].0[4] || fields[i].0[12] != fields[j].0[12]);
        }
    }
}

/// An annotation as a shape: its six members, the context an object of its present fields.
pub open spec fn annotation_shape(annotation: AnnotationView) -> JsonShape {
    JsonShape::Object(
        seq![
            ("selectedText"@, JsonShape::Str(annotation.selected_text)),
            ("context"@, context_shape(annotation.context)),
            ("capturedAt"@, JsonShape::Str(annotation.captured_at)),
            ("id"@, JsonShape::Str(annotation.id)),
            ("comment"@, JsonShape::Str(annotation.comment)),
            ("createdAt"@, JsonShape::Str(annotation.created_at)),
        ],
    )
}

/// An annotation the store reads back: a non-empty id and creation time and a non-blank
/// comment, as every saved annotation has.
pub open spec fn readable_annotation(annotation: AnnotationView) -> bool {
    &&& annotation.id.len() > 0
    &&& crate::text::js_trimmed(annotation.comment).len() > 0
    &&& annotation.created_at.len() > 0
}

proof fn lemma_annotation_names()
    ensures
        "\"selectedText\":"@ == quoted_name("selectedText"@),
        "\"context\":"@ == quoted_name("context"@),
        "\"capturedAt\":"@ == quoted_name("capturedAt"@),
        "\"id\":"@ == quoted_name("id"@),
        "\"comment\":"@ == quoted_name("comment"@),
        "\"createdAt\":"@ == quoted_name("createdAt"@),
{
    reveal_strlit("\"selectedText\":");
    reveal_strlit("selectedText");
    reveal_strlit("\"context\":");
    reveal_strlit("context");
    reveal_strlit("\"capturedAt\":");
    reveal_strlit("capturedAt");
    reveal_strlit("\"id\":");
    reveal_strlit("id");
    reveal_strlit("\"comment\":");
    reveal_strlit("comment");
    reveal_strlit("\"createdAt\":");
    reveal_strlit("createdAt");
    assert("\"selectedText\":"@ =~= quoted_name("selectedText"@));
    assert("\"context\":"@ =~= quoted_name("context"@));
    assert("\"capturedAt\":"@ =~= quoted_name("capturedAt"@));
    assert("\"id\":"@ =~= quoted_name("id"@));
    assert("\"comment\":"@ =~= quoted_name("comment"@));
    assert("\"createdAt\":"@ =~= quoted_name("createdAt"@));
}

/// An annotation's record is the compact text of its shape.
pub proof fn lemma_annotation_text(annotation: AnnotationView)
    ensures
        crate::types::annotation_json(annotation) == Some(shape_text(annotation_shape(annotation))),
{
    reveal(json_string_literal);
    lemma_annotation_names();
    lemma_context_text(annotation.context);
    let members = annotation_shape(annotation)->Object_0;
    reveal_with_fuel(member_texts, 7);
    let texts = member_texts(members);
    assert(members.drop_last().drop_last().drop_last().drop_last().drop_last().drop_last()
        =~= Seq::<(Seq<char>, JsonShape)>::empty());
    assert(texts =~= seq![
        quoted_name("selectedText"@) + shape_text(JsonShape::Str(annotation.selected_text)),
        quoted_name("context"@) + shape_text(context_shape(annotation.context)),
        quoted_name("capturedAt"@) + shape_text(JsonShape::Str(annotation.captured_at)),
        quoted_name("id"@) + shape_text(JsonShape::Str(annotation.id)),
        quoted_name("comment"@) + shape_text(JsonShape::Str(annotation.comment)),
        quoted_name("createdAt"@) + shape_text(JsonShape::Str(annotation.created_at)),
    ]);
}

proof fn lemma_members_writable(members: Seq<(Seq<char>, JsonShape)>, depth: nat)
    requires
        forall|k: int|
            0 <= k < members.len() ==> plain_name(#[trigger] members[k].0) && crate::json::writable(
                members[k].1,
                depth,
            ),
    ensures
        members_writable(members, depth),
    decreases members.len(),
{
    if members.len() > 0 {
        let before = members.drop_last();
        assert forall|k: int| 0 <= k < before.len() implies plain_name(#[trigger] before[k].0)
            && crate::json::writable(before[k].1, depth) by {
            assert(before[k] == members[k]);
        }
        lemma_members_writable(before, depth);
        assert(members[members.len() - 1] == members.last());
    }
}

/// A context's shape is writable at any depth above zero.
pub proof fn lemma_context_writable(context: ContextView, depth: nat)
    requires
        depth > 0,
    ensures
        crate::json::writable(context_shape(context), depth),
{
    lemma_context_names_plain(context);
    lemma_present_members_writable(context_fields(context), (depth - 1) as nat);
    lemma_present_distinct(context_fields(context));
}

/// An annotation's shape is writable within the parser's nesting limit.
pub proof fn lemma_annotation_writable(annotation: AnnotationView, depth: nat)
    requires
        depth >= 2,
    ensures
        crate::json::writable(annotation_shape(annotation), depth),
{
    reveal_strlit("selectedText");
    reveal_strlit("context");
    reveal_strlit("capturedAt");
    reveal_strlit("id");
    reveal_strlit("comment");
    reveal_strlit("createdAt");
    lemma_context_writable(annotation.context, (depth - 1) as nat);
    let members = annotation_shape(annotation)->Object_0;
    let d = (depth - 1) as nat;
    assert forall|k: int| 0 <= k < members.len() implies plain_name(#[trigger] members[k].0)
        && crate::json::writable(members[k].1, d) by {}
    lemma_members_writable(members, d);
    assert forall|i: int, j: int| 0 <= i < j < members.len() implies #[trigger] members[i].0
        != #[trigger] members[j].0 by {
        if members[i].0.len() == members[j].0.len() {
            assert(members[i].0[0] != members[j].0[0] || members[i].0[2] != members[j].0[2]);
        }
    }
}

/// A document that reads as an annotation's shape reads back as that annotation, when the
/// annotation is one the store reads.
pub proof fn lemma_annotation_reads_back(value: JsonValue, annotation: AnnotationView)
    requires
        reads_as(value, annotation_shape(annotation)),
        readable_annotation(annotation),
    ensures
        crate::types::annotation_from_json(value) == Some(annotation),
{
    let members = annotation_shape(annotation)->Object_0;
    let found = value->Object_0@;
    lemma_members_found(found, members);
    assert(found_as(found, members[0].0, members[0].1));
    assert(found_as(found, members[1].0, members[1].1));
    assert(found_as(found, members[2].0, members[2].1));
    assert(found_as(found, members[3].0, members[3].1));
    assert(found_as(found, members[4].0, members[4].1));
    assert(found_as(found, members[5].0, members[5].1));
    let context = member_lookup(found, "context"@)->0;
    lemma_context_names_plain(annotation.context);
    lemma_fields_read_back(context, context_fields(annotation.context));
    let fields = context_fields(annotation.context);
    assert(crate::json::string_member(context, fields[0].0) == fields[0].1);
    assert(crate::json::string_member(context, fields[1].0) == fields[1].1);
    assert(crate::json::string_member(context, fields[2].0) == fields[2].1);
    assert(crate::json::string_member(context, fields[3].0) == fields[3].1);
    assert(crate::json::string_member(context, fields[4].0) == fields[4].1);
    assert(crate::json::string_member(context, fields[5].0) == fields[5].1);
    assert(crate::json::string_member(context, fields[6].0) == fields[6].1);
    assert(crate::types::context_from_json(context) == annotation.context);
}

/// The shapes of the annotations, in order.
pub open spec fn annotation_shapes(annotations: Seq<AnnotationView>) -> Seq<JsonShape>
    decreases annotations.len(),
{
    if annotations.len() == 0 {
        seq![]
    } else {
        annotation_shapes(annotations.drop_last()).push(annotation_shape(annotations.last()))
    }
}

/// An archived set as a shape: its version number, id, time and array of annotations.
pub open spec fn archive_shape(archive: ArchiveView) -> JsonShape {
    JsonShape::Object(
        seq![
            ("version"@, JsonShape::Number(crate::text::decimal(archive.version as nat))),
            ("id"@, JsonShape::Str(archive.id)),
            ("archivedAt"@, JsonShape::Str(archive.archived_at)),
            ("annotations"@, JsonShape::Array(annotation_shapes(archive.annotations))),
        ],
    )
}

/// An archived set the store reads back: version 1, a non-empty id, time and list of
/// annotations, each one the store reads.
pub open spec fn readable_archive(archive: ArchiveView) -> bool {
    &&& archive.version == 1
    &&& archive.id.len() > 0
    &&& archive.archived_at.len() > 0
    &&& archive.annotations.len() > 0
    &&& forall|k: int|
        0 <= k < archive.annotations.len() ==> readable_annotation(#[trigger] archive.annotations[k])
}

proof fn lemma_annotations_text(annotations: Seq<AnnotationView>)
    ensures
        crate::types::annotations_json(annotations) == Some(
            crate::json::shape_texts(annotation_shapes(annotations)),
        ),
        annotation_shapes(annotations).len() == annotations.len(),
        forall|k: int|
            0 <= k < annotations.len() ==> #[trigger] annotation_shapes(annotations)[k] == annotation_shape(
                annotations[k],
            ),
    decreases annotations.len(),
{
    if annotations.len() > 0 {
        let before = annotations.drop_last();
        lemma_annotations_text(before);
        lemma_annotation_text(annotations.last());
        let shapes = annotation_shapes(annotations);
        assert(shapes.drop_last() =~= annotation_shapes(before));
        assert forall|k: int| 0 <= k < annotations.len() implies #[trigger] shapes[k] == annotation_shape(
            annotations[k],
        ) by {
            if k < before.len() {
                assert(shapes[k] == annotation_shapes(before)[k]);
                assert(before[k] == annotations[k]);
            }
        }
    }
}

/// An archived set's record is the compact text of its shape.
pub proof fn lemma_archive_text(archive: ArchiveView)
    ensures
        crate::types::archive_json(archive) == Some(shape_text(archive_shape(archive))),
{
    reveal(json_string_literal);
    reveal_strlit("\"version\":");
    reveal_strlit("version");
    reveal_strlit("\"id\":");
    reveal_strlit("id");
    reveal_strlit("\"archivedAt\":");
    reveal_strlit("archivedAt");
    reveal_strlit("\"annotations\":");
    reveal_strlit("annotations");
    lemma_annotations_text(archive.annotations);
    let members = archive_shape(archive)->Object_0;
    reveal_with_fuel(member_texts, 5);
    assert(members.drop_last().drop_last().drop_last().drop_last() =~= Seq::<
        (Seq<char>, JsonShape),
    >::empty());
    assert("\"version\":"@ =~= quoted_name("version"@));
    assert("\"id\":"@ =~= quoted_name("id"@));
    assert("\"archivedAt\":"@ =~= quoted_name("archivedAt"@));
    assert("\"annotations\":"@ =~= quoted_name("annotations"@));
    let texts = member_texts(members);
    assert(texts =~= seq![
        quoted_name("version"@) + shape_text(members[0].1),
        quoted_name("id"@) + shape_text(members[1].1),
        quoted_name("archivedAt"@) + shape_text(members[2].1),
        quoted_name("annotations"@) + shape_text(members[3].1),
    ]);
}

proof fn lemma_shapes_writable(annotations: Seq<AnnotationView>, depth: nat)
    requires
        depth >= 2,
    ensures
        crate::json::all_writable(annotation_shapes(annotations), depth),
    decreases annotations.len(),
{
    if annotations.len() > 0 {
        lemma_shapes_writable(annotations.drop_last(), depth);
        lemma_annotation_writable(annotations.last(), depth);
        assert(annotation_shapes(annotations).drop_last() =~= annotation_shapes(annotations.drop_last()));
    }
}

/// An archived set's shape is writable within the parser's nesting limit.
pub proof fn lemma_archive_writable(archive: ArchiveView, depth: nat)
    requires
        depth >= 4,
    ensures
        crate::json::writable(archive_shape(archive), depth),
{
    reveal_strlit("version");
    reveal_strlit("id");
    reveal_strlit("archivedAt");
    reveal_strlit("annotations");
    let d = (depth - 1) as nat;
    lemma_shapes_writable(archive.annotations, (d - 1) as nat);
    let members = archive_shape(archive)->Object_0;
    let n = archive.version as nat;
    assert(n <= u64::MAX && members[0].1->Number_0 == crate::text::decimal(n));
    assert forall|k: int| 0 <= k < members.len() implies plain_name(#[trigger] members[k].0)
        && crate::json::writable(members[k].1, d) by {}
    lemma_members_writable(members, d);
    assert forall|i: int, j: int| 0 <= i < j < members.len() implies #[trigger] members[i].0
        != #[trigger] members[j].0 by {
        if members[i].0.len() == members[j].0.len() {
            assert(members[i].0[0] != members[j].0[0]);
        }
    }
}

proof fn lemma_items_read_back(values: Seq<JsonValue>, annotations: Seq<AnnotationView>)
    requires
        crate::json::items_read_as(values, annotation_shapes(annotations)),
        forall|k: int| 0 <= k < annotations.len() ==> readable_annotation(#[trigger] annotations[k]),
    ensures
        crate::types::annotations_from_json(values) == Some(annotations),
    decreases annotations.len(),
{
    if annotations.len() == 0 {
        assert(values.len() == 0);
    } else {
        let before = annotations.drop_last();
        assert(annotation_shapes(annotations).drop_last() =~= annotation_shapes(before));
        assert forall|k: int| 0 <= k < before.len() implies readable_annotation(#[trigger] before[k]) by {
            assert(before[k] == annotations[k]);
        }
        lemma_items_read_back(values.drop_last(), before);
        assert(readable_annotation(annotations[annotations.len() - 1]));
        lemma_annotation_reads_back(values.last(), annotations.last());
        assert(annotations =~= before.push(annotations.last()));
    }
}

/// A document that reads as an archived set's shape reads back as that set, when the set is
/// one the store reads.
pub proof fn lemma_archive_reads_back(value: JsonValue, archive: ArchiveView)
    requires
        reads_as(value, archive_shape(archive)),
        readable_archive(archive),
    ensures
        crate::types::archive_from_json(value) == Some(archive),
{
    let members = archive_shape(archive)->Object_0;
    let found = value->Object_0@;
    lemma_members_found(found, members);
    assert(found_as(found, members[0].0, members[0].1));
    assert(found_as(found, members[1].0, members[1].1));
    assert(found_as(found, members[2].0, members[2].1));
    assert(found_as(found, members[3].0, members[3].1));
    assert(crate::text::decimal(1) == seq!['1']);
    let items = member_lookup(found, "annotations"@)->0->Array_0;
    lemma_items_read_back(items@, archive.annotations);
}

} // verus!
