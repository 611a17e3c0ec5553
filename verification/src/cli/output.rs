//! How an answer is printed.
use super::settings::OutputMode;
use crate::outside;
use crate::outside::JsonCell;
use crate::outside::JsonCellView;
use crate::outside::JsonShape;
use crate::outside::JsonShapeView;
use crate::text;
use vstd::prelude::*;

verus! {

/// A value in one line: a text as it is, anything else as it is encoded.
pub open spec fn compact_text(cell: JsonCellView) -> Seq<char> {
    match cell {
        JsonCellView::Plain(text) => text,
        JsonCellView::Encoded(text) => text,
    }
}

/// A value in one line.
pub fn compact(cell: &JsonCell) -> (r: String)
    ensures
        r@ == compact_text(cell@),
{
    match cell {
        JsonCell::Plain(text) => text.clone(),
        JsonCell::Encoded(text) => text.clone(),
    }
}

/// Lines one below the other.
pub open spec fn lines_text(lines: Seq<Seq<char>>) -> Seq<char>
    decreases lines.len(),
{
    if lines.len() == 0 {
        Seq::empty()
    } else if lines.len() == 1 {
        lines[0]
    } else {
        lines_text(lines.drop_last()) + "\n"@ + lines.last()
    }
}

/// The lines for people: one for each row, one for each field with its name and a tab before it, or
/// the one value.
pub open spec fn human_lines(shape: JsonShapeView) -> Seq<Seq<char>> {
    match shape {
        JsonShapeView::Rows(rows) => rows.map_values(|cell: JsonCellView| compact_text(cell)),
        JsonShapeView::Fields(fields) => fields.map_values(
            |field: (Seq<char>, JsonCellView)| field.0 + "\t"@ + compact_text(field.1),
        ),
        JsonShapeView::One(cell) => seq![compact_text(cell)],
    }
}

fn add_line(out: &mut String, first: bool, line: &str)
    ensures
        final(out)@ == (if first {
            old(out)@ + line@
        } else {
            old(out)@ + "\n"@ + line@
        }),
{
    if !first {
        out.append("\n");
    }
    out.append(line);
}

proof fn lemma_lines_push(lines: Seq<Seq<char>>, line: Seq<char>)
    ensures
        lines_text(lines.push(line)) == (if lines.len() == 0 {
            line
        } else {
            lines_text(lines) + "\n"@ + line
        }),
{
    if lines.len() > 0 {
        assert(lines.push(line).drop_last() == lines);
    }
}

/// A document as people read it.
pub fn human(shape: &JsonShape) -> (r: String)
    ensures
        r@ == lines_text(human_lines(shape@)),
{
    let ghost lines = human_lines(shape@);
    match shape {
        JsonShape::Rows(rows) => {
            let mut out: String = String::new();
            let mut i: usize = 0;
            assert(lines.len() == rows@.len());
            assert(lines_text(lines.take(0)) =~= Seq::<char>::empty());
            while i < rows.len()
                invariant
                    i <= rows.len(),
                    lines == rows@.map_values(|cell: JsonCell| cell@).map_values(
                        |cell: JsonCellView| compact_text(cell),
                    ),
                    out@ == lines_text(lines.take(i as int)),
                decreases rows.len() - i,
            {
                let line: String = compact(&rows[i]);
                proof {
                    assert(lines[i as int] == line@);
                    assert(lines.take(i + 1) =~= lines.take(i as int).push(line@));
                    lemma_lines_push(lines.take(i as int), line@);
                    assert(out@ + line@ =~= (if i == 0 {
                        line@
                    } else {
                        out@ + line@
                    }));
                }
                add_line(&mut out, i == 0, line.as_str());
                i = i + 1;
            }
            assert(lines.take(lines.len() as int) == lines);
            out
        },
        JsonShape::Fields(fields) => {
            let mut out: String = String::new();
            let mut i: usize = 0;
            assert(lines.len() == fields@.len());
            assert(lines_text(lines.take(0)) =~= Seq::<char>::empty());
            while i < fields.len()
                invariant
                    i <= fields.len(),
                    lines == fields@.map_values(|field: (String, JsonCell)| (field.0@, field.1@)).map_values(
                        |field: (Seq<char>, JsonCellView)| field.0 + "\t"@ + compact_text(field.1),
                    ),
                    out@ == lines_text(lines.take(i as int)),
                decreases fields.len() - i,
            {
                let value: String = compact(&fields[i].1);
                let line: String = text::join3(fields[i].0.as_str(), "\t", value.as_str());
                proof {
                    assert(lines[i as int] == line@);
                    assert(lines.take(i + 1) =~= lines.take(i as int).push(line@));
                    lemma_lines_push(lines.take(i as int), line@);
                    assert(out@ + line@ =~= (if i == 0 {
                        line@
                    } else {
                        out@ + line@
                    }));
                }
                add_line(&mut out, i == 0, line.as_str());
                i = i + 1;
            }
            assert(lines.take(lines.len() as int) == lines);
            out
        },
        JsonShape::One(cell) => {
            assert(lines[0] == compact_text(cell@));
            compact(cell)
        },
    }
}

/// An answer as it is printed: for people by its rows or fields, for programs over several lines; an
/// answer that is no JSON document is a text.
pub open spec fn rendered(bytes: Seq<u8>, mode: OutputMode) -> Seq<char> {
    match mode {
        OutputMode::Json => match outside::json_lines(bytes) {
            Some(lines) => lines,
            None => outside::json_string(outside::lossy_text(bytes)),
        },
        OutputMode::Human => match outside::json_document(bytes) {
            Some(shape) => lines_text(human_lines(shape)),
            None => outside::lossy_text(bytes),
        },
    }
}

/// An answer as it is printed; a plain text in UTF-8 is printed for people as it is.
pub fn render(bytes: &[u8], mode: OutputMode) -> (r: String)
    ensures
        r@ == rendered(bytes@, mode),
        mode is Human && outside::json_document(bytes@) is None && vstd::utf8::valid_utf8(bytes@) ==> r@
            == vstd::utf8::decode_utf8(bytes@),
{
    match mode {
        OutputMode::Json => match outside::json_pretty(bytes) {
            Some(lines) => lines,
            None => {
                let text: String = outside::text_from_utf8(bytes);
                outside::json_text(text.as_str())
            },
        },
        OutputMode::Human => match outside::json_shape(bytes) {
            Some(shape) => human(&shape),
            None => outside::text_from_utf8(bytes),
        },
    }
}

/// What is shown to people has a line for each row and for each field, which is named before it.
pub proof fn law_rows_and_fields_have_a_line_each(rows: Seq<JsonCellView>, fields: Seq<(Seq<char>, JsonCellView)>, i: int)
    ensures
        human_lines(JsonShapeView::Rows(rows)).len() == rows.len(),
        human_lines(JsonShapeView::Fields(fields)).len() == fields.len(),
        0 <= i < rows.len() ==> human_lines(JsonShapeView::Rows(rows))[i] == compact_text(rows[i]),
        0 <= i < fields.len() ==> human_lines(JsonShapeView::Fields(fields))[i] == fields[i].0 + "\t"@ + compact_text(fields[i].1),
{
}

/// Lines are set one under the other: those of two lists are those of the one, a break, and those of the other.
pub proof fn law_lines_are_set_one_under_the_other(front: Seq<Seq<char>>, rest: Seq<Seq<char>>, line: Seq<char>)
    requires
        front.len() > 0,
        rest.len() > 0,
    ensures
        lines_text(front + rest) == lines_text(front) + "\n"@ + lines_text(rest),
        lines_text(seq![line]) == line,
    decreases rest.len(),
{
    let whole = front + rest;
    assert(whole.last() == rest.last());
    if rest.len() == 1 {
        assert(whole.drop_last() =~= front);
        assert(lines_text(whole) =~= lines_text(front) + "\n"@ + lines_text(rest));
    } else {
        law_lines_are_set_one_under_the_other(front, rest.drop_last(), line);
        assert(whole.drop_last() =~= front + rest.drop_last());
        assert(lines_text(whole) =~= lines_text(front) + "\n"@ + lines_text(rest));
    }
}

/// What is not a document is shown as it came to people, and as one string to programs; a document is shown to
/// people by its rows and fields.
pub proof fn law_what_came_is_shown(bytes: Seq<u8>)
    ensures
        outside::json_document(bytes) is None ==> rendered(bytes, OutputMode::Human) == outside::lossy_text(bytes),
        outside::json_document(bytes) is Some ==> rendered(bytes, OutputMode::Human) == lines_text(
            human_lines(outside::json_document(bytes)->0),
        ),
        outside::json_lines(bytes) is None ==> rendered(bytes, OutputMode::Json) == outside::json_string(
            outside::lossy_text(bytes),
        ),
        outside::json_lines(bytes) is Some ==> rendered(bytes, OutputMode::Json) == outside::json_lines(bytes)->0,
{
}

} // verus!
