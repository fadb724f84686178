//! What holds of the rows of a terminal and of the messages they stand for.
use crate::order::{is_stable_sort, sorts_by};
use crate::terminal_anchors::{
    anchor_of_row, anchorings, cell_at, columns_text, considered, higher_row, is_wide, line_columns, line_width, row_anchors,
    skeleton_of, skeletons_agree, skip_spaces, without_trailing_spaces, AnchorGlyph, AnchorRow, AnchorRowView, Glyphs,
    ScreenRow, ScreenRowView, TranscriptAnchor,
};
use crate::text::{is_alphanumeric, lowercase, trimmed};
use vstd::prelude::*;

verus! {

/// The skeleton of two texts is that of the first and behind it that of the second. A digit and
/// a small letter of ASCII stand for themselves, a capital for its small letter, and nothing
/// else of ASCII is in a skeleton; of the other characters the alphanumeric ones are,
/// lowercased.
pub proof fn lemma_skeleton_is_made_of_characters(first: Seq<char>, second: Seq<char>, c: char)
    ensures
        skeleton_of(first + second) == skeleton_of(first) + skeleton_of(second),
        'a' <= c <= 'z' || '0' <= c <= '9' ==> skeleton_of(seq![c]) == seq![c],
        'A' <= c <= 'Z' ==> skeleton_of(seq![c]).len() == 1 && skeleton_of(seq![c])[0] as int == c
            as int + 32,
        (c as u32) < 128 && !('a' <= c <= 'z') && !('A' <= c <= 'Z') && !('0' <= c <= '9')
            ==> skeleton_of(seq![c]).len() == 0,
        (c as u32) >= 128 && is_alphanumeric(c) ==> skeleton_of(seq![c]) == lowercase(c),
        (c as u32) >= 128 && !is_alphanumeric(c) ==> skeleton_of(seq![c]).len() == 0,
    decreases second.len(),
{
    if second.len() > 0 {
        lemma_skeleton_is_made_of_characters(first, second.drop_last(), c);
        assert((first + second).drop_last() =~= first + second.drop_last());
        assert(skeleton_of(first + second) =~= skeleton_of(first) + skeleton_of(second));
    } else {
        assert(first + second =~= first);
        assert(skeleton_of(first) + skeleton_of(second) =~= skeleton_of(first));
    }
    let one = seq![c];
    assert(one.drop_last() =~= Seq::empty());
    assert(skeleton_of(one.drop_last()) =~= Seq::empty());
    assert(one.last() == c);
    if is_alphanumeric(c) {
        assert(skeleton_of(one) =~= lowercase(c));
    }
}

proof fn lemma_spaces(text: Seq<char>, end: int)
    requires
        0 <= end <= text.len(),
        forall|k: int| 0 <= k < end ==> #[trigger] text[k] == ' ',
        end < text.len() ==> text[end] != ' ',
    ensures
        skip_spaces(text) == text.skip(end),
    decreases text.len(),
{
    if end > 0 {
        assert(text[0] == ' ');
        let rest = text.drop_first();
        assert forall|k: int| 0 <= k < end - 1 implies #[trigger] rest[k] == ' ' by {
            assert(rest[k] == text[k + 1]);
        }
        lemma_spaces(rest, end - 1);
        assert(rest.skip(end - 1) =~= text.skip(end));
    } else {
        assert(text.skip(0) =~= text);
    }
}

/// A row starts an anchor exactly where behind its spaces a glyph stands, then a space, then
/// something that is not blank. The anchor is of that glyph, the user's where both are one
/// character, and its text has no white space around it.
pub proof fn lemma_which_rows_start_an_anchor(row: ScreenRowView, glyphs: Glyphs, at: int)
    requires
        0 <= at <= row.text.len(),
        forall|k: int| 0 <= k < at ==> #[trigger] row.text[k] == ' ',
        at < row.text.len() ==> row.text[at] != ' ',
    ensures
        ({
            let anchor = anchor_of_row(row, glyphs);
            &&& anchor is Some <==> {
                &&& at + 1 < row.text.len() && row.text[at + 1] == ' '
                &&& row.text[at] == glyphs.user_prompt || row.text[at] == glyphs.assistant
                &&& trimmed(row.text.skip(at + 2)).len() > 0
            }
            &&& anchor matches Some(anchor) ==> {
                &&& anchor.row == row.row
                &&& anchor.text == trimmed(row.text.skip(at + 2))
                &&& anchor.glyph == AnchorGlyph::UserPrompt <==> row.text[at] == glyphs.user_prompt
                &&& anchor.glyph == AnchorGlyph::Assistant <==> row.text[at] != glyphs.user_prompt
            }
        }),
{
    lemma_spaces(row.text, at);
    let line = row.text.skip(at);
    if line.len() >= 2 {
        assert(line[0] == row.text[at] && line[1] == row.text[at + 1]);
        assert(line.skip(2) =~= row.text.skip(at + 2));
    }
}

/// The anchors of two runs of rows are those of the first and behind them those of the second;
/// those of one row are the one that it starts, or none.
pub proof fn lemma_rows_give_their_anchors(
    first: Seq<ScreenRow>,
    second: Seq<ScreenRow>,
    row: ScreenRow,
    glyphs: Glyphs,
)
    ensures
        row_anchors(first + second, glyphs) == row_anchors(first, glyphs) + row_anchors(
            second,
            glyphs,
        ),
        anchor_of_row(row@, glyphs) is Some ==> row_anchors(seq![row], glyphs) == seq![
            anchor_of_row(row@, glyphs)->0,
        ],
        anchor_of_row(row@, glyphs) is None ==> row_anchors(seq![row], glyphs).len() == 0,
    decreases second.len(),
{
    if second.len() > 0 {
        lemma_rows_give_their_anchors(first, second.drop_last(), row, glyphs);
        assert((first + second).drop_last() =~= first + second.drop_last());
        assert(row_anchors(first + second, glyphs) =~= row_anchors(first, glyphs) + row_anchors(
            second,
            glyphs,
        ));
    } else {
        assert(first + second =~= first);
        assert(row_anchors(first, glyphs) + row_anchors(second, glyphs) =~= row_anchors(
            first,
            glyphs,
        ));
    }
    assert(seq![row].drop_last() =~= Seq::empty());
    assert(row_anchors(seq![row].drop_last(), glyphs) =~= Seq::empty());
    if let Some(anchor) = anchor_of_row(row@, glyphs) {
        assert(row_anchors(seq![row], glyphs) =~= seq![anchor]);
    }
}

/// A row stands for a message only under the same glyph and where either has a skeleton. Two of
/// six characters and more agree where one begins with the other; a shorter one agrees only
/// with its equal.
pub proof fn lemma_when_skeletons_agree(
    glyph: AnchorGlyph,
    skeleton: Seq<char>,
    other_glyph: AnchorGlyph,
    rest: Seq<char>,
)
    ensures
        glyph != other_glyph ==> !skeletons_agree(glyph, skeleton, other_glyph, rest),
        !skeletons_agree(glyph, Seq::empty(), glyph, Seq::empty()),
        skeleton.len() > 0 ==> skeletons_agree(glyph, skeleton, glyph, skeleton),
        skeleton.len() >= 6 ==> skeletons_agree(glyph, skeleton, glyph, skeleton + rest),
        skeleton.len() >= 6 ==> skeletons_agree(glyph, skeleton + rest, glyph, skeleton),
        skeleton.len() < 6 && rest.len() > 0 ==> !skeletons_agree(
            glyph,
            skeleton,
            glyph,
            skeleton + rest,
        ),
        forall|k: int|
            0 <= k < skeleton.len() && k < rest.len() && #[trigger] skeleton[k] != rest[k]
                ==> !skeletons_agree(glyph, skeleton, glyph, rest),
{
    assert((skeleton + rest).subrange(0, skeleton.len() as int) =~= skeleton);
    if skeletons_agree(glyph, skeleton, glyph, rest) {
        if skeleton.is_prefix_of(rest) {
            assert forall|k: int| 0 <= k < skeleton.len() && k < rest.len() implies
                #[trigger] skeleton[k] == rest[k] by {
                assert(rest.subrange(0, skeleton.len() as int)[k] == skeleton[k]);
            }
        } else if rest.is_prefix_of(skeleton) {
            assert forall|k: int| 0 <= k < skeleton.len() && k < rest.len() implies
                #[trigger] skeleton[k] == rest[k] by {
                assert(skeleton.subrange(0, rest.len() as int)[k] == rest[k]);
            }
        }
    }
    if skeleton.len() < 6 && rest.len() > 0 {
        assert((skeleton + rest).len() != skeleton.len());
    }
}

/// Of a transcript the newest five hundred and twelve anchors are looked at, in their order.
pub proof fn lemma_newest_anchors_are_considered(transcript: Seq<TranscriptAnchor>)
    ensures
        transcript.len() <= 512 ==> considered(transcript) == transcript,
        transcript.len() > 512 ==> considered(transcript).len() == 512,
        transcript.len() > 512 ==> forall|k: int|
            0 <= k < 512 ==> #[trigger] considered(transcript)[k] == transcript[transcript.len()
                - 512 + k],
{
}

/// Each pair gives the row of the screen the key of the transcript's anchor.
pub proof fn lemma_pairs_give_anchorings(
    screen: Seq<AnchorRow>,
    transcript: Seq<TranscriptAnchor>,
    pairs: Seq<(int, int)>,
)
    ensures
        anchorings(screen, transcript, pairs).len() == pairs.len(),
        forall|k: int|
            0 <= k < pairs.len() ==> (#[trigger] anchorings(screen, transcript, pairs)[k]).row
                == screen[pairs[k].0].row && anchorings(screen, transcript, pairs)[k].key
                == transcript[pairs[k].1].key@,
{
}

/// Whether a cell is the last one that is drawn at a place.
pub open spec fn is_last_drawn(
    cells: Seq<(i32, usize, char)>,
    at: int,
    line: int,
    column: int,
) -> bool {
    &&& 0 <= at < cells.len()
    &&& cells[at].0 == line && cells[at].1 == column
    &&& forall|k: int|
        at < k < cells.len() ==> (#[trigger] cells[k]).0 != line || cells[k].1 != column
}

/// What stands at a place is what was drawn there last, and nothing where nothing was drawn. A
/// line is as wide as its last column with a cell in it.
pub proof fn lemma_last_cell_counts(
    cells: Seq<(i32, usize, char)>,
    line: int,
    column: int,
    at: int,
)
    ensures
        is_last_drawn(cells, at, line, column) ==> cell_at(cells, line, column) == Some(
            cells[at].2,
        ),
        (forall|k: int|
            0 <= k < cells.len() ==> (#[trigger] cells[k]).0 != line || cells[k].1 != column)
            ==> cell_at(cells, line, column) is None,
        forall|k: int|
            0 <= k < cells.len() && (#[trigger] cells[k]).0 == line ==> cells[k].1 < line_width(
                cells,
                line,
            ),
        line_width(cells, line) > 0 ==> exists|k: int|
            0 <= k < cells.len() && (#[trigger] cells[k]).0 == line && cells[k].1 + 1
                == line_width(cells, line),
        line_width(cells, line) >= 0,
    decreases cells.len(),
{
    if cells.len() > 0 {
        let front = cells.drop_last();
        assert(forall|k: int| 0 <= k < front.len() ==> front[k] == cells[k]);
        assert(cells.last() == cells[cells.len() - 1]);
        lemma_last_cell_counts(front, line, column, at);
        let earlier = line_width(front, line);
        if cells.last().0 == line && cells.last().1 >= earlier {
            assert(cells[cells.len() - 1].1 + 1 == line_width(cells, line));
        } else if earlier > 0 {
            let k = choose|k: int|
                0 <= k < front.len() && (#[trigger] front[k]).0 == line && front[k].1 + 1
                    == earlier;
            assert(cells[k].1 + 1 == line_width(cells, line));
        }
    }
}

/// The columns of a line are what stands in each of them.
pub proof fn lemma_columns_of_a_line(cells: Seq<(i32, usize, char)>, line: int)
    ensures
        line_columns(cells, line).len() == line_width(cells, line),
        forall|column: int|
            0 <= column < line_width(cells, line) ==> #[trigger] line_columns(cells, line)[column]
                == cell_at(cells, line, column),
{
    lemma_last_cell_counts(cells, line, 0, 0);
}

/// A column adds its character to the text of a line. One without a character adds a space,
/// unless it is behind a wide character.
pub proof fn lemma_columns_make_a_text(columns: Seq<Option<char>>, c: char)
    ensures
        columns_text(columns.push(Some(c))) == columns_text(columns).push(c),
        ({
            let is_half = columns.len() > 0 && columns.last() is Some && is_wide(
                columns.last()->0,
            );
            &&& is_half ==> columns_text(columns.push(None)) == columns_text(columns)
            &&& !is_half ==> columns_text(columns.push(None)) == columns_text(columns).push(' ')
        }),
        columns_text(Seq::empty()).len() == 0,
{
    assert(columns.push(Some(c)).drop_last() =~= columns);
    assert(columns.push(None).drop_last() =~= columns);
    if columns.len() > 0 {
        assert(columns.push(None)[columns.len() - 1] == columns.last());
    }
}

/// The text of a row ends where its last character stands that is not a space.
pub proof fn lemma_trailing_spaces_are_cut(text: Seq<char>, end: int)
    requires
        0 <= end <= text.len(),
        end > 0 ==> text[end - 1] != ' ',
        forall|k: int| end <= k < text.len() ==> #[trigger] text[k] == ' ',
    ensures
        without_trailing_spaces(text) == text.take(end),
    decreases text.len(),
{
    if end < text.len() {
        assert(text[text.len() - 1] == ' ');
        let front = text.drop_last();
        assert(forall|k: int| end <= k < front.len() ==> #[trigger] front[k] == text[k]);
        lemma_trailing_spaces_are_cut(front, end);
        assert(front.take(end) =~= text.take(end));
    } else {
        assert(text.take(end) =~= text);
    }
}

/// No character below the Hangul is wide. Ideographs, Hangul syllables, kana, the full-width
/// forms and the pictures of faces and of animals are.
pub proof fn lemma_which_characters_are_wide(c: char)
    ensures
        (c as u32) < 0x1100 ==> !is_wide(c),
        0x4E00 <= (c as u32) <= 0x9FFF ==> is_wide(c),
        0x3400 <= (c as u32) <= 0x4DBF ==> is_wide(c),
        0x20000 <= (c as u32) <= 0x2FFFD ==> is_wide(c),
        0xAC00 <= (c as u32) <= 0xD7A3 ==> is_wide(c),
        0x3041 <= (c as u32) <= 0x3096 ==> is_wide(c),
        0x30A0 <= (c as u32) <= 0x30FF ==> is_wide(c),
        0xFF01 <= (c as u32) <= 0xFF60 ==> is_wide(c),
        0xFF61 <= (c as u32) <= 0xFFDF ==> !is_wide(c),
        0x1F600 <= (c as u32) <= 0x1F64F ==> is_wide(c),
        0x1F400 <= (c as u32) <= 0x1F43E ==> is_wide(c),
        0x2500 <= (c as u32) <= 0x25FC ==> !is_wide(c),
        0x2190 <= (c as u32) <= 0x2319 ==> !is_wide(c),
{
}

/// The anchors of a screen are in the order of their rows, whatever order the rows came in, and
/// all of them are there.
pub proof fn lemma_anchors_go_down_the_screen(
    anchors: Seq<AnchorRowView>,
    sorted: Seq<AnchorRowView>,
)
    requires
        is_stable_sort(anchors, sorted, higher_row()),
    ensures
        sorted.len() == anchors.len(),
        forall|a: int, b: int|
            #![trigger sorted[a], sorted[b]]
            0 <= a < b < sorted.len() ==> sorted[a].row <= sorted[b].row,
        forall|k: int| 0 <= k < sorted.len() ==> anchors.contains(#[trigger] sorted[k]),
{
    let order = choose|order: Seq<int>| sorts_by(anchors, sorted, order, higher_row());
    assert forall|k: int| 0 <= k < sorted.len() implies anchors.contains(#[trigger] sorted[k]) by {
        assert(sorted[k] == anchors[order[k]]);
    }
}

} // verus!
