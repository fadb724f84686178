//! Where transcript messages stand on a terminal screen.
use crate::order::{is_stable_sort, lemma_empty_is_sorted, lemma_insert_sorted};
use crate::text::{
    char_is_alphanumeric, char_to_lowercase, chars_of, is_alphanumeric, lowercase, same_text, starts_with, text_of,
    trim, trimmed,
};
use vstd::prelude::*;

verus! {

#[derive(Clone, Copy, Debug, PartialEq, Eq, Structural)]
pub enum AnchorGlyph {
    UserPrompt,
    Assistant,
}

/// One visible terminal row. `row` is 0-based from the top of the visible screen.
/// `text` is the row's characters joined in column order with trailing spaces trimmed
/// (wide characters appear once; the spacer cell is skipped).
#[derive(Clone, Debug, PartialEq, Eq)]
pub struct ScreenRow {
    pub row: usize,
    pub text: String,
}

/// A row that starts an anchor: after optional leading spaces, a glyph, then at least
/// one space, then the text. `text` is what follows the glyph, trimmed.
#[derive(Clone, Debug, PartialEq, Eq)]
pub struct AnchorRow {
    pub row: usize,
    pub glyph: AnchorGlyph,
    pub text: String,
}

/// A transcript message the screen may show. `key` is the entry key the panel already
/// uses; `text` is the message's first line as the transcript holds it (raw markdown for
/// text, `Name(target)` for a tool call).
#[derive(Clone, Debug, PartialEq, Eq)]
pub struct TranscriptAnchor {
    pub key: String,
    pub glyph: AnchorGlyph,
    pub text: String,
}

#[derive(Clone, Debug, PartialEq, Eq)]
pub struct Anchoring {
    pub row: usize,
    pub key: String,
}

#[derive(Clone, Copy, Debug, PartialEq, Eq, Structural)]
pub struct Glyphs {
    pub user_prompt: char,
    pub assistant: char,
}

impl Default for Glyphs {
    fn default() -> (glyphs: Self)
        ensures
            glyphs == (Glyphs { user_prompt: '>', assistant: '⏺' }),
    {
        Glyphs { user_prompt: '>', assistant: '⏺' }
    }
}

pub const MIN_SKELETON: usize = 6;

pub const MAX_TRANSCRIPT_ANCHORS: usize = 512;

/// What a [`ScreenRow`] says.
pub struct ScreenRowView {
    pub row: usize,
    pub text: Seq<char>,
}

impl View for ScreenRow {
    type V = ScreenRowView;

    open spec fn view(&self) -> ScreenRowView {
        ScreenRowView { row: self.row, text: self.text@ }
    }
}

/// What an [`AnchorRow`] says.
pub struct AnchorRowView {
    pub row: usize,
    pub glyph: AnchorGlyph,
    pub text: Seq<char>,
}

impl View for AnchorRow {
    type V = AnchorRowView;

    open spec fn view(&self) -> AnchorRowView {
        AnchorRowView { row: self.row, glyph: self.glyph, text: self.text@ }
    }
}

/// What a [`TranscriptAnchor`] says.
pub struct TranscriptAnchorView {
    pub key: Seq<char>,
    pub glyph: AnchorGlyph,
    pub text: Seq<char>,
}

impl View for TranscriptAnchor {
    type V = TranscriptAnchorView;

    open spec fn view(&self) -> TranscriptAnchorView {
        TranscriptAnchorView { key: self.key@, glyph: self.glyph, text: self.text@ }
    }
}

/// What an [`Anchoring`] says.
pub struct AnchoringView {
    pub row: usize,
    pub key: Seq<char>,
}

impl View for Anchoring {
    type V = AnchoringView;

    open spec fn view(&self) -> AnchoringView {
        AnchoringView { row: self.row, key: self.key@ }
    }
}

/// The alphanumeric characters of a text, each lowercased.
pub open spec fn skeleton_of(text: Seq<char>) -> Seq<char>
    decreases text.len(),
{
    if text.len() == 0 {
        Seq::empty()
    } else {
        skeleton_of(text.drop_last()) + if is_alphanumeric(text.last()) {
            lowercase(text.last())
        } else {
            Seq::empty()
        }
    }
}

/// Keeps only alphanumeric characters, lowercased (Unicode alphanumerics included).
pub fn skeleton(text: &str) -> (result: String)
    ensures
        result@ == skeleton_of(text@),
{
    let chars = chars_of(text);
    let mut result = String::new();
    let mut i: usize = 0;
    while i < chars.len()
        invariant
            i <= chars@.len(),
            result@ == skeleton_of(chars@.take(i as int)),
        decreases chars@.len() - i,
    {
        let c = chars[i];
        proof {
            assert(chars@.take(i + 1).drop_last() =~= chars@.take(i as int));
            assert(chars@.take(i + 1).last() == c);
        }
        if char_is_alphanumeric(c) {
            let lowered = char_to_lowercase(c);
            let ghost before = result@;
            let mut k: usize = 0;
            while k < lowered.len()
                invariant
                    k <= lowered@.len(),
                    result@ == before + lowered@.take(k as int),
                decreases lowered@.len() - k,
            {
                result.push(lowered[k]);
                assert(lowered@.take(k + 1) =~= lowered@.take(k as int).push(lowered@[k as int]));
                k = k + 1;
            }
            assert(lowered@.take(k as int) =~= lowered@);
        } else {
            assert(result@ + Seq::<char>::empty() =~= result@);
        }
        i = i + 1;
    }
    assert(chars@.take(i as int) =~= text@);
    result
}

/// A text without the spaces it starts with.
pub open spec fn skip_spaces(text: Seq<char>) -> Seq<char>
    decreases text.len(),
{
    if text.len() > 0 && text[0] == ' ' {
        skip_spaces(text.drop_first())
    } else {
        text
    }
}

/// The glyph that a character is; the user's prompt where both glyphs are one character.
pub open spec fn glyph_of(c: char, glyphs: Glyphs) -> Option<AnchorGlyph> {
    if c == glyphs.user_prompt {
        Some(AnchorGlyph::UserPrompt)
    } else if c == glyphs.assistant {
        Some(AnchorGlyph::Assistant)
    } else {
        None
    }
}

/// The anchor that a screen row starts: behind the leading spaces a glyph, then a space,
/// then a text that is not blank.
pub open spec fn anchor_of_row(row: ScreenRowView, glyphs: Glyphs) -> Option<AnchorRowView> {
    let line = skip_spaces(row.text);
    if line.len() >= 2 && line[1] == ' ' && glyph_of(line[0], glyphs) is Some && trimmed(
        line.skip(2),
    ).len() > 0 {
        Some(
            AnchorRowView {
                row: row.row,
                glyph: glyph_of(line[0], glyphs)->0,
                text: trimmed(line.skip(2)),
            },
        )
    } else {
        None
    }
}

fn anchor_from_row(row: &ScreenRow, glyphs: &Glyphs) -> (anchor: Option<AnchorRow>)
    ensures
        (match anchor {
            Some(anchor) => Some(anchor@),
            None => None,
        }) == anchor_of_row(row@, *glyphs),
{
    let chars = chars_of(row.text.as_str());
    let mut start: usize = 0;
    assert(chars@.skip(0) =~= chars@);
    while start < chars.len() && chars[start] == ' '
        invariant
            start <= chars@.len(),
            skip_spaces(chars@.skip(start as int)) == skip_spaces(chars@),
        decreases chars@.len() - start,
    {
        assert(chars@.skip(start as int).drop_first() =~= chars@.skip(start + 1));
        start = start + 1;
    }
    let ghost line = chars@.skip(start as int);
    assert(skip_spaces(chars@) == line);
    if chars.len() - start < 2 {
        return None;
    }
    let glyph = if chars[start] == glyphs.user_prompt {
        AnchorGlyph::UserPrompt
    } else if chars[start] == glyphs.assistant {
        AnchorGlyph::Assistant
    } else {
        return None;
    };
    if chars[start + 1] != ' ' {
        return None;
    }
    let rest = text_of(&chars, start + 2, chars.len());
    assert(rest@ =~= line.skip(2));
    let text = trim(rest.as_str());
    if text.is_empty() {
        return None;
    }
    Some(AnchorRow { row: row.row, glyph, text: text.to_owned() })
}

/// The anchors that rows start, in the order of the rows.
pub open spec fn row_anchors(rows: Seq<ScreenRow>, glyphs: Glyphs) -> Seq<AnchorRowView>
    decreases rows.len(),
{
    if rows.len() == 0 {
        Seq::empty()
    } else {
        let earlier = row_anchors(rows.drop_last(), glyphs);
        match anchor_of_row(rows.last()@, glyphs) {
            Some(anchor) => earlier.push(anchor),
            None => earlier,
        }
    }
}

pub open spec fn anchor_views(anchors: Seq<AnchorRow>) -> Seq<AnchorRowView> {
    anchors.map_values(|anchor: AnchorRow| anchor@)
}

pub open spec fn higher_row() -> spec_fn(AnchorRowView, AnchorRowView) -> bool {
    |a: AnchorRowView, b: AnchorRowView| a.row < b.row
}

/// Picks the rows that start an anchor, top to bottom. A row whose text after the glyph
/// is empty is not an anchor (that is the input line).
pub fn anchor_rows(rows: &[ScreenRow], glyphs: &Glyphs) -> (anchors: Vec<AnchorRow>)
    ensures
        is_stable_sort(row_anchors(rows@, *glyphs), anchor_views(anchors@), higher_row()),
{
    let mut anchors: Vec<AnchorRow> = Vec::new();
    let mut i: usize = 0;
    proof {
        lemma_empty_is_sorted(higher_row());
        assert(anchor_views(anchors@) =~= Seq::empty());
    }
    while i < rows.len()
        invariant
            i <= rows@.len(),
            is_stable_sort(
                row_anchors(rows@.take(i as int), *glyphs),
                anchor_views(anchors@),
                higher_row(),
            ),
        decreases rows@.len() - i,
    {
        proof {
            assert(rows@.take(i + 1).drop_last() =~= rows@.take(i as int));
            assert(rows@.take(i + 1).last() == rows@[i as int]);
        }
        if let Some(anchor) = anchor_from_row(&rows[i], glyphs) {
            let mut position: usize = anchors.len();
            while position > 0 && anchors[position - 1].row > anchor.row
                invariant
                    position <= anchors@.len(),
                    forall|k: int|
                        position <= k < anchors@.len() ==> anchor.row < (#[trigger] anchors@[k]).row,
                decreases position,
            {
                position = position - 1;
            }
            proof {
                let views = anchor_views(anchors@);
                let before = higher_row();
                let order = choose|order: Seq<int>|
                    crate::order::sorts_by(
                        row_anchors(rows@.take(i as int), *glyphs),
                        views,
                        order,
                        before,
                    );
                assert forall|k: int| 0 <= k < position implies !before(
                    anchor@,
                    #[trigger] views[k],
                ) by {
                    if k < position - 1 {
                        assert(!before(views[position - 1], views[k]));
                    }
                }
                lemma_insert_sorted(
                    row_anchors(rows@.take(i as int), *glyphs),
                    views,
                    anchor@,
                    position as int,
                    before,
                );
                assert(anchor_views(anchors@.insert(position as int, anchor)) =~= views.insert(
                    position as int,
                    anchor@,
                ));
            }
            anchors.insert(position, anchor);
        }
        i = i + 1;
    }
    assert(rows@.take(i as int) =~= rows@);
    anchors
}

/// Whether two rows, by glyph and skeleton, can stand for one message: the same glyph,
/// something identifiable in them, and one skeleton a prefix of the other. A skeleton
/// shorter than [`MIN_SKELETON`] stands only for an equal one.
pub open spec fn skeletons_agree(
    screen_glyph: AnchorGlyph,
    screen: Seq<char>,
    transcript_glyph: AnchorGlyph,
    transcript: Seq<char>,
) -> bool {
    &&& screen_glyph == transcript_glyph
    &&& screen.len() > 0 || transcript.len() > 0
    &&& if screen.len() < MIN_SKELETON || transcript.len() < MIN_SKELETON {
        screen == transcript
    } else {
        screen.is_prefix_of(transcript) || transcript.is_prefix_of(screen)
    }
}

/// [`rows_match`] over skeletons the caller already has. A caller that compares the
/// same text many times computes each skeleton once and comes here instead.
pub fn skeletons_match(
    screen_glyph: AnchorGlyph,
    screen_skeleton: &str,
    transcript_glyph: AnchorGlyph,
    transcript_skeleton: &str,
) -> (result: bool)
    ensures
        result == skeletons_agree(
            screen_glyph,
            screen_skeleton@,
            transcript_glyph,
            transcript_skeleton@,
        ),
{
    if screen_glyph != transcript_glyph {
        return false;
    }
    // Both sides under MIN_SKELETON compare by equality, and "" == "", so two
    // symbol-only rows (a checkmark, a rule, an emoji) would match each other.
    // Nothing identifiable is not a match, including a row with itself.
    if screen_skeleton.is_empty() && transcript_skeleton.is_empty() {
        return false;
    }
    let screen_len: usize = chars_of(screen_skeleton).len();
    let transcript_len: usize = chars_of(transcript_skeleton).len();
    if screen_len < MIN_SKELETON || transcript_len < MIN_SKELETON {
        return same_text(screen_skeleton, transcript_skeleton);
    }
    if screen_len <= transcript_len {
        proof {
            if transcript_skeleton@.is_prefix_of(screen_skeleton@) {
                assert(transcript_skeleton@ =~= screen_skeleton@);
            }
        }
        starts_with(transcript_skeleton, screen_skeleton)
    } else {
        starts_with(screen_skeleton, transcript_skeleton)
    }
}

pub open spec fn anchors_agree(screen: AnchorRowView, transcript: TranscriptAnchorView) -> bool {
    skeletons_agree(
        screen.glyph,
        skeleton_of(screen.text),
        transcript.glyph,
        skeleton_of(transcript.text),
    )
}

/// Whether a screen row can stand for a transcript anchor: same glyph, and the shorter
/// skeleton is a prefix of the longer one. Skeletons under `MIN_SKELETON` (= 6) chars
/// must be equal.
pub fn rows_match(screen: &AnchorRow, transcript: &TranscriptAnchor) -> (result: bool)
    ensures
        result == anchors_agree(screen@, transcript@),
{
    skeletons_match(
        screen.glyph,
        skeleton(screen.text.as_str()).as_str(),
        transcript.glyph,
        skeleton(transcript.text.as_str()).as_str(),
    )
}

/// The part of a transcript that is considered: its last anchors, up to
/// [`MAX_TRANSCRIPT_ANCHORS`] of them.
pub open spec fn considered<T>(transcript: Seq<T>) -> Seq<T> {
    if transcript.len() <= MAX_TRANSCRIPT_ANCHORS {
        transcript
    } else {
        transcript.skip(transcript.len() - MAX_TRANSCRIPT_ANCHORS)
    }
}

fn transcript_window(transcript: &[TranscriptAnchor]) -> (window: &[TranscriptAnchor])
    ensures
        window@ == considered(transcript@),
        window@.len() <= MAX_TRANSCRIPT_ANCHORS,
{
    if transcript.len() <= MAX_TRANSCRIPT_ANCHORS {
        return transcript;
    }
    let skipped: usize = transcript.len() - MAX_TRANSCRIPT_ANCHORS;
    let window = vstd::slice::slice_subrange(transcript, skipped, transcript.len());
    assert(window@ =~= considered(transcript@));
    window
}

/// Which screen row (first) stands for which transcript anchor (second).
pub type Pairs = Seq<(int, int)>;

pub open spec fn agree_at(
    screen: Seq<AnchorRow>,
    transcript: Seq<TranscriptAnchor>,
    row: int,
    anchor: int,
) -> bool {
    anchors_agree(screen[row]@, transcript[anchor]@)
}

/// Pairs of agreeing rows and anchors among the first `rows` rows and the first `anchors`
/// anchors, both going forward from pair to pair: order is preserved, and no row and no
/// anchor is used twice.
pub open spec fn is_alignment(
    screen: Seq<AnchorRow>,
    transcript: Seq<TranscriptAnchor>,
    rows: int,
    anchors: int,
    pairs: Pairs,
) -> bool {
    &&& forall|k: int|
        0 <= k < pairs.len() ==> 0 <= (#[trigger] pairs[k]).0 < rows && 0 <= pairs[k].1 < anchors
            && agree_at(screen, transcript, pairs[k].0, pairs[k].1)
    &&& forall|k: int, l: int|
        #![trigger pairs[k], pairs[l]]
        0 <= k < l < pairs.len() ==> pairs[k].0 < pairs[l].0 && pairs[k].1 < pairs[l].1
}

/// The length of the longest alignment of the first `rows` rows with the first `anchors`
/// anchors.
pub open spec fn longest(
    screen: Seq<AnchorRow>,
    transcript: Seq<TranscriptAnchor>,
    rows: int,
    anchors: int,
) -> nat
    decreases rows + anchors,
    when rows >= 0 && anchors >= 0
{
    if rows <= 0 || anchors <= 0 {
        0
    } else if agree_at(screen, transcript, rows - 1, anchors - 1) {
        longest(screen, transcript, rows - 1, anchors - 1) + 1
    } else {
        let without_row = longest(screen, transcript, rows - 1, anchors);
        let without_anchor = longest(screen, transcript, rows, anchors - 1);
        if without_row >= without_anchor {
            without_row
        } else {
            without_anchor
        }
    }
}

/// The alignment that is chosen: from the bottom of the screen and the newest anchor up,
/// agreeing ends are paired; otherwise the row is left out where that costs nothing, and
/// else the anchor.
pub open spec fn chosen_pairs(
    screen: Seq<AnchorRow>,
    transcript: Seq<TranscriptAnchor>,
    rows: int,
    anchors: int,
) -> Pairs
    decreases rows + anchors,
    when rows >= 0 && anchors >= 0
{
    if rows <= 0 || anchors <= 0 {
        Seq::empty()
    } else if agree_at(screen, transcript, rows - 1, anchors - 1) {
        chosen_pairs(screen, transcript, rows - 1, anchors - 1).push((rows - 1, anchors - 1))
    } else if longest(screen, transcript, rows, anchors) == longest(
        screen,
        transcript,
        rows - 1,
        anchors,
    ) {
        chosen_pairs(screen, transcript, rows - 1, anchors)
    } else {
        chosen_pairs(screen, transcript, rows, anchors - 1)
    }
}

/// `pairs` goes with anchors at least as new as those of `other`, pair by pair.
pub open spec fn at_least_as_new(pairs: Pairs, other: Pairs) -> bool {
    forall|k: int| 0 <= k < pairs.len() ==> (#[trigger] pairs[k]).1 >= other[k].1
}

/// No alignment is longer than [`longest`] says.
pub proof fn lemma_longest_is_a_bound(
    screen: Seq<AnchorRow>,
    transcript: Seq<TranscriptAnchor>,
    rows: int,
    anchors: int,
    pairs: Pairs,
)
    requires
        rows >= 0,
        anchors >= 0,
        is_alignment(screen, transcript, rows, anchors, pairs),
    ensures
        pairs.len() <= longest(screen, transcript, rows, anchors),
    decreases rows + anchors,
{
    if pairs.len() == 0 {
    } else {
        let last = pairs.last();
        assert(last == pairs[pairs.len() - 1]);
        if agree_at(screen, transcript, rows - 1, anchors - 1) {
            let rest = pairs.drop_last();
            assert forall|k: int| 0 <= k < rest.len() implies 0 <= (#[trigger] rest[k]).0 < rows - 1
                && 0 <= rest[k].1 < anchors - 1 && agree_at(
                screen,
                transcript,
                rest[k].0,
                rest[k].1,
            ) by {
                assert(rest[k] == pairs[k]);
            }
            lemma_longest_is_a_bound(screen, transcript, rows - 1, anchors - 1, rest);
        } else if last.0 < rows - 1 {
            assert forall|k: int| 0 <= k < pairs.len() implies (#[trigger] pairs[k]).0 < rows - 1 by {
                if k < pairs.len() - 1 {
                    assert(pairs[k].0 < pairs[pairs.len() - 1].0);
                }
            }
            lemma_longest_is_a_bound(screen, transcript, rows - 1, anchors, pairs);
        } else {
            assert forall|k: int| 0 <= k < pairs.len() implies (#[trigger] pairs[k]).1 < anchors
                - 1 by {
                if k < pairs.len() - 1 {
                    assert(pairs[k].1 < pairs[pairs.len() - 1].1);
                }
            }
            lemma_longest_is_a_bound(screen, transcript, rows, anchors - 1, pairs);
        }
    }
}

/// The chosen alignment is one, and it has the greatest length.
pub proof fn lemma_chosen_is_longest(
    screen: Seq<AnchorRow>,
    transcript: Seq<TranscriptAnchor>,
    rows: int,
    anchors: int,
)
    requires
        rows >= 0,
        anchors >= 0,
    ensures
        is_alignment(
            screen,
            transcript,
            rows,
            anchors,
            chosen_pairs(screen, transcript, rows, anchors),
        ),
        chosen_pairs(screen, transcript, rows, anchors).len() == longest(
            screen,
            transcript,
            rows,
            anchors,
        ),
    decreases rows + anchors,
{
    if rows <= 0 || anchors <= 0 {
    } else if agree_at(screen, transcript, rows - 1, anchors - 1) {
        lemma_chosen_is_longest(screen, transcript, rows - 1, anchors - 1);
    } else if longest(screen, transcript, rows, anchors) == longest(
        screen,
        transcript,
        rows - 1,
        anchors,
    ) {
        lemma_chosen_is_longest(screen, transcript, rows - 1, anchors);
    } else {
        lemma_chosen_is_longest(screen, transcript, rows, anchors - 1);
    }
}

/// Among the alignments of the greatest length, the chosen one goes with the newest
/// anchors: pair by pair, no other has a newer one.
pub proof fn lemma_chosen_is_newest(
    screen: Seq<AnchorRow>,
    transcript: Seq<TranscriptAnchor>,
    rows: int,
    anchors: int,
    other: Pairs,
)
    requires
        rows >= 0,
        anchors >= 0,
        is_alignment(screen, transcript, rows, anchors, other),
        other.len() == longest(screen, transcript, rows, anchors),
    ensures
        at_least_as_new(chosen_pairs(screen, transcript, rows, anchors), other),
    decreases rows + anchors, other.len() + 1,
{
    let chosen = chosen_pairs(screen, transcript, rows, anchors);
    lemma_chosen_is_longest(screen, transcript, rows, anchors);
    if chosen.len() == 0 {
    } else if agree_at(screen, transcript, rows - 1, anchors - 1) {
        let rest = other.drop_last();
        assert forall|k: int| 0 <= k < rest.len() implies 0 <= (#[trigger] rest[k]).0 < rows - 1
            && 0 <= rest[k].1 < anchors - 1 && agree_at(
            screen,
            transcript,
            rest[k].0,
            rest[k].1,
        ) by {
            assert(rest[k] == other[k]);
            assert(other[k].0 < other[other.len() - 1].0);
        }
        assert(is_alignment(screen, transcript, rows - 1, anchors - 1, rest));
        lemma_chosen_is_newest(screen, transcript, rows - 1, anchors - 1, rest);
        assert forall|k: int| 0 <= k < chosen.len() implies (#[trigger] chosen[k]).1
            >= other[k].1 by {
            if k < chosen.len() - 1 {
                assert(rest[k] == other[k]);
                assert(chosen_pairs(screen, transcript, rows - 1, anchors - 1)[k] == chosen[k]);
            } else {
                assert(other[k].1 < anchors);
            }
        }
    } else if longest(screen, transcript, rows, anchors) == longest(
        screen,
        transcript,
        rows - 1,
        anchors,
    ) {
        lemma_chosen_is_longest(screen, transcript, rows - 1, anchors);
        if !at_least_as_new(chosen, other) {
            lemma_exchange(screen, transcript, rows, anchors, chosen, other, other.len() - 1);
            assert(false);
        }
    } else {
        assert forall|k: int| 0 <= k < other.len() implies (#[trigger] other[k]).1 < anchors - 1 by {
            let last = other.len() - 1;
            if other[last].1 == anchors - 1 {
                assert forall|l: int| 0 <= l < other.len() implies (#[trigger] other[l]).0 < rows
                    - 1 by {
                    if l < last {
                        assert(other[l].0 < other[last].0);
                    }
                }
                lemma_longest_is_a_bound(screen, transcript, rows - 1, anchors, other);
                assert(false);
            }
            if k < last {
                assert(other[k].1 < other[last].1);
            }
        }
        lemma_chosen_is_newest(screen, transcript, rows, anchors - 1, other);
    }
}

/// The beginning of one alignment followed by the end of another is an alignment, where
/// the one ends before the other goes on.
proof fn lemma_splice(
    screen: Seq<AnchorRow>,
    transcript: Seq<TranscriptAnchor>,
    rows: int,
    anchors: int,
    front: Pairs,
    front_rows: int,
    count: int,
    back: Pairs,
    back_rows: int,
    start: int,
)
    requires
        is_alignment(screen, transcript, front_rows, anchors, front),
        is_alignment(screen, transcript, back_rows, anchors, back),
        0 < count <= front.len(),
        0 <= start <= back.len(),
        front[count - 1].0 < rows,
        start < back.len() ==> back_rows <= rows && front[count - 1].0 < back[start].0
            && front[count - 1].1 < back[start].1,
    ensures
        is_alignment(screen, transcript, rows, anchors, front.take(count) + back.skip(start)),
{
    let spliced = front.take(count) + back.skip(start);
    assert forall|l: int| 0 <= l < spliced.len() implies 0 <= (#[trigger] spliced[l]).0 < rows
        && 0 <= spliced[l].1 < anchors && agree_at(
        screen,
        transcript,
        spliced[l].0,
        spliced[l].1,
    ) by {
        if l < count {
            assert(spliced[l] == front[l]);
            if l < count - 1 {
                assert(front[l].0 < front[count - 1].0);
            }
        } else {
            assert(spliced[l] == back[l - count + start]);
        }
    }
    assert forall|l: int, m: int|
        #![trigger spliced[l], spliced[m]]
        0 <= l < m < spliced.len() implies spliced[l].0 < spliced[m].0 && spliced[l].1
        < spliced[m].1 by {
        if m < count {
            assert(spliced[l] == front[l] && spliced[m] == front[m]);
        } else if l >= count {
            assert(spliced[l] == back[l - count + start]);
            assert(spliced[m] == back[m - count + start]);
        } else {
            assert(spliced[l] == front[l] && spliced[m] == back[m - count + start]);
            assert(front[l].0 <= front[count - 1].0 && front[l].1 <= front[count - 1].1);
            let b = m - count + start;
            assert(back[start].0 <= back[b].0 && back[start].1 <= back[b].1);
        }
    }
}

/// Where the last row can be left out at no cost, no alignment that uses it has a newer
/// anchor at or before pair `k`, given that it has none behind.
proof fn lemma_exchange(
    screen: Seq<AnchorRow>,
    transcript: Seq<TranscriptAnchor>,
    rows: int,
    anchors: int,
    chosen: Pairs,
    other: Pairs,
    k: int,
)
    requires
        rows >= 1,
        anchors >= 1,
        is_alignment(screen, transcript, rows, anchors, other),
        other.len() == longest(screen, transcript, rows, anchors),
        longest(screen, transcript, rows, anchors) == longest(
            screen,
            transcript,
            rows - 1,
            anchors,
        ),
        chosen == chosen_pairs(screen, transcript, rows - 1, anchors),
        is_alignment(screen, transcript, rows - 1, anchors, chosen),
        chosen.len() == other.len(),
        -1 <= k < other.len(),
        forall|l: int| k < l < chosen.len() ==> (#[trigger] chosen[l]).1 >= other[l].1,
    ensures
        at_least_as_new(chosen, other),
    decreases rows + anchors, k + 1,
{
    if k >= 0 {
        if chosen[k].1 < other[k].1 {
            if chosen[k].0 < other[k].0 {
                lemma_splice(
                    screen,
                    transcript,
                    rows,
                    anchors,
                    chosen,
                    rows - 1,
                    k + 1,
                    other,
                    rows,
                    k,
                );
                let longer = chosen.take(k + 1) + other.skip(k);
                lemma_longest_is_a_bound(screen, transcript, rows, anchors, longer);
                assert(false);
            } else {
                if k + 1 < chosen.len() {
                    assert(chosen[k].0 < chosen[k + 1].0);
                    assert(other[k].1 < other[k + 1].1);
                    assert(chosen[k + 1].1 >= other[k + 1].1);
                }
                lemma_splice(
                    screen,
                    transcript,
                    rows - 1,
                    anchors,
                    other,
                    rows,
                    k + 1,
                    chosen,
                    rows - 1,
                    k + 1,
                );
                let mixed = other.take(k + 1) + chosen.skip(k + 1);
                lemma_chosen_is_newest(screen, transcript, rows - 1, anchors, mixed);
                assert(mixed[k] == other[k]);
                assert(chosen[k].1 >= mixed[k].1);
                assert(false);
            }
        }
        lemma_exchange(screen, transcript, rows, anchors, chosen, other, k - 1);
    }
}

/// The anchorings that pairs stand for.
pub open spec fn anchorings(
    screen: Seq<AnchorRow>,
    transcript: Seq<TranscriptAnchor>,
    pairs: Pairs,
) -> Seq<AnchoringView> {
    pairs.map_values(
        |pair: (int, int)|
            AnchoringView { row: screen[pair.0].row, key: transcript[pair.1].key@ },
    )
}

pub open spec fn anchoring_views(anchorings: Seq<Anchoring>) -> Seq<AnchoringView> {
    anchorings.map_values(|anchoring: Anchoring| anchoring@)
}

fn skeleton_at(screen: &[AnchorRow]) -> (skeletons: Vec<String>)
    ensures
        skeletons@.len() == screen@.len(),
        forall|i: int|
            0 <= i < screen@.len() ==> (#[trigger] skeletons@[i])@ == skeleton_of(screen@[i].text@),
{
    let mut skeletons: Vec<String> = Vec::new();
    let mut i: usize = 0;
    while i < screen.len()
        invariant
            i <= screen@.len(),
            skeletons@.len() == i,
            forall|k: int|
                0 <= k < i ==> (#[trigger] skeletons@[k])@ == skeleton_of(screen@[k].text@),
        decreases screen@.len() - i,
    {
        skeletons.push(skeleton(screen[i].text.as_str()));
        i = i + 1;
    }
    skeletons
}

/// The lengths of the longest alignments of the first `row + 1` rows, given those of the
/// first `row` rows.
fn next_lengths(
    screen: &[AnchorRow],
    transcript: &[TranscriptAnchor],
    transcript_skeletons: &Vec<String>,
    above: &Vec<u32>,
    row: usize,
) -> (lengths: Vec<u32>)
    requires
        row < screen@.len(),
        transcript@.len() <= MAX_TRANSCRIPT_ANCHORS,
        transcript_skeletons@.len() == transcript@.len(),
        forall|i: int|
            0 <= i < transcript@.len() ==> (#[trigger] transcript_skeletons@[i])@ == skeleton_of(
                transcript@[i].text@,
            ),
        above@.len() == transcript@.len() + 1,
        forall|j: int|
            0 <= j <= transcript@.len() ==> #[trigger] above@[j] == longest(
                screen@,
                transcript@,
                row as int,
                j,
            ) && above@[j] <= j,
    ensures
        lengths@.len() == transcript@.len() + 1,
        forall|j: int|
            0 <= j <= transcript@.len() ==> #[trigger] lengths@[j] == longest(
                screen@,
                transcript@,
                row + 1,
                j,
            ) && lengths@[j] <= j,
{
    let row_skeleton = skeleton(screen[row].text.as_str());
    let mut lengths: Vec<u32> = Vec::new();
    lengths.push(0);
    let mut column: usize = 0;
    while column < transcript.len()
        invariant
            row < screen@.len(),
            column <= transcript@.len() <= MAX_TRANSCRIPT_ANCHORS,
            row_skeleton@ == skeleton_of(screen@[row as int].text@),
            transcript_skeletons@.len() == transcript@.len(),
            forall|i: int|
                0 <= i < transcript@.len() ==> (#[trigger] transcript_skeletons@[i])@
                    == skeleton_of(transcript@[i].text@),
            above@.len() == transcript@.len() + 1,
            forall|j: int|
                0 <= j <= transcript@.len() ==> #[trigger] above@[j] == longest(
                    screen@,
                    transcript@,
                    row as int,
                    j,
                ) && above@[j] <= j,
            lengths@.len() == column + 1,
            forall|j: int|
                0 <= j <= column ==> #[trigger] lengths@[j] == longest(
                    screen@,
                    transcript@,
                    row + 1,
                    j,
                ) && lengths@[j] <= j,
        decreases transcript@.len() - column,
    {
        let matched = skeletons_match(
            screen[row].glyph,
            row_skeleton.as_str(),
            transcript[column].glyph,
            transcript_skeletons[column].as_str(),
        );
        assert(matched == agree_at(screen@, transcript@, row as int, column as int));
        let length: u32 = if matched {
            above[column] + 1
        } else if above[column + 1] >= lengths[column] {
            above[column + 1]
        } else {
            lengths[column]
        };
        assert(length == longest(screen@, transcript@, row + 1, column + 1));
        lengths.push(length);
        column = column + 1;
    }
    lengths
}

/// Order-preserving alignment (longest common subsequence under `rows_match`): screen
/// rows top to bottom, transcript oldest to newest. Each screen row and each transcript
/// anchor is used at most once. Ties prefer the newest transcript anchors (the screen
/// shows the tail of the conversation). Returns anchorings in the order of the rows.
/// Only the last `MAX_TRANSCRIPT_ANCHORS` (= 512) transcript anchors are considered.
pub fn align(screen: &[AnchorRow], transcript: &[TranscriptAnchor]) -> (matched: Vec<Anchoring>)
    ensures
        anchoring_views(matched@) == ({
            let window = considered(transcript@);
            anchorings(
                screen@,
                window,
                chosen_pairs(screen@, window, screen@.len() as int, window.len() as int),
            )
        }),
{
    let transcript = transcript_window(transcript);
    let ghost rows = screen@;
    let ghost anchors = transcript@;
    if screen.len() == 0 || transcript.len() == 0 {
        let matched: Vec<Anchoring> = Vec::new();
        assert(anchoring_views(matched@) =~= anchorings(rows, anchors, Seq::empty()));
        return matched;
    }
    let screen_skeletons = skeleton_at(screen);
    let mut transcript_skeletons: Vec<String> = Vec::new();
    let mut first: Vec<u32> = Vec::new();
    first.push(0);
    let mut i: usize = 0;
    while i < transcript.len()
        invariant
            i <= transcript@.len(),
            transcript_skeletons@.len() == i,
            forall|k: int|
                0 <= k < i ==> (#[trigger] transcript_skeletons@[k])@ == skeleton_of(
                    transcript@[k].text@,
                ),
            first@.len() == i + 1,
            forall|j: int| 0 <= j <= i ==> #[trigger] first@[j] == 0,
        decreases transcript@.len() - i,
    {
        transcript_skeletons.push(skeleton(transcript[i].text.as_str()));
        first.push(0);
        i = i + 1;
    }

    let mut lengths: Vec<Vec<u32>> = Vec::new();
    lengths.push(first);
    let mut row: usize = 0;
    while row < screen.len()
        invariant
            row <= screen@.len(),
            transcript@.len() <= MAX_TRANSCRIPT_ANCHORS,
            transcript_skeletons@.len() == transcript@.len(),
            forall|i: int|
                0 <= i < transcript@.len() ==> (#[trigger] transcript_skeletons@[i])@
                    == skeleton_of(transcript@[i].text@),
            lengths@.len() == row + 1,
            forall|r: int|
                0 <= r <= row ==> (#[trigger] lengths@[r])@.len() == transcript@.len() + 1,
            forall|r: int, j: int|
                0 <= r <= row && 0 <= j <= transcript@.len() ==> #[trigger] lengths@[r]@[j]
                    == longest(screen@, transcript@, r, j) && lengths@[r]@[j] <= j,
        decreases screen@.len() - row,
    {
        assert(lengths@[row as int]@.len() == transcript@.len() + 1);
        let next = next_lengths(screen, transcript, &transcript_skeletons, &lengths[row], row);
        lengths.push(next);
        row = row + 1;
    }

    // Walk the table from the tail. A match uses the newest transcript still in
    // range; when skipping, keep that column and drop the screen row instead, so
    // a later (newer) transcript index wins a tie of the same length.
    let mut screen_index: usize = screen.len();
    let mut transcript_index: usize = transcript.len();
    let mut backward: Vec<Anchoring> = Vec::new();
    let ghost whole = chosen_pairs(rows, anchors, rows.len() as int, anchors.len() as int);
    assert(anchoring_views(backward@).reverse() =~= Seq::empty());
    assert(anchorings(rows, anchors, whole) + Seq::empty() =~= anchorings(rows, anchors, whole));
    while screen_index > 0 && transcript_index > 0
        invariant
            rows == screen@,
            anchors == transcript@,
            screen_index <= screen@.len(),
            transcript_index <= transcript@.len() <= MAX_TRANSCRIPT_ANCHORS,
            screen_skeletons@.len() == screen@.len(),
            forall|i: int|
                0 <= i < screen@.len() ==> (#[trigger] screen_skeletons@[i])@ == skeleton_of(
                    screen@[i].text@,
                ),
            transcript_skeletons@.len() == transcript@.len(),
            forall|i: int|
                0 <= i < transcript@.len() ==> (#[trigger] transcript_skeletons@[i])@
                    == skeleton_of(transcript@[i].text@),
            lengths@.len() == screen@.len() + 1,
            forall|r: int|
                0 <= r <= screen@.len() ==> (#[trigger] lengths@[r])@.len() == transcript@.len()
                    + 1,
            forall|r: int, j: int|
                0 <= r <= screen@.len() && 0 <= j <= transcript@.len() ==> #[trigger] lengths@[r]@[j]
                    == longest(screen@, transcript@, r, j) && lengths@[r]@[j] <= j,
            anchorings(
                rows,
                anchors,
                chosen_pairs(rows, anchors, screen_index as int, transcript_index as int),
            ) + anchoring_views(backward@).reverse() == anchorings(rows, anchors, whole),
        decreases screen_index + transcript_index,
    {
        let pair_matches = skeletons_match(
            screen[screen_index - 1].glyph,
            screen_skeletons[screen_index - 1].as_str(),
            transcript[transcript_index - 1].glyph,
            transcript_skeletons[transcript_index - 1].as_str(),
        );
        assert(pair_matches == agree_at(rows, anchors, screen_index - 1, transcript_index - 1));
        assert(lengths@[screen_index - 1]@.len() == transcript@.len() + 1);
        assert(lengths@[screen_index as int]@.len() == transcript@.len() + 1);
        let here: u32 = lengths[screen_index][transcript_index];
        let diagonal: u32 = lengths[screen_index - 1][transcript_index - 1];
        let above: u32 = lengths[screen_index - 1][transcript_index];
        if pair_matches && here == diagonal + 1 {
            let anchoring = Anchoring {
                row: screen[screen_index - 1].row,
                key: transcript[transcript_index - 1].key.clone(),
            };
            proof {
                let rest = chosen_pairs(rows, anchors, screen_index - 1, transcript_index - 1);
                let pair = (screen_index - 1, transcript_index - 1);
                assert(anchorings(rows, anchors, rest.push(pair)) =~= anchorings(
                    rows,
                    anchors,
                    rest,
                ).push(anchoring@));
                assert(anchoring_views(backward@.push(anchoring)).reverse() =~= seq![anchoring@]
                    + anchoring_views(backward@).reverse());
                assert(anchorings(rows, anchors, rest).push(anchoring@) + anchoring_views(
                    backward@,
                ).reverse() =~= anchorings(rows, anchors, rest) + (seq![anchoring@]
                    + anchoring_views(backward@).reverse()));
            }
            backward.push(anchoring);
            screen_index = screen_index - 1;
            transcript_index = transcript_index - 1;
        } else if here == above {
            screen_index = screen_index - 1;
        } else {
            transcript_index = transcript_index - 1;
        }
    }
    assert(anchorings(rows, anchors, Seq::empty()) + anchoring_views(backward@).reverse()
        =~= anchoring_views(backward@).reverse());
    let mut matched: Vec<Anchoring> = Vec::new();
    let ghost all = backward@;
    assert(anchoring_views(all).reverse() == anchorings(rows, anchors, whole));
    while backward.len() > 0
        invariant
            backward@.len() + matched@.len() == all.len(),
            backward@ == all.take(backward@.len() as int),
            matched@ == all.skip(backward@.len() as int).reverse(),
        decreases backward@.len(),
    {
        let last = backward.pop();
        match last {
            Some(anchoring) => matched.push(anchoring),
            None => {},
        }
    }
    assert(matched@ =~= all.reverse());
    assert(anchoring_views(matched@) =~= anchoring_views(all).reverse());
    matched
}

/// An alignment of a screen whose rows go downward gives anchorings whose rows go
/// downward.
pub proof fn lemma_align_is_sorted_by_row(screen: Seq<AnchorRow>, transcript: Seq<TranscriptAnchor>)
    requires
        forall|a: int, b: int| 0 <= a < b < screen.len() ==> screen[a].row < screen[b].row,
    ensures
        ({
            let chosen = anchorings(
                screen,
                transcript,
                chosen_pairs(screen, transcript, screen.len() as int, transcript.len() as int),
            );
            forall|a: int, b: int| 0 <= a < b < chosen.len() ==> chosen[a].row < chosen[b].row
        }),
{
    lemma_chosen_is_longest(screen, transcript, screen.len() as int, transcript.len() as int);
}

/// Whether a row can stand for an anchor does not depend on which of the two is the screen's:
/// the longer skeleton may be on either side.
pub proof fn lemma_agreement_is_symmetric(
    glyph: AnchorGlyph,
    skeleton: Seq<char>,
    other_glyph: AnchorGlyph,
    other_skeleton: Seq<char>,
)
    ensures
        skeletons_agree(glyph, skeleton, other_glyph, other_skeleton) == skeletons_agree(
            other_glyph,
            other_skeleton,
            glyph,
            skeleton,
        ),
{
}

/// The character that the cells put at a place: that of the last cell for it.
pub open spec fn cell_at(cells: Seq<(i32, usize, char)>, line: int, column: int) -> Option<char>
    decreases cells.len(),
{
    if cells.len() == 0 {
        None
    } else if cells.last().0 == line && cells.last().1 == column {
        Some(cells.last().2)
    } else {
        cell_at(cells.drop_last(), line, column)
    }
}

/// A code of the scripts of East Asia and their full-width forms.
pub open spec fn is_wide_script(code: u32) -> bool {
    ||| 0x1100 <= code <= 0x115F
    ||| 0x2329 <= code <= 0x232A
    ||| 0x2E80 <= code <= 0x2E99
    ||| 0x2E9B <= code <= 0x2EF3
    ||| 0x2F00 <= code <= 0x2FD5
    ||| 0x2FF0 <= code <= 0x303E
    ||| 0x3041 <= code <= 0x3096
    ||| 0x3099 <= code <= 0x30FF
    ||| 0x3105 <= code <= 0x312F
    ||| 0x3131 <= code <= 0x318E
    ||| 0x3190 <= code <= 0x31E3
    ||| 0x31EF <= code <= 0x321E
    ||| 0x3220 <= code <= 0x3247
    ||| 0x3250 <= code <= 0x4DBF
    ||| 0x4E00 <= code <= 0xA48C
    ||| 0xA490 <= code <= 0xA4C6
    ||| 0xA960 <= code <= 0xA97C
    ||| 0xAC00 <= code <= 0xD7A3
    ||| 0xF900 <= code <= 0xFAFF
    ||| 0xFE10 <= code <= 0xFE19
    ||| 0xFE30 <= code <= 0xFE52
    ||| 0xFE54 <= code <= 0xFE66
    ||| 0xFE68 <= code <= 0xFE6B
    ||| 0xFF01 <= code <= 0xFF60
    ||| 0xFFE0 <= code <= 0xFFE6
    ||| 0x16FE0 <= code <= 0x16FE4
    ||| 0x16FF0 <= code <= 0x16FF1
    ||| 0x17000 <= code <= 0x187F7
    ||| 0x18800 <= code <= 0x18CD5
    ||| 0x18D00 <= code <= 0x18D08
    ||| 0x1AFF0 <= code <= 0x1AFF3
    ||| 0x1AFF5 <= code <= 0x1AFFB
    ||| 0x1AFFD <= code <= 0x1AFFE
    ||| 0x1B000 <= code <= 0x1B122
    ||| code == 0x1B132
    ||| 0x1B150 <= code <= 0x1B152
    ||| code == 0x1B155
    ||| 0x1B164 <= code <= 0x1B167
    ||| 0x1B170 <= code <= 0x1B2FB
    ||| 0x20000 <= code <= 0x2FFFD
    ||| 0x30000 <= code <= 0x3FFFD
}

fn wide_script(code: u32) -> (result: bool)
    ensures
        result == is_wide_script(code),
{
    (0x1100 <= code && code <= 0x115F) || (0x2329 <= code && code <= 0x232A)
        || (0x2E80 <= code && code <= 0x2E99) || (0x2E9B <= code && code <= 0x2EF3)
        || (0x2F00 <= code && code <= 0x2FD5) || (0x2FF0 <= code && code <= 0x303E)
        || (0x3041 <= code && code <= 0x3096) || (0x3099 <= code && code <= 0x30FF)
        || (0x3105 <= code && code <= 0x312F) || (0x3131 <= code && code <= 0x318E)
        || (0x3190 <= code && code <= 0x31E3) || (0x31EF <= code && code <= 0x321E)
        || (0x3220 <= code && code <= 0x3247) || (0x3250 <= code && code <= 0x4DBF)
        || (0x4E00 <= code && code <= 0xA48C) || (0xA490 <= code && code <= 0xA4C6)
        || (0xA960 <= code && code <= 0xA97C) || (0xAC00 <= code && code <= 0xD7A3)
        || (0xF900 <= code && code <= 0xFAFF) || (0xFE10 <= code && code <= 0xFE19)
        || (0xFE30 <= code && code <= 0xFE52) || (0xFE54 <= code && code <= 0xFE66)
        || (0xFE68 <= code && code <= 0xFE6B) || (0xFF01 <= code && code <= 0xFF60)
        || (0xFFE0 <= code && code <= 0xFFE6) || (0x16FE0 <= code && code <= 0x16FE4)
        || (0x16FF0 <= code && code <= 0x16FF1) || (0x17000 <= code && code <= 0x187F7)
        || (0x18800 <= code && code <= 0x18CD5) || (0x18D00 <= code && code <= 0x18D08)
        || (0x1AFF0 <= code && code <= 0x1AFF3) || (0x1AFF5 <= code && code <= 0x1AFFB)
        || (0x1AFFD <= code && code <= 0x1AFFE) || (0x1B000 <= code && code <= 0x1B122) || code == 0x1B132
        || (0x1B150 <= code && code <= 0x1B152) || code == 0x1B155
        || (0x1B164 <= code && code <= 0x1B167) || (0x1B170 <= code && code <= 0x1B2FB)
        || (0x20000 <= code && code <= 0x2FFFD) || (0x30000 <= code && code <= 0x3FFFD)
}

/// A code of the symbols among the older ones that are drawn as pictures.
pub open spec fn is_wide_symbol(code: u32) -> bool {
    ||| 0x231A <= code <= 0x231B
    ||| 0x23E9 <= code <= 0x23EC
    ||| code == 0x23F0
    ||| code == 0x23F3
    ||| 0x25FD <= code <= 0x25FE
    ||| 0x2614 <= code <= 0x2615
    ||| 0x2648 <= code <= 0x2653
    ||| code == 0x267F
    ||| code == 0x2693
    ||| code == 0x26A1
    ||| 0x26AA <= code <= 0x26AB
    ||| 0x26BD <= code <= 0x26BE
    ||| 0x26C4 <= code <= 0x26C5
    ||| code == 0x26CE
    ||| code == 0x26D4
    ||| code == 0x26EA
    ||| 0x26F2 <= code <= 0x26F3
    ||| code == 0x26F5
    ||| code == 0x26FA
    ||| code == 0x26FD
    ||| code == 0x2705
    ||| 0x270A <= code <= 0x270B
    ||| code == 0x2728
    ||| code == 0x274C
    ||| code == 0x274E
    ||| 0x2753 <= code <= 0x2755
    ||| code == 0x2757
    ||| 0x2795 <= code <= 0x2797
    ||| code == 0x27B0
    ||| code == 0x27BF
    ||| 0x2B1B <= code <= 0x2B1C
    ||| code == 0x2B50
    ||| code == 0x2B55
}

fn wide_symbol(code: u32) -> (result: bool)
    ensures
        result == is_wide_symbol(code),
{
    (0x231A <= code && code <= 0x231B) || (0x23E9 <= code && code <= 0x23EC) || code == 0x23F0
        || code == 0x23F3 || (0x25FD <= code && code <= 0x25FE) || (0x2614 <= code && code <= 0x2615)
        || (0x2648 <= code && code <= 0x2653) || code == 0x267F || code == 0x2693 || code == 0x26A1
        || (0x26AA <= code && code <= 0x26AB) || (0x26BD <= code && code <= 0x26BE)
        || (0x26C4 <= code && code <= 0x26C5) || code == 0x26CE || code == 0x26D4 || code == 0x26EA
        || (0x26F2 <= code && code <= 0x26F3) || code == 0x26F5 || code == 0x26FA || code == 0x26FD
        || code == 0x2705 || (0x270A <= code && code <= 0x270B) || code == 0x2728 || code == 0x274C
        || code == 0x274E || (0x2753 <= code && code <= 0x2755) || code == 0x2757
        || (0x2795 <= code && code <= 0x2797) || code == 0x27B0 || code == 0x27BF
        || (0x2B1B <= code && code <= 0x2B1C) || code == 0x2B50 || code == 0x2B55
}

/// A code of the pictographs.
pub open spec fn is_wide_picture(code: u32) -> bool {
    ||| code == 0x1F004
    ||| code == 0x1F0CF
    ||| code == 0x1F18E
    ||| 0x1F191 <= code <= 0x1F19A
    ||| 0x1F200 <= code <= 0x1F202
    ||| 0x1F210 <= code <= 0x1F23B
    ||| 0x1F240 <= code <= 0x1F248
    ||| 0x1F250 <= code <= 0x1F251
    ||| 0x1F260 <= code <= 0x1F265
    ||| 0x1F300 <= code <= 0x1F320
    ||| 0x1F32D <= code <= 0x1F335
    ||| 0x1F337 <= code <= 0x1F37C
    ||| 0x1F37E <= code <= 0x1F393
    ||| 0x1F3A0 <= code <= 0x1F3CA
    ||| 0x1F3CF <= code <= 0x1F3D3
    ||| 0x1F3E0 <= code <= 0x1F3F0
    ||| code == 0x1F3F4
    ||| 0x1F3F8 <= code <= 0x1F43E
    ||| code == 0x1F440
    ||| 0x1F442 <= code <= 0x1F4FC
    ||| 0x1F4FF <= code <= 0x1F53D
    ||| 0x1F54B <= code <= 0x1F54E
    ||| 0x1F550 <= code <= 0x1F567
    ||| code == 0x1F57A
    ||| 0x1F595 <= code <= 0x1F596
    ||| code == 0x1F5A4
    ||| 0x1F5FB <= code <= 0x1F64F
    ||| 0x1F680 <= code <= 0x1F6C5
    ||| code == 0x1F6CC
    ||| 0x1F6D0 <= code <= 0x1F6D2
    ||| 0x1F6D5 <= code <= 0x1F6D7
    ||| 0x1F6DC <= code <= 0x1F6DF
    ||| 0x1F6EB <= code <= 0x1F6EC
    ||| 0x1F6F4 <= code <= 0x1F6FC
    ||| 0x1F7E0 <= code <= 0x1F7EB
    ||| code == 0x1F7F0
    ||| 0x1F90C <= code <= 0x1F93A
    ||| 0x1F93C <= code <= 0x1F945
    ||| 0x1F947 <= code <= 0x1F9FF
    ||| 0x1FA70 <= code <= 0x1FA7C
    ||| 0x1FA80 <= code <= 0x1FA88
    ||| 0x1FA90 <= code <= 0x1FABD
    ||| 0x1FABF <= code <= 0x1FAC5
    ||| 0x1FACE <= code <= 0x1FADB
    ||| 0x1FAE0 <= code <= 0x1FAE8
    ||| 0x1FAF0 <= code <= 0x1FAF8
}

fn wide_picture(code: u32) -> (result: bool)
    ensures
        result == is_wide_picture(code),
{
    code == 0x1F004 || code == 0x1F0CF || code == 0x1F18E || (0x1F191 <= code && code <= 0x1F19A)
        || (0x1F200 <= code && code <= 0x1F202) || (0x1F210 <= code && code <= 0x1F23B)
        || (0x1F240 <= code && code <= 0x1F248) || (0x1F250 <= code && code <= 0x1F251)
        || (0x1F260 <= code && code <= 0x1F265) || (0x1F300 <= code && code <= 0x1F320)
        || (0x1F32D <= code && code <= 0x1F335) || (0x1F337 <= code && code <= 0x1F37C)
        || (0x1F37E <= code && code <= 0x1F393) || (0x1F3A0 <= code && code <= 0x1F3CA)
        || (0x1F3CF <= code && code <= 0x1F3D3) || (0x1F3E0 <= code && code <= 0x1F3F0) || code == 0x1F3F4
        || (0x1F3F8 <= code && code <= 0x1F43E) || code == 0x1F440
        || (0x1F442 <= code && code <= 0x1F4FC) || (0x1F4FF <= code && code <= 0x1F53D)
        || (0x1F54B <= code && code <= 0x1F54E) || (0x1F550 <= code && code <= 0x1F567) || code == 0x1F57A
        || (0x1F595 <= code && code <= 0x1F596) || code == 0x1F5A4
        || (0x1F5FB <= code && code <= 0x1F64F) || (0x1F680 <= code && code <= 0x1F6C5) || code == 0x1F6CC
        || (0x1F6D0 <= code && code <= 0x1F6D2) || (0x1F6D5 <= code && code <= 0x1F6D7)
        || (0x1F6DC <= code && code <= 0x1F6DF) || (0x1F6EB <= code && code <= 0x1F6EC)
        || (0x1F6F4 <= code && code <= 0x1F6FC) || (0x1F7E0 <= code && code <= 0x1F7EB) || code == 0x1F7F0
        || (0x1F90C <= code && code <= 0x1F93A) || (0x1F93C <= code && code <= 0x1F945)
        || (0x1F947 <= code && code <= 0x1F9FF) || (0x1FA70 <= code && code <= 0x1FA7C)
        || (0x1FA80 <= code && code <= 0x1FA88) || (0x1FA90 <= code && code <= 0x1FABD)
        || (0x1FABF <= code && code <= 0x1FAC5) || (0x1FACE <= code && code <= 0x1FADB)
        || (0x1FAE0 <= code && code <= 0x1FAE8) || (0x1FAF0 <= code && code <= 0x1FAF8)
}

/// Whether a character takes two columns of a terminal: its East Asian width in Unicode is
/// wide or full-width.
pub open spec fn is_wide(c: char) -> bool {
    is_wide_script(c as u32) || is_wide_symbol(c as u32) || is_wide_picture(c as u32)
}

fn wide(c: char) -> (result: bool)
    ensures
        result == is_wide(c),
{
    let code: u32 = c as u32;
    wide_script(code) || wide_symbol(code) || wide_picture(code)
}

/// One past the last column of a line in which a cell stands.
pub open spec fn line_width(cells: Seq<(i32, usize, char)>, line: int) -> int
    decreases cells.len(),
{
    if cells.len() == 0 {
        0
    } else {
        let earlier = line_width(cells.drop_last(), line);
        if cells.last().0 == line && cells.last().1 >= earlier {
            cells.last().1 + 1
        } else {
            earlier
        }
    }
}

/// What the cells put in the columns of a line.
pub open spec fn line_columns(cells: Seq<(i32, usize, char)>, line: int) -> Seq<Option<char>> {
    Seq::new(line_width(cells, line) as nat, |column: int| cell_at(cells, line, column))
}

/// The characters of a line in the order of their columns. A column without a cell is a
/// space; but directly behind a wide character it is the other half of that one, and is
/// skipped.
pub open spec fn columns_text(columns: Seq<Option<char>>) -> Seq<char>
    decreases columns.len(),
{
    if columns.len() == 0 {
        Seq::empty()
    } else {
        let earlier = columns_text(columns.drop_last());
        match columns.last() {
            Some(c) => earlier.push(c),
            None => if is_spacer(columns, columns.len() - 1) {
                earlier
            } else {
                earlier.push(' ')
            },
        }
    }
}

/// Whether a column is the other half of the wide character before it.
pub open spec fn is_spacer(columns: Seq<Option<char>>, column: int) -> bool {
    column > 0 && columns[column] is None && columns[column - 1] is Some && is_wide(
        columns[column - 1]->0,
    )
}

/// A text with its trailing spaces cut off.
pub open spec fn without_trailing_spaces(text: Seq<char>) -> Seq<char>
    decreases text.len(),
{
    if text.len() > 0 && text.last() == ' ' {
        without_trailing_spaces(text.drop_last())
    } else {
        text
    }
}

fn row_text(columns: &Vec<Option<char>>) -> (text: String)
    ensures
        text@ == without_trailing_spaces(columns_text(columns@)),
{
    let mut chars: Vec<char> = Vec::new();
    let mut column: usize = 0;
    while column < columns.len()
        invariant
            column <= columns@.len(),
            chars@ == columns_text(columns@.take(column as int)),
        decreases columns@.len() - column,
    {
        let ghost read = columns@.take(column + 1);
        proof {
            assert(read.drop_last() =~= columns@.take(column as int));
            assert(read.last() == columns@[column as int]);
        }
        match columns[column] {
            Some(c) => {
                chars.push(c);
            },
            None => {
                let spacer = column > 0 && match columns[column - 1] {
                    Some(before) => wide(before),
                    None => false,
                };
                assert(spacer == is_spacer(read, column as int));
                if !spacer {
                    chars.push(' ');
                }
            },
        }
        column = column + 1;
    }
    assert(columns@.take(column as int) =~= columns@);
    let mut end: usize = chars.len();
    assert(chars@.take(end as int) =~= chars@);
    while end > 0 && chars[end - 1] == ' '
        invariant
            end <= chars@.len(),
            without_trailing_spaces(chars@) == without_trailing_spaces(chars@.take(end as int)),
        decreases end,
    {
        assert(chars@.take(end as int).last() == chars@[end - 1]);
        assert(chars@.take(end as int).drop_last() =~= chars@.take(end - 1));
        end = end - 1;
    }
    proof {
        if end > 0 {
            assert(chars@.take(end as int).last() == chars@[end - 1]);
        }
        assert(chars@.subrange(0, end as int) =~= chars@.take(end as int));
    }
    text_of(&chars, 0, end)
}

proof fn lemma_no_cell_past_the_width(cells: Seq<(i32, usize, char)>, line: int, column: int)
    ensures
        line_width(cells, line) >= 0,
        column >= line_width(cells, line) ==> cell_at(cells, line, column) is None,
    decreases cells.len(),
{
    if cells.len() > 0 {
        lemma_no_cell_past_the_width(cells.drop_last(), line, column);
    }
}

/// What a line's columns become with one more cell.
proof fn lemma_one_more_cell(cells: Seq<(i32, usize, char)>, line: int)
    requires
        cells.len() > 0,
    ensures
        ({
            let before = line_columns(cells.drop_last(), line);
            let after = line_columns(cells, line);
            let (at, column, character) = cells.last();
            if at == line {
                &&& after.len() == (if column < before.len() {
                    before.len() as int
                } else {
                    column + 1
                })
                &&& forall|k: int|
                    0 <= k < after.len() ==> #[trigger] after[k] == (if k == column {
                        Some(character)
                    } else if k < before.len() {
                        before[k]
                    } else {
                        None
                    })
            } else {
                after == before
            }
        }),
{
    let before = line_columns(cells.drop_last(), line);
    let after = line_columns(cells, line);
    lemma_no_cell_past_the_width(cells.drop_last(), line, 0);
    lemma_no_cell_past_the_width(cells, line, 0);
    if cells.last().0 == line {
        assert forall|k: int| 0 <= k < after.len() implies #[trigger] after[k] == (if k
            == cells.last().1 {
            Some(cells.last().2)
        } else if k < before.len() {
            before[k]
        } else {
            None
        }) by {
            lemma_no_cell_past_the_width(cells.drop_last(), line, k);
        }
    } else {
        assert(after =~= before);
    }
}

/// Builds `ScreenRow`s from what the terminal reports: cells with `line` in
/// `0..screen_lines` only (negative lines are scrollback), grouped by line, ordered by column.
/// Rows with no cells at all still appear (with empty text) so `row` stays the screen row.
pub fn screen_rows(cells: &[(i32, usize, char)], screen_lines: usize) -> (rows: Vec<ScreenRow>)
    ensures
        rows@.len() == screen_lines,
        forall|line: int|
            0 <= line < screen_lines ==> {
                &&& (#[trigger] rows@[line]).row == line
                &&& rows@[line].text@ == without_trailing_spaces(
                    columns_text(line_columns(cells@, line)),
                )
            },
{
    let mut lines: Vec<Vec<Option<char>>> = Vec::new();
    while lines.len() < screen_lines
        invariant
            lines@.len() <= screen_lines,
            forall|line: int|
                0 <= line < lines@.len() ==> (#[trigger] lines@[line])@ == Seq::<
                    Option<char>,
                >::empty(),
        decreases screen_lines - lines@.len(),
    {
        lines.push(Vec::new());
    }
    let mut i: usize = 0;
    assert forall|line: int| 0 <= line < screen_lines implies (#[trigger] lines@[line])@
        == line_columns(cells@.take(0), line) by {
        assert(line_columns(cells@.take(0), line) =~= Seq::empty());
    }
    while i < cells.len()
        invariant
            i <= cells@.len(),
            lines@.len() == screen_lines,
            forall|line: int|
                0 <= line < screen_lines ==> (#[trigger] lines@[line])@ == line_columns(
                    cells@.take(i as int),
                    line,
                ),
        decreases cells@.len() - i,
    {
        let (line, column, character) = cells[i];
        let ghost now = cells@.take(i + 1);
        let ghost before = lines@;
        proof {
            assert(now.drop_last() =~= cells@.take(i as int));
            assert(now.last() == cells@[i as int]);
        }
        if line >= 0 && (line as usize) < screen_lines {
            let at: usize = line as usize;
            let mut columns: Vec<Option<char>> = Vec::new();
            std::mem::swap(&mut columns, &mut lines[at]);
            let ghost old_columns = columns@;
            assert(old_columns == before[at as int]@);
            while columns.len() <= column
                invariant
                    columns@.len() >= old_columns.len(),
                    columns@.len() == old_columns.len() || columns@.len() <= column + 1,
                    forall|k: int|
                        0 <= k < columns@.len() ==> #[trigger] columns@[k] == (if k
                            < old_columns.len() {
                            old_columns[k]
                        } else {
                            None
                        }),
                decreases column + 1 - columns@.len(),
            {
                columns.push(None);
            }
            columns.set(column, Some(character));
            let ghost new_columns = columns@;
            std::mem::swap(&mut columns, &mut lines[at]);
            assert(lines@[at as int]@ == new_columns);
            proof {
                lemma_one_more_cell(now, at as int);
                assert(new_columns =~= line_columns(now, at as int));
            }
        }
        assert forall|l: int| 0 <= l < screen_lines implies (#[trigger] lines@[l])@
            == line_columns(now, l) by {
            lemma_one_more_cell(now, l);
            if l != line {
                assert(lines@[l] == before[l]);
            }
        }
        i = i + 1;
    }
    assert(cells@.take(i as int) =~= cells@);
    let mut rows: Vec<ScreenRow> = Vec::new();
    let mut row: usize = 0;
    while row < screen_lines
        invariant
            row <= screen_lines,
            lines@.len() == screen_lines,
            rows@.len() == row,
            forall|line: int|
                0 <= line < screen_lines ==> (#[trigger] lines@[line])@ == line_columns(
                    cells@,
                    line,
                ),
            forall|line: int|
                0 <= line < row ==> {
                    &&& (#[trigger] rows@[line]).row == line
                    &&& rows@[line].text@ == without_trailing_spaces(
                        columns_text(line_columns(cells@, line)),
                    )
                },
        decreases screen_lines - row,
    {
        let text = row_text(&lines[row]);
        rows.push(ScreenRow { row, text });
        row = row + 1;
    }
    rows
}

} // verus!
