use claude_sessions::terminal_anchors::{
    align, anchor_rows, rows_match, screen_rows, skeleton, AnchorGlyph, AnchorRow, Anchoring, Glyphs, ScreenRow,
    TranscriptAnchor, MAX_TRANSCRIPT_ANCHORS, MIN_SKELETON,
};

fn screen(row: usize, text: &str) -> ScreenRow {
    ScreenRow {
        row,
        text: text.to_string(),
    }
}

fn anchor(row: usize, glyph: AnchorGlyph, text: &str) -> AnchorRow {
    AnchorRow {
        row,
        glyph,
        text: text.to_string(),
    }
}

fn sample(key: &str, glyph: AnchorGlyph, text: &str) -> TranscriptAnchor {
    TranscriptAnchor {
        key: key.to_string(),
        glyph,
        text: text.to_string(),
    }
}

#[test]
fn skeleton_drops_markup_and_keeps_unicode_letters() {
    assert_eq!(skeleton("**Done.** I fixed the bug"), "doneifixedthebug");
    assert_eq!(skeleton("# Heading"), "heading");
    assert_eq!(skeleton("`code`"), "code");
    assert_eq!(skeleton("- item"), "item");
    assert_eq!(skeleton("修復登入"), "修復登入");
    assert_eq!(skeleton("fix-the_bug"), skeleton("fixthebug"));
    // Lowercasing does not expand ß; "SS" lowercases to "ss".
    assert_eq!(skeleton("ß"), "ß");
    assert_eq!(skeleton("SS"), "ss");
    assert_eq!(skeleton("row 12"), "row12");
    assert_eq!(skeleton(""), "");
}

#[test]
fn anchor_rows_require_a_real_space_and_keep_short_text() {
    let glyphs = Glyphs::default();
    let rows = [
        screen(0, "> fix the login bug"),
        screen(1, "  ⏺ I'll look at auth.rs first."),
        screen(2, "⏺ Read(auth.rs)"),
        screen(3, "  continuation of the edit"),
        screen(4, "⎿ Read 250 lines (ctrl+o to expand)"),
        screen(5, "> "),
        screen(6, ">\tnot an anchor"),
        screen(7, "\t> tabbed"),
        screen(8, ">   hello  "),
        screen(9, "⏺text"),
        screen(10, "> ......"),
        screen(11, "hello > world"),
        screen(12, "> a"),
    ];
    assert_eq!(
        anchor_rows(&rows, &glyphs),
        vec![
            anchor(0, AnchorGlyph::UserPrompt, "fix the login bug"),
            anchor(1, AnchorGlyph::Assistant, "I'll look at auth.rs first."),
            anchor(2, AnchorGlyph::Assistant, "Read(auth.rs)"),
            anchor(8, AnchorGlyph::UserPrompt, "hello"),
            anchor(10, AnchorGlyph::UserPrompt, "......"),
            anchor(12, AnchorGlyph::UserPrompt, "a"),
        ]
    );
}

#[test]
fn swapped_glyphs_stop_matching_the_claude_defaults() {
    let glyphs = Glyphs {
        user_prompt: '❯',
        assistant: '●',
    };
    let rows = [
        screen(0, "> fix"),
        screen(1, "❯ fix"),
        screen(2, "● Read(auth.rs)"),
    ];
    assert_eq!(
        anchor_rows(&rows, &glyphs),
        vec![
            anchor(1, AnchorGlyph::UserPrompt, "fix"),
            anchor(2, AnchorGlyph::Assistant, "Read(auth.rs)"),
        ]
    );
}

#[test]
fn identical_glyphs_are_user_prompts() {
    let glyphs = Glyphs {
        user_prompt: 'X',
        assistant: 'X',
    };
    assert_eq!(
        anchor_rows(&[screen(0, "X hello")], &glyphs),
        vec![anchor(0, AnchorGlyph::UserPrompt, "hello")]
    );
}

#[test]
fn rows_match_uses_prefix_at_six_and_equality_under_it() {
    let assistant = AnchorGlyph::Assistant;
    let long = anchor(0, assistant, &"a".repeat(MIN_SKELETON + 1));
    let exact = anchor(0, assistant, &"a".repeat(MIN_SKELETON));
    let short = anchor(0, assistant, &"a".repeat(MIN_SKELETON - 1));
    let transcript_long = sample("k", assistant, &"a".repeat(MIN_SKELETON + 4));
    let transcript_exact = sample("k", assistant, &"a".repeat(MIN_SKELETON));
    let transcript_short = sample("k", assistant, &"a".repeat(MIN_SKELETON - 1));

    assert!(rows_match(&exact, &transcript_long));
    assert!(rows_match(&long, &transcript_exact));
    assert!(rows_match(&short, &transcript_short));
    assert!(!rows_match(&short, &transcript_long));
    assert!(!rows_match(
        &anchor(0, AnchorGlyph::UserPrompt, &"a".repeat(MIN_SKELETON)),
        &transcript_exact
    ));

    let chinese_short = anchor(0, assistant, "修復錯誤");
    let chinese_longer = sample("k", assistant, "修復錯誤了");
    let chinese_six = anchor(0, assistant, "修復錯誤問題");
    let chinese_eight = sample("k", assistant, "修復錯誤問題額外");
    assert!(!rows_match(&chinese_short, &chinese_longer));
    assert!(rows_match(&chinese_six, &chinese_eight));
}

#[test]
fn empty_skeletons_do_not_match_each_other() {
    let assistant = AnchorGlyph::Assistant;
    // `✅`, `---`, and `🎉` all drop to "" because skeleton keeps only
    // alphanumerics. Equal empty strings used to pair any symbol-only row
    // with any other.
    assert!(!rows_match(
        &anchor(0, assistant, "✅"),
        &sample("dash", assistant, "---")
    ));
    assert!(!rows_match(
        &anchor(1, assistant, "🎉"),
        &sample("check", assistant, "✅")
    ));
    assert!(!rows_match(
        &anchor(2, assistant, "✅"),
        &sample("same", assistant, "✅")
    ));
    assert!(
        align(
            &[anchor(0, assistant, "✅"), anchor(1, assistant, "---"),],
            &[sample("a", assistant, "---"), sample("b", assistant, "🎉"),],
        )
        .is_empty()
    );
}

#[test]
fn one_empty_skeleton_still_mismatches_only_when_the_other_side_differs() {
    let assistant = AnchorGlyph::Assistant;
    // One side empty was already a length mismatch. The both-empty rule
    // must leave that, and must leave a short equal pair, alone.
    assert!(!rows_match(
        &anchor(0, assistant, "✅"),
        &sample("word", assistant, "hello")
    ));
    assert!(!rows_match(
        &anchor(0, assistant, "hello"),
        &sample("marks", assistant, "---")
    ));
    assert!(rows_match(
        &anchor(0, assistant, "ab"),
        &sample("k", assistant, "ab")
    ));
    assert!(rows_match(
        &anchor(0, assistant, "hello"),
        &sample("k", assistant, "hello")
    ));
    assert!(rows_match(
        &anchor(0, assistant, "abcdef"),
        &sample("k", assistant, "abcdefgh")
    ));
}

#[test]
fn align_prefers_the_newest_transcript_anchors() {
    let assistant = AnchorGlyph::Assistant;
    let screen = [
        anchor(0, assistant, "bbbbbb"),
        anchor(1, assistant, "aaaaaa"),
    ];
    let transcript = [
        sample("A", assistant, "aaaaaa"),
        sample("B", assistant, "bbbbbb"),
    ];
    assert_eq!(
        align(&screen, &transcript),
        vec![Anchoring {
            row: 0,
            key: "B".to_string(),
        }]
    );

    let repeated = [
        anchor(0, assistant, "Read(auth.rs)"),
        anchor(1, assistant, "Read(auth.rs)"),
    ];
    let copies = ["k1", "k2", "k3"]
        .into_iter()
        .map(|key| sample(key, assistant, "Read(auth.rs)"))
        .collect::<Vec<_>>();
    assert_eq!(
        align(&repeated, &copies),
        vec![
            Anchoring {
                row: 0,
                key: "k2".to_string(),
            },
            Anchoring {
                row: 1,
                key: "k3".to_string(),
            },
        ]
    );
}

#[test]
fn align_keeps_an_older_anchor_when_that_makes_a_longer_match() {
    let assistant = AnchorGlyph::Assistant;
    let screen = [
        anchor(0, assistant, "oldunique"),
        anchor(4, assistant, "newunique"),
    ];
    let transcript = [
        sample("old", assistant, "oldunique"),
        sample("skip", assistant, "nomatchhere"),
        sample("new", assistant, "newunique"),
    ];
    assert_eq!(
        align(&screen, &transcript),
        vec![
            Anchoring {
                row: 0,
                key: "old".to_string(),
            },
            Anchoring {
                row: 4,
                key: "new".to_string(),
            },
        ]
    );
}

#[test]
fn align_considers_only_the_last_transcript_window() {
    let assistant = AnchorGlyph::Assistant;
    let mut transcript = Vec::new();
    transcript.push(sample("dropped", assistant, "uniqueoldanchor"));
    for index in 0..MAX_TRANSCRIPT_ANCHORS {
        transcript.push(sample(
            &format!("kept-{index}"),
            assistant,
            "othertextvalue",
        ));
    }
    // The oldest of the kept window is `kept-0`, which is still inside the 512.
    transcript[1] = sample("kept-0", assistant, "oldestkeptanchor");

    assert!(align(&[anchor(0, assistant, "uniqueoldanchor")], &transcript).is_empty());
    assert_eq!(
        align(&[anchor(3, assistant, "oldestkeptanchor")], &transcript),
        vec![Anchoring {
            row: 3,
            key: "kept-0".to_string(),
        }]
    );
}

#[test]
fn screen_rows_fill_holes_and_keep_empty_lines() {
    let rows = screen_rows(
        &[
            (-1, 0, 'z'),
            (1, 3, 'b'),
            (1, 0, 'a'),
            (1, 0, 'A'),
            (0, 0, 'q'),
            (0, 2, ' '),
            (4, 0, 'x'),
            (2, 1, 'c'),
        ],
        4,
    );
    assert_eq!(
        rows,
        vec![
            screen(0, "q"),
            screen(1, "A  b"),
            screen(2, " c"),
            screen(3, ""),
        ]
    );
}
