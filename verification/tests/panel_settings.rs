use claude_sessions::settings::{
    configured_glyph, default_assistant_glyph, default_user_prompt_glyph, ClaudeSessionsSettings,
    ClaudeSessionsSettingsContent, DockSide, SettingsContent,
};

#[test]
fn glyph_settings_keep_one_character_and_fall_back_otherwise() {
    let defaults = ClaudeSessionsSettings::from_settings(&SettingsContent::default());
    assert_eq!(defaults.dock, DockSide::Left);
    assert_eq!(defaults.user_prompt_glyph, '>');
    assert_eq!(defaults.assistant_glyph, '⏺');

    let mut content = SettingsContent::default();
    content.claude_sessions = Some(ClaudeSessionsSettingsContent {
        user_prompt_glyph: Some("中".to_string()),
        assistant_glyph: Some("●".to_string()),
        ..Default::default()
    });
    let configured = ClaudeSessionsSettings::from_settings(&content);
    assert_eq!(configured.user_prompt_glyph, '中');
    assert_eq!(configured.assistant_glyph, '●');

    content.claude_sessions = Some(ClaudeSessionsSettingsContent {
        user_prompt_glyph: Some(" ".to_string()),
        assistant_glyph: Some(">>".to_string()),
        ..Default::default()
    });
    let mixed = ClaudeSessionsSettings::from_settings(&content);
    assert_eq!(mixed.user_prompt_glyph, ' ');
    assert_eq!(mixed.assistant_glyph, '⏺');

    content.claude_sessions = Some(ClaudeSessionsSettingsContent {
        user_prompt_glyph: Some(String::new()),
        assistant_glyph: None,
        ..Default::default()
    });
    let empty = ClaudeSessionsSettings::from_settings(&content);
    assert_eq!(empty.user_prompt_glyph, '>');
    assert_eq!(empty.assistant_glyph, '⏺');
}

#[test]
fn a_docked_side_is_kept_and_the_glyph_defaults_are_the_terminals() {
    let content = SettingsContent {
        claude_sessions: Some(ClaudeSessionsSettingsContent {
            dock: Some(DockSide::Right),
            user_prompt_glyph: None,
            assistant_glyph: None,
        }),
    };
    let settings = ClaudeSessionsSettings::from_settings(&content);
    assert_eq!(settings.dock, DockSide::Right);
    assert_eq!(settings.user_prompt_glyph, default_user_prompt_glyph());
    assert_eq!(settings.assistant_glyph, default_assistant_glyph());
    assert_eq!(configured_glyph(Some("é"), '>'), 'é');
    assert_eq!(configured_glyph(Some("e\u{301}"), '>'), '>');
    assert_eq!(configured_glyph(None, '>'), '>');
}
