//! The panel's own settings.
use crate::text::{chars_of, text_option};
use crate::transcript::str_option;
use vstd::prelude::*;

verus! {

/// The side of the window that a panel is docked to.
#[derive(Clone, Copy, Debug, PartialEq, Eq, Structural)]
pub enum DockSide {
    Left,
    Right,
}

/// The panel's settings as a settings file holds them.
pub struct ClaudeSessionsSettingsContent {
    pub dock: Option<DockSide>,
    pub user_prompt_glyph: Option<String>,
    pub assistant_glyph: Option<String>,
}

impl Default for ClaudeSessionsSettingsContent {
    fn default() -> (content: ClaudeSessionsSettingsContent)
        ensures
            content.dock is None,
            content.user_prompt_glyph is None,
            content.assistant_glyph is None,
    {
        ClaudeSessionsSettingsContent { dock: None, user_prompt_glyph: None, assistant_glyph: None }
    }
}

/// A settings file.
pub struct SettingsContent {
    pub claude_sessions: Option<ClaudeSessionsSettingsContent>,
}

impl Default for SettingsContent {
    fn default() -> (content: SettingsContent)
        ensures
            content.claude_sessions is None,
    {
        SettingsContent { claude_sessions: None }
    }
}

/// The panel's own settings. Its dock side lives here rather than in the panel, so that
/// the side the user dragged it to is still there after a restart — the same place every
/// other panel keeps it.
#[derive(Debug, Clone, Copy, PartialEq, Eq, Structural)]
pub struct ClaudeSessionsSettings {
    pub dock: DockSide,
    pub user_prompt_glyph: char,
    pub assistant_glyph: char,
}

pub fn default_user_prompt_glyph() -> (glyph: char)
    ensures
        glyph == '>',
{
    '>'
}

pub fn default_assistant_glyph() -> (glyph: char)
    ensures
        glyph == '⏺',
{
    '⏺'
}

/// The one character of a text that has one, or else the default.
pub open spec fn glyph_or(value: Option<Seq<char>>, default: char) -> char {
    match value {
        Some(value) if value.len() == 1 => value[0],
        _ => default,
    }
}

/// A settings value is one terminal cell. Empty and multi-character strings are not
/// glyphs, so they keep the default; a single character, including a space or a
/// non-ASCII letter, is used as written.
pub fn configured_glyph(value: Option<&str>, default: char) -> (glyph: char)
    ensures
        glyph == glyph_or(str_option(value), default),
{
    match value {
        Some(value) => {
            let chars = chars_of(value);
            if chars.len() == 1 {
                chars[0]
            } else {
                default
            }
        },
        None => default,
    }
}

fn glyph_of(value: &Option<String>, default: char) -> (glyph: char)
    ensures
        glyph == glyph_or(text_option(*value), default),
{
    match value {
        Some(value) => configured_glyph(Some(value.as_str()), default),
        None => default,
    }
}

impl ClaudeSessionsSettings {
    pub open spec fn of(content: SettingsContent) -> ClaudeSessionsSettings {
        match content.claude_sessions {
            Some(sessions) => ClaudeSessionsSettings {
                dock: match sessions.dock {
                    Some(dock) => dock,
                    None => DockSide::Left,
                },
                user_prompt_glyph: glyph_or(text_option(sessions.user_prompt_glyph), '>'),
                assistant_glyph: glyph_or(text_option(sessions.assistant_glyph), '⏺'),
            },
            None => ClaudeSessionsSettings {
                dock: DockSide::Left,
                user_prompt_glyph: '>',
                assistant_glyph: '⏺',
            },
        }
    }

    /// The settings that a settings file comes to.
    ///
    /// The left-hand dock is the default because the project panel defaults to the
    /// right one, and a panel sharing a dock with it would take turns being the
    /// visible one rather than being readable beside it. A settings file too old
    /// to carry the key at all gets that same answer rather than a panic.
    pub fn from_settings(content: &SettingsContent) -> (settings: ClaudeSessionsSettings)
        ensures
            settings == ClaudeSessionsSettings::of(*content),
    {
        match &content.claude_sessions {
            Some(sessions) => ClaudeSessionsSettings {
                dock: match sessions.dock {
                    Some(dock) => dock,
                    None => DockSide::Left,
                },
                user_prompt_glyph: glyph_of(
                    &sessions.user_prompt_glyph,
                    default_user_prompt_glyph(),
                ),
                assistant_glyph: glyph_of(&sessions.assistant_glyph, default_assistant_glyph()),
            },
            None => ClaudeSessionsSettings {
                dock: DockSide::Left,
                user_prompt_glyph: default_user_prompt_glyph(),
                assistant_glyph: default_assistant_glyph(),
            },
        }
    }
}

} // verus!
