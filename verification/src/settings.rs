//! The settings of the application.
use crate::errors::{invalid, DispatchError};
use crate::text::{holds_char, opt_text, text_eq, trim_text, trimmed};
use vstd::prelude::*;
use vstd::string::*;
use vstd::utf8::*;

verus! {

/// The keys that start an action.
#[derive(Debug)]
pub struct Shortcut {
    pub action: String,
    pub keys: String,
}

/// The settings of the application, but for the scale of its text.
#[derive(Debug)]
pub struct ReviewSettings {
    pub last_workspace_id: Option<String>,
    pub left_width: u32,
    pub right_width: u32,
    pub left_collapsed: bool,
    pub right_collapsed: bool,
    pub fetch_on_review: bool,
    pub theme: String,
    pub code_font: String,
    pub external_editor: String,
    pub tab_width: u8,
    pub show_whitespace: bool,
    pub wrap_lines: bool,
    pub vim_navigation: bool,
    pub prompt_path_style: String,
    pub prompt_include_diff_hunks: bool,
    pub prompt_include_git_state: bool,
    pub shortcuts: Vec<Shortcut>,
}

/// What a shortcut says.
pub open spec fn says(shortcut: Shortcut, action: Seq<char>, keys: Seq<char>) -> bool {
    shortcut.action@ == action && shortcut.keys@ == keys
}

fn shortcut(action: &str, keys: &str) -> (shortcut: Shortcut)
    ensures
        says(shortcut, action@, keys@),
{
    Shortcut { action: action.to_owned(), keys: keys.to_owned() }
}

/// Whether settings are those of a new installation.
pub open spec fn is_default(settings: ReviewSettings) -> bool {
    &&& settings.last_workspace_id is None
    &&& settings.left_width == 244
    &&& settings.right_width == 332
    &&& !settings.left_collapsed
    &&& !settings.right_collapsed
    &&& !settings.fetch_on_review
    &&& settings.theme@ == "dark"@
    &&& settings.code_font@ == "SF Mono"@
    &&& settings.external_editor@ == "system"@
    &&& settings.tab_width == 2
    &&& !settings.show_whitespace
    &&& !settings.wrap_lines
    &&& !settings.vim_navigation
    &&& settings.prompt_path_style@ == "absolute"@
    &&& !settings.prompt_include_diff_hunks
    &&& !settings.prompt_include_git_state
    &&& settings.shortcuts@.len() == 6
    &&& says(settings.shortcuts@[0], "commandPalette"@, "Meta+Shift+P"@)
    &&& says(settings.shortcuts@[1], "filePicker"@, "Meta+P"@)
    &&& says(settings.shortcuts@[2], "focusQuestion"@, "Meta+Shift+Q"@)
    &&& says(settings.shortcuts@[3], "nextHunk"@, "Alt+ArrowDown"@)
    &&& says(settings.shortcuts@[4], "previousHunk"@, "Alt+ArrowUp"@)
    &&& says(settings.shortcuts@[5], "saveAnnotation"@, "Meta+Enter"@)
}

impl Default for ReviewSettings {
    fn default() -> (settings: ReviewSettings)
        ensures
            is_default(settings),
    {
        let mut shortcuts: Vec<Shortcut> = Vec::new();
        shortcuts.push(shortcut("commandPalette", "Meta+Shift+P"));
        shortcuts.push(shortcut("filePicker", "Meta+P"));
        shortcuts.push(shortcut("focusQuestion", "Meta+Shift+Q"));
        shortcuts.push(shortcut("nextHunk", "Alt+ArrowDown"));
        shortcuts.push(shortcut("previousHunk", "Alt+ArrowUp"));
        shortcuts.push(shortcut("saveAnnotation", "Meta+Enter"));
        ReviewSettings {
            last_workspace_id: None,
            left_width: 244,
            right_width: 332,
            left_collapsed: false,
            right_collapsed: false,
            fetch_on_review: false,
            theme: "dark".to_owned(),
            code_font: "SF Mono".to_owned(),
            external_editor: "system".to_owned(),
            tab_width: 2,
            show_whitespace: false,
            wrap_lines: false,
            vim_navigation: false,
            prompt_path_style: "absolute".to_owned(),
            prompt_include_diff_hunks: false,
            prompt_include_git_state: false,
            shortcuts,
        }
    }
}

/// Whether a text holds an end of line or a NUL.
pub open spec fn breaks_line(text: Seq<char>) -> bool {
    text.contains('\0') || text.contains('\n') || text.contains('\r')
}

/// Whether a text holds an end of line or a NUL.
pub fn holds_line_break(text: &str) -> (found: bool)
    ensures
        found == breaks_line(text@),
{
    holds_char(text, '\0') || holds_char(text, '\n') || holds_char(text, '\r')
}

/// A number within two bounds.
pub open spec fn clamped(value: u32, low: u32, high: u32) -> u32 {
    if value < low {
        low
    } else if value > high {
        high
    } else {
        value
    }
}

fn clamp(value: u32, low: u32, high: u32) -> (result: u32)
    ensures
        result == clamped(value, low, high),
{
    if value < low {
        low
    } else if value > high {
        high
    } else {
        value
    }
}

/// The id of the last workspace, without white space around it; `None` where
/// nothing is left of it.
pub open spec fn tidy_workspace_id(id: Option<String>) -> Option<Seq<char>> {
    match id {
        Some(text) => if trimmed(text@).len() == 0 {
            None
        } else {
            Some(trimmed(text@))
        },
        None => None,
    }
}

/// Whether a text names a theme.
pub open spec fn is_theme(text: Seq<char>) -> bool {
    text == "dark"@ || text == "light"@ || text == "system"@
}

/// Whether a text names an editor.
pub open spec fn is_editor(text: Seq<char>) -> bool {
    text == "system"@ || text == "vscode"@ || text == "cursor"@ || text == "zed"@ || text
        == "sublime"@ || text == "idea"@
}

/// Whether a text names how prompts write paths.
pub open spec fn is_path_style(text: Seq<char>) -> bool {
    text == "portable"@ || text == "qualified"@ || text == "absolute"@
}

/// Whether a text can be part of a shortcut.
pub open spec fn is_shortcut_text(text: Seq<char>) -> bool {
    &&& 0 < encode_utf8(text).len() <= 64
    &&& !breaks_line(text)
}

/// How many shortcuts there are at most.
pub const MAX_SHORTCUTS: usize = 64;

/// Whether shortcuts are in order.
pub open spec fn are_shortcuts(shortcuts: Seq<Shortcut>) -> bool {
    &&& shortcuts.len() <= MAX_SHORTCUTS
    &&& forall|i: int|
        0 <= i < shortcuts.len() ==> is_shortcut_text((#[trigger] shortcuts[i]).action@)
            && is_shortcut_text(shortcuts[i].keys@)
}

/// Why settings are refused.
pub open spec fn settings_problem(settings: ReviewSettings) -> Option<Seq<char>> {
    let font = trimmed(settings.code_font@);
    if tidy_workspace_id(settings.last_workspace_id) matches Some(id) && (encode_utf8(id).len() > 128
        || breaks_line(id)) {
        Some("last workspace id is invalid"@)
    } else if !is_theme(settings.theme@) {
        Some("theme must be dark, light, or system"@)
    } else if encode_utf8(font).len() == 0 || encode_utf8(font).len() > 128 || breaks_line(font) {
        Some("code font is invalid"@)
    } else if !is_editor(settings.external_editor@) {
        Some("external editor must be system, vscode, cursor, zed, sublime, or idea"@)
    } else if settings.tab_width != 2 && settings.tab_width != 4 && settings.tab_width != 8 {
        Some("tab width must be 2, 4, or 8"@)
    } else if !is_path_style(settings.prompt_path_style@) {
        Some("prompt path style must be portable, qualified, or absolute"@)
    } else if !are_shortcuts(settings.shortcuts@) {
        Some("keyboard shortcut settings are invalid"@)
    } else {
        None
    }
}

fn is_tidy_shortcut_text(text: &str) -> (tidy: bool)
    ensures
        tidy == is_shortcut_text(text@),
{
    let length: usize = text.as_bytes().len();
    0 < length && length <= 64 && !holds_line_break(text)
}

fn shortcuts_in_order(shortcuts: &Vec<Shortcut>) -> (in_order: bool)
    ensures
        in_order == are_shortcuts(shortcuts@),
{
    if shortcuts.len() > MAX_SHORTCUTS {
        return false;
    }
    let mut i: usize = 0;
    while i < shortcuts.len()
        invariant
            i <= shortcuts.len() <= MAX_SHORTCUTS,
            forall|j: int|
                0 <= j < i ==> is_shortcut_text((#[trigger] shortcuts@[j]).action@)
                    && is_shortcut_text(shortcuts@[j].keys@),
        decreases shortcuts.len() - i,
    {
        if !is_tidy_shortcut_text(shortcuts[i].action.as_str()) || !is_tidy_shortcut_text(
            shortcuts[i].keys.as_str(),
        ) {
            assert(!(is_shortcut_text(shortcuts@[i as int].action@) && is_shortcut_text(
                shortcuts@[i as int].keys@,
            )));
            return false;
        }
        i += 1;
    }
    true
}

/// Whether settings are the given ones, tidied up: the panes have a width
/// within their bounds, and no white space stands around the font and the
/// last workspace.
pub open spec fn is_tidied(tidy: ReviewSettings, settings: ReviewSettings) -> bool {
    &&& opt_text(tidy.last_workspace_id) == tidy_workspace_id(settings.last_workspace_id)
    &&& tidy.code_font@ == trimmed(settings.code_font@)
    &&& tidy == (ReviewSettings {
        last_workspace_id: tidy.last_workspace_id,
        code_font: tidy.code_font,
        left_width: clamped(settings.left_width, 180, 420),
        right_width: clamped(settings.right_width, 240, 520),
        ..settings
    })
}

/// Checks settings and tidies them up.
#[verifier::rlimit(60)]
pub fn save_settings(settings: ReviewSettings) -> (result: Result<ReviewSettings, DispatchError>)
    ensures
        match settings_problem(settings) {
            Some(problem) => result matches Err(error) && error.is_invalid(problem),
            None => result matches Ok(tidy) && is_tidied(tidy, settings),
        },
{
    let mut tidy = settings;
    let last: Option<String> = match &tidy.last_workspace_id {
        Some(text) => {
            let id = trim_text(text.as_str());
            if id.as_str().is_empty() {
                None
            } else {
                Some(id)
            }
        },
        None => None,
    };
    match &last {
        Some(id) => {
            if id.as_str().as_bytes().len() > 128 || holds_line_break(id.as_str()) {
                return Err(invalid("last workspace id is invalid"));
            }
        },
        None => {},
    }
    tidy.last_workspace_id = last;
    tidy.left_width = clamp(tidy.left_width, 180, 420);
    tidy.right_width = clamp(tidy.right_width, 240, 520);
    let theme: &str = tidy.theme.as_str();
    if !text_eq(theme, "dark") && !text_eq(theme, "light") && !text_eq(theme, "system") {
        return Err(invalid("theme must be dark, light, or system"));
    }
    let font = trim_text(tidy.code_font.as_str());
    let font_bytes: usize = font.as_str().as_bytes().len();
    if font_bytes == 0 || font_bytes > 128 || holds_line_break(font.as_str()) {
        return Err(invalid("code font is invalid"));
    }
    tidy.code_font = font;
    let editor: &str = tidy.external_editor.as_str();
    if !text_eq(editor, "system") && !text_eq(editor, "vscode") && !text_eq(editor, "cursor")
        && !text_eq(editor, "zed") && !text_eq(editor, "sublime") && !text_eq(editor, "idea") {
        return Err(
            invalid("external editor must be system, vscode, cursor, zed, sublime, or idea"),
        );
    }
    if tidy.tab_width != 2 && tidy.tab_width != 4 && tidy.tab_width != 8 {
        return Err(invalid("tab width must be 2, 4, or 8"));
    }
    let style: &str = tidy.prompt_path_style.as_str();
    if !text_eq(style, "portable") && !text_eq(style, "qualified") && !text_eq(style, "absolute") {
        return Err(invalid("prompt path style must be portable, qualified, or absolute"));
    }
    if !shortcuts_in_order(&tidy.shortcuts) {
        return Err(invalid("keyboard shortcut settings are invalid"));
    }
    Ok(tidy)
}

/// Whether settings say the same.
pub open spec fn same_settings(a: ReviewSettings, b: ReviewSettings) -> bool {
    &&& opt_text(a.last_workspace_id) == opt_text(b.last_workspace_id)
    &&& a.code_font@ == b.code_font@
    &&& a == (ReviewSettings {
        last_workspace_id: a.last_workspace_id,
        code_font: a.code_font,
        ..b
    })
}

/// Settings that were saved are within their bounds, can be saved again, and
/// are then stored as they were: what is read back and saved changes nothing.
pub proof fn law_saved_settings_are_accepted(
    tidy: ReviewSettings,
    settings: ReviewSettings,
    again: ReviewSettings,
)
    requires
        settings_problem(settings) is None,
        is_tidied(tidy, settings),
    ensures
        settings_problem(tidy) is None,
        180 <= tidy.left_width <= 420,
        240 <= tidy.right_width <= 520,
        is_tidied(again, tidy) ==> same_settings(again, tidy),
{
    crate::text::lemma_trimmed_twice(settings.code_font@);
    if settings.last_workspace_id is Some {
        crate::text::lemma_trimmed_twice(settings.last_workspace_id->0@);
    }
}

/// Forgets the last workspace where it is the one that goes away, and says
/// whether it was.
pub fn forget_workspace(settings: &mut ReviewSettings, workspace_id: &str) -> (forgotten: bool)
    ensures
        forgotten == (opt_text(old(settings).last_workspace_id) == Some(workspace_id@)),
        *final(settings) == if forgotten {
            (ReviewSettings { last_workspace_id: None, ..*old(settings) })
        } else {
            *old(settings)
        },
{
    let same: bool = match &settings.last_workspace_id {
        Some(id) => text_eq(id.as_str(), workspace_id),
        None => false,
    };
    if same {
        settings.last_workspace_id = None;
    }
    same
}

} // verus!
