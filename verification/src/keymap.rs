//! What a key press does in the interactive browser: which layer of the
//! screen takes the key (help, the popups, the input lines, the search line or
//! the list), and which action it asks for there. The terminal loop reads the
//! key, asks here, and performs the action.
use vstd::prelude::*;

verus! {

/// The key itself, without its modifiers.
#[derive(Debug, Clone, Copy, PartialEq, Eq, Structural)]
pub enum KeyCode {
    Char(char),
    Enter,
    Esc,
    Tab,
    Backspace,
    Up,
    Down,
    /// Any other key (function keys, Home, arrows left and right, ...).
    Other,
}

/// A key press: the key and the modifiers held with it. `meta` stands for
/// any modifier besides Control, Alt and Shift (Super, Hyper, Meta).
#[derive(Debug, Clone, Copy, PartialEq, Eq, Structural)]
pub struct Key {
    pub code: KeyCode,
    pub ctrl: bool,
    pub alt: bool,
    pub shift: bool,
    pub meta: bool,
}

/// What is on screen when the key arrives, as far as the key's meaning
/// depends on it.
#[derive(Debug, Clone, Copy, PartialEq, Eq, Structural)]
pub struct KeyContext {
    pub show_help: bool,
    pub validate_popup: bool,
    pub semantic_input: bool,
    pub add_input: bool,
    pub enrich_preview: bool,
    pub tag_popup: bool,
    pub theme_popup: bool,
    /// The search line has the focus (else the list has it).
    pub searching: bool,
    /// The full-screen preview is open.
    pub preview_overlay: bool,
    /// The list shows semantic-search results.
    pub semantic_view: bool,
    /// The text filter is empty.
    pub filter_empty: bool,
}

/// What the key asks for.
#[derive(Debug, Clone, Copy, PartialEq, Eq, Structural)]
pub enum Action {
    /// Nothing: the key means nothing here.
    Ignore,
    Quit,
    CloseHelp,
    ShowHelp,
    // The validation report.
    CloseValidate,
    ValidateScrollDown(u16),
    ValidateScrollUp(u16),
    // The semantic query line.
    CloseSemanticInput,
    SubmitSemantic,
    SemanticPop,
    SemanticPush(char),
    // The add line.
    CloseAddInput,
    SubmitAdd,
    /// The add line's text becomes the filter and the search line gets the
    /// focus.
    AddInputToSearch,
    AddPop,
    AddPush(char),
    // The enrich preview.
    ApplyEnrich,
    SkipEnrich,
    FinishEnrich,
    EnrichScrollDown,
    EnrichScrollUp,
    // The tag picker.
    /// Close the picker and restore the tag filter it started with.
    CancelTagPopup,
    /// Close the picker and keep the tag it shows.
    CloseTagPopup,
    TagUp,
    TagDown,
    TagPageUp,
    TagPageDown,
    TagFilterPop,
    TagFilterPush(char),
    // The theme picker.
    CloseThemePopup,
    ThemeUp,
    ThemeDown,
    // The search line.
    /// The list gets the focus back.
    LeaveSearch,
    /// The filter's text becomes the semantic query line.
    SearchToSemantic,
    /// The filter's text becomes the add line.
    SearchToAdd,
    FilterPush(char),
    FilterPop,
    // Moving in the list.
    MoveUp,
    MoveDown,
    HalfPageUp,
    HalfPageDown,
    PageUp,
    PageDown,
    MoveToTop,
    MoveToBottom,
    // The list.
    OpenTagPopup,
    OpenThemePopup,
    CloseOverlay,
    ToggleOverlay,
    ClearSemantic,
    OpenSemanticInput,
    StartSearch,
    NextLayout,
    ClearFilters,
    Select,
    Edit,
    CopyBib,
    OpenUrl,
    OpenAddInput,
    EnrichSelected,
    EnrichAll,
    Dedup,
    Reindex,
    Validate,
    NextSort,
    ReverseSort,
    PreviewScrollDown(u16),
    PreviewScrollUp(u16),
}

/// No modifier at all.
pub open spec fn bare(k: Key) -> bool {
    !k.ctrl && !k.alt && !k.shift && !k.meta
}

/// Shift alone, or no modifier.
pub open spec fn bare_or_shift(k: Key) -> bool {
    !k.ctrl && !k.alt && !k.meta
}

/// Control alone.
pub open spec fn ctrl_only(k: Key) -> bool {
    k.ctrl && !k.alt && !k.shift && !k.meta
}

/// Alt alone.
pub open spec fn alt_only(k: Key) -> bool {
    !k.ctrl && k.alt && !k.shift && !k.meta
}

pub open spec fn is_char(k: Key, c: char) -> bool {
    k.code == KeyCode::Char(c)
}

/// The validation report: Esc, `q` or Enter close it; `j`/`k` and the
/// arrows scroll a line, Ctrl-D/Ctrl-U ten.
pub open spec fn validate_key(k: Key) -> Action {
    if k.code == KeyCode::Esc || is_char(k, 'q') || k.code == KeyCode::Enter {
        Action::CloseValidate
    } else if is_char(k, 'j') || k.code == KeyCode::Down {
        Action::ValidateScrollDown(1)
    } else if is_char(k, 'k') || k.code == KeyCode::Up {
        Action::ValidateScrollUp(1)
    } else if is_char(k, 'd') && k.ctrl {
        Action::ValidateScrollDown(10)
    } else if is_char(k, 'u') && k.ctrl {
        Action::ValidateScrollUp(10)
    } else {
        Action::Ignore
    }
}

/// The semantic query line.
pub open spec fn semantic_input_key(k: Key) -> Action {
    match k.code {
        KeyCode::Esc => Action::CloseSemanticInput,
        KeyCode::Enter => Action::SubmitSemantic,
        KeyCode::Backspace => Action::SemanticPop,
        KeyCode::Char(c) => if c == 'c' && ctrl_only(k) {
            Action::Quit
        } else if bare_or_shift(k) {
            Action::SemanticPush(c)
        } else {
            Action::Ignore
        },
        _ => Action::Ignore,
    }
}

/// The add line.
pub open spec fn add_input_key(k: Key) -> Action {
    match k.code {
        KeyCode::Esc => Action::CloseAddInput,
        KeyCode::Enter => Action::SubmitAdd,
        KeyCode::Tab => Action::AddInputToSearch,
        KeyCode::Backspace => Action::AddPop,
        KeyCode::Char(c) => if c == 'a' && (k.alt || k.ctrl) {
            Action::AddInputToSearch
        } else if !k.ctrl && !k.alt {
            Action::AddPush(c)
        } else {
            Action::Ignore
        },
        _ => Action::Ignore,
    }
}

/// The enrich preview.
pub open spec fn enrich_key(k: Key) -> Action {
    if k.code == KeyCode::Enter || is_char(k, 'y') {
        Action::ApplyEnrich
    } else if is_char(k, 'n') || is_char(k, 's') {
        Action::SkipEnrich
    } else if k.code == KeyCode::Esc || is_char(k, 'q') {
        Action::FinishEnrich
    } else if is_char(k, 'j') || k.code == KeyCode::Down {
        Action::EnrichScrollDown
    } else if is_char(k, 'k') || k.code == KeyCode::Up {
        Action::EnrichScrollUp
    } else {
        Action::Ignore
    }
}

/// The tag picker: every other character narrows its list.
pub open spec fn tag_popup_key(k: Key) -> Action {
    match k.code {
        KeyCode::Esc => Action::CancelTagPopup,
        KeyCode::Up => Action::TagUp,
        KeyCode::Down => Action::TagDown,
        KeyCode::Backspace => Action::TagFilterPop,
        KeyCode::Enter => Action::CloseTagPopup,
        KeyCode::Char(c) => if c == 'f' && ctrl_only(k) {
            Action::TagPageDown
        } else if c == 'b' && ctrl_only(k) {
            Action::TagPageUp
        } else {
            Action::TagFilterPush(c)
        },
        _ => Action::Ignore,
    }
}

/// The theme picker: moving in it previews the theme; Esc and Enter close
/// it on the theme shown.
pub open spec fn theme_popup_key(k: Key) -> Action {
    if k.code == KeyCode::Esc || k.code == KeyCode::Enter {
        Action::CloseThemePopup
    } else if k.code == KeyCode::Up || is_char(k, 'k') {
        Action::ThemeUp
    } else if k.code == KeyCode::Down || is_char(k, 'j') {
        Action::ThemeDown
    } else {
        Action::Ignore
    }
}

/// The moves shared by the search line and the list: the arrows, Ctrl-P/K
/// and Ctrl-N/J by one, Ctrl-U/D by half a page, Ctrl-B/F by a page.
pub open spec fn shared_move(k: Key) -> Action {
    if k.code == KeyCode::Up || (ctrl_only(k) && (is_char(k, 'p') || is_char(k, 'k'))) {
        Action::MoveUp
    } else if k.code == KeyCode::Down || (ctrl_only(k) && (is_char(k, 'n') || is_char(k, 'j'))) {
        Action::MoveDown
    } else if ctrl_only(k) && is_char(k, 'd') {
        Action::HalfPageDown
    } else if ctrl_only(k) && is_char(k, 'u') {
        Action::HalfPageUp
    } else if ctrl_only(k) && is_char(k, 'f') {
        Action::PageDown
    } else if ctrl_only(k) && is_char(k, 'b') {
        Action::PageUp
    } else {
        Action::Ignore
    }
}

/// The search line.
pub open spec fn search_key(k: Key) -> Action {
    if k.code == KeyCode::Esc || k.code == KeyCode::Enter {
        Action::LeaveSearch
    } else if ctrl_only(k) && is_char(k, 's') {
        Action::SearchToSemantic
    } else if ctrl_only(k) && is_char(k, 'c') {
        Action::Quit
    } else if ((alt_only(k) || ctrl_only(k)) && is_char(k, 'a')) || k.code == KeyCode::Tab {
        Action::SearchToAdd
    } else if k.code is Char && bare_or_shift(k) {
        Action::FilterPush(k.code->Char_0)
    } else if k.code == KeyCode::Backspace {
        Action::FilterPop
    } else if ctrl_only(k) && is_char(k, 't') {
        Action::OpenTagPopup
    } else {
        shared_move(k)
    }
}

/// A letter typed with Shift or nothing held.
pub open spec fn letter(k: Key, c: char) -> bool {
    is_char(k, c) && bare_or_shift(k)
}

/// The commands of the list that a bare lower-case letter gives.
pub open spec fn list_letter(c: char, ctx: KeyContext) -> Action {
    if c == 'q' {
        Action::Quit
    } else if c == 'v' {
        Action::OpenSemanticInput
    } else if c == '/' || c == 'i' {
        Action::StartSearch
    } else if c == 'j' {
        Action::MoveDown
    } else if c == 'k' {
        Action::MoveUp
    } else if c == 'g' {
        Action::MoveToTop
    } else if c == 't' {
        Action::OpenTagPopup
    } else if c == 'c' {
        Action::ClearFilters
    } else if c == 'e' {
        Action::Edit
    } else if c == 'y' {
        Action::CopyBib
    } else if c == 'o' {
        Action::OpenUrl
    } else if c == 'a' {
        Action::OpenAddInput
    } else if c == 'r' {
        Action::EnrichSelected
    } else if c == 'd' {
        Action::Dedup
    } else if c == 's' && ctx.filter_empty && !ctx.semantic_view {
        Action::NextSort
    } else {
        Action::Ignore
    }
}

/// The commands of the list that a capital letter gives, typed with Shift
/// or alone.
pub open spec fn list_capital(c: char, ctx: KeyContext) -> Action {
    if c == 'G' {
        Action::MoveToBottom
    } else if c == 'T' {
        Action::OpenThemePopup
    } else if c == 'L' {
        Action::NextLayout
    } else if c == 'R' {
        Action::EnrichAll
    } else if c == 'I' {
        Action::Reindex
    } else if c == 'V' {
        Action::Validate
    } else if c == 'S' && ctx.filter_empty && !ctx.semantic_view {
        Action::ReverseSort
    } else if c == 'J' {
        Action::PreviewScrollDown(3)
    } else if c == 'K' {
        Action::PreviewScrollUp(3)
    } else {
        Action::Ignore
    }
}

/// The list. Esc backs out one step: the full-screen preview first, then the
/// semantic results, then the program.
pub open spec fn list_key(ctx: KeyContext, k: Key) -> Action {
    if k.code == KeyCode::Esc {
        if ctx.preview_overlay {
            Action::CloseOverlay
        } else if ctx.semantic_view {
            Action::ClearSemantic
        } else {
            Action::Quit
        }
    } else if ctrl_only(k) && is_char(k, 'c') {
        Action::Quit
    } else if ctrl_only(k) && is_char(k, 's') {
        Action::OpenSemanticInput
    } else if k.code == KeyCode::Enter {
        Action::Select
    } else if is_char(k, ' ') {
        Action::ToggleOverlay
    } else if is_char(k, '?') {
        Action::ShowHelp
    } else if k.code is Char && bare(k) && list_letter(k.code->Char_0, ctx) != Action::Ignore {
        list_letter(k.code->Char_0, ctx)
    } else if k.code is Char && bare_or_shift(k) && list_capital(k.code->Char_0, ctx) != Action::Ignore {
        list_capital(k.code->Char_0, ctx)
    } else {
        shared_move(k)
    }
}

/// What `k` asks for in `ctx`: help takes any key, then the first open layer
/// of the validation report, the semantic line, the add line, the enrich
/// preview, the tag picker and the theme picker takes it; else the search
/// line or the list.
pub open spec fn key_action(ctx: KeyContext, k: Key) -> Action {
    if ctx.show_help {
        Action::CloseHelp
    } else if ctx.validate_popup {
        validate_key(k)
    } else if ctx.semantic_input {
        semantic_input_key(k)
    } else if ctx.add_input {
        add_input_key(k)
    } else if ctx.enrich_preview {
        enrich_key(k)
    } else if ctx.tag_popup {
        tag_popup_key(k)
    } else if ctx.theme_popup {
        theme_popup_key(k)
    } else if ctx.searching {
        search_key(k)
    } else {
        list_key(ctx, k)
    }
}

fn is_ch(k: Key, c: char) -> (b: bool)
    ensures
        b == is_char(k, c),
{
    match k.code {
        KeyCode::Char(x) => x == c,
        _ => false,
    }
}

fn validate_action(k: Key) -> (a: Action)
    ensures
        a == validate_key(k),
{
    if k.code == KeyCode::Esc || is_ch(k, 'q') || k.code == KeyCode::Enter {
        Action::CloseValidate
    } else if is_ch(k, 'j') || k.code == KeyCode::Down {
        Action::ValidateScrollDown(1)
    } else if is_ch(k, 'k') || k.code == KeyCode::Up {
        Action::ValidateScrollUp(1)
    } else if is_ch(k, 'd') && k.ctrl {
        Action::ValidateScrollDown(10)
    } else if is_ch(k, 'u') && k.ctrl {
        Action::ValidateScrollUp(10)
    } else {
        Action::Ignore
    }
}

fn semantic_input_action(k: Key) -> (a: Action)
    ensures
        a == semantic_input_key(k),
{
    match k.code {
        KeyCode::Esc => Action::CloseSemanticInput,
        KeyCode::Enter => Action::SubmitSemantic,
        KeyCode::Backspace => Action::SemanticPop,
        KeyCode::Char(c) => if c == 'c' && k.ctrl && !k.alt && !k.shift && !k.meta {
            Action::Quit
        } else if !k.ctrl && !k.alt && !k.meta {
            Action::SemanticPush(c)
        } else {
            Action::Ignore
        },
        _ => Action::Ignore,
    }
}

fn add_input_action(k: Key) -> (a: Action)
    ensures
        a == add_input_key(k),
{
    match k.code {
        KeyCode::Esc => Action::CloseAddInput,
        KeyCode::Enter => Action::SubmitAdd,
        KeyCode::Tab => Action::AddInputToSearch,
        KeyCode::Backspace => Action::AddPop,
        KeyCode::Char(c) => if c == 'a' && (k.alt || k.ctrl) {
            Action::AddInputToSearch
        } else if !k.ctrl && !k.alt {
            Action::AddPush(c)
        } else {
            Action::Ignore
        },
        _ => Action::Ignore,
    }
}

fn enrich_action(k: Key) -> (a: Action)
    ensures
        a == enrich_key(k),
{
    if k.code == KeyCode::Enter || is_ch(k, 'y') {
        Action::ApplyEnrich
    } else if is_ch(k, 'n') || is_ch(k, 's') {
        Action::SkipEnrich
    } else if k.code == KeyCode::Esc || is_ch(k, 'q') {
        Action::FinishEnrich
    } else if is_ch(k, 'j') || k.code == KeyCode::Down {
        Action::EnrichScrollDown
    } else if is_ch(k, 'k') || k.code == KeyCode::Up {
        Action::EnrichScrollUp
    } else {
        Action::Ignore
    }
}

fn tag_popup_action(k: Key) -> (a: Action)
    ensures
        a == tag_popup_key(k),
{
    let ctrl_only = k.ctrl && !k.alt && !k.shift && !k.meta;
    match k.code {
        KeyCode::Esc => Action::CancelTagPopup,
        KeyCode::Up => Action::TagUp,
        KeyCode::Down => Action::TagDown,
        KeyCode::Backspace => Action::TagFilterPop,
        KeyCode::Enter => Action::CloseTagPopup,
        KeyCode::Char(c) => if c == 'f' && ctrl_only {
            Action::TagPageDown
        } else if c == 'b' && ctrl_only {
            Action::TagPageUp
        } else {
            Action::TagFilterPush(c)
        },
        _ => Action::Ignore,
    }
}

fn theme_popup_action(k: Key) -> (a: Action)
    ensures
        a == theme_popup_key(k),
{
    if k.code == KeyCode::Esc || k.code == KeyCode::Enter {
        Action::CloseThemePopup
    } else if k.code == KeyCode::Up || is_ch(k, 'k') {
        Action::ThemeUp
    } else if k.code == KeyCode::Down || is_ch(k, 'j') {
        Action::ThemeDown
    } else {
        Action::Ignore
    }
}

fn shared_move_action(k: Key) -> (a: Action)
    ensures
        a == shared_move(k),
{
    let c = k.ctrl && !k.alt && !k.shift && !k.meta;
    if k.code == KeyCode::Up || (c && (is_ch(k, 'p') || is_ch(k, 'k'))) {
        Action::MoveUp
    } else if k.code == KeyCode::Down || (c && (is_ch(k, 'n') || is_ch(k, 'j'))) {
        Action::MoveDown
    } else if c && is_ch(k, 'd') {
        Action::HalfPageDown
    } else if c && is_ch(k, 'u') {
        Action::HalfPageUp
    } else if c && is_ch(k, 'f') {
        Action::PageDown
    } else if c && is_ch(k, 'b') {
        Action::PageUp
    } else {
        Action::Ignore
    }
}

fn search_action(k: Key) -> (a: Action)
    ensures
        a == search_key(k),
{
    let ctrl_only = k.ctrl && !k.alt && !k.shift && !k.meta;
    let alt_only = !k.ctrl && k.alt && !k.shift && !k.meta;
    if k.code == KeyCode::Esc || k.code == KeyCode::Enter {
        return Action::LeaveSearch;
    }
    if ctrl_only && is_ch(k, 's') {
        return Action::SearchToSemantic;
    }
    if ctrl_only && is_ch(k, 'c') {
        return Action::Quit;
    }
    if ((alt_only || ctrl_only) && is_ch(k, 'a')) || k.code == KeyCode::Tab {
        return Action::SearchToAdd;
    }
    if let KeyCode::Char(c) = k.code {
        if !k.ctrl && !k.alt && !k.meta {
            return Action::FilterPush(c);
        }
    }
    if k.code == KeyCode::Backspace {
        return Action::FilterPop;
    }
    if ctrl_only && is_ch(k, 't') {
        return Action::OpenTagPopup;
    }
    shared_move_action(k)
}

fn list_letter_action(c: char, ctx: KeyContext) -> (a: Action)
    ensures
        a == list_letter(c, ctx),
{
    if c == 'q' {
        Action::Quit
    } else if c == 'v' {
        Action::OpenSemanticInput
    } else if c == '/' || c == 'i' {
        Action::StartSearch
    } else if c == 'j' {
        Action::MoveDown
    } else if c == 'k' {
        Action::MoveUp
    } else if c == 'g' {
        Action::MoveToTop
    } else if c == 't' {
        Action::OpenTagPopup
    } else if c == 'c' {
        Action::ClearFilters
    } else if c == 'e' {
        Action::Edit
    } else if c == 'y' {
        Action::CopyBib
    } else if c == 'o' {
        Action::OpenUrl
    } else if c == 'a' {
        Action::OpenAddInput
    } else if c == 'r' {
        Action::EnrichSelected
    } else if c == 'd' {
        Action::Dedup
    } else if c == 's' && ctx.filter_empty && !ctx.semantic_view {
        Action::NextSort
    } else {
        Action::Ignore
    }
}

fn list_capital_action(c: char, ctx: KeyContext) -> (a: Action)
    ensures
        a == list_capital(c, ctx),
{
    if c == 'G' {
        Action::MoveToBottom
    } else if c == 'T' {
        Action::OpenThemePopup
    } else if c == 'L' {
        Action::NextLayout
    } else if c == 'R' {
        Action::EnrichAll
    } else if c == 'I' {
        Action::Reindex
    } else if c == 'V' {
        Action::Validate
    } else if c == 'S' && ctx.filter_empty && !ctx.semantic_view {
        Action::ReverseSort
    } else if c == 'J' {
        Action::PreviewScrollDown(3)
    } else if c == 'K' {
        Action::PreviewScrollUp(3)
    } else {
        Action::Ignore
    }
}

fn list_action(ctx: KeyContext, k: Key) -> (a: Action)
    ensures
        a == list_key(ctx, k),
{
    let ctrl_only = k.ctrl && !k.alt && !k.shift && !k.meta;
    if k.code == KeyCode::Esc {
        return if ctx.preview_overlay {
            Action::CloseOverlay
        } else if ctx.semantic_view {
            Action::ClearSemantic
        } else {
            Action::Quit
        };
    }
    if ctrl_only && is_ch(k, 'c') {
        return Action::Quit;
    }
    if ctrl_only && is_ch(k, 's') {
        return Action::OpenSemanticInput;
    }
    if k.code == KeyCode::Enter {
        return Action::Select;
    }
    if is_ch(k, ' ') {
        return Action::ToggleOverlay;
    }
    if is_ch(k, '?') {
        return Action::ShowHelp;
    }
    if let KeyCode::Char(c) = k.code {
        if !k.ctrl && !k.alt && !k.shift && !k.meta {
            let a = list_letter_action(c, ctx);
            if a != Action::Ignore {
                return a;
            }
        }
        if !k.ctrl && !k.alt && !k.meta {
            let a = list_capital_action(c, ctx);
            if a != Action::Ignore {
                return a;
            }
        }
    }
    shared_move_action(k)
}

/// What the key asks for on the screen described by `ctx`.
pub fn action_for(ctx: KeyContext, key: Key) -> (a: Action)
    ensures
        a == key_action(ctx, key),
{
    if ctx.show_help {
        Action::CloseHelp
    } else if ctx.validate_popup {
        validate_action(key)
    } else if ctx.semantic_input {
        semantic_input_action(key)
    } else if ctx.add_input {
        add_input_action(key)
    } else if ctx.enrich_preview {
        enrich_action(key)
    } else if ctx.tag_popup {
        tag_popup_action(key)
    } else if ctx.theme_popup {
        theme_popup_action(key)
    } else if ctx.searching {
        search_action(key)
    } else {
        list_action(ctx, key)
    }
}

/// Esc is never ignored: whatever is on screen, it closes or backs out of
/// something (at the list with nothing open, it quits).
pub proof fn lemma_escape_never_ignored(ctx: KeyContext, k: Key)
    requires
        k.code == KeyCode::Esc,
    ensures
        key_action(ctx, k) != Action::Ignore,
{
}

/// Ctrl-C quits from the list, the search line and the semantic query line,
/// unless help or a popup that takes every key lies above them.
pub proof fn lemma_ctrl_c_quits(ctx: KeyContext, k: Key)
    requires
        k.code == KeyCode::Char('c'),
        ctrl_only(k),
        !ctx.show_help,
        !ctx.validate_popup,
        ctx.semantic_input || (!ctx.add_input && !ctx.enrich_preview && !ctx.tag_popup && !ctx.theme_popup),
    ensures
        key_action(ctx, k) == Action::Quit,
{
}

/// While help is shown, every key only closes it.
pub proof fn lemma_help_takes_any_key(ctx: KeyContext, k: Key)
    requires
        ctx.show_help,
    ensures
        key_action(ctx, k) == Action::CloseHelp,
{
}

// ---------------------------------------------------------------------------
// The duplicates screen
// ---------------------------------------------------------------------------
/// What a key does on the screen that shows one group of duplicates.
#[derive(Debug, Clone, Copy, PartialEq, Eq, Structural)]
pub enum DedupStep {
    /// Leave the duplicates screen.
    Cancel,
    /// Leave this group as it is and go to the next.
    Skip,
    /// Point at another entry of the group.
    Select(usize),
    /// Keep the entry pointed at and move the others to the trash.
    Keep(usize),
    /// Nothing.
    Stay,
}

pub open spec fn dedup_key(selected: nat, len: nat, k: Key) -> DedupStep {
    if is_char(k, 'q') || k.code == KeyCode::Esc || (is_char(k, 'c') && ctrl_only(k)) {
        DedupStep::Cancel
    } else if is_char(k, 's') {
        DedupStep::Skip
    } else if k.code == KeyCode::Up || is_char(k, 'k') {
        DedupStep::Select(if selected == 0 { 0 } else { (selected - 1) as usize })
    } else if k.code == KeyCode::Down || is_char(k, 'j') {
        DedupStep::Select(if selected + 1 < len { (selected + 1) as usize } else { (len - 1) as usize })
    } else if k.code == KeyCode::Enter {
        DedupStep::Keep(selected as usize)
    } else {
        DedupStep::Stay
    }
}

/// What `key` does while entry `selected` of a group of `len` is pointed at.
pub fn dedup_step(selected: usize, len: usize, key: Key) -> (d: DedupStep)
    requires
        selected < len,
    ensures
        d == dedup_key(selected as nat, len as nat, key),
        match d {
            DedupStep::Select(i) => i < len,
            DedupStep::Keep(i) => i == selected,
            _ => true,
        },
{
    let ctrl_only = key.ctrl && !key.alt && !key.shift && !key.meta;
    if is_ch(key, 'q') || key.code == KeyCode::Esc || (is_ch(key, 'c') && ctrl_only) {
        DedupStep::Cancel
    } else if is_ch(key, 's') {
        DedupStep::Skip
    } else if key.code == KeyCode::Up || is_ch(key, 'k') {
        DedupStep::Select(if selected == 0 { 0 } else { selected - 1 })
    } else if key.code == KeyCode::Down || is_ch(key, 'j') {
        DedupStep::Select(if selected + 1 < len { selected + 1 } else { len - 1 })
    } else if key.code == KeyCode::Enter {
        DedupStep::Keep(selected)
    } else {
        DedupStep::Stay
    }
}

// ---------------------------------------------------------------------------
// Moving in the list
// ---------------------------------------------------------------------------
/// A move in the list of entries or of semantic results.
#[derive(Debug, Clone, Copy, PartialEq, Eq, Structural)]
pub enum Move {
    Up,
    Down,
    UpBy(usize),
    DownBy(usize),
    Top,
    Bottom,
}

/// Where a move leaves the list.
#[derive(Debug, Clone, Copy, PartialEq, Eq, Structural)]
pub struct Moved {
    /// The row selected after the move.
    pub selected: Option<usize>,
    /// The preview starts again at its top.
    pub reset_preview: bool,
    /// More semantic results may be needed now.
    pub check_more: bool,
}

pub open spec fn min_nat(a: int, b: int) -> int {
    if a < b {
        a
    } else {
        b
    }
}

pub open spec fn minus(a: int, b: int) -> int {
    if a < b {
        0
    } else {
        a - b
    }
}

/// Where `m` leaves a list of `len` rows whose selection is `selected`.
/// Among semantic results every move restarts the preview and a missing
/// selection counts as the first row; in the list of entries, a move in an
/// empty list changes nothing.
pub open spec fn moved_spec(selected: Option<usize>, len: nat, semantic: bool, m: Move) -> (Option<int>, bool, bool) {
    let at: int = match selected {
        Some(i) => i as int,
        None => 0,
    };
    if semantic {
        match m {
            Move::Up => (Some(minus(at, 1)), true, false),
            Move::UpBy(n) => (Some(minus(at, n as int)), true, false),
            Move::Down => (
                if len > 0 { Some(min_nat(at + 1, len - 1)) } else { opt_int(selected) },
                true,
                true,
            ),
            Move::DownBy(n) => (
                if len > 0 { Some(min_nat(at + n, len - 1)) } else { opt_int(selected) },
                true,
                true,
            ),
            Move::Top => (if len > 0 { Some(0) } else { None }, true, false),
            Move::Bottom => (if len > 0 { Some(len - 1) } else { None }, true, true),
        }
    } else if len == 0 {
        (opt_int(selected), false, false)
    } else {
        match m {
            Move::Up => (Some(minus(at, 1)), true, false),
            Move::UpBy(n) => (Some(minus(at, n as int)), true, false),
            Move::Down => (
                match selected {
                    Some(i) => Some(min_nat(i + 1, len - 1)),
                    None => Some(0),
                },
                true,
                false,
            ),
            Move::DownBy(n) => (Some(min_nat(at + n, len - 1)), true, false),
            Move::Top => (Some(0), true, false),
            Move::Bottom => (Some(len - 1), true, false),
        }
    }
}

pub open spec fn opt_int(o: Option<usize>) -> Option<int> {
    match o {
        Some(i) => Some(i as int),
        None => None,
    }
}

fn up_by(at: usize, n: usize) -> (r: usize)
    ensures
        r == minus(at as int, n as int),
{
    if at < n {
        0
    } else {
        at - n
    }
}

fn down_by(at: usize, n: usize, last: usize) -> (r: usize)
    ensures
        r == min_nat(at + n, last as int),
{
    if at >= last || n >= last - at {
        last
    } else {
        at + n
    }
}

/// Applies `m` to a list of `len` rows, of semantic results when `semantic`.
pub fn apply_move(selected: Option<usize>, len: usize, semantic: bool, m: Move) -> (r: Moved)
    ensures
        (opt_int(r.selected), r.reset_preview, r.check_more) == moved_spec(selected, len as nat, semantic, m),
{
    let at: usize = match selected {
        Some(i) => i,
        None => 0,
    };
    if !semantic && len == 0 {
        return Moved { selected, reset_preview: false, check_more: false };
    }
    let (sel, more) = match m {
        Move::Up => (Some(up_by(at, 1)), false),
        Move::UpBy(n) => (Some(up_by(at, n)), false),
        Move::Down => if len == 0 {
            (selected, true)
        } else if !semantic && selected.is_none() {
            (Some(0), false)
        } else {
            (Some(down_by(at, 1, len - 1)), semantic)
        },
        Move::DownBy(n) => if len == 0 {
            (selected, true)
        } else {
            (Some(down_by(at, n, len - 1)), semantic)
        },
        Move::Top => (if len > 0 { Some(0) } else { None }, false),
        Move::Bottom => (if len > 0 { Some(len - 1) } else { None }, semantic),
    };
    Moved { selected: sel, reset_preview: true, check_more: more }
}

} // verus!
