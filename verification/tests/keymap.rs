use grimoire::keymap::{action_for, apply_move, dedup_step, Action, DedupStep, Key, KeyCode, KeyContext, Move};

fn key(code: KeyCode) -> Key {
    Key { code, ctrl: false, alt: false, shift: false, meta: false }
}

fn ch(c: char) -> Key {
    key(KeyCode::Char(c))
}

fn ctrl(c: char) -> Key {
    Key { ctrl: true, ..ch(c) }
}

fn shift(c: char) -> Key {
    Key { shift: true, ..ch(c) }
}

fn list() -> KeyContext {
    KeyContext {
        show_help: false,
        validate_popup: false,
        semantic_input: false,
        add_input: false,
        enrich_preview: false,
        tag_popup: false,
        theme_popup: false,
        searching: false,
        preview_overlay: false,
        semantic_view: false,
        filter_empty: true,
    }
}

#[test]
fn list_keys() {
    let ctx = list();
    assert_eq!(action_for(ctx, ch('q')), Action::Quit);
    assert_eq!(action_for(ctx, ctrl('c')), Action::Quit);
    assert_eq!(action_for(ctx, ch('j')), Action::MoveDown);
    assert_eq!(action_for(ctx, key(KeyCode::Down)), Action::MoveDown);
    assert_eq!(action_for(ctx, ctrl('n')), Action::MoveDown);
    assert_eq!(action_for(ctx, ctrl('d')), Action::HalfPageDown);
    assert_eq!(action_for(ctx, ch('G')), Action::MoveToBottom);
    assert_eq!(action_for(ctx, shift('G')), Action::MoveToBottom);
    assert_eq!(action_for(ctx, ch('/')), Action::StartSearch);
    assert_eq!(action_for(ctx, ch('s')), Action::NextSort);
    assert_eq!(action_for(ctx, shift('S')), Action::ReverseSort);
    assert_eq!(action_for(ctx, shift('J')), Action::PreviewScrollDown(3));
    assert_eq!(action_for(ctx, ch('?')), Action::ShowHelp);
    assert_eq!(action_for(ctx, ch(' ')), Action::ToggleOverlay);
    assert_eq!(action_for(ctx, key(KeyCode::Enter)), Action::Select);
    assert_eq!(action_for(ctx, ch('z')), Action::Ignore);
    assert_eq!(action_for(ctx, shift('j')), Action::Ignore);
}

#[test]
fn sorting_keys_need_an_unfiltered_list() {
    let ctx = KeyContext { filter_empty: false, ..list() };
    assert_eq!(action_for(ctx, ch('s')), Action::Ignore);
    let ctx = KeyContext { semantic_view: true, ..list() };
    assert_eq!(action_for(ctx, shift('S')), Action::Ignore);
}

#[test]
fn escape_backs_out_one_step() {
    let ctx = KeyContext { preview_overlay: true, semantic_view: true, ..list() };
    assert_eq!(action_for(ctx, key(KeyCode::Esc)), Action::CloseOverlay);
    let ctx = KeyContext { semantic_view: true, ..list() };
    assert_eq!(action_for(ctx, key(KeyCode::Esc)), Action::ClearSemantic);
    assert_eq!(action_for(list(), key(KeyCode::Esc)), Action::Quit);
    let ctx = KeyContext { searching: true, ..list() };
    assert_eq!(action_for(ctx, key(KeyCode::Esc)), Action::LeaveSearch);
    let ctx = KeyContext { tag_popup: true, ..list() };
    assert_eq!(action_for(ctx, key(KeyCode::Esc)), Action::CancelTagPopup);
}

#[test]
fn layers_take_keys_in_order() {
    let ctx = KeyContext { show_help: true, validate_popup: true, ..list() };
    assert_eq!(action_for(ctx, ch('x')), Action::CloseHelp);
    let ctx = KeyContext { validate_popup: true, add_input: true, ..list() };
    assert_eq!(action_for(ctx, ctrl('d')), Action::ValidateScrollDown(10));
    let ctx = KeyContext { semantic_input: true, add_input: true, ..list() };
    assert_eq!(action_for(ctx, ch('x')), Action::SemanticPush('x'));
    assert_eq!(action_for(ctx, ctrl('c')), Action::Quit);
    let ctx = KeyContext { add_input: true, ..list() };
    assert_eq!(action_for(ctx, ctrl('a')), Action::AddInputToSearch);
    assert_eq!(action_for(ctx, ctrl('c')), Action::Ignore);
    let ctx = KeyContext { enrich_preview: true, ..list() };
    assert_eq!(action_for(ctx, ch('y')), Action::ApplyEnrich);
    assert_eq!(action_for(ctx, ch('s')), Action::SkipEnrich);
    let ctx = KeyContext { tag_popup: true, ..list() };
    assert_eq!(action_for(ctx, ctrl('f')), Action::TagPageDown);
    assert_eq!(action_for(ctx, ch('q')), Action::TagFilterPush('q'));
    let ctx = KeyContext { theme_popup: true, ..list() };
    assert_eq!(action_for(ctx, ch('j')), Action::ThemeDown);
}

#[test]
fn search_line_keys() {
    let ctx = KeyContext { searching: true, ..list() };
    assert_eq!(action_for(ctx, ch('q')), Action::FilterPush('q'));
    assert_eq!(action_for(ctx, shift('Q')), Action::FilterPush('Q'));
    assert_eq!(action_for(ctx, key(KeyCode::Backspace)), Action::FilterPop);
    assert_eq!(action_for(ctx, key(KeyCode::Tab)), Action::SearchToAdd);
    assert_eq!(action_for(ctx, ctrl('s')), Action::SearchToSemantic);
    assert_eq!(action_for(ctx, ctrl('t')), Action::OpenTagPopup);
    assert_eq!(action_for(ctx, ctrl('p')), Action::MoveUp);
    assert_eq!(action_for(ctx, key(KeyCode::Enter)), Action::LeaveSearch);
}

#[test]
fn dedup_screen_keys() {
    assert_eq!(dedup_step(0, 3, ch('j')), DedupStep::Select(1));
    assert_eq!(dedup_step(2, 3, key(KeyCode::Down)), DedupStep::Select(2));
    assert_eq!(dedup_step(0, 3, ch('k')), DedupStep::Select(0));
    assert_eq!(dedup_step(1, 3, key(KeyCode::Enter)), DedupStep::Keep(1));
    assert_eq!(dedup_step(1, 3, ch('s')), DedupStep::Skip);
    assert_eq!(dedup_step(1, 3, ctrl('c')), DedupStep::Cancel);
    assert_eq!(dedup_step(1, 3, ch('x')), DedupStep::Stay);
}

#[test]
fn moving_in_the_list() {
    let m = apply_move(Some(2), 5, false, Move::Down);
    assert_eq!((m.selected, m.reset_preview, m.check_more), (Some(3), true, false));
    assert_eq!(apply_move(Some(4), 5, false, Move::Down).selected, Some(4));
    assert_eq!(apply_move(None, 5, false, Move::Down).selected, Some(0));
    assert_eq!(apply_move(Some(1), 5, false, Move::UpBy(10)).selected, Some(0));
    assert_eq!(apply_move(Some(1), 5, false, Move::DownBy(10)).selected, Some(4));
    assert_eq!(apply_move(Some(1), 0, false, Move::Down).selected, Some(1));
    assert!(!apply_move(Some(1), 0, false, Move::Down).reset_preview);
    let m = apply_move(None, 0, true, Move::Up);
    assert_eq!((m.selected, m.reset_preview), (Some(0), true));
    let m = apply_move(Some(2), 3, true, Move::Bottom);
    assert_eq!((m.selected, m.check_more), (Some(2), true));
    assert_eq!(apply_move(Some(2), 0, true, Move::Top).selected, None);
    assert_eq!(apply_move(Some(3), 9, false, Move::Top).selected, Some(0));
}
