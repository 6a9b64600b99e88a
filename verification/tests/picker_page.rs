use cosmic_toys::picker_page::{PageEffects, PageEvent, PickerPage, Rgb};

fn rgb(r: u8, g: u8, b: u8) -> Rgb {
    Rgb { r, g, b }
}

const NONE: PageEffects =
    PageEffects { request_pick: false, save_history: false, animate_hero: false, animate_chip: false };

#[test]
fn new_page_shows_newest_recent() {
    let p = PickerPage::new(vec![rgb(1, 2, 3), rgb(4, 5, 6)]);
    assert_eq!(p.picked, Some(rgb(1, 2, 3)));
    assert!(!p.picking);
    assert_eq!(PickerPage::new(Vec::new()).picked, None);
}

#[test]
fn pick_presses_are_debounced() {
    let mut p = PickerPage::new(Vec::new());
    let fx = p.update(PageEvent::PickPressed);
    assert!(fx.request_pick && p.picking);
    assert_eq!(p.update(PageEvent::PickPressed), NONE);
    let fx = p.update(PageEvent::PickResult(Some(rgb(9, 9, 9))));
    assert!(fx.animate_hero && !p.picking);
    assert_eq!(p.picked, Some(rgb(9, 9, 9)));
    assert!(p.update(PageEvent::PickPressed).request_pick);
    assert_eq!(p.update(PageEvent::PickResult(None)), NONE);
    assert!(!p.picking);
    assert_eq!(p.picked, Some(rgb(9, 9, 9)));
}

#[test]
fn recents_select_and_clear() {
    let mut p = PickerPage::new(vec![rgb(1, 1, 1), rgb(2, 2, 2)]);
    assert_eq!(p.update(PageEvent::SelectHistory(1)), NONE);
    assert_eq!(p.picked, Some(rgb(2, 2, 2)));
    p.update(PageEvent::SelectHistory(7));
    assert_eq!(p.picked, Some(rgb(2, 2, 2)));
    let fx = p.update(PageEvent::ClearHistory);
    assert!(fx.save_history);
    assert!(p.history.is_empty());
}

#[test]
fn loaded_history_shows_new_head() {
    let mut p = PickerPage::new(vec![rgb(1, 1, 1)]);
    let fx = p.update(PageEvent::HistoryLoaded(vec![rgb(3, 3, 3), rgb(1, 1, 1)]));
    assert!(fx.animate_hero && fx.animate_chip);
    assert_eq!(p.picked, Some(rgb(3, 3, 3)));
    // Same head again: nothing to animate.
    let fx = p.update(PageEvent::HistoryLoaded(vec![rgb(3, 3, 3)]));
    assert_eq!(fx, NONE);
    // The head was already shown (picked here first): only the chip moves.
    p.update(PageEvent::PickResult(Some(rgb(7, 7, 7))));
    let fx = p.update(PageEvent::HistoryLoaded(vec![rgb(7, 7, 7), rgb(3, 3, 3)]));
    assert!(!fx.animate_hero && fx.animate_chip);
}
