use office_terminal::ui::{update_interact_text, InteractableType, ViewModelHold};

fn hint(
    interacting: bool,
    looking_at: Option<Option<InteractableType>>,
    holding: ViewModelHold,
    before: &str,
) -> String {
    let mut text = before.to_string();
    update_interact_text(interacting, looking_at, holding, &mut text);
    text
}

#[test]
fn terminal_always_offers_interaction() {
    for h in [ViewModelHold::Empty, ViewModelHold::Hammer, ViewModelHold::LoC, ViewModelHold::LoCBundle] {
        assert_eq!(hint(false, Some(Some(InteractableType::Terminal)), h, "x"), "[MOUSE1] Interact");
    }
}

#[test]
fn empty_hand_picks_up_interactables() {
    let e = ViewModelHold::Empty;
    assert_eq!(hint(false, Some(Some(InteractableType::Hammer)), e, "x"), "[MOUSE1] Pickup");
    assert_eq!(hint(false, Some(Some(InteractableType::LineOfCode)), e, "x"), "[MOUSE1] Pickup");
    assert_eq!(hint(false, Some(None), e, "x"), "");
    assert_eq!(hint(false, None, e, "x"), "");
}

#[test]
fn hammer_hints() {
    let h = ViewModelHold::Hammer;
    assert_eq!(hint(false, Some(None), h, "x"), "[MOUSE1] Swing");
    assert_eq!(
        hint(false, Some(Some(InteractableType::LineOfCodeGlobule)), h, "x"),
        "[MOUSE1] Swing\n[MOUSE2] Swap"
    );
    assert_eq!(hint(false, None, h, "x"), "[MOUSE1] Swing\n[MOUSE2] Throw");
}

#[test]
fn holding_code_attaches_to_code() {
    for h in [ViewModelHold::LoC, ViewModelHold::LoCBundle] {
        assert_eq!(
            hint(false, Some(Some(InteractableType::LineOfCode)), h, "x"),
            "[MOUSE1] Attach\n[MOUSE2] Swap"
        );
        assert_eq!(hint(false, None, h, "x"), "[MOUSE1] Swing\n[MOUSE2] Throw");
    }
}

#[test]
fn other_pairs_keep_the_hint() {
    let ham = Some(Some(InteractableType::Hammer));
    assert_eq!(hint(false, ham, ViewModelHold::Hammer, "keep"), "keep");
    assert_eq!(hint(false, ham, ViewModelHold::LoC, "keep"), "keep");
    assert_eq!(hint(false, Some(None), ViewModelHold::LoCBundle, "keep"), "keep");
}

#[test]
fn interacting_clears_a_kept_hint() {
    let ham = Some(Some(InteractableType::Hammer));
    assert_eq!(hint(true, ham, ViewModelHold::Hammer, "keep"), "");
    assert_eq!(hint(true, Some(Some(InteractableType::Terminal)), ViewModelHold::Hammer, "keep"), "[MOUSE1] Interact");
}
