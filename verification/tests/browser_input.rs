use waddle::browser_input::{BottomInput, BrowserInput, Context, Intent, Mode, NamedKey, Press};
use waddle::grid::{DeleteMotion, Motion};
use waddle::prompt::PromptInteraction;


fn text(value: &str) -> Press {
    Press {
        text: Some(value.to_owned()),
        ..Press::default()
    }
}

fn selected() -> Context {
    Context {
        selection_count: 1,
        has_selection: true,
        file_operators_allowed: true,
        ..Context::default()
    }
}

#[test]
fn delete_operator_owns_valid_invalid_and_cancelled_sequences() {
    let mut input = BrowserInput::default();

    assert!(matches!(
        input.handle(text("d"), selected()),
        Intent::Pending(_)
    ));
    assert!(input.delete_pending());
    assert_eq!(
        input.handle(text("$"), selected()),
        Intent::CutMotion(DeleteMotion::Motion(Motion::RowEnd), 1)
    );
    assert!(!input.delete_pending());

    assert!(matches!(
        input.handle(text("d"), selected()),
        Intent::Pending(_)
    ));
    assert!(matches!(
        input.handle(text("w"), selected()),
        Intent::InvalidSequence(_)
    ));
    assert!(!input.delete_pending());

    assert!(matches!(
        input.handle(text("d"), selected()),
        Intent::Pending(_)
    ));
    assert_eq!(
        input.handle(
            Press {
                named: NamedKey::Escape,
                ..Press::default()
            },
            selected()
        ),
        Intent::Pending("Browser sequence cancelled".to_owned())
    );
    assert!(!input.delete_pending());
}

#[test]
fn standalone_and_delete_motions_share_one_vocabulary() {
    let mut input = BrowserInput::default();

    assert_eq!(
        input.handle(text("0"), selected()),
        Intent::Move(Motion::RowStart, 1)
    );
    assert_eq!(
        input.handle(text("$"), selected()),
        Intent::Move(Motion::RowEnd, 1)
    );
    assert!(matches!(
        input.handle(text("d"), selected()),
        Intent::Pending(_)
    ));
    assert_eq!(
        input.handle(text("d"), selected()),
        Intent::CutMotion(DeleteMotion::Current, 1)
    );
}

#[test]
fn prompt_and_mode_precedence_are_stateful_and_testable() {
    let mut input = BrowserInput::default();
    input.enter(Mode::Search);
    assert_eq!(
        input.handle(
            Press {
                named: NamedKey::Escape,
                ..Press::default()
            },
            Context::default()
        ),
        Intent::CancelSearch
    );
    assert_eq!(input.mode(), Mode::Browser);

    input.enter(Mode::OpenWith);
    assert_eq!(
        input.handle(
            Press {
                named: NamedKey::Escape,
                ..Press::default()
            },
            Context::default()
        ),
        Intent::CancelOpenWith
    );
    assert_eq!(input.mode(), Mode::Browser);

    input.enter(Mode::Rename);
    assert_eq!(
        input.handle(
            Press {
                named: NamedKey::Escape,
                ..Press::default()
            },
            Context {
                foreground_operation_active: true,
                ..Context::default()
            }
        ),
        Intent::NoAction
    );
    assert_eq!(input.mode(), Mode::Rename);

    assert_eq!(
        input.handle(
            Press {
                named: NamedKey::Escape,
                ..Press::default()
            },
            Context {
                prompt: PromptInteraction::Input,
                ..Context::default()
            }
        ),
        Intent::PromptCancel
    );
}

#[test]
fn plain_escape_cancels_pending_navigation_after_browser_state() {
    let mut input = BrowserInput::default();
    let escape = Press {
        named: NamedKey::Escape,
        ..Press::default()
    };

    assert_eq!(
        input.handle(
            escape.clone(),
            Context {
                navigation_pending: true,
                ..Context::default()
            }
        ),
        Intent::CancelNavigation
    );

    assert!(matches!(
        input.handle(text("d"), selected()),
        Intent::Pending(_)
    ));
    assert!(matches!(
        input.handle(
            escape,
            Context {
                navigation_pending: true,
                ..Context::default()
            }
        ),
        Intent::Pending(_)
    ));
}

#[test]
fn backspace_closes_only_an_empty_bottom_input() {
    let mut input = BrowserInput::default();
    input.enter(Mode::Command);

    assert_eq!(
        input.handle(
            Press {
                named: NamedKey::Backspace,
                ..Press::default()
            },
            Context::default()
        ),
        Intent::NoAction
    );
    assert_eq!(input.mode(), Mode::Command);

    assert_eq!(
        input.handle(
            Press {
                named: NamedKey::Backspace,
                ..Press::default()
            },
            Context {
                bottom_input: BottomInput::Active { empty: true },
                ..Context::default()
            }
        ),
        Intent::CancelCommand
    );
    assert_eq!(input.mode(), Mode::Browser);

    assert_eq!(
        input.handle(
            Press {
                named: NamedKey::Backspace,
                ..Press::default()
            },
            Context {
                prompt: PromptInteraction::Input,
                bottom_input: BottomInput::Active { empty: true },
                ..Context::default()
            }
        ),
        Intent::PromptCancel
    );
}

#[test]
fn deletion_prompts_accept_yes_no_and_keep_enter_escape_aliases() {
    let context = Context {
        prompt: PromptInteraction::Confirmation,
        ..Context::default()
    };
    let mut input = BrowserInput::default();

    for answer in ["y", "Y"] {
        assert_eq!(input.handle(text(answer), context), Intent::PromptConfirm);
    }
    for answer in ["n", "N"] {
        assert_eq!(input.handle(text(answer), context), Intent::PromptCancel);
    }
    assert_eq!(
        input.handle(
            Press {
                named: NamedKey::Enter,
                ..Press::default()
            },
            context
        ),
        Intent::PromptConfirm
    );
    assert_eq!(
        input.handle(
            Press {
                named: NamedKey::Escape,
                ..Press::default()
            },
            context
        ),
        Intent::PromptCancel
    );
}

#[test]
fn transfer_conflict_keys_take_precedence_and_preserve_uppercase_scope() {
    let context = Context {
        transfer_conflict: true,
        ..Context::default()
    };
    let mut input = BrowserInput::default();

    assert_eq!(
        input.handle(text("r"), context),
        Intent::ConflictChoice {
            key: 'r',
            remaining: false,
        }
    );
    assert_eq!(
        input.handle(text("K"), context),
        Intent::ConflictChoice {
            key: 'k',
            remaining: true,
        }
    );
    assert_eq!(
        input.handle(
            Press {
                named: NamedKey::Escape,
                ..Press::default()
            },
            context,
        ),
        Intent::ConflictCancel
    );
}

#[test]
fn f5_requests_an_explicit_refresh() {
    let mut input = BrowserInput::default();
    assert_eq!(
        input.handle(
            Press {
                named: NamedKey::Refresh,
                ..Press::default()
            },
            selected(),
        ),
        Intent::Refresh
    );
}

#[test]
fn control_shortcuts_ignore_plain_browser_grammar() {
    let mut input = BrowserInput::default();
    let control = |value: &str| Press {
        text: Some(value.to_owned()),
        control: true,
        ..Press::default()
    };

    assert_eq!(input.handle(control("c"), selected()), Intent::Copy);
    assert_eq!(input.handle(control("V"), selected()), Intent::Paste);
    assert_eq!(input.handle(control("o"), selected()), Intent::Back);
    assert_eq!(input.handle(control("i"), selected()), Intent::Forward);
    assert_eq!(input.handle(control("r"), selected()), Intent::Redo);
    assert_eq!(
        input.handle(control("l"), selected()),
        Intent::BeginLocation
    );
    assert_eq!(input.handle(text("u"), selected()), Intent::Undo);
    assert_eq!(
        input.handle(control("d"), selected()),
        Intent::Move(Motion::HalfPageDown, 1)
    );
}

#[test]
fn command_output_uses_y_to_copy_and_escape_to_close() {
    let mut input = BrowserInput::default();
    let context = Context {
        command_output: true,
        ..selected()
    };

    assert_eq!(input.handle(text("y"), context), Intent::CopyCommandOutput);
    assert_eq!(
        input.handle(
            Press {
                named: NamedKey::Escape,
                ..Press::default()
            },
            context,
        ),
        Intent::CloseCommandOutput
    );
}

#[test]
fn control_w_e_toggles_tree_and_uses_normal_sequence_rules() {
    let mut input = BrowserInput::default();
    let control_w = Press {
        text: Some("w".to_owned()),
        control: true,
        ..Press::default()
    };

    assert_eq!(
        input.handle(control_w.clone(), selected()),
        Intent::Pending("Ctrl+W  •  awaiting e".to_owned())
    );
    assert_eq!(input.handle(text("e"), selected()), Intent::ToggleTree);
    assert_eq!(input.pending_sequence(), None);

    assert!(matches!(
        input.handle(control_w.clone(), selected()),
        Intent::Pending(_)
    ));
    assert_eq!(
        input.handle(text("x"), selected()),
        Intent::InvalidSequence("Invalid Browser sequence: Ctrl+Wx".to_owned())
    );
    assert_eq!(input.pending_sequence(), None);

    assert!(matches!(
        input.handle(control_w, selected()),
        Intent::Pending(_)
    ));
    assert_eq!(
        input.handle(
            Press {
                named: NamedKey::Escape,
                ..Press::default()
            },
            selected(),
        ),
        Intent::Pending("Browser sequence cancelled".to_owned())
    );
}

#[test]
fn tab_is_owned_by_command_completion_only_in_command_mode() {
    let mut input = BrowserInput::default();
    input.enter(Mode::Command);
    assert_eq!(
        input.handle(
            Press {
                named: NamedKey::Tab,
                ..Press::default()
            },
            selected(),
        ),
        Intent::CompleteCommand
    );
}

#[test]
fn browser_tab_moves_composite_focus_in_both_directions() {
    let mut input = BrowserInput::default();
    assert_eq!(
        input.handle(
            Press {
                named: NamedKey::Tab,
                ..Press::default()
            },
            Context::default(),
        ),
        Intent::MoveFocus { reverse: false }
    );
    assert_eq!(
        input.handle(
            Press {
                named: NamedKey::Tab,
                shift: true,
                ..Press::default()
            },
            Context::default(),
        ),
        Intent::MoveFocus { reverse: true }
    );
}

#[test]
fn counts_and_g_sequences_compose_into_deterministic_motions() {
    let mut input = BrowserInput::default();

    assert!(matches!(
        input.handle(text("3"), selected()),
        Intent::Pending(_)
    ));
    assert_eq!(
        input.handle(text("j"), selected()),
        Intent::Move(Motion::Down, 3)
    );
    assert!(matches!(
        input.handle(text("5"), selected()),
        Intent::Pending(_)
    ));
    assert_eq!(
        input.handle(text("G"), selected()),
        Intent::Move(Motion::DisplayIndex(4), 1)
    );
    assert!(matches!(
        input.handle(text("g"), selected()),
        Intent::Pending(_)
    ));
    assert_eq!(
        input.handle(text("g"), selected()),
        Intent::Move(Motion::First, 1)
    );
    assert_eq!(
        input.handle(text("G"), selected()),
        Intent::Move(Motion::Last, 1)
    );
}

#[test]
fn viewport_and_half_page_motions_accept_counts() {
    let mut input = BrowserInput::default();

    assert_eq!(
        input.handle(text("H"), selected()),
        Intent::Move(Motion::ViewportTop, 1)
    );
    assert_eq!(
        input.handle(text("M"), selected()),
        Intent::Move(Motion::ViewportMiddle, 1)
    );
    assert_eq!(
        input.handle(text("L"), selected()),
        Intent::Move(Motion::ViewportBottom, 1)
    );

    assert!(matches!(
        input.handle(text("2"), selected()),
        Intent::Pending(_)
    ));
    assert_eq!(
        input.handle(
            Press {
                text: Some("d".to_owned()),
                control: true,
                ..Press::default()
            },
            selected()
        ),
        Intent::Move(Motion::HalfPageDown, 2)
    );
}

#[test]
fn pending_sequences_wait_for_escape_and_invalid_input_explains_the_reset() {
    let mut input = BrowserInput::default();

    assert_eq!(
        input.handle(text("3"), selected()),
        Intent::Pending("3  •  awaiting motion or operator".to_owned())
    );
    assert_eq!(
        input.handle(text("q"), selected()),
        Intent::InvalidSequence("Invalid Browser sequence: 3q".to_owned())
    );
    assert_eq!(input.pending_sequence(), None);

    assert!(matches!(
        input.handle(text("g"), selected()),
        Intent::Pending(_)
    ));
    assert_eq!(
        input.handle(
            Press {
                named: NamedKey::Escape,
                ..Press::default()
            },
            selected()
        ),
        Intent::Pending("Browser sequence cancelled".to_owned())
    );
    assert_eq!(input.pending_sequence(), None);
}

#[test]
fn counts_compose_before_and_after_the_delete_operator() {
    let mut input = BrowserInput::default();

    assert!(matches!(
        input.handle(text("3"), selected()),
        Intent::Pending(_)
    ));
    assert!(matches!(
        input.handle(text("d"), selected()),
        Intent::Pending(_)
    ));
    assert_eq!(
        input.handle(text("d"), selected()),
        Intent::CutMotion(DeleteMotion::Current, 3)
    );

    assert!(matches!(
        input.handle(text("d"), selected()),
        Intent::Pending(_)
    ));
    assert!(matches!(
        input.handle(text("3"), selected()),
        Intent::Pending(_)
    ));
    assert_eq!(
        input.handle(text("j"), selected()),
        Intent::CutMotion(DeleteMotion::Motion(Motion::Down), 3)
    );

    assert!(matches!(
        input.handle(text("3"), selected()),
        Intent::Pending(_)
    ));
    assert!(matches!(
        input.handle(text("d"), selected()),
        Intent::Pending(_)
    ));
    assert!(matches!(
        input.handle(text("2"), selected()),
        Intent::Pending(_)
    ));
    assert_eq!(
        input.handle(text("j"), selected()),
        Intent::CutMotion(DeleteMotion::Motion(Motion::Down), 6)
    );
}

#[test]
fn yank_is_single_key_while_cut_and_black_hole_trash_use_distinct_intents() {
    let mut input = BrowserInput::default();

    assert_eq!(input.handle(text("y"), selected()), Intent::Copy);
    assert_eq!(
        input.handle(text("j"), selected()),
        Intent::Move(Motion::Down, 1)
    );
    assert_eq!(input.handle(text("x"), selected()), Intent::Cut);

    assert!(matches!(
        input.handle(text("\""), selected()),
        Intent::Pending(_)
    ));
    assert_eq!(input.pending_sequence().as_deref(), Some("\""));
    assert!(matches!(
        input.handle(text("_"), selected()),
        Intent::Pending(_)
    ));
    assert_eq!(input.pending_sequence().as_deref(), Some("\"_"));
    assert!(matches!(
        input.handle(text("d"), selected()),
        Intent::Pending(_)
    ));
    assert_eq!(
        input.handle(text("d"), selected()),
        Intent::TrashMotion(DeleteMotion::Current, 1)
    );
}

#[test]
fn focused_sidebar_rejects_file_operators() {
    let mut input = BrowserInput::default();
    let context = Context {
        has_selection: true,
        selection_count: 1,
        file_operators_allowed: false,
        ..Context::default()
    };

    assert!(matches!(
        input.handle(text("d"), context),
        Intent::InvalidSequence(message) if message.contains("sidebar")
    ));
    assert!(matches!(
        input.handle(text("x"), context),
        Intent::InvalidSequence(message) if message.contains("sidebar")
    ));
}
