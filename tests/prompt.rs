use todoism::prompt::{select_next, select_previous, InputMode, Prompt};

#[test]
fn selection_wraps_both_ways() {
    assert_eq!(select_next(None, 3), Some(0));
    assert_eq!(select_next(Some(0), 3), Some(1));
    assert_eq!(select_next(Some(2), 3), Some(0));
    assert_eq!(select_previous(Some(0), 3), Some(2));
    assert_eq!(select_previous(Some(2), 3), Some(1));
    assert_eq!(select_previous(None, 3), Some(0));
    assert_eq!(select_next(Some(1), 0), Some(1));
    assert_eq!(select_previous(None, 0), None);
}

#[test]
fn editing_the_prompt_line() {
    let mut p = Prompt::new(InputMode::Normal);
    p.enter_add_mode();
    assert_eq!(p.input_mode, InputMode::Adding);
    for c in "héllo".chars() {
        p.input_char(c);
    }
    p.move_cursor_left();
    p.move_cursor_left();
    p.input_char('X');
    assert_eq!(p.input.iter().collect::<String>(), "hélXlo");
    assert_eq!(p.cursor_position, 4);
    p.delete_char();
    p.delete_char();
    assert_eq!(p.input.iter().collect::<String>(), "hélo");
    assert_eq!(p.cursor_position, 2);
    p.move_cursor_right();
    p.move_cursor_right();
    p.move_cursor_right();
    assert_eq!(p.cursor_position, 4);
    p.exit_input_mode();
    assert_eq!(p.input_mode, InputMode::Normal);
    let mut q = Prompt::new(InputMode::Normal);
    q.delete_char();
    q.move_cursor_left();
    assert_eq!(q.cursor_position, 0);
    q.enter_modify_mode(false);
    assert_eq!(q.input_mode, InputMode::Normal);
    q.enter_modify_mode(true);
    assert_eq!(q.input_mode, InputMode::Modifying);
    q.enter_complete_mode("30m".chars().collect());
    assert_eq!(q.input_mode, InputMode::CompleteWithEffort);
    assert_eq!(q.cursor_position, 3);
}
