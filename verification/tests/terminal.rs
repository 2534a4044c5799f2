use gg::terminal::{InputResult, InputState, IssueViewApp, Key, PullApp, Request};

fn issues(count: usize) -> IssueViewApp {
    IssueViewApp::new(count)
}

#[test]
fn a_new_view_selects_the_first_entry() {
    let v = issues(3);
    assert_eq!(v.count, 3);
    assert_eq!(v.selection, 0);
    assert_eq!(v.input_state, InputState::Normal);
    assert_eq!(v.buffered_issue_title, "");
    assert_eq!(v.get_selected(), Some(0));
    assert_eq!(issues(0).get_selected(), None);
    assert_eq!(PullApp::new(2), PullApp { count: 2, selection: 0 });
}

#[test]
fn the_selection_moves_within_the_list() {
    let mut v = issues(3);
    v.up();
    assert_eq!(v.selection, 0);
    v.down();
    v.down();
    assert_eq!(v.selection, 2);
    v.down();
    assert_eq!(v.selection, 2);
    v.up();
    assert_eq!(v.selection, 1);
    let mut empty = issues(0);
    empty.down();
    empty.up();
    assert_eq!(empty.selection, 0);
    let mut p = PullApp::new(2);
    p.down();
    p.down();
    assert_eq!(p.selection, 1);
    p.up();
    p.up();
    assert_eq!(p.selection, 0);
    let mut none = PullApp::new(0);
    none.down();
    assert_eq!(none.selection, 0);
}

#[test]
fn the_selection_stays_within_a_list_that_shrinks() {
    let mut v = issues(5);
    v.selection = 4;
    v.update(3);
    assert_eq!((v.count, v.selection), (3, 2));
    v.update(10);
    assert_eq!((v.count, v.selection), (10, 2));
    v.update(0);
    assert_eq!((v.count, v.selection), (0, 0));
    let mut p = PullApp { count: 5, selection: 4 };
    p.update(2);
    assert_eq!(p, PullApp { count: 2, selection: 1 });
    p.update(0);
    assert_eq!(p, PullApp { count: 0, selection: 0 });
}

#[test]
fn keys_of_the_issue_view() {
    let mut v = issues(3);
    assert_eq!(v.handle_input(Key::Char('j')), Request::Nothing);
    assert_eq!(v.selection, 1);
    assert_eq!(v.handle_input(Key::Down), Request::Nothing);
    assert_eq!(v.selection, 2);
    assert_eq!(v.handle_input(Key::Char('k')), Request::Nothing);
    assert_eq!(v.handle_input(Key::Up), Request::Nothing);
    assert_eq!(v.selection, 0);
    v.down();
    assert_eq!(v.handle_input(Key::Char('s')), Request::Select(1));
    assert_eq!(v.handle_input(Key::Char('x')), Request::Unselect);
    assert_eq!(v.handle_input(Key::Char('d')), Request::Close(1));
    assert_eq!(v.handle_input(Key::Char('\n')), Request::Open(1));
    assert_eq!(v.handle_input(Key::Char('z')), Request::Unknown);
    assert_eq!(v.handle_input(Key::Backspace), Request::Unknown);
    assert_eq!(v.handle_input(Key::Other), Request::Unknown);
    assert_eq!(v.handle_input(Key::Ctrl('x')), Request::Unknown);
    for key in [Key::Esc, Key::Ctrl('c'), Key::Char('q')] {
        assert_eq!(v.handle_input(key), Request::Exit);
    }
    assert_eq!(v.selection, 1);
    assert_eq!(v.input_state, InputState::Normal);
}

#[test]
fn keys_of_an_empty_issue_view_ask_for_nothing() {
    let mut v = issues(0);
    for key in [Key::Char('s'), Key::Char('d'), Key::Char('\n')] {
        assert_eq!(v.handle_input(key), Request::Nothing);
    }
    assert_eq!(v.handle_input(Key::Char('x')), Request::Unselect);
}

#[test]
fn a_title_is_written_and_sent() {
    let mut v = issues(1);
    assert_eq!(v.handle_input(Key::Char('c')), Request::Nothing);
    assert_eq!(v.input_state, InputState::Create);
    for c in "fix qu".chars() {
        assert_eq!(v.handle_input(Key::Char(c)), Request::Nothing);
    }
    assert_eq!(v.buffered_issue_title, "fix qu");
    assert_eq!(v.handle_input(Key::Backspace), Request::Nothing);
    assert_eq!(v.handle_input(Key::Backspace), Request::Nothing);
    assert_eq!(v.handle_input(Key::Up), Request::Nothing);
    assert_eq!(v.handle_input(Key::Ctrl('x')), Request::Nothing);
    assert_eq!(v.buffered_issue_title, "fix ");
    assert_eq!(v.handle_input(Key::Char('j')), Request::Nothing);
    assert_eq!(v.selection, 0);
    assert_eq!(v.handle_input(Key::Char('\n')), Request::Create("fix j".to_string()));
    assert_eq!(v.input_state, InputState::Normal);
    assert_eq!(v.buffered_issue_title, "");
}

#[test]
fn a_title_is_given_up() {
    for key in [Key::Esc, Key::Ctrl('c')] {
        let mut v = issues(1);
        v.set_input_state(InputState::Create);
        v.handle_input(Key::Char('a'));
        assert_eq!(v.handle_input(key), Request::Nothing);
        assert_eq!(v.input_state, InputState::Normal);
        assert_eq!(v.buffered_issue_title, "");
    }
    let mut v = issues(1);
    v.set_input_state(InputState::Create);
    assert_eq!(v.handle_input(Key::Backspace), Request::Nothing);
    assert_eq!(v.buffered_issue_title, "");
    v.handle_input(Key::Char('q'));
    assert_eq!(v.buffered_issue_title, "q");
    v.set_input_state(InputState::Create);
    assert_eq!(v.buffered_issue_title, "q");
}

#[test]
fn keys_of_the_branch_view() {
    let mut p = PullApp::new(3);
    assert_eq!(p.handle_input(Key::Char('j')), Request::Nothing);
    assert_eq!(p.handle_input(Key::Down), Request::Nothing);
    assert_eq!(p.selection, 2);
    assert_eq!(p.handle_input(Key::Char('k')), Request::Nothing);
    assert_eq!(p.selection, 1);
    assert_eq!(p.handle_input(Key::Up), Request::Nothing);
    assert_eq!(p.selection, 0);
    assert_eq!(p.handle_input(Key::Char('d')), Request::Delete(0));
    assert_eq!(p.handle_input(Key::Char('c')), Request::Checkout(0));
    assert_eq!(p.handle_input(Key::Char('\n')), Request::Open(0));
    assert_eq!(p.handle_input(Key::Char('s')), Request::Unknown);
    for key in [Key::Esc, Key::Ctrl('c'), Key::Char('q')] {
        assert_eq!(p.handle_input(key), Request::Exit);
    }
    let mut none = PullApp::new(0);
    for key in [Key::Char('d'), Key::Char('c'), Key::Char('\n')] {
        assert_eq!(none.handle_input(key), Request::Nothing);
    }
}

#[test]
fn only_an_exit_ends_the_view() {
    assert_eq!(Request::Exit.result(), InputResult::Exit);
    assert_eq!(Request::Nothing.result(), InputResult::Continue);
    assert_eq!(Request::Unknown.result(), InputResult::Continue);
    assert_eq!(Request::Create("x".to_string()).result(), InputResult::Continue);
}
