//! The terminal views: what reaches them, and how they answer. The views
//! hold no issue and no branch themselves: they hold how many there are and
//! which one is selected, and say what is to be done with it.

use vstd::prelude::*;
use crate::text::{slice_chars, to_chars, to_text};

verus! {

/// What reaches a terminal view: a key, or the tick of the clock.
pub enum Event<I> {
    Input(I),
    Tick,
}

/// A key of the keyboard.
#[derive(Clone, Copy, Debug, PartialEq, Eq, Structural)]
pub enum Key {
    Esc,
    Ctrl(char),
    Char(char),
    Up,
    Down,
    Backspace,
    Other,
}

/// Whether keys move through the list or write the title of a new issue.
#[derive(Clone, Copy, Debug, PartialEq, Eq, Structural)]
pub enum InputState {
    Normal,
    Create,
}

/// Whether the view goes on after a key.
#[derive(Clone, Copy, Debug, PartialEq, Eq, Structural)]
pub enum InputResult {
    Continue,
    Exit,
}

/// What a view asks to be done, after a key. The number is the index of the
/// selected entry.
#[derive(Debug, PartialEq, Eq)]
pub enum Request {
    /// Nothing.
    Nothing,
    /// Leave the view.
    Exit,
    /// Make the selected issue the linked one.
    Select(usize),
    /// Link no issue.
    Unselect,
    /// Close the selected issue.
    Close(usize),
    /// Open the page of the selected entry.
    Open(usize),
    /// Create an issue with the given title.
    Create(String),
    /// Delete the selected branch.
    Delete(usize),
    /// Check the selected branch out.
    Checkout(usize),
    /// Tell the user that the key means nothing here.
    Unknown,
}

/// The mathematical value of a `Request`.
pub enum RequestView {
    Nothing,
    Exit,
    Select(usize),
    Unselect,
    Close(usize),
    Open(usize),
    Create(Seq<char>),
    Delete(usize),
    Checkout(usize),
    Unknown,
}

impl View for Request {
    type V = RequestView;

    open spec fn view(&self) -> RequestView {
        match *self {
            Request::Nothing => RequestView::Nothing,
            Request::Exit => RequestView::Exit,
            Request::Select(i) => RequestView::Select(i),
            Request::Unselect => RequestView::Unselect,
            Request::Close(i) => RequestView::Close(i),
            Request::Open(i) => RequestView::Open(i),
            Request::Create(t) => RequestView::Create(t@),
            Request::Delete(i) => RequestView::Delete(i),
            Request::Checkout(i) => RequestView::Checkout(i),
            Request::Unknown => RequestView::Unknown,
        }
    }
}

impl Request {
    /// Whether the view goes on after this request.
    pub fn result(&self) -> (r: InputResult)
        ensures
            r == if self@ is Exit {
                InputResult::Exit
            } else {
                InputResult::Continue
            },
    {
        match self {
            Request::Exit => InputResult::Exit,
            _ => InputResult::Continue,
        }
    }
}

/// The selection one entry further down a list of `count` entries: it stays
/// on the last entry.
pub open spec fn moved_down(selection: usize, count: usize) -> usize {
    if count > 0 && selection < count - 1 {
        (selection + 1) as usize
    } else {
        selection
    }
}

/// The selection one entry further up: it stays on the first entry.
pub open spec fn moved_up(selection: usize) -> usize {
    if selection > 0 {
        (selection - 1) as usize
    } else {
        selection
    }
}

/// The selection held within a list of `count` entries.
pub open spec fn held_within(selection: usize, count: usize) -> usize {
    if selection >= count {
        if count > 0 {
            (count - 1) as usize
        } else {
            0
        }
    } else {
        selection
    }
}

/// What is to be done with the selected entry, if there is one.
pub open spec fn on_selected(selection: usize, count: usize, request: RequestView) -> RequestView {
    if selection < count {
        request
    } else {
        RequestView::Nothing
    }
}

/// The view of the issues.
#[derive(Debug, PartialEq, Eq)]
pub struct IssueViewApp {
    /// How many issues are listed.
    pub count: usize,
    /// The index of the selected issue.
    pub selection: usize,
    pub input_state: InputState,
    /// The title of the issue that is being written.
    pub buffered_issue_title: String,
}

/// The mathematical value of an `IssueViewApp`.
pub struct IssueViewModel {
    pub count: usize,
    pub selection: usize,
    pub input_state: InputState,
    pub title: Seq<char>,
}

impl View for IssueViewApp {
    type V = IssueViewModel;

    open spec fn view(&self) -> IssueViewModel {
        IssueViewModel {
            count: self.count,
            selection: self.selection,
            input_state: self.input_state,
            title: self.buffered_issue_title@,
        }
    }
}

/// The issue view in the given state; going back to normal drops the title
/// that was being written.
pub open spec fn in_state(v: IssueViewModel, state: InputState) -> IssueViewModel {
    IssueViewModel {
        input_state: state,
        title: if state == InputState::Normal {
            Seq::empty()
        } else {
            v.title
        },
        ..v
    }
}

/// What a key does to the issue view, and what the view asks for.
pub open spec fn issue_key(v: IssueViewModel, key: Key) -> (IssueViewModel, RequestView) {
    match v.input_state {
        InputState::Normal => match key {
            Key::Esc | Key::Ctrl('c') | Key::Char('q') => (v, RequestView::Exit),
            Key::Char('j') | Key::Down => (
                IssueViewModel { selection: moved_down(v.selection, v.count), ..v },
                RequestView::Nothing,
            ),
            Key::Char('k') | Key::Up => (
                IssueViewModel { selection: moved_up(v.selection), ..v },
                RequestView::Nothing,
            ),
            Key::Char('s') => (
                v,
                on_selected(v.selection, v.count, RequestView::Select(v.selection)),
            ),
            Key::Char('x') => (v, RequestView::Unselect),
            Key::Char('d') => (v, on_selected(v.selection, v.count, RequestView::Close(v.selection))),
            Key::Char('c') => (in_state(v, InputState::Create), RequestView::Nothing),
            Key::Char('\n') => (
                v,
                on_selected(v.selection, v.count, RequestView::Open(v.selection)),
            ),
            _ => (v, RequestView::Unknown),
        },
        InputState::Create => match key {
            Key::Esc | Key::Ctrl('c') => (in_state(v, InputState::Normal), RequestView::Nothing),
            Key::Backspace => (
                IssueViewModel {
                    title: if v.title.len() > 0 {
                        v.title.drop_last()
                    } else {
                        v.title
                    },
                    ..v
                },
                RequestView::Nothing,
            ),
            Key::Char('\n') => (in_state(v, InputState::Normal), RequestView::Create(v.title)),
            Key::Char(c) => (IssueViewModel { title: v.title.push(c), ..v }, RequestView::Nothing),
            _ => (v, RequestView::Nothing),
        },
    }
}

impl IssueViewApp {
    /// The view of `count` issues, with the first selected.
    pub fn new(count: usize) -> (app: IssueViewApp)
        ensures
            app@ == (IssueViewModel {
                count,
                selection: 0,
                input_state: InputState::Normal,
                title: Seq::empty(),
            }),
    {
        IssueViewApp {
            count,
            selection: 0,
            input_state: InputState::Normal,
            buffered_issue_title: String::new(),
        }
    }

    /// Selects the next issue, if there is one.
    pub fn down(&mut self)
        ensures
            final(self)@ == (IssueViewModel {
                selection: moved_down(old(self).selection, old(self).count),
                ..old(self)@
            }),
    {
        if self.count > 0 && self.selection < self.count - 1 {
            self.selection += 1;
        }
    }

    /// Selects the issue before, if there is one.
    pub fn up(&mut self)
        ensures
            final(self)@ == (IssueViewModel { selection: moved_up(old(self).selection), ..old(self)@ }),
    {
        if self.selection > 0 {
            self.selection -= 1;
        }
    }

    /// Whether there is a selected issue.
    pub fn get_selected(&self) -> (index: Option<usize>)
        ensures
            index == if self.selection < self.count {
                Some(self.selection)
            } else {
                None
            },
    {
        if self.selection < self.count {
            Some(self.selection)
        } else {
            None
        }
    }

    /// Changes between moving and writing.
    pub fn set_input_state(&mut self, state: InputState)
        ensures
            final(self)@ == in_state(old(self)@, state),
    {
        self.input_state = state;
        if state == InputState::Normal {
            self.buffered_issue_title = String::new();
        }
    }

    /// Takes note that `count` issues are listed now; the selection stays
    /// within them.
    pub fn update(&mut self, count: usize)
        ensures
            final(self)@ == (IssueViewModel {
                count,
                selection: held_within(old(self).selection, count),
                ..old(self)@
            }),
    {
        self.count = count;
        if self.selection >= count {
            self.selection = if count > 0 {
                count - 1
            } else {
                0
            };
        }
    }

    fn ask_for_selected(&self, request: Request) -> (r: Request)
        ensures
            r@ == on_selected(self.selection, self.count, request@),
    {
        if self.selection < self.count {
            request
        } else {
            Request::Nothing
        }
    }

    /// Takes a key: see `issue_key`.
    pub fn handle_input(&mut self, input: Key) -> (request: Request)
        ensures
            (final(self)@, request@) == issue_key(old(self)@, input),
    {
        match self.input_state {
            InputState::Normal => match input {
                Key::Esc | Key::Ctrl('c') | Key::Char('q') => Request::Exit,
                Key::Char('j') | Key::Down => {
                    self.down();
                    Request::Nothing
                },
                Key::Char('k') | Key::Up => {
                    self.up();
                    Request::Nothing
                },
                Key::Char('s') => self.ask_for_selected(Request::Select(self.selection)),
                Key::Char('x') => Request::Unselect,
                Key::Char('d') => self.ask_for_selected(Request::Close(self.selection)),
                Key::Char('c') => {
                    self.set_input_state(InputState::Create);
                    Request::Nothing
                },
                Key::Char('\n') => self.ask_for_selected(Request::Open(self.selection)),
                _ => Request::Unknown,
            },
            InputState::Create => match input {
                Key::Esc | Key::Ctrl('c') => {
                    self.set_input_state(InputState::Normal);
                    Request::Nothing
                },
                Key::Backspace => {
                    let chars = to_chars(self.buffered_issue_title.as_str());
                    if chars.len() > 0 {
                        self.buffered_issue_title = to_text(
                            &slice_chars(&chars, 0, chars.len() - 1),
                        );
                    }
                    Request::Nothing
                },
                Key::Char('\n') => {
                    let title = self.buffered_issue_title.clone();
                    self.set_input_state(InputState::Normal);
                    Request::Create(title)
                },
                Key::Char(c) => {
                    self.buffered_issue_title.push(c);
                    Request::Nothing
                },
                _ => Request::Nothing,
            },
        }
    }
}

/// The view of the branches and their pull requests.
#[derive(Clone, Copy, Debug, PartialEq, Eq, Structural)]
pub struct PullApp {
    /// How many branches are listed.
    pub count: usize,
    /// The index of the selected branch.
    pub selection: usize,
}

/// What a key does to the branch view, and what the view asks for.
pub open spec fn pull_key(v: PullApp, key: Key) -> (PullApp, RequestView) {
    match key {
        Key::Esc | Key::Ctrl('c') | Key::Char('q') => (v, RequestView::Exit),
        Key::Char('d') => (v, on_selected(v.selection, v.count, RequestView::Delete(v.selection))),
        Key::Char('j') | Key::Down => (
            PullApp { selection: moved_down(v.selection, v.count), ..v },
            RequestView::Nothing,
        ),
        Key::Char('k') | Key::Up => (
            PullApp { selection: moved_up(v.selection), ..v },
            RequestView::Nothing,
        ),
        Key::Char('c') => (
            v,
            on_selected(v.selection, v.count, RequestView::Checkout(v.selection)),
        ),
        Key::Char('\n') => (v, on_selected(v.selection, v.count, RequestView::Open(v.selection))),
        _ => (v, RequestView::Unknown),
    }
}

impl PullApp {
    /// The view of `count` branches, with the first selected.
    pub fn new(count: usize) -> (app: PullApp)
        ensures
            app == (PullApp { count, selection: 0 }),
    {
        PullApp { count, selection: 0 }
    }

    /// Selects the next branch, if there is one.
    pub fn down(&mut self)
        ensures
            *final(self) == (PullApp {
                selection: moved_down(old(self).selection, old(self).count),
                ..*old(self)
            }),
    {
        if self.count > 0 && self.selection < self.count - 1 {
            self.selection += 1;
        }
    }

    /// Selects the branch before, if there is one.
    pub fn up(&mut self)
        ensures
            *final(self) == (PullApp { selection: moved_up(old(self).selection), ..*old(self) }),
    {
        if self.selection > 0 {
            self.selection -= 1;
        }
    }

    /// Takes note that `count` branches are listed now; the selection stays
    /// within them.
    pub fn update(&mut self, count: usize)
        ensures
            *final(self) == (PullApp { count, selection: held_within(old(self).selection, count) }),
    {
        self.count = count;
        if self.selection >= count {
            self.selection = if count > 0 {
                count - 1
            } else {
                0
            };
        }
    }

    /// Takes a key: see `pull_key`.
    pub fn handle_input(&mut self, input: Key) -> (request: Request)
        ensures
            (*final(self), request@) == pull_key(*old(self), input),
    {
        let chosen = self.selection < self.count;
        match input {
            Key::Esc | Key::Ctrl('c') | Key::Char('q') => Request::Exit,
            Key::Char('d') => {
                if chosen {
                    Request::Delete(self.selection)
                } else {
                    Request::Nothing
                }
            },
            Key::Char('j') | Key::Down => {
                self.down();
                Request::Nothing
            },
            Key::Char('k') | Key::Up => {
                self.up();
                Request::Nothing
            },
            Key::Char('c') => {
                if chosen {
                    Request::Checkout(self.selection)
                } else {
                    Request::Nothing
                }
            },
            Key::Char('\n') => {
                if chosen {
                    Request::Open(self.selection)
                } else {
                    Request::Nothing
                }
            },
            _ => Request::Unknown,
        }
    }
}

} // verus!
