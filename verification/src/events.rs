//! The event state machine: one ordered stream of ticks, key presses,
//! the single data-load result and error reports drives the session.
//! Each event yields the next state and an action for the event loop —
//! redrawing is implicit after every event; probing the target file and
//! writing it are requested explicitly and their outcomes handed back.

use vstd::prelude::*;
use vstd::string::StringExecFns;
use crate::catalog::CacheData;
use crate::catalog::pairs_map;
use crate::filter::spec_filtered;
use crate::order::sorted_strict;
use crate::output::WriteMode;
use crate::session::App;
use crate::session::ConfirmAction;
use crate::session::InputMode;
use crate::session::PreviewMode;
use crate::session::SessionView;
use crate::session::clamp_index;
use crate::session::max_scroll_of;
use crate::strings::pop_char;
use crate::strings::push_char;

verus! {

/// A key, as the abstract key surface knows it.
#[derive(Debug, PartialEq, Eq, Structural, Clone, Copy)]
pub enum KeyCode {
    Char(char),
    Enter,
    Esc,
    Backspace,
    Up,
    Down,
    Left,
    Right,
    PageUp,
    PageDown,
}

/// One key press: the key and whether Alt or Ctrl was held.
#[derive(Debug, PartialEq, Eq, Structural, Clone, Copy)]
pub struct KeyInput {
    pub code: KeyCode,
    pub alt: bool,
    pub ctrl: bool,
}

/// One event on the session's single ordered channel.
#[derive(Debug)]
pub enum AppEvent {
    /// The poller's periodic heartbeat; forces a redraw, changes nothing.
    Tick,
    /// One key press.
    Key(KeyInput),
    /// The acquisition task's single successful result.
    DataLoaded(CacheData),
    /// A failure reported by a background task.
    Error(String),
}

/// What the event loop must do after an event is handled.  A redraw
/// follows every event and is not listed.
#[derive(Debug, PartialEq, Eq, Structural, Clone, Copy)]
pub enum EventAction {
    /// Nothing beyond the redraw.
    Continue,
    /// Leave the session.
    Quit,
    /// Check whether the target file exists and report back through
    /// `begin_save`.
    ProbeSave,
    /// Write the generated content in the given mode and report the
    /// outcome through `finish_save`.
    Write(WriteMode),
}

/// Circular move to the next filtered name.
pub open spec fn nav_next(pre: SessionView, post: SessionView) -> bool {
    if pre.filtered.len() == 0 {
        post == pre
    } else {
        post == (SessionView {
            highlighted: (pre.highlighted + 1) % (pre.filtered.len() as int),
            preview_scroll: 0,
            ..pre
        })
    }
}

/// Circular move to the previous filtered name.
pub open spec fn nav_previous(pre: SessionView, post: SessionView) -> bool {
    if pre.filtered.len() == 0 {
        post == pre
    } else {
        post == (SessionView {
            highlighted: if pre.highlighted > 0 {
                pre.highlighted - 1
            } else {
                pre.filtered.len() - 1
            },
            preview_scroll: 0,
            ..pre
        })
    }
}

/// Toggling the highlighted name in the selection.
pub open spec fn toggle_step(pre: SessionView, post: SessionView) -> bool {
    if pre.filtered.len() == 0 {
        post == (SessionView { error: None, notification: None, ..pre })
    } else {
        let name = pre.filtered[pre.highlighted];
        &&& post == (SessionView {
            selected: post.selected,
            error: None,
            notification: None,
            ..pre
        })
        &&& sorted_strict(post.selected)
        &&& post.selected.to_set() == if pre.selected.contains(name) {
            pre.selected.to_set().remove(name)
        } else {
            pre.selected.to_set().insert(name)
        }
    }
}

/// The query replaced: the filter recomputed and the highlight
/// re-clamped, both status messages cleared.
pub open spec fn query_step(pre: SessionView, q2: Seq<char>, post: SessionView) -> bool {
    post == (SessionView {
        query: q2,
        filtered: spec_filtered(pre.templates, q2),
        highlighted: clamp_index(pre.highlighted, spec_filtered(pre.templates, q2).len() as int),
        notification: None,
        error: None,
        ..pre
    })
}

/// A save request: rejected with a message when nothing is selected,
/// otherwise the quit-after-save flag is set as asked and the event
/// loop is told to probe the target file.
pub open spec fn save_request_step(
    pre: SessionView,
    post: SessionView,
    act: EventAction,
    quit_after: bool,
) -> bool {
    if pre.selected.len() == 0 {
        &&& act == EventAction::Continue
        &&& post == (SessionView {
            error: Some("No templates selected!"@),
            notification: None,
            ..pre
        })
    } else {
        &&& act == EventAction::ProbeSave
        &&& post == (SessionView {
            notification: None,
            error: None,
            should_quit_after_save: quit_after,
            ..pre
        })
    }
}

/// One scroll line down, stopping at the bottom.
pub open spec fn scroll_down_view(pre: SessionView) -> SessionView {
    SessionView {
        preview_scroll: if pre.preview_scroll < max_scroll_of(pre) {
            pre.preview_scroll + 1
        } else {
            pre.preview_scroll
        },
        ..pre
    }
}

/// One scroll line up, stopping at the top.
pub open spec fn scroll_up_view(pre: SessionView) -> SessionView {
    SessionView {
        preview_scroll: if pre.preview_scroll > 0 {
            pre.preview_scroll - 1
        } else {
            0
        },
        ..pre
    }
}

/// A page of ten lines down, stopping at the bottom.
pub open spec fn page_down_view(pre: SessionView) -> SessionView {
    SessionView {
        preview_scroll: if pre.preview_scroll + 10 > max_scroll_of(pre) {
            max_scroll_of(pre)
        } else {
            pre.preview_scroll + 10
        },
        ..pre
    }
}

/// A page of ten lines up, stopping at the top.
pub open spec fn page_up_view(pre: SessionView) -> SessionView {
    SessionView {
        preview_scroll: if pre.preview_scroll >= 10 {
            pre.preview_scroll - 10
        } else {
            0
        },
        ..pre
    }
}

/// A key while the search field is being edited.
pub open spec fn editing_step(
    pre: SessionView,
    k: KeyInput,
    post: SessionView,
    act: EventAction,
) -> bool {
    &&& act == EventAction::Continue
    &&& match k.code {
        KeyCode::Char(c) => query_step(pre, pre.query.push(c), post),
        KeyCode::Backspace => query_step(
            pre,
            if pre.query.len() > 0 {
                pre.query.drop_last()
            } else {
                pre.query
            },
            post,
        ),
        KeyCode::Esc | KeyCode::Enter => post == (SessionView {
            input_mode: InputMode::Normal,
            ..pre
        }),
        KeyCode::Down => nav_next(pre, post),
        KeyCode::Up => nav_previous(pre, post),
        _ => post == pre,
    }
}

/// A key while browsing.
pub open spec fn normal_step(
    pre: SessionView,
    k: KeyInput,
    post: SessionView,
    act: EventAction,
) -> bool {
    match k.code {
        KeyCode::Char(c) => {
            if c == 'i' || c == '/' {
                &&& act == EventAction::Continue
                &&& post == (SessionView {
                    input_mode: InputMode::Editing,
                    notification: None,
                    error: None,
                    ..pre
                })
            } else if c == 'q' {
                act == EventAction::Quit && post == pre
            } else if c == 'j' && k.alt {
                act == EventAction::Continue && post == scroll_down_view(pre)
            } else if c == 'k' && k.alt {
                act == EventAction::Continue && post == scroll_up_view(pre)
            } else if c == 'j' {
                act == EventAction::Continue && nav_next(pre, post)
            } else if c == 'k' {
                act == EventAction::Continue && nav_previous(pre, post)
            } else if c == ' ' {
                act == EventAction::Continue && toggle_step(pre, post)
            } else if c == 'p' {
                &&& act == EventAction::Continue
                &&& post == (SessionView {
                    preview_mode: match pre.preview_mode {
                        PreviewMode::Highlighted => PreviewMode::Combined,
                        PreviewMode::Combined => PreviewMode::Highlighted,
                    },
                    preview_scroll: 0,
                    ..pre
                })
            } else if c == 's' && k.ctrl {
                save_request_step(pre, post, act, false)
            } else {
                act == EventAction::Continue && post == pre
            }
        },
        KeyCode::Esc => act == EventAction::Quit && post == pre,
        KeyCode::Down => {
            if k.alt {
                act == EventAction::Continue && post == scroll_down_view(pre)
            } else {
                act == EventAction::Continue && nav_next(pre, post)
            }
        },
        KeyCode::Up => {
            if k.alt {
                act == EventAction::Continue && post == scroll_up_view(pre)
            } else {
                act == EventAction::Continue && nav_previous(pre, post)
            }
        },
        KeyCode::PageDown => act == EventAction::Continue && post == page_down_view(pre),
        KeyCode::PageUp => act == EventAction::Continue && post == page_up_view(pre),
        KeyCode::Enter => save_request_step(pre, post, act, true),
        _ => act == EventAction::Continue && post == pre,
    }
}

/// A key while the overwrite-or-append confirmation is shown.
pub open spec fn confirm_step(
    pre: SessionView,
    k: KeyInput,
    post: SessionView,
    act: EventAction,
) -> bool {
    match k.code {
        KeyCode::Char(c) => {
            if c == 'a' {
                act == EventAction::Continue && post == (SessionView {
                    confirm_action: Some(ConfirmAction::Append),
                    ..pre
                })
            } else if c == 'o' {
                act == EventAction::Continue && post == (SessionView {
                    confirm_action: Some(ConfirmAction::Overwrite),
                    ..pre
                })
            } else {
                act == EventAction::Continue && post == pre
            }
        },
        KeyCode::Left => act == EventAction::Continue && post == (SessionView {
            confirm_action: Some(ConfirmAction::Append),
            ..pre
        }),
        KeyCode::Right => act == EventAction::Continue && post == (SessionView {
            confirm_action: Some(ConfirmAction::Overwrite),
            ..pre
        }),
        KeyCode::Enter => {
            &&& act == EventAction::Write(
                if pre.confirm_action == Some(ConfirmAction::Append) {
                    WriteMode::Append
                } else {
                    WriteMode::Overwrite
                },
            )
            &&& post == pre
        },
        KeyCode::Esc => {
            &&& act == EventAction::Continue
            &&& post == (SessionView {
                error: None,
                notification: None,
                input_mode: InputMode::Normal,
                ..pre
            })
        },
        _ => act == EventAction::Continue && post == pre,
    }
}

/// The whole transition: what state an event leaves and what action it
/// demands.
pub open spec fn step(
    pre: SessionView,
    ev: AppEvent,
    post: SessionView,
    act: EventAction,
) -> bool {
    match ev {
        AppEvent::Tick => act == EventAction::Continue && post == pre,
        AppEvent::Error(e) => {
            &&& act == EventAction::Continue
            &&& post == (SessionView {
                error: Some(e@),
                notification: None,
                is_loading: false,
                ..pre
            })
        },
        AppEvent::DataLoaded(cache) => {
            &&& act == EventAction::Continue
            &&& sorted_strict(post.templates)
            &&& post.templates.to_set() == cache.templates.deep_view().to_set()
            &&& post.contents == pairs_map(cache.contents.deep_view())
            &&& forall|y: Seq<char>|
                #[trigger] post.selected.contains(y) <==> (pre.selected.contains(y)
                    && post.templates.contains(y))
            &&& post.filtered == spec_filtered(post.templates, pre.query)
            &&& post.highlighted == clamp_index(pre.highlighted, post.filtered.len() as int)
            &&& post == (SessionView {
                templates: post.templates,
                filtered: post.filtered,
                selected: post.selected,
                highlighted: post.highlighted,
                contents: post.contents,
                is_loading: false,
                ..pre
            })
        },
        AppEvent::Key(k) => match pre.input_mode {
            InputMode::Editing => editing_step(pre, k, post, act),
            InputMode::Normal => normal_step(pre, k, post, act),
            InputMode::Confirm => confirm_step(pre, k, post, act),
        },
    }
}

impl App {
    /// Handles one event from the channel: mutates the session state
    /// and tells the event loop what to do besides redrawing.
    pub fn handle_event(&mut self, ev: AppEvent) -> (act: EventAction)
        requires
            old(self).wf(),
        ensures
            final(self).wf(),
            step(old(self)@, ev, final(self)@, act),
    {
        match ev {
            AppEvent::Tick => EventAction::Continue,
            AppEvent::Error(e) => {
                self.error = Some(e);
                self.notification = None;
                self.is_loading = false;
                proof {
                    assert(self@ =~= (SessionView {
                        error: self@.error,
                        notification: None,
                        is_loading: false,
                        ..old(self)@
                    }));
                }
                EventAction::Continue
            },
            AppEvent::DataLoaded(cache) => {
                self.template_contents = cache.contents;
                self.set_templates(cache.templates);
                proof {
                    assert(self@ =~= (SessionView {
                        templates: self@.templates,
                        filtered: self@.filtered,
                        selected: self@.selected,
                        highlighted: self@.highlighted,
                        contents: self@.contents,
                        is_loading: false,
                        ..old(self)@
                    }));
                }
                EventAction::Continue
            },
            AppEvent::Key(k) => {
                match self.input_mode {
                    InputMode::Editing => self.handle_editing_key(k),
                    InputMode::Normal => self.handle_normal_key(k),
                    InputMode::Confirm => self.handle_confirm_key(k),
                }
            },
        }
    }

    /// Handles a key in search-editing mode.
    fn handle_editing_key(&mut self, k: KeyInput) -> (act: EventAction)
        requires
            old(self).wf(),
            old(self)@.input_mode == InputMode::Editing,
        ensures
            final(self).wf(),
            editing_step(old(self)@, k, final(self)@, act),
    {
        match k.code {
            KeyCode::Char(c) => {
                self.notification = None;
                self.error = None;
                push_char(&mut self.search_query, c);
                self.apply_filter();
                proof {
                    assert(self@ =~= (SessionView {
                        query: old(self)@.query.push(c),
                        filtered: spec_filtered(old(self)@.templates, old(self)@.query.push(c)),
                        highlighted: clamp_index(
                            old(self)@.highlighted,
                            spec_filtered(
                                old(self)@.templates,
                                old(self)@.query.push(c),
                            ).len() as int,
                        ),
                        notification: None,
                        error: None,
                        ..old(self)@
                    }));
                }
            },
            KeyCode::Backspace => {
                self.notification = None;
                self.error = None;
                let _ = pop_char(&mut self.search_query);
                self.apply_filter();
                proof {
                    let q2 = if old(self)@.query.len() > 0 {
                        old(self)@.query.drop_last()
                    } else {
                        old(self)@.query
                    };
                    assert(self@ =~= (SessionView {
                        query: q2,
                        filtered: spec_filtered(old(self)@.templates, q2),
                        highlighted: clamp_index(
                            old(self)@.highlighted,
                            spec_filtered(old(self)@.templates, q2).len() as int,
                        ),
                        notification: None,
                        error: None,
                        ..old(self)@
                    }));
                }
            },
            KeyCode::Esc | KeyCode::Enter => {
                self.input_mode = InputMode::Normal;
                proof {
                    assert(self@ =~= (SessionView { input_mode: InputMode::Normal, ..old(self)@ }));
                }
            },
            KeyCode::Down => {
                self.next();
            },
            KeyCode::Up => {
                self.previous();
            },
            _ => (),
        }
        EventAction::Continue
    }

    /// Handles a key in browsing mode.
    fn handle_normal_key(&mut self, k: KeyInput) -> (act: EventAction)
        requires
            old(self).wf(),
            old(self)@.input_mode == InputMode::Normal,
        ensures
            final(self).wf(),
            normal_step(old(self)@, k, final(self)@, act),
    {
        match k.code {
            KeyCode::Char(c) => {
                if c == 'i' || c == '/' {
                    self.notification = None;
                    self.error = None;
                    self.input_mode = InputMode::Editing;
                    proof {
                        assert(self@ =~= (SessionView {
                            input_mode: InputMode::Editing,
                            notification: None,
                            error: None,
                            ..old(self)@
                        }));
                    }
                    EventAction::Continue
                } else if c == 'q' {
                    EventAction::Quit
                } else if c == 'j' && k.alt {
                    self.scroll_preview_down();
                    EventAction::Continue
                } else if c == 'k' && k.alt {
                    self.scroll_preview_up();
                    EventAction::Continue
                } else if c == 'j' {
                    self.next();
                    EventAction::Continue
                } else if c == 'k' {
                    self.previous();
                    EventAction::Continue
                } else if c == ' ' {
                    self.toggle_selection();
                    EventAction::Continue
                } else if c == 'p' {
                    self.preview_mode = match self.preview_mode {
                        PreviewMode::Highlighted => PreviewMode::Combined,
                        PreviewMode::Combined => PreviewMode::Highlighted,
                    };
                    self.preview_scroll = 0;
                    proof {
                        assert(self@ =~= (SessionView {
                            preview_mode: match old(self)@.preview_mode {
                                PreviewMode::Highlighted => PreviewMode::Combined,
                                PreviewMode::Combined => PreviewMode::Highlighted,
                            },
                            preview_scroll: 0,
                            ..old(self)@
                        }));
                    }
                    EventAction::Continue
                } else if c == 's' && k.ctrl {
                    self.request_save(false)
                } else {
                    EventAction::Continue
                }
            },
            KeyCode::Esc => EventAction::Quit,
            KeyCode::Down => {
                if k.alt {
                    self.scroll_preview_down();
                } else {
                    self.next();
                }
                EventAction::Continue
            },
            KeyCode::Up => {
                if k.alt {
                    self.scroll_preview_up();
                } else {
                    self.previous();
                }
                EventAction::Continue
            },
            KeyCode::PageDown => {
                self.page_preview_down();
                EventAction::Continue
            },
            KeyCode::PageUp => {
                self.page_preview_up();
                EventAction::Continue
            },
            KeyCode::Enter => self.request_save(true),
            _ => EventAction::Continue,
        }
    }

    /// Starts a save: rejects an empty selection with a message, else
    /// records whether to quit after saving and asks the event loop to
    /// probe the target file.
    fn request_save(&mut self, quit_after: bool) -> (act: EventAction)
        requires
            old(self).wf(),
        ensures
            final(self).wf(),
            save_request_step(old(self)@, final(self)@, act, quit_after),
    {
        if self.selected_templates.len() == 0 {
            self.error = Some(String::from_str("No templates selected!"));
            self.notification = None;
            proof {
                assert(self@ =~= (SessionView {
                    error: Some("No templates selected!"@),
                    notification: None,
                    ..old(self)@
                }));
            }
            EventAction::Continue
        } else {
            self.notification = None;
            self.error = None;
            self.should_quit_after_save = quit_after;
            proof {
                assert(self@ =~= (SessionView {
                    notification: None,
                    error: None,
                    should_quit_after_save: quit_after,
                    ..old(self)@
                }));
            }
            EventAction::ProbeSave
        }
    }

    /// Handles a key while the confirmation modal is shown.
    fn handle_confirm_key(&mut self, k: KeyInput) -> (act: EventAction)
        requires
            old(self).wf(),
            old(self)@.input_mode == InputMode::Confirm,
        ensures
            final(self).wf(),
            confirm_step(old(self)@, k, final(self)@, act),
    {
        match k.code {
            KeyCode::Char(c) => {
                if c == 'a' {
                    self.confirm_action = Some(ConfirmAction::Append);
                    proof {
                        assert(self@ =~= (SessionView {
                            confirm_action: Some(ConfirmAction::Append),
                            ..old(self)@
                        }));
                    }
                } else if c == 'o' {
                    self.confirm_action = Some(ConfirmAction::Overwrite);
                    proof {
                        assert(self@ =~= (SessionView {
                            confirm_action: Some(ConfirmAction::Overwrite),
                            ..old(self)@
                        }));
                    }
                }
                EventAction::Continue
            },
            KeyCode::Left => {
                self.confirm_action = Some(ConfirmAction::Append);
                proof {
                    assert(self@ =~= (SessionView {
                        confirm_action: Some(ConfirmAction::Append),
                        ..old(self)@
                    }));
                }
                EventAction::Continue
            },
            KeyCode::Right => {
                self.confirm_action = Some(ConfirmAction::Overwrite);
                proof {
                    assert(self@ =~= (SessionView {
                        confirm_action: Some(ConfirmAction::Overwrite),
                        ..old(self)@
                    }));
                }
                EventAction::Continue
            },
            KeyCode::Enter => {
                let mode = match self.confirm_action {
                    Some(ConfirmAction::Append) => WriteMode::Append,
                    _ => WriteMode::Overwrite,
                };
                EventAction::Write(mode)
            },
            KeyCode::Esc => {
                self.error = None;
                self.notification = None;
                self.input_mode = InputMode::Normal;
                proof {
                    assert(self@ =~= (SessionView {
                        error: None,
                        notification: None,
                        input_mode: InputMode::Normal,
                        ..old(self)@
                    }));
                }
                EventAction::Continue
            },
            _ => EventAction::Continue,
        }
    }

    /// Resolves a probe of the target file: when it exists the session
    /// enters the confirmation mode with Append preselected; when it
    /// does not, the event loop is told to write at once.
    pub fn begin_save(&mut self, file_exists: bool) -> (act: EventAction)
        requires
            old(self).wf(),
        ensures
            final(self).wf(),
            file_exists ==> act == EventAction::Continue && final(self)@ == (SessionView {
                input_mode: InputMode::Confirm,
                confirm_action: Some(ConfirmAction::Append),
                ..old(self)@
            }),
            !file_exists ==> act == EventAction::Write(WriteMode::Overwrite) && final(self)@
                == old(self)@,
    {
        if file_exists {
            self.input_mode = InputMode::Confirm;
            self.confirm_action = Some(ConfirmAction::Append);
            proof {
                assert(self@ =~= (SessionView {
                    input_mode: InputMode::Confirm,
                    confirm_action: Some(ConfirmAction::Append),
                    ..old(self)@
                }));
            }
            EventAction::Continue
        } else {
            EventAction::Write(WriteMode::Overwrite)
        }
    }
}

/// The notification shown after a successful save: the file was
/// created when it did not exist, else appended to or overwritten as
/// chosen.
pub open spec fn save_notification(mode: WriteMode, existed: bool) -> Seq<char> {
    if !existed {
        "Successfully created .gitignore!"@
    } else {
        match mode {
            WriteMode::Append => "Successfully appended .gitignore!"@,
            WriteMode::Overwrite => "Successfully overwrited .gitignore!"@,
        }
    }
}

impl App {
    /// Takes the outcome of a requested write.  A success quits when
    /// the save was to quit, else shows the success notification; a
    /// failure shows the reported reason.  Either way the confirmation
    /// mode is left.  Returns whether the session should end.
    pub fn finish_save(&mut self, mode: WriteMode, existed: bool, outcome: Result<
        (),
        String,
    >) -> (quit: bool)
        requires
            old(self).wf(),
        ensures
            final(self).wf(),
            match outcome {
                Ok(_) => {
                    if old(self)@.should_quit_after_save {
                        quit == true && final(self)@ == old(self)@
                    } else {
                        quit == false && final(self)@ == (SessionView {
                            notification: Some(save_notification(mode, existed)),
                            error: None,
                            input_mode: InputMode::Normal,
                            ..old(self)@
                        })
                    }
                },
                Err(e) => quit == false && final(self)@ == (SessionView {
                    error: Some("Failed to write: "@ + e@),
                    notification: None,
                    input_mode: InputMode::Normal,
                    ..old(self)@
                }),
            },
    {
        match outcome {
            Ok(_) => {
                if self.should_quit_after_save {
                    true
                } else {
                    let msg = if !existed {
                        String::from_str("Successfully created .gitignore!")
                    } else {
                        match mode {
                            WriteMode::Append => String::from_str(
                                "Successfully appended .gitignore!",
                            ),
                            WriteMode::Overwrite => String::from_str(
                                "Successfully overwrited .gitignore!",
                            ),
                        }
                    };
                    self.notification = Some(msg);
                    self.error = None;
                    self.input_mode = InputMode::Normal;
                    proof {
                        assert(self@ =~= (SessionView {
                            notification: Some(save_notification(mode, existed)),
                            error: None,
                            input_mode: InputMode::Normal,
                            ..old(self)@
                        }));
                    }
                    false
                }
            },
            Err(e) => {
                let mut msg = String::from_str("Failed to write: ");
                msg.append(e.as_str());
                self.error = Some(msg);
                self.notification = None;
                self.input_mode = InputMode::Normal;
                proof {
                    assert(self@ =~= (SessionView {
                        error: Some("Failed to write: "@ + e@),
                        notification: None,
                        input_mode: InputMode::Normal,
                        ..old(self)@
                    }));
                }
                false
            },
        }
    }
}

} // verus!
