//! The state of the menus around a running world: which screen is open,
//! which popup lies over it, and what the text fields hold.

use vstd::prelude::*;

verus! {

/// The screen that is open.
#[derive(Clone, Copy, Debug, PartialEq, Eq, Structural)]
pub enum Screen {
    MainMenu,
    MapLoad,
    Options,
    Ingame,
    Paused,
    Research,
}

/// Which page of the options is open.
#[derive(Clone, Copy, Debug, PartialEq, Eq, Structural)]
pub enum OptionsMenuState {
    Graphics,
    Audio,
    Gui,
    Controls,
}

/// What is open inside the screen.
#[derive(Clone, Copy, Debug, PartialEq, Eq, Structural)]
pub enum SubState {
    Closed,
    Options(OptionsMenuState),
}

/// The popup that lies over the screen, if any.
#[derive(Clone, Debug)]
pub enum PopupState {
    Closed,
    MapCreate,
    MapDeleteConfirmation(String),
    InvalidName,
}

/// A text field of the menus.
#[derive(Clone, Copy, Debug, PartialEq, Eq, Structural)]
pub enum TextField {
    Filter,
    MapRenaming,
    MapName,
}

/// What the text fields hold.
pub struct TextFieldState {
    filter: String,
    map_renaming: String,
    map_name: String,
}

impl Default for TextFieldState {
    /// Three empty fields.
    fn default() -> (state: TextFieldState)
        ensures
            forall|field: TextField| #[trigger] state.text(field) == Seq::<char>::empty(),
    {
        TextFieldState::new()
    }
}

impl Default for GuiState {
    /// The main menu, with nothing over it and nothing in the text fields.
    fn default() -> (state: GuiState)
        ensures
            state.screen == Screen::MainMenu,
            state.substate == SubState::Closed,
            state.popup is Closed,
            !state.show_debugger,
            state.previous is None,
            forall|field: TextField| #[trigger] state.text_field.text(field) == Seq::<char>::empty(),
    {
        GuiState::new()
    }
}

impl TextFieldState {
    /// What `field` holds.
    pub closed spec fn text(&self, field: TextField) -> Seq<char> {
        match field {
            TextField::Filter => self.filter@,
            TextField::MapRenaming => self.map_renaming@,
            TextField::MapName => self.map_name@,
        }
    }

    /// Three empty fields.
    pub fn new() -> (state: TextFieldState)
        ensures
            forall|field: TextField| #[trigger] state.text(field) == Seq::<char>::empty(),
    {
        TextFieldState { filter: String::new(), map_renaming: String::new(), map_name: String::new() }
    }

    /// What `field` holds.
    pub fn read(&self, field: TextField) -> (text: &str)
        ensures
            text@ == self.text(field),
    {
        match field {
            TextField::Filter => self.filter.as_str(),
            TextField::MapRenaming => self.map_renaming.as_str(),
            TextField::MapName => self.map_name.as_str(),
        }
    }

    /// What `field` holds, to be changed in place; the other fields stay as
    /// they are.
    pub fn get(&mut self, field: TextField) -> (text: &mut String)
        ensures
            text@ == old(self).text(field),
            final(self).text(field) == final(text)@,
            forall|other: TextField| other != field ==> final(self).text(other) == old(self).text(other),
    {
        match field {
            TextField::Filter => &mut self.filter,
            TextField::MapRenaming => &mut self.map_renaming,
            TextField::MapName => &mut self.map_name,
        }
    }

    /// Puts `text` into `field`; the other fields stay as they are.
    pub fn set(&mut self, field: TextField, text: String)
        ensures
            final(self).text(field) == text@,
            forall|other: TextField| other != field ==> final(self).text(other) == old(self).text(other),
    {
        match field {
            TextField::Filter => {
                self.filter = text;
            },
            TextField::MapRenaming => {
                self.map_renaming = text;
            },
            TextField::MapName => {
                self.map_name = text;
            },
        }
    }

    /// Empties `field`; the other fields stay as they are.
    pub fn clear(&mut self, field: TextField)
        ensures
            final(self).text(field) == Seq::<char>::empty(),
            forall|other: TextField| other != field ==> final(self).text(other) == old(self).text(other),
    {
        self.set(field, String::new());
    }
}

/// The state of the menus.
pub struct GuiState {
    pub screen: Screen,
    pub substate: SubState,
    pub popup: PopupState,
    pub show_debugger: bool,
    pub previous: Option<Screen>,
    pub text_field: TextFieldState,
}

impl GuiState {
    /// The main menu, with nothing over it and nothing in the text fields.
    pub fn new() -> (state: GuiState)
        ensures
            state.screen == Screen::MainMenu,
            state.substate == SubState::Closed,
            state.popup is Closed,
            !state.show_debugger,
            state.previous is None,
            forall|field: TextField| #[trigger] state.text_field.text(field) == Seq::<char>::empty(),
    {
        GuiState {
            screen: Screen::MainMenu,
            substate: SubState::Closed,
            popup: PopupState::Closed,
            show_debugger: false,
            previous: None,
            text_field: TextFieldState::new(),
        }
    }

    /// Goes back to the screen that was open before, where one is
    /// remembered, and forgets it.
    pub fn return_screen(&mut self)
        ensures
            final(self).screen == (match old(self).previous {
                Some(previous) => previous,
                None => old(self).screen,
            }),
            final(self).previous is None,
            final(self).substate == old(self).substate,
            final(self).popup == old(self).popup,
            final(self).show_debugger == old(self).show_debugger,
            final(self).text_field == old(self).text_field,
    {
        if let Some(previous) = self.previous {
            self.screen = previous;
        }
        self.previous = None;
    }

    /// Opens the screen `new` and remembers the one that was open.
    pub fn switch_screen(&mut self, new: Screen)
        ensures
            final(self).screen == new,
            final(self).previous == Some(old(self).screen),
            final(self).substate == old(self).substate,
            final(self).popup == old(self).popup,
            final(self).show_debugger == old(self).show_debugger,
            final(self).text_field == old(self).text_field,
    {
        self.previous = Some(self.screen);
        self.screen = new;
    }

    /// Opens the screen `new` with `sub` inside it, and remembers the screen
    /// that was open.
    pub fn switch_screen_sub(&mut self, new: Screen, sub: SubState)
        ensures
            final(self).screen == new,
            final(self).previous == Some(old(self).screen),
            final(self).substate == sub,
            final(self).popup == old(self).popup,
            final(self).show_debugger == old(self).show_debugger,
            final(self).text_field == old(self).text_field,
    {
        self.switch_screen(new);
        self.substate = sub;
    }

    /// Opens the screen `new` where `condition` says so of the menus as they
    /// are,
    /// and says whether it did.
    pub fn switch_screen_when<F: Fn(&GuiState) -> bool>(&mut self, condition: F, new: Screen) -> (switched:
        bool)
        requires
            condition.requires((&*old(self),)),
        ensures
            condition.ensures((&*old(self),), switched),
            switched ==> final(self).screen == new && final(self).previous == Some(old(self).screen),
            !switched ==> final(self).screen == old(self).screen && final(self).previous == old(
                self,
            ).previous,
            final(self).substate == old(self).substate,
            final(self).popup == old(self).popup,
            final(self).show_debugger == old(self).show_debugger,
            final(self).text_field == old(self).text_field,
    {
        if condition(&*self) {
            self.switch_screen(new);
            true
        } else {
            false
        }
    }

    /// What the escape key does to the screens: a running world is paused, a
    /// paused one runs again, and the research screen gives way to what was
    /// open before it. Says whether the world was paused, which is when it
    /// is to be saved.
    pub fn on_escape(&mut self) -> (paused: bool)
        ensures
            paused == (old(self).screen == Screen::Ingame),
            final(self).screen == (match old(self).screen {
                Screen::Ingame => Screen::Paused,
                Screen::Paused => Screen::Ingame,
                Screen::Research => match old(self).previous {
                    Some(previous) => previous,
                    None => Screen::Research,
                },
                other => other,
            }),
            final(self).substate == old(self).substate,
            final(self).popup == old(self).popup,
            final(self).show_debugger == old(self).show_debugger,
            final(self).text_field == old(self).text_field,
    {
        let paused = self.screen == Screen::Ingame;
        if paused {
            self.switch_screen(Screen::Paused);
        } else if self.screen == Screen::Paused {
            self.switch_screen(Screen::Ingame);
        }
        if self.screen == Screen::Research {
            self.return_screen();
        }
        paused
    }
}

/// Hands out the indices of the draw callbacks of one frame.
pub struct CallbackCounter {
    next: u32,
}

impl CallbackCounter {
    /// The index that the next callback gets.
    pub closed spec fn next_index(&self) -> u32 {
        self.next
    }

    /// A counter that starts at zero.
    pub fn new() -> (counter: CallbackCounter)
        ensures
            counter.next_index() == 0,
    {
        CallbackCounter { next: 0 }
    }

    /// The index of one more callback; `None` once the indices have run out.
    pub fn take(&mut self) -> (index: Option<u32>)
        ensures
            index == (if old(self).next_index() < u32::MAX {
                Some(old(self).next_index())
            } else {
                None
            }),
            index is Some ==> final(self).next_index() == old(self).next_index() + 1,
            index is None ==> final(self).next_index() == old(self).next_index(),
    {
        if self.next < u32::MAX {
            let index = self.next;
            self.next = self.next + 1;
            Some(index)
        } else {
            None
        }
    }
}

/// Starts the indices of the draw callbacks over, at the start of a frame.
pub fn reset_callback_counter(counter: &mut CallbackCounter)
    ensures
        final(counter).next_index() == 0,
{
    counter.next = 0;
}

} // verus!
