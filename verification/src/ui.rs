//! Immediate mode UI: the keyboard focus cycling between widgets, and the skin stack.
use vstd::prelude::*;
use miniquad::TextureId;

verus! {

/// The keys the UI reacts to besides text input.
#[derive(Clone, Copy, Debug, PartialEq, Eq, Structural)]
pub enum KeyCode {
    Up,
    Down,
    Right,
    Left,
    Home,
    End,
    Delete,
    Backspace,
    Enter,
    Tab,
    Escape,
    Z,
    Y,
    C,
    X,
    V,
    A,
}

#[derive(Clone, Copy, Debug, PartialEq, Eq, Structural)]
pub enum Key {
    Char(char),
    KeyCode(KeyCode),
}

/// A key press of this frame with its modifiers.
#[derive(Clone, Copy, Debug, PartialEq, Eq, Structural)]
pub struct InputCharacter {
    pub key: Key,
    pub modifier_shift: bool,
    pub modifier_ctrl: bool,
}

/// Whether the frame's input holds a Tab press, with Shift held where `shift` is asked.
pub open spec fn tab_pressed(input: Seq<InputCharacter>, shift: bool) -> bool {
    exists|i: int|
        0 <= i < input.len() && (#[trigger] input[i]).key == Key::KeyCode(KeyCode::Tab) && (shift
            ==> input[i].modifier_shift)
}

/// Moves the keyboard focus between the selectable widgets on Tab and Shift+Tab.
/// Widgets are numbered in the order they register within a frame.
pub struct TabSelector {
    counter: isize,
    wants: Option<isize>,
    to_change: Option<isize>,
}

impl TabSelector {
    /// The number of widgets registered so far this frame.
    pub closed spec fn registered(&self) -> int {
        self.counter as int
    }

    /// The widget that the focus is asked to move to in the next frame.
    pub closed spec fn wanted(&self) -> Option<int> {
        match self.wants {
            Some(w) => Some(w as int),
            None => None,
        }
    }

    /// The widget that gains focus in this frame, until it registers.
    pub closed spec fn target(&self) -> Option<int> {
        match self.to_change {
            Some(t) => Some(t as int),
            None => None,
        }
    }

    pub closed spec fn wf(&self) -> bool {
        self.counter >= 0
    }

    pub fn new() -> (t: Self)
        ensures
            t.wf(),
            t.registered() == 0,
            t.wanted() is None,
            t.target() is None,
    {
        TabSelector { counter: 0, wants: None, to_change: None }
    }

    /// Starts a frame: a request to move past the last widget wraps to the first,
    /// one before the first wraps to the last.
    pub fn new_frame(&mut self)
        requires
            old(self).wf(),
        ensures
            final(self).wf(),
            final(self).registered() == 0,
            final(self).wanted() is None,
            final(self).target() == match old(self).wanted() {
                Some(w) => if w == -1 {
                    Some(old(self).registered() - 1)
                } else if w == old(self).registered() {
                    Some(0)
                } else {
                    Some(w)
                },
                None => None,
            },
    {
        self.to_change = if self.wants == Some(-1) {
            Some(self.counter - 1)
        } else if self.wants == Some(self.counter) {
            Some(0)
        } else {
            self.wants
        };
        self.wants = None;
        self.counter = 0;
    }

    /// Returns true if this widget should gain focus, because user pressed `Tab` or `Shift + Tab`.
    pub fn register_selectable_widget(&mut self, has_focus: bool, input: &[InputCharacter]) -> (r: bool)
        requires
            old(self).wf(),
            old(self).registered() < isize::MAX,
        ensures
            final(self).wf(),
            final(self).registered() == old(self).registered() + 1,
            r == (old(self).target() == Some(old(self).registered())),
            final(self).target() == if r { None } else { old(self).target() },
            final(self).wanted() == if has_focus && tab_pressed(input@, true) {
                Some(old(self).registered() - 1)
            } else if has_focus && tab_pressed(input@, false) {
                Some(old(self).registered() + 1)
            } else {
                old(self).wanted()
            },
    {
        if has_focus {
            let mut shift_tab = false;
            let mut tab = false;
            let mut i: usize = 0;
            while i < input.len()
                invariant
                    0 <= i <= input@.len(),
                    shift_tab == exists|j: int|
                        0 <= j < i && (#[trigger] input@[j]).key == Key::KeyCode(KeyCode::Tab) && input@[j].modifier_shift,
                    tab == exists|j: int| 0 <= j < i && (#[trigger] input@[j]).key == Key::KeyCode(KeyCode::Tab),
                decreases input@.len() - i,
            {
                if input[i].key == Key::KeyCode(KeyCode::Tab) {
                    tab = true;
                    if input[i].modifier_shift {
                        shift_tab = true;
                    }
                }
                i = i + 1;
            }
            if shift_tab {
                self.wants = Some(self.counter - 1);
            } else if tab {
                self.wants = Some(self.counter + 1);
            }
        }
        let result = if self.to_change == Some(self.counter) {
            self.to_change = None;
            true
        } else {
            false
        };
        self.counter += 1;
        result
    }
}

/// After a frame of `n` widgets in which Tab was pressed on widget `k`, the next
/// frame gives the focus to widget `k + 1`, or to the first after the last;
/// after Shift+Tab on the first widget it goes to the last.
pub proof fn law_tab_wraps_around(before: TabSelector, after: TabSelector, k: int)
    requires
        before.wf(),
        0 <= k < before.registered(),
        before.wanted() == Some(k + 1) || before.wanted() == Some(k - 1),
        after.target() == match before.wanted() {
            Some(w) => if w == -1 {
                Some(before.registered() - 1)
            } else if w == before.registered() {
                Some(0)
            } else {
                Some(w)
            },
            None => None,
        },
    ensures
        before.wanted() == Some(k + 1) ==> after.target() == Some(
            if k + 1 == before.registered() { 0 } else { k + 1 },
        ),
        before.wanted() == Some(k - 1) ==> after.target() == Some(
            if k == 0 { before.registered() - 1 } else { k - 1 },
        ),
{
}

/// The default skin and the skins pushed over it.
pub struct StyleStack<S> {
    pub default_skin: S,
    pub custom_skin_stack: Vec<S>,
}

impl<S> StyleStack<S> {
    pub fn new(default_skin: S) -> (s: Self)
        ensures
            s.default_skin == default_skin,
            s.custom_skin_stack@.len() == 0,
    {
        StyleStack { default_skin, custom_skin_stack: Vec::new() }
    }

    /// The skin in use: the last pushed, or the default one.
    pub fn top(&self) -> (s: &S)
        ensures
            *s == if self.custom_skin_stack@.len() > 0 {
                self.custom_skin_stack@.last()
            } else {
                self.default_skin
            },
    {
        if self.custom_skin_stack.len() > 0 {
            &self.custom_skin_stack[self.custom_skin_stack.len() - 1]
        } else {
            &self.default_skin
        }
    }

    pub fn push_skin(&mut self, skin: S)
        ensures
            final(self).default_skin == old(self).default_skin,
            final(self).custom_skin_stack@ == old(self).custom_skin_stack@.push(skin),
    {
        self.custom_skin_stack.push(skin);
    }

    pub fn pop_skin(&mut self)
        ensures
            final(self).default_skin == old(self).default_skin,
            final(self).custom_skin_stack@ == if old(self).custom_skin_stack@.len() > 0 {
                old(self).custom_skin_stack@.drop_last()
            } else {
                old(self).custom_skin_stack@
            },
    {
        self.custom_skin_stack.pop();
    }
}


/// Pushing a skin and popping it again gives back the skin that was in use.
pub proof fn law_push_pop_skin_restores<S>(before: StyleStack<S>, pushed: StyleStack<S>, popped: StyleStack<S>, skin: S)
    requires
        pushed.default_skin == before.default_skin,
        pushed.custom_skin_stack@ == before.custom_skin_stack@.push(skin),
        popped.default_skin == pushed.default_skin,
        popped.custom_skin_stack@ == if pushed.custom_skin_stack@.len() > 0 {
            pushed.custom_skin_stack@.drop_last()
        } else {
            pushed.custom_skin_stack@
        },
    ensures
        popped.custom_skin_stack@ == before.custom_skin_stack@,
        popped.default_skin == before.default_skin,
{
    assert(before.custom_skin_stack@.push(skin).drop_last() =~= before.custom_skin_stack@);
}


/// What a widget shows: a text label or a texture.
pub enum UiContent {
    Label(String),
    Texture(TextureId),
}

impl UiContent {
    /// A label showing `text`.
    pub fn label(text: &str) -> (c: UiContent)
        ensures
            c matches UiContent::Label(s) && s@ == text@,
    {
        UiContent::Label(text.to_owned())
    }
}

} // verus!
