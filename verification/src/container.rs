//! The window stack: several windows in one tile slot, one of them on screen.

use crate::ring::{clamp_index, Ring};
use crate::window::{Window, WindowCommand, WindowView};
use vstd::prelude::*;
use vstd::string::*;

verus! {

/// The mathematical content of a [`Container`]: its tag, its members front to back, and
/// the stored focus index.
pub struct ContainerView {
    pub id: Seq<char>,
    pub windows: Seq<WindowView>,
    pub focused: int,
}

/// The requests that take every window of `windows` off screen but those with handle
/// `omit`, last window first.
pub open spec fn hide_commands_of(windows: Seq<WindowView>, omit: Option<isize>) -> Seq<
    WindowCommand,
> {
    windows.reverse().filter(|w: WindowView| omit != Some(w.hwnd)).map_values(
        |w: WindowView| WindowCommand::Hide { hwnd: w.hwnd },
    )
}

impl ContainerView {
    /// The focused index, if it names a member.
    pub open spec fn cursor(self) -> Option<int> {
        if 0 <= self.focused < self.windows.len() {
            Some(self.focused)
        } else {
            None
        }
    }

    /// The cursor names a member, or the stack is empty and the cursor rests at 0.
    pub open spec fn wf(self) -> bool {
        0 <= self.focused < self.windows.len() || (self.windows.len() == 0 && self.focused == 0)
    }

    /// No member is on screen.
    pub open spec fn all_hidden(self) -> bool {
        forall|i: int| 0 <= i < self.windows.len() ==> !(#[trigger] self.windows[i]).visible
    }

    /// The member at `at` is on screen and no other member is.
    pub open spec fn one_visible(self, at: int) -> bool {
        &&& 0 <= at < self.windows.len()
        &&& forall|i: int|
            0 <= i < self.windows.len() ==> ((#[trigger] self.windows[i]).visible <==> i == at)
    }

    /// No two members are on screen at once.
    pub open spec fn at_most_one_visible(self) -> bool {
        forall|i: int, j: int|
            0 <= i < self.windows.len() && 0 <= j < self.windows.len() && (
            #[trigger] self.windows[i]).visible && (#[trigger] self.windows[j]).visible ==> i == j
    }

    /// Every member but those with handle `omit` told to leave the screen.
    pub open spec fn hidden_except(self, omit: Option<isize>) -> ContainerView {
        ContainerView {
            windows: Seq::new(
                self.windows.len(),
                |i: int|
                    if omit == Some(self.windows[i].hwnd) {
                        self.windows[i]
                    } else {
                        self.windows[i].with_visible(false)
                    },
            ),
            ..self
        }
    }

    /// The requests made by [`Container::hide_windows`], in the order they are made.
    pub open spec fn hide_commands(self, omit: Option<isize>) -> Seq<WindowCommand> {
        hide_commands_of(self.windows, omit)
    }

    /// The focused member told to show; nothing changes when the cursor is absent.
    pub open spec fn restored(self) -> ContainerView {
        match self.cursor() {
            Some(i) => ContainerView {
                windows: self.windows.update(i, self.windows[i].with_visible(true)),
                ..self
            },
            None => self,
        }
    }

    /// The request made by [`Container::restore`], if it makes one.
    pub open spec fn restore_command(self) -> Option<WindowCommand> {
        match self.cursor() {
            Some(i) => Some(WindowCommand::Restore { hwnd: self.windows[i].hwnd }),
            None => None,
        }
    }

    /// The focus policy applied: the focused member shown, every other member hidden.
    pub open spec fn focus_shown(self) -> ContainerView {
        ContainerView {
            windows: Seq::new(
                self.windows.len(),
                |i: int| self.windows[i].with_visible(self.cursor() == Some(i)),
            ),
            ..self
        }
    }

    /// The requests made by [`Container::load_focused_window`], front to back.
    pub open spec fn policy_commands(self) -> Seq<WindowCommand> {
        Seq::new(
            self.windows.len(),
            |i: int|
                if self.cursor() == Some(i) {
                    WindowCommand::RestoreWithBorder { hwnd: self.windows[i].hwnd, border: false }
                } else {
                    WindowCommand::HideWithBorder { hwnd: self.windows[i].hwnd, border: false }
                },
        )
    }

    /// `window` appended and focused, every earlier member told to leave the screen.
    pub open spec fn added(self, window: WindowView) -> ContainerView {
        ContainerView {
            id: self.id,
            windows: self.windows.map_values(|w: WindowView| w.with_visible(false)).push(window),
            focused: self.windows.len() as int,
        }
    }

    /// The requests made by [`Container::add_window`], front to back.
    pub open spec fn add_commands(self) -> Seq<WindowCommand> {
        self.windows.map_values(|w: WindowView| WindowCommand::Hide { hwnd: w.hwnd })
    }

    /// The cursor moved to `idx`, clamped to the members there are.
    pub open spec fn refocused(self, idx: int) -> ContainerView {
        ContainerView { focused: clamp_index(idx, self.windows.len() as int), ..self }
    }

    /// The members left when the one at `idx` is taken out; all of them when `idx` names
    /// no member.
    pub open spec fn without(self, idx: int) -> Seq<WindowView> {
        if 0 <= idx < self.windows.len() {
            self.windows.remove(idx)
        } else {
            self.windows
        }
    }

    /// The member at `idx` taken out and the cursor moved to the index before it.
    pub open spec fn removed_at(self, idx: int) -> ContainerView {
        let previous = if idx >= 1 {
            idx - 1
        } else {
            0
        };
        ContainerView {
            id: self.id,
            windows: self.without(idx),
            focused: clamp_index(previous, self.without(idx).len() as int),
        }
    }

    /// `found` is the first index whose member has handle `hwnd`, or `None` and no member
    /// has it.
    pub open spec fn is_first_with_handle(self, hwnd: isize, found: Option<int>) -> bool {
        match found {
            Some(i) => {
                &&& 0 <= i < self.windows.len()
                &&& self.windows[i].hwnd == hwnd
                &&& forall|j: int| 0 <= j < i ==> (#[trigger] self.windows[j]).hwnd != hwnd
            },
            None => forall|j: int|
                0 <= j < self.windows.len() ==> (#[trigger] self.windows[j]).hwnd != hwnd,
        }
    }

    /// `found` is the first index whose member was probed successfully and runs exactly
    /// `exe`, or `None` and no member does. The match is exact and case-sensitive.
    pub open spec fn is_first_running(self, exe: Seq<char>, found: Option<int>) -> bool {
        match found {
            Some(i) => {
                &&& 0 <= i < self.windows.len()
                &&& self.windows[i].runs(exe)
                &&& forall|j: int| 0 <= j < i ==> !(#[trigger] self.windows[j]).runs(exe)
            },
            None => forall|j: int|
                0 <= j < self.windows.len() ==> !(#[trigger] self.windows[j]).runs(exe),
        }
    }

    /// Some member has handle `hwnd`.
    pub open spec fn has_handle(self, hwnd: isize) -> bool {
        exists|i: int| 0 <= i < self.windows.len() && (#[trigger] self.windows[i]).hwnd == hwnd
    }
}

/// One more window in front: its request, if it gets one, is made after those for the
/// windows behind it.
proof fn lemma_hide_commands_front(windows: Seq<WindowView>, omit: Option<isize>, i: int)
    requires
        0 <= i < windows.len(),
    ensures
        hide_commands_of(windows.subrange(i, windows.len() as int), omit) == if omit == Some(
            windows[i].hwnd,
        ) {
            hide_commands_of(windows.subrange(i + 1, windows.len() as int), omit)
        } else {
            hide_commands_of(windows.subrange(i + 1, windows.len() as int), omit).push(
                WindowCommand::Hide { hwnd: windows[i].hwnd },
            )
        },
{
    let len = windows.len() as int;
    let behind = windows.subrange(i + 1, len);
    let kept = |w: WindowView| omit != Some(w.hwnd);
    let request = |w: WindowView| WindowCommand::Hide { hwnd: w.hwnd };
    assert(windows.subrange(i, len).reverse() =~= behind.reverse().push(windows[i]));
    behind.reverse().lemma_filter_push(windows[i], kept);
    assert(behind.reverse().filter(kept).push(windows[i]).map_values(request)
        =~= behind.reverse().filter(kept).map_values(request).push(request(windows[i])));
}

/// An index as the model counts it.
pub open spec fn as_index(idx: Option<usize>) -> Option<int> {
    match idx {
        Some(i) => Some(i as int),
        None => None,
    }
}

/// Whether `c` may occur in a container's tag: a letter, a digit, `_` or `-`.
pub open spec fn is_id_char(c: char) -> bool {
    ('a' <= c && c <= 'z') || ('A' <= c && c <= 'Z') || ('0' <= c && c <= '9') || c == '_' || c
        == '-'
}

/// The length of a container's tag, in characters.
pub const ID_LEN: usize = 21;

/// Draws a fresh tag with `nanoid::format`, fed by `nanoid::rngs::default` over the
/// alphabet `nanoid::alphabet::SAFE`.
///
/// Trusted: the tag has the 21 characters asked for, each one a letter, a digit, `_` or
/// `-`. Which characters come out is left open; two calls need not agree.
#[verifier::external_body]
fn fresh_id() -> (id: String)
    ensures
        id@.len() == 21,
        forall|i: int| 0 <= i < id@.len() ==> is_id_char(#[trigger] id@[i]),
{
    nanoid::format(nanoid::rngs::default, &nanoid::alphabet::SAFE, 21)
}

/// Several windows sharing one tile slot, at most one of them on screen.
#[derive(Debug, Clone, PartialEq, Eq)]
pub struct Container {
    id: String,
    windows: Ring<Window>,
}

impl View for Container {
    type V = ContainerView;

    closed spec fn view(&self) -> ContainerView {
        ContainerView {
            id: self.id@,
            windows: self.windows.elements@.map_values(|w: Window| w@),
            focused: self.windows.focused as int,
        }
    }
}

impl Default for Container {
    /// An empty stack under a fresh tag.
    fn default() -> (container: Container)
        ensures
            container@.windows.len() == 0,
            container@.focused == 0,
            container@.wf(),
            container@.id.len() == ID_LEN,
            forall|i: int| 0 <= i < container@.id.len() ==> is_id_char(#[trigger] container@.id[i]),
    {
        Container { id: fresh_id(), windows: Ring::new() }
    }
}

impl Container {
    /// Puts a stack together from its tag, its members front to back, and the index to
    /// focus, which is clamped to the last member.
    pub fn from_parts(id: String, windows: Vec<Window>, focused: usize) -> (container: Container)
        ensures
            container@.id == id@,
            container@.windows == windows@.map_values(|w: Window| w@),
            container@.focused == clamp_index(focused as int, windows@.len() as int),
            container@.wf(),
    {
        let mut ring = Ring { elements: windows, focused: 0 };
        ring.focus(focused);
        Container { id, windows: ring }
    }

    /// The tag this stack was created under.
    pub fn id(&self) -> (id: &String)
        ensures
            id@ == self@.id,
    {
        &self.id
    }

    /// The members, front to back.
    pub fn windows(&self) -> (windows: &Vec<Window>)
        ensures
            windows@.len() == self@.windows.len(),
            forall|i: int| 0 <= i < windows@.len() ==> (#[trigger] windows@[i])@ == self@.windows[i],
    {
        &self.windows.elements
    }

    /// The focused member, or `None` when the cursor is absent.
    pub fn focused_window(&self) -> (window: Option<&Window>)
        ensures
            match self@.cursor() {
                Some(i) => window is Some && window.unwrap()@ == self@.windows[i],
                None => window is None,
            },
    {
        self.windows.focused()
    }

    /// The focused index, or `None` when the cursor is absent.
    pub fn focused_window_idx(&self) -> (idx: Option<usize>)
        ensures
            match self@.cursor() {
                Some(i) => idx == Some(i as usize),
                None => idx is None,
            },
    {
        self.windows.focused_idx()
    }

    /// Moves the cursor to `idx`, clamped to the last member; on an empty stack the
    /// cursor stays absent. No window is shown or hidden: follow with
    /// [`Container::load_focused_window`] to put the focused member on screen.
    pub fn focus_window(&mut self, idx: usize)
        ensures
            final(self)@ == old(self)@.refocused(idx as int),
            final(self)@.wf(),
    {
        self.windows.focus(idx);
    }
    /// Shows the focused member and leaves every other member as it is. Does nothing on
    /// an empty stack.
    pub fn restore(&mut self) -> (command: Option<WindowCommand>)
        ensures
            final(self)@ == old(self)@.restored(),
            command == old(self)@.restore_command(),
    {
        let idx = self.windows.focused;
        if idx < self.windows.elements.len() {
            let command = self.windows.elements[idx].restore();
            assert(self@.windows =~= old(self)@.restored().windows);
            Some(command)
        } else {
            None
        }
    }

    /// The handle of the first member whose process probe succeeded and named exactly
    /// `exe` (case-sensitive). A member whose probe failed never matches.
    pub fn hwnd_from_exe(&self, exe: &str) -> (hwnd: Option<isize>)
        ensures
            match hwnd {
                Some(h) => exists|i: int|
                    self@.is_first_running(exe@, Some(i)) && (#[trigger] self@.windows[i]).hwnd
                        == h,
                None => self@.is_first_running(exe@, None),
            },
    {
        match self.idx_from_exe(exe) {
            Some(idx) => Some(self.windows.elements[idx].hwnd),
            None => None,
        }
    }

    /// The index of the first member whose process probe succeeded and named exactly
    /// `exe` (case-sensitive). A member whose probe failed never matches.
    pub fn idx_from_exe(&self, exe: &str) -> (idx: Option<usize>)
        ensures
            self@.is_first_running(exe@, as_index(idx)),
    {
        let wanted = String::from_str(exe);
        let mut idx: usize = 0;
        while idx < self.windows.elements.len()
            invariant
                idx <= self.windows.elements@.len(),
                wanted@ == exe@,
                forall|j: int| 0 <= j < idx ==> !(#[trigger] self@.windows[j]).runs(exe@),
            decreases self.windows.elements@.len() - idx,
        {
            if let Some(window_exe) = self.windows.elements[idx].exe() {
                if *window_exe == wanted {
                    return Some(idx);
                }
            }
            idx += 1;
        }
        None
    }

    /// Whether some member has handle `hwnd`.
    pub fn contains_window(&self, hwnd: isize) -> (found: bool)
        ensures
            found == self@.has_handle(hwnd),
    {
        let mut idx: usize = 0;
        while idx < self.windows.elements.len()
            invariant
                idx <= self.windows.elements@.len(),
                forall|j: int| 0 <= j < idx ==> (#[trigger] self@.windows[j]).hwnd != hwnd,
            decreases self.windows.elements@.len() - idx,
        {
            if self.windows.elements[idx].hwnd == hwnd {
                assert(self@.windows[idx as int].hwnd == hwnd);
                return true;
            }
            idx += 1;
        }
        false
    }

    /// The index of the first member with handle `hwnd`.
    pub fn idx_for_window(&self, hwnd: isize) -> (idx: Option<usize>)
        ensures
            self@.is_first_with_handle(hwnd, as_index(idx)),
    {
        let mut idx: usize = 0;
        while idx < self.windows.elements.len()
            invariant
                idx <= self.windows.elements@.len(),
                forall|j: int| 0 <= j < idx ==> (#[trigger] self@.windows[j]).hwnd != hwnd,
            decreases self.windows.elements@.len() - idx,
        {
            if self.windows.elements[idx].hwnd == hwnd {
                return Some(idx);
            }
            idx += 1;
        }
        None
    }

    /// Takes the member at `idx` out and returns it, then moves the cursor to the index
    /// before `idx` (to 0 for `idx` 0), clamped to the members that are left. When `idx`
    /// names no member, nothing is taken out and `None` is returned; the cursor moves
    /// all the same.
    pub fn remove_window_by_idx(&mut self, idx: usize) -> (removed: Option<Window>)
        ensures
            final(self)@ == old(self)@.removed_at(idx as int),
            final(self)@.wf(),
            match removed {
                Some(window) => idx < old(self)@.windows.len() && window@ == old(
                    self,
                )@.windows[idx as int],
                None => idx >= old(self)@.windows.len(),
            },
    {
        let window = self.windows.remove(idx);
        self.focus_window(idx.saturating_sub(1));
        assert(self@.windows =~= old(self)@.removed_at(idx as int).windows);
        window
    }

    /// Takes the focused member out, as [`Container::remove_window_by_idx`] does.
    /// Returns `None` and changes nothing when the cursor is absent.
    pub fn remove_focused_window(&mut self) -> (removed: Option<Window>)
        ensures
            match old(self)@.cursor() {
                Some(i) => final(self)@ == old(self)@.removed_at(i) && removed is Some
                    && removed.unwrap()@ == old(self)@.windows[i],
                None => final(self)@ == old(self)@ && removed is None,
            },
    {
        match self.focused_window_idx() {
            Some(idx) => self.remove_window_by_idx(idx),
            None => None,
        }
    }
    /// Takes every member off screen but those with handle `omit`, which are left as
    /// they are. Members are visited last to first.
    pub fn hide_windows(&mut self, omit: Option<isize>) -> (commands: Vec<WindowCommand>)
        ensures
            final(self)@ == old(self)@.hidden_except(omit),
            commands@ == old(self)@.hide_commands(omit),
    {
        let mut commands: Vec<WindowCommand> = Vec::new();
        let len = self.windows.elements.len();
        let mut idx: usize = len;
        assert(old(self)@.windows.subrange(len as int, len as int) =~= Seq::empty());
        proof {
            reveal(Seq::filter);
        }
        while idx > 0
            invariant
                idx <= len,
                len == old(self)@.windows.len(),
                self@.windows.len() == len,
                self@.id == old(self)@.id,
                self@.focused == old(self)@.focused,
                forall|j: int|
                    0 <= j < idx ==> (#[trigger] self.windows.elements@[j])@ == old(self)@.windows[j],
                forall|j: int|
                    idx <= j < len ==> (#[trigger] self.windows.elements@[j])@ == old(
                        self,
                    )@.hidden_except(omit).windows[j],
                commands@ == hide_commands_of(
                    old(self)@.windows.subrange(idx as int, len as int),
                    omit,
                ),
            decreases idx,
        {
            idx -= 1;
            proof {
                lemma_hide_commands_front(old(self)@.windows, omit, idx as int);
            }
            let mut should_hide = omit.is_none();
            if !should_hide {
                if let Some(omit) = omit {
                    if omit != self.windows.elements[idx].hwnd {
                        should_hide = true;
                    }
                }
            }
            let ghost before = self.windows.elements@;
            if should_hide {
                let command = self.windows.elements[idx].hide_window();
                commands.push(command);
                assert(forall|j: int|
                    0 <= j < len && j != idx ==> #[trigger] self.windows.elements@[j] == before[j]);
            }
        }
        assert(old(self)@.windows.subrange(0, len as int) =~= old(self)@.windows);
        assert(self@.windows =~= old(self)@.hidden_except(omit).windows);
        commands
    }

    /// Applies the focus policy: shows the focused member and hides every other one,
    /// front to back, with the border flag off. On an absent cursor every member is
    /// hidden.
    pub fn load_focused_window(&mut self) -> (commands: Vec<WindowCommand>)
        ensures
            final(self)@ == old(self)@.focus_shown(),
            commands@ == old(self)@.policy_commands(),
    {
        let focused_idx = self.focused_window_idx();
        let mut commands: Vec<WindowCommand> = Vec::new();
        let len = self.windows.elements.len();
        let mut idx: usize = 0;
        while idx < len
            invariant
                idx <= len,
                len == old(self)@.windows.len(),
                self@.windows.len() == len,
                self@.id == old(self)@.id,
                self@.focused == old(self)@.focused,
                as_index(focused_idx) == old(self)@.cursor(),
                forall|j: int|
                    idx <= j < len ==> (#[trigger] self.windows.elements@[j])@ == old(self)@.windows[j],
                forall|j: int|
                    0 <= j < idx ==> (#[trigger] self.windows.elements@[j])@ == old(
                        self,
                    )@.focus_shown().windows[j],
                commands@ == old(self)@.policy_commands().take(idx as int),
            decreases len - idx,
        {
            let ghost before = self.windows.elements@;
            let command = if focused_idx == Some(idx) {
                self.windows.elements[idx].restore_with_border(false)
            } else {
                self.windows.elements[idx].hide_with_border(false)
            };
            commands.push(command);
            assert(forall|j: int|
                0 <= j < len && j != idx ==> #[trigger] self.windows.elements@[j] == before[j]);
            idx += 1;
            assert(commands@ =~= old(self)@.policy_commands().take(idx as int));
        }
        assert(commands@ =~= old(self)@.policy_commands());
        assert(self@.windows =~= old(self)@.focus_shown().windows);
        commands
    }

    /// Appends `window`, focuses it, and takes every earlier member off screen, front
    /// to back. `window` itself is left as it came.
    pub fn add_window(&mut self, window: Window) -> (commands: Vec<WindowCommand>)
        ensures
            final(self)@ == old(self)@.added(window@),
            final(self)@.wf(),
            commands@ == old(self)@.add_commands(),
    {
        self.windows.push_back(window);
        assert(self@.windows =~= old(self)@.windows.push(window@));
        self.focus_window(self.windows.len().saturating_sub(1));
        let focused_window_idx = self.windows.focused;
        let mut commands: Vec<WindowCommand> = Vec::new();
        let len = self.windows.elements.len();
        assert(forall|j: int|
            0 <= j < len ==> (#[trigger] self.windows.elements@[j])@ == self@.windows[j]);
        let mut idx: usize = 0;
        while idx < len
            invariant
                idx <= len,
                len == old(self)@.windows.len() + 1,
                focused_window_idx == len - 1,
                self@.windows.len() == len,
                self@.id == old(self)@.id,
                self@.focused == focused_window_idx,
                self@.windows[len - 1] == window@,
                forall|j: int|
                    idx <= j < len - 1 ==> (#[trigger] self.windows.elements@[j])@ == old(
                        self,
                    )@.windows[j],
                forall|j: int|
                    0 <= j < idx && j < len - 1 ==> (#[trigger] self.windows.elements@[j])@ == old(
                        self,
                    )@.windows[j].with_visible(false),
                commands@ == old(self)@.add_commands().take(
                    if idx < len - 1 {
                        idx as int
                    } else {
                        len - 1
                    },
                ),
            decreases len - idx,
        {
            if idx != focused_window_idx {
                let ghost before = self.windows.elements@;
                let command = self.windows.elements[idx].hide_window();
                commands.push(command);
                assert(forall|j: int|
                    0 <= j < len && j != idx ==> #[trigger] self.windows.elements@[j] == before[j]);
                assert(commands@ =~= old(self)@.add_commands().take(idx + 1));
            }
            idx += 1;
        }
        assert(commands@ =~= old(self)@.add_commands());
        assert(self@.windows =~= old(self)@.added(window@).windows);
        commands
    }
}

} // verus!
