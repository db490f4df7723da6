//! Windows as the stack sees them: a handle, the outcome of the process probe, and the
//! visibility the window was last told to take.

use vstd::prelude::*;

verus! {

/// One request to the window system. The stack decides which requests to make and in
/// which order; whoever owns the real windows carries them out.
#[derive(Clone, Copy, Debug, PartialEq, Eq, Structural)]
pub enum WindowCommand {
    Hide { hwnd: isize },
    Restore { hwnd: isize },
    HideWithBorder { hwnd: isize, border: bool },
    RestoreWithBorder { hwnd: isize, border: bool },
}

/// The mathematical content of a [`Window`].
pub struct WindowView {
    pub hwnd: isize,
    pub exe: Option<Seq<char>>,
    pub visible: bool,
}

impl WindowView {
    /// The same window after it has been told to show (`true`) or hide (`false`).
    pub open spec fn with_visible(self, visible: bool) -> WindowView {
        WindowView { visible, ..self }
    }

    /// Whether the process probe succeeded and named exactly `exe`.
    pub open spec fn runs(self, exe: Seq<char>) -> bool {
        self.exe == Some(exe)
    }
}

/// An on-screen window, identified by its handle.
///
/// `exe` is the image name of the owning process, or `None` when the process could not be
/// queried. `visible` records whether the last request made for this window showed it.
#[derive(Debug, Clone, PartialEq, Eq)]
pub struct Window {
    pub hwnd: isize,
    pub exe: Option<String>,
    pub visible: bool,
}

impl View for Window {
    type V = WindowView;

    open spec fn view(&self) -> WindowView {
        WindowView {
            hwnd: self.hwnd,
            exe: match self.exe {
                Some(name) => Some(name@),
                None => None,
            },
            visible: self.visible,
        }
    }
}

impl Window {
    /// A freshly opened window: it is on screen until told otherwise.
    pub fn new(hwnd: isize, exe: Option<String>) -> (window: Window)
        ensures
            window.hwnd == hwnd,
            window.exe == exe,
            window.visible,
    {
        Window { hwnd, exe, visible: true }
    }

    /// The image name of the owning process, if the probe succeeded.
    pub fn exe(&self) -> (name: Option<&String>)
        ensures
            match name {
                Some(n) => self.exe == Some(*n),
                None => self.exe is None,
            },
    {
        self.exe.as_ref()
    }

    pub fn is_visible(&self) -> (visible: bool)
        ensures
            visible == self@.visible,
    {
        self.visible
    }

    /// Takes the window off screen.
    pub fn hide_window(&mut self) -> (command: WindowCommand)
        ensures
            final(self)@ == old(self)@.with_visible(false),
            command == (WindowCommand::Hide { hwnd: old(self).hwnd }),
    {
        self.visible = false;
        WindowCommand::Hide { hwnd: self.hwnd }
    }

    /// Puts the window back on screen.
    pub fn restore(&mut self) -> (command: WindowCommand)
        ensures
            final(self)@ == old(self)@.with_visible(true),
            command == (WindowCommand::Restore { hwnd: old(self).hwnd }),
    {
        self.visible = true;
        WindowCommand::Restore { hwnd: self.hwnd }
    }

    /// Takes the window off screen; `border` is handed through to the border indicator.
    pub fn hide_with_border(&mut self, border: bool) -> (command: WindowCommand)
        ensures
            final(self)@ == old(self)@.with_visible(false),
            command == (WindowCommand::HideWithBorder { hwnd: old(self).hwnd, border }),
    {
        self.visible = false;
        WindowCommand::HideWithBorder { hwnd: self.hwnd, border }
    }

    /// Puts the window back on screen; `border` is handed through to the border indicator.
    pub fn restore_with_border(&mut self, border: bool) -> (command: WindowCommand)
        ensures
            final(self)@ == old(self)@.with_visible(true),
            command == (WindowCommand::RestoreWithBorder { hwnd: old(self).hwnd, border }),
    {
        self.visible = true;
        WindowCommand::RestoreWithBorder { hwnd: self.hwnd, border }
    }
}

} // verus!
