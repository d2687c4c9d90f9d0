//! The record that the whole utility revolves around: one open window,
//! as reported by the window manager's client list.

use vstd::prelude::*;

verus! {

/// One open window: its title, the workspace it sits on, and its
/// application class.  Immutable once constructed; a fresh list is built
/// on every successful query.
pub struct WindowInfo {
    pub title: String,
    pub workspace: String,
    pub app_class: String,
}

/// The mathematical value of a [`WindowInfo`]: the three fields as
/// character sequences.
#[verifier::ext_equal]
pub struct WindowView {
    pub title: Seq<char>,
    pub workspace: Seq<char>,
    pub app_class: Seq<char>,
}

impl View for WindowInfo {
    type V = WindowView;

    open spec fn view(&self) -> WindowView {
        WindowView { title: self.title@, workspace: self.workspace@, app_class: self.app_class@ }
    }
}

impl DeepView for WindowInfo {
    type V = WindowView;

    open spec fn deep_view(&self) -> WindowView {
        self.view()
    }
}

impl Clone for WindowInfo {
    fn clone(&self) -> (r: Self)
        ensures
            r@ == self@,
    {
        WindowInfo {
            title: self.title.clone(),
            workspace: self.workspace.clone(),
            app_class: self.app_class.clone(),
        }
    }
}

} // verus!
