//! The records that the rest of the library works on.
use vstd::prelude::*;

verus! {

/// One launchable application, as read from its descriptor file.
pub struct AppInfo {
    /// The descriptor's path: the key under which the application is selected.
    pub path: String,
    /// The display name.
    pub name: String,
    /// The `Exec=` template, field codes included.
    pub exec_template: String,
    /// The icon name or path, when the descriptor gives one.
    pub icon: Option<String>,
    /// Whether the application runs inside a terminal emulator.
    pub terminal: bool,
}

/// What one control has saved: the selected descriptor and extra arguments.
pub struct LaunchAppSettings {
    pub app: Option<String>,
    pub args: Option<String>,
}

impl Default for LaunchAppSettings {
    fn default() -> (r: Self)
        ensures
            r.app is None,
            r.args is None,
    {
        LaunchAppSettings { app: None, args: None }
    }
}

/// The launcher control itself; it holds no state of its own.
pub struct LaunchAppAction;

impl LaunchAppSettings {
    /// The selected descriptor path; an empty one counts as no selection.
    pub fn selected_app(&self) -> (r: Option<String>)
        ensures
            r matches Some(p) ==> self.app matches Some(a) && p@ == a@ && a@.len() > 0,
            r is None ==> (self.app matches Some(a) ==> a@.len() == 0),
    {
        match &self.app {
            Some(a) => {
                if a.as_str().unicode_len() == 0 {
                    None
                } else {
                    Some(a.clone())
                }
            },
            None => None,
        }
    }
}

} // verus!
