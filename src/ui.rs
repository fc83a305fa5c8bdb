use vstd::prelude::*;

verus! {

/// What an icon button reports.
#[derive(Clone, Copy, Debug, PartialEq, Eq, Structural)]
pub enum IconButtonMessage {
    Pressed,
}

/// A button drawn as an icon, with an optional label before it.
pub struct IconButton<'a> {
    pub icon_name: &'a str,
    pub label: Option<&'a str>,
    pub solid: bool,
}

impl<'a> IconButton<'a> {
    /// A button showing the outlined icon `icon_name`, without a label.
    pub fn new(icon_name: &'a str) -> (r: Self)
        ensures
            r.icon_name == icon_name,
            r.label is None,
            !r.solid,
    {
        IconButton { icon_name, label: None, solid: false }
    }

    /// The same button with the label `label`.
    pub fn label(self, label: &'a str) -> (r: Self)
        ensures
            r.icon_name == self.icon_name,
            r.label == Some(label),
            r.solid == self.solid,
    {
        IconButton { icon_name: self.icon_name, label: Some(label), solid: self.solid }
    }

    /// The same button with the solid form of its icon.
    pub fn solid(self) -> (r: Self)
        ensures
            r.icon_name == self.icon_name,
            r.label == self.label,
            r.solid,
    {
        IconButton { icon_name: self.icon_name, label: self.label, solid: true }
    }
}

/// A window of the application; it holds no state of its own.
pub struct Window {}

impl Window {
    pub fn new() -> (r: Self) {
        Window {  }
    }
}

/// The dialog shown over the main window; `Hidden` when none is.
#[derive(Clone, Copy, Debug, PartialEq, Eq, Structural)]
pub enum Modal {
    Hidden,
    CreateCompanyModal,
    EditCompanyModal,
    CreateApplicationModal,
    EditApplicationModal,
    CreateJobPostModal,
    EditJobPostModal,
    AddJobPostModal,
    SettingsModal,
}

} // verus!
