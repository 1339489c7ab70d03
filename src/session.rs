//! The state of an editing session: whether there are unsaved edits, whether a
//! save is running, and whether a failed save is being reported.

use vstd::prelude::*;

verus! {

/// What an editing session is.
pub ghost struct SessionView {
    /// Edits that no finished save has written.
    pub dirty: bool,
    /// A save has started and not finished.
    pub saving: bool,
    /// Edits made since the running save started.
    pub edited_during_save: bool,
    /// A failed save is being reported.
    pub error_shown: bool,
}

/// An editing session over the loaded activities.
#[derive(Debug, Clone, Copy)]
pub struct EditSession {
    dirty: bool,
    saving: bool,
    edited_during_save: bool,
    error_shown: bool,
}

impl View for EditSession {
    type V = SessionView;

    closed spec fn view(&self) -> SessionView {
        SessionView {
            dirty: self.dirty,
            saving: self.saving,
            edited_during_save: self.edited_during_save,
            error_shown: self.error_shown,
        }
    }
}

impl EditSession {
    /// A session right after loading: nothing to save.
    pub fn new() -> (r: EditSession)
        ensures
            r@ == (SessionView {
                dirty: false,
                saving: false,
                edited_during_save: false,
                error_shown: false,
            }),
    {
        EditSession { dirty: false, saving: false, edited_during_save: false, error_shown: false }
    }

    /// Whether a save may start: there are unsaved edits and no save runs.
    pub fn can_save(&self) -> (r: bool)
        ensures
            r == (self@.dirty && !self@.saving),
    {
        self.dirty && !self.saving
    }

    /// Whether a save is running.
    pub fn is_saving(&self) -> (r: bool)
        ensures
            r == self@.saving,
    {
        self.saving
    }

    /// Whether a failed save is being reported.
    pub fn error_shown(&self) -> (r: bool)
        ensures
            r == self@.error_shown,
    {
        self.error_shown
    }

    /// Records an edit of the activities.
    pub fn edited(&mut self)
        ensures
            final(self)@ == (SessionView {
                dirty: true,
                edited_during_save: old(self)@.saving || old(self)@.edited_during_save,
                ..old(self)@
            }),
    {
        self.dirty = true;
        if self.saving {
            self.edited_during_save = true;
        }
    }

    /// Starts a save if one may start; says whether it did.
    pub fn begin_save(&mut self) -> (r: bool)
        ensures
            r == (old(self)@.dirty && !old(self)@.saving),
            r ==> final(self)@ == (SessionView {
                saving: true,
                edited_during_save: false,
                ..old(self)@
            }),
            !r ==> final(self)@ == old(self)@,
    {
        if self.can_save() {
            self.saving = true;
            self.edited_during_save = false;
            true
        } else {
            false
        }
    }

    /// Ends the running save. A success leaves unsaved only the edits made
    /// while it ran; a failure keeps every edit unsaved and reports the error.
    pub fn finish_save(&mut self, succeeded: bool)
        ensures
            final(self)@.saving == false,
            final(self)@.edited_during_save == false,
            succeeded ==> final(self)@.dirty == old(self)@.edited_during_save,
            succeeded ==> final(self)@.error_shown == old(self)@.error_shown,
            !succeeded ==> final(self)@.dirty == old(self)@.dirty,
            !succeeded ==> final(self)@.error_shown,
    {
        self.saving = false;
        if succeeded {
            self.dirty = self.edited_during_save;
        } else {
            self.error_shown = true;
        }
        self.edited_during_save = false;
    }

    /// Closes the report of a failed save.
    pub fn dismiss_error(&mut self)
        ensures
            final(self)@ == (SessionView { error_shown: false, ..old(self)@ }),
    {
        self.error_shown = false;
    }
}

} // verus!
