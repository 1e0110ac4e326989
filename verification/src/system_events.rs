use vstd::prelude::*;

verus! {

/// Where a system event stands.
#[derive(Debug, Clone, Copy, PartialEq, Eq, Structural)]
pub enum SystemEventStatus {
    Pending,
    Running,
    Done,
    Failed,
}

/// A system event as it is written to its file.
#[derive(Debug)]
pub struct SystemEventRecord {
    pub event_id: String,
    pub text: String,
    pub session_id: String,
    pub session_display_name: String,
    pub created_at: String,
    pub status: SystemEventStatus,
}

/// An event under way and the file it is kept in; the caller writes the
/// record out after each change.
pub struct SystemEventHandle {
    path: String,
    record: SystemEventRecord,
}

impl SystemEventHandle {
    pub closed spec fn path_view(&self) -> Seq<char> {
        self.path@
    }

    pub closed spec fn id_view(&self) -> Seq<char> {
        self.record.event_id@
    }

    pub closed spec fn status(&self) -> SystemEventStatus {
        self.record.status
    }

    pub closed spec fn text(&self) -> Seq<char> {
        self.record.text@
    }

    pub closed spec fn session(&self) -> (Seq<char>, Seq<char>) {
        (self.record.session_id@, self.record.session_display_name@)
    }

    pub closed spec fn created_at(&self) -> Seq<char> {
        self.record.created_at@
    }

    /// A new pending event, kept as `events/<id>.json` under the workspace.
    pub fn create(workspace_dir: &str, text: &str, session_id: &str, session_display_name: &str) -> (r:
        Self)
        ensures
            r.status() == SystemEventStatus::Pending,
            r.text() == text@,
            r.session() == (session_id@, session_display_name@),
            r.path_view() == crate::config::path_join(
                crate::config::path_join(workspace_dir@, "events"@),
                r.id_view() + ".json"@,
            ),
    {
        let events_dir = crate::config::join_path(workspace_dir, "events");
        let event_id = crate::session::new_uuid();
        let mut file_name = event_id.clone();
        file_name.append(".json");
        let path = crate::config::join_path(events_dir.as_str(), file_name.as_str());
        SystemEventHandle {
            path,
            record: SystemEventRecord {
                event_id,
                text: String::from_str(text),
                session_id: String::from_str(session_id),
                session_display_name: String::from_str(session_display_name),
                created_at: crate::session::now_rfc3339(),
                status: SystemEventStatus::Pending,
            },
        }
    }

    pub fn event_id(&self) -> (r: &str)
        ensures
            r@ == self.id_view(),
    {
        self.record.event_id.as_str()
    }

    pub fn path(&self) -> (r: &str)
        ensures
            r@ == self.path_view(),
    {
        self.path.as_str()
    }

    /// The record to write out.
    pub fn record(&self) -> (r: &SystemEventRecord)
        ensures
            r.status == self.status(),
            r.event_id@ == self.id_view(),
            r.text@ == self.text(),
            (r.session_id@, r.session_display_name@) == self.session(),
            r.created_at@ == self.created_at(),
    {
        &self.record
    }

    fn set_status(&mut self, status: SystemEventStatus)
        ensures
            final(self).status() == status,
            final(self).path_view() == old(self).path_view(),
            final(self).id_view() == old(self).id_view(),
            final(self).text() == old(self).text(),
            final(self).session() == old(self).session(),
            final(self).created_at() == old(self).created_at(),
    {
        self.record.status = status;
    }

    /// Marks the event as running.
    pub fn mark_running(&mut self)
        ensures
            final(self).status() == SystemEventStatus::Running,
            final(self).path_view() == old(self).path_view(),
            final(self).id_view() == old(self).id_view(),
            final(self).text() == old(self).text(),
            final(self).session() == old(self).session(),
            final(self).created_at() == old(self).created_at(),
    {
        self.set_status(SystemEventStatus::Running);
    }

    /// Marks the event as done.
    pub fn mark_done(&mut self)
        ensures
            final(self).status() == SystemEventStatus::Done,
            final(self).path_view() == old(self).path_view(),
            final(self).id_view() == old(self).id_view(),
            final(self).text() == old(self).text(),
            final(self).session() == old(self).session(),
            final(self).created_at() == old(self).created_at(),
    {
        self.set_status(SystemEventStatus::Done);
    }

    /// Marks the event as failed.
    pub fn mark_failed(&mut self)
        ensures
            final(self).status() == SystemEventStatus::Failed,
            final(self).path_view() == old(self).path_view(),
            final(self).id_view() == old(self).id_view(),
            final(self).text() == old(self).text(),
            final(self).session() == old(self).session(),
            final(self).created_at() == old(self).created_at(),
    {
        self.set_status(SystemEventStatus::Failed);
    }
}

} // verus!
