use vstd::prelude::*;

verus! {

/// One stored secret.
#[derive(Debug, Clone)]
pub struct Record {
    pub site: String,
    pub username: String,
    pub password: String,
    pub note: String,
}

/// The mathematical value of a record: its four fields as character sequences.
pub struct RecordView {
    pub site: Seq<char>,
    pub username: Seq<char>,
    pub password: Seq<char>,
    pub note: Seq<char>,
}

impl View for Record {
    type V = RecordView;

    open spec fn view(&self) -> RecordView {
        RecordView {
            site: self.site@,
            username: self.username@,
            password: self.password@,
            note: self.note@,
        }
    }
}

/// The views of a sequence of records, in order.
pub open spec fn records_view(rs: Seq<Record>) -> Seq<RecordView> {
    rs.map_values(|r: Record| r@)
}

impl Record {
    pub fn new(site: String, username: String, password: String, note: String) -> (r: Record)
        ensures
            r@ == (RecordView { site: site@, username: username@, password: password@, note: note@ }),
    {
        Record { site, username, password, note }
    }

    /// A field-for-field copy.
    pub fn duplicate(&self) -> (r: Record)
        ensures
            r@ == self@,
    {
        Record {
            site: self.site.clone(),
            username: self.username.clone(),
            password: self.password.clone(),
            note: self.note.clone(),
        }
    }
}

} // verus!
