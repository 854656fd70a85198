use vstd::prelude::*;

verus! {

/// The persisted configuration: where the record file lives and the
/// verification digest of the session key.
#[derive(Debug, Clone)]
pub struct Cfg {
    pub record_pth: String,
    pub pswd: String,
}

impl Cfg {
    /// A configuration for a record file, with no password set yet.
    pub fn new(record_path: String) -> (r: Cfg)
        ensures
            r.record_pth@ == record_path@,
            r.pswd@ == Seq::<char>::empty(),
    {
        Cfg { record_pth: record_path, pswd: String::new() }
    }
}

} // verus!
