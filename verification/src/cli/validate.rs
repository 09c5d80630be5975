//! `validate`: full validation, no side effects.

use vstd::prelude::*;

use crate::config::model::LabFile;
use crate::text::{cat7, decimal, decimal_string, join_path, path_join};

verus! {

/// What validation consults on the host: the template store.
#[derive(Debug)]
pub struct HostContext {
    pub store: String,
}

/// What says that a template exists.
#[derive(Debug)]
pub enum TemplateProbe {
    /// This is a file.
    File(String),
    /// This folder holds something.
    NonEmpty(String),
}

/// The folder of a template.
pub open spec fn template_dir(store: Seq<char>, arch: Seq<char>, name: Seq<char>) -> Seq<char> {
    path_join(path_join(store, arch), name)
}

impl HostContext {
    pub fn new(store: String) -> (r: Self)
        ensures
            r.store == store,
    {
        HostContext { store }
    }

    /// What says that a template exists: the disk of the version asked for, or
    /// any version.
    pub fn template_probe(&self, arch: &str, name: &str, version: Option<&str>) -> (r:
        TemplateProbe)
        ensures
            ({
                let dir = template_dir(self.store@, arch@, name@);
                match version {
                    Some(v) => r matches TemplateProbe::File(p) && p@ == path_join(
                        path_join(dir, v@),
                        "disk.qcow2"@,
                    ),
                    None => r matches TemplateProbe::NonEmpty(p) && p@ == dir,
                }
            }),
    {
        let a = join_path(self.store.as_str(), arch);
        let dir = join_path(a.as_str(), name);
        match version {
            Some(v) => {
                let d = join_path(dir.as_str(), v);
                TemplateProbe::File(join_path(d.as_str(), "disk.qcow2"))
            },
            None => TemplateProbe::NonEmpty(dir),
        }
    }
}

/// What is said of a lab file that validates.
pub fn validated_message(file: &LabFile) -> (r: String)
    ensures
        r@ == "ok: lab \""@ + file.lab.name@ + "\" — "@ + decimal(file.lab.vms@.len())
            + " vm(s), "@ + decimal(file.lab.segments@.len()) + " segment(s)"@,
{
    let vms = decimal_string(file.lab.vms.len() as u64);
    let segments = decimal_string(file.lab.segments.len() as u64);
    cat7(
        "ok: lab \"",
        file.lab.name.as_str(),
        "\" — ",
        vms.as_str(),
        " vm(s), ",
        segments.as_str(),
        " segment(s)",
    )
}

} // verus!
