//! The artifact record: a remotely hosted mod file, identified by its project
//! and file identifiers.

use vstd::prelude::*;

verus! {

/// One mod file of the pack. Identity and order come from
/// `(project_id, file_id)`; the other fields are metadata.
pub struct Mod {
    pub project_id: u32,
    pub file_id: u32,
    /// Expected name of the file on disk.
    pub file_name: String,
    /// MurmurHash2 fingerprint of the whitespace-stripped content.
    pub fingerprint: u32,
    /// Expected length in bytes.
    pub file_size: u64,
}

/// The mathematical value of a [`Mod`].
pub struct ModView {
    pub project_id: u32,
    pub file_id: u32,
    pub file_name: Seq<char>,
    pub fingerprint: u32,
    pub file_size: u64,
}

impl View for Mod {
    type V = ModView;

    open spec fn view(&self) -> ModView {
        ModView {
            project_id: self.project_id,
            file_id: self.file_id,
            file_name: self.file_name@,
            fingerprint: self.fingerprint,
            file_size: self.file_size,
        }
    }
}

/// The identity of a record as one integer, ordered as `(project_id, file_id)`
/// is ordered lexicographically.
pub open spec fn rank(m: ModView) -> int {
    m.project_id as int * 0x1_0000_0000 + m.file_id as int
}

/// The views of a sequence of records.
pub open spec fn views(s: Seq<Mod>) -> Seq<ModView> {
    s.map_values(|m: Mod| m@)
}

/// Identities strictly ascend: an ordered set of records.
pub open spec fn ascending(s: Seq<ModView>) -> bool {
    forall|i: int, j: int| 0 <= i < j < s.len() ==> rank(s[i]) < rank(s[j])
}

/// Some record of `s` has identity `k`.
pub open spec fn contains_id(s: Seq<ModView>, k: int) -> bool {
    exists|i: int| 0 <= i < s.len() && rank(#[trigger] s[i]) == k
}

impl Mod {
    /// The identity of this record, as `rank` states it.
    pub fn identity(&self) -> (r: u64)
        ensures
            r == rank(self@),
    {
        (self.project_id as u64) * 0x1_0000_0000 + (self.file_id as u64)
    }
}

impl Clone for Mod {
    fn clone(&self) -> (r: Self)
        ensures
            r == *self,
    {
        Mod {
            project_id: self.project_id,
            file_id: self.file_id,
            file_name: self.file_name.clone(),
            fingerprint: self.fingerprint,
            file_size: self.file_size,
        }
    }
}

impl PartialEq for Mod {
    fn eq(&self, other: &Mod) -> (r: bool) {
        self.project_id == other.project_id && self.file_id == other.file_id
    }
}

impl vstd::std_specs::cmp::PartialEqSpecImpl for Mod {
    open spec fn obeys_eq_spec() -> bool {
        true
    }

    open spec fn eq_spec(&self, other: &Mod) -> bool {
        self.project_id == other.project_id && self.file_id == other.file_id
    }
}

impl Eq for Mod {

}

impl PartialOrd for Mod {
    fn partial_cmp(&self, other: &Mod) -> (r: Option<core::cmp::Ordering>) {
        let a = self.identity();
        let b = other.identity();
        if a < b {
            Some(core::cmp::Ordering::Less)
        } else if a == b {
            Some(core::cmp::Ordering::Equal)
        } else {
            Some(core::cmp::Ordering::Greater)
        }
    }
}

impl vstd::std_specs::cmp::PartialOrdSpecImpl for Mod {
    open spec fn obeys_partial_cmp_spec() -> bool {
        true
    }

    open spec fn partial_cmp_spec(&self, other: &Mod) -> Option<core::cmp::Ordering> {
        if rank(self@) < rank(other@) {
            Some(core::cmp::Ordering::Less)
        } else if rank(self@) == rank(other@) {
            Some(core::cmp::Ordering::Equal)
        } else {
            Some(core::cmp::Ordering::Greater)
        }
    }
}

} // verus!
