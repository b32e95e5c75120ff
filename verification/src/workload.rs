use vstd::prelude::*;

verus! {

/// Mathematical image of a [`Workload`].
#[verifier::ext_equal]
pub struct WorkloadV {
    pub language: Seq<char>,
    pub name: Seq<char>,
}

/// One benchmark or test artifact belonging to one language toolchain.
/// Its identity is the structural pair `(language, name)`.
#[derive(Debug, PartialEq, Eq)]
pub struct Workload {
    pub language: String,
    pub name: String,
}

impl View for Workload {
    type V = WorkloadV;

    open spec fn view(&self) -> WorkloadV {
        WorkloadV { language: self.language@, name: self.name@ }
    }
}

impl Workload {
    /// Structural equality on the `(language, name)` pair.
    pub fn same_as(&self, other: &Workload) -> (r: bool)
        ensures
            r == (self@ == other@),
    {
        let r = self.language == other.language && self.name == other.name;
        proof {
            if r {
                assert(self@ =~= other@);
            }
        }
        r
    }
}

impl Clone for Workload {
    /// A copy with the same `(language, name)` pair.
    fn clone(&self) -> (r: Self)
        ensures
            r@ == self@,
    {
        Workload { language: self.language.clone(), name: self.name.clone() }
    }
}

} // verus!
