use vstd::prelude::*;

verus! {

/// The two wire-encoding rule sets.
#[derive(Clone, Copy, Debug, PartialEq, Eq, Structural)]
pub enum Encoding {
    Slice1,
    Slice2,
}

/// A set of encodings, held as one flag per encoding.
#[derive(Clone, Copy, Debug, PartialEq, Eq, Structural)]
pub struct SupportedEncodings {
    pub slice1: bool,
    pub slice2: bool,
}

impl SupportedEncodings {
    pub open spec fn has(self, e: Encoding) -> bool {
        match e {
            Encoding::Slice1 => self.slice1,
            Encoding::Slice2 => self.slice2,
        }
    }

    pub open spec fn meet(self, other: SupportedEncodings) -> SupportedEncodings {
        SupportedEncodings { slice1: self.slice1 && other.slice1, slice2: self.slice2 && other.slice2 }
    }

    /// Both encodings.
    pub fn all() -> (r: SupportedEncodings)
        ensures
            r.slice1 && r.slice2,
    {
        SupportedEncodings { slice1: true, slice2: true }
    }

    /// Only the given encoding.
    pub fn only(e: Encoding) -> (r: SupportedEncodings)
        ensures
            r == (match e {
                Encoding::Slice1 => SupportedEncodings { slice1: true, slice2: false },
                Encoding::Slice2 => SupportedEncodings { slice1: false, slice2: true },
            }),
            forall|x: Encoding| r.has(x) <==> x == e,
    {
        match e {
            Encoding::Slice1 => SupportedEncodings { slice1: true, slice2: false },
            Encoding::Slice2 => SupportedEncodings { slice1: false, slice2: true },
        }
    }

    pub fn supports(&self, e: Encoding) -> (r: bool)
        ensures
            r == self.has(e),
    {
        match e {
            Encoding::Slice1 => self.slice1,
            Encoding::Slice2 => self.slice2,
        }
    }

    /// The encodings that both sets hold.
    pub fn intersect(&self, other: &SupportedEncodings) -> (r: SupportedEncodings)
        ensures
            r == self.meet(*other),
            forall|x: Encoding| r.has(x) <==> (self.has(x) && other.has(x)),
    {
        SupportedEncodings { slice1: self.slice1 && other.slice1, slice2: self.slice2 && other.slice2 }
    }

    pub fn is_empty(&self) -> (r: bool)
        ensures
            r == (!self.slice1 && !self.slice2),
    {
        !self.slice1 && !self.slice2
    }
}

} // verus!
