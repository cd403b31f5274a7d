use vstd::prelude::*;

verus! {

/// Stability tier of a published file. `Release` is the most stable.
#[derive(Clone, Copy, Debug, PartialEq, Eq, Structural)]
pub enum ReleaseType {
    Alpha,
    Beta,
    Release,
}

/// Wire number of a tier: 1 release, 2 beta, 3 alpha.
pub open spec fn tier_number(r: ReleaseType) -> u32 {
    match r {
        ReleaseType::Release => 1,
        ReleaseType::Beta => 2,
        ReleaseType::Alpha => 3,
    }
}

/// Stability rank, larger is more stable.
pub open spec fn rank(r: ReleaseType) -> int {
    match r {
        ReleaseType::Alpha => 0,
        ReleaseType::Beta => 1,
        ReleaseType::Release => 2,
    }
}

impl ReleaseType {
    pub fn from_number(i: u32) -> (r: Self)
        requires
            1 <= i <= 3,
        ensures
            tier_number(r) == i,
    {
        if i == 1 {
            ReleaseType::Release
        } else if i == 2 {
            ReleaseType::Beta
        } else {
            ReleaseType::Alpha
        }
    }

    pub fn to_number(&self) -> (r: u32)
        ensures
            r == tier_number(*self),
    {
        match self {
            ReleaseType::Release => 1,
            ReleaseType::Beta => 2,
            ReleaseType::Alpha => 3,
        }
    }

    /// Whether `self` is at least as stable as `other`.
    pub fn more_stable_than(&self, other: &Self) -> (r: bool)
        ensures
            r == (rank(*self) >= rank(*other)),
    {
        self.to_number() <= other.to_number()
    }

    /// The more stable of the two tiers.
    pub fn max(&self, other: &Self) -> (r: Self)
        ensures
            rank(r) == if rank(*self) >= rank(*other) { rank(*self) } else { rank(*other) },
            r == *self || r == *other,
    {
        let a = self.to_number();
        let b = other.to_number();
        Self::from_number(if a <= b { a } else { b })
    }
}

/// A fixed-width label that starts a line listing a file of this tier.
pub fn release_type_prefix(rt: &ReleaseType) -> (r: &'static str)
    ensures
        r@ == match *rt {
            ReleaseType::Alpha => "ALPHA:     "@,
            ReleaseType::Beta => "BETA:      "@,
            ReleaseType::Release => "RELEASE:   "@,
        },
{
    match rt {
        ReleaseType::Alpha => "ALPHA:     ",
        ReleaseType::Beta => "BETA:      ",
        ReleaseType::Release => "RELEASE:   ",
    }
}

/// A fixed-width name of the tier.
pub fn release_type_str(rt: &ReleaseType) -> (r: &'static str)
    ensures
        r@ == match *rt {
            ReleaseType::Alpha => "ALPHA  "@,
            ReleaseType::Beta => "BETA   "@,
            ReleaseType::Release => "RELEASE"@,
        },
{
    match rt {
        ReleaseType::Alpha => "ALPHA  ",
        ReleaseType::Beta => "BETA   ",
        ReleaseType::Release => "RELEASE",
    }
}

impl ReleaseType {
    /// The tier's name.
    pub fn to_string(&self) -> (r: &'static str)
        ensures
            r@ == match *self {
                ReleaseType::Alpha => "Alpha"@,
                ReleaseType::Beta => "Beta"@,
                ReleaseType::Release => "Release"@,
            },
    {
        match self {
            ReleaseType::Alpha => "Alpha",
            ReleaseType::Beta => "Beta",
            ReleaseType::Release => "Release",
        }
    }
}

} // verus!
