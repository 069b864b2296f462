//! Amounts of gas.
use vstd::prelude::*;

verus! {

/// An amount of gas.
#[derive(Debug, Clone, Copy, PartialEq, Eq, Structural)]
pub struct Gas(pub u64);

impl Gas {
    pub fn new(amount: u64) -> (r: Gas)
        ensures
            r.0 == amount,
    {
        Gas(amount)
    }

    pub fn amount(&self) -> (r: u64)
        ensures
            r == self.0,
    {
        self.0
    }
}

impl Default for Gas {
    fn default() -> (r: Gas)
        ensures
            r.0 == 0,
    {
        Gas(0)
    }
}

impl vstd::std_specs::ops::SubSpecImpl for Gas {
    open spec fn obeys_sub_spec() -> bool {
        true
    }

    open spec fn sub_req(self, rhs: Gas) -> bool {
        true
    }

    open spec fn sub_spec(self, rhs: Gas) -> Gas {
        Gas(if self.0 >= rhs.0 { (self.0 - rhs.0) as u64 } else { 0 })
    }
}

/// Subtraction stops at zero.
impl std::ops::Sub for Gas {
    type Output = Gas;

    fn sub(self, other: Gas) -> (r: Gas)
        ensures
            r.0 == if self.0 >= other.0 { (self.0 - other.0) as u64 } else { 0 },
    {
        if self.0 >= other.0 {
            Gas(self.0 - other.0)
        } else {
            Gas(0)
        }
    }
}

impl vstd::std_specs::ops::AddSpecImpl<u64> for Gas {
    open spec fn obeys_add_spec() -> bool {
        true
    }

    open spec fn add_req(self, rhs: u64) -> bool {
        self.0 + rhs <= u64::MAX
    }

    open spec fn add_spec(self, rhs: u64) -> Gas {
        Gas((self.0 + rhs) as u64)
    }
}

impl std::ops::Add<u64> for Gas {
    type Output = Gas;

    fn add(self, other: u64) -> (r: Gas)
        ensures
            r.0 == self.0 + other,
    {
        Gas(self.0 + other)
    }
}

impl vstd::std_specs::ops::MulSpecImpl for Gas {
    open spec fn obeys_mul_spec() -> bool {
        true
    }

    open spec fn mul_req(self, rhs: Gas) -> bool {
        self.0 * rhs.0 <= u64::MAX
    }

    open spec fn mul_spec(self, rhs: Gas) -> Gas {
        Gas((self.0 * rhs.0) as u64)
    }
}

impl std::ops::Mul for Gas {
    type Output = Gas;

    fn mul(self, other: Gas) -> (r: Gas)
        ensures
            r.0 == self.0 * other.0,
    {
        Gas(self.0 * other.0)
    }
}

impl vstd::std_specs::ops::DivSpecImpl for Gas {
    open spec fn obeys_div_spec() -> bool {
        true
    }

    open spec fn div_req(self, rhs: Gas) -> bool {
        true
    }

    open spec fn div_spec(self, rhs: Gas) -> Gas {
        Gas(if rhs.0 != 0 { (self.0 / rhs.0) as u64 } else { 0 })
    }
}

/// Division by zero gives zero.
impl std::ops::Div for Gas {
    type Output = Gas;

    fn div(self, other: Gas) -> (r: Gas)
        ensures
            r.0 == if other.0 != 0 { (self.0 / other.0) as u64 } else { 0 },
    {
        if other.0 != 0 {
            Gas(self.0 / other.0)
        } else {
            Gas(0)
        }
    }
}

impl vstd::std_specs::convert::FromSpecImpl<u64> for Gas {
    open spec fn obeys_from_spec() -> bool {
        true
    }

    open spec fn from_spec(v: u64) -> Gas {
        Gas(v)
    }
}

impl From<u64> for Gas {
    fn from(amount: u64) -> (r: Gas)
        ensures
            r.0 == amount,
    {
        Gas(amount)
    }
}

impl AsRef<u64> for Gas {
    fn as_ref(&self) -> (r: &u64)
        ensures
            *r == self.0,
    {
        &self.0
    }
}

} // verus!
