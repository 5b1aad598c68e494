use vstd::prelude::*;

verus! {

/// A clock signal to render beside the traced values.
#[derive(Debug, PartialEq, Eq)]
pub struct ClockDetails {
    pub name: String,
    pub period_in_fs: u64,
    pub offset_in_fs: u64,
    pub initial_state: bool,
}

impl ClockDetails {
    /// Whether this is the clock called "clock" that starts low at time zero
    /// and has the given period.
    pub open spec fn is_simple(self, period_in_fs: u64) -> bool {
        &&& self.name@ == "clock"@
        &&& self.period_in_fs == period_in_fs
        &&& self.offset_in_fs == 0
        &&& !self.initial_state
    }

    /// The clock called "clock" that starts low at time zero and has the
    /// given period.
    pub fn simple(period_in_fs: u64) -> (r: ClockDetails)
        ensures
            r.is_simple(period_in_fs),
    {
        ClockDetails {
            name: "clock".to_owned(),
            period_in_fs,
            offset_in_fs: 0,
            initial_state: false,
        }
    }
}

} // verus!
