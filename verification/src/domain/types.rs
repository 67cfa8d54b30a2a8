//! Newtype wrappers for identifiers and time quantities.
use crate::domain::decimal::{as_binary64, binary64_of, quotient_units, quotient_units_of};
use crate::text::{dec_string, push_dec, push_str};
use vstd::prelude::*;

verus! {

/// Logical index of a Tokio worker thread (0, 1, 2, ...), distinct from its TID.
#[derive(Debug, Clone, Copy, PartialEq, Eq, Structural, Hash, PartialOrd, Ord)]
pub struct WorkerId(pub u32);

impl WorkerId {
    /// Rendering used for display: `Worker#<n>`.
    pub fn to_display_string(&self) -> (s: String)
        ensures
            s@ == "Worker#"@ + dec_string(self.0 as nat),
    {
        let mut s = String::new();
        push_str(&mut s, "Worker#");
        push_dec(&mut s, self.0 as u64);
        s
    }
}

/// Operating-system process identifier.
#[derive(Debug, Clone, Copy, PartialEq, Eq, Structural, Hash)]
pub struct Pid(pub u32);

impl Pid {
    /// Rendering used for display: `PID:<n>`.
    pub fn to_display_string(&self) -> (s: String)
        ensures
            s@ == "PID:"@ + dec_string(self.0 as nat),
    {
        let mut s = String::new();
        push_str(&mut s, "PID:");
        push_dec(&mut s, self.0 as u64);
        s
    }
}

impl From<i32> for Pid {
    fn from(pid: i32) -> (r: Self) {
        Pid(pid as u32)
    }
}

impl vstd::std_specs::convert::FromSpecImpl<i32> for Pid {
    open spec fn obeys_from_spec() -> bool {
        true
    }

    open spec fn from_spec(pid: i32) -> Self {
        Pid(pid as u32)
    }
}

impl From<Pid> for i32 {
    fn from(pid: Pid) -> (r: Self) {
        pid.0 as i32
    }
}

impl vstd::std_specs::convert::FromSpecImpl<Pid> for i32 {
    open spec fn obeys_from_spec() -> bool {
        true
    }

    open spec fn from_spec(pid: Pid) -> Self {
        pid.0 as i32
    }
}

/// Converting a signed process id to `Pid` and back gives the original value.
pub proof fn lemma_pid_i32_roundtrip(pid: i32)
    ensures
        (Pid(pid as u32).0 as i32) == pid,
{
    assert(((pid as u32) as i32) == pid) by (bit_vector);
}

/// Kernel thread identifier (assigned by the kernel, unlike a worker id).
#[derive(Debug, Clone, Copy, PartialEq, Eq, Structural, Hash)]
pub struct Tid(pub u32);

impl Tid {
    /// Rendering used for display: `TID:<n>`.
    pub fn to_display_string(&self) -> (s: String)
        ensures
            s@ == "TID:"@ + dec_string(self.0 as nat),
    {
        let mut s = String::new();
        push_str(&mut s, "TID:");
        push_dec(&mut s, self.0 as u64);
        s
    }
}

/// CPU core index.
#[derive(Debug, Clone, Copy, PartialEq, Eq, Structural, Hash)]
pub struct CpuId(pub u32);

impl CpuId {
    /// Rendering used for display: `CPU:<n>`.
    pub fn to_display_string(&self) -> (s: String)
        ensures
            s@ == "CPU:"@ + dec_string(self.0 as nat),
    {
        let mut s = String::new();
        push_str(&mut s, "CPU:");
        push_dec(&mut s, self.0 as u64);
        s
    }
}

/// Stack trace id from the kernel stack map; negative when no stack was captured.
#[derive(Debug, Clone, Copy, PartialEq, Eq, Structural)]
pub struct StackId(pub i64);

impl StackId {
    /// A stack id names a stored trace exactly when it is non-negative.
    pub open spec fn spec_is_valid(self) -> bool {
        self.0 >= 0
    }

    /// Whether this id names a stored stack trace.
    #[verifier::when_used_as_spec(spec_is_valid)]
    pub fn is_valid(self) -> (r: bool)
        ensures
            r == (self.0 >= 0),
    {
        self.0 >= 0
    }

    /// Key under which the kernel map stores the trace.
    pub fn as_map_key(self) -> (k: u32)
        requires
            self.0 >= 0,
        ensures
            k == self.0 as u32,
    {
        self.0 as u32
    }
}

/// A resolved function name; never empty.
#[derive(Debug, PartialEq, Eq, Hash)]
pub struct FunctionName(String);

impl Clone for FunctionName {
    fn clone(&self) -> (r: Self)
        ensures
            r == *self,
    {
        FunctionName(self.0.clone())
    }
}

impl FunctionName {
    /// The characters of the name.
    pub closed spec fn name(&self) -> Seq<char> {
        self.0@
    }

    /// A function name holding `name`, which must not be empty.
    pub fn new(name: &str) -> (r: Self)
        requires
            name@.len() > 0,
        ensures
            r.name() == name@,
            r.name().len() > 0,
    {
        FunctionName(name.to_string())
    }

    /// The name as a string slice.
    pub fn as_str(&self) -> (s: &str)
        ensures
            s@ == self.name(),
    {
        self.0.as_str()
    }

    /// The name itself, as a fresh `String`.
    pub fn to_display_string(&self) -> (s: String)
        ensures
            s@ == self.name(),
    {
        self.0.clone()
    }
}

/// A point in time, in nanoseconds since boot.
#[derive(Debug, Clone, Copy, PartialEq, Eq, Structural, PartialOrd, Ord)]
pub struct Timestamp(pub u64);

/// `<int>.<three digits>` rendering of a value given in thousandths.
pub open spec fn three_decimals(thousandths: nat) -> Seq<char> {
    dec_string(thousandths / 1000) + seq!['.'] + dec_string((thousandths % 1000) / 100) + dec_string(
        (thousandths % 100) / 10,
    ) + dec_string(thousandths % 10)
}

/// Display form of a timestamp: its seconds as a binary64 value, shown
/// with three decimals.
pub open spec fn timestamp_display(ns: nat) -> Seq<char> {
    three_decimals(quotient_units(as_binary64(ns), 1_000_000_000, 3)) + "s"@
}

impl Timestamp {
    /// Whole microseconds (truncated).
    pub fn as_micros(self) -> (r: u64)
        ensures
            r == self.0 / 1000,
    {
        self.0 / 1_000
    }

    /// Display form: seconds with three decimals, such as `1.500s`.
    pub fn to_display_string(self) -> (s: String)
        ensures
            s@ == timestamp_display(self.0 as nat),
    {
        let t: u128 = quotient_units_of(binary64_of(self.0), 1_000_000_000, 3);
        let mut s = String::new();
        push_dec(&mut s, (t / 1000) as u64);
        crate::text::push_char(&mut s, '.');
        push_dec(&mut s, ((t % 1000) / 100) as u64);
        push_dec(&mut s, ((t % 100) / 10) as u64);
        push_dec(&mut s, (t % 10) as u64);
        push_str(&mut s, "s");
        s
    }
}

/// A length of time, in nanoseconds.
#[derive(Debug, Clone, Copy, PartialEq, Eq, Structural, PartialOrd, Ord)]
pub struct Duration(pub u64);

/// `<int>.<two digits>` rendering of a value given in hundredths.
pub open spec fn two_decimals(hundredths: nat) -> Seq<char> {
    dec_string(hundredths / 100) + seq!['.'] + dec_string((hundredths % 100) / 10) + dec_string(
        hundredths % 10,
    )
}

/// Display form of a duration: milliseconds below one second, seconds from
/// one second on, each as a binary64 value shown with two decimals.
pub open spec fn duration_display(ns: nat) -> Seq<char> {
    if ns >= 1_000_000_000 {
        two_decimals(quotient_units(as_binary64(ns), 1_000_000_000, 2)) + "s"@
    } else {
        two_decimals(quotient_units(as_binary64(ns), 1_000_000, 2)) + "ms"@
    }
}

impl Duration {
    /// Whole microseconds (truncated).
    pub fn as_micros(self) -> (r: u64)
        ensures
            r == self.0 / 1000,
    {
        self.0 / 1_000
    }

    /// Display form: `5.00ms`, `1.50s`.
    pub fn to_display_string(self) -> (s: String)
        ensures
            s@ == duration_display(self.0 as nat),
    {
        let unit: u128 = if self.0 >= 1_000_000_000 { 1_000_000_000 } else { 1_000_000 };
        let h: u128 = quotient_units_of(binary64_of(self.0), unit, 2);
        let mut s = String::new();
        push_dec(&mut s, (h / 100) as u64);
        crate::text::push_char(&mut s, '.');
        push_dec(&mut s, ((h % 100) / 10) as u64);
        push_dec(&mut s, (h % 10) as u64);
        if self.0 >= 1_000_000_000 {
            push_str(&mut s, "s");
        } else {
            push_str(&mut s, "ms");
        }
        s
    }
}

} // verus!
