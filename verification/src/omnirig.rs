//! Parameter and status codes of the OmniRig automation interface.
use vstd::prelude::*;

verus! {

/// A rig parameter; each has its own bit in the interface's 32-bit codes.
#[derive(Debug, Clone, Copy, PartialEq, Eq, Structural)]
pub enum RigParamX {
    Unknown,
    Freq,
    FreqA,
    FreqB,
    Pitch,
    RitOffset,
    Rit0,
    VfoAA,
    VfoAB,
    VfoBA,
    VfoBB,
    VfoA,
    VfoB,
    VfoEqual,
    VfoSwap,
    SplitOn,
    SplitOff,
    RitOn,
    RitOff,
    XitOn,
    XitOff,
    Rx,
    Tx,
    CwU,
    CwL,
    SsbU,
    SsbL,
    DigU,
    DigL,
    Am,
    Fm,
}

/// The interface code of a parameter.
pub open spec fn param_code(p: RigParamX) -> i32 {
    match p {
        RigParamX::Unknown => 1,
        RigParamX::Freq => 2,
        RigParamX::FreqA => 4,
        RigParamX::FreqB => 8,
        RigParamX::Pitch => 16,
        RigParamX::RitOffset => 32,
        RigParamX::Rit0 => 64,
        RigParamX::VfoAA => 128,
        RigParamX::VfoAB => 256,
        RigParamX::VfoBA => 512,
        RigParamX::VfoBB => 1024,
        RigParamX::VfoA => 2048,
        RigParamX::VfoB => 4096,
        RigParamX::VfoEqual => 8192,
        RigParamX::VfoSwap => 16384,
        RigParamX::SplitOn => 32768,
        RigParamX::SplitOff => 65536,
        RigParamX::RitOn => 131072,
        RigParamX::RitOff => 262144,
        RigParamX::XitOn => 524288,
        RigParamX::XitOff => 1048576,
        RigParamX::Rx => 2097152,
        RigParamX::Tx => 4194304,
        RigParamX::CwU => 8388608,
        RigParamX::CwL => 16777216,
        RigParamX::SsbU => 33554432,
        RigParamX::SsbL => 67108864,
        RigParamX::DigU => 134217728,
        RigParamX::DigL => 268435456,
        RigParamX::Am => 536870912,
        RigParamX::Fm => 1073741824,
    }
}

/// The parameter a code stands for; codes of no parameter stand for `Unknown`.
pub open spec fn param_of_code(v: i32) -> RigParamX {
    match v {
        1 => RigParamX::Unknown,
        2 => RigParamX::Freq,
        4 => RigParamX::FreqA,
        8 => RigParamX::FreqB,
        16 => RigParamX::Pitch,
        32 => RigParamX::RitOffset,
        64 => RigParamX::Rit0,
        128 => RigParamX::VfoAA,
        256 => RigParamX::VfoAB,
        512 => RigParamX::VfoBA,
        1024 => RigParamX::VfoBB,
        2048 => RigParamX::VfoA,
        4096 => RigParamX::VfoB,
        8192 => RigParamX::VfoEqual,
        16384 => RigParamX::VfoSwap,
        32768 => RigParamX::SplitOn,
        65536 => RigParamX::SplitOff,
        131072 => RigParamX::RitOn,
        262144 => RigParamX::RitOff,
        524288 => RigParamX::XitOn,
        1048576 => RigParamX::XitOff,
        2097152 => RigParamX::Rx,
        4194304 => RigParamX::Tx,
        8388608 => RigParamX::CwU,
        16777216 => RigParamX::CwL,
        33554432 => RigParamX::SsbU,
        67108864 => RigParamX::SsbL,
        134217728 => RigParamX::DigU,
        268435456 => RigParamX::DigL,
        536870912 => RigParamX::Am,
        1073741824 => RigParamX::Fm,
        _ => RigParamX::Unknown,
    }
}

impl Default for RigParamX {
    fn default() -> (r: Self)
        ensures
            r == RigParamX::Unknown,
    {
        RigParamX::Unknown
    }
}

impl RigParamX {
    /// The interface code of this parameter.
    pub fn value(self) -> (r: i32)
        ensures
            r == param_code(self),
    {
        match self {
        RigParamX::Unknown => 1,
        RigParamX::Freq => 2,
        RigParamX::FreqA => 4,
        RigParamX::FreqB => 8,
        RigParamX::Pitch => 16,
        RigParamX::RitOffset => 32,
        RigParamX::Rit0 => 64,
        RigParamX::VfoAA => 128,
        RigParamX::VfoAB => 256,
        RigParamX::VfoBA => 512,
        RigParamX::VfoBB => 1024,
        RigParamX::VfoA => 2048,
        RigParamX::VfoB => 4096,
        RigParamX::VfoEqual => 8192,
        RigParamX::VfoSwap => 16384,
        RigParamX::SplitOn => 32768,
        RigParamX::SplitOff => 65536,
        RigParamX::RitOn => 131072,
        RigParamX::RitOff => 262144,
        RigParamX::XitOn => 524288,
        RigParamX::XitOff => 1048576,
        RigParamX::Rx => 2097152,
        RigParamX::Tx => 4194304,
        RigParamX::CwU => 8388608,
        RigParamX::CwL => 16777216,
        RigParamX::SsbU => 33554432,
        RigParamX::SsbL => 67108864,
        RigParamX::DigU => 134217728,
        RigParamX::DigL => 268435456,
        RigParamX::Am => 536870912,
        RigParamX::Fm => 1073741824,
        }
    }

    /// The parameter a code stands for; codes of no parameter give `Unknown`.
    pub fn from_value(value: i32) -> (r: Self)
        ensures
            r == param_of_code(value),
    {
        match value {
        1 => RigParamX::Unknown,
        2 => RigParamX::Freq,
        4 => RigParamX::FreqA,
        8 => RigParamX::FreqB,
        16 => RigParamX::Pitch,
        32 => RigParamX::RitOffset,
        64 => RigParamX::Rit0,
        128 => RigParamX::VfoAA,
        256 => RigParamX::VfoAB,
        512 => RigParamX::VfoBA,
        1024 => RigParamX::VfoBB,
        2048 => RigParamX::VfoA,
        4096 => RigParamX::VfoB,
        8192 => RigParamX::VfoEqual,
        16384 => RigParamX::VfoSwap,
        32768 => RigParamX::SplitOn,
        65536 => RigParamX::SplitOff,
        131072 => RigParamX::RitOn,
        262144 => RigParamX::RitOff,
        524288 => RigParamX::XitOn,
        1048576 => RigParamX::XitOff,
        2097152 => RigParamX::Rx,
        4194304 => RigParamX::Tx,
        8388608 => RigParamX::CwU,
        16777216 => RigParamX::CwL,
        33554432 => RigParamX::SsbU,
        67108864 => RigParamX::SsbL,
        134217728 => RigParamX::DigU,
        268435456 => RigParamX::DigL,
        536870912 => RigParamX::Am,
        1073741824 => RigParamX::Fm,
            _ => RigParamX::Unknown,
        }
    }
}

/// Reading a parameter's code back gives the parameter.
pub proof fn lemma_param_code_roundtrip(p: RigParamX)
    ensures
        param_of_code(param_code(p)) == p,
{
}

/// A code reads back to itself exactly when it is some parameter's code.
pub proof fn lemma_param_code_inverse(v: i32)
    ensures
        param_code(param_of_code(v)) == v <==> exists|p: RigParamX| param_code(p) == v,
{
    if exists|p: RigParamX| param_code(p) == v {
        let p = choose|p: RigParamX| param_code(p) == v;
        assert(param_of_code(param_code(p)) == p);
    }
}

/// How a rig is doing, as the interface reports it.
#[derive(Debug, Clone, Copy, PartialEq, Eq, Structural)]
pub enum RigStatusX {
    NotConfigured,
    Disabled,
    PortBusy,
    NotResponding,
    Online,
}

pub open spec fn status_code(s: RigStatusX) -> i32 {
    match s {
        RigStatusX::NotConfigured => 0,
        RigStatusX::Disabled => 1,
        RigStatusX::PortBusy => 2,
        RigStatusX::NotResponding => 3,
        RigStatusX::Online => 4,
    }
}

/// The status a code stands for; codes of no status stand for `NotConfigured`.
pub open spec fn status_of_code(v: i32) -> RigStatusX {
    match v {
        0 => RigStatusX::NotConfigured,
        1 => RigStatusX::Disabled,
        2 => RigStatusX::PortBusy,
        3 => RigStatusX::NotResponding,
        4 => RigStatusX::Online,
        _ => RigStatusX::NotConfigured,
    }
}

impl Default for RigStatusX {
    fn default() -> (r: Self)
        ensures
            r == RigStatusX::NotConfigured,
    {
        RigStatusX::NotConfigured
    }
}

impl RigStatusX {
    pub fn value(self) -> (r: i32)
        ensures
            r == status_code(self),
    {
        match self {
        RigStatusX::NotConfigured => 0,
        RigStatusX::Disabled => 1,
        RigStatusX::PortBusy => 2,
        RigStatusX::NotResponding => 3,
        RigStatusX::Online => 4,
        }
    }

    pub fn from_value(value: i32) -> (r: Self)
        ensures
            r == status_of_code(value),
    {
        match value {
        0 => RigStatusX::NotConfigured,
        1 => RigStatusX::Disabled,
        2 => RigStatusX::PortBusy,
        3 => RigStatusX::NotResponding,
        4 => RigStatusX::Online,
            _ => RigStatusX::NotConfigured,
        }
    }
}

/// Reading a status's code back gives the status.
pub proof fn lemma_status_code_roundtrip(s: RigStatusX)
    ensures
        status_of_code(status_code(s)) == s,
{
}

} // verus!
