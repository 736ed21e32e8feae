//! The state and decisions of the automation objects a rig server offers;
//! registering them and marshalling calls is the host's part.
use vstd::prelude::*;

verus! {

/// Why an automation call failed.
#[derive(Debug, Clone, Copy, PartialEq, Eq, Structural)]
pub enum ComError {
    /// The call failed (the object's state does not allow it).
    Fail,
    /// The object cannot be aggregated into another.
    NoAggregation,
    /// The object does not offer the requested interface.
    NoInterface,
}

/// Interfaces a client may ask an object factory for.
#[derive(Debug, Clone, Copy, PartialEq, Eq, Structural)]
pub enum InterfaceRequest {
    Unknown,
    Dispatch,
    Other,
}

/// Whether a factory creates an instance for a request: never inside an
/// aggregate, and only for the basic and the automation interface.
pub open spec fn instance_allowed(has_outer: bool, iid: InterfaceRequest) -> Result<(), ComError> {
    if has_outer {
        Err(ComError::NoAggregation)
    } else if iid == InterfaceRequest::Other {
        Err(ComError::NoInterface)
    } else {
        Ok(())
    }
}

fn check_request(has_outer: bool, iid: InterfaceRequest) -> (r: Result<(), ComError>)
    ensures
        r == instance_allowed(has_outer, iid),
{
    if has_outer {
        Err(ComError::NoAggregation)
    } else if iid == InterfaceRequest::Other {
        Err(ComError::NoInterface)
    } else {
        Ok(())
    }
}

/// A counter object: its value can be read, set, raised and lowered.
#[derive(Debug, Clone, Copy, PartialEq, Eq, Structural)]
pub struct SubObject {
    pub value: u32,
}

impl Default for SubObject {
    fn default() -> (r: Self)
        ensures
            r.value == 0,
    {
        SubObject { value: 0 }
    }
}

impl SubObject {
    pub fn value(&self) -> (r: u32)
        ensures
            r == self.value,
    {
        self.value
    }

    pub fn set_value(&mut self, value: u32)
        ensures
            final(self).value == value,
    {
        self.value = value;
    }

    /// Raise the value by one.
    pub fn inc(&mut self)
        requires
            old(self).value < u32::MAX,
        ensures
            final(self).value == old(self).value + 1,
    {
        self.value = self.value + 1;
    }

    /// Lower the value by one; fails, leaving it, at zero.
    pub fn dec(&mut self) -> (r: Result<(), ComError>)
        ensures
            old(self).value > 0 ==> r is Ok && final(self).value == old(self).value - 1,
            old(self).value == 0 ==> r == Err::<(), ComError>(ComError::Fail) && final(self).value == 0,
    {
        if self.value > 0 {
            self.value = self.value - 1;
            Ok(())
        } else {
            Err(ComError::Fail)
        }
    }
}

/// Makes counter objects.
#[derive(Debug, Clone, Copy)]
pub struct SubObjectFactory;

impl SubObjectFactory {
    /// A fresh counter, if the request may be served.
    pub fn create_instance(&self, has_outer: bool, iid: InterfaceRequest) -> (r: Result<SubObject, ComError>)
        ensures
            match instance_allowed(has_outer, iid) {
                Ok(()) => r matches Ok(o) && o.value == 0,
                Err(e) => r == Err::<SubObject, ComError>(e),
            },
    {
        match check_request(has_outer, iid) {
            Ok(()) => Ok(SubObject { value: 0 }),
            Err(e) => Err(e),
        }
    }
}

/// The sample object: a counter, a flag and two counters under it.
#[derive(Debug, Clone, Copy, PartialEq, Eq, Structural)]
pub struct SimpleObject {
    pub counter: u32,
    pub flag: bool,
    pub sub1: SubObject,
    pub sub2: SubObject,
}

impl Default for SimpleObject {
    fn default() -> (r: Self)
        ensures
            r.counter == 0,
            !r.flag,
            r.sub1.value == 0,
            r.sub2.value == 0,
    {
        SimpleObject { counter: 0, flag: false, sub1: SubObject { value: 0 }, sub2: SubObject { value: 0 } }
    }
}

impl SimpleObject {
    pub fn prop1(&self) -> (r: u32)
        ensures
            r == self.counter,
    {
        self.counter
    }

    pub fn prop2(&self) -> (r: bool)
        ensures
            r == self.flag,
    {
        self.flag
    }

    pub fn set_prop2(&mut self, value: bool)
        ensures
            final(self).flag == value,
            final(self).counter == old(self).counter,
            final(self).sub1 == old(self).sub1,
            final(self).sub2 == old(self).sub2,
    {
        self.flag = value;
    }

    /// The product of the two values when `value1` holds, else their sum.
    pub fn do_stuff(&self, value1: bool, value2: u16, value3: u16) -> (r: u16)
        requires
            value1 ==> value2 * value3 <= u16::MAX,
            !value1 ==> value2 + value3 <= u16::MAX,
        ensures
            value1 ==> r == value2 * value3,
            !value1 ==> r == value2 + value3,
    {
        if value1 {
            value2 * value3
        } else {
            value2 + value3
        }
    }

    /// `3 * value3 + 1` when `value1` holds, else `value3 / 2` (rounded toward
    /// zero), kept to its low 32 bits.
    pub fn do_other_stuff(&self, value1: bool, value3: i64) -> (r: u32)
        requires
            value1 ==> i64::MIN <= value3 * 3 < i64::MAX,
        ensures
            value1 ==> r == (value3 * 3 + 1) as u32,
            !value1 ==> r == (if value3 >= 0 { value3 / 2 } else { -((-value3) / 2) }) as u32,
    {
        if value1 {
            #[verifier::truncate]
            ((value3 * 3 + 1) as u32)
        } else {
            #[verifier::truncate]
            ((value3 / 2) as u32)
        }
    }

    pub fn sub1(&self) -> (r: SubObject)
        ensures
            r == self.sub1,
    {
        self.sub1
    }

    pub fn sub2(&self) -> (r: SubObject)
        ensures
            r == self.sub2,
    {
        self.sub2
    }
}

/// Makes sample objects.
#[derive(Debug, Clone, Copy)]
pub struct SimpleObjectFactory;

impl SimpleObjectFactory {
    /// A fresh sample object, if the request may be served.
    pub fn create_instance(&self, has_outer: bool, iid: InterfaceRequest) -> (r: Result<SimpleObject, ComError>)
        ensures
            match instance_allowed(has_outer, iid) {
                Ok(()) => r matches Ok(o) && o.counter == 0 && !o.flag && o.sub1.value == 0 && o.sub2.value == 0,
                Err(e) => r == Err::<SimpleObject, ComError>(e),
            },
    {
        match check_request(has_outer, iid) {
            Ok(()) => Ok(SimpleObject::default()),
            Err(e) => Err(e),
        }
    }
}

/// The control lines of a rig's serial port, as the automation interface sees them.
#[derive(Debug, Clone, Copy, PartialEq, Eq, Structural)]
pub struct PortBits {
    pub rts: bool,
    pub dtr: bool,
    pub cts: bool,
    pub dsr: bool,
    pub locked: bool,
}

impl Default for PortBits {
    fn default() -> (r: Self)
        ensures
            !r.rts && !r.dtr && !r.cts && !r.dsr && !r.locked,
    {
        PortBits { rts: false, dtr: false, cts: false, dsr: false, locked: false }
    }
}

impl PortBits {
    /// Take the port; always granted.
    pub fn lock(&mut self) -> (r: bool)
        ensures
            r,
            *final(self) == (PortBits { locked: true, ..*old(self) }),
    {
        self.locked = true;
        true
    }

    pub fn unlock(&mut self)
        ensures
            *final(self) == (PortBits { locked: false, ..*old(self) }),
    {
        self.locked = false;
    }

    pub fn rts(&self) -> (r: bool)
        ensures
            r == self.rts,
    {
        self.rts
    }

    pub fn set_rts(&mut self, value: bool)
        ensures
            *final(self) == (PortBits { rts: value, ..*old(self) }),
    {
        self.rts = value;
    }

    pub fn dtr(&self) -> (r: bool)
        ensures
            r == self.dtr,
    {
        self.dtr
    }

    pub fn set_dtr(&mut self, value: bool)
        ensures
            *final(self) == (PortBits { dtr: value, ..*old(self) }),
    {
        self.dtr = value;
    }

    pub fn cts(&self) -> (r: bool)
        ensures
            r == self.cts,
    {
        self.cts
    }

    pub fn dsr(&self) -> (r: bool)
        ensures
            r == self.dsr,
    {
        self.dsr
    }
}

/// Makes the rig server's top object; the object itself lives with the host.
#[derive(Debug, Clone, Copy)]
pub struct OmniRigXFactory;

impl OmniRigXFactory {
    /// Whether a request for the top object may be served.
    pub fn create_instance(&self, has_outer: bool, iid: InterfaceRequest) -> (r: Result<(), ComError>)
        ensures
            r == instance_allowed(has_outer, iid),
    {
        check_request(has_outer, iid)
    }
}

} // verus!
