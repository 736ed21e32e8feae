//! Serial settings of a rig and their validation.
use vstd::prelude::*;

use crate::text::str_eq;

verus! {

/// Serial line speeds that a rig can be configured with.
#[derive(Debug, Copy, Clone, PartialEq, Eq, Structural)]
pub enum BaudRate {
    Baud1200,
    Baud2400,
    Baud4800,
    Baud9600,
    Baud19200,
    Baud38400,
    Baud57600,
    Baud115200,
}

/// The number of bits per second that a baud rate stands for.
pub open spec fn baud_rate_bits(rate: BaudRate) -> u32 {
    match rate {
        BaudRate::Baud1200 => 1200,
        BaudRate::Baud2400 => 2400,
        BaudRate::Baud4800 => 4800,
        BaudRate::Baud9600 => 9600,
        BaudRate::Baud19200 => 19200,
        BaudRate::Baud38400 => 38400,
        BaudRate::Baud57600 => 57600,
        BaudRate::Baud115200 => 115200,
    }
}

/// Every baud rate, slowest first.
pub open spec fn all_rates() -> Seq<BaudRate> {
    seq![
        BaudRate::Baud1200,
        BaudRate::Baud2400,
        BaudRate::Baud4800,
        BaudRate::Baud9600,
        BaudRate::Baud19200,
        BaudRate::Baud38400,
        BaudRate::Baud57600,
        BaudRate::Baud115200,
    ]
}

impl Default for BaudRate {
    fn default() -> (r: Self)
        ensures
            r == BaudRate::Baud1200,
    {
        BaudRate::Baud1200
    }
}

impl BaudRate {
    /// The bits per second of this rate.
    pub fn bits_per_second(self) -> (r: u32)
        ensures
            r == baud_rate_bits(self),
    {
        match self {
            BaudRate::Baud1200 => 1200,
            BaudRate::Baud2400 => 2400,
            BaudRate::Baud4800 => 4800,
            BaudRate::Baud9600 => 9600,
            BaudRate::Baud19200 => 19200,
            BaudRate::Baud38400 => 38400,
            BaudRate::Baud57600 => 57600,
            BaudRate::Baud115200 => 115200,
        }
    }

    /// Every rate, slowest first.
    pub fn iter_rates() -> (r: Vec<BaudRate>)
        ensures
            r@ == all_rates(),
    {
        let r = vec![
            BaudRate::Baud1200,
            BaudRate::Baud2400,
            BaudRate::Baud4800,
            BaudRate::Baud9600,
            BaudRate::Baud19200,
            BaudRate::Baud38400,
            BaudRate::Baud57600,
            BaudRate::Baud115200,
        ];
        assert(r@ =~= all_rates());
        r
    }

    /// The rate in bits per second, in decimal.
    pub fn to_string(&self) -> (s: String)
        ensures
            s@ == crate::text::decimal_chars(baud_rate_bits(*self) as nat),
    {
        let mut out: Vec<char> = Vec::new();
        crate::text::push_decimal(&mut out, self.bits_per_second() as u128);
        assert(out@ =~= crate::text::decimal_chars(baud_rate_bits(*self) as nat));
        crate::text::string_from_chars(out.as_slice())
    }
}

/// Character widths of a serial line.
#[derive(Debug, Copy, Clone, PartialEq, Eq, Structural)]
pub enum DataBits {
    Bits5,
    Bits6,
    Bits7,
    Bits8,
}

pub open spec fn data_bits_count(d: DataBits) -> u8 {
    match d {
        DataBits::Bits5 => 5,
        DataBits::Bits6 => 6,
        DataBits::Bits7 => 7,
        DataBits::Bits8 => 8,
    }
}

/// Every data width, narrowest first.
pub open spec fn all_data_bits() -> Seq<DataBits> {
    seq![DataBits::Bits5, DataBits::Bits6, DataBits::Bits7, DataBits::Bits8]
}

impl Default for DataBits {
    fn default() -> (r: Self)
        ensures
            r == DataBits::Bits8,
    {
        DataBits::Bits8
    }
}

impl DataBits {
    /// Every width, narrowest first.
    pub fn iter_data_bits() -> (r: Vec<DataBits>)
        ensures
            r@ == all_data_bits(),
    {
        let r = vec![DataBits::Bits5, DataBits::Bits6, DataBits::Bits7, DataBits::Bits8];
        assert(r@ =~= all_data_bits());
        r
    }

    /// The number of data bits.
    pub fn count(self) -> (r: u8)
        ensures
            r == data_bits_count(self),
    {
        match self {
            DataBits::Bits5 => 5,
            DataBits::Bits6 => 6,
            DataBits::Bits7 => 7,
            DataBits::Bits8 => 8,
        }
    }

    /// The number of data bits, in decimal.
    pub fn to_string(&self) -> (s: String)
        ensures
            s@ == crate::text::decimal_chars(data_bits_count(*self) as nat),
    {
        let mut out: Vec<char> = Vec::new();
        crate::text::push_decimal(&mut out, self.count() as u128);
        assert(out@ =~= crate::text::decimal_chars(data_bits_count(*self) as nat));
        crate::text::string_from_chars(out.as_slice())
    }
}

/// Stop bits of a serial line.
#[derive(Debug, Copy, Clone, PartialEq, Eq, Structural)]
pub enum StopBits {
    Bits1,
    Bits2,
}

pub open spec fn stop_bits_count(s: StopBits) -> u8 {
    match s {
        StopBits::Bits1 => 1,
        StopBits::Bits2 => 2,
    }
}

impl Default for StopBits {
    fn default() -> (r: Self)
        ensures
            r == StopBits::Bits1,
    {
        StopBits::Bits1
    }
}

impl StopBits {
    /// The number of stop bits.
    pub fn count(self) -> (r: u8)
        ensures
            r == stop_bits_count(self),
    {
        match self {
            StopBits::Bits1 => 1,
            StopBits::Bits2 => 2,
        }
    }

    /// The number of stop bits, in decimal.
    pub fn to_string(&self) -> (s: String)
        ensures
            s@ == crate::text::decimal_chars(stop_bits_count(*self) as nat),
    {
        let mut out: Vec<char> = Vec::new();
        crate::text::push_decimal(&mut out, self.count() as u128);
        assert(out@ =~= crate::text::decimal_chars(stop_bits_count(*self) as nat));
        crate::text::string_from_chars(out.as_slice())
    }
}

/// How one rig is reached and polled.
#[derive(Debug, Clone)]
pub struct RigSettings {
    pub id: usize,
    pub rig_type: String,
    pub port: String,
    pub baud_rate: BaudRate,
    pub data_bits: DataBits,
    pub parity: bool,
    pub stop_bits: StopBits,
    /// Line levels: true is high, false is low.
    pub rts: bool,
    pub dtr: bool,
    pub poll_interval: u16,
    pub timeout: u16,
}

/// The rig type a settings file gets when it names none.
pub fn default_rig_type() -> (s: String)
    ensures
        s@ == "unspecified"@,
{
    "unspecified".to_owned()
}

/// The poll interval, in milliseconds, a settings file gets when it names none.
pub fn default_poll_interval() -> (r: u16)
    ensures
        r == 500,
{
    500
}

/// The timeout, in milliseconds, a settings file gets when it names none.
pub fn default_timeout() -> (r: u16)
    ensures
        r == 1000,
{
    1000
}

/// Why settings are refused, checked in this order; `None` if they are accepted.
pub open spec fn settings_problem(s: RigSettings) -> Option<Seq<char>> {
    if s.rig_type@ == "unspecified"@ {
        Some("Rig type must be specified"@)
    } else if s.port@.len() == 0 {
        Some("Serial port must be specified"@)
    } else if !(100 <= s.poll_interval <= 5000) {
        Some("Poll interval must be between 100ms and 5000ms"@)
    } else if !(100 <= s.timeout <= 10000) {
        Some("Timeout must be between 100ms and 10000ms"@)
    } else {
        None
    }
}

impl Default for RigSettings {
    fn default() -> (r: Self)
        ensures
            r.id == 0,
            r.rig_type@.len() == 0,
            r.port@.len() == 0,
            r.baud_rate == BaudRate::Baud1200,
            r.data_bits == DataBits::Bits8,
            !r.parity,
            r.stop_bits == StopBits::Bits1,
            !r.rts,
            !r.dtr,
            r.poll_interval == 0,
            r.timeout == 0,
    {
        RigSettings {
            id: 0,
            rig_type: String::new(),
            port: String::new(),
            baud_rate: BaudRate::Baud1200,
            data_bits: DataBits::Bits8,
            parity: false,
            stop_bits: StopBits::Bits1,
            rts: false,
            dtr: false,
            poll_interval: 0,
            timeout: 0,
        }
    }
}

impl RigSettings {
    /// Accept the settings, or say what is wrong with them.
    pub fn validate(&self) -> (r: Result<(), String>)
        ensures
            match settings_problem(*self) {
                None => r is Ok,
                Some(m) => r matches Err(e) && e@ == m,
            },
    {
        if str_eq(self.rig_type.as_str(), "unspecified") {
            return Err("Rig type must be specified".to_owned());
        }
        if self.port.as_str().unicode_len() == 0 {
            return Err("Serial port must be specified".to_owned());
        }
        if !(100 <= self.poll_interval && self.poll_interval <= 5000) {
            return Err("Poll interval must be between 100ms and 5000ms".to_owned());
        }
        if !(100 <= self.timeout && self.timeout <= 10000) {
            return Err("Timeout must be between 100ms and 10000ms".to_owned());
        }
        Ok(())
    }

    /// The same settings for the rig numbered `id`.
    pub fn with_id(self, id: usize) -> (r: Self)
        ensures
            r.id == id,
            r.rig_type == self.rig_type,
            r.port == self.port,
            r.baud_rate == self.baud_rate,
            r.data_bits == self.data_bits,
            r.parity == self.parity,
            r.stop_bits == self.stop_bits,
            r.rts == self.rts,
            r.dtr == self.dtr,
            r.poll_interval == self.poll_interval,
            r.timeout == self.timeout,
    {
        let mut s = self;
        s.id = id;
        s
    }
}

/// The settings of every rig.
#[derive(Debug, Clone)]
pub struct Settings {
    pub rigs: Vec<RigSettings>,
}

impl Default for Settings {
    fn default() -> (r: Self)
        ensures
            r.rigs@.len() == 1,
            r.rigs@[0].id == 0,
            r.rigs@[0].rig_type@.len() == 0,
            r.rigs@[0].port@.len() == 0,
            r.rigs@[0].poll_interval == 0,
            r.rigs@[0].timeout == 0,
    {
        Settings { rigs: vec![RigSettings::default()] }
    }
}

impl Settings {
    /// Settings holding exactly `rigs`.
    pub fn from_rigs(rigs: Vec<RigSettings>) -> (r: Self)
        ensures
            r.rigs@ == rigs@,
    {
        Settings { rigs }
    }

    /// Put `settings` in place of the first rig with its id, or add it at
    /// the end when no rig has that id.
    pub fn upsert(&mut self, settings: RigSettings)
        ensures
            final(self).rigs@ == upserted(old(self).rigs@, settings),
    {
        let i = self.position(settings.id);
        if i < self.rigs.len() {
            self.rigs.set(i, settings);
        } else {
            self.rigs.push(settings);
        }
    }

    /// Remove the first rig numbered `id`; whether there was one.
    pub fn remove_rig(&mut self, id: usize) -> (removed: bool)
        ensures
            removed == (position_of(old(self).rigs@, id) < old(self).rigs@.len()),
            final(self).rigs@ == if removed {
                old(self).rigs@.remove(position_of(old(self).rigs@, id) as int)
            } else {
                old(self).rigs@
            },
    {
        let i = self.position(id);
        if i < self.rigs.len() {
            self.rigs.remove(i);
            true
        } else {
            false
        }
    }

    /// Where the first rig numbered `id` is, or the number of rigs.
    fn position(&self, id: usize) -> (r: usize)
        ensures
            r == position_of(self.rigs@, id),
    {
        let mut i: usize = 0;
        assert(self.rigs@.skip(0) =~= self.rigs@);
        while i < self.rigs.len()
            invariant
                i <= self.rigs@.len(),
                position_of(self.rigs@, id) == i + position_of(self.rigs@.skip(i as int), id),
            decreases self.rigs@.len() - i,
        {
            assert(self.rigs@.skip(i as int)[0] == self.rigs@[i as int]);
            assert(self.rigs@.skip(i as int).drop_first() =~= self.rigs@.skip(i + 1));
            if self.rigs[i].id == id {
                return i;
            }
            i = i + 1;
        }
        i
    }
}

/// Where the first rig numbered `id` is in `rigs`, or the number of rigs.
pub open spec fn position_of(rigs: Seq<RigSettings>, id: usize) -> nat
    decreases rigs.len(),
{
    if rigs.len() == 0 || rigs[0].id == id {
        0
    } else {
        1 + position_of(rigs.drop_first(), id)
    }
}

/// `rigs` with `s` in place of the first rig with its id, or added at the end.
pub open spec fn upserted(rigs: Seq<RigSettings>, s: RigSettings) -> Seq<RigSettings> {
    let i = position_of(rigs, s.id);
    if i < rigs.len() {
        rigs.update(i as int, s)
    } else {
        rigs.push(s)
    }
}

/// No rig comes before the first with its id.
pub proof fn lemma_position_of(rigs: Seq<RigSettings>, id: usize)
    ensures
        position_of(rigs, id) <= rigs.len(),
        position_of(rigs, id) < rigs.len() ==> rigs[position_of(rigs, id) as int].id == id,
        forall|j: int| 0 <= j < position_of(rigs, id) ==> (#[trigger] rigs[j]).id != id,
    decreases rigs.len(),
{
    if rigs.len() > 0 && rigs[0].id != id {
        lemma_position_of(rigs.drop_first(), id);
        assert forall|j: int| 0 <= j < position_of(rigs, id) implies (#[trigger] rigs[j]).id != id by {
            if j > 0 {
                assert(rigs[j] == rigs.drop_first()[j - 1]);
            }
        }
    }
}

/// After the settings of a rig are stored, the rig found under their id is
/// exactly them, and every rig with another id is found where it was.
pub proof fn lemma_upsert_then_find(rigs: Seq<RigSettings>, s: RigSettings, other: usize)
    ensures
        ({
            let r = upserted(rigs, s);
            &&& position_of(r, s.id) < r.len()
            &&& r[position_of(r, s.id) as int] == s
            &&& other != s.id ==> position_of(r, other) == position_of(rigs, other)
                || (position_of(rigs, other) == rigs.len() && position_of(r, other) == r.len())
            &&& other != s.id && position_of(rigs, other) < rigs.len() ==> r[position_of(r, other) as int] == rigs[position_of(rigs, other) as int]
        }),
{
    let r = upserted(rigs, s);
    let i = position_of(rigs, s.id);
    lemma_position_of(rigs, s.id);
    lemma_position_of(rigs, other);
    lemma_position_of(r, s.id);
    lemma_position_of(r, other);
    if i < rigs.len() {
        assert(r.len() == rigs.len());
        assert(forall|j: int| 0 <= j < r.len() && j != i ==> r[j] == rigs[j]);
        assert(r[i as int] == s);
        let p = position_of(r, s.id);
        if p < i {
            assert(r[p as int] == rigs[p as int]);
            assert(rigs[p as int].id != s.id);
        }
        if p > i {
            assert(r[i as int].id != s.id);
        }
        assert(position_of(r, s.id) == i);
        if other != s.id {
            let po = position_of(rigs, other);
            let qo = position_of(r, other);
            if qo < po {
                assert(r[qo as int].id == other);
                assert(r[qo as int] == rigs[qo as int] || qo == i);
            }
            if po < qo && po < rigs.len() {
                assert(r[po as int] == rigs[po as int] || po == i);
            }
        }
    } else {
        assert(forall|j: int| 0 <= j < rigs.len() ==> r[j] == rigs[j]);
        assert(r[i as int] == s);
        let p = position_of(r, s.id);
        if p < i {
            assert(r[p as int] == rigs[p as int]);
            assert(rigs[p as int].id != s.id);
        }
        assert(position_of(r, s.id) == i);
        if other != s.id {
            let po = position_of(rigs, other);
            let qo = position_of(r, other);
            if qo < po {
                assert(r[qo as int].id == other);
            }
            if po < qo && po < rigs.len() {
                assert(r[po as int] == rigs[po as int]);
            }
        }
    }
}

} // verus!
