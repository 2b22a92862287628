//! Water-quality readings decoded from the ten holding registers of the
//! effluent node, kept in the fixed-point units the node sends.

use vstd::prelude::*;

verus! {

/// Register indices in the ten-register response.
pub const REG_DO_SAT: usize = 0;
pub const REG_DO_CONC: usize = 1;
pub const REG_DO_TEMP: usize = 2;
pub const REG_EC: usize = 3;
pub const REG_SALINITY: usize = 4;
pub const REG_TDS: usize = 5;
pub const REG_EC_TEMP: usize = 6;
pub const REG_PH: usize = 7;
pub const REG_PH_TEMP: usize = 8;
pub const REG_STATUS: usize = 9;

/// Number of registers a reading is decoded from.
pub const SENSOR_REGISTERS: usize = 10;

/// One reading of the effluent node, in the units of its registers.
pub struct SensorData {
    /// Name of the link the reading came from.
    pub source: String,
    /// Dissolved-oxygen saturation, tenths of a percent.
    pub do_saturation: u16,
    /// Dissolved-oxygen concentration, hundredths of mg/L.
    pub do_concentration: u16,
    /// DO probe temperature, tenths of °C.
    pub do_temperature: u16,
    /// Conductivity, µS/cm.
    pub ec: u16,
    /// Salinity, ppm.
    pub salinity: u16,
    /// Total dissolved solids, ppm.
    pub tds: u16,
    /// EC probe temperature, hundredths of °C.
    pub ec_temperature: u16,
    /// pH, tenths.
    pub ph: u16,
    /// pH before calibration, tenths, where a calibration was applied.
    pub raw_ph: Option<u16>,
    /// pH probe temperature, tenths of °C.
    pub ph_temperature: u16,
    /// Status bit 0: the DO probe reports fresh data.
    pub do_ok: bool,
    /// Status bit 1: the EC probe reports fresh data.
    pub ec_ok: bool,
    /// Status bit 2: the pH probe reports fresh data.
    pub ph_ok: bool,
}

/// Bit `k` of `status`.
pub open spec fn status_bit(status: u16, k: nat) -> bool {
    (status as nat / vstd::arithmetic::power2::pow2(k)) % 2 == 1
}

/// The reading that the ten registers `regs` describe.
pub open spec fn decoded(regs: Seq<u16>, source: Seq<char>, d: SensorData) -> bool {
    &&& d.source@ == source
    &&& d.do_saturation == regs[REG_DO_SAT as int]
    &&& d.do_concentration == regs[REG_DO_CONC as int]
    &&& d.do_temperature == regs[REG_DO_TEMP as int]
    &&& d.ec == regs[REG_EC as int]
    &&& d.salinity == regs[REG_SALINITY as int]
    &&& d.tds == regs[REG_TDS as int]
    &&& d.ec_temperature == regs[REG_EC_TEMP as int]
    &&& d.ph == regs[REG_PH as int]
    &&& d.raw_ph is None
    &&& d.ph_temperature == regs[REG_PH_TEMP as int]
    &&& d.do_ok == status_bit(regs[REG_STATUS as int], 0)
    &&& d.ec_ok == status_bit(regs[REG_STATUS as int], 1)
    &&& d.ph_ok == status_bit(regs[REG_STATUS as int], 2)
}

impl SensorData {
    /// Decodes the ten registers of the effluent node.
    pub fn from_registers(regs: &[u16], source: String) -> (d: Self)
        requires
            regs@.len() >= SENSOR_REGISTERS,
        ensures
            decoded(regs@, source@, d),
    {
        let status = regs[REG_STATUS];
        proof {
            vstd::arithmetic::power2::lemma2_to64();
            assert((status & 1u16 != 0) == ((status as nat / 1) % 2 == 1)) by (bit_vector);
            assert((status & 2u16 != 0) == ((status as nat / 2) % 2 == 1)) by (bit_vector);
            assert((status & 4u16 != 0) == ((status as nat / 4) % 2 == 1)) by (bit_vector);
        }
        SensorData {
            source,
            do_saturation: regs[REG_DO_SAT],
            do_concentration: regs[REG_DO_CONC],
            do_temperature: regs[REG_DO_TEMP],
            ec: regs[REG_EC],
            salinity: regs[REG_SALINITY],
            tds: regs[REG_TDS],
            ec_temperature: regs[REG_EC_TEMP],
            ph: regs[REG_PH],
            raw_ph: None,
            ph_temperature: regs[REG_PH_TEMP],
            do_ok: status & 1u16 != 0,
            ec_ok: status & 2u16 != 0,
            ph_ok: status & 4u16 != 0,
        }
    }

    /// Sum, in hundredths of °C, of the temperatures of the healthy probes.
    pub open spec fn healthy_sum(&self) -> int {
        (if self.do_ok { self.do_temperature as int * 10 } else { 0 }) + (if self.ec_ok {
            self.ec_temperature as int
        } else {
            0
        }) + (if self.ph_ok { self.ph_temperature as int * 10 } else { 0 })
    }

    /// Number of healthy probes.
    pub open spec fn healthy_count(&self) -> int {
        (if self.do_ok { 1int } else { 0 }) + (if self.ec_ok { 1int } else { 0 }) + (if self.ph_ok {
            1int
        } else {
            0
        })
    }

    /// The mean water temperature over the healthy probes, as the pair
    /// (sum in hundredths of °C, number of probes): the mean is the sum
    /// divided by the count. `None` when no probe is healthy.
    pub fn avg_temperature(&self) -> (r: Option<(u32, u32)>)
        ensures
            r is None <==> self.healthy_count() == 0,
            r matches Some((sum, count)) ==> sum == self.healthy_sum() && count
                == self.healthy_count(),
            r is None <==> !self.do_ok && !self.ec_ok && !self.ph_ok,
            r matches Some((sum, count)) ==> {
                &&& sum == (if self.do_ok { self.do_temperature as int * 10 } else { 0 }) + (if self.ec_ok {
                    self.ec_temperature as int
                } else {
                    0
                }) + (if self.ph_ok { self.ph_temperature as int * 10 } else { 0 })
                &&& count == (if self.do_ok { 1int } else { 0 }) + (if self.ec_ok { 1int } else { 0 }) + (
                if self.ph_ok {
                    1int
                } else {
                    0
                })
            },
    {
        let mut sum: u32 = 0;
        let mut count: u32 = 0;
        if self.do_ok {
            sum = sum + self.do_temperature as u32 * 10;
            count = count + 1;
        }
        if self.ec_ok {
            sum = sum + self.ec_temperature as u32;
            count = count + 1;
        }
        if self.ph_ok {
            sum = sum + self.ph_temperature as u32 * 10;
            count = count + 1;
        }
        if count > 0 {
            Some((sum, count))
        } else {
            None
        }
    }
}

/// Label of a probe's status flag in the log.
pub fn ok_str(ok: bool) -> (s: &'static str)
    ensures
        s@ == (if ok { "OK"@ } else { "STALE"@ }),
{
    if ok {
        "OK"
    } else {
        "STALE"
    }
}

/// With no healthy probe there is no temperature to average.
pub proof fn lemma_no_healthy_probe(d: SensorData)
    requires
        !d.do_ok && !d.ec_ok && !d.ph_ok,
    ensures
        d.healthy_sum() == 0,
        d.healthy_count() == 0,
{
}

/// Each probe counts on its own: marking the DO probe healthy adds its
/// temperature (in hundredths of °C) to the sum and one to the count,
/// whatever the other probes report.
pub proof fn lemma_do_probe_counts_alone(d: SensorData)
    ensures
        (SensorData { do_ok: true, ..d }).healthy_sum() == (SensorData { do_ok: false, ..d }).healthy_sum()
            + d.do_temperature * 10,
        (SensorData { do_ok: true, ..d }).healthy_count() == (SensorData { do_ok: false, ..d }).healthy_count()
            + 1,
{
}

/// Each probe counts on its own: marking the EC probe healthy adds its
/// temperature (in hundredths of °C) to the sum and one to the count,
/// whatever the other probes report.
pub proof fn lemma_ec_probe_counts_alone(d: SensorData)
    ensures
        (SensorData { ec_ok: true, ..d }).healthy_sum() == (SensorData { ec_ok: false, ..d }).healthy_sum()
            + d.ec_temperature,
        (SensorData { ec_ok: true, ..d }).healthy_count() == (SensorData { ec_ok: false, ..d }).healthy_count()
            + 1,
{
}

/// Each probe counts on its own: marking the pH probe healthy adds its
/// temperature (in hundredths of °C) to the sum and one to the count,
/// whatever the other probes report.
pub proof fn lemma_ph_probe_counts_alone(d: SensorData)
    ensures
        (SensorData { ph_ok: true, ..d }).healthy_sum() == (SensorData { ph_ok: false, ..d }).healthy_sum()
            + d.ph_temperature * 10,
        (SensorData { ph_ok: true, ..d }).healthy_count() == (SensorData { ph_ok: false, ..d }).healthy_count()
            + 1,
{
}

} // verus!
