use vstd::prelude::*;

verus! {

/// Telemetry timing of the watch task.
#[derive(Clone, Copy, Debug)]
pub struct WatchConfig {
    /// Telemetry rate on the MCU side, 1..=1000 Hz.
    pub mcu_freq_hz: u16,
    /// Refresh rate on the host side: ceil(3/4 of the MCU rate).
    pub host_freq_hz: u16,
    /// Telemetry period in milliseconds: ceil(1000 / mcu_freq_hz).
    pub period_ms: u64,
    /// Largest number of table entries sent per telemetry round.
    pub max_entries: usize,
}

/// The MCU rate after clamping a requested rate into 1..=1000.
pub open spec fn clamp_freq(freq: int) -> int {
    if freq < 1 {
        1
    } else if freq > 1000 {
        1000
    } else {
        freq
    }
}

/// ceil(a / b) for a >= 0 and b > 0.
pub open spec fn ceil_div(a: int, b: int) -> int {
    (a + b - 1) / b
}

impl WatchConfig {
    /// The default configuration: 40 Hz on the MCU, 30 Hz on the host,
    /// a 25 ms period and at most 64 entries.
    pub fn default() -> (c: Self)
        ensures
            c.mcu_freq_hz == 40,
            c.host_freq_hz == 30,
            c.period_ms == 25,
            c.max_entries == 64,
    {
        WatchConfig { mcu_freq_hz: 40, host_freq_hz: 30, period_ms: 25, max_entries: 64 }
    }

    /// Builds a configuration from the MCU rate: the rate is clamped into
    /// 1..=1000, the period is ceil(1000 / rate) ms and the host rate is
    /// ceil(3 * rate / 4).
    pub fn from_freq(freq: u16) -> (c: Self)
        ensures
            c.mcu_freq_hz == clamp_freq(freq as int),
            c.period_ms == ceil_div(1000, clamp_freq(freq as int)),
            c.host_freq_hz == ceil_div(3 * clamp_freq(freq as int), 4),
            c.max_entries == 64,
    {
        let mcu: u16 = if freq < 1 {
            1
        } else if freq > 1000 {
            1000
        } else {
            freq
        };
        let period: u32 = (1000u32 + mcu as u32 - 1) / mcu as u32;
        let host: u16 = ((mcu as u32 * 3 + 3) / 4) as u16;
        WatchConfig { mcu_freq_hz: mcu, host_freq_hz: host, period_ms: period as u64, max_entries: 64 }
    }
}

/// The default configuration is the one that a 40 Hz MCU rate gives, with
/// up to 64 entries.
pub proof fn lemma_default_is_from_40hz()
    ensures
        clamp_freq(40) == 40,
        ceil_div(1000, clamp_freq(40)) == 25,
        ceil_div(3 * clamp_freq(40), 4) == 30,
{
}

/// Every configuration that `from_freq` builds has a rate in 1..=1000, a
/// period of at least 1 ms whose rate does not exceed the MCU rate, and a
/// host rate no higher than the MCU rate.
pub proof fn lemma_from_freq_ranges(freq: int)
    ensures
        1 <= clamp_freq(freq) <= 1000,
        1 <= ceil_div(1000, clamp_freq(freq)) <= 1000,
        ceil_div(1000, clamp_freq(freq)) * clamp_freq(freq) >= 1000,
        1 <= ceil_div(3 * clamp_freq(freq), 4) <= clamp_freq(freq),
{
    let m = clamp_freq(freq);
    assert(ceil_div(1000, m) * m >= 1000) by (nonlinear_arith)
        requires
            1 <= m <= 1000,
    ;
    assert(1 <= ceil_div(1000, m) <= 1000) by (nonlinear_arith)
        requires
            1 <= m <= 1000,
    ;
}

} // verus!
