//! Numeric configuration: defaults, file/environment overrides, and
//! defensive clamping.
//!
//! All parameters are integers in explicit units: Hz, milliseconds,
//! whole decibels, and Q16.16 for the unitless coefficients.  Reading
//! and parsing the configuration file and environment happen outside the
//! core, which only merges pre-parsed optional values and clamps them
//! into their documented ranges.

use vstd::prelude::*;

use crate::num::clamp_spec;

verus! {

#[derive(Clone, Debug)]
pub struct Config {
    /// Lower analysis frequency, Hz.
    pub fmin_hz: u32,
    /// Upper analysis frequency, Hz.
    pub fmax_hz: u32,
    /// Target frame interval, milliseconds.
    pub target_fps_ms: u64,
    /// Transform size, samples.
    pub fft_size: usize,
    /// Spectral EMA time constant, milliseconds.
    pub tau_spec_ms: u32,
    /// Gate open threshold, whole decibels (negative).
    pub gate_db: i32,
    /// Spectral tilt coefficient, Q16.16 in `[0, 1]`.
    pub tilt_alpha_q: u32,
    /// Flow rise rate, Q16.16 levels per second.
    pub flow_k_q: u32,
    /// Spring stiffness.
    pub spr_k: u32,
    /// Spring damping ratio, Q16.16.
    pub spr_zeta_q: u32,
}

/// Optional overrides, as parsed from a file or the environment.
#[derive(Clone, Debug, Default)]
pub struct FileConfig {
    pub fmin_hz: Option<u32>,
    pub fmax_hz: Option<u32>,
    pub target_fps_ms: Option<u64>,
    pub fft_size: Option<usize>,
    pub tau_spec_ms: Option<u32>,
    pub gate_db: Option<i32>,
    pub tilt_alpha_q: Option<u32>,
    pub flow_k_q: Option<u32>,
    pub spr_k: Option<u32>,
    pub spr_zeta_q: Option<u32>,
}

impl Config {
    /// Every field inside its documented range, with a valid frequency
    /// band.
    pub open spec fn sanitized(&self) -> bool {
        &&& 10 <= self.fmin_hz <= 1000
        &&& 1000 <= self.fmax_hz <= 24000
        &&& self.fmin_hz < self.fmax_hz
        &&& 8 <= self.target_fps_ms <= 50
        &&& 512 <= self.fft_size <= 4096
        &&& 10 <= self.tau_spec_ms <= 200
        &&& -80 <= self.gate_db <= -30
        &&& self.tilt_alpha_q <= 65536
        &&& self.flow_k_q <= 65536
        &&& 10 <= self.spr_k <= 200
        &&& 6554 <= self.spr_zeta_q <= 131072
    }

    /// The built-in defaults: 30 Hz – 16 kHz, 16 ms frames, a 2048-point
    /// transform, 60 ms spectral smoothing, a −55 dB gate, 0.30 tilt,
    /// 0.18 flow rate, stiffness 60 at critical damping.
    pub fn defaults() -> (c: Config)
        ensures
            c.sanitized(),
            c.fmin_hz == 30,
            c.fmax_hz == 16000,
            c.target_fps_ms == 16,
            c.fft_size == 2048,
            c.tau_spec_ms == 60,
            c.gate_db == -55,
            c.tilt_alpha_q == 19661,
            c.flow_k_q == 11796,
            c.spr_k == 60,
            c.spr_zeta_q == 65536,
    {
        Config {
            fmin_hz: 30,
            fmax_hz: 16000,
            target_fps_ms: 16,
            fft_size: 2048,
            tau_spec_ms: 60,
            gate_db: -55,
            tilt_alpha_q: 19661,
            flow_k_q: 11796,
            spr_k: 60,
            spr_zeta_q: 65536,
        }
    }

    /// Merge overrides: each present value replaces the current one.
    pub fn apply_file(&mut self, fc: &FileConfig)
        ensures
            final(self).fmin_hz == if fc.fmin_hz is Some {
                fc.fmin_hz->0
            } else {
                old(self).fmin_hz
            },
            final(self).fmax_hz == if fc.fmax_hz is Some {
                fc.fmax_hz->0
            } else {
                old(self).fmax_hz
            },
            final(self).target_fps_ms == if fc.target_fps_ms is Some {
                fc.target_fps_ms->0
            } else {
                old(self).target_fps_ms
            },
            final(self).fft_size == if fc.fft_size is Some {
                fc.fft_size->0
            } else {
                old(self).fft_size
            },
            final(self).tau_spec_ms == if fc.tau_spec_ms is Some {
                fc.tau_spec_ms->0
            } else {
                old(self).tau_spec_ms
            },
            final(self).gate_db == if fc.gate_db is Some {
                fc.gate_db->0
            } else {
                old(self).gate_db
            },
            final(self).tilt_alpha_q == if fc.tilt_alpha_q is Some {
                fc.tilt_alpha_q->0
            } else {
                old(self).tilt_alpha_q
            },
            final(self).flow_k_q == if fc.flow_k_q is Some {
                fc.flow_k_q->0
            } else {
                old(self).flow_k_q
            },
            final(self).spr_k == if fc.spr_k is Some {
                fc.spr_k->0
            } else {
                old(self).spr_k
            },
            final(self).spr_zeta_q == if fc.spr_zeta_q is Some {
                fc.spr_zeta_q->0
            } else {
                old(self).spr_zeta_q
            },
    {
        if let Some(v) = fc.fmin_hz {
            self.fmin_hz = v;
        }
        if let Some(v) = fc.fmax_hz {
            self.fmax_hz = v;
        }
        if let Some(v) = fc.target_fps_ms {
            self.target_fps_ms = v;
        }
        if let Some(v) = fc.fft_size {
            self.fft_size = v;
        }
        if let Some(v) = fc.tau_spec_ms {
            self.tau_spec_ms = v;
        }
        if let Some(v) = fc.gate_db {
            self.gate_db = v;
        }
        if let Some(v) = fc.tilt_alpha_q {
            self.tilt_alpha_q = v;
        }
        if let Some(v) = fc.flow_k_q {
            self.flow_k_q = v;
        }
        if let Some(v) = fc.spr_k {
            self.spr_k = v;
        }
        if let Some(v) = fc.spr_zeta_q {
            self.spr_zeta_q = v;
        }
    }

    /// Clamp every field into range instead of failing; an inverted
    /// frequency band falls back to the default one.
    pub fn sanitize(&mut self)
        ensures
            final(self).sanitized(),
            ({
                let fmin_c = clamp_spec(old(self).fmin_hz as int, 10, 1000);
                let fmax_c = clamp_spec(old(self).fmax_hz as int, 1000, 24000);
                if fmin_c >= fmax_c {
                    final(self).fmin_hz == 30 && final(self).fmax_hz == 16000
                } else {
                    final(self).fmin_hz == fmin_c && final(self).fmax_hz == fmax_c
                }
            }),
            final(self).target_fps_ms == clamp_spec(old(self).target_fps_ms as int, 8, 50),
            final(self).fft_size == clamp_spec(old(self).fft_size as int, 512, 4096),
            final(self).tau_spec_ms == clamp_spec(old(self).tau_spec_ms as int, 10, 200),
            final(self).gate_db == clamp_spec(old(self).gate_db as int, -80, -30),
            final(self).tilt_alpha_q == clamp_spec(old(self).tilt_alpha_q as int, 0, 65536),
            final(self).flow_k_q == clamp_spec(old(self).flow_k_q as int, 0, 65536),
            final(self).spr_k == clamp_spec(old(self).spr_k as int, 10, 200),
            final(self).spr_zeta_q == clamp_spec(old(self).spr_zeta_q as int, 6554, 131072),
    {
        let fmin_c = clamp_u32(self.fmin_hz, 10, 1000);
        let fmax_c = clamp_u32(self.fmax_hz, 1000, 24000);
        if fmin_c >= fmax_c {
            self.fmin_hz = 30;
            self.fmax_hz = 16000;
        } else {
            self.fmin_hz = fmin_c;
            self.fmax_hz = fmax_c;
        }
        self.target_fps_ms = clamp_u64(self.target_fps_ms, 8, 50);
        self.fft_size = clamp_usize(self.fft_size, 512, 4096);
        self.tau_spec_ms = clamp_u32(self.tau_spec_ms, 10, 200);
        self.gate_db = clamp_i32(self.gate_db, -80, -30);
        self.tilt_alpha_q = clamp_u32(self.tilt_alpha_q, 0, 65536);
        self.flow_k_q = clamp_u32(self.flow_k_q, 0, 65536);
        self.spr_k = clamp_u32(self.spr_k, 10, 200);
        self.spr_zeta_q = clamp_u32(self.spr_zeta_q, 6554, 131072);
    }
}

fn clamp_u32(x: u32, lo: u32, hi: u32) -> (r: u32)
    requires
        lo <= hi,
    ensures
        r == clamp_spec(x as int, lo as int, hi as int),
{
    if x < lo {
        lo
    } else if x > hi {
        hi
    } else {
        x
    }
}

fn clamp_u64(x: u64, lo: u64, hi: u64) -> (r: u64)
    requires
        lo <= hi,
    ensures
        r == clamp_spec(x as int, lo as int, hi as int),
{
    if x < lo {
        lo
    } else if x > hi {
        hi
    } else {
        x
    }
}

fn clamp_usize(x: usize, lo: usize, hi: usize) -> (r: usize)
    requires
        lo <= hi,
    ensures
        r == clamp_spec(x as int, lo as int, hi as int),
{
    if x < lo {
        lo
    } else if x > hi {
        hi
    } else {
        x
    }
}

fn clamp_i32(x: i32, lo: i32, hi: i32) -> (r: i32)
    requires
        lo <= hi,
    ensures
        r == clamp_spec(x as int, lo as int, hi as int),
{
    if x < lo {
        lo
    } else if x > hi {
        hi
    } else {
        x
    }
}

} // verus!
