//! System monitor: memory and drive snapshots, the caches that keep slow
//! readings (CPU model, graphics adapters) for a while, and the names of
//! display adapters as the system reports them.
use vstd::prelude::*;
use crate::registry::{decode_utf16_lossy, decode_utf16_units};
use crate::text::{string_from_chars, trim, trim_chars};

verus! {

/// Memory in use and in total, of RAM and of swap, in bytes.
#[derive(Clone, Copy, Debug)]
pub struct MemSnapshot {
    pub used: u64,
    pub total: u64,
    pub swap_used: u64,
    pub swap_total: u64,
}

/// A mounted drive.
#[derive(Debug, Clone)]
pub struct DriveInfo {
    pub name: String,
    pub mount: String,
    pub total: u64,
    pub available: u64,
    pub file_system: String,
    pub kind: String,
}

/// The CPU's model, frequency and number of logical cores, and when they
/// were read (milliseconds on a monotonic clock).
#[derive(Debug, Clone)]
pub struct CpuMeta {
    pub brand: String,
    pub frequency_mhz: u64,
    pub cores: usize,
    pub collected_at_ms: u64,
}

/// The CPU model is read again after 30 s, the list of adapters after 60 s.
pub const CPU_META_TTL_MS: u64 = 30000;

pub const GPU_STATIC_TTL_MS: u64 = 60000;

/// Whether a reading taken at `at_ms` is still fresh at `now_ms`: less than
/// `ttl_ms` has passed (time that runs backwards counts as none passed).
pub open spec fn fresh_spec(at_ms: u64, now_ms: u64, ttl_ms: u64) -> bool {
    (if now_ms >= at_ms {
        now_ms - at_ms
    } else {
        0
    }) < ttl_ms
}

pub fn is_fresh(at_ms: u64, now_ms: u64, ttl_ms: u64) -> (res: bool)
    ensures
        res == fresh_spec(at_ms, now_ms, ttl_ms),
{
    now_ms.saturating_sub(at_ms) < ttl_ms
}

/// The cached CPU reading, if there is one and it is fresh at `now_ms`.
pub fn cached_cpu_meta(cache: &Option<CpuMeta>, now_ms: u64) -> (res: Option<CpuMeta>)
    ensures
        match *cache {
            Some(m) => if fresh_spec(m.collected_at_ms, now_ms, CPU_META_TTL_MS) {
                res == Some(m)
            } else {
                res is None
            },
            None => res is None,
        },
{
    match cache {
        Some(m) => {
            if is_fresh(m.collected_at_ms, now_ms, CPU_META_TTL_MS) {
                Some(
                    CpuMeta {
                        brand: m.brand.clone(),
                        frequency_mhz: m.frequency_mhz,
                        cores: m.cores,
                        collected_at_ms: m.collected_at_ms,
                    },
                )
            } else {
                None
            }
        },
        None => None,
    }
}

/// Whether the cached list of adapters, read at `collected_at_ms` if ever,
/// is fresh at `now_ms`.
pub fn gpu_list_fresh(collected_at_ms: Option<u64>, now_ms: u64) -> (res: bool)
    ensures
        res == match collected_at_ms {
            Some(t) => fresh_spec(t, now_ms, GPU_STATIC_TTL_MS),
            None => false,
        },
{
    match collected_at_ms {
        Some(t) => is_fresh(t, now_ms, GPU_STATIC_TTL_MS),
        None => false,
    }
}

/// The units of `buf` before its first NUL (all of them without one).
pub open spec fn before_nul(buf: Seq<u16>) -> Seq<u16>
    decreases buf.len(),
{
    if buf.len() == 0 {
        buf
    } else if buf[0] == 0 {
        Seq::empty()
    } else {
        seq![buf[0]] + before_nul(buf.drop_first())
    }
}

/// The text of a fixed-size UTF-16 buffer: up to its first NUL, decoded
/// with U+FFFD for unpaired surrogates, trimmed.
pub open spec fn wide_text(buf: Seq<u16>) -> Seq<char> {
    trim(decode_utf16_lossy(before_nul(buf)))
}

proof fn lemma_before_nul_prefix(buf: Seq<u16>, i: int)
    requires
        0 <= i <= buf.len(),
        forall|j: int| 0 <= j < i ==> buf[j] != 0,
        i == buf.len() || buf[i] == 0,
    ensures
        before_nul(buf) == buf.take(i),
    decreases buf.len(),
{
    if buf.len() == 0 {
    } else if i == 0 {
        assert(buf.take(0) =~= Seq::<u16>::empty());
    } else {
        lemma_before_nul_prefix(buf.drop_first(), i - 1);
        assert(seq![buf[0]] + buf.drop_first().take(i - 1) =~= buf.take(i));
    }
}

/// The text of a fixed-size UTF-16 buffer (see `wide_text`).
pub fn wchar_to_string(buf: &[u16]) -> (res: String)
    ensures
        res@ == wide_text(buf@),
{
    let mut n: usize = 0;
    while n < buf.len() && buf[n] != 0
        invariant
            n <= buf.len(),
            forall|j: int| 0 <= j < n ==> buf@[j] != 0,
        decreases buf.len() - n,
    {
        n += 1;
    }
    let mut units: Vec<u16> = Vec::new();
    let mut i: usize = 0;
    while i < n
        invariant
            i <= n <= buf.len(),
            units@ == buf@.take(i as int),
        decreases n - i,
    {
        units.push(buf[i]);
        i += 1;
        assert(units@ =~= buf@.take(i as int));
    }
    proof {
        lemma_before_nul_prefix(buf@, n as int);
    }
    let chars = decode_utf16_units(&units);
    string_from_chars(trim_chars(&chars).as_slice())
}

/// The names of the display adapters among the devices the system lists:
/// each device's text (see `wide_text`), empty ones left out.
pub open spec fn adapter_names(devices: Seq<Seq<u16>>) -> Seq<Seq<char>>
    decreases devices.len(),
{
    if devices.len() == 0 {
        Seq::empty()
    } else {
        let prev = adapter_names(devices.drop_last());
        let name = wide_text(devices.last());
        if name.len() == 0 {
            prev
        } else {
            prev.push(name)
        }
    }
}

/// The adapter names (see `adapter_names`) from the device strings the
/// system reported, in order.
pub fn display_adapter_names(devices: &Vec<Vec<u16>>) -> (res: Vec<String>)
    ensures
        res@.map_values(|s: String| s@) == adapter_names(devices@.map_values(|d: Vec<u16>| d@)),
{
    let ghost dv = devices@.map_values(|d: Vec<u16>| d@);
    let mut out: Vec<String> = Vec::new();
    let mut i: usize = 0;
    while i < devices.len()
        invariant
            i <= devices.len(),
            dv == devices@.map_values(|d: Vec<u16>| d@),
            out@.map_values(|s: String| s@) == adapter_names(dv.take(i as int)),
        decreases devices.len() - i,
    {
        let ghost before = out@.map_values(|s: String| s@);
        assert(dv.take(i + 1).drop_last() =~= dv.take(i as int));
        assert(dv.take(i + 1).last() == devices@[i as int]@);
        let name = wchar_to_string(devices[i].as_slice());
        if name.as_str().unicode_len() > 0 {
            out.push(name);
            assert(out@.map_values(|s: String| s@) =~= before.push(wide_text(devices@[i as int]@)));
        }
        i += 1;
    }
    assert(dv.take(devices.len() as int) =~= dv);
    out
}

} // verus!
