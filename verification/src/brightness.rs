//! Physical display brightness on Windows: the display list assembled from what DDC/CI and
//! WMI report, the backend remembered for each display, and the commands that set a level.
use vstd::prelude::*;
use crate::text::{
    append_str, chars_of, dec, dec_chars, is_blank, starts_with, starts_with_exec, str_eq,
    string_of, trim,
};

verus! {

/// One display as the brightness panel shows it.
pub struct DisplayBrightness {
    pub id: String,
    pub name: String,
    pub brightness: u32,
    pub min: u32,
    pub max: u32,
    pub supported: bool,
}

pub ghost struct DisplayV {
    pub id: Seq<char>,
    pub name: Seq<char>,
    pub brightness: u32,
    pub min: u32,
    pub max: u32,
    pub supported: bool,
}

impl View for DisplayBrightness {
    type V = DisplayV;

    open spec fn view(&self) -> DisplayV {
        DisplayV {
            id: self.id@,
            name: self.name@,
            brightness: self.brightness,
            min: self.min,
            max: self.max,
            supported: self.supported,
        }
    }
}

/// What DDC/CI reported for a monitor: its range, its level and its description.
pub struct DdcReading {
    pub min: u32,
    pub cur: u32,
    pub max: u32,
    pub desc: String,
}

/// A reading as kept: the maximum is at least 1.
pub fn ddc_reading(min: u32, cur: u32, max: u32, desc: String) -> (r: DdcReading)
    ensures
        r.min == min,
        r.cur == cur,
        r.max == (if max < 1 {
            1
        } else {
            max
        }),
        r.desc@ == desc@,
{
    DdcReading {
        min,
        cur,
        max: if max < 1 {
            1
        } else {
            max
        },
        desc,
    }
}

/// A monitor found by enumeration: its handle, its device name and, when DDC/CI answered,
/// its reading.
pub struct MonitorProbe {
    pub handle: isize,
    pub device_name: String,
    pub ddc: Option<DdcReading>,
}

/// How a display's brightness is set.
pub enum Backend {
    Ddc { hmonitor: isize },
    Wmi { instance: String },
}

pub ghost enum BackendV {
    Ddc { hmonitor: isize },
    Wmi { instance: Seq<char> },
}

/// A display id and how to reach it.
pub struct CachedDisplay {
    pub id: String,
    pub backend: Backend,
}

pub open spec fn backend_view(b: Backend) -> BackendV {
    match b {
        Backend::Ddc { hmonitor } => BackendV::Ddc { hmonitor },
        Backend::Wmi { instance } => BackendV::Wmi { instance: instance@ },
    }
}

pub open spec fn displays_view(v: Seq<DisplayBrightness>) -> Seq<DisplayV> {
    v.map_values(|d: DisplayBrightness| d@)
}

pub open spec fn cache_view(v: Seq<CachedDisplay>) -> Seq<(Seq<char>, BackendV)> {
    v.map_values(|c: CachedDisplay| (c.id@, backend_view(c.backend)))
}

/// `disp-{i}`.
pub open spec fn display_id(i: nat) -> Seq<char> {
    "disp-"@ + dec(i)
}

/// `显示器 {i + 1}`.
pub open spec fn fallback_name(i: nat) -> Seq<char> {
    "显示器 "@ + dec(i + 1)
}

/// `内建屏幕 {n}`.
pub open spec fn builtin_name(n: nat) -> Seq<char> {
    "内建屏幕 "@ + dec(n)
}

/// The entry for the `i`-th enumerated monitor: with a DDC/CI reading it is supported at the
/// read level and range (named by its description unless that is blank); without one it is
/// a placeholder at 50 of 0..100 (named by its device name unless blank).
pub open spec fn probe_display(p: MonitorProbe, i: nat) -> DisplayV {
    match p.ddc {
        Some(d) => DisplayV {
            id: display_id(i),
            name: if trim(d.desc@).len() == 0 {
                fallback_name(i)
            } else {
                d.desc@
            },
            brightness: d.cur,
            min: d.min,
            max: d.max,
            supported: true,
        },
        None => DisplayV {
            id: display_id(i),
            name: if trim(p.device_name@).len() == 0 {
                fallback_name(i)
            } else {
                p.device_name@
            },
            brightness: 50,
            min: 0,
            max: 100,
            supported: false,
        },
    }
}

/// The first display from `i` on that is not supported yet.
pub open spec fn first_unsupported(out: Seq<DisplayV>, i: int) -> Option<int>
    decreases out.len() - i,
{
    if i < 0 || i >= out.len() {
        None
    } else if !out[i].supported {
        Some(i)
    } else {
        first_unsupported(out, i + 1)
    }
}

/// The device-name prefix of a display that is known only by its GDI name.
pub open spec fn gdi_prefix() -> Seq<char> {
    seq!['\\', '\\', '.', '\\', 'D', 'I', 'S', 'P', 'L', 'A', 'Y']
}

/// The WMI rows from `k` on, each bound to the first display still unsupported (typically
/// the laptop panel, renamed when it has only its GDI name), or added as a new built-in
/// display.
pub open spec fn bind_wmi(
    out: Seq<DisplayV>,
    cache: Seq<(Seq<char>, BackendV)>,
    rows: Seq<(Seq<char>, u8)>,
    k: int,
) -> (Seq<DisplayV>, Seq<(Seq<char>, BackendV)>)
    decreases rows.len() - k,
{
    if k < 0 || k >= rows.len() {
        (out, cache)
    } else {
        let (instance, cur) = rows[k];
        match first_unsupported(out, 0) {
            Some(pos) => {
                let d = out[pos];
                let nd = DisplayV {
                    brightness: cur as u32,
                    min: 0,
                    max: 100,
                    supported: true,
                    name: if starts_with(d.name, gdi_prefix()) {
                        builtin_name((pos + 1) as nat)
                    } else {
                        d.name
                    },
                    ..d
                };
                bind_wmi(
                    out.update(pos, nd),
                    cache.update(pos, (cache[pos].0, BackendV::Wmi { instance })),
                    rows,
                    k + 1,
                )
            },
            None => {
                let n = out.len();
                bind_wmi(
                    out.push(
                        DisplayV {
                            id: display_id(n),
                            name: builtin_name(n + 1),
                            brightness: cur as u32,
                            min: 0,
                            max: 100,
                            supported: true,
                        },
                    ),
                    cache.push((display_id(n), BackendV::Wmi { instance })),
                    rows,
                    k + 1,
                )
            },
        }
    }
}

pub open spec fn probes_displays(probes: Seq<MonitorProbe>) -> Seq<DisplayV> {
    Seq::new(probes.len(), |i: int| probe_display(probes[i], i as nat))
}

pub open spec fn probes_cache(probes: Seq<MonitorProbe>) -> Seq<(Seq<char>, BackendV)> {
    Seq::new(
        probes.len(),
        |i: int| (display_id(i as nat), BackendV::Ddc { hmonitor: probes[i].handle }),
    )
}

pub open spec fn rows_view(rows: Seq<(String, u8)>) -> Seq<(Seq<char>, u8)> {
    rows.map_values(|r: (String, u8)| (r.0@, r.1))
}

/// The displays and the cache of backends, from the enumerated monitors and the WMI rows.
pub open spec fn assembled(probes: Seq<MonitorProbe>, rows: Seq<(String, u8)>) -> (Seq<DisplayV>, Seq<
    (Seq<char>, BackendV),
>) {
    bind_wmi(probes_displays(probes), probes_cache(probes), rows_view(rows), 0)
}

fn numbered(prefix: &str, n: u64) -> (r: String)
    ensures
        r@ == prefix@ + dec(n as nat),
{
    let mut out = String::from_str(prefix);
    let d = dec_chars(n);
    let ds = string_of(d.as_slice());
    append_str(&mut out, ds.as_str());
    out
}

proof fn lemma_first_unsupported(out: Seq<DisplayV>, i: int)
    requires
        0 <= i,
    ensures
        match first_unsupported(out, i) {
            Some(p) => i <= p < out.len() && !out[p].supported && forall|j: int|
                i <= j < p ==> out[j].supported,
            None => forall|j: int| i <= j < out.len() ==> out[j].supported,
        },
    decreases out.len() - i,
{
    if i < out.len() && out[i].supported {
        lemma_first_unsupported(out, i + 1);
    }
}

fn display_of(p: &MonitorProbe, i: u64) -> (r: DisplayBrightness)
    requires
        i < u64::MAX,
    ensures
        r@ == probe_display(*p, i as nat),
{
    let id = numbered("disp-", i);
    match &p.ddc {
        Some(d) => {
            let name = if is_blank(d.desc.as_str()) {
                numbered("显示器 ", i + 1)
            } else {
                d.desc.clone()
            };
            DisplayBrightness { id, name, brightness: d.cur, min: d.min, max: d.max, supported: true }
        },
        None => {
            let name = if is_blank(p.device_name.as_str()) {
                numbered("显示器 ", i + 1)
            } else {
                p.device_name.clone()
            };
            DisplayBrightness { id, name, brightness: 50, min: 0, max: 100, supported: false }
        },
    }
}

fn find_unsupported(out: &Vec<DisplayBrightness>) -> (r: Option<usize>)
    ensures
        match r {
            Some(p) => first_unsupported(displays_view(out@), 0) == Some(p as int),
            None => first_unsupported(displays_view(out@), 0) is None,
        },
{
    let ghost ov = displays_view(out@);
    proof {
        lemma_first_unsupported(ov, 0);
    }
    let mut i: usize = 0;
    while i < out.len()
        invariant
            i <= out@.len(),
            ov == displays_view(out@),
            first_unsupported(ov, i as int) == first_unsupported(ov, 0),
        decreases out@.len() - i,
    {
        if !out[i].supported {
            return Some(i);
        }
        i = i + 1;
    }
    None
}

/// The Windows display list: each enumerated monitor (see `probe_display`), then each WMI
/// row bound as `bind_wmi` says. Returns the displays and the backend cache, which has the
/// same ids in the same order.
pub fn list_displays(probes: Vec<MonitorProbe>, wmi_rows: Vec<(String, u8)>) -> (r: (
    Vec<DisplayBrightness>,
    Vec<CachedDisplay>,
))
    requires
        probes@.len() + wmi_rows@.len() < u64::MAX,
    ensures
        displays_view(r.0@) == assembled(probes@, wmi_rows@).0,
        cache_view(r.1@) == assembled(probes@, wmi_rows@).1,
{
    let mut out: Vec<DisplayBrightness> = Vec::new();
    let mut cache: Vec<CachedDisplay> = Vec::new();
    let mut idx: u64 = 0;
    let mut i: usize = 0;
    while i < probes.len()
        invariant
            i <= probes@.len(),
            idx == i,
            probes@.len() + wmi_rows@.len() < u64::MAX,
            displays_view(out@) == probes_displays(probes@).take(i as int),
            cache_view(cache@) == probes_cache(probes@).take(i as int),
        decreases probes@.len() - i,
    {
        let ghost pv = displays_view(out@);
        let ghost pc = cache_view(cache@);
        let d = display_of(&probes[i], idx);
        out.push(d);
        cache.push(CachedDisplay { id: numbered("disp-", idx), backend: Backend::Ddc { hmonitor: probes[i].handle } });
        proof {
            assert(displays_view(out@) =~= pv.push(probe_display(probes@[i as int], i as nat)));
            assert(probes_displays(probes@).take(i as int + 1) =~= probes_displays(probes@).take(
                i as int,
            ).push(probe_display(probes@[i as int], i as nat)));
            assert(cache_view(cache@) =~= pc.push(
                (display_id(i as nat), BackendV::Ddc { hmonitor: probes@[i as int].handle }),
            ));
            assert(probes_cache(probes@).take(i as int + 1) =~= probes_cache(probes@).take(
                i as int,
            ).push((display_id(i as nat), BackendV::Ddc { hmonitor: probes@[i as int].handle })));
        }
        idx = idx + 1;
        i = i + 1;
    }
    assert(probes_displays(probes@).take(i as int) =~= probes_displays(probes@));
    assert(probes_cache(probes@).take(i as int) =~= probes_cache(probes@));
    let ghost rv = rows_view(wmi_rows@);
    let mut k: usize = 0;
    while k < wmi_rows.len()
        invariant
            k <= wmi_rows@.len(),
            rv == rows_view(wmi_rows@),
            probes@.len() + wmi_rows@.len() < u64::MAX,
            idx == out@.len(),
            out@.len() <= probes@.len() + k,
            cache@.len() == out@.len(),
            bind_wmi(displays_view(out@), cache_view(cache@), rv, k as int) == assembled(
                probes@,
                wmi_rows@,
            ),
        decreases wmi_rows@.len() - k,
    {
        let instance = wmi_rows[k].0.clone();
        let cur = wmi_rows[k].1;
        let ghost ov = displays_view(out@);
        let ghost cv = cache_view(cache@);
        proof {
            lemma_first_unsupported(ov, 0);
        }
        match find_unsupported(&out) {
            Some(pos) => {
                let gdi = chars_of("\\\\.\\DISPLAY");
                proof {
                    reveal_strlit("\\\\.\\DISPLAY");
                    assert(gdi@ =~= gdi_prefix());
                }
                let renamed = starts_with_exec(chars_of(out[pos].name.as_str()).as_slice(), gdi.as_slice());
                let old_d = &out[pos];
                assert(pos < out@.len());
                let name = if renamed {
                    numbered("内建屏幕 ", pos as u64 + 1)
                } else {
                    old_d.name.clone()
                };
                let nd = DisplayBrightness {
                    id: old_d.id.clone(),
                    name,
                    brightness: cur as u32,
                    min: 0,
                    max: 100,
                    supported: true,
                };
                out.set(pos, nd);
                let cid = cache[pos].id.clone();
                cache.set(pos, CachedDisplay { id: cid, backend: Backend::Wmi { instance } });
                proof {
                    assert(displays_view(out@) =~= ov.update(pos as int, displays_view(out@)[pos as int]));
                    assert(cache_view(cache@) =~= cv.update(
                        pos as int,
                        (cv[pos as int].0, BackendV::Wmi { instance: rv[k as int].0 }),
                    ));
                }
            },
            None => {
                let id = numbered("disp-", idx);
                let n = out.len();
                let name = numbered("内建屏幕 ", n as u64 + 1);
                out.push(
                    DisplayBrightness { id, name, brightness: cur as u32, min: 0, max: 100, supported: true },
                );
                cache.push(CachedDisplay { id: numbered("disp-", idx), backend: Backend::Wmi { instance } });
                idx = idx + 1;
                proof {
                    assert(displays_view(out@) =~= ov.push(displays_view(out@)[n as int]));
                    assert(cache_view(cache@) =~= cv.push(
                        (display_id(n as nat), BackendV::Wmi { instance: rv[k as int].0 }),
                    ));
                }
            },
        }
        k = k + 1;
    }
    (out, cache)
}

/// The brightness a DDC/CI monitor is set to: `value` kept within `[min, max(max, min)]`.
pub fn ddc_level(value: u32, min: u32, max: u32) -> (r: u32)
    ensures
        r == (if value < min {
            min
        } else if value > (if max < min {
            min
        } else {
            max
        }) {
            if max < min {
                min
            } else {
                max
            }
        } else {
            value
        }),
{
    let hi = if max < min {
        min
    } else {
        max
    };
    if value < min {
        min
    } else if value > hi {
        hi
    } else {
        value
    }
}

pub open spec fn msg_no_display() -> Seq<char> {
    "未找到显示器，请重新打开亮度面板"@
}

/// The backend of the display `id` in the cache (the first entry with that id).
pub fn set_display_brightness(cache: &Vec<CachedDisplay>, id: &str) -> (r: Result<Backend, String>)
    ensures
        match r {
            Ok(b) => exists|k: int|
                0 <= k < cache@.len() && (#[trigger] cache@[k]).id@ == id@ && backend_view(b)
                    == backend_view(cache@[k].backend) && forall|j: int|
                    0 <= j < k ==> (#[trigger] cache@[j]).id@ != id@,
            Err(e) => e@ == msg_no_display() && forall|j: int|
                0 <= j < cache@.len() ==> (#[trigger] cache@[j]).id@ != id@,
        },
{
    let mut i: usize = 0;
    while i < cache.len()
        invariant
            i <= cache@.len(),
            forall|j: int| 0 <= j < i ==> (#[trigger] cache@[j]).id@ != id@,
        decreases cache@.len() - i,
    {
        if str_eq(cache[i].id.as_str(), id) {
            let b = match &cache[i].backend {
                Backend::Ddc { hmonitor } => Backend::Ddc { hmonitor: *hmonitor },
                Backend::Wmi { instance } => Backend::Wmi { instance: instance.clone() },
            };
            return Ok(b);
        }
        i = i + 1;
    }
    Err(String::from_str("未找到显示器，请重新打开亮度面板"))
}

/// `'` doubled, for a single-quoted PowerShell string.
pub open spec fn ps_quote(s: Seq<char>) -> Seq<char>
    decreases s.len(),
{
    if s.len() == 0 {
        s
    } else {
        ps_quote(s.drop_last()) + (if s.last() == '\'' {
            seq!['\'', '\'']
        } else {
            seq![s.last()]
        })
    }
}

pub fn ps_quote_exec(s: &str) -> (r: String)
    ensures
        r@ == ps_quote(s@),
{
    let v = chars_of(s);
    let mut out = String::new();
    let mut i: usize = 0;
    while i < v.len()
        invariant
            i <= v@.len(),
            v@ == s@,
            out@ == ps_quote(v@.take(i as int)),
        decreases v@.len() - i,
    {
        assert(v@.take(i as int + 1).drop_last() =~= v@.take(i as int));
        if v[i] == '\'' {
            crate::text::push_char(&mut out, '\'');
            crate::text::push_char(&mut out, '\'');
        } else {
            crate::text::push_char(&mut out, v[i]);
        }
        i = i + 1;
        assert(out@ =~= ps_quote(v@.take(i as int)));
    }
    assert(v@.take(v@.len() as int) =~= v@);
    out
}

/// The PowerShell script that sets the WMI brightness of `instance` (level capped at 100).
pub open spec fn wmi_script(instance: Seq<char>, value: u32) -> Seq<char> {
    let b: nat = if value > 100 {
        100
    } else {
        value as nat
    };
    "$m = Get-CimInstance -Namespace root/WMI -ClassName WmiMonitorBrightnessMethods | Where-Object { $_.InstanceName -eq '"@
        + ps_quote(instance) + "' }; if ($null -eq $m) { throw 'not found' }; Invoke-CimMethod -InputObject $m -MethodName WmiSetBrightness -Arguments @{Timeout=1; Brightness="@
        + dec(b) + "} | Out-Null"@
}

pub fn wmi_set_script(instance: &str, value: u32) -> (r: String)
    ensures
        r@ == wmi_script(instance@, value),
{
    let b: u64 = if value > 100 {
        100
    } else {
        value as u64
    };
    let mut out = String::from_str(
        "$m = Get-CimInstance -Namespace root/WMI -ClassName WmiMonitorBrightnessMethods | Where-Object { $_.InstanceName -eq '",
    );
    let q = ps_quote_exec(instance);
    append_str(&mut out, q.as_str());
    append_str(
        &mut out,
        "' }; if ($null -eq $m) { throw 'not found' }; Invoke-CimMethod -InputObject $m -MethodName WmiSetBrightness -Arguments @{Timeout=1; Brightness=",
    );
    let d = string_of(dec_chars(b).as_slice());
    append_str(&mut out, d.as_str());
    append_str(&mut out, "} | Out-Null");
    out
}

/// The error for a failed WMI call: its standard error, trimmed and cut to 160 characters,
/// after a fixed prefix (the prefix alone when that is empty).
pub open spec fn wmi_error(stderr: Seq<char>) -> Seq<char> {
    let t = trim(stderr);
    let brief = if t.len() > 160 {
        t.take(160)
    } else {
        t
    };
    if brief.len() == 0 {
        "调节内建亮度失败"@
    } else {
        "调节内建亮度失败: "@ + brief
    }
}

pub fn wmi_error_message(stderr: &str) -> (r: String)
    ensures
        r@ == wmi_error(stderr@),
{
    let t = crate::text::trim_chars(chars_of(stderr).as_slice());
    let mut brief: Vec<char> = Vec::new();
    let mut i: usize = 0;
    while i < t.len() && i < 160
        invariant
            i <= t@.len(),
            i <= 160,
            brief@ == t@.take(i as int),
        decreases t@.len() - i,
    {
        brief.push(t[i]);
        i = i + 1;
    }
    proof {
        if t@.len() > 160 {
            assert(brief@ =~= t@.take(160));
        } else {
            assert(brief@ =~= t@);
        }
    }
    if brief.len() == 0 {
        return String::from_str("调节内建亮度失败");
    }
    let mut out = String::from_str("调节内建亮度失败: ");
    let b = string_of(brief.as_slice());
    append_str(&mut out, b.as_str());
    out
}

/// The height of the brightness popup in logical pixels: 56 plus 72 per display (at least
/// one), kept within 120..800.
pub fn bubble_height(display_count: usize) -> (r: u32)
    ensures
        r == ({
            let rows: int = if display_count < 1 {
                1
            } else {
                display_count as int
            };
            let h = 56 + 72 * rows;
            if h < 120 {
                120
            } else if h > 800 {
                800
            } else {
                h
            }
        }),
{
    let rows: usize = if display_count < 1 {
        1
    } else {
        display_count
    };
    if rows >= 11 {
        return 800;
    }
    let h: u32 = 56 + 72 * (rows as u32);
    if h < 120 {
        120
    } else if h > 800 {
        800
    } else {
        h
    }
}

/// The macOS list: the main display as a placeholder (`cg-{id}`), since physical brightness
/// cannot be set there.
pub fn list_displays_macos(main_id: u32) -> (r: Vec<DisplayBrightness>)
    ensures
        displays_view(r@) == seq![
            DisplayV {
                id: "cg-"@ + dec(main_id as nat),
                name: "主显示器"@,
                brightness: 50,
                min: 0,
                max: 100,
                supported: false,
            },
        ],
{
    let mut v: Vec<DisplayBrightness> = Vec::new();
    v.push(
        DisplayBrightness {
            id: numbered("cg-", main_id as u64),
            name: String::from_str("主显示器"),
            brightness: 50,
            min: 0,
            max: 100,
            supported: false,
        },
    );
    assert(displays_view(v@) =~= seq![
        DisplayV {
            id: "cg-"@ + dec(main_id as nat),
            name: "主显示器"@,
            brightness: 50,
            min: 0,
            max: 100,
            supported: false,
        },
    ]);
    v
}

/// Setting a level on macOS is not supported.
pub fn set_display_brightness_macos() -> (r: Result<(), String>)
    ensures
        r matches Err(e) && e@ == "当前 macOS 版本暂不支持调节物理亮度"@,
{
    Err(String::from_str("当前 macOS 版本暂不支持调节物理亮度"))
}

/// Setting a level on platforms other than Windows and macOS is not supported.
pub fn set_display_brightness_other() -> (r: Result<(), String>)
    ensures
        r matches Err(e) && e@ == "当前平台不支持调节亮度"@,
{
    Err(String::from_str("当前平台不支持调节亮度"))
}

} // verus!
