//! Writing the system hosts file: where it is, when to retry with elevation, the scripts that
//! copy a prepared file over it with administrator rights, and whether that took effect.
use vstd::prelude::*;
use crate::brightness::{ps_quote, ps_quote_exec};
use crate::hosts_file::MARKER_BEGIN;
use crate::text::{append_str, chars_of, push_char};

verus! {

pub const WINDOWS_HOSTS_PATH: &'static str = "C:\\Windows\\System32\\drivers\\etc\\hosts";
pub const UNIX_HOSTS_PATH: &'static str = "/etc/hosts";

/// The system hosts file of the platform.
pub fn system_hosts_path(is_windows: bool) -> (r: &'static str)
    ensures
        is_windows ==> r@ == WINDOWS_HOSTS_PATH@,
        !is_windows ==> r@ == UNIX_HOSTS_PATH@,
{
    if is_windows {
        WINDOWS_HOSTS_PATH
    } else {
        UNIX_HOSTS_PATH
    }
}

/// A failed plain write is retried with elevation when access was denied, when the error is
/// of the `Other` kind, and always on Windows.
pub fn should_elevate(permission_denied: bool, other_error: bool, is_windows: bool) -> (r: bool)
    ensures
        r == (permission_denied || other_error || is_windows),
{
    permission_denied || other_error || is_windows
}

/// The PowerShell script that copies `src` over `dest` (both single-quoted).
pub open spec fn windows_copy_script_of(src: Seq<char>, dest: Seq<char>) -> Seq<char> {
    "Copy-Item -LiteralPath '"@ + ps_quote(src) + "' -Destination '"@ + ps_quote(dest)
        + "' -Force\r\n"@
}

pub fn windows_copy_script(src: &str, dest: &str) -> (r: String)
    ensures
        r@ == windows_copy_script_of(src@, dest@),
{
    let mut out = String::from_str("Copy-Item -LiteralPath '");
    let s = ps_quote_exec(src);
    append_str(&mut out, s.as_str());
    append_str(&mut out, "' -Destination '");
    let d = ps_quote_exec(dest);
    append_str(&mut out, d.as_str());
    append_str(&mut out, "' -Force\r\n");
    out
}

/// The command that runs the script `ps1` elevated (UAC) and waits for it.
pub open spec fn windows_elevate_command_of(ps1: Seq<char>) -> Seq<char> {
    "Start-Process -FilePath powershell -Verb RunAs -Wait -WindowStyle Hidden -ArgumentList '-NoProfile','-ExecutionPolicy','Bypass','-File','"@
        + ps_quote(ps1) + "'"@
}

pub fn windows_elevate_command(ps1: &str) -> (r: String)
    ensures
        r@ == windows_elevate_command_of(ps1@),
{
    let mut out = String::from_str(
        "Start-Process -FilePath powershell -Verb RunAs -Wait -WindowStyle Hidden -ArgumentList '-NoProfile','-ExecutionPolicy','Bypass','-File','",
    );
    let q = ps_quote_exec(ps1);
    append_str(&mut out, q.as_str());
    append_str(&mut out, "'");
    out
}

/// `"` escaped as `\"`.
pub open spec fn dq_escape(s: Seq<char>) -> Seq<char>
    decreases s.len(),
{
    if s.len() == 0 {
        s
    } else {
        dq_escape(s.drop_last()) + (if s.last() == '"' {
            seq!['\\', '"']
        } else {
            seq![s.last()]
        })
    }
}

fn dq_escape_exec(s: &str) -> (r: String)
    ensures
        r@ == dq_escape(s@),
{
    let v = chars_of(s);
    let mut out = String::new();
    let mut i: usize = 0;
    while i < v.len()
        invariant
            i <= v@.len(),
            v@ == s@,
            out@ == dq_escape(v@.take(i as int)),
        decreases v@.len() - i,
    {
        assert(v@.take(i as int + 1).drop_last() =~= v@.take(i as int));
        if v[i] == '"' {
            push_char(&mut out, '\\');
            push_char(&mut out, '"');
        } else {
            push_char(&mut out, v[i]);
        }
        i = i + 1;
        assert(out@ =~= dq_escape(v@.take(i as int)));
    }
    assert(v@.take(v@.len() as int) =~= v@);
    out
}

/// The AppleScript that copies `src` over `dest` with administrator privileges.
pub open spec fn macos_copy_script_of(src: Seq<char>, dest: Seq<char>) -> Seq<char> {
    "do shell script \"cp \\\""@ + dq_escape(src) + "\\\" \\\""@ + dq_escape(dest)
        + "\\\"\" with administrator privileges"@
}

pub fn macos_copy_script(src: &str, dest: &str) -> (r: String)
    ensures
        r@ == macos_copy_script_of(src@, dest@),
{
    let mut out = String::from_str("do shell script \"cp \\\"");
    let s = dq_escape_exec(src);
    append_str(&mut out, s.as_str());
    append_str(&mut out, "\\\" \\\"");
    let d = dq_escape_exec(dest);
    append_str(&mut out, d.as_str());
    append_str(&mut out, "\\\"\" with administrator privileges");
    out
}

/// The elevation programs tried on Linux, in order, each with the `cp` arguments.
pub fn linux_elevation_attempts(src: &str, dest: &str) -> (r: Vec<(&'static str, Vec<String>)>)
    ensures
        r@.len() == 2,
        r@[0].0@ == "pkexec"@,
        r@[1].0@ == "sudo"@,
        forall|k: int|
            0 <= k < 2 ==> (#[trigger] r@[k]).1@.len() == 3 && r@[k].1@[0]@ == "cp"@ && r@[k].1@[1]@
                == src@ && r@[k].1@[2]@ == dest@,
{
    let mut a: Vec<String> = Vec::new();
    a.push(String::from_str("cp"));
    a.push(String::from_str(src));
    a.push(String::from_str(dest));
    let mut b: Vec<String> = Vec::new();
    b.push(String::from_str("cp"));
    b.push(String::from_str(src));
    b.push(String::from_str(dest));
    let mut v: Vec<(&'static str, Vec<String>)> = Vec::new();
    v.push(("pkexec", a));
    v.push(("sudo", b));
    v
}

/// `p` occurs in `s`.
pub open spec fn contains_seq(s: Seq<char>, p: Seq<char>) -> bool {
    exists|i: int| 0 <= i && i + p.len() <= s.len() && #[trigger] s.subrange(i, i + p.len()) == p
}

fn contains_exec(s: &[char], p: &[char]) -> (r: bool)
    ensures
        r == contains_seq(s@, p@),
{
    if p.len() > s.len() {
        return false;
    }
    let last = s.len() - p.len();
    let mut i: usize = 0;
    loop
        invariant
            p@.len() <= s@.len(),
            last == s@.len() - p@.len(),
            i <= last,
            forall|k: int| 0 <= k < i ==> #[trigger] s@.subrange(k, k + p@.len()) != p@,
        decreases last - i,
    {
        let mut j: usize = 0;
        let mut same = true;
        while j < p.len()
            invariant
                j <= p@.len(),
                p@.len() <= s@.len(),
                i <= last,
                last == s@.len() - p@.len(),
                same == (forall|m: int| 0 <= m < j ==> s@[i + m] == p@[m]),
            decreases p@.len() - j,
        {
            assert(i + j < s@.len());
            assert(s@.len() == s.len());
            if s[i + j] != p[j] {
                same = false;
            }
            j = j + 1;
        }
        if same {
            assert(s@.subrange(i as int, i + p@.len()) =~= p@);
            return true;
        }
        assert(s@.subrange(i as int, i + p@.len()) != p@) by {
            let m = choose|m: int| 0 <= m < p@.len() && s@[i + m] != p@[m];
            assert(s@.subrange(i as int, i + p@.len())[m] == s@[i + m]);
        }
        if i == last {
            assert forall|k: int| 0 <= k && k + p@.len() <= s@.len() implies #[trigger] s@.subrange(
                k,
                k + p@.len(),
            ) != p@ by {
                assert(k <= i);
            }
            return false;
        }
        i = i + 1;
    }
}

/// After an elevated copy: when the prepared file held the managed block but the hosts
/// file still does not, the copy did not take effect (the elevation was likely refused).
pub fn elevated_copy_took_effect(prepared: &str, written: &str) -> (r: bool)
    ensures
        r == !(contains_seq(prepared@, MARKER_BEGIN@) && !contains_seq(written@, MARKER_BEGIN@)),
{
    let m = chars_of(MARKER_BEGIN);
    let expect = contains_exec(chars_of(prepared).as_slice(), m.as_slice());
    let present = contains_exec(chars_of(written).as_slice(), m.as_slice());
    !(expect && !present)
}

} // verus!
