//! The intranet server root: normalising what the user typed, and the resource URLs under it.
use vstd::prelude::*;
use crate::text::{
    append_str, chars_of, lemma_trim_end_char_after_push, lemma_trim_fixed, starts_with,
    starts_with_exec, string_of, trim, trim_chars, trim_end_char, trim_end_char_exec, is_ws,
};

verus! {

/// Default intranet http-server root (trailing slash).
pub const DEFAULT_SERVER_BASE: &'static str = "http://172.20.2.169:7101/";

/// App resources under the server root (updates and the hosts preset).
pub const APP_RESOURCE_PATH: &'static str = "appStore/Software/PC/developer/jdd-crypto";

pub open spec fn msg_scheme() -> Seq<char> {
    "服务器地址需以 http:// 或 https:// 开头"@
}

pub open spec fn msg_invalid() -> Seq<char> {
    "服务器地址无效"@
}

/// What the user typed, as a base URL: blank gives the default; otherwise trailing slashes
/// go, the rest must start with `http://` or `https://` and hold more than `http://`, and
/// one slash is put back.
pub open spec fn normalized_base(raw: Seq<char>) -> Result<Seq<char>, Seq<char>> {
    let t = trim(raw);
    if t.len() == 0 {
        Ok(DEFAULT_SERVER_BASE@)
    } else {
        let w = trim_end_char(t, '/');
        if !(starts_with(w, "http://"@) || starts_with(w, "https://"@)) {
            Err(msg_scheme())
        } else if w.len() <= 7 {
            Err(msg_invalid())
        } else {
            Ok(w.push('/'))
        }
    }
}

/// Normalise user input to an http(s) base URL with a trailing slash.
pub fn normalize_base(raw: &str) -> (r: Result<String, String>)
    ensures
        match normalized_base(raw@) {
            Ok(n) => r matches Ok(s) && s@ == n,
            Err(e) => r matches Err(s) && s@ == e,
        },
{
    let t = trim_chars(chars_of(raw).as_slice());
    if t.len() == 0 {
        return Ok(String::from_str(DEFAULT_SERVER_BASE));
    }
    let w = trim_end_char_exec(t.as_slice(), '/');
    let http: Vec<char> = chars_of("http://");
    let https: Vec<char> = chars_of("https://");
    proof {
        reveal_strlit("http://");
        reveal_strlit("https://");
    }
    if !(starts_with_exec(w.as_slice(), http.as_slice()) || starts_with_exec(
        w.as_slice(),
        https.as_slice(),
    )) {
        return Err(String::from_str("服务器地址需以 http:// 或 https:// 开头"));
    }
    if w.len() <= 7 {
        return Err(String::from_str("服务器地址无效"));
    }
    let mut out = string_of(w.as_slice());
    append_str(&mut out, "/");
    proof {
        reveal_strlit("/");
        assert(out@ =~= w@.push('/'));
    }
    Ok(out)
}

/// A normalised base normalises to itself.
pub proof fn law_normalize_base_idempotent(raw: Seq<char>)
    requires
        normalized_base(raw) is Ok,
    ensures
        normalized_base(normalized_base(raw)->Ok_0) == normalized_base(raw),
{
    reveal_strlit("http://");
    reveal_strlit("https://");
    reveal_strlit("http://172.20.2.169:7101/");
    let n = normalized_base(raw)->Ok_0;
    let t = trim(raw);
    if t.len() == 0 {
        let d = DEFAULT_SERVER_BASE@;
        lemma_trim_fixed(d);
        let w = d.drop_last();
        assert(d =~= w.push('/'));
        lemma_trim_end_char_after_push(w, '/');
        assert(w.take(7) =~= "http://"@);
        assert(starts_with(w, "http://"@));
    } else {
        let w = trim_end_char(t, '/');
        assert(n == w.push('/'));
        if starts_with(w, "http://"@) {
            assert(w.take(7)[0] == 'h');
        } else {
            assert(w.take(8)[0] == 'h');
        }
        assert(w[0] == 'h');
        assert(!is_ws(n[0]));
        assert(!is_ws(n[n.len() - 1]));
        lemma_trim_fixed(n);
        crate::text::lemma_trim_end_char_last(t, '/');
        lemma_trim_end_char_after_push(w, '/');
    }
}

/// The stored base: a stored string that normalises, else the default.
pub open spec fn loaded_base(stored: Option<Seq<char>>) -> Seq<char> {
    match stored {
        Some(raw) => match normalized_base(raw) {
            Ok(n) => n,
            Err(_) => DEFAULT_SERVER_BASE@,
        },
        None => DEFAULT_SERVER_BASE@,
    }
}

/// The base to use, from the string the settings store holds (if it holds one).
pub fn load_base(stored: Option<&str>) -> (r: String)
    ensures
        r@ == loaded_base(
            match stored {
                Some(s) => Some(s@),
                None => None,
            },
        ),
{
    match stored {
        Some(raw) => match normalize_base(raw) {
            Ok(n) => n,
            Err(_) => String::from_str(DEFAULT_SERVER_BASE),
        },
        None => String::from_str(DEFAULT_SERVER_BASE),
    }
}

/// Base URL for the changelog and the installer packages (no trailing slash).
pub fn update_resource_base(base: &str) -> (r: String)
    ensures
        r@ == base@ + APP_RESOURCE_PATH@,
{
    let mut out = String::from_str(base);
    append_str(&mut out, APP_RESOURCE_PATH);
    out
}

/// Full URL of the SwitchHosts preset JSON used by a hosts pull.
pub fn hosts_preset_url(base: &str) -> (r: String)
    ensures
        r@ == base@ + APP_RESOURCE_PATH@ + "/swh_data.json"@,
{
    let mut out = update_resource_base(base);
    append_str(&mut out, "/swh_data.json");
    out
}

} // verus!
