//! App updates: semantic versions, the changelog's release blocks (`【x.y.z】` then notes),
//! the update decision and the download URLs.
use vstd::prelude::*;
use crate::text::{
    append_str, chars_of, parse_unsigned, parse_unsigned_exec, split_char, split_chars, string_of,
    trim, trim_chars,
};

verus! {

pub const UPDATE_BASE: &'static str = "http://172.20.2.169:7101/appStore/Software/PC/developer/jdd-crypto";
pub const UPDATE_LOG_FILE: &'static str = "更新日志.txt";

/// What an update check found.
pub struct UpdateCheckResult {
    pub available: bool,
    pub current_version: String,
    pub latest_version: Option<String>,
    pub notes: Option<String>,
}

/// Progress of an installer download.
pub struct DownloadProgress {
    pub downloaded: u64,
    pub total: Option<u64>,
}

/// `major.minor.patch`, each an unsigned 32-bit number as `str::parse` reads it.
pub open spec fn version_of(s: Seq<char>) -> Option<(nat, nat, nat)> {
    let p = split_char(s, '.');
    if p.len() == 3 && parse_unsigned(p[0], u32::MAX as nat) is Some && parse_unsigned(
        p[1],
        u32::MAX as nat,
    ) is Some && parse_unsigned(p[2], u32::MAX as nat) is Some {
        Some(
            (
                parse_unsigned(p[0], u32::MAX as nat)->0,
                parse_unsigned(p[1], u32::MAX as nat)->0,
                parse_unsigned(p[2], u32::MAX as nat)->0,
            ),
        )
    } else {
        None
    }
}

pub fn parse_version(version: &str) -> (r: Option<(u32, u32, u32)>)
    ensures
        match r {
            Some(t) => version_of(version@) == Some((t.0 as nat, t.1 as nat, t.2 as nat)),
            None => version_of(version@) is None,
        },
{
    let parts = split_chars(chars_of(version).as_slice(), '.');
    if parts.len() != 3 {
        return None;
    }
    let a = parse_unsigned_exec(parts[0].as_slice(), 0xffff_ffff)?;
    let b = parse_unsigned_exec(parts[1].as_slice(), 0xffff_ffff)?;
    let c = parse_unsigned_exec(parts[2].as_slice(), 0xffff_ffff)?;
    Some((a as u32, b as u32, c as u32))
}

pub open spec fn triple_lt(a: (nat, nat, nat), b: (nat, nat, nat)) -> bool {
    a.0 < b.0 || (a.0 == b.0 && (a.1 < b.1 || (a.1 == b.1 && a.2 < b.2)))
}

/// `current` is an older version than `latest` (false when either does not parse).
pub open spec fn older(current: Seq<char>, latest: Seq<char>) -> bool {
    match (version_of(current), version_of(latest)) {
        (Some(a), Some(b)) => triple_lt(a, b),
        _ => false,
    }
}

pub fn version_lt(current: &str, latest: &str) -> (r: bool)
    ensures
        r == older(current@, latest@),
{
    match (parse_version(current), parse_version(latest)) {
        (Some(a), Some(b)) => a.0 < b.0 || (a.0 == b.0 && (a.1 < b.1 || (a.1 == b.1 && a.2 < b.2))),
        _ => false,
    }
}

/// "Older than" is a strict order on versions: never reflexive, and transitive.
pub proof fn law_version_order(a: Seq<char>, b: Seq<char>, c: Seq<char>)
    ensures
        !older(a, a),
        older(a, b) && older(b, c) ==> older(a, c),
        older(a, b) ==> !older(b, a),
{
}

/// Versions compare as (major, minor, patch), most significant first: a lower major is older
/// whatever the rest, an equal major defers to the minor, then to the patch; a version that
/// does not parse is never older or newer.
pub proof fn law_version_lexicographic(current: Seq<char>, latest: Seq<char>)
    ensures
        match (version_of(current), version_of(latest)) {
            (Some(a), Some(b)) => {
                &&& a.0 < b.0 ==> older(current, latest)
                &&& a.0 > b.0 ==> !older(current, latest)
                &&& a.0 == b.0 && a.1 < b.1 ==> older(current, latest)
                &&& a.0 == b.0 && a.1 > b.1 ==> !older(current, latest)
                &&& a.0 == b.0 && a.1 == b.1 ==> (older(current, latest) <==> a.2 < b.2)
            },
            _ => !older(current, latest) && !older(latest, current),
        },
{
}

/// First index at or after `i` holding `c`, or -1.
pub open spec fn find_char(s: Seq<char>, c: char, i: int) -> int
    decreases s.len() - i,
{
    if i < 0 || i >= s.len() {
        -1
    } else if s[i] == c {
        i
    } else {
        find_char(s, c, i + 1)
    }
}

pub proof fn lemma_find_char(s: Seq<char>, c: char, i: int)
    requires
        0 <= i,
    ensures
        find_char(s, c, i) == -1 || (i <= find_char(s, c, i) < s.len() && s[find_char(s, c, i)]
            == c),
    decreases s.len() - i,
{
    if 0 <= i < s.len() && s[i] != c {
        lemma_find_char(s, c, i + 1);
    }
}

fn find_char_exec(s: &[char], c: char, from: usize) -> (r: Option<usize>)
    requires
        from <= s.len(),
    ensures
        match r {
            Some(k) => k as int == find_char(s@, c, from as int),
            None => find_char(s@, c, from as int) == -1,
        },
{
    let mut i = from;
    while i < s.len()
        invariant
            from <= i <= s.len(),
            find_char(s@, c, i as int) == find_char(s@, c, from as int),
        decreases s.len() - i,
    {
        if s[i] == c {
            return Some(i);
        }
        i = i + 1;
    }
    None
}

/// Release blocks read from `i` on: each `【version】` followed by its notes up to the next `【`;
/// a later block replaces `best` when its version is newer; blocks whose version does not
/// parse are passed over.
pub open spec fn scan_releases(s: Seq<char>, i: int, best: Option<(Seq<char>, Seq<char>)>) -> Option<
    (Seq<char>, Seq<char>),
>
    decreases s.len() - i,
{
    if i < 0 || i >= s.len() {
        best
    } else {
        let open = find_char(s, '【', i);
        if open < 0 {
            best
        } else {
            let close = find_char(s, '】', open);
            if close < 0 {
                best
            } else {
                let version = trim(s.subrange(open + 1, close));
                if version_of(version) is None {
                    proof {
                        lemma_find_char(s, '【', i);
                        lemma_find_char(s, '】', open);
                    }
                    scan_releases(s, close + 1, best)
                } else {
                    let ns = close + 1;
                    let next = find_char(s, '【', ns);
                    let ne = if next < 0 {
                        s.len() as int
                    } else {
                        next
                    };
                    let notes = trim(s.subrange(ns, ne));
                    let replace = match best {
                        Some(b) => older(b.0, version),
                        None => true,
                    };
                    proof {
                        lemma_find_char(s, '【', i);
                        lemma_find_char(s, '】', open);
                        lemma_find_char(s, '【', ns);
                    }
                    scan_releases(
                        s,
                        ne,
                        if replace {
                            Some((version, notes))
                        } else {
                            best
                        },
                    )
                }
            }
        }
    }
}

/// The parseable versions of the release blocks read from `i` on, in order.
pub open spec fn release_versions(s: Seq<char>, i: int) -> Seq<Seq<char>>
    decreases s.len() - i,
{
    if i < 0 || i >= s.len() {
        Seq::empty()
    } else {
        let open = find_char(s, '【', i);
        if open < 0 {
            Seq::empty()
        } else {
            let close = find_char(s, '】', open);
            if close < 0 {
                Seq::empty()
            } else {
                let version = trim(s.subrange(open + 1, close));
                if version_of(version) is None {
                    proof {
                        lemma_find_char(s, '【', i);
                        lemma_find_char(s, '】', open);
                    }
                    release_versions(s, close + 1)
                } else {
                    let ns = close + 1;
                    let next = find_char(s, '【', ns);
                    let ne = if next < 0 {
                        s.len() as int
                    } else {
                        next
                    };
                    proof {
                        lemma_find_char(s, '【', i);
                        lemma_find_char(s, '】', open);
                        lemma_find_char(s, '【', ns);
                    }
                    seq![version] + release_versions(s, ne)
                }
            }
        }
    }
}

proof fn lemma_not_older_trans(a: Seq<char>, b: Seq<char>, c: Seq<char>)
    requires
        version_of(a) is Some,
        version_of(b) is Some,
        version_of(c) is Some,
        !older(a, b),
        !older(b, c),
    ensures
        !older(a, c),
{
}

proof fn lemma_older_then_not_older(r: Seq<char>, w: Seq<char>, b: Seq<char>)
    requires
        version_of(r) is Some,
        version_of(w) is Some,
        version_of(b) is Some,
        older(b, w),
        !older(r, w),
    ensures
        !older(r, b),
{
}

proof fn lemma_scan_newest(s: Seq<char>, i: int, best: Option<(Seq<char>, Seq<char>)>)
    requires
        0 <= i,
        best matches Some(b) ==> version_of(b.0) is Some,
    ensures
        ({
            let r = scan_releases(s, i, best);
            let vs = release_versions(s, i);
            &&& (r is None) == (best is None && vs.len() == 0)
            &&& r matches Some(v) ==> {
                &&& version_of(v.0) is Some
                &&& best matches Some(b) ==> !older(v.0, b.0)
                &&& forall|k: int| 0 <= k < vs.len() ==> !older(v.0, #[trigger] vs[k])
                &&& (best matches Some(b) && v.0 == b.0) || vs.contains(v.0)
            }
        }),
    decreases s.len() - i,
{
    if i >= s.len() {
        return;
    }
    let open = find_char(s, '【', i);
    lemma_find_char(s, '【', i);
    if open < 0 {
        return;
    }
    let close = find_char(s, '】', open);
    lemma_find_char(s, '】', open);
    if close < 0 {
        return;
    }
    let version = trim(s.subrange(open + 1, close));
    if version_of(version) is None {
        lemma_scan_newest(s, close + 1, best);
        return;
    }
    let ns = close + 1;
    let next = find_char(s, '【', ns);
    lemma_find_char(s, '【', ns);
    let ne = if next < 0 {
        s.len() as int
    } else {
        next
    };
    let notes = trim(s.subrange(ns, ne));
    let replace = match best {
        Some(b) => older(b.0, version),
        None => true,
    };
    let nb = if replace {
        Some((version, notes))
    } else {
        best
    };
    lemma_scan_newest(s, ne, nb);
    let r = scan_releases(s, i, best);
    assert(r == scan_releases(s, ne, nb));
    let vs = release_versions(s, i);
    let rest = release_versions(s, ne);
    assert(vs == seq![version] + rest);
    if let Some(v) = r {
        if replace {
            if let Some(b) = best {
                lemma_older_then_not_older(v.0, version, b.0);
            }
        } else {
            let b = best->0;
            lemma_not_older_trans(v.0, b.0, version);
        }
        assert forall|k: int| 0 <= k < vs.len() implies !older(v.0, #[trigger] vs[k]) by {
            if k > 0 {
                assert(vs[k] == rest[k - 1]);
            }
        }
        if rest.contains(v.0) {
            let k = choose|k: int| 0 <= k < rest.len() && rest[k] == v.0;
            assert(vs[k + 1] == v.0);
        }
        if v.0 == version {
            assert(vs[0] == version);
        }
    }
}

/// The release chosen from a changelog is the newest one: it is one of the blocks with a
/// parseable version, no such block has a newer version, and there is a choice exactly when
/// there is such a block.
pub proof fn law_latest_release_is_newest(s: Seq<char>)
    ensures
        (scan_releases(s, 0, None) is None) == (release_versions(s, 0).len() == 0),
        scan_releases(s, 0, None) matches Some(v) ==> release_versions(s, 0).contains(v.0) && forall|
            k: int,
        |
            0 <= k < release_versions(s, 0).len() ==> !older(
                v.0,
                #[trigger] release_versions(s, 0)[k],
            ),
{
    lemma_scan_newest(s, 0, None);
}

fn sub_chars(s: &[char], a: usize, b: usize) -> (out: Vec<char>)
    requires
        a <= b <= s.len(),
    ensures
        out@ == s@.subrange(a as int, b as int),
{
    let mut out: Vec<char> = Vec::new();
    let mut k = a;
    while k < b
        invariant
            a <= k <= b <= s.len(),
            out@ == s@.subrange(a as int, k as int),
        decreases b - k,
    {
        out.push(s[k]);
        k = k + 1;
    }
    out
}

pub open spec fn pair_view(b: Option<(Vec<char>, Vec<char>)>) -> Option<(Seq<char>, Seq<char>)> {
    match b {
        Some(p) => Some((p.0@, p.1@)),
        None => None,
    }
}

/// The newest release block of the changelog: its version and its notes, trimmed.
pub fn parse_latest_release(text: &str) -> (r: Option<(String, String)>)
    ensures
        match r {
            Some(p) => scan_releases(text@, 0, None) == Some((p.0@, p.1@)),
            None => scan_releases(text@, 0, None) is None,
        },
{
    let s = chars_of(text);
    let mut best: Option<(Vec<char>, Vec<char>)> = None;
    let mut index: usize = 0;
    loop
        invariant_except_break
            index <= s@.len(),
            scan_releases(s@, index as int, pair_view(best)) == scan_releases(s@, 0, None),
        invariant
            s@ == text@,
        ensures
            pair_view(best) == scan_releases(s@, 0, None),
        decreases s@.len() - index,
    {
        if index >= s.len() {
            break;
        }
        let open = match find_char_exec(s.as_slice(), '【', index) {
            Some(o) => o,
            None => break,
        };
        proof {
            lemma_find_char(s@, '【', index as int);
        }
        let close = match find_char_exec(s.as_slice(), '】', open) {
            Some(c) => c,
            None => break,
        };
        proof {
            lemma_find_char(s@, '】', open as int);
        }
        let version = trim_chars(sub_chars(s.as_slice(), open + 1, close).as_slice());
        let vstr = string_of(version.as_slice());
        if parse_version(vstr.as_str()).is_none() {
            index = close + 1;
            continue;
        }
        let ns = close + 1;
        let ne = match find_char_exec(s.as_slice(), '【', ns) {
            Some(n) => n,
            None => s.len(),
        };
        proof {
            lemma_find_char(s@, '【', ns as int);
        }
        let notes = trim_chars(sub_chars(s.as_slice(), ns, ne).as_slice());
        let replace = match &best {
            Some(b) => {
                let bstr = string_of(b.0.as_slice());
                version_lt(bstr.as_str(), vstr.as_str())
            },
            None => true,
        };
        if replace {
            best = Some((version, notes));
        }
        index = ne;
    }
    match best {
        Some(b) => Some((string_of(b.0.as_slice()), string_of(b.1.as_slice()))),
        None => None,
    }
}

/// The installer published for `version`: the universal disk image
/// `"多多解密_{version}_universal.dmg"` on macOS, else the Windows setup
/// `"多多解密_{version}_x64-setup.exe"`.
pub open spec fn installer_name(version: Seq<char>, macos: bool) -> Seq<char> {
    "多多解密_"@ + version + if macos {
        "_universal.dmg"@
    } else {
        "_x64-setup.exe"@
    }
}

pub fn installer_file_name(version: &str, macos: bool) -> (r: String)
    ensures
        r@ == installer_name(version@, macos),
{
    let mut out = String::from_str("多多解密_");
    append_str(&mut out, version);
    if macos {
        append_str(&mut out, "_universal.dmg");
    } else {
        append_str(&mut out, "_x64-setup.exe");
    }
    out
}

/// "No update": nothing is known beyond the running version.
pub open spec fn quiet_result(u: UpdateCheckResult, current: Seq<char>) -> bool {
    &&& !u.available
    &&& u.current_version@ == current
    &&& u.latest_version is None
    &&& u.notes is None
}

/// The newest changelog block `(version, notes)` was found; an update is available exactly
/// when the running version is older.
pub open spec fn found_result(u: UpdateCheckResult, current: Seq<char>, version: Seq<char>, notes: Seq<char>) -> bool {
    &&& u.available == older(current, version)
    &&& u.current_version@ == current
    &&& u.latest_version is Some
    &&& u.latest_version->0@ == version
    &&& u.notes is Some
    &&& u.notes->0@ == notes
}

/// The bytes that `urlencoding` leaves as they are: ASCII letters, digits and `-._~`.
pub open spec fn url_safe_byte(b: u8) -> bool {
    (0x30 <= b <= 0x39) || (0x41 <= b <= 0x5a) || (0x61 <= b <= 0x7a) || b == 0x2d || b == 0x2e
        || b == 0x5f || b == 0x7e
}

/// An upper-case hexadecimal digit for `d < 16`.
pub open spec fn hex_upper(d: u8) -> char {
    if d < 10 {
        (0x30 + d) as char
    } else {
        (0x41 - 10 + d) as char
    }
}

/// Percent-encoding of a byte sequence: a safe byte stands for itself, any other byte `b`
/// becomes `%` and its two upper-case hex digits.
pub open spec fn percent_encoded(bytes: Seq<u8>) -> Seq<char>
    decreases bytes.len(),
{
    if bytes.len() == 0 {
        Seq::empty()
    } else {
        let b = bytes[0];
        let head = if url_safe_byte(b) {
            seq![b as char]
        } else {
            seq!['%', hex_upper(b / 16), hex_upper(b % 16)]
        };
        head + percent_encoded(bytes.drop_first())
    }
}

/// A string percent-encoded byte by byte over its UTF-8 encoding.
pub open spec fn url_encoded(s: Seq<char>) -> Seq<char> {
    percent_encoded(vstd::utf8::encode_utf8(s))
}

/// `urlencoding::encode`, turned into an owned `String`: its documentation and source
/// percent-encode every UTF-8 byte of the input except ASCII alphanumerics and `-`, `_`, `.`,
/// `~`, with upper-case hex digits; this contract states exactly that.
#[verifier::external_body]
fn url_encode(s: &str) -> (r: String)
    ensures
        r@ == url_encoded(s@),
{
    urlencoding::encode(s).into_owned()
}

/// `{UPDATE_BASE}/{file}` with the file name url-encoded.
pub open spec fn update_url(file: Seq<char>) -> Seq<char> {
    UPDATE_BASE@ + "/"@ + url_encoded(file)
}

/// Where the changelog is fetched from.
pub fn update_log_url() -> (r: String)
    ensures
        r@ == update_url(UPDATE_LOG_FILE@),
{
    let mut out = String::from_str(UPDATE_BASE);
    append_str(&mut out, "/");
    let file = url_encode(UPDATE_LOG_FILE);
    append_str(&mut out, file.as_str());
    out
}

/// Where the installer of `version` for the platform (`macos` or not) is downloaded from.
pub fn installer_url(version: &str, macos: bool) -> (r: String)
    ensures
        r@ == update_url(installer_name(version@, macos)),
{
    let name = installer_file_name(version, macos);
    let mut out = String::from_str(UPDATE_BASE);
    append_str(&mut out, "/");
    let file = url_encode(name.as_str());
    append_str(&mut out, file.as_str());
    out
}

pub open spec fn msg_bad_changelog() -> Seq<char> {
    "更新日志格式无效"@
}

/// The answer to an update check, given the changelog fetch result. A manual check reports a
/// failed fetch or an unreadable changelog; an automatic one reports "nothing available".
pub fn check_update(current_version: String, changelog: Result<String, String>, manual: bool) -> (r:
    Result<UpdateCheckResult, String>)
    ensures
        match changelog {
            Err(e) => if manual {
                (r matches Err(e2) && e2@ == e@)
            } else {
                (r matches Ok(u) && quiet_result(u, current_version@))
            },
            Ok(text) => match scan_releases(text@, 0, None) {
                None => if manual {
                    (r matches Err(e2) && e2@ == msg_bad_changelog())
                } else {
                    (r matches Ok(u) && quiet_result(u, current_version@))
                },
                Some((v, n)) => (r matches Ok(u) && found_result(u, current_version@, v, n)),
            },
        },
{
    let text = match changelog {
        Ok(t) => t,
        Err(e) => {
            if manual {
                return Err(e);
            }
            return Ok(
                UpdateCheckResult {
                    available: false,
                    current_version,
                    latest_version: None,
                    notes: None,
                },
            );
        },
    };
    let (latest_version, notes) = match parse_latest_release(text.as_str()) {
        Some(p) => p,
        None => {
            if manual {
                return Err(String::from_str("更新日志格式无效"));
            }
            return Ok(
                UpdateCheckResult {
                    available: false,
                    current_version,
                    latest_version: None,
                    notes: None,
                },
            );
        },
    };
    let available = version_lt(current_version.as_str(), latest_version.as_str());
    Ok(
        UpdateCheckResult {
            available,
            current_version,
            latest_version: Some(latest_version),
            notes: Some(notes),
        },
    )
}

} // verus!
