//! Clipboard texts: what kind of text a copy looks like, and one poll of the watcher.
use vstd::prelude::*;
use crate::state::{AppState, ClipboardCandidate};
use crate::text::{chars_of, is_alnum, is_alnum_exec, is_ws, is_ws_exec, trim, trim_chars};

verus! {

/// The characters of `s` that are not whitespace, in order.
pub open spec fn compact(s: Seq<char>) -> Seq<char>
    decreases s.len(),
{
    if s.len() == 0 {
        s
    } else if is_ws(s.last()) {
        compact(s.drop_last())
    } else {
        compact(s.drop_last()).push(s.last())
    }
}

pub open spec fn is_base64_char(c: char) -> bool {
    is_alnum(c) || c == '+' || c == '/' || c == '='
}

/// At least 16 characters, a multiple of four, all from the base64 alphabet.
pub open spec fn looks_base64(s: Seq<char>) -> bool {
    &&& s.len() >= 16
    &&& s.len() % 4 == 0
    &&& forall|i: int| 0 <= i < s.len() ==> is_base64_char(#[trigger] s[i])
}

/// `unknown` for blank text, `maybe_cipher` when the text without whitespace looks like
/// base64, else `maybe_plain`.
pub open spec fn clipboard_kind(text: Seq<char>) -> Seq<char> {
    if trim(text).len() == 0 {
        "unknown"@
    } else if looks_base64(compact(trim(text))) {
        "maybe_cipher"@
    } else {
        "maybe_plain"@
    }
}

proof fn lemma_compact_plain(s: Seq<char>)
    requires
        forall|i: int| 0 <= i < s.len() ==> !is_ws(#[trigger] s[i]),
    ensures
        compact(s) == s,
    decreases s.len(),
{
    if s.len() > 0 {
        let d = s.drop_last();
        assert forall|i: int| 0 <= i < d.len() implies !is_ws(#[trigger] d[i]) by {
            assert(d[i] == s[i]);
        }
        lemma_compact_plain(d);
        assert(!is_ws(s[s.len() - 1]));
        assert(d.push(s.last()) =~= s);
    }
}

/// A text of at least 16 characters, a multiple of four long, made only of ASCII letters,
/// digits, `+`, `/` and the `=` padding, is taken for a cipher text.
pub proof fn law_base64_text_is_cipher(t: Seq<char>)
    requires
        t.len() >= 16,
        t.len() % 4 == 0,
        forall|i: int|
            0 <= i < t.len() ==> is_alnum(#[trigger] t[i]) || t[i] == '+' || t[i] == '/' || t[i]
                == '=',
    ensures
        clipboard_kind(t) == "maybe_cipher"@,
{
    assert forall|i: int| 0 <= i < t.len() implies !is_ws(#[trigger] t[i]) by {
        assert(is_alnum(t[i]) || t[i] == '+' || t[i] == '/' || t[i] == '=');
    }
    crate::text::lemma_trim_fixed(t);
    lemma_compact_plain(t);
}

/// For a text without whitespace: blank is `unknown`; otherwise it is taken for a cipher
/// text exactly when it is at least 16 characters, a multiple of four long, and made only of
/// ASCII letters, digits, `+`, `/` and `=`; anything else is plain text.
pub proof fn law_clipboard_kind_unspaced(t: Seq<char>)
    requires
        forall|i: int| 0 <= i < t.len() ==> !is_ws(#[trigger] t[i]),
    ensures
        t.len() == 0 ==> clipboard_kind(t) == "unknown"@,
        t.len() > 0 ==> (clipboard_kind(t) == "maybe_cipher"@ <==> (t.len() >= 16 && t.len() % 4 == 0
            && forall|i: int|
            0 <= i < t.len() ==> is_alnum(#[trigger] t[i]) || t[i] == '+' || t[i] == '/' || t[i]
                == '=')),
        t.len() > 0 ==> (clipboard_kind(t) == "maybe_cipher"@ || clipboard_kind(t) == "maybe_plain"@),
{
    reveal_strlit("unknown");
    reveal_strlit("maybe_cipher");
    reveal_strlit("maybe_plain");
    if t.len() == 0 {
        assert(trim(t) =~= t);
    } else {
        assert(t[t.len() - 1] == t.last());
        crate::text::lemma_trim_fixed(t);
        lemma_compact_plain(t);
        assert("maybe_cipher"@ != "maybe_plain"@) by {
            assert("maybe_cipher"@[6] != "maybe_plain"@[6]);
        }
    }
}

fn compact_exec(v: &[char]) -> (r: Vec<char>)
    ensures
        r@ == compact(v@),
{
    let mut out: Vec<char> = Vec::new();
    let mut i: usize = 0;
    while i < v.len()
        invariant
            i <= v.len(),
            out@ == compact(v@.take(i as int)),
        decreases v.len() - i,
    {
        assert(v@.take(i as int + 1).drop_last() =~= v@.take(i as int));
        if !is_ws_exec(v[i]) {
            out.push(v[i]);
        }
        i = i + 1;
    }
    assert(v@.take(v.len() as int) =~= v@);
    out
}

fn looks_base64_exec(v: &[char]) -> (r: bool)
    ensures
        r == looks_base64(v@),
{
    if v.len() < 16 || v.len() % 4 != 0 {
        return false;
    }
    let mut i: usize = 0;
    while i < v.len()
        invariant
            i <= v.len(),
            forall|k: int| 0 <= k < i ==> is_base64_char(#[trigger] v@[k]),
        decreases v.len() - i,
    {
        let c = v[i];
        if !(is_alnum_exec(c) || c == '+' || c == '/' || c == '=') {
            return false;
        }
        i = i + 1;
    }
    true
}

/// Guess what a clipboard text is.
pub fn classify_clipboard(text: &str) -> (r: &'static str)
    ensures
        r@ == clipboard_kind(text@),
{
    let trimmed = trim_chars(chars_of(text).as_slice());
    if trimmed.len() == 0 {
        return "unknown";
    }
    let c = compact_exec(trimmed.as_slice());
    if looks_base64_exec(c.as_slice()) {
        "maybe_cipher"
    } else {
        "maybe_plain"
    }
}

/// One poll of the clipboard watcher with the text read (if any): nothing happens while
/// watching is off, while the badge follows the mouse, for blank text or for the text seen
/// last; otherwise the text is remembered, becomes the candidate, and is returned to be
/// offered.
pub fn watch_poll(state: &mut AppState, text: Option<String>) -> (r: Option<ClipboardCandidate>)
    ensures
        ({
            let quiet = !old(state).clipboard_watch_enabled || old(state).mouse_follow_enabled
                || old(state).mouse_follow_returning || match text {
                Some(t) => trim(t@).len() == 0 || t@ == old(state).last_clipboard@,
                None => true,
            };
            &&& quiet ==> r is None && *final(state) == *old(state)
            &&& !quiet ==> (r matches Some(c) && c.text@ == text->0@ && c.kind@ == clipboard_kind(
                text->0@,
            ) && final(state).last_clipboard@ == text->0@ && final(state).last_candidate == Some(
                c,
            ) && final(state).clipboard_watch_enabled == old(state).clipboard_watch_enabled
                && final(state).badge_size == old(state).badge_size
                && final(state).mouse_follow_enabled == old(state).mouse_follow_enabled
                && final(state).mouse_follow_returning == old(state).mouse_follow_returning
                && final(state).compare_active == old(state).compare_active)
        }),
{
    if !state.clipboard_watch_enabled || state.follow_blocks_resize() {
        return None;
    }
    let t = match text {
        Some(t) => t,
        None => return None,
    };
    if crate::text::is_blank(t.as_str()) {
        return None;
    }
    if crate::text::str_eq(state.last_clipboard.as_str(), t.as_str()) {
        return None;
    }
    state.last_clipboard = t.clone();
    let kind = classify_clipboard(t.as_str());
    let payload = ClipboardCandidate { text: t, kind: String::from_str(kind) };
    state.last_candidate = Some(payload.duplicate());
    Some(payload)
}

} // verus!
