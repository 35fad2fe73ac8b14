//! The system hosts file: removing the managed block, and composing the file
//! from the user's part and a new managed block.
use vstd::prelude::*;
use crate::text::{
    chars_of, contains_char, is_ws, lemma_split_len, lines, lines_of, seq_eq, split_char, string_of, strip_cr,
    trim, trim_chars, ws_back, ws_end,
};

verus! {

pub const MARKER_BEGIN: &'static str = "# >>> jdd-crypto-hosts-begin";
pub const MARKER_END: &'static str = "# <<< jdd-crypto-hosts-end";

/// The text of `ls` with every managed block (from a begin-marker line to an
/// end-marker line) and the marker lines removed, each kept line ended by `\n`.
pub open spec fn strip_lines(ls: Seq<Seq<char>>, skipping: bool) -> Seq<char>
    decreases ls.len(),
{
    if ls.len() == 0 {
        Seq::empty()
    } else {
        let l = ls[0];
        let t = trim(l);
        let rest = ls.drop_first();
        if t == MARKER_BEGIN@ {
            strip_lines(rest, true)
        } else if t == MARKER_END@ {
            strip_lines(rest, false)
        } else if skipping {
            strip_lines(rest, true)
        } else {
            l + seq!['\n'] + strip_lines(rest, false)
        }
    }
}

/// A hosts file without its managed block.
pub open spec fn stripped(raw: Seq<char>) -> Seq<char> {
    strip_lines(lines(raw), false)
}

pub fn strip_managed_block(raw: &str) -> (out: String)
    ensures
        out@ == stripped(raw@),
{
    let ls = lines_of(chars_of(raw).as_slice());
    let ghost lsv = lines(raw@);
    let begin = chars_of(MARKER_BEGIN);
    let end = chars_of(MARKER_END);
    let mut out: Vec<char> = Vec::new();
    let mut skipping = false;
    let mut i: usize = 0;
    assert(lsv.skip(0) =~= lsv);
    assert(out@ + strip_lines(lsv, false) =~= strip_lines(lsv, false));
    while i < ls.len()
        invariant
            i <= ls@.len(),
            ls@.len() == lsv.len(),
            forall|k: int| 0 <= k < ls@.len() ==> #[trigger] ls@[k]@ == lsv[k],
            begin@ == MARKER_BEGIN@,
            end@ == MARKER_END@,
            out@ + strip_lines(lsv.skip(i as int), skipping) == strip_lines(lsv, false),
        decreases ls@.len() - i,
    {
        let ghost before = out@;
        assert(lsv.skip(i as int).drop_first() =~= lsv.skip(i + 1));
        assert(lsv.skip(i as int)[0] == lsv[i as int]);
        let line = &ls[i];
        let t = trim_chars(line.as_slice());
        if seq_eq(t.as_slice(), begin.as_slice()) {
            skipping = true;
        } else if seq_eq(t.as_slice(), end.as_slice()) {
            skipping = false;
        } else if skipping {
        } else {
            let mut j: usize = 0;
            while j < line.len()
                invariant
                    j <= line@.len(),
                    out@ == before + line@.take(j as int),
                decreases line@.len() - j,
            {
                out.push(line[j]);
                j = j + 1;
                assert(out@ =~= before + line@.take(j as int));
            }
            out.push('\n');
            assert(line@.take(line@.len() as int) =~= line@);
            assert(out@ =~= before + (line@ + seq!['\n']));
        }
        i = i + 1;
    }
    assert(lsv.skip(ls@.len() as int) =~= Seq::<Seq<char>>::empty());
    assert(out@ =~= strip_lines(lsv, false));
    string_of(out.as_slice())
}

/// Trailing newlines cut down until at most two remain.
pub open spec fn drop_nl3(b: Seq<char>) -> Seq<char>
    decreases b.len(),
{
    if b.len() >= 3 && b[b.len() - 1] == '\n' && b[b.len() - 2] == '\n' && b[b.len() - 3] == '\n' {
        drop_nl3(b.drop_last())
    } else {
        b
    }
}

pub open spec fn ends_nl(b: Seq<char>) -> bool {
    b.len() > 0 && b.last() == '\n'
}

pub open spec fn ends_nl2(b: Seq<char>) -> bool {
    b.len() >= 2 && b[b.len() - 1] == '\n' && b[b.len() - 2] == '\n'
}

/// The part of the composed file before the managed block.
pub open spec fn compose_base(existing: Seq<char>) -> Seq<char> {
    let b0 = drop_nl3(stripped(existing));
    if b0.len() > 0 && !ends_nl(b0) {
        b0.push('\n')
    } else {
        b0
    }
}

/// The managed block for the (trimmed, non-empty) managed text `m`.
pub open spec fn managed_block(m: Seq<char>) -> Seq<char> {
    MARKER_BEGIN@ + seq!['\n'] + m + (if !ends_nl(m) {
        seq!['\n']
    } else {
        Seq::empty()
    }) + MARKER_END@ + seq!['\n']
}

/// The system hosts file with its managed block replaced by `managed`
/// (removed when `managed` is blank), separated from the rest by a blank line.
pub open spec fn composed(existing: Seq<char>, managed: Seq<char>) -> Seq<char> {
    let b1 = compose_base(existing);
    let m = trim(managed);
    if m.len() == 0 {
        b1
    } else {
        let b2 = if b1.len() > 0 && !ends_nl2(b1) {
            if ends_nl(b1) {
                b1.push('\n')
            } else {
                b1 + seq!['\n', '\n']
            }
        } else {
            b1
        };
        b2 + managed_block(m)
    }
}

fn append_chars(out: &mut Vec<char>, v: &[char])
    ensures
        final(out)@ == old(out)@ + v@,
{
    let mut i: usize = 0;
    while i < v.len()
        invariant
            i <= v.len(),
            out@ == old(out)@ + v@.take(i as int),
        decreases v.len() - i,
    {
        out.push(v[i]);
        i = i + 1;
        assert(out@ =~= old(out)@ + v@.take(i as int));
    }
    assert(v@.take(v.len() as int) =~= v@);
}

#[verifier::rlimit(40)]
pub fn compose_hosts_file(existing: &str, managed: &str) -> (out: String)
    ensures
        out@ == composed(existing@, managed@),
{
    let stripped_text = strip_managed_block(existing);
    let mut base = chars_of(stripped_text.as_str());
    while base.len() >= 3 && base[base.len() - 1] == '\n' && base[base.len() - 2] == '\n'
        && base[base.len() - 3] == '\n'
        invariant
            drop_nl3(base@) == drop_nl3(stripped(existing@)),
        decreases base@.len(),
    {
        base.pop();
    }
    if base.len() > 0 && base[base.len() - 1] != '\n' {
        base.push('\n');
    }
    assert(base@ == compose_base(existing@));
    let m = trim_chars(chars_of(managed).as_slice());
    if m.len() == 0 {
        return string_of(base.as_slice());
    }
    if base.len() > 0 && !(base.len() >= 2 && base[base.len() - 1] == '\n' && base[base.len()
        - 2] == '\n') {
        if base[base.len() - 1] == '\n' {
            base.push('\n');
        } else {
            base.push('\n');
            base.push('\n');
        }
    }
    let ghost b2 = base@;
    append_chars(&mut base, chars_of(MARKER_BEGIN).as_slice());
    base.push('\n');
    append_chars(&mut base, m.as_slice());
    if !(m.len() > 0 && m[m.len() - 1] == '\n') {
        base.push('\n');
    }
    append_chars(&mut base, chars_of(MARKER_END).as_slice());
    base.push('\n');
    assert(base@ =~= b2 + managed_block(m@));
    string_of(base.as_slice())
}

/// Text made of the lines `ls`, each ended by `\n`.
pub open spec fn joined(ls: Seq<Seq<char>>) -> Seq<char>
    decreases ls.len(),
{
    if ls.len() == 0 {
        Seq::empty()
    } else {
        joined(ls.drop_last()) + ls.last() + seq!['\n']
    }
}

/// A line that a round through `lines` and `strip_managed_block` keeps as it is.
pub open spec fn plain_line(l: Seq<char>) -> bool {
    &&& !contains_char(l, '\n')
    &&& !(l.len() > 0 && l.last() == '\r')
    &&& trim(l) != MARKER_BEGIN@
    &&& trim(l) != MARKER_END@
}

pub open spec fn all_plain(ls: Seq<Seq<char>>) -> bool {
    forall|i: int| 0 <= i < ls.len() ==> plain_line(#[trigger] ls[i])
}

pub open spec fn is_marker_line(l: Seq<char>) -> bool {
    trim(l) == MARKER_BEGIN@ || trim(l) == MARKER_END@
}

/// The skipping state after `strip_lines` has read `ls`.
pub open spec fn strip_state(ls: Seq<Seq<char>>, sk: bool) -> bool
    decreases ls.len(),
{
    if ls.len() == 0 {
        sk
    } else {
        let t = trim(ls[0]);
        strip_state(
            ls.drop_first(),
            if t == MARKER_BEGIN@ {
                true
            } else if t == MARKER_END@ {
                false
            } else {
                sk
            },
        )
    }
}

proof fn lemma_split_concat(a: Seq<char>, c: char, t: Seq<char>)
    ensures
        split_char(a + seq![c] + t, c) == split_char(a, c) + split_char(t, c),
    decreases t.len(),
{
    lemma_split_len(t, c);
    lemma_split_len(a, c);
    let s = a + seq![c] + t;
    if t.len() == 0 {
        assert(s.drop_last() =~= a);
        assert(split_char(t, c) =~= seq![Seq::<char>::empty()]);
        assert(split_char(s, c) =~= split_char(a, c) + split_char(t, c));
    } else {
        let t2 = t.drop_last();
        lemma_split_concat(a, c, t2);
        lemma_split_len(t2, c);
        assert(s.drop_last() =~= a + seq![c] + t2);
        assert(s.last() == t.last());
        assert(split_char(s, c) =~= split_char(a, c) + split_char(t, c));
    }
}

proof fn lemma_split_single(l: Seq<char>, c: char)
    requires
        !contains_char(l, c),
    ensures
        split_char(l, c) == seq![l],
    decreases l.len(),
{
    if l.len() > 0 {
        assert(!contains_char(l.drop_last(), c)) by {
            if contains_char(l.drop_last(), c) {
                let i = choose|i: int| 0 <= i < l.drop_last().len() && l.drop_last()[i] == c;
                assert(l[i] == c);
            }
        }
        lemma_split_single(l.drop_last(), c);
        assert(l.last() != c) by {
            assert(l[l.len() - 1] == l.last());
        }
        assert(l.drop_last().push(l.last()) =~= l);
        assert(split_char(l, c) =~= seq![l]);
    } else {
        assert(l =~= Seq::<char>::empty());
    }
}

proof fn lemma_split_pieces(s: Seq<char>, c: char)
    ensures
        forall|i: int|
            0 <= i < split_char(s, c).len() ==> !contains_char(#[trigger] split_char(s, c)[i], c),
    decreases s.len(),
{
    if s.len() > 0 {
        lemma_split_pieces(s.drop_last(), c);
        lemma_split_len(s.drop_last(), c);
        let r = split_char(s.drop_last(), c);
        if s.last() != c {
            assert forall|i: int| 0 <= i < split_char(s, c).len() implies !contains_char(
                #[trigger] split_char(s, c)[i],
                c,
            ) by {
                if i == r.len() - 1 {
                    let p = r.last().push(s.last());
                    assert(split_char(s, c)[i] == p);
                    if contains_char(p, c) {
                        let k = choose|k: int| 0 <= k < p.len() && p[k] == c;
                        if k < r.last().len() {
                            assert(r[r.len() - 1][k] == c);
                            assert(contains_char(r[r.len() - 1], c));
                        }
                    }
                } else {
                    assert(split_char(s, c)[i] == r[i]);
                }
            }
        } else {
            assert forall|i: int| 0 <= i < split_char(s, c).len() implies !contains_char(
                #[trigger] split_char(s, c)[i],
                c,
            ) by {
                if i < r.len() {
                    assert(split_char(s, c)[i] == r[i]);
                }
            }
        }
    }
}

proof fn lemma_joined_front(l: Seq<char>, rest: Seq<Seq<char>>)
    ensures
        joined(seq![l] + rest) == l + seq!['\n'] + joined(rest),
    decreases rest.len(),
{
    if rest.len() == 0 {
        assert(seq![l] + rest =~= seq![l]);
        assert((seq![l]).drop_last() =~= Seq::<Seq<char>>::empty());
        assert(joined(Seq::<Seq<char>>::empty()) =~= Seq::<char>::empty());
        assert(joined(rest) =~= Seq::<char>::empty());
        assert(joined(seq![l]) == joined(seq![l].drop_last()) + l + seq!['\n']);
        assert(joined(seq![l] + rest) =~= l + seq!['\n'] + joined(rest));
    } else {
        lemma_joined_front(l, rest.drop_last());
        assert((seq![l] + rest).drop_last() =~= seq![l] + rest.drop_last());
        assert((seq![l] + rest).last() == rest.last());
        assert(joined(seq![l] + rest) =~= l + seq!['\n'] + joined(rest));
    }
}

proof fn lemma_split_joined(ls: Seq<Seq<char>>, t: Seq<char>)
    requires
        forall|i: int| 0 <= i < ls.len() ==> !contains_char(#[trigger] ls[i], '\n'),
    ensures
        split_char(joined(ls) + t, '\n') == ls + split_char(t, '\n'),
    decreases ls.len(),
{
    if ls.len() == 0 {
        assert(joined(ls) + t =~= t);
        assert(ls + split_char(t, '\n') =~= split_char(t, '\n'));
    } else {
        let p = ls.drop_last();
        let l = ls.last();
        assert(!contains_char(ls[ls.len() - 1], '\n'));
        lemma_split_joined(p, l);
        lemma_split_single(l, '\n');
        lemma_split_concat(joined(p) + l, '\n', t);
        assert(joined(ls) + t =~= (joined(p) + l) + seq!['\n'] + t);
        assert(p + seq![l] =~= ls);
        assert(split_char(joined(ls) + t, '\n') =~= ls + split_char(t, '\n'));
    }
}

proof fn lemma_lines_joined(ls: Seq<Seq<char>>)
    requires
        all_plain(ls),
    ensures
        lines(joined(ls)) == ls,
{
    if ls.len() > 0 {
        assert forall|i: int| 0 <= i < ls.len() implies !contains_char(#[trigger] ls[i], '\n') by {
            assert(plain_line(ls[i]));
        }
        lemma_split_joined(ls, Seq::empty());
        assert(joined(ls) + Seq::<char>::empty() =~= joined(ls));
        assert(joined(ls).last() == '\n');
        let sp = split_char(joined(ls), '\n');
        assert(sp =~= ls + seq![Seq::<char>::empty()]);
        assert(sp.drop_last() =~= ls);
        assert forall|i: int| 0 <= i < ls.len() implies strip_cr(#[trigger] ls[i]) == ls[i] by {
            assert(plain_line(ls[i]));
        }
        assert(lines(joined(ls)) =~= ls);
    } else {
        assert(joined(ls) =~= Seq::<char>::empty());
        assert(lines(joined(ls)) =~= ls);
    }
}

proof fn lemma_strip_concat(xs: Seq<Seq<char>>, ys: Seq<Seq<char>>, sk: bool)
    ensures
        strip_lines(xs + ys, sk) == strip_lines(xs, sk) + strip_lines(ys, strip_state(xs, sk)),
        strip_state(xs + ys, sk) == strip_state(ys, strip_state(xs, sk)),
    decreases xs.len(),
{
    if xs.len() == 0 {
        assert(xs + ys =~= ys);
        assert(strip_lines(xs, sk) =~= Seq::<char>::empty());
        assert(strip_lines(xs + ys, sk) =~= strip_lines(xs, sk) + strip_lines(ys, sk));
    } else {
        let t = trim(xs[0]);
        let nsk = if t == MARKER_BEGIN@ {
            true
        } else if t == MARKER_END@ {
            false
        } else {
            sk
        };
        lemma_strip_concat(xs.drop_first(), ys, nsk);
        assert((xs + ys).drop_first() =~= xs.drop_first() + ys);
        assert((xs + ys)[0] == xs[0]);
        assert(strip_lines(xs + ys, sk) =~= strip_lines(xs, sk) + strip_lines(
            ys,
            strip_state(xs, sk),
        ));
    }
}

proof fn lemma_strip_plain(ls: Seq<Seq<char>>)
    requires
        all_plain(ls),
    ensures
        strip_lines(ls, false) == joined(ls),
        strip_state(ls, false) == false,
    decreases ls.len(),
{
    if ls.len() > 0 {
        assert(plain_line(ls[0]));
        assert(all_plain(ls.drop_first())) by {
            assert forall|i: int| 0 <= i < ls.drop_first().len() implies plain_line(
                #[trigger] ls.drop_first()[i],
            ) by {
                assert(plain_line(ls[i + 1]));
            }
        }
        lemma_strip_plain(ls.drop_first());
        lemma_joined_front(ls[0], ls.drop_first());
        assert(seq![ls[0]] + ls.drop_first() =~= ls);
    } else {
        assert(strip_lines(ls, false) =~= joined(ls));
    }
}

proof fn lemma_strip_inside(ls: Seq<Seq<char>>)
    requires
        forall|i: int| 0 <= i < ls.len() ==> trim(#[trigger] ls[i]) != MARKER_END@,
    ensures
        strip_lines(ls, true) == Seq::<char>::empty(),
        strip_state(ls, true) == true,
    decreases ls.len(),
{
    if ls.len() > 0 {
        assert(trim(ls[0]) != MARKER_END@);
        assert forall|i: int| 0 <= i < ls.drop_first().len() implies trim(
            #[trigger] ls.drop_first()[i],
        ) != MARKER_END@ by {
            assert(trim(ls[i + 1]) != MARKER_END@);
        }
        lemma_strip_inside(ls.drop_first());
    }
}

/// The kept lines of `ls`: `strip_lines` writes exactly them, each ended by `\n`.
proof fn lemma_kept(ls: Seq<Seq<char>>, sk: bool) -> (kept: Seq<Seq<char>>)
    requires
        forall|i: int|
            0 <= i < ls.len() ==> !contains_char(#[trigger] ls[i], '\n') && !(ls[i].len() > 0
                && ls[i].last() == '\r'),
    ensures
        all_plain(kept),
        strip_lines(ls, sk) == joined(kept),
    decreases ls.len(),
{
    if ls.len() == 0 {
        Seq::empty()
    } else {
        let l = ls[0];
        let t = trim(l);
        let rest = ls.drop_first();
        assert forall|i: int| 0 <= i < rest.len() implies !contains_char(#[trigger] rest[i], '\n')
            && !(rest[i].len() > 0 && rest[i].last() == '\r') by {
            assert(rest[i] == ls[i + 1]);
        }
        let nsk = if t == MARKER_BEGIN@ {
            true
        } else if t == MARKER_END@ {
            false
        } else {
            sk
        };
        let r = lemma_kept(rest, nsk);
        if t == MARKER_BEGIN@ || t == MARKER_END@ || sk {
            r
        } else {
            lemma_joined_front(l, r);
            let k = seq![l] + r;
            assert(all_plain(k)) by {
                assert forall|i: int| 0 <= i < k.len() implies plain_line(#[trigger] k[i]) by {
                    if i > 0 {
                        assert(k[i] == r[i - 1]);
                    }
                }
            }
            k
        }
    }
}

/// No line of a hosts file, as `lines` reads it, ends with a carriage return (a final
/// line without `\n` may keep one; a line ended by `\r\r\n` keeps one): a round through
/// `lines` then keeps every line as it is.
pub open spec fn no_cr_ends(e: Seq<char>) -> bool {
    forall|i: int|
        0 <= i < lines(e).len() ==> !(#[trigger] lines(e)[i].len() > 0 && lines(e)[i].last()
            == '\r')
}

proof fn lemma_ws_end_prefix(s: Seq<char>, i: int)
    requires
        0 <= i <= s.len(),
    ensures
        i <= ws_end(s, i) <= s.len(),
        ws_end(s, i) == s.len() || !is_ws(s[ws_end(s, i)]),
        forall|j: int| i <= j < ws_end(s, i) ==> is_ws(s[j]),
    decreases s.len() - i,
{
    if i < s.len() && is_ws(s[i]) {
        lemma_ws_end_prefix(s, i + 1);
    }
}

proof fn lemma_ws_back_suffix(s: Seq<char>, lo: int, j: int)
    requires
        0 <= lo <= j <= s.len(),
    ensures
        lo <= ws_back(s, lo, j) <= j,
        ws_back(s, lo, j) == lo || !is_ws(s[ws_back(s, lo, j) - 1]),
        forall|k: int| ws_back(s, lo, j) <= k < j ==> is_ws(s[k]),
    decreases j,
{
    if lo < j && is_ws(s[j - 1]) {
        lemma_ws_back_suffix(s, lo, j - 1);
    }
}

proof fn lemma_ws_end_at(s: Seq<char>, i: int, a: int)
    requires
        0 <= i <= a <= s.len(),
        forall|j: int| i <= j < a ==> is_ws(s[j]),
        a == s.len() || !is_ws(s[a]),
    ensures
        ws_end(s, i) == a,
    decreases a - i,
{
    if i < a {
        lemma_ws_end_at(s, i + 1, a);
    }
}

proof fn lemma_ws_back_at(s: Seq<char>, lo: int, j: int, b: int)
    requires
        0 <= lo <= b <= j <= s.len(),
        forall|k: int| b <= k < j ==> is_ws(s[k]),
        b == lo || !is_ws(s[b - 1]),
    ensures
        ws_back(s, lo, j) == b,
    decreases j,
{
    if b < j {
        lemma_ws_back_at(s, lo, j - 1, b);
    }
}

/// `trim` keeps exactly the part between the leading and the trailing whitespace.
proof fn lemma_trim_by(s: Seq<char>, a: int, b: int)
    requires
        0 <= a <= b <= s.len(),
        forall|j: int| 0 <= j < a ==> is_ws(s[j]),
        forall|j: int| b <= j < s.len() ==> is_ws(s[j]),
        a < b ==> !is_ws(s[a]) && !is_ws(s[b - 1]),
    ensures
        trim(s) == s.subrange(a, b),
{
    if a < b {
        lemma_ws_end_at(s, 0, a);
        lemma_ws_back_at(s, a, s.len() as int, b);
    } else {
        lemma_ws_end_at(s, 0, s.len() as int);
        assert(ws_back(s, s.len() as int, s.len() as int) == s.len());
        assert(s.subrange(a, b) =~= Seq::<char>::empty());
        assert(s.subrange(s.len() as int, s.len() as int) =~= Seq::<char>::empty());
    }
}

/// Where `trim` cuts.
proof fn lemma_trim_cut(s: Seq<char>) -> (ab: (int, int))
    ensures
        0 <= ab.0 <= ab.1 <= s.len(),
        forall|j: int| 0 <= j < ab.0 ==> is_ws(s[j]),
        forall|j: int| ab.1 <= j < s.len() ==> is_ws(s[j]),
        ab.0 < ab.1 ==> !is_ws(s[ab.0]) && !is_ws(s[ab.1 - 1]),
        trim(s) == s.subrange(ab.0, ab.1),
{
    lemma_ws_end_prefix(s, 0);
    let a = ws_end(s, 0);
    lemma_ws_back_suffix(s, a, s.len() as int);
    let b = ws_back(s, a, s.len() as int);
    if a == b {
        (b, b)
    } else {
        (a, b)
    }
}

/// Whitespace added at the end does not change the trim.
proof fn lemma_trim_push_ws(x: Seq<char>, w: char)
    requires
        is_ws(w),
    ensures
        trim(x.push(w)) == trim(x),
{
    let (a, b) = lemma_trim_cut(x);
    let s = x.push(w);
    assert forall|j: int| 0 <= j < a implies is_ws(s[j]) by {
        assert(s[j] == x[j]);
    }
    assert forall|j: int| b <= j < s.len() implies is_ws(s[j]) by {
        if j < x.len() {
            assert(s[j] == x[j]);
        }
    }
    if a < b {
        assert(s[a] == x[a] && s[b - 1] == x[b - 1]);
    }
    lemma_trim_by(s, a, b);
    assert(s.subrange(a, b) =~= x.subrange(a, b));
}

/// Whitespace added at the front does not change the trim.
proof fn lemma_trim_front_ws(w: char, x: Seq<char>)
    requires
        is_ws(w),
    ensures
        trim(seq![w] + x) == trim(x),
{
    let (a, b) = lemma_trim_cut(x);
    let s = seq![w] + x;
    assert forall|j: int| 0 <= j < a + 1 implies is_ws(s[j]) by {
        if j > 0 {
            assert(s[j] == x[j - 1]);
        }
    }
    assert forall|j: int| b + 1 <= j < s.len() implies is_ws(s[j]) by {
        assert(s[j] == x[j - 1]);
    }
    if a < b {
        assert(s[a + 1] == x[a] && s[b] == x[b - 1]);
        lemma_trim_by(s, a + 1, b + 1);
        assert(s.subrange(a + 1, b + 1) =~= x.subrange(a, b));
    } else {
        lemma_trim_by(s, b + 1, b + 1);
        assert(s.subrange(b + 1, b + 1) =~= x.subrange(a, b));
    }
}

/// Dropping one trailing `\r` does not change the trim.
proof fn lemma_trim_strip_cr(x: Seq<char>)
    ensures
        trim(strip_cr(x)) == trim(x),
{
    if x.len() > 0 && x.last() == '\r' {
        assert(is_ws('\r'));
        lemma_trim_push_ws(x.drop_last(), '\r');
        assert(x.drop_last().push('\r') =~= x);
    }
}

proof fn lemma_split_without(s: Seq<char>, c: char, d: char)
    requires
        !contains_char(s, d),
    ensures
        forall|k: int, i: int|
            0 <= k < split_char(s, c).len() && 0 <= i < split_char(s, c)[k].len() ==> #[trigger] split_char(
                s,
                c,
            )[k][i] != d,
    decreases s.len(),
{
    if s.len() > 0 {
        let s0 = s.drop_last();
        assert forall|i: int| 0 <= i < s0.len() implies s0[i] != d by {
            assert(s0[i] == s[i]);
        }
        assert(s.last() == s[s.len() - 1]);
        lemma_split_without(s0, c, d);
        lemma_split_len(s0, c);
        let r = split_char(s0, c);
        let t = split_char(s, c);
        assert forall|k: int, i: int| 0 <= k < t.len() && 0 <= i < t[k].len() implies #[trigger] t[k][i] != d by {
            if s.last() == c {
                if k < r.len() {
                    assert(t[k] == r[k]);
                }
            } else {
                if k < r.len() - 1 {
                    assert(t[k] == r[k]);
                } else {
                    assert(t[k] == r.last().push(s.last()));
                    if i < r.last().len() {
                        assert(t[k][i] == r[r.len() - 1][i]);
                    }
                }
            }
        }
    }
}

/// A text without any `\r` has no line that ends in one, so it meets `no_cr_ends`.
pub proof fn lemma_plain_text_no_cr_ends(e: Seq<char>)
    requires
        !contains_char(e, '\r'),
    ensures
        no_cr_ends(e),
{
    lemma_split_without(e, '\n', '\r');
    lemma_split_len(e, '\n');
    let sp = split_char(e, '\n');
    assert forall|i: int| 0 <= i < lines(e).len() implies !(#[trigger] lines(e)[i].len() > 0 && lines(e)[i].last()
        == '\r') by {
        let l = lines(e)[i];
        let p = sp[i];
        if l.len() > 0 {
            assert(l.last() == l[l.len() - 1]);
            if l == strip_cr(p) {
                assert(l[l.len() - 1] == p[l.len() - 1]);
            } else {
                assert(l == p);
            }
        }
    }
}

proof fn lemma_lines_no_nl(s: Seq<char>)
    ensures
        forall|i: int| 0 <= i < lines(s).len() ==> !contains_char(#[trigger] lines(s)[i], '\n'),
{
    lemma_split_pieces(s, '\n');
    lemma_split_len(s, '\n');
    let sp = split_char(s, '\n');
    assert forall|i: int| 0 <= i < lines(s).len() implies !contains_char(
        #[trigger] lines(s)[i],
        '\n',
    ) by {
        assert(!contains_char(sp[i], '\n'));
        let p = sp[i];
        if contains_char(strip_cr(p), '\n') {
            let k = choose|k: int| 0 <= k < strip_cr(p).len() && strip_cr(p)[k] == '\n';
            assert(p[k] == '\n');
        }
    }
}

proof fn lemma_stripped_kept(e: Seq<char>) -> (kept: Seq<Seq<char>>)
    requires
        no_cr_ends(e),
    ensures
        all_plain(kept),
        stripped(e) == joined(kept),
{
    lemma_lines_no_nl(e);
    let ls = lines(e);
    assert forall|i: int| 0 <= i < ls.len() implies !contains_char(#[trigger] ls[i], '\n') && !(
    ls[i].len() > 0 && ls[i].last() == '\r') by {
        assert(!(lines(e)[i].len() > 0 && lines(e)[i].last() == '\r'));
    }
    lemma_kept(ls, false)
}

proof fn lemma_joined_ends(ls: Seq<Seq<char>>)
    ensures
        ls.len() == 0 <==> joined(ls).len() == 0,
        ls.len() > 0 ==> joined(ls).last() == '\n',
        ls.len() > 0 ==> joined(ls).drop_last() == joined(ls.drop_last()) + ls.last(),
{
    if ls.len() > 0 {
        assert(joined(ls).drop_last() =~= joined(ls.drop_last()) + ls.last());
    }
}

proof fn lemma_drop_nl3(ls: Seq<Seq<char>>) -> (out: Seq<Seq<char>>)
    requires
        all_plain(ls),
    ensures
        all_plain(out),
        drop_nl3(joined(ls)) == joined(out),
        !(joined(out).len() >= 3 && joined(out)[joined(out).len() - 1] == '\n' && joined(
            out,
        )[joined(out).len() - 2] == '\n' && joined(out)[joined(out).len() - 3] == '\n'),
    decreases ls.len(),
{
    let b = joined(ls);
    lemma_joined_ends(ls);
    if b.len() >= 3 && b[b.len() - 1] == '\n' && b[b.len() - 2] == '\n' && b[b.len() - 3] == '\n' {
        let p = ls.drop_last();
        let l = ls.last();
        assert(plain_line(ls[ls.len() - 1]));
        assert(l.len() == 0) by {
            if l.len() > 0 {
                assert(b.drop_last().last() == l.last());
                assert(l[l.len() - 1] == '\n');
                assert(contains_char(l, '\n'));
            }
        }
        assert(b.drop_last() =~= joined(p));
        assert(all_plain(p)) by {
            assert forall|i: int| 0 <= i < p.len() implies plain_line(#[trigger] p[i]) by {
                assert(plain_line(ls[i]));
            }
        }
        lemma_drop_nl3(p)
    } else {
        ls
    }
}

proof fn lemma_marker_facts()
    ensures
        !contains_char(MARKER_BEGIN@, '\n'),
        !contains_char(MARKER_END@, '\n'),
        trim(MARKER_BEGIN@) == MARKER_BEGIN@,
        trim(MARKER_END@) == MARKER_END@,
        strip_cr(MARKER_BEGIN@) == MARKER_BEGIN@,
        strip_cr(MARKER_END@) == MARKER_END@,
        MARKER_BEGIN@ != MARKER_END@,
        trim(Seq::<char>::empty()) != MARKER_BEGIN@,
        trim(Seq::<char>::empty()) != MARKER_END@,
{
    reveal_strlit("# >>> jdd-crypto-hosts-begin");
    reveal_strlit("# <<< jdd-crypto-hosts-end");
    let b = MARKER_BEGIN@;
    let e = MARKER_END@;
    assert(!is_ws(b[0]));
    assert(!is_ws(e[0]));
    assert(ws_end(b, 0) == 0);
    assert(ws_end(e, 0) == 0);
    assert(!is_ws(b[b.len() - 1]));
    assert(!is_ws(e[e.len() - 1]));
    assert(ws_back(b, 0, b.len() as int) == b.len());
    assert(ws_back(e, 0, e.len() as int) == e.len());
    assert(b.subrange(0, b.len() as int) =~= b);
    assert(e.subrange(0, e.len() as int) =~= e);
    assert(b[2] != e[2]);
    assert(ws_end(Seq::<char>::empty(), 0) == 0);
    assert(Seq::<char>::empty().subrange(0, 0) =~= Seq::<char>::empty());
}

pub open spec fn ends_nl3(b: Seq<char>) -> bool {
    b.len() >= 3 && b[b.len() - 1] == '\n' && b[b.len() - 2] == '\n' && b[b.len() - 3] == '\n'
}

/// The blank-line padding put before a managed block.
pub open spec fn padded(b1: Seq<char>) -> Seq<char> {
    if b1.len() > 0 && !ends_nl2(b1) {
        if ends_nl(b1) {
            b1.push('\n')
        } else {
            b1 + seq!['\n', '\n']
        }
    } else {
        b1
    }
}

/// Managed text whose lines hold no end marker.
pub open spec fn no_end_marker(m: Seq<char>) -> bool {
    forall|i: int| 0 <= i < lines(m).len() ==> trim(#[trigger] lines(m)[i]) != MARKER_END@
}

/// A character other than `c` put in front joins the first piece.
proof fn lemma_split_front(w: char, y: Seq<char>, c: char)
    requires
        w != c,
    ensures
        split_char(seq![w] + y, c) == split_char(y, c).update(0, seq![w] + split_char(y, c)[0]),
    decreases y.len(),
{
    lemma_split_len(y, c);
    let s = seq![w] + y;
    if y.len() == 0 {
        assert(s =~= seq![w]);
        assert(s.drop_last() =~= Seq::<char>::empty());
        assert(s.last() == w);
        assert(split_char(Seq::<char>::empty(), c) =~= seq![Seq::<char>::empty()]);
        assert(Seq::<char>::empty().push(w) =~= seq![w]);
        assert(split_char(s, c) =~= seq![seq![w]]);
        assert(seq![w] + Seq::<char>::empty() =~= seq![w]);
        assert(split_char(y, c).update(0, seq![w] + split_char(y, c)[0]) =~= seq![seq![w]]);
    } else {
        let y0 = y.drop_last();
        lemma_split_front(w, y0, c);
        lemma_split_len(y0, c);
        assert(s.drop_last() =~= seq![w] + y0);
        assert(s.last() == y.last());
        let q = split_char(y0, c);
        let r = q.update(0, seq![w] + q[0]);
        if y.last() == c {
            assert(split_char(s, c) =~= r.push(Seq::<char>::empty()));
            assert(split_char(y, c) =~= q.push(Seq::<char>::empty()));
            assert(split_char(s, c) =~= split_char(y, c).update(0, seq![w] + split_char(y, c)[0]));
        } else {
            let d = y.last();
            assert(split_char(s, c) =~= r.update(r.len() - 1, r.last().push(d)));
            assert(split_char(y, c) =~= q.update(q.len() - 1, q.last().push(d)));
            if q.len() == 1 {
                assert((seq![w] + q[0]).push(d) =~= seq![w] + q[0].push(d));
            }
            assert(split_char(s, c) =~= split_char(y, c).update(0, seq![w] + split_char(y, c)[0]));
        }
    }
}

/// Whitespace at the end of a text leaves no new end-marker line in the text without it.
proof fn lemma_no_end_marker_drop_last(s: Seq<char>)
    requires
        s.len() > 0,
        is_ws(s.last()),
        no_end_marker(s),
    ensures
        no_end_marker(s.drop_last()),
{
    let x = s.drop_last();
    let w = s.last();
    assert(x.push(w) =~= s);
    lemma_split_len(x, '\n');
    let px = split_char(x, '\n');
    let ls = lines(s);
    let lx = lines(x);
    if x.len() > 0 {
        assert(x.last() == s[s.len() - 2]);
    }
    assert forall|i: int| 0 <= i < lx.len() implies trim(#[trigger] lx[i]) != MARKER_END@ by {
        if w == '\n' {
            assert(split_char(s, '\n') =~= px.push(Seq::<char>::empty()));
            assert(ls =~= px.map_values(|l: Seq<char>| strip_cr(l)));
            assert(trim(ls[i]) != MARKER_END@);
            if i < px.len() - 1 {
                assert(lx[i] == strip_cr(px[i]));
            } else {
                assert(lx[i] == px[i]);
                lemma_trim_strip_cr(px[i]);
            }
        } else {
            assert(split_char(s, '\n') =~= px.update(px.len() - 1, px.last().push(w)));
            assert(trim(ls[i]) != MARKER_END@);
            if i < px.len() - 1 {
                assert(lx[i] == strip_cr(px[i]));
                assert(ls[i] == strip_cr(px[i]));
            } else {
                assert(lx[i] == px[i]);
                assert(ls[i] == px.last().push(w));
                lemma_trim_push_ws(px.last(), w);
            }
        }
    }
}

/// Whitespace at the front of a text leaves no new end-marker line in the text without it.
proof fn lemma_no_end_marker_drop_first(s: Seq<char>)
    requires
        s.len() > 0,
        is_ws(s[0]),
        no_end_marker(s),
    ensures
        no_end_marker(s.drop_first()),
{
    let y = s.drop_first();
    let w = s[0];
    assert(seq![w] + y =~= s);
    lemma_split_len(y, '\n');
    let py = split_char(y, '\n');
    let ls = lines(s);
    let ly = lines(y);
    if y.len() > 0 {
        assert(s.last() == y.last());
        if w == '\n' {
            lemma_split_concat(Seq::<char>::empty(), '\n', y);
            assert(Seq::<char>::empty() + seq!['\n'] + y =~= s);
            assert(split_char(Seq::<char>::empty(), '\n') =~= seq![Seq::<char>::empty()]);
            assert forall|i: int| 0 <= i < ly.len() implies trim(#[trigger] ly[i]) != MARKER_END@ by {
                assert(ls[i + 1] == ly[i]);
                assert(trim(ls[i + 1]) != MARKER_END@);
            }
        } else {
            lemma_split_front(w, y, '\n');
            assert forall|i: int| 0 <= i < ly.len() implies trim(#[trigger] ly[i]) != MARKER_END@ by {
                assert(trim(ls[i]) != MARKER_END@);
                if i > 0 {
                    assert(ls[i] == ly[i]);
                } else {
                    lemma_trim_front_ws(w, py[0]);
                    lemma_trim_strip_cr(py[0]);
                    lemma_trim_strip_cr(seq![w] + py[0]);
                    if py.len() > 1 || y.last() == '\n' {
                        assert(ly[0] == strip_cr(py[0]));
                        assert(ls[0] == strip_cr(seq![w] + py[0]));
                    } else {
                        assert(ly[0] == py[0]);
                        assert(ls[0] == seq![w] + py[0]);
                    }
                }
            }
        }
    }
}

/// A text with no line that trims to the end marker keeps none when it is trimmed.
pub proof fn lemma_trimmed_no_end_marker(s: Seq<char>)
    requires
        no_end_marker(s),
    ensures
        no_end_marker(trim(s)),
    decreases s.len(),
{
    if s.len() == 0 {
        assert(trim(s) =~= s);
    } else if is_ws(s[0]) {
        lemma_no_end_marker_drop_first(s);
        lemma_trimmed_no_end_marker(s.drop_first());
        lemma_trim_front_ws(s[0], s.drop_first());
        assert(seq![s[0]] + s.drop_first() =~= s);
    } else if is_ws(s.last()) {
        lemma_no_end_marker_drop_last(s);
        lemma_trimmed_no_end_marker(s.drop_last());
        lemma_trim_push_ws(s.drop_last(), s.last());
        assert(s.drop_last().push(s.last()) =~= s);
    } else {
        assert(s[s.len() - 1] == s.last());
        crate::text::lemma_trim_fixed(s);
    }
}

proof fn lemma_ws_back_stop(s: Seq<char>, lo: int, j: int)
    requires
        0 <= lo <= j <= s.len(),
    ensures
        lo <= ws_back(s, lo, j) <= j,
        ws_back(s, lo, j) == lo || !is_ws(s[ws_back(s, lo, j) - 1]),
    decreases j,
{
    if lo < j && is_ws(s[j - 1]) {
        lemma_ws_back_stop(s, lo, j - 1);
    }
}

proof fn lemma_ws_end_bound(s: Seq<char>, i: int)
    requires
        0 <= i <= s.len(),
    ensures
        i <= ws_end(s, i) <= s.len(),
    decreases s.len() - i,
{
    if i < s.len() && is_ws(s[i]) {
        lemma_ws_end_bound(s, i + 1);
    }
}

proof fn lemma_trim_last(x: Seq<char>)
    ensures
        trim(x).len() > 0 ==> !is_ws(trim(x).last()),
{
    lemma_ws_end_bound(x, 0);
    let a = ws_end(x, 0);
    lemma_ws_back_stop(x, a, x.len() as int);
    let b = ws_back(x, a, x.len() as int);
    if trim(x).len() > 0 {
        assert(trim(x).last() == x[b - 1]);
    }
}

proof fn lemma_not3_fixed(b: Seq<char>)
    requires
        !ends_nl3(b),
    ensures
        drop_nl3(b) == b,
{
}

proof fn lemma_base(e: Seq<char>) -> (l2: Seq<Seq<char>>)
    requires
        no_cr_ends(e),
    ensures
        all_plain(l2),
        compose_base(e) == joined(l2),
        !ends_nl3(joined(l2)),
{
    let k = lemma_stripped_kept(e);
    let l2 = lemma_drop_nl3(k);
    lemma_joined_ends(l2);
    l2
}

proof fn lemma_padded(l2: Seq<Seq<char>>) -> (l3: Seq<Seq<char>>)
    requires
        all_plain(l2),
        !ends_nl3(joined(l2)),
    ensures
        all_plain(l3),
        padded(joined(l2)) == joined(l3),
        !ends_nl3(joined(l3)),
        joined(l3).len() == 0 || ends_nl2(joined(l3)),
{
    lemma_joined_ends(l2);
    let b = joined(l2);
    if b.len() > 0 && !ends_nl2(b) {
        let l3 = l2.push(Seq::<char>::empty());
        assert(l3.drop_last() =~= l2);
        assert(joined(l3) =~= b.push('\n'));
        lemma_marker_facts();
        assert(all_plain(l3)) by {
            assert forall|i: int| 0 <= i < l3.len() implies plain_line(#[trigger] l3[i]) by {
                if i < l2.len() {
                    assert(l3[i] == l2[i]);
                } else {
                    assert(l3[i] == Seq::<char>::empty());
                }
            }
        }
        l3
    } else {
        l2
    }
}

proof fn lemma_block_stripped(l3: Seq<Seq<char>>, m: Seq<char>)
    requires
        all_plain(l3),
        m.len() > 0,
        !is_ws(m.last()),
        no_end_marker(m),
    ensures
        stripped(joined(l3) + managed_block(m)) == joined(l3),
{
    lemma_marker_facts();
    let b = MARKER_BEGIN@;
    let e = MARKER_END@;
    let nl = seq!['\n'];
    assert(!ends_nl(m));
    let blk = managed_block(m);
    assert(blk =~= b + nl + (m + nl + (e + nl + Seq::<char>::empty())));
    assert forall|i: int| 0 <= i < l3.len() implies !contains_char(#[trigger] l3[i], '\n') by {
        assert(plain_line(l3[i]));
    }
    lemma_split_joined(l3, blk);
    lemma_split_concat(b, '\n', m + nl + (e + nl + Seq::<char>::empty()));
    lemma_split_concat(m, '\n', e + nl + Seq::<char>::empty());
    lemma_split_concat(e, '\n', Seq::<char>::empty());
    lemma_split_single(b, '\n');
    lemma_split_single(e, '\n');
    let text = joined(l3) + blk;
    let sm = split_char(m, '\n');
    lemma_split_len(m, '\n');
    assert(split_char(text, '\n') =~= l3 + seq![b] + sm + seq![e, Seq::<char>::empty()]);
    assert(text.last() == '\n');
    let kept = l3 + seq![b] + sm + seq![e];
    assert(split_char(text, '\n').drop_last() =~= kept);
    let lm = lines(m);
    lemma_split_len(m.drop_last(), '\n');
    assert(sm.last() == split_char(m.drop_last(), '\n').last().push(m.last()));
    assert(strip_cr(sm.last()) == sm.last());
    assert(lm =~= sm.map_values(|l: Seq<char>| strip_cr(l)));
    assert forall|i: int| 0 <= i < l3.len() implies strip_cr(#[trigger] l3[i]) == l3[i] by {
        assert(plain_line(l3[i]));
    }
    assert(lines(text) =~= l3 + seq![b] + lm + seq![e]);
    lemma_strip_plain(l3);
    lemma_strip_concat(l3, seq![b] + lm + seq![e], false);
    lemma_strip_concat(seq![b], lm + seq![e], false);
    assert(seq![b] + lm + seq![e] =~= seq![b] + (lm + seq![e]));
    assert(strip_lines(seq![b], false) =~= Seq::<char>::empty() && strip_state(seq![b], false)
        == true) by {
        let sb = seq![b];
        assert(sb[0] == b);
        assert(trim(sb[0]) == MARKER_BEGIN@);
        assert(sb.drop_first() =~= Seq::<Seq<char>>::empty());
        assert(strip_lines(sb.drop_first(), true) =~= Seq::<char>::empty());
        assert(strip_state(sb.drop_first(), true) == true);
    }
    lemma_strip_inside(lm);
    lemma_strip_concat(lm, seq![e], true);
    assert(strip_lines(seq![e], true) =~= Seq::<char>::empty()) by {
        let se = seq![e];
        assert(se[0] == e);
        assert(trim(se[0]) == MARKER_END@);
        assert(se.drop_first() =~= Seq::<Seq<char>>::empty());
        assert(strip_lines(se.drop_first(), false) =~= Seq::<char>::empty());
    }
    let rest = seq![b] + lm + seq![e];
    assert(lines(text) =~= l3 + rest);
    assert(rest =~= seq![b] + (lm + seq![e]));
    assert(strip_lines(lm + seq![e], true) =~= Seq::<char>::empty());
    assert(strip_lines(rest, false) =~= Seq::<char>::empty());
    assert(strip_lines(l3 + rest, false) =~= joined(l3));
    assert(strip_lines(lines(text), false) =~= joined(l3));
}

/// Composing the hosts file twice keeps only the second managed block: the result is
/// the file composed once with the second text. This fails when the first managed text
/// is non-blank and the second blank (the blank line before the removed block stays).
pub proof fn law_compose_replaces_block(e: Seq<char>, m1: Seq<char>, m2: Seq<char>)
    requires
        no_cr_ends(e),
        no_end_marker(trim(m1)),
        trim(m1).len() == 0 || trim(m2).len() > 0,
    ensures
        composed(composed(e, m1), m2) == composed(e, m2),
{
    let l2 = lemma_base(e);
    lemma_joined_ends(l2);
    if trim(m1).len() == 0 {
        let x = composed(e, m1);
        assert(x == joined(l2));
        lemma_lines_joined(l2);
        lemma_strip_plain(l2);
        lemma_not3_fixed(joined(l2));
        assert(compose_base(x) == compose_base(e));
    } else {
        let l3 = lemma_padded(l2);
        lemma_trim_last(m1);
        let x = composed(e, m1);
        assert(x == joined(l3) + managed_block(trim(m1)));
        lemma_block_stripped(l3, trim(m1));
        lemma_not3_fixed(joined(l3));
        lemma_joined_ends(l3);
        assert(compose_base(x) == joined(l3));
    }
}

/// The same law stated over the texts as given: a hosts text without `\r`, and a first
/// managed text none of whose own lines trims to the end marker.
pub proof fn law_compose_replaces_block_plain(e: Seq<char>, m1: Seq<char>, m2: Seq<char>)
    requires
        !contains_char(e, '\r'),
        no_end_marker(m1),
        trim(m1).len() == 0 || trim(m2).len() > 0,
    ensures
        composed(composed(e, m1), m2) == composed(e, m2),
{
    lemma_plain_text_no_cr_ends(e);
    lemma_trimmed_no_end_marker(m1);
    law_compose_replaces_block(e, m1, m2);
}

/// Composing with a blank managed text (after any earlier composition) leaves
/// no marker line in the hosts file.
pub proof fn law_compose_blank_clears_markers(e: Seq<char>, m1: Seq<char>, m2: Seq<char>)
    requires
        no_cr_ends(e),
        no_end_marker(trim(m1)),
        trim(m2).len() == 0,
    ensures
        forall|i: int|
            0 <= i < lines(composed(composed(e, m1), m2)).len() ==> !is_marker_line(
                #[trigger] lines(composed(composed(e, m1), m2))[i],
            ),
{
    let l2 = lemma_base(e);
    lemma_joined_ends(l2);
    let ls = if trim(m1).len() == 0 {
        lemma_lines_joined(l2);
        lemma_strip_plain(l2);
        lemma_not3_fixed(joined(l2));
        l2
    } else {
        let l3 = lemma_padded(l2);
        lemma_trim_last(m1);
        lemma_block_stripped(l3, trim(m1));
        lemma_not3_fixed(joined(l3));
        lemma_joined_ends(l3);
        l3
    };
    assert(composed(composed(e, m1), m2) == joined(ls));
    lemma_lines_joined(ls);
    assert forall|i: int| 0 <= i < ls.len() implies !is_marker_line(#[trigger] ls[i]) by {
        assert(plain_line(ls[i]));
    }
}

} // verus!
