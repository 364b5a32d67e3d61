//! Outbound path translation: WSL `/mnt/<letter>/` line prefixes back to
//! Windows `<LETTER>:/` form.
//!
//! The translator works on raw bytes and never assumes valid UTF-8. A line
//! is rewritten only when it begins with `/mnt/`, one ASCII letter, and a
//! slash; the letter is uppercased and `/mnt/x` becomes `X:`. Slashes in the
//! tail are kept as they are. Occurrences in the middle of a line are left
//! alone.

use vstd::prelude::*;
use crate::ascii::{is_letter_byte, upper_byte, byte_is_letter, byte_to_upper};

verus! {

/// The number of bytes before the first line feed (or all of them when none
/// occurs): the length of the first line.
pub open spec fn first_line_len(b: Seq<u8>) -> nat
    decreases b.len(),
{
    if b.len() == 0 {
        0
    } else if b[0] == 10 {
        0
    } else {
        (1 + first_line_len(b.skip(1))) as nat
    }
}

/// A line that starts with `/mnt/`, an ASCII letter, and a slash.
pub open spec fn is_mnt_line(l: Seq<u8>) -> bool {
    &&& l.len() >= 7
    &&& l[0] == 47
    &&& l[1] == 109
    &&& l[2] == 110
    &&& l[3] == 116
    &&& l[4] == 47
    &&& is_letter_byte(l[5])
    &&& l[6] == 47
}

/// One translated line: `/mnt/x` becomes `X:` and the tail from the slash on
/// is kept; a line without the prefix is kept whole.
pub open spec fn win_line(l: Seq<u8>) -> Seq<u8> {
    if is_mnt_line(l) {
        seq![upper_byte(l[5]), 58u8] + l.skip(6)
    } else {
        l
    }
}

/// The whole translated buffer: every line translated, line feeds kept.
pub open spec fn win_of(b: Seq<u8>) -> Seq<u8>
    decreases b.len(),
{
    if b.len() == 0 {
        Seq::<u8>::empty()
    } else {
        let k = first_line_len(b);
        if k >= b.len() {
            win_line(b)
        } else {
            win_line(b.take(k as int)) + seq![10u8] + win_of(b.skip(k as int + 1))
        }
    }
}

/// The first line runs to the first line feed: it never passes the end, it
/// holds no line feed, and it stops at one when one occurs.
pub proof fn lemma_first_line_len_bound(b: Seq<u8>)
    ensures
        first_line_len(b) <= b.len(),
        forall|m: int| 0 <= m < first_line_len(b) ==> b[m] != 10,
        first_line_len(b) < b.len() ==> b[first_line_len(b) as int] == 10,
    decreases b.len(),
{
    if b.len() == 0 {
    } else if b[0] == 10 {
    } else {
        lemma_first_line_len_bound(b.skip(1));
        assert forall|m: int| 0 <= m < first_line_len(b) implies b[m] != 10 by {
            if m > 0 {
                assert(b.skip(1)[m - 1] == b[m]);
            }
        }
        if first_line_len(b) < b.len() {
            assert(b.skip(1)[first_line_len(b) - 1] == b[first_line_len(b) as int]);
        }
    }
}

/// A position with no line feed before it and a line feed (or the end) at it
/// is exactly the first line's length.
pub proof fn lemma_first_line_len_is(b: Seq<u8>, k: int)
    requires
        0 <= k <= b.len(),
        forall|m: int| 0 <= m < k ==> b[m] != 10,
        k < b.len() ==> b[k] == 10,
    ensures
        first_line_len(b) == k,
    decreases b.len(),
{
    if k == 0 {
    } else {
        assert(b[0] != 10);
        lemma_first_line_len_is(b.skip(1), k - 1);
    }
}

/// Translating a line that holds no line feed yields a line that holds none.
pub proof fn lemma_win_line_no_newline(l: Seq<u8>)
    requires
        forall|m: int| 0 <= m < l.len() ==> l[m] != 10,
    ensures
        forall|m: int| 0 <= m < win_line(l).len() ==> win_line(l)[m] != 10,
{
    if is_mnt_line(l) {
        assert forall|m: int| 0 <= m < win_line(l).len() implies win_line(l)[m] != 10 by {
            if m >= 2 {
                assert(win_line(l)[m] == l[m + 4]);
            }
        }
    }
}

/// A line that does not carry the `/mnt/<letter>/` prefix is left alone.
pub proof fn lemma_translate_out_line_identity(l: Seq<u8>)
    requires
        !is_mnt_line(l),
    ensures
        win_line(l) == l,
{
}

/// Translating a line twice is the same as translating it once: a translated
/// line starts with an uppercase letter, not with a slash.
pub proof fn lemma_win_line_idempotent(l: Seq<u8>)
    ensures
        win_line(win_line(l)) == win_line(l),
{
    if is_mnt_line(l) {
        assert(win_line(l)[0] == upper_byte(l[5]));
        assert(65 <= upper_byte(l[5]) <= 90);
        assert(!is_mnt_line(win_line(l)));
    }
}

/// Find the end of the line that starts at `start`.
fn line_end(b: &Vec<u8>, start: usize) -> (j: usize)
    requires
        start <= b@.len(),
    ensures
        start <= j <= b@.len(),
        forall|m: int| start <= m < j ==> b@[m] != 10,
        j < b@.len() ==> b@[j as int] == 10,
{
    let mut j = start;
    while j < b.len()
        invariant
            start <= j <= b@.len(),
            forall|m: int| start <= m < j ==> b@[m] != 10,
        decreases b@.len() - j,
    {
        if b[j] == 10 {
            return j;
        }
        j += 1;
    }
    j
}

/// Does the line `b[i..j]` carry the `/mnt/<letter>/` prefix?
fn line_is_mnt(b: &Vec<u8>, i: usize, j: usize) -> (r: bool)
    requires
        i <= j <= b@.len(),
    ensures
        r == is_mnt_line(b@.subrange(i as int, j as int)),
{
    if j - i < 7 {
        return false;
    }
    b[i] == 47 && b[i + 1] == 109 && b[i + 2] == 110 && b[i + 3] == 116 && b[i + 4] == 47
        && byte_is_letter(b[i + 5]) && b[i + 6] == 47
}

/// Append the bytes `src[from..to]` to `out`.
fn push_range(out: &mut Vec<u8>, src: &Vec<u8>, from: usize, to: usize)
    requires
        from <= to <= src@.len(),
    ensures
        final(out)@ == old(out)@ + src@.subrange(from as int, to as int),
{
    let mut m = from;
    while m < to
        invariant
            from <= m <= to <= src@.len(),
            out@ == old(out)@ + src@.subrange(from as int, m as int),
        decreases to - m,
    {
        out.push(src[m]);
        proof {
            assert(src@.subrange(from as int, m + 1) =~= src@.subrange(from as int, m as int)
                + seq![src@[m as int]]);
        }
        m += 1;
    }
}

/// Append the translation of the line `src[i..j]` to `out`.
fn push_translated_line(out: &mut Vec<u8>, src: &Vec<u8>, i: usize, j: usize)
    requires
        i <= j <= src@.len(),
    ensures
        final(out)@ == old(out)@ + win_line(src@.subrange(i as int, j as int)),
{
    let ghost l = src@.subrange(i as int, j as int);
    if line_is_mnt(src, i, j) {
        out.push(byte_to_upper(src[i + 5]));
        out.push(58);
        push_range(out, src, i + 6, j);
        proof {
            assert(l.skip(6) =~= src@.subrange(i + 6, j as int));
            assert(out@ =~= old(out)@ + win_line(l));
        }
    } else {
        push_range(out, src, i, j);
    }
}

/// Translate a whole output buffer, line by line.
pub fn translate_path_to_win(b: &Vec<u8>) -> (r: Vec<u8>)
    ensures
        r@ == win_of(b@),
{
    let n = b.len();
    let mut out: Vec<u8> = Vec::new();
    let mut i: usize = 0;
    proof {
        assert(b@.skip(0) =~= b@);
        assert(out@ + win_of(b@) =~= win_of(b@));
    }
    while i < n
        invariant
            0 <= i <= n,
            n == b@.len(),
            win_of(b@) == out@ + win_of(b@.skip(i as int)),
        decreases n - i,
    {
        let ghost s = b@.skip(i as int);
        let j = line_end(b, i);
        proof {
            assert forall|m: int| 0 <= m < j - i implies s[m] != 10 by {
                assert(s[m] == b@[i + m]);
            }
            if j < n {
                assert(s[j - i] == b@[j as int]);
            }
            lemma_first_line_len_is(s, j - i);
        }
        let ghost out0 = out@;
        if j < n {
            push_translated_line(&mut out, b, i, j);
            out.push(10);
            proof {
                assert(s.take(j - i) =~= b@.subrange(i as int, j as int));
                assert(s.skip(j - i + 1) =~= b@.skip(j + 1));
                assert(win_of(s) == win_line(s.take(j - i)) + seq![10u8] + win_of(s.skip(j - i + 1)));
                assert(out@ =~= out0 + win_line(s.take(j - i)) + seq![10u8]);
                assert(out@ + win_of(b@.skip(j + 1)) =~= out0 + win_of(s));
            }
            i = j + 1;
        } else {
            push_translated_line(&mut out, b, i, j);
            proof {
                assert(s =~= b@.subrange(i as int, n as int));
                assert(first_line_len(s) >= s.len());
                assert(win_of(s) == win_line(s));
                assert(b@.skip(n as int) =~= Seq::<u8>::empty());
                assert(out@ + win_of(b@.skip(n as int)) =~= out0 + win_of(s));
            }
            i = n;
        }
    }
    proof {
        assert(b@.skip(n as int) =~= Seq::<u8>::empty());
    }
    out
}

/// Translating a buffer twice is the same as translating it once: a line the
/// first pass rewrote no longer carries the `/mnt/<letter>/` prefix.
pub proof fn lemma_translate_out_idempotent(b: Seq<u8>)
    ensures
        win_of(win_of(b)) == win_of(b),
    decreases b.len(),
{
    if b.len() == 0 {
        assert(win_of(win_of(b)) =~= win_of(b));
    } else {
        lemma_first_line_len_bound(b);
        let k = first_line_len(b);
        if k >= b.len() {
            lemma_win_line_no_newline(b);
            let w = win_line(b);
            lemma_first_line_len_is(w, w.len() as int);
            if w.len() == 0 {
                assert(win_of(w) =~= w);
            } else {
                lemma_win_line_idempotent(b);
            }
        } else {
            let l = b.take(k as int);
            let rest = b.skip(k as int + 1);
            let wl = win_line(l);
            assert(forall|m: int| 0 <= m < l.len() ==> l[m] != 10);
            lemma_win_line_no_newline(l);
            let w = win_of(b);
            assert(w == wl + seq![10u8] + win_of(rest));
            lemma_first_line_len_is(w, wl.len() as int);
            assert(first_line_len(w) < w.len());
            assert(w.take(wl.len() as int) =~= wl);
            assert(w.skip(wl.len() as int + 1) =~= win_of(rest));
            lemma_win_line_idempotent(l);
            lemma_translate_out_idempotent(rest);
        }
    }
}

} // verus!
