//! Inbound path translation: Windows drive-letter paths to WSL form.
//!
//! An argument is rewritten only when it begins with an ASCII drive letter, a
//! colon, and a path separator (`C:\...` or `C:/...`). Relative paths and UNC
//! paths pass through unchanged. Minimal shell-quoting also lives here: an
//! argument containing a space is wrapped in double quotes, nothing more.

use vstd::prelude::*;
use crate::ascii::{is_ascii_letter, lower_char, char_is_ascii_letter, char_to_lower};

verus! {

/// Relies on std's `String::push`: appends the given character to the end of
/// the string.
pub assume_specification[ String::push ](s: &mut String, c: char)
    ensures
        final(s)@ == old(s)@ + seq![c],
;

/// A Windows absolute drive-letter path: an ASCII letter, a colon, then a
/// backslash or forward slash.
pub open spec fn is_dos_path(s: Seq<char>) -> bool {
    s.len() >= 3 && is_ascii_letter(s[0]) && s[1] == ':' && (s[2] == '\\' || s[2] == '/')
}

/// A backslash becomes a forward slash; every other character is kept.
pub open spec fn slash_of(c: char) -> char {
    if c == '\\' {
        '/'
    } else {
        c
    }
}

/// The WSL form of an argument: `/mnt/`, the lowercased drive letter, then
/// the tail from the separator on with backslashes turned into slashes.
/// Anything that is not a drive-letter path is left exactly as it came.
pub open spec fn unix_of(s: Seq<char>) -> Seq<char> {
    if is_dos_path(s) {
        seq!['/', 'm', 'n', 't', '/'] + seq![lower_char(s[0])] + s.skip(2).map_values(
            |c: char| slash_of(c),
        )
    } else {
        s
    }
}

/// The drive-letter pattern check, on an argument as it arrives.
pub fn matches_dos_path(arg: &str) -> (r: bool)
    ensures
        r == is_dos_path(arg@),
{
    let n = arg.unicode_len();
    if n < 3 {
        return false;
    }
    let c0 = arg.get_char(0);
    let c1 = arg.get_char(1);
    let c2 = arg.get_char(2);
    char_is_ascii_letter(c0) && c1 == ':' && (c2 == '\\' || c2 == '/')
}

/// Translate one argument from Windows drive-letter form to WSL form.
pub fn translate_path_to_unix(arg: String) -> (r: String)
    ensures
        r@ == unix_of(arg@),
{
    if !matches_dos_path(arg.as_str()) {
        return arg;
    }
    let ghost tail = arg@.skip(2).map_values(|c: char| slash_of(c));
    let mut out = String::new();
    out.push('/');
    out.push('m');
    out.push('n');
    out.push('t');
    out.push('/');
    out.push(char_to_lower(arg.as_str().get_char(0)));
    let n = arg.as_str().unicode_len();
    let mut i: usize = 2;
    while i < n
        invariant
            2 <= i <= n,
            n == arg@.len(),
            is_dos_path(arg@),
            tail == arg@.skip(2).map_values(|c: char| slash_of(c)),
            out@ == seq!['/', 'm', 'n', 't', '/'] + seq![lower_char(arg@[0])] + tail.take(
                i - 2,
            ),
        decreases n - i,
    {
        let c = arg.as_str().get_char(i);
        let t = if c == '\\' {
            '/'
        } else {
            c
        };
        out.push(t);
        proof {
            assert(tail.take(i + 1 - 2) =~= tail.take(i - 2) + seq![tail[i - 2]]);
        }
        i += 1;
    }
    proof {
        assert(tail.take(n - 2) =~= tail);
        assert(out@ =~= unix_of(arg@));
    }
    out
}

/// An argument that contains an ASCII space somewhere.
pub open spec fn has_space(s: Seq<char>) -> bool {
    exists|i: int| 0 <= i < s.len() && s[i] == ' '
}

/// Minimal quoting: wrap in double quotes when a space occurs, else keep.
pub open spec fn escaped(s: Seq<char>) -> Seq<char> {
    if has_space(s) {
        seq!['"'] + s + seq!['"']
    } else {
        s
    }
}

/// Quote an argument for the interactive shell when it contains a space.
pub fn shell_escape(arg: String) -> (r: String)
    ensures
        r@ == escaped(arg@),
{
    let n = arg.as_str().unicode_len();
    let mut i: usize = 0;
    let mut found = false;
    while i < n
        invariant
            0 <= i <= n,
            n == arg@.len(),
            !found ==> forall|j: int| 0 <= j < i ==> arg@[j] != ' ',
            found ==> has_space(arg@),
        decreases n - i,
    {
        if arg.as_str().get_char(i) == ' ' {
            found = true;
        }
        i += 1;
    }
    if found {
        let mut out = String::new();
        out.push('"');
        out.append(arg.as_str());
        out.push('"');
        proof {
            assert(out@ =~= escaped(arg@));
        }
        out
    } else {
        proof {
            assert(!has_space(arg@));
        }
        arg
    }
}

/// An argument that is no drive-letter path comes back exactly as it went in.
pub proof fn lemma_translate_in_identity(s: Seq<char>)
    requires
        !is_dos_path(s),
    ensures
        unix_of(s) == s,
{
}

/// A drive-letter path comes back as `/mnt/`, the lowercased letter, a
/// slash, and a tail four characters longer than the input; no backslash
/// stands in the translated prefix region.
pub proof fn lemma_translate_in_prefix(s: Seq<char>)
    requires
        is_dos_path(s),
    ensures
        unix_of(s).len() == s.len() + 4,
        unix_of(s).take(7) =~= seq!['/', 'm', 'n', 't', '/', lower_char(s[0]), '/'],
        forall|i: int| 0 <= i < 7 ==> unix_of(s)[i] != '\\',
{
    assert(unix_of(s)[6] == slash_of(s[2]));
    assert(unix_of(s).take(7) =~= seq!['/', 'm', 'n', 't', '/', lower_char(s[0]), '/']) by {
        assert(unix_of(s)[5] == lower_char(s[0]));
        assert(slash_of(s[2]) == '/');
    }
    assert forall|i: int| 0 <= i < 7 implies unix_of(s)[i] != '\\' by {
        assert(unix_of(s).take(7)[i] == unix_of(s)[i]);
        assert(lower_char(s[0]) != '\\') by {
            if is_ascii_letter(s[0]) {
                assert(('a' <= lower_char(s[0]) && lower_char(s[0]) <= 'z'));
            }
        }
    }
}

} // verus!
