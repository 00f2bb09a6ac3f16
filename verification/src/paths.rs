//! Path derivation for generated output: recognizing source files by
//! their extension, and deriving the output path beside the input.

use vstd::prelude::*;

verus! {

/// The index of the last occurrence of `c` in `s`, or `-1` when there is
/// none.
pub open spec fn rfind(s: Seq<char>, c: char) -> int
    decreases s.len(),
{
    if s.len() == 0 {
        -1
    } else if s.last() == c {
        s.len() - 1
    } else {
        rfind(s.drop_last(), c)
    }
}

pub proof fn lemma_rfind(s: Seq<char>, c: char)
    ensures
        -1 <= rfind(s, c) < s.len(),
        rfind(s, c) >= 0 ==> s[rfind(s, c)] == c,
        forall|j: int| rfind(s, c) < j < s.len() ==> s[j] != c,
    decreases s.len(),
{
    if s.len() > 0 && s.last() != c {
        lemma_rfind(s.drop_last(), c);
        assert forall|j: int| rfind(s, c) < j < s.len() implies s[j] != c by {
            if j < s.len() - 1 {
                assert(s[j] == s.drop_last()[j]);
            }
        }
    }
}

/// The name's text with every `.nss` replaced by `.css`, leftmost first,
/// without overlap, scanning from position `i`.
pub open spec fn replace_nss_from(s: Seq<char>, i: int) -> Seq<char>
    decreases s.len() - i,
{
    if !(0 <= i < s.len()) {
        Seq::empty()
    } else if i + 4 <= s.len() && s.subrange(i, i + 4) == ".nss"@ {
        ".css"@ + replace_nss_from(s, i + 4)
    } else {
        seq![s[i]] + replace_nss_from(s, i + 1)
    }
}

/// The file-name part of a path: what follows the last `/`, or the whole
/// path without one.
pub open spec fn spec_file_name(s: Seq<char>) -> Seq<char> {
    s.subrange(rfind(s, '/') + 1, s.len() as int)
}

/// The derived output path: the same directory, with every `.nss` in the
/// file name replaced by `.css`.
pub open spec fn spec_new_path(s: Seq<char>) -> Seq<char> {
    s.subrange(0, rfind(s, '/') + 1) + replace_nss_from(spec_file_name(s), 0)
}

/// The extension the path announces: what follows the last `.` of the
/// file name, or the whole file name without one.
pub open spec fn spec_extension(s: Seq<char>) -> Seq<char> {
    let name = spec_file_name(s);
    name.subrange(rfind(name, '.') + 1, name.len() as int)
}

/// The index just past the last occurrence of `c` in `s`; zero without
/// one.
fn after_last(path: &str, c: char) -> (r: usize)
    requires
        path@.len() < usize::MAX,
    ensures
        r as int == rfind(path@, c) + 1,
        r <= path@.len(),
{
    let n = path.unicode_len();
    let mut i = n;
    while i > 0
        invariant
            i <= n,
            n == path@.len(),
            forall|j: int| i as int <= j < n as int ==> path@[j] != c,
        decreases i,
    {
        if path.get_char(i - 1) == c {
            proof {
                lemma_rfind(path@, c);
            }
            return i;
        }
        i = i - 1;
    }
    proof {
        lemma_rfind(path@, c);
    }
    0
}

/// Whether the path names a source stylesheet: its extension, the text
/// behind the file name's last dot, is exactly `nss`.
pub fn is_nss(path: &String) -> (r: bool)
    requires
        path@.len() < usize::MAX,
    ensures
        r == (spec_extension(path@) == "nss"@),
{
    let n = path.as_str().unicode_len();
    let start = after_last(path.as_str(), '/');
    let name = path.as_str().substring_char(start, n);
    let m = name.unicode_len();
    let dot = after_last(name, '.');
    let ext = name.substring_char(dot, m);
    proof {
        reveal_strlit("nss");
    }
    crate::scan::str_eq(ext, "nss")
}

/// The path the generated output goes to: the same directory, the same
/// base name, with `.nss` replaced by `.css` in the file name.
pub fn new_path(path: &String) -> (r: String)
    requires
        path@.len() < usize::MAX,
    ensures
        r@ == spec_new_path(path@),
{
    let n = path.as_str().unicode_len();
    let start = after_last(path.as_str(), '/');
    let mut out = path.as_str().substring_char(0, start).to_owned();
    let name = path.as_str().substring_char(start, n);
    let m = name.unicode_len();

    let mut i: usize = 0;
    proof {
        assert(out@ + replace_nss_from(name@, 0) =~= path@.subrange(0, rfind(path@, '/') + 1)
            + replace_nss_from(name@, 0));
    }
    while i < m
        invariant
            i <= m,
            m == name@.len(),
            name@ == spec_file_name(path@),
            m < usize::MAX,
            spec_new_path(path@) == out@ + replace_nss_from(name@, i as int),
        decreases m - i,
    {
        let ghost out0 = out@;
        if m - i >= 4 && name.get_char(i) == '.' && name.get_char(i + 1) == 'n'
            && name.get_char(i + 2) == 's' && name.get_char(i + 3) == 's' {
            out.append(".css");
            proof {
                reveal_strlit(".nss");
                assert(name@.subrange(i as int, i + 4) =~= ".nss"@);
                assert(out@ =~= out0 + ".css"@);
                assert(out0 + (".css"@ + replace_nss_from(name@, i + 4))
                    =~= (out0 + ".css"@) + replace_nss_from(name@, i + 4));
            }
            i = i + 4;
        } else {
            out.append(name.substring_char(i, i + 1));
            proof {
                reveal_strlit(".nss");
                if i + 4 <= m {
                    assert(name@.subrange(i as int, i + 4) != ".nss"@) by {
                        let sub = name@.subrange(i as int, i + 4);
                        if sub == ".nss"@ {
                            assert(sub[0] == name@[i as int]);
                            assert(sub[1] == name@[i + 1]);
                            assert(sub[2] == name@[i + 2]);
                            assert(sub[3] == name@[i + 3]);
                        }
                    }
                }
                assert(name@.subrange(i as int, i + 1) =~= seq![name@[i as int]]);
                assert(out@ =~= out0 + seq![name@[i as int]]);
                assert(out0 + (seq![name@[i as int]] + replace_nss_from(name@, i + 1))
                    =~= (out0 + seq![name@[i as int]]) + replace_nss_from(name@, i + 1));
            }
            i = i + 1;
        }
    }
    proof {
        assert(replace_nss_from(name@, m as int) == Seq::<char>::empty());
        assert(out@ + Seq::<char>::empty() =~= out@);
    }
    out
}

} // verus!
