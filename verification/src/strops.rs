//! Verified character-level string operations: equality, non-overlapping
//! substring replacement, basename extraction, and ASCII upper-casing of a
//! leading character.

use vstd::prelude::*;

verus! {

/// Character-for-character string equality.
pub fn str_eq(a: &str, b: &str) -> (r: bool)
    ensures
        r == (a@ == b@),
{
    let na = a.unicode_len();
    let nb = b.unicode_len();
    if na != nb {
        return false;
    }
    let mut j: usize = 0;
    while j < na
        invariant
            na == a@.len(),
            na == b@.len(),
            j <= na,
            forall|k: int| 0 <= k < j ==> a@[k] == b@[k],
        decreases na - j,
    {
        if a.get_char(j) != b.get_char(j) {
            return false;
        }
        j += 1;
    }
    proof {
        assert(a@ =~= b@);
    }
    true
}

/// Whether `pat` occurs in `s` starting at character position `i`.
fn match_at(s: &str, pat: &str, i: usize) -> (b: bool)
    requires
        i + pat@.len() <= s@.len(),
    ensures
        b == (s@.subrange(i as int, i + pat@.len()) == pat@),
{
    let slen = s.unicode_len();
    let plen = pat.unicode_len();
    let mut j: usize = 0;
    while j < plen
        invariant
            slen == s@.len(),
            plen == pat@.len(),
            i + plen <= slen,
            j <= plen,
            forall|k: int| 0 <= k < j ==> s@[i + k] == pat@[k],
        decreases plen - j,
    {
        if s.get_char(i + j) != pat.get_char(j) {
            proof {
                assert(s@.subrange(i as int, i + pat@.len())[j as int] != pat@[j as int]);
            }
            return false;
        }
        j += 1;
    }
    proof {
        assert(s@.subrange(i as int, i + pat@.len()) =~= pat@);
    }
    true
}

/// The result of replacing every occurrence of `pat` in `s` by `rep`,
/// scanning left to right without overlap. An empty pattern replaces nothing.
pub open spec fn replace_spec(s: Seq<char>, pat: Seq<char>, rep: Seq<char>) -> Seq<char>
    decreases s.len(),
{
    if pat.len() == 0 || s.len() < pat.len() {
        s
    } else if s.take(pat.len() as int) == pat {
        rep + replace_spec(s.skip(pat.len() as int), pat, rep)
    } else {
        seq![s[0]] + replace_spec(s.skip(1), pat, rep)
    }
}

/// Replaces every occurrence of `pat` in `s` by `rep`, left to right,
/// without overlap.
pub fn replace_all(s: &str, pat: &str, rep: &str) -> (r: String)
    requires
        pat@.len() >= 1,
    ensures
        r@ == replace_spec(s@, pat@, rep@),
{
    let n = s.unicode_len();
    let plen = pat.unicode_len();
    let mut out = String::new();
    if plen > n {
        out.append(s.substring_char(0, n));
        proof {
            assert(s@.subrange(0, n as int) =~= s@);
        }
        return out;
    }
    let mut i: usize = 0;
    let mut seg: usize = 0;
    proof {
        assert(s@.skip(0) =~= s@);
        assert(s@.subrange(0, 0) =~= Seq::<char>::empty());
        assert(out@ + replace_spec(s@.skip(0), pat@, rep@) =~= replace_spec(s@, pat@, rep@));
        assert(s@.subrange(0, 0) + replace_spec(s@.skip(0), pat@, rep@) =~= replace_spec(
            s@.skip(0),
            pat@,
            rep@,
        ));
    }
    while i <= n - plen
        invariant
            n == s@.len(),
            plen == pat@.len(),
            1 <= plen <= n,
            seg <= i <= n,
            replace_spec(s@, pat@, rep@) == out@ + replace_spec(
                s@.skip(seg as int),
                pat@,
                rep@,
            ),
            replace_spec(s@.skip(seg as int), pat@, rep@) == s@.subrange(seg as int, i as int)
                + replace_spec(s@.skip(i as int), pat@, rep@),
        decreases n - i,
    {
        if match_at(s, pat, i) {
            out.append(s.substring_char(seg, i));
            out.append(rep);
            proof {
                let tail = s@.skip(i as int);
                assert(tail.take(plen as int) =~= s@.subrange(i as int, i + plen));
                assert(tail.skip(plen as int) =~= s@.skip(i + plen));
                assert(replace_spec(tail, pat@, rep@) == rep@ + replace_spec(
                    s@.skip(i + plen),
                    pat@,
                    rep@,
                ));
            }
            i += plen;
            seg = i;
            proof {
                assert(s@.subrange(seg as int, i as int) =~= Seq::<char>::empty());
                assert(s@.subrange(seg as int, i as int) + replace_spec(
                    s@.skip(i as int),
                    pat@,
                    rep@,
                ) =~= replace_spec(s@.skip(seg as int), pat@, rep@));
            }
        } else {
            proof {
                let tail = s@.skip(i as int);
                assert(tail.take(plen as int) =~= s@.subrange(i as int, i + plen));
                assert(tail.take(plen as int) != pat@);
                assert(tail.len() >= plen);
                assert(replace_spec(tail, pat@, rep@) == seq![tail[0]] + replace_spec(
                    tail.skip(1),
                    pat@,
                    rep@,
                ));
                assert(tail.skip(1) =~= s@.skip(i + 1));
                assert(s@.subrange(seg as int, i + 1) =~= s@.subrange(seg as int, i as int)
                    + seq![s@[i as int]]);
            }
            i += 1;
        }
    }
    out.append(s.substring_char(seg, n));
    proof {
        let tail = s@.skip(i as int);
        assert(tail.len() < plen);
        assert(replace_spec(tail, pat@, rep@) == tail);
        assert(s@.subrange(seg as int, i as int) + s@.skip(i as int) =~= s@.subrange(
            seg as int,
            n as int,
        ));
    }
    out
}

/// The part of `s` after its last `'/'`; the whole of `s` when it
/// holds no `'/'`.
pub open spec fn after_last_slash(s: Seq<char>) -> Seq<char>
    decreases s.len(),
{
    if s.len() == 0 {
        s
    } else if s[s.len() - 1] == '/' {
        Seq::empty()
    } else {
        after_last_slash(s.take(s.len() - 1)).push(s[s.len() - 1])
    }
}

/// A sequence without `'/'` is its own basename.
proof fn lemma_no_slash_basename(s: Seq<char>)
    requires
        forall|j: int| 0 <= j < s.len() ==> s[j] != '/',
    ensures
        after_last_slash(s) == s,
    decreases s.len(),
{
    if s.len() == 0 {
    } else {
        lemma_no_slash_basename(s.take(s.len() - 1));
        assert(after_last_slash(s) =~= s);
    }
}

/// When position `k` holds the last `'/'` of `s`, the basename is
/// everything after `k`.
proof fn lemma_last_slash_basename(s: Seq<char>, k: int)
    requires
        0 <= k < s.len(),
        s[k] == '/',
        forall|j: int| k < j < s.len() ==> s[j] != '/',
    ensures
        after_last_slash(s) == s.subrange(k + 1, s.len() as int),
    decreases s.len(),
{
    if k == s.len() - 1 {
        assert(after_last_slash(s) =~= s.subrange(k + 1, s.len() as int));
    } else {
        lemma_last_slash_basename(s.take(s.len() - 1), k);
        assert(after_last_slash(s) =~= s.subrange(k + 1, s.len() as int));
    }
}

/// The basename of `s`: the substring after the last `'/'`, or all of `s`
/// when it holds none.
pub fn basename(s: &str) -> (r: &str)
    ensures
        r@ == after_last_slash(s@),
{
    let n = s.unicode_len();
    let mut i: usize = n;
    while i > 0
        invariant
            n == s@.len(),
            i <= n,
            forall|j: int| i <= j < n ==> s@[j] != '/',
        decreases i,
    {
        if s.get_char(i - 1) == '/' {
            let r = s.substring_char(i, n);
            proof {
                lemma_last_slash_basename(s@, i - 1);
            }
            return r;
        }
        i -= 1;
    }
    proof {
        lemma_no_slash_basename(s@);
    }
    s
}

/// The ASCII upper-case counterpart of a character; characters outside
/// `'a'..='z'` are unchanged.
pub open spec fn upper_ascii(c: char) -> char {
    if c == 'a' {
        'A'
    } else if c == 'b' {
        'B'
    } else if c == 'c' {
        'C'
    } else if c == 'd' {
        'D'
    } else if c == 'e' {
        'E'
    } else if c == 'f' {
        'F'
    } else if c == 'g' {
        'G'
    } else if c == 'h' {
        'H'
    } else if c == 'i' {
        'I'
    } else if c == 'j' {
        'J'
    } else if c == 'k' {
        'K'
    } else if c == 'l' {
        'L'
    } else if c == 'm' {
        'M'
    } else if c == 'n' {
        'N'
    } else if c == 'o' {
        'O'
    } else if c == 'p' {
        'P'
    } else if c == 'q' {
        'Q'
    } else if c == 'r' {
        'R'
    } else if c == 's' {
        'S'
    } else if c == 't' {
        'T'
    } else if c == 'u' {
        'U'
    } else if c == 'v' {
        'V'
    } else if c == 'w' {
        'W'
    } else if c == 'x' {
        'X'
    } else if c == 'y' {
        'Y'
    } else if c == 'z' {
        'Z'
    } else {
        c
    }
}

/// `s` with its first character replaced by its ASCII upper-case
/// counterpart; empty input stays empty.
pub open spec fn ucfirst_spec(s: Seq<char>) -> Seq<char> {
    if s.len() == 0 {
        s
    } else {
        seq![upper_ascii(s[0])] + s.skip(1)
    }
}

/// Builds `ucfirst` of a non-empty `bs` from the already upper-cased
/// one-character string `up`.
fn ucfirst_with(bs: &str, up: &str) -> (r: String)
    requires
        bs@.len() > 0,
        up@ == seq![upper_ascii(bs@[0])],
    ensures
        r@ == ucfirst_spec(bs@),
{
    let n = bs.unicode_len();
    let mut out = String::from_str(up);
    out.append(bs.substring_char(1, n));
    proof {
        assert(out@ =~= ucfirst_spec(bs@));
    }
    out
}

/// Upper-cases the first character of `bs` (ASCII range only) and keeps
/// the rest unchanged.
pub fn ucfirst(bs: &str) -> (r: String)
    ensures
        r@ == ucfirst_spec(bs@),
{
    let n = bs.unicode_len();
    if n == 0 {
        return String::new();
    }
    let c = bs.get_char(0);
    match c {
        'a' => {
            proof {
                reveal_strlit("A");
                assert("A"@ =~= seq![upper_ascii(bs@[0])]);
            }
            ucfirst_with(bs, "A")
        },
        'b' => {
            proof {
                reveal_strlit("B");
                assert("B"@ =~= seq![upper_ascii(bs@[0])]);
            }
            ucfirst_with(bs, "B")
        },
        'c' => {
            proof {
                reveal_strlit("C");
                assert("C"@ =~= seq![upper_ascii(bs@[0])]);
            }
            ucfirst_with(bs, "C")
        },
        'd' => {
            proof {
                reveal_strlit("D");
                assert("D"@ =~= seq![upper_ascii(bs@[0])]);
            }
            ucfirst_with(bs, "D")
        },
        'e' => {
            proof {
                reveal_strlit("E");
                assert("E"@ =~= seq![upper_ascii(bs@[0])]);
            }
            ucfirst_with(bs, "E")
        },
        'f' => {
            proof {
                reveal_strlit("F");
                assert("F"@ =~= seq![upper_ascii(bs@[0])]);
            }
            ucfirst_with(bs, "F")
        },
        'g' => {
            proof {
                reveal_strlit("G");
                assert("G"@ =~= seq![upper_ascii(bs@[0])]);
            }
            ucfirst_with(bs, "G")
        },
        'h' => {
            proof {
                reveal_strlit("H");
                assert("H"@ =~= seq![upper_ascii(bs@[0])]);
            }
            ucfirst_with(bs, "H")
        },
        'i' => {
            proof {
                reveal_strlit("I");
                assert("I"@ =~= seq![upper_ascii(bs@[0])]);
            }
            ucfirst_with(bs, "I")
        },
        'j' => {
            proof {
                reveal_strlit("J");
                assert("J"@ =~= seq![upper_ascii(bs@[0])]);
            }
            ucfirst_with(bs, "J")
        },
        'k' => {
            proof {
                reveal_strlit("K");
                assert("K"@ =~= seq![upper_ascii(bs@[0])]);
            }
            ucfirst_with(bs, "K")
        },
        'l' => {
            proof {
                reveal_strlit("L");
                assert("L"@ =~= seq![upper_ascii(bs@[0])]);
            }
            ucfirst_with(bs, "L")
        },
        'm' => {
            proof {
                reveal_strlit("M");
                assert("M"@ =~= seq![upper_ascii(bs@[0])]);
            }
            ucfirst_with(bs, "M")
        },
        'n' => {
            proof {
                reveal_strlit("N");
                assert("N"@ =~= seq![upper_ascii(bs@[0])]);
            }
            ucfirst_with(bs, "N")
        },
        'o' => {
            proof {
                reveal_strlit("O");
                assert("O"@ =~= seq![upper_ascii(bs@[0])]);
            }
            ucfirst_with(bs, "O")
        },
        'p' => {
            proof {
                reveal_strlit("P");
                assert("P"@ =~= seq![upper_ascii(bs@[0])]);
            }
            ucfirst_with(bs, "P")
        },
        'q' => {
            proof {
                reveal_strlit("Q");
                assert("Q"@ =~= seq![upper_ascii(bs@[0])]);
            }
            ucfirst_with(bs, "Q")
        },
        'r' => {
            proof {
                reveal_strlit("R");
                assert("R"@ =~= seq![upper_ascii(bs@[0])]);
            }
            ucfirst_with(bs, "R")
        },
        's' => {
            proof {
                reveal_strlit("S");
                assert("S"@ =~= seq![upper_ascii(bs@[0])]);
            }
            ucfirst_with(bs, "S")
        },
        't' => {
            proof {
                reveal_strlit("T");
                assert("T"@ =~= seq![upper_ascii(bs@[0])]);
            }
            ucfirst_with(bs, "T")
        },
        'u' => {
            proof {
                reveal_strlit("U");
                assert("U"@ =~= seq![upper_ascii(bs@[0])]);
            }
            ucfirst_with(bs, "U")
        },
        'v' => {
            proof {
                reveal_strlit("V");
                assert("V"@ =~= seq![upper_ascii(bs@[0])]);
            }
            ucfirst_with(bs, "V")
        },
        'w' => {
            proof {
                reveal_strlit("W");
                assert("W"@ =~= seq![upper_ascii(bs@[0])]);
            }
            ucfirst_with(bs, "W")
        },
        'x' => {
            proof {
                reveal_strlit("X");
                assert("X"@ =~= seq![upper_ascii(bs@[0])]);
            }
            ucfirst_with(bs, "X")
        },
        'y' => {
            proof {
                reveal_strlit("Y");
                assert("Y"@ =~= seq![upper_ascii(bs@[0])]);
            }
            ucfirst_with(bs, "Y")
        },
        'z' => {
            proof {
                reveal_strlit("Z");
                assert("Z"@ =~= seq![upper_ascii(bs@[0])]);
            }
            ucfirst_with(bs, "Z")
        },
        _ => {
            let r = String::from_str(bs);
            proof {
                assert(r@ =~= ucfirst_spec(bs@));
            }
            r
        },
    }
}

} // verus!
