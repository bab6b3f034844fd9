//! Character and string helpers: ASCII lower-casing, whole-string equality,
//! and extraction of the last whitespace-delimited token of a title.

use vstd::prelude::*;
use vstd::string::StrSliceExecFns;

verus! {

/// ASCII lower-casing of a single character; everything outside 'A'..='Z' is
/// left unchanged.
pub open spec fn lower_char(c: char) -> char {
    if 65 <= c as u32 && c as u32 <= 90 {
        ((c as u32 + 32) as u8) as char
    } else {
        c
    }
}

/// ASCII lower-casing of a character sequence.
pub open spec fn lower_seq(s: Seq<char>) -> Seq<char> {
    s.map_values(|c: char| lower_char(c))
}

/// The suffix of `s` after its last space: the last space-delimited token
/// (empty when `s` ends with a space, all of `s` when it holds no space).
pub open spec fn last_token(s: Seq<char>) -> Seq<char>
    decreases s.len(),
{
    if s.len() == 0 {
        s
    } else if s[s.len() - 1] == ' ' {
        Seq::empty()
    } else {
        last_token(s.drop_last()).push(s[s.len() - 1])
    }
}

pub fn lower_char_exec(c: char) -> (r: char)
    ensures
        r == lower_char(c),
{
    let u = c as u32;
    if 65 <= u && u <= 90 {
        ((u + 32) as u8) as char
    } else {
        c
    }
}

/// Whole-string equality, by characters.
pub fn str_eq(a: &str, b: &str) -> (r: bool)
    ensures
        r == (a@ == b@),
{
    let la = a.unicode_len();
    let lb = b.unicode_len();
    if la != lb {
        proof {
            assert(a@ != b@) by {
                if a@ == b@ {
                    assert(a@.len() == b@.len());
                }
            }
        }
        return false;
    }
    let mut i: usize = 0;
    while i < la
        invariant
            la == a@.len(),
            la == b@.len(),
            i <= la,
            forall|j: int| 0 <= j < i ==> a@[j] == b@[j],
        decreases la - i,
    {
        if a.get_char(i) != b.get_char(i) {
            return false;
        }
        i += 1;
    }
    proof {
        assert(a@ =~= b@);
    }
    true
}

/// Index at which the last space-delimited token of `s` starts.
pub fn last_token_start(s: &str) -> (start: usize)
    ensures
        start <= s@.len(),
        forall|j: int| start <= j < s@.len() ==> s@[j] != ' ',
        start > 0 ==> s@[start - 1] == ' ',
{
    let len = s.unicode_len();
    let mut start: usize = 0;
    let mut i: usize = 0;
    while i < len
        invariant
            len == s@.len(),
            start <= i <= len,
            forall|j: int| start <= j < i ==> s@[j] != ' ',
            start > 0 ==> s@[start - 1] == ' ',
        decreases len - i,
    {
        if s.get_char(i) == ' ' {
            start = i + 1;
        }
        i += 1;
    }
    start
}

/// When no space occurs at or after `start`, and `start` is 0 or preceded by
/// a space, the last token of `t` is exactly the suffix from `start`.
pub proof fn lemma_last_token(t: Seq<char>, start: int)
    requires
        0 <= start <= t.len(),
        forall|j: int| start <= j < t.len() ==> t[j] != ' ',
        start > 0 ==> t[start - 1] == ' ',
    ensures
        last_token(t) == t.subrange(start, t.len() as int),
    decreases t.len(),
{
    if t.len() == 0 {
        assert(t.subrange(0, 0) =~= t);
    } else if start == t.len() {
        assert(t[t.len() - 1] == ' ');
        assert(t.subrange(start, t.len() as int) =~= Seq::<char>::empty());
    } else {
        assert(t[t.len() - 1] != ' ');
        lemma_last_token(t.drop_last(), start);
        assert(t.subrange(start, t.len() as int) =~= t.drop_last().subrange(
            start,
            t.len() - 1,
        ).push(t[t.len() - 1]));
    }
}

/// Does the lower-cased suffix of `s` from `start` equal `lit`?
pub fn token_lower_eq(s: &str, start: usize, lit: &str) -> (r: bool)
    requires
        start <= s@.len(),
    ensures
        r == (lower_seq(s@.subrange(start as int, s@.len() as int)) == lit@),
{
    let n = s.unicode_len();
    let m = lit.unicode_len();
    let ghost sub = s@.subrange(start as int, s@.len() as int);
    assert(lower_seq(sub).len() == sub.len());
    if n - start != m {
        proof {
            assert(lower_seq(sub).len() != lit@.len());
        }
        return false;
    }
    let mut j: usize = 0;
    while j < m
        invariant
            n == s@.len(),
            m == lit@.len(),
            start <= n,
            n - start == m,
            j <= m,
            sub == s@.subrange(start as int, s@.len() as int),
            forall|p: int| 0 <= p < j ==> lower_char(sub[p]) == lit@[p],
        decreases m - j,
    {
        let c = lower_char_exec(s.get_char(start + j));
        if c != lit.get_char(j) {
            proof {
                assert(lower_seq(sub)[j as int] != lit@[j as int]);
            }
            return false;
        }
        j += 1;
    }
    proof {
        assert(lower_seq(sub) =~= lit@) by {
            assert(forall|p: int|
                0 <= p < m ==> #[trigger] lower_seq(sub)[p] == lower_char(sub[p]));
        }
    }
    true
}

} // verus!
