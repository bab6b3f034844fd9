//! A verified interchange codec for whole catalogs.
//!
//! A catalog is written as a stream of characters: for each entry, in
//! catalog order, the stage's bell count, the title length, the title's
//! characters, the name length, the name's characters, the classification
//! tag, the place-notation length and the place notation's characters, each
//! number in decimal followed by one space.  Decoding rejects any stream
//! this scheme cannot have produced, and rebuilds the catalog through its
//! checked constructor.

use vstd::prelude::*;
use vstd::string::StrSliceExecFns;
use crate::method::{Classification, CompactMethod, CompactMethodV};
use crate::method_lib::{entries_wf, entry_views, LibraryEntry, LibraryEntryV, MethodLib};
use crate::stage::Stage;

verus! {

/// The decimal digit character for `d` (meaningful for `d < 10`).
pub open spec fn digit_char(d: nat) -> char {
    ((48 + d) as u8) as char
}

/// Is `c` a decimal digit?
pub open spec fn is_digit(c: char) -> bool {
    48 <= c as u32 && c as u32 <= 57
}

/// The value of a digit character.
pub open spec fn digit_val(c: char) -> nat {
    (c as u32 - 48) as nat
}

/// The decimal digits of `n`, most significant first.
pub open spec fn dec_digits(n: nat) -> Seq<char>
    decreases n,
{
    if n < 10 {
        seq![digit_char(n)]
    } else {
        dec_digits(n / 10).push(digit_char(n % 10))
    }
}

/// A number in the stream: its decimal digits and one space.
pub open spec fn enc_num(n: nat) -> Seq<char> {
    dec_digits(n) + seq![' ']
}

/// One encoded entry.
pub open spec fn enc_entry(e: LibraryEntryV) -> Seq<char> {
    enc_num(e.stage.num_bells as nat) + enc_num(e.title.len()) + e.title + enc_num(
        e.method.name.len(),
    ) + e.method.name + enc_num(e.method.full_class.tag as nat) + enc_num(
        e.method.place_notation.len(),
    ) + e.method.place_notation
}

/// A whole encoded catalog: its entries, one after another.
pub open spec fn enc_lib(es: Seq<LibraryEntryV>) -> Seq<char>
    decreases es.len(),
{
    if es.len() == 0 {
        Seq::empty()
    } else {
        enc_entry(es[0]) + enc_lib(es.drop_first())
    }
}

/// Where the run of digits starting at `i` ends.
pub open spec fn digit_run_end(s: Seq<char>, i: int) -> int
    decreases s.len() - i,
{
    if i < 0 || i >= s.len() || !is_digit(s[i]) {
        i
    } else {
        digit_run_end(s, i + 1)
    }
}

/// The value of the digits `s[i..j)`.
pub open spec fn digits_val(s: Seq<char>, i: int, j: int) -> nat
    decreases j - i,
{
    if j <= i {
        0
    } else {
        digits_val(s, i, j - 1) * 10 + digit_val(s[j - 1])
    }
}

/// Parses one number and its trailing space at `i`: its value, if it fits
/// `u64`, and the position after the space.
pub open spec fn parse_num(s: Seq<char>, i: int) -> Option<(u64, int)> {
    let e = digit_run_end(s, i);
    if i < 0 || e == i {
        None
    } else if e < s.len() && s[e] == ' ' {
        if digits_val(s, i, e) <= u64::MAX {
            Some((digits_val(s, i, e) as u64, e + 1))
        } else {
            None
        }
    } else {
        None
    }
}

/// Parses one encoded entry at `i`: the entry and the position after it.
pub open spec fn parse_entry(s: Seq<char>, i: int) -> Option<(LibraryEntryV, int)> {
    match parse_num(s, i) {
        None => None,
        Some((nb, i1)) => match parse_num(s, i1) {
            None => None,
            Some((tl, i2)) => if i2 + tl > s.len() {
                None
            } else {
                let title = s.subrange(i2, i2 + tl);
                match parse_num(s, i2 + tl) {
                    None => None,
                    Some((nl, i4)) => if i4 + nl > s.len() {
                        None
                    } else {
                        let name = s.subrange(i4, i4 + nl);
                        match parse_num(s, i4 + nl) {
                            None => None,
                            Some((tag, i6)) => match parse_num(s, i6) {
                                None => None,
                                Some((pl, i7)) => if i7 + pl > s.len() {
                                    None
                                } else {
                                    let pn = s.subrange(i7, i7 + pl);
                                    Some(
                                        (
                                            LibraryEntryV {
                                                stage: Stage { num_bells: nb },
                                                title,
                                                method: CompactMethodV {
                                                    name,
                                                    full_class: Classification { tag },
                                                    place_notation: pn,
                                                },
                                            },
                                            i7 + pl,
                                        ),
                                    )
                                },
                            },
                        }
                    },
                }
            },
        },
    }
}

/// Parses the entries from `i` to the end of the stream.
pub open spec fn decode_entries(s: Seq<char>, i: int) -> Option<Seq<LibraryEntryV>>
    decreases s.len() - i,
{
    if i < 0 || i > s.len() {
        None
    } else if i == s.len() {
        Some(Seq::empty())
    } else {
        match parse_entry(s, i) {
            None => None,
            Some((e, j)) => if i < j <= s.len() {
                match decode_entries(s, j) {
                    None => None,
                    Some(rest) => Some(seq![e] + rest),
                }
            } else {
                None
            },
        }
    }
}

/// The decode of a whole stream: the entry sequence it encodes, if any.
pub open spec fn spec_decode(s: Seq<char>) -> Option<Seq<LibraryEntryV>> {
    decode_entries(s, 0)
}

/// Relies on String::push: appends the character to the string.
#[verifier::external_body]
fn string_push(s: &mut String, c: char)
    ensures
        final(s)@ == old(s)@.push(c),
{
    s.push(c)
}

/// Appends the decimal digits of `n`.
fn push_digits(out: &mut Vec<char>, n: u64)
    ensures
        final(out)@ == old(out)@ + dec_digits(n as nat),
    decreases n,
{
    if n < 10 {
        out.push(((48 + n as u32) as u8) as char);
        proof {
            assert(out@ =~= old(out)@ + dec_digits(n as nat));
        }
    } else {
        let ghost base = out@;
        push_digits(out, n / 10);
        out.push(((48 + (n % 10) as u32) as u8) as char);
        proof {
            assert(out@ =~= base + dec_digits(n as nat));
        }
    }
}

/// Appends a number and its trailing space.
fn push_num(out: &mut Vec<char>, n: u64)
    ensures
        final(out)@ == old(out)@ + enc_num(n as nat),
{
    let ghost base = out@;
    push_digits(out, n);
    out.push(' ');
    proof {
        assert(out@ =~= base + enc_num(n as nat));
    }
}

/// Appends all the characters of `s`.
fn push_str_chars(out: &mut Vec<char>, s: &str)
    ensures
        final(out)@ == old(out)@ + s@,
{
    let ghost base = out@;
    let len = s.unicode_len();
    let mut i: usize = 0;
    while i < len
        invariant
            len == s@.len(),
            i <= len,
            out@ == base + s@.subrange(0, i as int),
        decreases len - i,
    {
        out.push(s.get_char(i));
        proof {
            assert(base + s@.subrange(0, i + 1 as int) =~= (base + s@.subrange(0, i as int)).push(
                s@[i as int],
            ));
        }
        i += 1;
    }
    proof {
        assert(s@.subrange(0, len as int) =~= s@);
    }
}

/// Appending one entry extends an encoded catalog by that entry's encoding.
proof fn lemma_enc_lib_push(es: Seq<LibraryEntryV>, x: LibraryEntryV)
    ensures
        enc_lib(es.push(x)) == enc_lib(es) + enc_entry(x),
    decreases es.len(),
{
    if es.len() == 0 {
        assert(es.push(x)[0] == x);
        assert(enc_lib(es.push(x).drop_first()) =~= Seq::<char>::empty());
        assert(enc_lib(es.push(x)) =~= enc_lib(es) + enc_entry(x));
    } else {
        assert(es.push(x).drop_first() =~= es.drop_first().push(x));
        lemma_enc_lib_push(es.drop_first(), x);
        assert(es.push(x)[0] == es[0]);
        assert(enc_lib(es.push(x)) == enc_entry(es[0]) + enc_lib(es.drop_first().push(x)));
        assert(enc_entry(es[0]) + (enc_lib(es.drop_first()) + enc_entry(x)) =~= (enc_entry(es[0])
            + enc_lib(es.drop_first())) + enc_entry(x));
    }
}

/// Encodes a whole catalog as a character stream.
pub fn encode(lib: &MethodLib) -> (r: Vec<char>)
    ensures
        r@ == enc_lib(lib@),
{
    let ghost es = lib@;
    let entries = lib.entries();
    let n = entries.len();
    let mut out: Vec<char> = Vec::new();
    let mut i: usize = 0;
    proof {
        assert(es.subrange(0, 0) =~= Seq::<LibraryEntryV>::empty());
        assert(out@ =~= enc_lib(es.subrange(0, 0)));
    }
    while i < n
        invariant
            es == entry_views(entries@),
            n == entries@.len(),
            i <= n,
            out@ == enc_lib(es.subrange(0, i as int)),
        decreases n - i,
    {
        let ghost base = out@;
        let e = &entries[i];
        push_num(&mut out, e.stage.num_bells);
        push_num(&mut out, e.title.unicode_len() as u64);
        push_str_chars(&mut out, e.title.as_str());
        push_num(&mut out, e.method.name.unicode_len() as u64);
        push_str_chars(&mut out, e.method.name.as_str());
        push_num(&mut out, e.method.full_class.tag);
        push_num(&mut out, e.method.place_notation.unicode_len() as u64);
        push_str_chars(&mut out, e.method.place_notation.as_str());
        proof {
            assert(out@ =~= base + enc_entry(es[i as int]));
            lemma_enc_lib_push(es.subrange(0, i as int), es[i as int]);
            assert(es.subrange(0, i as int).push(es[i as int]) =~= es.subrange(0, i + 1 as int));
        }
        i += 1;
    }
    proof {
        assert(es.subrange(0, n as int) =~= es);
    }
    out
}

/// What `digit_run_end` pins down: everything before it is a digit and it
/// sits at the stream's end or on a non-digit.
proof fn lemma_run_end_is(s: Seq<char>, i: int, j: int)
    requires
        0 <= i <= j <= s.len(),
        forall|p: int| i <= p < j ==> is_digit(#[trigger] s[p]),
        j == s.len() || !is_digit(s[j]),
    ensures
        digit_run_end(s, i) == j,
    decreases j - i,
{
    if i < j {
        lemma_run_end_is(s, i + 1, j);
    }
}

/// The value of the digits never shrinks as the run extends.
proof fn lemma_digits_val_monotone(s: Seq<char>, i: int, j1: int, j2: int)
    requires
        i <= j1 <= j2,
    ensures
        digits_val(s, i, j1) <= digits_val(s, i, j2),
    decreases j2 - j1,
{
    if j1 < j2 {
        lemma_digits_val_monotone(s, i, j1, j2 - 1);
        assert(digits_val(s, i, j2 - 1) * 10 >= digits_val(s, i, j2 - 1)) by (nonlinear_arith);
    }
}

/// Is `c` a decimal digit?
fn is_digit_exec(c: char) -> (r: bool)
    ensures
        r == is_digit(c),
{
    let u = c as u32;
    48 <= u && u <= 57
}

/// What `digit_run_end` reaches, knowing nothing of the stream: it lies in
/// range, everything before it is a digit, and it sits at the stream's end
/// or on a non-digit.
proof fn lemma_run_end_props(s: Seq<char>, i: int)
    requires
        0 <= i <= s.len(),
    ensures
        i <= digit_run_end(s, i) <= s.len(),
        forall|p: int| i <= p < digit_run_end(s, i) ==> is_digit(#[trigger] s[p]),
        digit_run_end(s, i) < s.len() ==> !is_digit(s[digit_run_end(s, i)]),
    decreases s.len() - i,
{
    if i < s.len() && is_digit(s[i]) {
        lemma_run_end_props(s, i + 1);
    }
}

/// Parses one number at `i`, exactly as `parse_num` says.
fn parse_num_exec(s: &Vec<char>, i: usize) -> (r: Option<(u64, usize)>)
    requires
        i <= s@.len(),
    ensures
        match r {
            Some(p) => parse_num(s@, i as int) == Some((p.0, p.1 as int)) && i < p.1 <= s@.len(),
            None => parse_num(s@, i as int) is None,
        },
{
    let n = s.len();
    let mut j = i;
    let mut acc: u64 = 0;
    while j < n && is_digit_exec(s[j])
        invariant
            n == s@.len(),
            i <= j <= n,
            forall|p: int| i <= p < j ==> is_digit(#[trigger] s@[p]),
            acc == digits_val(s@, i as int, j as int),
        decreases n - j,
    {
        let d = (s[j] as u32 - 48) as u64;
        let next = match acc.checked_mul(10) {
            Some(x) => x.checked_add(d),
            None => None,
        };
        match next {
            Some(y) => {
                acc = y;
            },
            None => {
                proof {
                    assert(digits_val(s@, i as int, j + 1) == acc * 10 + d);
                    assert(digits_val(s@, i as int, j + 1) > u64::MAX);
                    lemma_run_end_props(s@, i as int);
                    let e = digit_run_end(s@, i as int);
                    assert(e >= j + 1) by {
                        if e <= j {
                            assert(is_digit(s@[e]));
                        }
                    }
                    lemma_digits_val_monotone(s@, i as int, j + 1, e);
                }
                return None;
            },
        }
        j += 1;
    }
    proof {
        lemma_run_end_is(s@, i as int, j as int);
    }
    if j == i {
        return None;
    }
    if j < n && s[j] == ' ' {
        Some((acc, j + 1))
    } else {
        None
    }
}

/// Reads `l` characters starting at `i` into an owned string.
fn read_chars(s: &Vec<char>, i: usize, l: usize) -> (r: String)
    requires
        i + l <= s@.len(),
    ensures
        r@ == s@.subrange(i as int, i as int + l as int),
{
    let n = s.len();
    let mut r = String::new();
    let mut t: usize = 0;
    proof {
        assert(r@ =~= s@.subrange(i as int, i as int));
    }
    while t < l
        invariant
            n == s@.len(),
            i + l <= n,
            t <= l,
            r@ == s@.subrange(i as int, (i + t) as int),
        decreases l - t,
    {
        string_push(&mut r, s[i + t]);
        proof {
            assert(s@.subrange(i as int, (i + t + 1) as int) =~= s@.subrange(
                i as int,
                (i + t) as int,
            ).push(s@[(i + t) as int]));
        }
        t += 1;
    }
    r
}

/// Parses one encoded entry at `i`, exactly as `parse_entry` says.
fn parse_entry_exec(s: &Vec<char>, i: usize) -> (r: Option<(LibraryEntry, usize)>)
    requires
        i <= s@.len(),
    ensures
        match r {
            Some(p) => parse_entry(s@, i as int) == Some((p.0@, p.1 as int)) && i < p.1
                <= s@.len(),
            None => parse_entry(s@, i as int) is None,
        },
{
    let n = s.len();
    let (nb, i1) = match parse_num_exec(s, i) {
        Some(p) => p,
        None => {
            return None;
        },
    };
    let (tl, i2) = match parse_num_exec(s, i1) {
        Some(p) => p,
        None => {
            return None;
        },
    };
    if tl > (n - i2) as u64 {
        return None;
    }
    let tlu = tl as usize;
    let title = read_chars(s, i2, tlu);
    let i3 = i2 + tlu;
    let (nl, i4) = match parse_num_exec(s, i3) {
        Some(p) => p,
        None => {
            return None;
        },
    };
    if nl > (n - i4) as u64 {
        return None;
    }
    let nlu = nl as usize;
    let name = read_chars(s, i4, nlu);
    let i5 = i4 + nlu;
    let (tag, i6) = match parse_num_exec(s, i5) {
        Some(p) => p,
        None => {
            return None;
        },
    };
    let (pl, i7) = match parse_num_exec(s, i6) {
        Some(p) => p,
        None => {
            return None;
        },
    };
    if pl > (n - i7) as u64 {
        return None;
    }
    let plu = pl as usize;
    let pn = read_chars(s, i7, plu);
    let j = i7 + plu;
    Some(
        (
            LibraryEntry {
                stage: Stage { num_bells: nb },
                title,
                method: CompactMethod {
                    name,
                    full_class: Classification { tag },
                    place_notation: pn,
                },
            },
            j,
        ),
    )
}

/// Decodes a character stream back into a catalog: the stream must parse,
/// and the entries it yields must satisfy the catalog invariant.
pub fn decode(data: &Vec<char>) -> (r: Option<MethodLib>)
    ensures
        match spec_decode(data@) {
            None => r is None,
            Some(es) => if entries_wf(es) {
                r matches Some(lib) && lib@ == es
            } else {
                r is None
            },
        },
{
    let n = data.len();
    let mut entries: Vec<LibraryEntry> = Vec::new();
    let mut i: usize = 0;
    proof {
        assert(entry_views(entries@) =~= Seq::<LibraryEntryV>::empty());
    }
    while i < n
        invariant
            n == data@.len(),
            i <= n,
            match decode_entries(data@, i as int) {
                None => spec_decode(data@) is None,
                Some(rest) => spec_decode(data@) == Some(entry_views(entries@) + rest),
            },
        decreases n - i,
    {
        match parse_entry_exec(data, i) {
            None => {
                return None;
            },
            Some((e, j)) => {
                let ghost ev = entry_views(entries@);
                entries.push(e);
                proof {
                    assert(entry_views(entries@) =~= ev.push(e@));
                    match decode_entries(data@, j as int) {
                        Some(rest2) => {
                            assert(decode_entries(data@, i as int) == Some(seq![e@] + rest2));
                            assert(ev + (seq![e@] + rest2) =~= ev.push(e@) + rest2);
                        },
                        None => {
                            assert(decode_entries(data@, i as int) is None);
                        },
                    }
                }
                i = j;
            },
        }
    }
    proof {
        assert(entry_views(entries@) + Seq::<LibraryEntryV>::empty() =~= entry_views(entries@));
    }
    MethodLib::new(entries)
}

/// Every character of a number's decimal form is a digit, and there is at
/// least one of them.
proof fn lemma_dec_digits_are_digits(n: nat)
    ensures
        forall|p: int| 0 <= p < dec_digits(n).len() ==> is_digit(#[trigger] dec_digits(n)[p]),
        dec_digits(n).len() >= 1,
    decreases n,
{
    if n < 10 {
        assert(dec_digits(n)[0] == digit_char(n));
        assert(is_digit(digit_char(n)));
    } else {
        lemma_dec_digits_are_digits(n / 10);
        assert(is_digit(digit_char(n % 10)));
        assert forall|p: int| 0 <= p < dec_digits(n).len() implies is_digit(
            #[trigger] dec_digits(n)[p],
        ) by {
            if p < dec_digits(n / 10).len() {
                assert(dec_digits(n)[p] == dec_digits(n / 10)[p]);
            } else {
                assert(dec_digits(n)[p] == digit_char(n % 10));
            }
        }
    }
}

/// Reading back the decimal form of `n` yields `n`.
proof fn lemma_digits_val_of_dec(s: Seq<char>, i: int, n: nat)
    requires
        0 <= i,
        i + dec_digits(n).len() <= s.len(),
        s.subrange(i, i + dec_digits(n).len()) == dec_digits(n),
    ensures
        digits_val(s, i, i + dec_digits(n).len()) == n,
    decreases n,
{
    let ghost l = dec_digits(n).len() as int;
    if n < 10 {
        assert(s[i] == s.subrange(i, i + 1)[0]);
        assert(digit_val(digit_char(n)) == n);
        assert(digits_val(s, i, i + 1) == digits_val(s, i, i) * 10 + digit_val(s[i]));
    } else {
        let ghost l2 = dec_digits(n / 10).len() as int;
        assert(l == l2 + 1);
        assert(s.subrange(i, i + l2) =~= dec_digits(n / 10)) by {
            assert forall|p: int| 0 <= p < l2 implies #[trigger] s.subrange(i, i + l2)[p]
                == dec_digits(n / 10)[p] by {
                assert(s.subrange(i, i + l2)[p] == s[i + p]);
                assert(s[i + p] == s.subrange(i, i + l)[p]);
                assert(dec_digits(n)[p] == dec_digits(n / 10)[p]);
            }
        }
        lemma_digits_val_of_dec(s, i, n / 10);
        assert(s[i + l - 1] == s.subrange(i, i + l)[l - 1]);
        assert(dec_digits(n)[l - 1] == digit_char(n % 10));
        assert(digit_val(digit_char(n % 10)) == n % 10);
        assert(digits_val(s, i, i + l) == digits_val(s, i, i + l - 1) * 10 + digit_val(
            s[i + l - 1],
        ));
        assert(n / 10 * 10 + n % 10 == n);
    }
}

/// A number written at `i` parses back to itself, consuming its digits and
/// the trailing space.
proof fn lemma_parse_num_at(s: Seq<char>, i: int, n: u64)
    requires
        0 <= i,
        i + dec_digits(n as nat).len() + 1 <= s.len(),
        s.subrange(i, i + dec_digits(n as nat).len() + 1) == enc_num(n as nat),
    ensures
        parse_num(s, i) == Some((n, i + dec_digits(n as nat).len() + 1)),
{
    let ghost dd = dec_digits(n as nat);
    let ghost l = dd.len() as int;
    lemma_dec_digits_are_digits(n as nat);
    assert forall|p: int| i <= p < i + l implies is_digit(#[trigger] s[p]) by {
        assert(s[p] == s.subrange(i, i + l + 1)[p - i]);
        assert(enc_num(n as nat)[p - i] == dd[p - i]);
    }
    assert(s[i + l] == s.subrange(i, i + l + 1)[l]);
    assert(enc_num(n as nat)[l] == ' ');
    assert(!is_digit(' '));
    lemma_run_end_is(s, i, i + l);
    assert(s.subrange(i, i + l) =~= dd) by {
        assert forall|p: int| 0 <= p < l implies s.subrange(i, i + l)[p] == dd[p] by {
            assert(s.subrange(i, i + l)[p] == s[i + p]);
            assert(s[i + p] == s.subrange(i, i + l + 1)[p]);
            assert(enc_num(n as nat)[p] == dd[p]);
        }
    }
    lemma_digits_val_of_dec(s, i, n as nat);
}

/// Do this entry's strings fit the sizes the stream can carry?
pub open spec fn entry_bounded(e: LibraryEntryV) -> bool {
    &&& e.title.len() <= u64::MAX
    &&& e.method.name.len() <= u64::MAX
    &&& e.method.place_notation.len() <= u64::MAX
}

/// An entry written at `i` parses back to itself.
#[verifier::rlimit(100)]
proof fn lemma_parse_entry_at(s: Seq<char>, i: int, e: LibraryEntryV)
    requires
        0 <= i,
        entry_bounded(e),
        i + enc_entry(e).len() <= s.len(),
        s.subrange(i, i + enc_entry(e).len()) == enc_entry(e),
    ensures
        parse_entry(s, i) == Some((e, i + enc_entry(e).len())),
{
    let ghost ee = enc_entry(e);
    let ghost a1 = enc_num(e.stage.num_bells as nat);
    let ghost a2 = enc_num(e.title.len());
    let ghost t = e.title;
    let ghost a3 = enc_num(e.method.name.len());
    let ghost nm = e.method.name;
    let ghost a4 = enc_num(e.method.full_class.tag as nat);
    let ghost a5 = enc_num(e.method.place_notation.len());
    let ghost pnn = e.method.place_notation;
    assert(ee == a1 + a2 + t + a3 + nm + a4 + a5 + pnn);
    let ghost o1 = a1.len() as int;
    let ghost o2 = o1 + a2.len();
    let ghost o3 = o2 + t.len();
    let ghost o4 = o3 + a3.len();
    let ghost o5 = o4 + nm.len();
    let ghost o6 = o5 + a4.len();
    let ghost o7 = o6 + a5.len();
    let ghost o8 = o7 + pnn.len();
    assert(ee.len() == o8);
    assert forall|q: int| 0 <= q < o8 implies s[i + q] == #[trigger] ee[q] by {
        assert(s[i + q] == s.subrange(i, i + o8)[q]);
    }
    assert(s.subrange(i, i + o1) =~= a1) by {
        assert forall|q: int| 0 <= q < a1.len() implies #[trigger] s.subrange(i, i + o1)[q]
            == a1[q] by {
            assert(s[i + q] == ee[q]);
            assert(ee[q] == a1[q]);
        }
    }
    lemma_parse_num_at(s, i, e.stage.num_bells);
    assert(s.subrange(i + o1, i + o2) =~= a2) by {
        assert forall|q: int| 0 <= q < a2.len() implies #[trigger] s.subrange(
            i + o1,
            i + o2,
        )[q] == a2[q] by {
            assert(s[i + o1 + q] == ee[o1 + q]);
            assert(ee[o1 + q] == a2[q]);
        }
    }
    assert((e.title.len() as u64) as nat == e.title.len());
    lemma_parse_num_at(s, i + o1, e.title.len() as u64);
    assert(s.subrange(i + o2, i + o3) =~= t) by {
        assert forall|q: int| 0 <= q < t.len() implies #[trigger] s.subrange(
            i + o2,
            i + o3,
        )[q] == t[q] by {
            assert(s[i + o2 + q] == ee[o2 + q]);
            assert(ee[o2 + q] == t[q]);
        }
    }
    assert(s.subrange(i + o3, i + o4) =~= a3) by {
        assert forall|q: int| 0 <= q < a3.len() implies #[trigger] s.subrange(
            i + o3,
            i + o4,
        )[q] == a3[q] by {
            assert(s[i + o3 + q] == ee[o3 + q]);
            assert(ee[o3 + q] == a3[q]);
        }
    }
    lemma_parse_num_at(s, i + o3, e.method.name.len() as u64);
    assert(s.subrange(i + o4, i + o5) =~= nm) by {
        assert forall|q: int| 0 <= q < nm.len() implies #[trigger] s.subrange(
            i + o4,
            i + o5,
        )[q] == nm[q] by {
            assert(s[i + o4 + q] == ee[o4 + q]);
            assert(ee[o4 + q] == nm[q]);
        }
    }
    assert(s.subrange(i + o5, i + o6) =~= a4) by {
        assert forall|q: int| 0 <= q < a4.len() implies #[trigger] s.subrange(
            i + o5,
            i + o6,
        )[q] == a4[q] by {
            assert(s[i + o5 + q] == ee[o5 + q]);
            assert(ee[o5 + q] == a4[q]);
        }
    }
    lemma_parse_num_at(s, i + o5, e.method.full_class.tag);
    assert(s.subrange(i + o6, i + o7) =~= a5) by {
        assert forall|q: int| 0 <= q < a5.len() implies #[trigger] s.subrange(
            i + o6,
            i + o7,
        )[q] == a5[q] by {
            assert(s[i + o6 + q] == ee[o6 + q]);
            assert(ee[o6 + q] == a5[q]);
        }
    }
    lemma_parse_num_at(s, i + o6, e.method.place_notation.len() as u64);
    assert(s.subrange(i + o7, i + o8) =~= pnn) by {
        assert forall|q: int| 0 <= q < pnn.len() implies #[trigger] s.subrange(
            i + o7,
            i + o8,
        )[q] == pnn[q] by {
            assert(s[i + o7 + q] == ee[o7 + q]);
            assert(ee[o7 + q] == pnn[q]);
        }
    }
    assert(parse_entry(s, i) == Some((e, i + o8)));
}

/// A whole encoded catalog, written from `i` to the end of the stream,
/// parses back to exactly its entries.
proof fn lemma_decode_of_enc(s: Seq<char>, i: int, es: Seq<LibraryEntryV>)
    requires
        0 <= i <= s.len(),
        s.subrange(i, s.len() as int) == enc_lib(es),
        forall|p: int| 0 <= p < es.len() ==> entry_bounded(#[trigger] es[p]),
    ensures
        decode_entries(s, i) == Some(es),
    decreases es.len(),
{
    if es.len() == 0 {
        assert(s.subrange(i, s.len() as int).len() == 0);
        assert(i == s.len());
    } else {
        let ghost e0 = es[0];
        let ghost ee = enc_entry(e0);
        let ghost rest = enc_lib(es.drop_first());
        assert(enc_lib(es) == ee + rest);
        assert(s.len() - i == ee.len() + rest.len());
        assert(s.subrange(i, i + ee.len()) =~= ee) by {
            assert forall|q: int| 0 <= q < ee.len() implies s.subrange(i, i + ee.len() as int)[q]
                == ee[q] by {
                assert(s.subrange(i, i + ee.len() as int)[q] == s[i + q]);
                assert(s[i + q] == s.subrange(i, s.len() as int)[q]);
            }
        }
        assert(entry_bounded(es[0]));
        lemma_parse_entry_at(s, i, e0);
        let ghost j = i + ee.len() as int;
        assert(dec_digits(e0.stage.num_bells as nat).len() >= 1);
        assert(ee.len() >= 1);
        assert(s.subrange(j, s.len() as int) =~= rest) by {
            assert forall|q: int| 0 <= q < rest.len() implies s.subrange(j, s.len() as int)[q]
                == rest[q] by {
                assert(s.subrange(j, s.len() as int)[q] == s[j + q]);
                assert(s[j + q] == s.subrange(i, s.len() as int)[ee.len() + q]);
                assert(enc_lib(es)[ee.len() + q] == rest[q]);
            }
        }
        assert forall|p: int| 0 <= p < es.drop_first().len() implies entry_bounded(
            #[trigger] es.drop_first()[p],
        ) by {
            assert(es.drop_first()[p] == es[p + 1]);
        }
        lemma_decode_of_enc(s, j, es.drop_first());
        assert(seq![e0] + es.drop_first() =~= es);
    }
}

/// Law: the codec round-trips.  Decoding the encoding of any entry
/// sequence whose strings fit the stream yields exactly that sequence, so
/// every (stage, title, name, classification, place-notation) tuple of a
/// catalog survives `decode(encode(_))`.
pub proof fn lemma_round_trip(es: Seq<LibraryEntryV>)
    requires
        forall|p: int| 0 <= p < es.len() ==> entry_bounded(#[trigger] es[p]),
    ensures
        spec_decode(enc_lib(es)) == Some(es),
{
    let s = enc_lib(es);
    assert(s.subrange(0, s.len() as int) =~= s);
    lemma_decode_of_enc(s, 0, es);
}


} // verus!
