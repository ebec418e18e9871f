//! Text as sequences of characters: the operations on identifiers, paths,
//! command lines and tool output that the rest of the crate is built from.
//!
//! Every function is specified over the `Seq<char>` view of its arguments.

use vstd::prelude::*;

verus! {

/// `String::push` appends the character to the end of the string.
pub assume_specification[ String::push ](s: &mut String, c: char)
    ensures
        final(s)@ == old(s)@.push(c),
;

/// `str::eq`, which `==` on string slices calls, holds of two slices exactly
/// when they hold the same characters.
pub assume_specification[ <str as PartialEq>::eq ](a: &str, b: &str) -> (equal: bool)
    ensures
        equal == (a@ == b@),
;

/// The views of a sequence of strings.
pub open spec fn views(v: Seq<String>) -> Seq<Seq<char>> {
    Seq::new(v.len(), |i: int| v[i]@)
}

/// `pat` occurs in `s` at index `i`.
pub open spec fn occurs_at(s: Seq<char>, pat: Seq<char>, i: int) -> bool {
    0 <= i && i + pat.len() <= s.len() && s.subrange(i, i + pat.len()) == pat
}

/// `pat` occurs somewhere in `s`.
pub open spec fn occurs_in(s: Seq<char>, pat: Seq<char>) -> bool {
    exists|i: int| occurs_at(s, pat, i)
}

/// `s` with every occurrence of `pat` from index `i` on replaced by `rep`,
/// occurrences taken left to right without overlap; the part before `i` is
/// left out.
pub open spec fn replaced_from(s: Seq<char>, pat: Seq<char>, rep: Seq<char>, i: int) -> Seq<char>
    decreases s.len() - i,
{
    if i < 0 || i >= s.len() || pat.len() == 0 {
        Seq::empty()
    } else if occurs_at(s, pat, i) {
        rep + replaced_from(s, pat, rep, i + pat.len())
    } else {
        seq![s[i]] + replaced_from(s, pat, rep, i + 1)
    }
}

/// `s` with every occurrence of `pat` replaced by `rep`, occurrences taken
/// left to right without overlap. An empty `pat` occurs nowhere: `s` stays
/// as it is.
pub open spec fn replaced(s: Seq<char>, pat: Seq<char>, rep: Seq<char>) -> Seq<char> {
    if pat.len() == 0 {
        s
    } else {
        replaced_from(s, pat, rep, 0)
    }
}

/// The pieces of `s` from `start` on that lie between occurrences of `sep`,
/// where no occurrence begins in `start..i`.
pub open spec fn pieces_from(s: Seq<char>, sep: Seq<char>, start: int, i: int) -> Seq<Seq<char>>
    decreases s.len() - i,
{
    if i < start || start < 0 || sep.len() == 0 || i + sep.len() > s.len() {
        seq![s.subrange(start, s.len() as int)]
    } else if occurs_at(s, sep, i) {
        seq![s.subrange(start, i)] + pieces_from(s, sep, i + sep.len(), i + sep.len())
    } else {
        pieces_from(s, sep, start, i + 1)
    }
}

/// The pieces of `s` between occurrences of `sep`: one more piece than there
/// are occurrences, empty pieces included. An empty `sep` occurs nowhere:
/// `s` is the one piece.
pub open spec fn pieces(s: Seq<char>, sep: Seq<char>) -> Seq<Seq<char>> {
    pieces_from(s, sep, 0, 0)
}

/// The concatenation of `parts` with `sep` between neighbours.
pub open spec fn joined(parts: Seq<Seq<char>>, sep: Seq<char>) -> Seq<char>
    decreases parts.len(),
{
    if parts.len() == 0 {
        Seq::empty()
    } else if parts.len() == 1 {
        parts[0]
    } else {
        joined(parts.drop_last(), sep) + sep + parts.last()
    }
}

/// The characters of `s`, in order.
pub fn to_chars(s: &str) -> (v: Vec<char>)
    ensures
        v@ == s@,
{
    let mut v: Vec<char> = Vec::new();
    for c in it: s.chars()
        invariant
            v@ == it.seq().take(it.index()),
            it.seq() == s@,
    {
        v.push(c);
    }
    v
}

/// The string made of the characters `v[from..to]`.
pub(crate) fn from_chars(v: &Vec<char>, from: usize, to: usize) -> (s: String)
    requires
        from <= to <= v.len(),
    ensures
        s@ == v@.subrange(from as int, to as int),
{
    let mut s = String::new();
    let mut i: usize = from;
    while i < to
        invariant
            from <= i <= to <= v.len(),
            s@ == v@.subrange(from as int, i as int),
        decreases to - i,
    {
        s.push(v[i]);
        assert(v@.subrange(from as int, i + 1) == v@.subrange(from as int, i as int).push(v@[i as int]));
        i += 1;
    }
    s
}

/// The string made of all the characters of `v`.
pub fn string_of(v: &Vec<char>) -> (s: String)
    ensures
        s@ == v@,
{
    let s = from_chars(v, 0, v.len());
    assert(v@.subrange(0, v.len() as int) == v@);
    s
}

/// Whether `pat` occurs in `s` at index `i`.
pub(crate) fn has_at(s: &Vec<char>, pat: &Vec<char>, i: usize) -> (b: bool)
    ensures
        b == occurs_at(s@, pat@, i as int),
{
    if pat.len() > s.len() || i > s.len() - pat.len() {
        return false;
    }
    let mut k: usize = 0;
    while k < pat.len()
        invariant
            k <= pat.len(),
            i + pat.len() <= s.len(),
            forall|j: int| 0 <= j < k ==> s@[i + j] == pat@[j],
        decreases pat.len() - k,
    {
        if s[i + k] != pat[k] {
            assert(s@.subrange(i as int, i + pat.len())[k as int] != pat@[k as int]);
            return false;
        }
        k += 1;
    }
    assert(s@.subrange(i as int, i + pat.len()) =~= pat@);
    true
}

/// Appends the characters of `part` to `out`.
pub(crate) fn append(out: &mut Vec<char>, part: &Vec<char>)
    ensures
        final(out)@ == old(out)@ + part@,
{
    let mut k: usize = 0;
    while k < part.len()
        invariant
            k <= part.len(),
            out@ == old(out)@ + part@.subrange(0, k as int),
        decreases part.len() - k,
    {
        out.push(part[k]);
        assert(part@.subrange(0, k + 1) == part@.subrange(0, k as int).push(part@[k as int]));
        k += 1;
    }
    assert(part@.subrange(0, part.len() as int) == part@);
}

/// `s` with every occurrence of `pat` replaced by `rep`, as characters.
pub(crate) fn replace_chars(s: &Vec<char>, pat: &Vec<char>, rep: &Vec<char>) -> (out: Vec<char>)
    ensures
        out@ == replaced(s@, pat@, rep@),
{
    let mut out: Vec<char> = Vec::new();
    if pat.len() == 0 {
        append(&mut out, s);
        assert(out@ =~= s@);
        return out;
    }
    let mut i: usize = 0;
    while i < s.len()
        invariant
            i <= s.len(),
            pat@.len() > 0,
            out@ + replaced_from(s@, pat@, rep@, i as int) == replaced(s@, pat@, rep@),
        decreases s.len() - i,
    {
        let ghost before = out@;
        if has_at(s, pat, i) {
            append(&mut out, rep);
            assert(out@ + replaced_from(s@, pat@, rep@, i + pat@.len()) =~= before + replaced_from(
                s@,
                pat@,
                rep@,
                i as int,
            ));
            i += pat.len();
        } else {
            out.push(s[i]);
            assert(out@ + replaced_from(s@, pat@, rep@, i + 1) =~= before + replaced_from(
                s@,
                pat@,
                rep@,
                i as int,
            ));
            i += 1;
        }
    }
    assert(out@ + Seq::<char>::empty() =~= out@);
    out
}

/// `s` with every occurrence of `pat` replaced by `rep`.
pub fn replace(s: &str, pat: &str, rep: &str) -> (out: String)
    ensures
        out@ == replaced(s@, pat@, rep@),
{
    let out = replace_chars(&to_chars(s), &to_chars(pat), &to_chars(rep));
    string_of(&out)
}

/// The pieces of `s` between occurrences of `sep`.
pub fn split(s: &str, sep: &str) -> (out: Vec<String>)
    ensures
        views(out@) == pieces(s@, sep@),
{
    let s = to_chars(s);
    let sep = to_chars(sep);
    let mut out: Vec<String> = Vec::new();
    if sep.len() == 0 {
        out.push(from_chars(&s, 0, s.len()));
        assert(views(out@) =~= pieces(s@, sep@));
        return out;
    }
    let mut start: usize = 0;
    let mut i: usize = 0;
    while sep.len() <= s.len() && i <= s.len() - sep.len()
        invariant
            start <= i <= s.len(),
            sep@.len() > 0,
            views(out@) + pieces_from(s@, sep@, start as int, i as int) == pieces(s@, sep@),
        decreases s.len() - i,
    {
        let ghost before = views(out@);
        if has_at(&s, &sep, i) {
            out.push(from_chars(&s, start, i));
            assert(views(out@) =~= before.push(s@.subrange(start as int, i as int)));
            assert(views(out@) + pieces_from(s@, sep@, i + sep@.len(), i + sep@.len()) =~= before
                + pieces_from(s@, sep@, start as int, i as int));
            i += sep.len();
            start = i;
        } else {
            i += 1;
        }
    }
    let ghost before = views(out@);
    out.push(from_chars(&s, start, s.len()));
    assert(views(out@) =~= before.push(s@.subrange(start as int, s@.len() as int)));
    assert(pieces_from(s@, sep@, start as int, i as int) =~= seq![
        s@.subrange(start as int, s@.len() as int),
    ]);
    assert(views(out@) =~= before + pieces_from(s@, sep@, start as int, i as int));
    out
}

/// The concatenation of `parts` with `sep` between neighbours.
pub fn join(parts: &Vec<String>, sep: &str) -> (out: String)
    ensures
        out@ == joined(views(parts@), sep@),
{
    let sep = to_chars(sep);
    let mut out: Vec<char> = Vec::new();
    let mut k: usize = 0;
    while k < parts.len()
        invariant
            k <= parts.len(),
            out@ == joined(views(parts@).take(k as int), sep@),
        decreases parts.len() - k,
    {
        let ghost done = views(parts@).take(k as int);
        let ghost next = views(parts@).take(k + 1);
        assert(next.drop_last() =~= done);
        assert(next.last() == parts@[k as int]@);
        if k > 0 {
            append(&mut out, &sep);
        }
        let part = to_chars(parts[k].as_str());
        append(&mut out, &part);
        assert(out@ =~= joined(next, sep@)) by {
            if k == 0 {
                assert(done.len() == 0);
            }
        }
        k += 1;
    }
    assert(views(parts@).take(parts@.len() as int) =~= views(parts@));
    string_of(&out)
}

/// Whether `pat` occurs somewhere in `s`.
pub(crate) fn contains(s: &Vec<char>, pat: &Vec<char>) -> (b: bool)
    ensures
        b == occurs_in(s@, pat@),
{
    if pat.len() > s.len() {
        assert(forall|i: int| !occurs_at(s@, pat@, i));
        return false;
    }
    let last: usize = s.len() - pat.len();
    let mut i: usize = 0;
    while i < last
        invariant
            last == s.len() - pat.len(),
            i <= last,
            forall|j: int| 0 <= j < i ==> !occurs_at(s@, pat@, j),
        decreases last - i,
    {
        if has_at(s, pat, i) {
            return true;
        }
        i += 1;
    }
    let b = has_at(s, pat, last);
    assert(!b ==> forall|j: int| !occurs_at(s@, pat@, j));
    b
}

/// Whether `s` begins with `pat`.
pub(crate) fn starts_with(s: &Vec<char>, pat: &Vec<char>) -> (b: bool)
    ensures
        b == pat@.is_prefix_of(s@),
{
    let b = has_at(s, pat, 0);
    assert(b == pat@.is_prefix_of(s@)) by {
        if pat@.len() <= s@.len() {
            assert(s@.subrange(0, pat@.len() as int) == pat@ <==> pat@.is_prefix_of(s@));
        }
    }
    b
}

/// Whether `s` ends with `pat`.
pub(crate) fn ends_with(s: &Vec<char>, pat: &Vec<char>) -> (b: bool)
    ensures
        b == pat@.is_suffix_of(s@),
{
    if pat.len() > s.len() {
        return false;
    }
    let b = has_at(s, pat, s.len() - pat.len());
    assert(b == pat@.is_suffix_of(s@));
    b
}

/// The character that writes the digit `d`.
pub open spec fn digit_char(d: int) -> char {
    if d == 0 {
        '0'
    } else if d == 1 {
        '1'
    } else if d == 2 {
        '2'
    } else if d == 3 {
        '3'
    } else if d == 4 {
        '4'
    } else if d == 5 {
        '5'
    } else if d == 6 {
        '6'
    } else if d == 7 {
        '7'
    } else if d == 8 {
        '8'
    } else {
        '9'
    }
}

/// `c` is one of the ten ASCII digits.
pub open spec fn is_digit(c: char) -> bool {
    '0' <= c <= '9'
}

/// The digit that the ASCII digit `c` writes.
pub open spec fn digit_value(c: char) -> int {
    c as int - '0' as int
}

/// Every character of `s` is an ASCII digit.
pub open spec fn all_digits(s: Seq<char>) -> bool {
    forall|i: int| 0 <= i < s.len() ==> is_digit(#[trigger] s[i])
}

/// The decimal notation of `n`, without leading zeros.
pub open spec fn decimal(n: nat) -> Seq<char>
    decreases n,
{
    if n < 10 {
        seq![digit_char(n as int)]
    } else {
        decimal(n / 10).push(digit_char((n % 10) as int))
    }
}

/// The number that the digits `s` write in base ten, leading zeros allowed;
/// zero for no digits.
pub open spec fn decimal_value(s: Seq<char>) -> nat
    decreases s.len(),
{
    if s.len() == 0 {
        0
    } else {
        (decimal_value(s.drop_last()) * 10 + digit_value(s.last())) as nat
    }
}

fn digit_of(d: u64) -> (c: char)
    requires
        d < 10,
    ensures
        c == digit_char(d as int),
{
    if d == 0 {
        '0'
    } else if d == 1 {
        '1'
    } else if d == 2 {
        '2'
    } else if d == 3 {
        '3'
    } else if d == 4 {
        '4'
    } else if d == 5 {
        '5'
    } else if d == 6 {
        '6'
    } else if d == 7 {
        '7'
    } else if d == 8 {
        '8'
    } else {
        '9'
    }
}

/// Appends the decimal notation of `n` to `out`.
pub(crate) fn push_decimal(out: &mut Vec<char>, n: u64)
    ensures
        final(out)@ == old(out)@ + decimal(n as nat),
    decreases n,
{
    if n >= 10 {
        push_decimal(out, n / 10);
    }
    out.push(digit_of(n % 10));
    assert(out@ =~= old(out)@ + decimal(n as nat));
}

/// The decimal notation of `n`.
pub fn decimal_string(n: u64) -> (s: String)
    ensures
        s@ == decimal(n as nat),
{
    let mut out: Vec<char> = Vec::new();
    push_decimal(&mut out, n);
    assert(out@ =~= decimal(n as nat));
    string_of(&out)
}

/// Whether `c` is an ASCII digit.
pub(crate) fn is_ascii_digit(c: char) -> (b: bool)
    ensures
        b == is_digit(c),
{
    '0' <= c && c <= '9'
}

/// A prefix of a run of digits writes no larger a number than the run.
pub proof fn lemma_decimal_value_prefix(s: Seq<char>, k: int)
    requires
        all_digits(s),
        0 <= k <= s.len(),
    ensures
        decimal_value(s.take(k)) <= decimal_value(s),
    decreases s.len() - k,
{
    if k < s.len() {
        let t = s.take(k + 1);
        assert(t.drop_last() =~= s.take(k));
        assert(is_digit(t.last()));
        assert(decimal_value(t) >= decimal_value(s.take(k))) by (nonlinear_arith)
            requires
                decimal_value(t) == decimal_value(s.take(k)) * 10 + digit_value(t.last()),
                digit_value(t.last()) >= 0,
        ;
        lemma_decimal_value_prefix(s, k + 1);
    } else {
        assert(s.take(k) =~= s);
    }
}

/// The number that the digits `s[from..to]` write, if it fits in an `i64`.
pub(crate) fn parse_decimal(s: &Vec<char>, from: usize, to: usize) -> (r: Option<i64>)
    requires
        from <= to <= s.len(),
        all_digits(s@.subrange(from as int, to as int)),
    ensures
        r is Some <==> decimal_value(s@.subrange(from as int, to as int)) <= i64::MAX,
        r matches Some(n) ==> n == decimal_value(s@.subrange(from as int, to as int)),
{
    let ghost run = s@.subrange(from as int, to as int);
    let mut acc: i64 = 0;
    let mut i: usize = from;
    while i < to
        invariant
            from <= i <= to <= s.len(),
            run == s@.subrange(from as int, to as int),
            all_digits(run),
            0 <= acc,
            acc == decimal_value(run.take(i - from)),
        decreases to - i,
    {
        let c = s[i];
        assert(c == run[i - from]);
        assert(is_digit(c));
        let d: i64 = (c as u8 - '0' as u8) as i64;
        let ghost next = run.take(i - from + 1);
        assert(next.drop_last() =~= run.take(i - from));
        assert(next.last() == c);
        assert(decimal_value(next) == acc * 10 + d);
        if acc > (i64::MAX - d) / 10 {
            proof {
                lemma_decimal_value_prefix(run, i - from + 1);
            }
            return None;
        }
        acc = acc * 10 + d;
        i += 1;
    }
    assert(run.take(to - from) =~= run);
    Some(acc)
}

/// The pieces that are not empty, in order.
pub open spec fn non_empty(parts: Seq<Seq<char>>) -> Seq<Seq<char>>
    decreases parts.len(),
{
    if parts.len() == 0 {
        Seq::empty()
    } else if parts.last().len() == 0 {
        non_empty(parts.drop_last())
    } else {
        non_empty(parts.drop_last()).push(parts.last())
    }
}

/// What stands in `s` before the last `c`; `None` where `s` holds no `c`.
pub open spec fn before_last(s: Seq<char>, c: char) -> Option<Seq<char>>
    decreases s.len(),
{
    if s.len() == 0 {
        None
    } else if s.last() == c {
        Some(s.drop_last())
    } else {
        before_last(s.drop_last(), c)
    }
}

/// Splitting gives at least one piece.
pub proof fn lemma_pieces_nonempty(s: Seq<char>, sep: Seq<char>, start: int, i: int)
    ensures
        pieces_from(s, sep, start, i).len() >= 1,
    decreases s.len() - i,
{
    if i < start || start < 0 || sep.len() == 0 || i + sep.len() > s.len() {
    } else if occurs_at(s, sep, i) {
        lemma_pieces_nonempty(s, sep, i + sep.len(), i + sep.len());
    } else {
        lemma_pieces_nonempty(s, sep, start, i + 1);
    }
}

/// The strings of `parts` that are not empty, in order.
pub(crate) fn keep_non_empty(parts: &Vec<String>) -> (kept: Vec<String>)
    ensures
        views(kept@) == non_empty(views(parts@)),
{
    let mut kept: Vec<String> = Vec::new();
    let mut k: usize = 0;
    while k < parts.len()
        invariant
            k <= parts.len(),
            views(kept@) == non_empty(views(parts@).take(k as int)),
        decreases parts.len() - k,
    {
        let ghost before = views(kept@);
        let ghost next = views(parts@).take(k + 1);
        assert(next.drop_last() =~= views(parts@).take(k as int));
        assert(next.last() == parts@[k as int]@);
        if !parts[k].as_str().is_empty() {
            kept.push(parts[k].clone());
            assert(views(kept@) =~= before.push(parts@[k as int]@));
        }
        k += 1;
    }
    assert(views(parts@).take(parts@.len() as int) =~= views(parts@));
    kept
}

/// What stands in `s` before the last `c`, as characters.
pub(crate) fn strip_from_last(s: &Vec<char>, c: char) -> (head: Option<Vec<char>>)
    ensures
        (match head {
            Some(h) => Some(h@),
            None => None,
        }) == before_last(s@, c),
{
    let mut end: usize = s.len();
    assert(s@.take(end as int) =~= s@);
    while end > 0 && s[end - 1] != c
        invariant
            end <= s.len(),
            before_last(s@.take(end as int), c) == before_last(s@, c),
        decreases end,
    {
        assert(s@.take(end as int).drop_last() =~= s@.take(end - 1));
        end -= 1;
    }
    if end == 0 {
        assert(s@.take(0).len() == 0);
        None
    } else {
        assert(s@.take(end as int).drop_last() =~= s@.take(end - 1));
        let mut head: Vec<char> = Vec::new();
        let mut k: usize = 0;
        while k < end - 1
            invariant
                k <= end - 1,
                end <= s.len(),
                head@ == s@.take(k as int),
            decreases end - 1 - k,
        {
            head.push(s[k]);
            assert(s@.take(k + 1) =~= s@.take(k as int).push(s@[k as int]));
            k += 1;
        }
        Some(head)
    }
}

} // verus!
