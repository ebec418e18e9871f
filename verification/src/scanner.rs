//! The symbols of a benchmark binary on which probes are set.
//!
//! The symbol lister prints one symbol a line: an address in hexadecimal, a
//! letter for the kind of symbol, and the name. The probes go on the local
//! text symbols of the harness's iteration loop: those whose name holds
//! `Bencher`, then one to four characters, then `iter`.

use vstd::prelude::*;
use crate::command::{CommandLine, CommandLineView};
use crate::text::{from_chars, has_at, occurs_at, to_chars, views};

verus! {

/// `c` is white space.
pub open spec fn is_space(c: char) -> bool {
    ||| '\u{9}' <= c <= '\u{d}'
    ||| c == ' '
    ||| c == '\u{85}'
    ||| c == '\u{a0}'
    ||| c == '\u{1680}'
    ||| '\u{2000}' <= c <= '\u{200a}'
    ||| c == '\u{2028}'
    ||| c == '\u{2029}'
    ||| c == '\u{202f}'
    ||| c == '\u{205f}'
    ||| c == '\u{3000}'
}

/// `c` is a hexadecimal digit.
pub open spec fn is_hex(c: char) -> bool {
    '0' <= c <= '9' || 'a' <= c <= 'f' || 'A' <= c <= 'F'
}

/// A line begins at `p`.
pub open spec fn is_line_start(text: Seq<char>, p: int) -> bool {
    p == 0 || (0 < p <= text.len() && text[p - 1] == '\n')
}

/// Where the hexadecimal digits that begin at `p` end.
pub open spec fn hex_end(text: Seq<char>, p: int) -> int
    decreases text.len() - p,
{
    if 0 <= p < text.len() && is_hex(text[p]) {
        hex_end(text, p + 1)
    } else {
        p
    }
}

/// Where the line ends in which `p` lies: at the next line feed, or at the
/// end of the text.
pub open spec fn line_end(text: Seq<char>, p: int) -> int
    decreases text.len() - p,
{
    if 0 <= p < text.len() && text[p] != '\n' {
        line_end(text, p + 1)
    } else {
        p
    }
}

/// The word that marks the harness's measuring type.
pub open spec fn bencher_word() -> Seq<char> {
    seq!['B', 'e', 'n', 'c', 'h', 'e', 'r']
}

/// The word that marks an iteration function.
pub open spec fn iter_word() -> Seq<char> {
    seq!['i', 't', 'e', 'r']
}

/// In `name`, `Bencher` stands at `i` and `iter` stands `gap` characters
/// behind it.
pub open spec fn iteration_mark(name: Seq<char>, i: int, gap: int) -> bool {
    occurs_at(name, bencher_word(), i) && occurs_at(name, iter_word(), i + 7 + gap)
}

/// `name` is the name of an iteration function of the harness: it holds
/// `Bencher`, then one to four characters, then `iter`.
pub open spec fn names_iteration(name: Seq<char>) -> bool {
    exists|i: int, gap: int| 1 <= gap <= 4 && iteration_mark(name, i, gap)
}

/// The symbol whose entry begins at `p`, as the bounds of its name: the
/// entry is the address, a white space, the letter `t`, a white space, and
/// the name up to the end of the line, and the name is one of an iteration
/// function.
pub open spec fn symbol_at(text: Seq<char>, p: int) -> Option<(int, int)> {
    let q = hex_end(text, p);
    if 0 <= q && q + 2 < text.len() && is_space(text[q]) && text[q + 1] == 't' && is_space(
        text[q + 2],
    ) {
        let e = line_end(text, q + 3);
        if names_iteration(text.subrange(q + 3, e)) {
            Some((q + 3, e))
        } else {
            None
        }
    } else {
        None
    }
}

/// The names of the iteration functions among the symbols listed in `text`
/// from `p` on, in order. An entry begins where a line begins; the entry
/// after it is looked for behind its end.
pub open spec fn symbols_from(text: Seq<char>, p: int) -> Seq<Seq<char>>
    decreases text.len() - p,
{
    if p < 0 || p >= text.len() {
        Seq::empty()
    } else if is_line_start(text, p) {
        match symbol_at(text, p) {
            Some((g, e)) => if p < g <= e <= text.len() {
                seq![text.subrange(g, e)] + symbols_from(text, e)
            } else {
                Seq::empty()
            },
            None => symbols_from(text, p + 1),
        }
    } else {
        symbols_from(text, p + 1)
    }
}

/// Whether `c` is white space.
pub fn is_whitespace(c: char) -> (b: bool)
    ensures
        b == is_space(c),
{
    ('\u{9}' <= c && c <= '\u{d}') || c == ' ' || c == '\u{85}' || c == '\u{a0}' || c
        == '\u{1680}' || ('\u{2000}' <= c && c <= '\u{200a}') || c == '\u{2028}' || c
        == '\u{2029}' || c == '\u{202f}' || c == '\u{205f}' || c == '\u{3000}'
}

/// Whether `c` is a hexadecimal digit.
pub fn is_hex_digit(c: char) -> (b: bool)
    ensures
        b == is_hex(c),
{
    ('0' <= c && c <= '9') || ('a' <= c && c <= 'f') || ('A' <= c && c <= 'F')
}

fn skip_hex(text: &Vec<char>, p: usize) -> (q: usize)
    requires
        p <= text.len(),
    ensures
        p <= q <= text.len(),
        q == hex_end(text@, p as int),
{
    let mut q: usize = p;
    while q < text.len() && is_hex_digit(text[q])
        invariant
            p <= q <= text.len(),
            hex_end(text@, q as int) == hex_end(text@, p as int),
        decreases text.len() - q,
    {
        q += 1;
    }
    q
}

fn skip_line(text: &Vec<char>, p: usize) -> (e: usize)
    requires
        p <= text.len(),
    ensures
        p <= e <= text.len(),
        e == line_end(text@, p as int),
{
    let mut e: usize = p;
    while e < text.len() && text[e] != '\n'
        invariant
            p <= e <= text.len(),
            line_end(text@, e as int) == line_end(text@, p as int),
        decreases text.len() - e,
    {
        e += 1;
    }
    e
}

/// Whether `name` is the name of an iteration function of the harness.
pub fn is_iteration_name(name: &Vec<char>) -> (b: bool)
    ensures
        b == names_iteration(name@),
{
    proof {
        reveal_strlit("Bencher");
        reveal_strlit("iter");
    }
    let bencher = to_chars("Bencher");
    let iter = to_chars("iter");
    assert(bencher@ =~= bencher_word());
    assert(iter@ =~= iter_word());
    let mut i: usize = 0;
    while i < name.len()
        invariant
            i <= name.len(),
            bencher@ == bencher_word(),
            iter@ == iter_word(),
            forall|j: int, gap: int| 0 <= j < i && 1 <= gap <= 4 ==> !iteration_mark(name@, j, gap),
        decreases name.len() - i,
    {
        if has_at(name, &bencher, i) {
            let mut gap: usize = 1;
            while gap <= 4
                invariant
                    1 <= gap <= 5,
                    i < name.len(),
                    i + 7 <= name.len(),
                    bencher@ == bencher_word(),
                    iter@ == iter_word(),
                    occurs_at(name@, bencher_word(), i as int),
                    forall|g: int| 1 <= g < gap ==> !iteration_mark(name@, i as int, g),
                decreases 5 - gap,
            {
                if name.len() - (i + 7) >= gap && has_at(name, &iter, i + 7 + gap) {
                    assert(iteration_mark(name@, i as int, gap as int));
                    return true;
                }
                gap += 1;
            }
        }
        i += 1;
    }
    assert forall|j: int, gap: int| 1 <= gap <= 4 implies !iteration_mark(name@, j, gap) by {
        if j >= name.len() || j < 0 {
            assert(!occurs_at(name@, bencher_word(), j));
        }
    }
    false
}

/// The names of the iteration functions of the harness among the symbols
/// that the listing `listing` of a binary's symbols holds, in the order of
/// the listing.
pub fn find_mangled_functions(listing: &str) -> (names: Vec<String>)
    ensures
        views(names@) == symbols_from(listing@, 0),
{
    let text = to_chars(listing);
    let mut names: Vec<String> = Vec::new();
    let mut p: usize = 0;
    while p < text.len()
        invariant
            p <= text.len(),
            text@ == listing@,
            views(names@) + symbols_from(text@, p as int) == symbols_from(text@, 0),
        decreases text.len() - p,
    {
        let ghost before = views(names@);
        if p == 0 || text[p - 1] == '\n' {
            let q = skip_hex(&text, p);
            if q < text.len() && text.len() - q > 2 && is_whitespace(text[q]) && text[q + 1] == 't'
                && is_whitespace(text[q + 2]) {
                let e = skip_line(&text, q + 3);
                let mut name: Vec<char> = Vec::new();
                let mut k: usize = q + 3;
                while k < e
                    invariant
                        q + 3 <= k <= e <= text.len(),
                        name@ == text@.subrange(q + 3, k as int),
                    decreases e - k,
                {
                    name.push(text[k]);
                    assert(text@.subrange(q + 3, k + 1) =~= text@.subrange(q + 3, k as int).push(
                        text@[k as int],
                    ));
                    k += 1;
                }
                if is_iteration_name(&name) {
                    assert(symbol_at(text@, p as int) == Some((q + 3, e as int)));
                    names.push(from_chars(&text, q + 3, e));
                    assert(views(names@) =~= before.push(text@.subrange(q + 3, e as int)));
                    assert(views(names@) + symbols_from(text@, e as int) =~= before + symbols_from(
                        text@,
                        p as int,
                    ));
                    p = e;
                } else {
                    assert(symbol_at(text@, p as int) is None);
                    p += 1;
                }
            } else {
                assert(symbol_at(text@, p as int) is None);
                p += 1;
            }
        } else {
            p += 1;
        }
    }
    assert(views(names@) + Seq::<Seq<char>>::empty() =~= views(names@));
    names
}

/// The command that lists the symbols of `executable`, debugging symbols
/// included.
pub fn symbol_list_command(executable: &str) -> (c: CommandLine)
    ensures
        c@ == (CommandLineView {
            program: "nm"@,
            args: seq!["-a"@, executable@],
            current_dir: None,
            envs: Seq::empty(),
        }),
{
    let mut c = CommandLine::new("nm");
    c.arg("-a");
    c.arg(executable);
    assert(c@.args =~= seq!["-a"@, executable@]);
    c
}

} // verus!
