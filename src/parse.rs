use vstd::prelude::*;
use vstd::string::*;
use crate::error::{Failure, FailureKind};
use crate::text::{
    is_whitespace, is_ws, lemma_nonblank_push, lemma_split_lines_nonempty, nonblank_lines,
    nonblank_of, split_lines, trim, trim_bounds,
};

verus! {

/// One entry of a card list: how many copies, and the name as typed.
pub struct ParsedEntry {
    pub quantity: u64,
    pub name: String,
}

impl View for ParsedEntry {
    type V = (nat, Seq<char>);

    open spec fn view(&self) -> (nat, Seq<char>) {
        (self.quantity as nat, self.name@)
    }
}

impl ParsedEntry {
    pub fn duplicate(&self) -> (r: ParsedEntry)
        ensures
            r@ == self@,
    {
        ParsedEntry { quantity: self.quantity, name: self.name.clone() }
    }
}

pub open spec fn is_digit(c: char) -> bool {
    '0' <= c && c <= '9'
}

pub open spec fn digit_value(c: char) -> nat {
    (c as u32 - '0' as u32) as nat
}

/// The decimal value of a string of digits.
pub open spec fn digits_value(s: Seq<char>) -> nat
    decreases s.len(),
{
    if s.len() == 0 {
        0
    } else {
        digits_value(s.drop_last()) * 10 + digit_value(s.last())
    }
}

/// A token that reads as a quantity: one or more decimal digits whose value fits in a `u64`.
pub open spec fn is_quantity(tok: Seq<char>) -> bool {
    &&& tok.len() > 0
    &&& forall|i: int| 0 <= i < tok.len() ==> is_digit(#[trigger] tok[i])
    &&& digits_value(tok) <= u64::MAX
}

/// Where the first token of a line ends: the index of its first whitespace
/// character, or its length when it has none.
pub open spec fn token_end(t: Seq<char>) -> nat
    decreases t.len(),
{
    if t.len() == 0 || is_ws(t[0]) {
        0
    } else {
        1 + token_end(t.drop_first())
    }
}

/// The entry that a trimmed, non-empty line gives. A leading quantity token is
/// split from the rest at its first whitespace character, and the rest, with any
/// further whitespace it starts with, is the name. A line without such a token is
/// one copy of the whole line.
pub open spec fn entry_of_line(t: Seq<char>) -> (nat, Seq<char>) {
    let k = token_end(t) as int;
    let tok = t.take(k);
    if is_quantity(tok) {
        (digits_value(tok), if k < t.len() { t.skip(k + 1) } else { Seq::<char>::empty() })
    } else {
        (1, t)
    }
}

/// The entries of a whole text: one per non-blank line, in order.
pub open spec fn entries_of_text(s: Seq<char>) -> Seq<(nat, Seq<char>)> {
    nonblank_lines(s).map_values(|t: Seq<char>| entry_of_line(t))
}

proof fn lemma_token_end(t: Seq<char>, k: int)
    requires
        0 <= k <= t.len(),
        forall|j: int| 0 <= j < k ==> !is_ws(#[trigger] t[j]),
        k == t.len() || is_ws(t[k]),
    ensures
        token_end(t) == k,
    decreases k,
{
    if k > 0 {
        lemma_token_end(t.drop_first(), k - 1);
    }
}

/// Reads `cs[lo..hi]` as a quantity token, `None` when it is not one.
fn read_quantity(cs: &Vec<char>, lo: usize, hi: usize) -> (r: Option<u64>)
    requires
        lo <= hi <= cs.len(),
    ensures
        r is Some <==> is_quantity(cs@.subrange(lo as int, hi as int)),
        r is Some ==> r->0 as nat == digits_value(cs@.subrange(lo as int, hi as int)),
{
    if lo == hi {
        return None;
    }
    let ghost tok = cs@.subrange(lo as int, hi as int);
    let mut acc: u64 = 0;
    let mut overflow = false;
    let mut i = lo;
    while i < hi
        invariant
            lo <= i <= hi <= cs.len(),
            tok == cs@.subrange(lo as int, hi as int),
            forall|j: int| 0 <= j < i - lo ==> is_digit(#[trigger] tok[j]),
            !overflow ==> acc as nat == digits_value(tok.take(i - lo)),
            overflow ==> digits_value(tok.take(i - lo)) > u64::MAX,
        decreases hi - i,
    {
        let c = cs[i];
        if !('0' <= c && c <= '9') {
            assert(!is_digit(tok[i - lo]));
            return None;
        }
        let d = (c as u32 - '0' as u32) as u64;
        let ghost prev = digits_value(tok.take(i - lo));
        assert(tok.take(i - lo + 1).drop_last() =~= tok.take(i - lo));
        assert(digits_value(tok.take(i - lo + 1)) == prev * 10 + d);
        if overflow {
            assert(prev * 10 + d > u64::MAX) by (nonlinear_arith)
                requires
                    prev > u64::MAX,
            ;
        } else if acc > (u64::MAX - d) / 10 {
            assert(prev * 10 + d > u64::MAX) by (nonlinear_arith)
                requires
                    prev == acc,
                    acc > (u64::MAX - d) / 10,
                    d <= 9,
            ;
            overflow = true;
        } else {
            assert(acc * 10 + d <= u64::MAX) by (nonlinear_arith)
                requires
                    acc <= (u64::MAX - d) / 10,
                    d <= 9,
            ;
            acc = acc * 10 + d;
        }
        i = i + 1;
    }
    assert(tok.take(hi - lo) =~= tok);
    if overflow {
        None
    } else {
        Some(acc)
    }
}

/// The entry of the trimmed, non-empty line `cs[a..b]` of `text`.
fn entry_of_span(text: &str, cs: &Vec<char>, a: usize, b: usize) -> (r: ParsedEntry)
    requires
        cs@ == text@,
        a < b <= cs.len(),
    ensures
        r@ == entry_of_line(cs@.subrange(a as int, b as int)),
{
    let ghost t = cs@.subrange(a as int, b as int);
    let mut k = a;
    while k < b && !is_whitespace(cs[k])
        invariant
            a <= k <= b <= cs.len(),
            t == cs@.subrange(a as int, b as int),
            forall|j: int| 0 <= j < k - a ==> !is_ws(#[trigger] t[j]),
        decreases b - k,
    {
        k = k + 1;
    }
    proof {
        lemma_token_end(t, k - a);
        assert(t.take(k - a) =~= cs@.subrange(a as int, k as int));
    }
    match read_quantity(cs, a, k) {
        Some(q) => {
            if k < b {
                assert(t.skip(k - a + 1) =~= cs@.subrange(k + 1, b as int));
                ParsedEntry { quantity: q, name: text.substring_char(k + 1, b).to_owned() }
            } else {
                ParsedEntry { quantity: q, name: String::new() }
            }
        },
        None => ParsedEntry { quantity: 1, name: text.substring_char(a, b).to_owned() },
    }
}

/// Parses one line of a card list: `None` for a blank line, else its entry.
pub fn parse_line(line: &str) -> (r: Option<ParsedEntry>)
    ensures
        r is None <==> trim(line@).len() == 0,
        r is Some ==> r->0@ == entry_of_line(trim(line@)),
{
    let cs = chars_of(line);
    let n = cs.len();
    assert(cs@.subrange(0, n as int) =~= cs@);
    let (a, b) = trim_bounds(&cs, 0, n);
    if a == b {
        None
    } else {
        Some(entry_of_span(line, &cs, a, b))
    }
}

/// Adds to `entries` the entry of the line `cs[lo..hi]`, if it is not blank.
fn push_line(text: &str, cs: &Vec<char>, lo: usize, hi: usize, entries: &mut Vec<ParsedEntry>)
    requires
        cs@ == text@,
        lo <= hi <= cs.len(),
    ensures
        ({
            let t = trim(cs@.subrange(lo as int, hi as int));
            if t.len() > 0 {
                final(entries)@.len() == old(entries)@.len() + 1
                    && final(entries)@.take(old(entries)@.len() as int) == old(entries)@
                    && final(entries)@.last()@ == entry_of_line(t)
            } else {
                final(entries)@ == old(entries)@
            }
        }),
{
    let (a, b) = trim_bounds(cs, lo, hi);
    if a < b {
        let e = entry_of_span(text, cs, a, b);
        entries.push(e);
        assert(entries@.take(entries@.len() - 1) =~= old(entries)@);
    }
}

/// Parses a card list: one entry for each non-blank line, in input order.
pub fn parse_text(text: &str) -> (r: Vec<ParsedEntry>)
    ensures
        r.len() == nonblank_lines(text@).len(),
        forall|i: int| 0 <= i < r.len() ==> #[trigger] r[i]@ == entry_of_line(nonblank_lines(text@)[i]),
{
    let cs = chars_of(text);
    let n = cs.len();
    let mut entries: Vec<ParsedEntry> = Vec::new();
    let mut start: usize = 0;
    let mut i: usize = 0;
    let ghost mut done: Seq<Seq<char>> = Seq::empty();
    assert(cs@.take(0) =~= Seq::<char>::empty());
    assert(cs@.subrange(0, 0) =~= Seq::<char>::empty());
    assert(split_lines(cs@.take(0)) =~= done.push(cs@.subrange(0, 0)));
    while i < n
        invariant
            cs@ == text@,
            n == cs.len(),
            start <= i <= n,
            split_lines(cs@.take(i as int)) == done.push(cs@.subrange(start as int, i as int)),
            entries.len() == nonblank_of(done).len(),
            forall|j: int| 0 <= j < entries.len() ==> #[trigger] entries[j]@ == entry_of_line(nonblank_of(done)[j]),
        decreases n - i,
    {
        let ghost prefix = cs@.take(i as int);
        assert(cs@.take(i + 1).drop_last() =~= prefix);
        proof { lemma_split_lines_nonempty(prefix); }
        if cs[i] == '\n' {
            let ghost before = entries@;
            push_line(text, &cs, start, i, &mut entries);
            proof {
                lemma_nonblank_push(done, cs@.subrange(start as int, i as int));
                done = done.push(cs@.subrange(start as int, i as int));
                assert forall|j: int| 0 <= j < entries.len() implies #[trigger] entries[j]@ == entry_of_line(nonblank_of(done)[j]) by {
                    if j < before.len() {
                        assert(entries@.take(before.len() as int)[j] == entries@[j]);
                    }
                }
            }
            start = i + 1;
            assert(cs@.take(i + 1).last() == '\n');
            assert(cs@.subrange(start as int, i + 1) =~= Seq::<char>::empty());
            assert(split_lines(cs@.take(i + 1)) =~= done.push(cs@.subrange(start as int, i + 1)));
        } else {
            assert(cs@.subrange(start as int, i + 1) =~= cs@.subrange(start as int, i as int).push(cs@[i as int]));
            assert(split_lines(cs@.take(i + 1)) =~= done.push(cs@.subrange(start as int, i + 1)));
        }
        i = i + 1;
    }
    let ghost before = entries@;
    push_line(text, &cs, start, n, &mut entries);
    proof {
        assert(cs@.take(n as int) =~= cs@);
        lemma_nonblank_push(done, cs@.subrange(start as int, n as int));
        done = done.push(cs@.subrange(start as int, n as int));
        assert forall|j: int| 0 <= j < entries.len() implies #[trigger] entries[j]@ == entry_of_line(nonblank_of(done)[j]) by {
            if j < before.len() {
                assert(entries@.take(before.len() as int)[j] == entries@[j]);
            }
        }
    }
    entries
}

/// A line that starts with a quantity token followed by whitespace gives that
/// quantity, and as its name the rest of the line after that one whitespace
/// character.
pub proof fn lemma_leading_quantity(t: Seq<char>, k: int)
    requires
        0 < k < t.len(),
        forall|j: int| 0 <= j < k ==> is_digit(#[trigger] t[j]),
        digits_value(t.take(k)) <= u64::MAX,
        is_ws(t[k]),
    ensures
        entry_of_line(t) == (digits_value(t.take(k)), t.skip(k + 1)),
{
    assert forall|j: int| 0 <= j < k implies !is_ws(#[trigger] t[j]) by {
        assert(is_digit(t[j]));
    }
    lemma_token_end(t, k);
    assert(forall|j: int| 0 <= j < k ==> #[trigger] t.take(k)[j] == t[j]);
}

/// A line whose first token is not a quantity is one copy of the whole line.
pub proof fn lemma_no_quantity(t: Seq<char>, k: int)
    requires
        0 <= k <= t.len(),
        forall|j: int| 0 <= j < k ==> !is_ws(#[trigger] t[j]),
        k == t.len() || is_ws(t[k]),
        !is_quantity(t.take(k)),
    ensures
        entry_of_line(t) == (1nat, t),
{
    lemma_token_end(t, k);
}

/// Parses a card list read from `path`. `contents` is what reading it gave,
/// `None` when it could not be read: the import then fails with `IoFailure`
/// naming the path, and nothing is parsed.
pub fn parse_file_contents(path: &str, contents: Option<String>) -> (r: Result<
    Vec<ParsedEntry>,
    Failure,
>)
    ensures
        contents is None ==> r is Err && r->Err_0.kind == FailureKind::IoFailure
            && r->Err_0.subject@ == path@,
        contents is Some ==> r is Ok && r->Ok_0.len() == nonblank_lines(contents->0@).len()
            && forall|i: int|
            0 <= i < r->Ok_0.len() ==> #[trigger] r->Ok_0[i]@ == entry_of_line(
                nonblank_lines(contents->0@)[i],
            ),
{
    match contents {
        Some(text) => Ok(parse_text(text.as_str())),
        None => Err(Failure { kind: FailureKind::IoFailure, subject: path.to_owned() }),
    }
}

/// The characters of `s`, in order.
fn chars_of(s: &str) -> (r: Vec<char>)
    ensures
        r@ == s@,
{
    let mut cs: Vec<char> = Vec::new();
    for c in it: s.chars()
        invariant
            cs@ == it.seq().take(it.index() as int),
    {
        cs.push(c);
    }
    cs
}

} // verus!
