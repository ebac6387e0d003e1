//! Text as sequences of characters: joining, searching and replacing,
//! numbers in decimal, the order of texts, and the naming conventions (flat,
//! snake and Pascal case) that generated identifiers follow.

use vstd::prelude::*;
use vstd::string::StringExecFns;

verus! {

/// `String::push` appends one character to the end of the string.
pub assume_specification[ std::string::String::push ](s: &mut std::string::String, c: char)
    ensures
        final(s)@ == old(s)@.push(c),
;

/// The characters of `s`, in order.
pub fn chars_of(s: &str) -> (v: Vec<char>)
    ensures
        v@ == s@,
{
    let mut v: Vec<char> = Vec::new();
    for c in it: s.chars()
        invariant
            v@ == it.seq().take(it.index()),
            it.seq() == s@,
    {
        v.push(c);
    }
    v
}

/// The text of each string of a list.
pub open spec fn views(list: Seq<String>) -> Seq<Seq<char>> {
    Seq::new(list.len(), |i: int| list[i]@)
}

/// The texts of a list with one more string are the texts of the list with
/// one more text.
pub proof fn lemma_views_push(list: Seq<String>, last: String)
    ensures
        views(list.push(last)) == views(list).push(last@),
{
    assert(views(list.push(last)) =~= views(list).push(last@));
}

/// The parts in order, with `sep` between each two neighbours.
pub open spec fn join(parts: Seq<Seq<char>>, sep: Seq<char>) -> Seq<char>
    decreases parts.len(),
{
    if parts.len() == 0 {
        Seq::empty()
    } else {
        let head = join(parts.drop_last(), sep);
        if parts.len() == 1 {
            head + parts.last()
        } else {
            head + sep + parts.last()
        }
    }
}

/// Joins `parts` with `sep` between each two neighbours.
pub fn join_strings(parts: &Vec<String>, sep: &str) -> (out: String)
    ensures
        out@ == join(views(parts@), sep@),
{
    let mut out = String::new();
    let mut i: usize = 0;
    while i < parts.len()
        invariant
            i <= parts.len(),
            out@ == join(views(parts@).take(i as int), sep@),
        decreases parts.len() - i,
    {
        if i > 0 {
            out.append(sep);
        }
        out.append(parts[i].as_str());
        proof {
            let all = views(parts@);
            assert(all.take(i + 1).drop_last() == all.take(i as int));
            assert(all.take(i + 1).last() == parts@[i as int]@);
        }
        i += 1;
    }
    assert(views(parts@).take(parts.len() as int) == views(parts@));
    out
}

/// The character for a digit below ten.
pub open spec fn digit_char(d: nat) -> char {
    (('0' as u8) + (d as u8)) as char
}

/// `n` in decimal, without leading zeros.
pub open spec fn decimal(n: nat) -> Seq<char>
    decreases n,
{
    if n < 10 {
        seq![digit_char(n)]
    } else {
        decimal(n / 10).push(digit_char(n % 10))
    }
}

/// `n` in decimal, without leading zeros.
pub fn decimal_string(n: usize) -> (out: String)
    ensures
        out@ == decimal(n as nat),
    decreases n,
{
    if n < 10 {
        let mut out = String::new();
        out.push((('0' as u8) + (n as u8)) as char);
        assert(out@ == seq![digit_char(n as nat)]);
        out
    } else {
        let mut out = decimal_string(n / 10);
        out.push((('0' as u8) + ((n % 10) as u8)) as char);
        out
    }
}

/// An ASCII lower-case letter.
pub open spec fn is_lower(c: char) -> bool {
    'a' <= c <= 'z'
}

/// An ASCII upper-case letter.
pub open spec fn is_upper(c: char) -> bool {
    'A' <= c <= 'Z'
}

/// An ASCII digit.
pub open spec fn is_digit(c: char) -> bool {
    '0' <= c <= '9'
}

/// A character that may stand in a word: an ASCII letter or digit.
pub open spec fn is_word_char(c: char) -> bool {
    is_lower(c) || is_upper(c) || is_digit(c)
}

/// The lower-case form of an ASCII letter; any other character unchanged.
pub open spec fn lower_of(c: char) -> char {
    if is_upper(c) {
        ((c as u8) + 32) as char
    } else {
        c
    }
}

/// The upper-case form of an ASCII letter; any other character unchanged.
pub open spec fn upper_of(c: char) -> char {
    if is_lower(c) {
        ((c as u8) - 32) as char
    } else {
        c
    }
}

fn word_char(c: char) -> (b: bool)
    ensures
        b == is_word_char(c),
{
    ('a' <= c && c <= 'z') || ('A' <= c && c <= 'Z') || ('0' <= c && c <= '9')
}

fn to_lower(c: char) -> (r: char)
    ensures
        r == lower_of(c),
{
    if 'A' <= c && c <= 'Z' {
        ((c as u8) + 32) as char
    } else {
        c
    }
}

fn to_upper(c: char) -> (r: char)
    ensures
        r == upper_of(c),
{
    if 'a' <= c && c <= 'z' {
        ((c as u8) - 32) as char
    } else {
        c
    }
}

/// Flat case: the word characters of `s` in lower case, everything else left out.
pub open spec fn flat_case_of(s: Seq<char>) -> Seq<char>
    decreases s.len(),
{
    if s.len() == 0 {
        Seq::empty()
    } else {
        let head = flat_case_of(s.drop_last());
        if is_word_char(s.last()) {
            head.push(lower_of(s.last()))
        } else {
            head
        }
    }
}

/// Whether a new word starts at the last character of `s`: after a character
/// that stands in no word, or at an upper-case letter that follows a
/// lower-case letter or a digit.
pub open spec fn word_starts_at_end(s: Seq<char>) -> bool {
    s.len() >= 2 && is_word_char(s.last()) && {
        let before = s[s.len() - 2];
        !is_word_char(before) || (is_upper(s.last()) && !is_upper(before))
    }
}

/// Snake case: the words of `s` in lower case, with `_` between them.
pub open spec fn snake_case_of(s: Seq<char>) -> Seq<char>
    decreases s.len(),
{
    if s.len() == 0 {
        Seq::empty()
    } else {
        let head = snake_case_of(s.drop_last());
        if !is_word_char(s.last()) {
            head
        } else if head.len() > 0 && word_starts_at_end(s) {
            head.push('_').push(lower_of(s.last()))
        } else {
            head.push(lower_of(s.last()))
        }
    }
}

/// Pascal case: the word characters of `s`, each one that follows a
/// character standing in no word (or nothing) in upper case.
pub open spec fn pascal_case_of(s: Seq<char>) -> Seq<char>
    decreases s.len(),
{
    if s.len() == 0 {
        Seq::empty()
    } else {
        let head = pascal_case_of(s.drop_last());
        if !is_word_char(s.last()) {
            head
        } else if s.len() == 1 || !is_word_char(s[s.len() - 2]) {
            head.push(upper_of(s.last()))
        } else {
            head.push(s.last())
        }
    }
}

/// `s` in flat case.
pub fn flat_case(s: &str) -> (out: String)
    ensures
        out@ == flat_case_of(s@),
{
    let chars = chars_of(s);
    let mut out = String::new();
    let mut i: usize = 0;
    while i < chars.len()
        invariant
            i <= chars.len(),
            chars@ == s@,
            out@ == flat_case_of(s@.take(i as int)),
        decreases chars.len() - i,
    {
        let c = chars[i];
        proof {
            assert(s@.take(i + 1).drop_last() == s@.take(i as int));
        }
        if word_char(c) {
            out.push(to_lower(c));
        }
        i += 1;
    }
    assert(s@.take(chars.len() as int) == s@);
    out
}

/// `s` in snake case.
pub fn snake_case(s: &str) -> (out: String)
    ensures
        out@ == snake_case_of(s@),
{
    let chars = chars_of(s);
    let mut out = String::new();
    let mut empty = true;
    let mut i: usize = 0;
    while i < chars.len()
        invariant
            i <= chars.len(),
            chars@ == s@,
            out@ == snake_case_of(s@.take(i as int)),
            empty == (out@.len() == 0),
        decreases chars.len() - i,
    {
        let c = chars[i];
        proof {
            assert(s@.take(i + 1).drop_last() == s@.take(i as int));
        }
        if word_char(c) {
            let starts = i >= 1 && (!word_char(chars[i - 1]) || (('A' <= c && c <= 'Z') && !('A'
                <= chars[i - 1] && chars[i - 1] <= 'Z')));
            assert(starts == word_starts_at_end(s@.take(i + 1)));
            if !empty && starts {
                out.push('_');
            }
            out.push(to_lower(c));
            empty = false;
        }
        i += 1;
    }
    assert(s@.take(chars.len() as int) == s@);
    out
}

/// `s` in Pascal case.
pub fn pascal_case(s: &str) -> (out: String)
    ensures
        out@ == pascal_case_of(s@),
{
    let chars = chars_of(s);
    let mut out = String::new();
    let mut i: usize = 0;
    while i < chars.len()
        invariant
            i <= chars.len(),
            chars@ == s@,
            out@ == pascal_case_of(s@.take(i as int)),
        decreases chars.len() - i,
    {
        let c = chars[i];
        proof {
            assert(s@.take(i + 1).drop_last() == s@.take(i as int));
        }
        if word_char(c) {
            if i == 0 || !word_char(chars[i - 1]) {
                out.push(to_upper(c));
            } else {
                out.push(c);
            }
        }
        i += 1;
    }
    assert(s@.take(chars.len() as int) == s@);
    out
}

/// `pat` stands in `src` at place `i`.
pub open spec fn has_at(src: Seq<char>, i: int, pat: Seq<char>) -> bool {
    0 <= i && i + pat.len() <= src.len() && src.subrange(i, i + pat.len()) == pat
}

/// Whether `pat` stands in `src` at place `i`.
pub fn stands_at(src: &Vec<char>, i: usize, pat: &Vec<char>) -> (b: bool)
    ensures
        b == has_at(src@, i as int, pat@),
{
    if pat.len() > src.len() || i > src.len() - pat.len() {
        return false;
    }
    let mut k: usize = 0;
    while k < pat.len()
        invariant
            k <= pat.len(),
            i + pat.len() <= src.len(),
            forall|j: int| 0 <= j < k ==> src@[i + j] == pat@[j],
        decreases pat.len() - k,
    {
        if src[i + k] != pat[k] {
            assert(src@.subrange(i as int, i + pat.len())[k as int] != pat@[k as int]);
            return false;
        }
        k += 1;
    }
    assert(src@.subrange(i as int, i + pat.len()) =~= pat@);
    true
}

/// `pat` stands somewhere in `src`.
pub open spec fn occurs_in(src: Seq<char>, pat: Seq<char>) -> bool {
    exists|i: int| has_at(src, i, pat)
}

/// Whether `pat` stands somewhere in `src`.
pub fn contains_text(src: &str, pat: &str) -> (b: bool)
    ensures
        b == occurs_in(src@, pat@),
{
    let hay = chars_of(src);
    let needle = chars_of(pat);
    if needle.len() > hay.len() {
        assert forall|i: int| !has_at(src@, i, pat@) by {}
        return false;
    }
    let last = hay.len() - needle.len();
    let mut i: usize = 0;
    while i <= last
        invariant
            i <= last + 1,
            last == hay.len() - needle.len(),
            needle.len() <= hay.len(),
            hay@ == src@,
            needle@ == pat@,
            forall|k: int| 0 <= k < i ==> !has_at(src@, k, pat@),
        decreases last + 1 - i,
    {
        if stands_at(&hay, i, &needle) {
            return true;
        }
        if i == last {
            assert forall|k: int| !has_at(src@, k, pat@) by {}
            return false;
        }
        i += 1;
    }
    false
}

/// `src` from place `from` on, with `to` in place of every `pat`, taken
/// from left to right; `pat` is not empty.
pub open spec fn replaced_from(src: Seq<char>, pat: Seq<char>, to: Seq<char>, from: int) -> Seq<
    char,
>
    decreases src.len() - from,
{
    if from < 0 || from >= src.len() || pat.len() == 0 {
        Seq::empty()
    } else if has_at(src, from, pat) {
        to + replaced_from(src, pat, to, from + pat.len())
    } else {
        seq![src[from]] + replaced_from(src, pat, to, from + 1)
    }
}

/// `src` with `to` in place of every `pat`, taken from left to right; `src`
/// itself where `pat` is empty.
pub open spec fn replaced(src: Seq<char>, pat: Seq<char>, to: Seq<char>) -> Seq<char> {
    if pat.len() == 0 {
        src
    } else {
        replaced_from(src, pat, to, 0)
    }
}

/// `src` with `to` in place of every `pat`, taken from left to right.
pub fn replace_all(src: &str, pat: &str, to: &str) -> (out: String)
    ensures
        out@ == replaced(src@, pat@, to@),
{
    let hay = chars_of(src);
    let needle = chars_of(pat);
    if needle.len() == 0 {
        return String::from_str(src);
    }
    let mut out = String::new();
    let mut i: usize = 0;
    assert(out@ + replaced_from(src@, pat@, to@, 0) =~= replaced_from(src@, pat@, to@, 0));
    while i < hay.len()
        invariant
            i <= hay.len(),
            hay@ == src@,
            needle@ == pat@,
            needle.len() > 0,
            out@ + replaced_from(src@, pat@, to@, i as int) == replaced_from(src@, pat@, to@, 0),
        decreases hay.len() - i,
    {
        let ghost before = out@;
        if stands_at(&hay, i, &needle) {
            out.append(to);
            assert(before + to@ + replaced_from(src@, pat@, to@, i + needle.len()) =~= before
                + replaced_from(src@, pat@, to@, i as int));
            i += needle.len();
        } else {
            out.push(hay[i]);
            assert(before.push(src@[i as int]) + replaced_from(src@, pat@, to@, i + 1) =~= before
                + replaced_from(src@, pat@, to@, i as int));
            i += 1;
        }
    }
    assert(out@ + replaced_from(src@, pat@, to@, hay.len() as int) =~= out@);
    out
}

/// How one text stands to another in the order of their characters.
#[derive(Clone, Copy, Debug, PartialEq, Eq, Structural)]
pub enum Rank {
    Before,
    Same,
    After,
}

/// `a` comes before `b`: at the first place where they differ `a` has the
/// smaller character, or `a` ends there and `b` goes on.
pub open spec fn precedes(a: Seq<char>, b: Seq<char>) -> bool
    decreases a.len(),
{
    if b.len() == 0 {
        false
    } else if a.len() == 0 {
        true
    } else if a[0] != b[0] {
        a[0] < b[0]
    } else {
        precedes(a.drop_first(), b.drop_first())
    }
}

/// Of two texts, one comes before the other or they are the same text.
pub proof fn lemma_precedes_total(a: Seq<char>, b: Seq<char>)
    ensures
        precedes(a, b) || precedes(b, a) || a == b,
        !(precedes(a, b) && precedes(b, a)),
        !(precedes(a, b) && a == b),
    decreases a.len(),
{
    if a.len() > 0 && b.len() > 0 && a[0] == b[0] {
        lemma_precedes_total(a.drop_first(), b.drop_first());
        if a.drop_first() == b.drop_first() {
            assert(a =~= seq![a[0]] + a.drop_first());
            assert(b =~= seq![b[0]] + b.drop_first());
        }
    } else if a.len() == 0 && b.len() == 0 {
        assert(a =~= b);
    }
}

/// What comes before a text comes before all that the text comes before.
pub proof fn lemma_precedes_transitive(a: Seq<char>, b: Seq<char>, c: Seq<char>)
    requires
        precedes(a, b),
        precedes(b, c),
    ensures
        precedes(a, c),
    decreases a.len(),
{
    if a.len() > 0 && a[0] == b[0] && b[0] == c[0] {
        lemma_precedes_transitive(a.drop_first(), b.drop_first(), c.drop_first());
    }
}

/// Compares two texts character by character.
pub fn compare(a: &str, b: &str) -> (r: Rank)
    ensures
        r == Rank::Before <==> precedes(a@, b@),
        r == Rank::After <==> precedes(b@, a@),
        r == Rank::Same <==> a@ == b@,
{
    let x = chars_of(a);
    let y = chars_of(b);
    let mut i: usize = 0;
    assert(a@.skip(0) == a@ && b@.skip(0) == b@);
    while i < x.len() && i < y.len()
        invariant
            i <= x.len(),
            i <= y.len(),
            x@ == a@,
            y@ == b@,
            precedes(a@, b@) == precedes(a@.skip(i as int), b@.skip(i as int)),
            precedes(b@, a@) == precedes(b@.skip(i as int), a@.skip(i as int)),
            (a@ == b@) == (a@.skip(i as int) == b@.skip(i as int)),
        decreases x.len() - i,
    {
        proof {
            let p = a@.skip(i as int);
            let q = b@.skip(i as int);
            assert(p.drop_first() == a@.skip(i + 1));
            assert(q.drop_first() == b@.skip(i + 1));
            assert(p[0] == a@[i as int] && q[0] == b@[i as int]);
            if p[0] == q[0] {
                if p.drop_first() == q.drop_first() {
                    assert(p =~= seq![p[0]] + p.drop_first());
                    assert(q =~= seq![q[0]] + q.drop_first());
                }
            }
        }
        if x[i] < y[i] {
            return Rank::Before;
        }
        if x[i] > y[i] {
            return Rank::After;
        }
        i += 1;
    }
    proof {
        let p = a@.skip(i as int);
        let q = b@.skip(i as int);
        if p.len() == 0 && q.len() == 0 {
            assert(p =~= q);
        }
    }
    if i < y.len() {
        Rank::Before
    } else if i < x.len() {
        Rank::After
    } else {
        Rank::Same
    }
}

} // verus!
