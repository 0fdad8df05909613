//! Verified string helpers: prefix tests, splitting, suffix extraction,
//! character sanitization and lowercase hexadecimal rendering.

use vstd::prelude::*;

verus! {

/// `p` is a prefix of `s`.
pub open spec fn starts_with(s: Seq<char>, p: Seq<char>) -> bool {
    p.len() <= s.len() && (forall|i: int| 0 <= i < p.len() ==> s[i] == p[i])
}

/// Some position of `s` holds `c`.
pub open spec fn contains_char(s: Seq<char>, c: char) -> bool {
    exists|i: int| 0 <= i < s.len() && s[i] == c
}

/// The suffix of `s` after the last occurrence of `c`; `s` itself when `c`
/// does not occur.
pub open spec fn after_last(s: Seq<char>, c: char) -> Seq<char>
    decreases s.len(),
{
    if s.len() == 0 {
        s
    } else if s.last() == c {
        Seq::empty()
    } else {
        after_last(s.drop_last(), c).push(s.last())
    }
}

/// `s` split on `c`: always at least one part, one more part per occurrence.
pub open spec fn split_on(s: Seq<char>, c: char) -> Seq<Seq<char>>
    decreases s.len(),
{
    if s.len() == 0 {
        seq![Seq::empty()]
    } else {
        let rest = split_on(s.drop_last(), c);
        if s.last() == c {
            rest.push(Seq::empty())
        } else {
            rest.update(rest.len() - 1, rest.last().push(s.last()))
        }
    }
}

pub proof fn lemma_split_on_len(s: Seq<char>, c: char)
    ensures
        split_on(s, c).len() >= 1,
    decreases s.len(),
{
    if s.len() > 0 {
        lemma_split_on_len(s.drop_last(), c);
    }
}

/// Whether the strings are equal, character for character.
pub fn str_eq(a: &str, b: &str) -> (r: bool)
    ensures
        r == (a@ == b@),
{
    let sa = a.to_owned();
    let sb = b.to_owned();
    let r = sa == sb;
    proof {
        if a@ == b@ {
            assert(sa@ == sb@);
        }
        if sa@ == sb@ {
            assert(a@ == b@);
        }
    }
    r
}

/// Whether `s` begins with `p`.
pub fn str_starts_with(s: &str, p: &str) -> (r: bool)
    ensures
        r == starts_with(s@, p@),
{
    let sl = s.unicode_len();
    let pl = p.unicode_len();
    if pl > sl {
        return false;
    }
    let mut i: usize = 0;
    while i < pl
        invariant
            i <= pl <= sl,
            sl == s@.len(),
            pl == p@.len(),
            forall|j: int| 0 <= j < i ==> s@[j] == p@[j],
        decreases pl - i,
    {
        if s.get_char(i) != p.get_char(i) {
            return false;
        }
        i += 1;
    }
    true
}

/// The suffix of `s` starting at character position `from`.
pub fn str_after(s: &str, from: usize) -> (r: String)
    requires
        from <= s@.len(),
    ensures
        r@ == s@.subrange(from as int, s@.len() as int),
{
    let len = s.unicode_len();
    s.substring_char(from, len).to_owned()
}

/// Whether some character of `s` equals `c`.
pub fn str_contains_char(s: &str, c: char) -> (r: bool)
    ensures
        r == contains_char(s@, c),
{
    let len = s.unicode_len();
    let mut i: usize = 0;
    while i < len
        invariant
            i <= len,
            len == s@.len(),
            forall|j: int| 0 <= j < i ==> s@[j] != c,
        decreases len - i,
    {
        if s.get_char(i) == c {
            return true;
        }
        i += 1;
    }
    false
}

proof fn lemma_after_last_no_occurrence(s: Seq<char>, c: char)
    requires
        !contains_char(s, c),
    ensures
        after_last(s, c) == s,
    decreases s.len(),
{
    if s.len() > 0 {
        assert(s.last() != c) by {
            assert(s[s.len() - 1] == s.last());
        }
        assert(!contains_char(s.drop_last(), c)) by {
            assert(forall|i: int|
                0 <= i < s.drop_last().len() ==> s.drop_last()[i] == s[i]);
        }
        lemma_after_last_no_occurrence(s.drop_last(), c);
        assert(after_last(s, c) =~= s);
    }
}

proof fn lemma_after_last_at(s: Seq<char>, c: char, k: int)
    requires
        0 <= k < s.len(),
        s[k] == c,
        forall|j: int| k < j < s.len() ==> s[j] != c,
    ensures
        after_last(s, c) == s.subrange(k + 1, s.len() as int),
    decreases s.len(),
{
    if k == s.len() - 1 {
        assert(s.last() == c);
        assert(after_last(s, c) =~= s.subrange(k + 1, s.len() as int));
    } else {
        assert(s.last() != c);
        assert(s.drop_last()[k] == c);
        lemma_after_last_at(s.drop_last(), c, k);
        assert(after_last(s, c) =~= s.subrange(k + 1, s.len() as int));
    }
}

/// The part of `s` after the last occurrence of `c` (all of `s` when absent).
pub fn str_after_last(s: &str, c: char) -> (r: String)
    ensures
        r@ == after_last(s@, c),
{
    let len = s.unicode_len();
    let mut found = false;
    let mut last: usize = 0;
    let mut i: usize = 0;
    while i < len
        invariant
            i <= len,
            len == s@.len(),
            found ==> last < i && s@[last as int] == c
                && (forall|j: int| last < j < i ==> s@[j] != c),
            !found ==> (forall|j: int| 0 <= j < i ==> s@[j] != c),
        decreases len - i,
    {
        if s.get_char(i) == c {
            found = true;
            last = i;
        }
        i += 1;
    }
    if found {
        let r = str_after(s, last + 1);
        proof {
            lemma_after_last_at(s@, c, last as int);
        }
        r
    } else {
        proof {
            lemma_after_last_no_occurrence(s@, c);
        }
        s.to_owned()
    }
}

/// `s` split on the character `c`, left to right.
pub fn str_split(s: &str, c: char) -> (r: Vec<String>)
    ensures
        r.deep_view() == split_on(s@, c),
        r.len() >= 1,
{
    let len = s.unicode_len();
    let mut parts: Vec<String> = Vec::new();
    let mut current = String::new();
    let mut i: usize = 0;
    while i < len
        invariant
            i <= len,
            len == s@.len(),
            parts.deep_view().push(current@) == split_on(s@.subrange(0, i as int), c),
        decreases len - i,
    {
        let ghost prev = s@.subrange(0, i as int);
        let ch = s.get_char(i);
        if ch == c {
            parts.push(current);
            current = String::new();
        } else {
            let one = s.substring_char(i, i + 1);
            current.append(one);
        }
        i += 1;
        proof {
            let cur = s@.subrange(0, i as int);
            assert(cur.drop_last() =~= prev);
            assert(cur.last() == s@[i - 1]);
            if ch == c {
                assert(parts.deep_view().push(current@)
                    =~= split_on(prev, c).push(Seq::<char>::empty()));
            } else {
                let rest = split_on(prev, c);
                assert(rest.len() >= 1) by {
                    lemma_split_on_len(prev, c);
                }
                assert(parts.deep_view() =~= rest.drop_last());
                assert(current@ =~= rest.last().push(s@[i - 1]));
                assert(parts.deep_view().push(current@)
                    =~= rest.update(rest.len() - 1, rest.last().push(cur.last())));
            }
        }
    }
    proof {
        assert(s@.subrange(0, len as int) =~= s@);
    }
    parts.push(current);
    parts
}

/// The lowercase hexadecimal digit for `d`.
pub open spec fn hex_digit(d: nat) -> char {
    if d == 0 { '0' } else if d == 1 { '1' } else if d == 2 { '2' }
    else if d == 3 { '3' } else if d == 4 { '4' } else if d == 5 { '5' }
    else if d == 6 { '6' } else if d == 7 { '7' } else if d == 8 { '8' }
    else if d == 9 { '9' } else if d == 10 { 'a' } else if d == 11 { 'b' }
    else if d == 12 { 'c' } else if d == 13 { 'd' } else if d == 14 { 'e' }
    else { 'f' }
}

/// `n` written in lowercase hexadecimal with no leading zeros.
pub open spec fn hex_of(n: nat) -> Seq<char>
    decreases n,
{
    if n < 16 {
        seq![hex_digit(n)]
    } else {
        hex_of(n / 16).push(hex_digit(n % 16))
    }
}

fn hex_digit_str(d: u64) -> (r: &'static str)
    requires
        d < 16,
    ensures
        r@ == seq![hex_digit(d as nat)],
{
    proof {
        reveal_strlit("0"); reveal_strlit("1"); reveal_strlit("2");
        reveal_strlit("3"); reveal_strlit("4"); reveal_strlit("5");
        reveal_strlit("6"); reveal_strlit("7"); reveal_strlit("8");
        reveal_strlit("9"); reveal_strlit("a"); reveal_strlit("b");
        reveal_strlit("c"); reveal_strlit("d"); reveal_strlit("e");
        reveal_strlit("f");
    }
    let r = match d {
        0 => "0", 1 => "1", 2 => "2", 3 => "3",
        4 => "4", 5 => "5", 6 => "6", 7 => "7",
        8 => "8", 9 => "9", 10 => "a", 11 => "b",
        12 => "c", 13 => "d", 14 => "e", _ => "f",
    };
    proof {
        assert(r@ =~= seq![hex_digit(d as nat)]);
    }
    r
}

/// `x` rendered in lowercase hexadecimal, as the `{:x}` format would.
pub fn u64_to_hex(x: u64) -> (r: String)
    ensures
        r@ == hex_of(x as nat),
    decreases x,
{
    if x < 16 {
        hex_digit_str(x).to_owned()
    } else {
        let mut s = u64_to_hex(x / 16);
        s.append(hex_digit_str(x % 16));
        proof {
            assert(s@ =~= hex_of(x as nat));
        }
        s
    }
}

pub proof fn lemma_hex_of_len(n: nat)
    ensures
        hex_of(n).len() >= 1,
        n >= 16 ==> hex_of(n).len() >= 2,
    decreases n,
{
    if n >= 16 {
        lemma_hex_of_len(n / 16);
    }
}

/// Distinct numbers render as distinct hexadecimal strings.
pub proof fn lemma_hex_of_injective(a: nat, b: nat)
    requires
        a != b,
    ensures
        hex_of(a) != hex_of(b),
    decreases a + b,
{
    if a < 16 && b < 16 {
        assert(hex_of(a)[0] == hex_digit(a));
        assert(hex_of(b)[0] == hex_digit(b));
        assert(hex_digit(a) != hex_digit(b));
    } else if a < 16 {
        lemma_hex_of_len(b);
        assert(hex_of(a).len() == 1);
    } else if b < 16 {
        lemma_hex_of_len(a);
        assert(hex_of(b).len() == 1);
    } else {
        if a % 16 != b % 16 {
            assert(hex_digit(a % 16) != hex_digit(b % 16));
            if hex_of(a) == hex_of(b) {
                assert(hex_of(a).last() == hex_of(b).last());
                assert(false);
            }
        } else {
            assert(a / 16 != b / 16) by {
                if a / 16 == b / 16 {
                    assert(a == 16 * (a / 16) + a % 16);
                    assert(b == 16 * (b / 16) + b % 16);
                }
            }
            lemma_hex_of_injective(a / 16, b / 16);
            if hex_of(a) == hex_of(b) {
                assert(hex_of(a).drop_last() =~= hex_of(a / 16));
                assert(hex_of(b).drop_last() =~= hex_of(b / 16));
                assert(false);
            }
        }
    }
}

/// Whether some element of `v` equals `x`, character for character.
pub fn vec_contains_str(v: &Vec<String>, x: &str) -> (r: bool)
    ensures
        r == v.deep_view().contains(x@),
{
    let mut i: usize = 0;
    while i < v.len()
        invariant
            i <= v.len(),
            v.deep_view().len() == v.len(),
            forall|j: int| 0 <= j < i ==> v.deep_view()[j] != x@,
        decreases v.len() - i,
    {
        assert(v.deep_view()[i as int] == v[i as int]@);
        if str_eq(v[i].as_str(), x) {
            assert(v.deep_view().contains(x@));
            return true;
        }
        i += 1;
    }
    false
}

/// A copy of `v` whose elements are character-for-character equal.
pub fn copy_strings(v: &Vec<String>) -> (r: Vec<String>)
    ensures
        r@ == v@,
        r.deep_view() == v.deep_view(),
{
    let mut r: Vec<String> = Vec::new();
    let mut i: usize = 0;
    while i < v.len()
        invariant
            i <= v.len(),
            r@ =~= v@.subrange(0, i as int),
        decreases v.len() - i,
    {
        r.push(v[i].clone());
        i += 1;
    }
    proof {
        assert(r@ =~= v@);
    }
    r
}

} // verus!
