//! Character and string groundwork for the shell and the filesystem:
//! lexicographic order on names, whitespace tokenization of command lines,
//! and decimal formatting of counters.

use vstd::prelude::*;

verus! {

use vstd::string::StrSliceExecFns;

// ---------------------------------------------------------------------------
// Trusted wrappers around `String` operations that vstd leaves unspecified.
// ---------------------------------------------------------------------------

/// Relies on `String::push`: appends one character at the end of the string.
#[verifier::external_body]
pub(crate) fn push_char(s: &mut String, c: char)
    ensures
        final(s)@ == old(s)@.push(c),
{
    s.push(c)
}

/// Relies on `String::pop`: removes and returns the last character, or
/// returns `None` and leaves the string unchanged when it is empty.
#[verifier::external_body]
pub(crate) fn pop_char(s: &mut String) -> (r: Option<char>)
    ensures
        old(s)@.len() == 0 ==> r == None::<char> && final(s)@ == old(s)@,
        old(s)@.len() > 0 ==> r == Some(old(s)@.last()) && final(s)@ == old(s)@.drop_last(),
{
    s.pop()
}

/// Relies on `String::clear`: empties the string.
#[verifier::external_body]
pub(crate) fn clear_string(s: &mut String)
    ensures
        final(s)@ == Seq::<char>::empty(),
{
    s.clear()
}

// ---------------------------------------------------------------------------
// Equality and lexicographic order on character sequences.
// ---------------------------------------------------------------------------

/// Strict lexicographic order on character sequences, by Unicode scalar
/// value.  A proper prefix sorts before every extension of it.
pub open spec fn lex_lt(a: Seq<char>, b: Seq<char>) -> bool
    decreases a.len(),
{
    if b.len() == 0 {
        false
    } else if a.len() == 0 {
        true
    } else if (a[0] as u32) < (b[0] as u32) {
        true
    } else if a[0] == b[0] {
        lex_lt(a.drop_first(), b.drop_first())
    } else {
        false
    }
}

/// `lex_lt` never relates a sequence to itself.
pub proof fn lemma_lex_irreflexive(a: Seq<char>)
    ensures
        !lex_lt(a, a),
    decreases a.len(),
{
    if a.len() > 0 {
        lemma_lex_irreflexive(a.drop_first());
    }
}

/// Any two character sequences are related by `lex_lt` or equal.
pub proof fn lemma_lex_trichotomy(a: Seq<char>, b: Seq<char>)
    ensures
        lex_lt(a, b) || lex_lt(b, a) || a == b,
    decreases a.len(),
{
    if a.len() == 0 && b.len() == 0 {
        assert(a =~= b);
    } else if a.len() > 0 && b.len() > 0 && a[0] == b[0] {
        lemma_lex_trichotomy(a.drop_first(), b.drop_first());
        if lex_lt(a.drop_first(), b.drop_first()) {
            assert(lex_lt(a, b));
        } else if lex_lt(b.drop_first(), a.drop_first()) {
            assert(lex_lt(b, a));
        } else {
            assert forall|i: int| 0 <= i < a.len() implies a[i] == b[i] by {
                if i > 0 {
                    assert(a[i] == a.drop_first()[i - 1]);
                    assert(b[i] == b.drop_first()[i - 1]);
                }
            }
            assert(a =~= b);
        }
    } else if a.len() == 0 {
        assert(lex_lt(a, b));
    } else if b.len() == 0 {
        assert(lex_lt(b, a));
    } else {
        lemma_char_code_injective(a[0], b[0]);
        if (a[0] as u32) < (b[0] as u32) {
            assert(lex_lt(a, b));
        } else {
            assert((b[0] as u32) < (a[0] as u32));
            assert(lex_lt(b, a));
        }
    }
}

/// Two characters are equal exactly when their Unicode scalar values are.
proof fn lemma_char_code_injective(c: char, d: char)
    ensures
        (c == d) <==> (c as u32 == d as u32),
{
}

/// `lex_lt` orders in at most one direction.
pub proof fn lemma_lex_asymmetric(a: Seq<char>, b: Seq<char>)
    ensures
        !(lex_lt(a, b) && lex_lt(b, a)),
    decreases a.len(),
{
    if a.len() > 0 && b.len() > 0 && a[0] == b[0] {
        lemma_lex_asymmetric(a.drop_first(), b.drop_first());
    }
}

/// `lex_lt` is transitive.
pub proof fn lemma_lex_transitive(a: Seq<char>, b: Seq<char>, c: Seq<char>)
    requires
        lex_lt(a, b),
        lex_lt(b, c),
    ensures
        lex_lt(a, c),
    decreases a.len(),
{
    if a.len() > 0 && b.len() > 0 && c.len() > 0 && a[0] == b[0] && b[0] == c[0] {
        lemma_lex_transitive(a.drop_first(), b.drop_first(), c.drop_first());
    }
}

/// Whether two string slices hold the same characters.
pub fn str_eq(a: &str, b: &str) -> (r: bool)
    ensures
        r == (a@ == b@),
{
    let alen = a.unicode_len();
    let blen = b.unicode_len();
    if alen != blen {
        return false;
    }
    let mut i: usize = 0;
    while i < alen
        invariant
            i <= alen,
            alen == a@.len(),
            alen == b@.len(),
            forall|k: int| 0 <= k < i ==> a@[k] == b@[k],
        decreases alen - i,
    {
        if a.get_char(i) != b.get_char(i) {
            return false;
        }
        i += 1;
    }
    proof {
        assert(a@ =~= b@);
    }
    true
}

/// Whether `a` sorts strictly before `b` in lexicographic order.
pub fn str_lt(a: &str, b: &str) -> (r: bool)
    ensures
        r == lex_lt(a@, b@),
{
    let alen = a.unicode_len();
    let blen = b.unicode_len();
    let mut i: usize = 0;
    proof {
        assert(a@.skip(0) =~= a@);
        assert(b@.skip(0) =~= b@);
    }
    while i < alen && i < blen
        invariant
            i <= alen,
            i <= blen,
            alen == a@.len(),
            blen == b@.len(),
            lex_lt(a@, b@) == lex_lt(a@.skip(i as int), b@.skip(i as int)),
        decreases alen - i,
    {
        let ca = a.get_char(i);
        let cb = b.get_char(i);
        proof {
            assert(a@.skip(i as int)[0] == a@[i as int]);
            assert(b@.skip(i as int)[0] == b@[i as int]);
        }
        if (ca as u32) < (cb as u32) {
            return true;
        }
        if (ca as u32) > (cb as u32) {
            proof {
                assert(!lex_lt(a@.skip(i as int), b@.skip(i as int)));
            }
            return false;
        }
        proof {
            assert(ca == cb);
            assert(a@.skip(i as int).drop_first() =~= a@.skip(i as int + 1));
            assert(b@.skip(i as int).drop_first() =~= b@.skip(i as int + 1));
        }
        i += 1;
    }
    proof {
        if alen < blen {
            assert(a@.skip(i as int).len() == 0);
            assert(b@.skip(i as int).len() > 0);
        } else {
            assert(b@.skip(i as int).len() == 0);
        }
    }
    alen < blen
}

// ---------------------------------------------------------------------------
// Slash detection for path validation.
// ---------------------------------------------------------------------------

/// Whether a name contains a path separator.
pub open spec fn has_slash(s: Seq<char>) -> bool {
    exists|i: int| 0 <= i < s.len() && s[i] == '/'
}

/// Executable form of `has_slash`.
pub fn contains_slash(s: &str) -> (r: bool)
    ensures
        r == has_slash(s@),
{
    let n = s.unicode_len();
    let mut i: usize = 0;
    while i < n
        invariant
            i <= n,
            n == s@.len(),
            forall|k: int| 0 <= k < i ==> s@[k] != '/',
        decreases n - i,
    {
        if s.get_char(i) == '/' {
            return true;
        }
        i += 1;
    }
    false
}

// ---------------------------------------------------------------------------
// Whitespace tokenization of command lines.
// ---------------------------------------------------------------------------

/// The whitespace the shell recognizes when splitting a command line.
pub open spec fn is_space(c: char) -> bool {
    c == ' ' || c == '\t' || c == '\r' || c == '\n'
}

/// Executable form of `is_space`.
pub fn is_space_char(c: char) -> (r: bool)
    ensures
        r == is_space(c),
{
    c == ' ' || c == '\t' || c == '\r' || c == '\n'
}

/// Length of the maximal non-whitespace prefix.
pub open spec fn word_len(s: Seq<char>) -> nat
    decreases s.len(),
{
    if s.len() == 0 || is_space(s[0]) {
        0
    } else {
        1 + word_len(s.drop_first())
    }
}

pub proof fn lemma_word_len_bounds(s: Seq<char>)
    ensures
        word_len(s) <= s.len(),
        s.len() > 0 && !is_space(s[0]) ==> word_len(s) >= 1,
    decreases s.len(),
{
    if s.len() > 0 && !is_space(s[0]) {
        lemma_word_len_bounds(s.drop_first());
    }
}

/// The words of a command line: maximal runs of non-whitespace characters,
/// in order.  Leading and trailing whitespace contribute nothing, so the
/// line is tokenized exactly as it is after trimming.
pub open spec fn tokenize(s: Seq<char>) -> Seq<Seq<char>>
    decreases s.len(),
    via tokenize_decreases
{
    if s.len() == 0 {
        Seq::empty()
    } else if is_space(s[0]) {
        tokenize(s.drop_first())
    } else {
        seq![s.take(word_len(s) as int)] + tokenize(s.skip(word_len(s) as int))
    }
}

#[via_fn]
proof fn tokenize_decreases(s: Seq<char>) {
    if s.len() > 0 && !is_space(s[0]) {
        lemma_word_len_bounds(s);
    }
}

/// Every token is a non-empty word.
pub proof fn lemma_tokens_nonempty(s: Seq<char>)
    ensures
        forall|i: int| 0 <= i < tokenize(s).len() ==> #[trigger] tokenize(s)[i].len() >= 1,
    decreases s.len(),
{
    if s.len() > 0 {
        if is_space(s[0]) {
            lemma_tokens_nonempty(s.drop_first());
            assert(tokenize(s) == tokenize(s.drop_first()));
            assert forall|i: int| 0 <= i < tokenize(s).len() implies #[trigger] tokenize(
                s,
            )[i].len() >= 1 by {
                assert(tokenize(s)[i] == tokenize(s.drop_first())[i]);
            }
        } else {
            lemma_word_len_bounds(s);
            let wl = word_len(s) as int;
            lemma_tokens_nonempty(s.skip(wl));
            assert(tokenize(s) == seq![s.take(wl)] + tokenize(s.skip(wl)));
            assert forall|i: int| 0 <= i < tokenize(s).len() implies #[trigger] tokenize(
                s,
            )[i].len() >= 1 by {
                if i == 0 {
                    assert(tokenize(s)[0] == s.take(wl));
                } else {
                    assert(tokenize(s)[i] == tokenize(s.skip(wl))[i - 1]);
                }
            }
        }
    }
}

/// The maximal word starting a sequence whose first `j` characters are
/// known to be non-whitespace runs exactly `j` characters further.
proof fn lemma_word_len_split(s: Seq<char>, j: int)
    requires
        0 <= j <= s.len(),
        forall|k: int| 0 <= k < j ==> !is_space(s[k]),
    ensures
        word_len(s) == j + word_len(s.skip(j)),
    decreases j,
{
    if j > 0 {
        lemma_word_len_split(s.drop_first(), j - 1);
        assert(s.drop_first().skip(j - 1) =~= s.skip(j));
    } else {
        assert(s.skip(0) =~= s);
    }
}

/// Split a command line into its whitespace-separated words.
pub fn tokenize_str(line: &str) -> (tokens: Vec<String>)
    ensures
        tokens.deep_view() == tokenize(line@),
{
    let n = line.unicode_len();
    let mut tokens: Vec<String> = Vec::new();
    let mut i: usize = 0;
    proof {
        assert(line@.skip(0) =~= line@);
        assert(tokens.deep_view() =~= Seq::<Seq<char>>::empty());
        assert(tokens.deep_view() + tokenize(line@) =~= tokenize(line@));
    }
    while i < n
        invariant
            i <= n,
            n == line@.len(),
            tokens.deep_view() + tokenize(line@.skip(i as int)) == tokenize(line@),
        decreases n - i,
    {
        let c = line.get_char(i);
        if is_space_char(c) {
            proof {
                assert(line@.skip(i as int)[0] == line@[i as int]);
                assert(line@.skip(i as int).drop_first() =~= line@.skip(i as int + 1));
            }
            i += 1;
        } else {
            let start = i;
            let mut j = i;
            while j < n && !is_space_char(line.get_char(j))
                invariant
                    start <= j <= n,
                    n == line@.len(),
                    forall|k: int| start <= k < j ==> !is_space(line@[k]),
                decreases n - j,
            {
                j += 1;
            }
            let word = line.substring_char(start, j);
            let ghost prev = tokens.deep_view();
            tokens.push(word.to_owned());
            proof {
                let s = line@.skip(start as int);
                assert(forall|k: int|
                    0 <= k < j - start ==> !is_space(#[trigger] s[k])) by {
                    assert(forall|k: int|
                        0 <= k < j - start ==> s[k] == line@[start + k] && !is_space(
                            line@[start + k],
                        ));
                }
                lemma_word_len_split(s, j - start);
                if j < n {
                    assert(s.skip(j - start)[0] == line@[j as int]);
                }
                assert(word_len(s.skip(j - start)) == 0);
                assert(word_len(s) == j - start);
                assert(s[0] == line@[start as int]);
                assert(s.take(j - start) =~= line@.subrange(start as int, j as int));
                assert(s.skip(j - start) =~= line@.skip(j as int));
                assert(tokenize(s) == seq![word@] + tokenize(line@.skip(j as int)));
                assert(tokens.deep_view() =~= prev + seq![word@]);
                assert(prev + (seq![word@] + tokenize(line@.skip(j as int))) =~= (prev + seq![
                    word@,
                ]) + tokenize(line@.skip(j as int)));
            }
            i = j;
        }
    }
    proof {
        assert(line@.skip(n as int) =~= Seq::<char>::empty());
        assert(tokens.deep_view() =~= tokens.deep_view() + tokenize(line@.skip(n as int)));
    }
    tokens
}

/// The given words joined by single spaces: what `echo` prints of its
/// arguments.
pub open spec fn join_spaces(toks: Seq<Seq<char>>) -> Seq<char>
    decreases toks.len(),
{
    if toks.len() == 0 {
        Seq::empty()
    } else if toks.len() == 1 {
        toks[0]
    } else {
        join_spaces(toks.drop_last()) + seq![' '] + toks.last()
    }
}

// ---------------------------------------------------------------------------
// Decimal formatting.
// ---------------------------------------------------------------------------

/// The decimal digit character for a value below ten.
pub open spec fn digit_char(d: nat) -> char
    recommends
        d < 10,
{
    ((48 + d) as u8) as char
}

/// The decimal digits of `n`, most significant first, with no leading
/// zeroes except for `n == 0` itself.
pub open spec fn dec_str(n: nat) -> Seq<char>
    decreases n,
{
    if n < 10 {
        seq![digit_char(n)]
    } else {
        dec_str(n / 10).push(digit_char(n % 10))
    }
}

/// `n` in decimal, zero-padded on the left to two digits.
pub open spec fn pad2(n: nat) -> Seq<char>
    recommends
        n < 100,
{
    if n < 10 {
        seq!['0'] + dec_str(n)
    } else {
        dec_str(n)
    }
}

fn digit_to_char(d: u8) -> (c: char)
    requires
        d < 10,
    ensures
        c == digit_char(d as nat),
{
    (48 + d) as char
}

/// Format `n` in decimal.
pub fn u64_to_dec(n: u64) -> (s: String)
    ensures
        s@ == dec_str(n as nat),
    decreases n,
{
    if n < 10 {
        let mut s = String::new();
        push_char(&mut s, digit_to_char(n as u8));
        proof {
            assert(s@ =~= dec_str(n as nat));
        }
        s
    } else {
        let mut s = u64_to_dec(n / 10);
        push_char(&mut s, digit_to_char((n % 10) as u8));
        s
    }
}

/// Format `n` in decimal, zero-padded to two digits.
pub fn u64_to_pad2(n: u64) -> (s: String)
    requires
        n < 100,
    ensures
        s@ == pad2(n as nat),
{
    if n < 10 {
        let mut s = String::new();
        push_char(&mut s, '0');
        push_char(&mut s, digit_to_char(n as u8));
        proof {
            assert(s@ =~= pad2(n as nat));
        }
        s
    } else {
        u64_to_dec(n)
    }
}

} // verus!
