//! Text helpers: comparison, decimal numbers, splitting and joining.

use vstd::prelude::*;
use vstd::string::*;

verus! {

/// `String::push` of std: appends one character.
pub assume_specification[ std::string::String::push ](s: &mut std::string::String, c: char)
    ensures
        final(s)@ == old(s)@.push(c),
;

/// The characters of an optional string.
pub open spec fn opt_text(s: Option<String>) -> Option<Seq<char>> {
    match s {
        Some(t) => Some(t@),
        None => None,
    }
}

/// A copy of an optional string.
pub fn copy_opt(s: &Option<String>) -> (r: Option<String>)
    ensures
        opt_text(r) == opt_text(*s),
{
    match s {
        Some(t) => Some(t.clone()),
        None => None,
    }
}

/// True when both strings hold the same characters.
pub fn same_text(a: &str, b: &str) -> (r: bool)
    ensures
        r == (a@ == b@),
{
    let left: String = String::from_str(a);
    let right: String = String::from_str(b);
    left == right
}

/// The decimal digit for a number below ten.
pub open spec fn digit_char(d: nat) -> char {
    (('0' as nat) + d) as char
}

/// The decimal notation of a natural number, without leading zeros.
pub open spec fn decimal(n: nat) -> Seq<char>
    decreases n,
{
    if n < 10 {
        seq![digit_char(n)]
    } else {
        decimal(n / 10).push(digit_char(n % 10))
    }
}

/// The decimal digit for a number below ten.
fn digit_of(d: u64) -> (c: char)
    requires
        d < 10,
    ensures
        c == digit_char(d as nat),
{
    let code: u8 = 48 + (d as u8);
    code as char
}

/// The decimal notation of `n`.
pub fn decimal_text(n: u64) -> (s: String)
    ensures
        s@ == decimal(n as nat),
    decreases n,
{
    if n < 10 {
        let mut s = String::new();
        s.push(digit_of(n));
        assert(s@ =~= seq![digit_char(n as nat)]);
        s
    } else {
        let mut s = decimal_text(n / 10);
        s.push(digit_of(n % 10));
        s
    }
}

/// The pieces of `s` between occurrences of `sep`; a text without `sep` is one piece.
pub open spec fn split_seq(s: Seq<char>, sep: char) -> Seq<Seq<char>>
    decreases s.len(),
{
    if s.len() == 0 {
        seq![Seq::<char>::empty()]
    } else {
        let before = split_seq(s.drop_last(), sep);
        if s.last() == sep {
            before.push(Seq::<char>::empty())
        } else {
            before.drop_last().push(before.last().push(s.last()))
        }
    }
}

pub proof fn lemma_split_nonempty(s: Seq<char>, sep: char)
    ensures
        split_seq(s, sep).len() >= 1,
    decreases s.len(),
{
    if s.len() > 0 {
        lemma_split_nonempty(s.drop_last(), sep);
    }
}

/// True when `s` does not hold `c`.
pub open spec fn without(s: Seq<char>, c: char) -> bool {
    forall|i: int| 0 <= i < s.len() ==> #[trigger] s[i] != c
}

/// A text without the separator is one piece.
pub proof fn lemma_split_plain(t: Seq<char>, sep: char)
    requires
        without(t, sep),
    ensures
        split_seq(t, sep) == seq![t],
    decreases t.len(),
{
    if t.len() > 0 {
        assert(t[t.len() - 1] != sep);
        lemma_split_plain(t.drop_last(), sep);
        assert(t.drop_last().push(t.last()) =~= t);
        assert(split_seq(t, sep) =~= seq![t]);
    } else {
        assert(t =~= Seq::empty());
    }
}

/// A separator and a text without one add one piece.
pub proof fn lemma_split_append(s: Seq<char>, t: Seq<char>, sep: char)
    requires
        without(t, sep),
    ensures
        split_seq(s.push(sep) + t, sep) == split_seq(s, sep).push(t),
    decreases t.len(),
{
    let whole = s.push(sep) + t;
    if t.len() > 0 {
        assert(t[t.len() - 1] != sep);
        assert(whole.drop_last() =~= s.push(sep) + t.drop_last());
        lemma_split_append(s, t.drop_last(), sep);
        let before = split_seq(s, sep).push(t.drop_last());
        assert(before.drop_last() =~= split_seq(s, sep));
        assert(t.drop_last().push(t.last()) =~= t);
    } else {
        assert(whole =~= s.push(sep));
        assert(s.push(sep).drop_last() =~= s);
        assert(t =~= Seq::empty());
    }
}

/// True for an ASCII character.
pub open spec fn is_ascii_char(c: char) -> bool {
    (c as u32) < 128
}

/// True when every character of a text is an ASCII one.
pub open spec fn is_ascii_text(s: Seq<char>) -> bool {
    forall|i: int| 0 <= i < s.len() ==> is_ascii_char(#[trigger] s[i])
}

/// The uppercase of an ASCII character.
pub open spec fn ascii_upper(c: char) -> char {
    if 'a' <= c <= 'z' {
        ((c as u32) - 32) as char
    } else {
        c
    }
}

/// No piece of a text holds the separator, and the pieces of an ASCII text are ASCII texts.
pub proof fn lemma_split_pieces(s: Seq<char>, sep: char)
    ensures
        forall|i: int|
            0 <= i < split_seq(s, sep).len() ==> without(#[trigger] split_seq(s, sep)[i], sep),
        is_ascii_text(s) ==> forall|i: int|
            0 <= i < split_seq(s, sep).len() ==> is_ascii_text(#[trigger] split_seq(s, sep)[i]),
    decreases s.len(),
{
    if s.len() > 0 {
        let less = s.drop_last();
        let before = split_seq(less, sep);
        let pieces = split_seq(s, sep);
        lemma_split_nonempty(less, sep);
        lemma_split_pieces(less, sep);
        assert(is_ascii_text(s) ==> is_ascii_text(less));
        assert forall|i: int| 0 <= i < pieces.len() implies without(
            #[trigger] pieces[i],
            sep,
        ) && (is_ascii_text(s) ==> is_ascii_text(pieces[i])) by {
            if i < pieces.len() - 1 {
                assert(pieces[i] == before[i]);
            } else {
                assert(without(before.last(), sep));
                assert(is_ascii_text(s) ==> is_ascii_char(s[s.len() - 1]));
            }
        }
    }
}

/// The characters of each string of a list.
pub open spec fn texts(v: Seq<String>) -> Seq<Seq<char>> {
    v.map_values(|s: String| s@)
}

/// The pieces of `s` between occurrences of `sep`.
pub fn split_text(s: &str, sep: char) -> (r: Vec<String>)
    ensures
        texts(r@) == split_seq(s@, sep),
        r@.len() >= 1,
{
    let mut done: Vec<String> = Vec::new();
    let mut last = String::new();
    let ghost all = s@;
    assert(texts(done@).push(last@) =~= split_seq(all.take(0), sep));
    for c in it: s.chars()
        invariant
            it.seq() == all,
            texts(done@).push(last@) == split_seq(all.take(it.index() as int), sep),
    {
        proof {
            let i = it.index() as int;
            assert(all.take(i + 1).drop_last() =~= all.take(i));
            lemma_split_nonempty(all.take(i), sep);
        }
        let ghost before = texts(done@).push(last@);
        if c == sep {
            done.push(last);
            last = String::new();
            assert(texts(done@) =~= before);
            assert(last@ =~= Seq::<char>::empty());
        } else {
            last.push(c);
            assert(before.drop_last() =~= texts(done@));
        }
    }
    assert(all.take(all.len() as int) =~= all);
    let ghost before = texts(done@).push(last@);
    done.push(last);
    assert(texts(done@) =~= before);
    done
}

/// True when `s` begins with `prefix`.
pub open spec fn has_prefix(s: Seq<char>, prefix: Seq<char>) -> bool {
    prefix.len() <= s.len() && s.take(prefix.len() as int) == prefix
}

/// What follows `prefix` in `s`, when `s` begins with it.
pub fn strip_prefix<'a>(s: &'a str, prefix: &str) -> (r: Option<&'a str>)
    ensures
        match r {
            Some(rest) => has_prefix(s@, prefix@) && rest@ == s@.skip(prefix@.len() as int),
            None => !has_prefix(s@, prefix@),
        },
{
    let n: usize = prefix.unicode_len();
    let total: usize = s.unicode_len();
    if n > total {
        return None;
    }
    let head = s.substring_char(0, n);
    assert(head@ =~= s@.take(n as int));
    if same_text(head, prefix) {
        let rest = s.substring_char(n, total);
        assert(rest@ =~= s@.skip(n as int));
        Some(rest)
    } else {
        None
    }
}

/// Three texts joined.
pub fn joined(before: &str, middle: &str, after: &str) -> (r: String)
    ensures
        r@ == before@ + middle@ + after@,
{
    let mut out = String::from_str(before);
    out.append(middle);
    out.append(after);
    out
}

/// A text begins with a prefix exactly when it is the prefix and something more, and what follows
/// the prefix is that.
pub proof fn a_prefix_and_the_rest_make_the_text(s: Seq<char>, prefix: Seq<char>, rest: Seq<char>)
    ensures
        has_prefix(prefix + rest, prefix),
        (prefix + rest).skip(prefix.len() as int) == rest,
        has_prefix(s, prefix) ==> s == prefix + s.skip(prefix.len() as int),
{
    assert((prefix + rest).take(prefix.len() as int) =~= prefix);
    assert((prefix + rest).skip(prefix.len() as int) =~= rest);
    if has_prefix(s, prefix) {
        assert(s =~= s.take(prefix.len() as int) + s.skip(prefix.len() as int));
    }
}

/// The decimal notation of a number is made of digits, and only that of zero begins with a zero.
pub proof fn decimal_is_digits(n: nat)
    ensures
        decimal(n).len() > 0,
        forall|i: int| 0 <= i < decimal(n).len() ==> '0' <= #[trigger] decimal(n)[i] <= '9',
        decimal(n)[0] == '0' <==> n == 0,
    decreases n,
{
    if n >= 10 {
        decimal_is_digits(n / 10);
    }
}

} // verus!
