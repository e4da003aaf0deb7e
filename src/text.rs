//! Character-sequence helpers for the ability-score token: splitting on a
//! separator, joining with one, and unsigned decimal numbers.

use vstd::prelude::*;

verus! {

/// The pieces of `s` between occurrences of `sep`, in order; like `str::split`,
/// there is always at least one piece (an empty text gives one empty piece).
pub open spec fn split(s: Seq<char>, sep: char) -> Seq<Seq<char>>
    decreases s.len(),
{
    if s.len() == 0 {
        seq![Seq::<char>::empty()]
    } else {
        let rest = split(s.drop_last(), sep);
        if s.last() == sep {
            rest.push(Seq::<char>::empty())
        } else {
            rest.update(rest.len() - 1, rest.last().push(s.last()))
        }
    }
}

/// The pieces joined with `sep` between each two of them.
pub open spec fn join(pieces: Seq<Seq<char>>, sep: char) -> Seq<char>
    decreases pieces.len(),
{
    if pieces.len() == 0 {
        Seq::<char>::empty()
    } else if pieces.len() == 1 {
        pieces[0]
    } else {
        join(pieces.drop_last(), sep).push(sep) + pieces.last()
    }
}

/// `c` does not occur in `s`.
pub open spec fn lacks(s: Seq<char>, c: char) -> bool {
    forall|i: int| 0 <= i < s.len() ==> s[i] != c
}

/// The decimal digit character for `d` (`d` < 10).
pub open spec fn digit_char(d: nat) -> char {
    if d == 0 {
        '0'
    } else if d == 1 {
        '1'
    } else if d == 2 {
        '2'
    } else if d == 3 {
        '3'
    } else if d == 4 {
        '4'
    } else if d == 5 {
        '5'
    } else if d == 6 {
        '6'
    } else if d == 7 {
        '7'
    } else if d == 8 {
        '8'
    } else {
        '9'
    }
}

pub open spec fn is_digit(c: char) -> bool {
    '0' <= c && c <= '9'
}

pub open spec fn digit_value(c: char) -> nat {
    (c as int - '0' as int) as nat
}

pub open spec fn all_digits(s: Seq<char>) -> bool {
    forall|i: int| 0 <= i < s.len() ==> is_digit(#[trigger] s[i])
}

/// The number that the decimal digits `s` write (most significant first).
pub open spec fn digits_value(s: Seq<char>) -> nat
    decreases s.len(),
{
    if s.len() == 0 {
        0
    } else {
        digits_value(s.drop_last()) * 10 + digit_value(s.last())
    }
}

/// The canonical decimal form of `n`: no leading zeros, "0" for zero.
pub open spec fn decimal(n: nat) -> Seq<char>
    decreases n,
{
    if n < 10 {
        seq![digit_char(n)]
    } else {
        decimal(n / 10).push(digit_char(n % 10))
    }
}

/// `s` is a decimal literal of a value that fits in a `u8`.
pub open spec fn is_u8_literal(s: Seq<char>) -> bool {
    s.len() > 0 && all_digits(s) && digits_value(s) <= u8::MAX
}

pub proof fn lemma_digit_char(d: nat)
    requires
        d < 10,
    ensures
        is_digit(digit_char(d)),
        digit_value(digit_char(d)) == d,
        digit_char(d) != ';',
        digit_char(d) != '+',
{
}

pub proof fn lemma_decimal(n: nat)
    ensures
        decimal(n).len() > 0,
        all_digits(decimal(n)),
        digits_value(decimal(n)) == n,
    decreases n,
{
    if n < 10 {
        lemma_digit_char(n);
        assert(decimal(n).drop_last() =~= Seq::<char>::empty());
        assert(digits_value(Seq::<char>::empty()) == 0);
        assert(digits_value(decimal(n)) == digits_value(Seq::<char>::empty()) * 10 + digit_value(
            digit_char(n),
        ));
    } else {
        lemma_decimal(n / 10);
        lemma_digit_char(n % 10);
        assert(decimal(n).drop_last() =~= decimal(n / 10));
        assert(decimal(n).last() == digit_char(n % 10));
        assert(digits_value(decimal(n)) == digits_value(decimal(n / 10)) * 10 + (n % 10));
        assert((n / 10) * 10 + n % 10 == n);
        assert(all_digits(decimal(n)));
    }
}

pub proof fn lemma_decimal_lacks(n: nat, c: char)
    requires
        !is_digit(c),
    ensures
        lacks(decimal(n), c),
{
    lemma_decimal(n);
}

/// A prefix of digits never writes more than the whole.
proof fn lemma_prefix_value_le(s: Seq<char>, k: int)
    requires
        0 <= k <= s.len(),
        all_digits(s),
    ensures
        digits_value(s.take(k)) <= digits_value(s),
    decreases s.len() - k,
{
    if k < s.len() {
        lemma_prefix_value_le(s, k + 1);
        assert(s.take(k + 1).drop_last() =~= s.take(k));
    } else {
        assert(s.take(k) =~= s);
    }
}

/// Appending characters other than `sep` extends the last piece.
proof fn lemma_split_extend(a: Seq<char>, x: Seq<char>, sep: char)
    requires
        lacks(x, sep),
    ensures
        split(a + x, sep) == split(a, sep).update(
            split(a, sep).len() - 1,
            split(a, sep).last() + x,
        ),
        split(a, sep).len() > 0,
    decreases x.len(),
{
    lemma_split_len(a, sep);
    if x.len() == 0 {
        assert(a + x =~= a);
        assert(split(a, sep).last() + x =~= split(a, sep).last());
        assert(split(a, sep).update(split(a, sep).len() - 1, split(a, sep).last())
            =~= split(a, sep));
    } else {
        let y = x.drop_last();
        lemma_split_extend(a, y, sep);
        assert((a + x).drop_last() =~= a + y);
        assert((a + x).last() == x.last());
        assert(split(a, sep).last() + y + seq![x.last()] =~= split(a, sep).last() + x);
        assert((split(a, sep).last() + y).push(x.last()) =~= split(a, sep).last() + x);
        assert(split(a + x, sep) =~= split(a, sep).update(
            split(a, sep).len() - 1,
            split(a, sep).last() + x,
        ));
    }
}

pub proof fn lemma_split_len(s: Seq<char>, sep: char)
    ensures
        split(s, sep).len() > 0,
    decreases s.len(),
{
    if s.len() > 0 {
        lemma_split_len(s.drop_last(), sep);
    }
}

/// Splitting undoes joining, where no piece holds the separator.
pub proof fn lemma_split_join(pieces: Seq<Seq<char>>, sep: char)
    requires
        pieces.len() > 0,
        forall|i: int| 0 <= i < pieces.len() ==> lacks(#[trigger] pieces[i], sep),
    ensures
        split(join(pieces, sep), sep) == pieces,
    decreases pieces.len(),
{
    if pieces.len() == 1 {
        let e = Seq::<char>::empty();
        lemma_split_extend(e, pieces[0], sep);
        assert(e + pieces[0] =~= pieces[0]);
        assert(split(e, sep) == seq![e]);
        assert(split(pieces[0], sep) =~= pieces);
    } else {
        let init = pieces.drop_last();
        assert forall|i: int| 0 <= i < init.len() implies lacks(#[trigger] init[i], sep) by {
            assert(init[i] == pieces[i]);
        }
        lemma_split_join(init, sep);
        let a = join(init, sep).push(sep);
        assert(a.drop_last() =~= join(init, sep));
        assert(split(a, sep) == init.push(Seq::<char>::empty()));
        assert(lacks(pieces[pieces.len() - 1], sep));
        lemma_split_extend(a, pieces.last(), sep);
        assert(Seq::<char>::empty() + pieces.last() =~= pieces.last());
        assert(split(join(pieces, sep), sep) =~= pieces);
    }
}

/// The characters of `s`.
pub fn chars_of(s: &str) -> (r: Vec<char>)
    ensures
        r@ == s@,
{
    let mut r: Vec<char> = Vec::new();
    for c in it: s.chars()
        invariant
            r@ == it.seq().take(it.index() as int),
    {
        r.push(c);
        assert(r@ =~= it.seq().take(it.index() + 1));
    }
    r
}

/// The pieces of `s` between occurrences of `sep` (see `split`).
pub fn split_chars(s: &Vec<char>, sep: char) -> (r: Vec<Vec<char>>)
    ensures
        r@.map_values(|p: Vec<char>| p@) == split(s@, sep),
        r@.len() > 0,
{
    proof {
        lemma_split_len(s@, sep);
    }
    let mut done: Vec<Vec<char>> = Vec::new();
    let mut current: Vec<char> = Vec::new();
    let mut k: usize = 0;
    assert(s@.take(0) =~= Seq::<char>::empty());
    assert(done@.map_values(|p: Vec<char>| p@).push(current@) =~= split(s@.take(0), sep));
    while k < s.len()
        invariant
            k <= s.len(),
            done@.map_values(|p: Vec<char>| p@).push(current@) == split(s@.take(k as int), sep),
        decreases s.len() - k,
    {
        let c = s[k];
        let ghost before = s@.take(k as int);
        assert(s@.take(k as int + 1).drop_last() =~= before);
        assert(s@.take(k as int + 1).last() == c);
        if c == sep {
            let piece = current;
            done.push(piece);
            current = Vec::new();
            assert(done@.map_values(|p: Vec<char>| p@).push(current@) =~= split(
                s@.take(k as int + 1),
                sep,
            ));
        } else {
            current.push(c);
            assert(done@.map_values(|p: Vec<char>| p@).push(current@) =~= split(
                s@.take(k as int + 1),
                sep,
            ));
        }
        k = k + 1;
    }
    assert(s@.take(k as int) =~= s@);
    done.push(current);
    assert(done@.map_values(|p: Vec<char>| p@) =~= split(s@, sep));
    done
}

/// Whether `a` and `b` hold the same characters.
pub fn same_chars(a: &Vec<char>, b: &Vec<char>) -> (r: bool)
    ensures
        r == (a@ == b@),
{
    if a.len() != b.len() {
        return false;
    }
    let mut k: usize = 0;
    while k < a.len()
        invariant
            k <= a.len(),
            a.len() == b.len(),
            a@.take(k as int) == b@.take(k as int),
        decreases a.len() - k,
    {
        if a[k] != b[k] {
            assert(a@[k as int] != b@[k as int]);
            return false;
        }
        assert(a@.take(k as int + 1) =~= a@.take(k as int).push(a@[k as int]));
        assert(b@.take(k as int + 1) =~= b@.take(k as int).push(b@[k as int]));
        k = k + 1;
    }
    assert(a@ =~= a@.take(k as int));
    assert(b@ =~= b@.take(k as int));
    true
}

/// Reads `s` as a decimal `u8`; `None` where it is empty, holds a character
/// other than a digit, or writes a value over 255.
pub fn parse_u8(s: &Vec<char>) -> (r: Option<u8>)
    ensures
        r matches Some(v) ==> is_u8_literal(s@) && v == digits_value(s@),
        r is None ==> !is_u8_literal(s@),
{
    if s.len() == 0 {
        return None;
    }
    let mut acc: u32 = 0;
    let mut k: usize = 0;
    assert(s@.take(0) =~= Seq::<char>::empty());
    while k < s.len()
        invariant
            k <= s.len(),
            all_digits(s@.take(k as int)),
            acc == digits_value(s@.take(k as int)),
            acc <= u8::MAX,
        decreases s.len() - k,
    {
        let c = s[k];
        assert(s@.take(k as int + 1).drop_last() =~= s@.take(k as int));
        assert(s@.take(k as int + 1).last() == c);
        if !('0' <= c && c <= '9') {
            assert(!all_digits(s@)) by {
                assert(!is_digit(s@[k as int]));
            }
            return None;
        }
        let d = (c as u32) - ('0' as u32);
        let next = acc * 10 + d;
        assert(all_digits(s@.take(k as int + 1)));
        if next > 255 {
            proof {
                if all_digits(s@) {
                    lemma_prefix_value_le(s@, k as int + 1);
                }
            }
            return None;
        }
        acc = next;
        k = k + 1;
    }
    assert(s@.take(k as int) =~= s@);
    Some(acc as u8)
}

/// Appends the decimal form of `v` to `out`.
pub fn push_decimal(out: &mut String, v: u8)
    ensures
        final(out)@ == old(out)@ + decimal(v as nat),
{
    if v >= 100 {
        push_digit(out, v / 100);
        push_digit(out, v / 10 % 10);
        push_digit(out, v % 10);
        assert(decimal(v as nat) == decimal((v / 10) as nat).push(digit_char((v % 10) as nat)));
        assert(decimal((v / 10) as nat) == decimal((v / 100) as nat).push(
            digit_char((v / 10 % 10) as nat),
        ));
        assert(decimal((v / 100) as nat) == seq![digit_char((v / 100) as nat)]);
    } else if v >= 10 {
        push_digit(out, v / 10);
        push_digit(out, v % 10);
        assert(decimal(v as nat) == decimal((v / 10) as nat).push(digit_char((v % 10) as nat)));
        assert(decimal((v / 10) as nat) == seq![digit_char((v / 10) as nat)]);
    } else {
        push_digit(out, v);
    }
    assert(final(out)@ =~= old(out)@ + decimal(v as nat));
}

fn push_digit(out: &mut String, d: u8)
    requires
        d < 10,
    ensures
        final(out)@ == old(out)@.push(digit_char(d as nat)),
{
    let s = match d {
        0 => "0",
        1 => "1",
        2 => "2",
        3 => "3",
        4 => "4",
        5 => "5",
        6 => "6",
        7 => "7",
        8 => "8",
        _ => "9",
    };
    proof {
        reveal_strlit("0");
        reveal_strlit("1");
        reveal_strlit("2");
        reveal_strlit("3");
        reveal_strlit("4");
        reveal_strlit("5");
        reveal_strlit("6");
        reveal_strlit("7");
        reveal_strlit("8");
        reveal_strlit("9");
    }
    assert(s@ =~= seq![digit_char(d as nat)]);
    out.append(s);
    assert(final(out)@ =~= old(out)@.push(digit_char(d as nat)));
}

} // verus!
