//! Text helpers: code-point order on strings, decimal digits and padding.
use std::cmp::Ordering;
use vstd::prelude::*;

verus! {

/// The order of two characters by their Unicode scalar values.
pub open spec fn char_order(a: char, b: char) -> Ordering {
    if a < b {
        Ordering::Less
    } else if a == b {
        Ordering::Equal
    } else {
        Ordering::Greater
    }
}

/// Lexicographic order of two character sequences.  For Rust strings this is
/// the order of `str::cmp`: UTF-8 byte order and scalar-value order agree.
pub open spec fn text_order(a: Seq<char>, b: Seq<char>) -> Ordering
    decreases a.len(),
{
    if a.len() == 0 {
        if b.len() == 0 {
            Ordering::Equal
        } else {
            Ordering::Less
        }
    } else if b.len() == 0 {
        Ordering::Greater
    } else if a[0] != b[0] {
        char_order(a[0], b[0])
    } else {
        text_order(a.drop_first(), b.drop_first())
    }
}

/// The same order read from the other side.
pub open spec fn flipped(o: Ordering) -> Ordering {
    match o {
        Ordering::Less => Ordering::Greater,
        Ordering::Equal => Ordering::Equal,
        Ordering::Greater => Ordering::Less,
    }
}

/// Comparing two texts in the other order gives the flipped answer.
pub proof fn lemma_text_order_flip(a: Seq<char>, b: Seq<char>)
    ensures
        text_order(b, a) == flipped(text_order(a, b)),
    decreases a.len(),
{
    if a.len() > 0 && b.len() > 0 && a[0] == b[0] {
        lemma_text_order_flip(a.drop_first(), b.drop_first());
    }
}

/// Two texts compare equal exactly when they are the same text.
pub proof fn lemma_text_order_equal(a: Seq<char>, b: Seq<char>)
    ensures
        (text_order(a, b) == Ordering::Equal) <==> (a == b),
    decreases a.len(),
{
    if a.len() > 0 && b.len() > 0 && a[0] == b[0] {
        lemma_text_order_equal(a.drop_first(), b.drop_first());
        if a.drop_first() == b.drop_first() {
            assert(a =~= seq![a[0]] + a.drop_first());
            assert(b =~= seq![b[0]] + b.drop_first());
        }
        if a == b {
            assert(a.drop_first() =~= b.drop_first());
        }
    } else if a.len() == 0 && b.len() == 0 {
        assert(a =~= b);
    }
}

/// The strict text order is transitive.
pub proof fn lemma_text_order_transitive(a: Seq<char>, b: Seq<char>, c: Seq<char>)
    requires
        text_order(a, b) == Ordering::Less,
        text_order(b, c) == Ordering::Less,
    ensures
        text_order(a, c) == Ordering::Less,
    decreases a.len(),
{
    if a.len() > 0 && b.len() > 0 && c.len() > 0 && a[0] == b[0] && b[0] == c[0] {
        lemma_text_order_transitive(a.drop_first(), b.drop_first(), c.drop_first());
    }
}

/// Copies the characters of a string into a vector.
pub fn char_vec(s: &str) -> (v: Vec<char>)
    ensures
        v@ == s@,
{
    let mut v: Vec<char> = Vec::new();
    for c in it: s.chars()
        invariant
            v@ == it.seq().take(it.index() as int),
            it.seq() == s@,
    {
        v.push(c);
    }
    v
}

/// The characters of `s` from position `i` on.
pub open spec fn chars_from(s: Seq<char>, i: usize) -> Seq<char> {
    s.skip(i as int)
}

/// Compares two strings as `str::cmp` does.
pub fn compare_text(a: &str, b: &str) -> (r: Ordering)
    ensures
        r == text_order(a@, b@),
{
    let av = char_vec(a);
    let bv = char_vec(b);
    let n = av.len();
    let m = bv.len();
    let mut i: usize = 0;
    assert(a@.skip(0) =~= a@);
    assert(b@.skip(0) =~= b@);
    while i < n && i < m
        invariant
            av@ == a@,
            bv@ == b@,
            n == av@.len(),
            m == bv@.len(),
            i <= n,
            i <= m,
            text_order(a@, b@) == text_order(chars_from(a@, i), chars_from(b@, i)),
        decreases n - i,
    {
        let x = av[i];
        let y = bv[i];
        assert(chars_from(a@, i)[0] == x);
        assert(chars_from(b@, i)[0] == y);
        if x < y {
            return Ordering::Less;
        } else if x > y {
            return Ordering::Greater;
        }
        assert(chars_from(a@, i).drop_first() =~= a@.skip(i + 1));
        assert(chars_from(b@, i).drop_first() =~= b@.skip(i + 1));
        i = i + 1;
    }
    if i < m {
        Ordering::Less
    } else if i < n {
        Ordering::Greater
    } else {
        Ordering::Equal
    }
}

/// A run of `n` spaces.
pub open spec fn spaces(n: nat) -> Seq<char> {
    Seq::new(n, |k: int| ' ')
}

/// Appends `n` spaces to `out`.
pub fn push_spaces(out: &mut String, n: usize)
    ensures
        final(out)@ == old(out)@ + spaces(n as nat),
{
    let mut k: usize = 0;
    while k < n
        invariant
            k <= n,
            out@ == old(out)@ + spaces(k as nat),
        decreases n - k,
    {
        let ghost before = out@;
        out.append(" ");
        proof {
            reveal_strlit(" ");
            assert(before + seq![' '] =~= old(out)@ + spaces((k + 1) as nat));
        }
        k = k + 1;
    }
}

/// The character of a decimal digit.
pub open spec fn digit_char(d: nat) -> char {
    if d == 0 {
        '0'
    } else if d == 1 {
        '1'
    } else if d == 2 {
        '2'
    } else if d == 3 {
        '3'
    } else if d == 4 {
        '4'
    } else if d == 5 {
        '5'
    } else if d == 6 {
        '6'
    } else if d == 7 {
        '7'
    } else if d == 8 {
        '8'
    } else {
        '9'
    }
}

/// The decimal notation of a natural number, without leading zeros.
pub open spec fn decimal(n: nat) -> Seq<char>
    decreases n,
{
    if n < 10 {
        seq![digit_char(n)]
    } else {
        decimal(n / 10).push(digit_char(n % 10))
    }
}

fn digit_text(d: u64) -> (r: &'static str)
    requires
        d < 10,
    ensures
        r@ == seq![digit_char(d as nat)],
{
    proof {
        reveal_strlit("0");
        reveal_strlit("1");
        reveal_strlit("2");
        reveal_strlit("3");
        reveal_strlit("4");
        reveal_strlit("5");
        reveal_strlit("6");
        reveal_strlit("7");
        reveal_strlit("8");
        reveal_strlit("9");
    }
    if d == 0 {
        "0"
    } else if d == 1 {
        "1"
    } else if d == 2 {
        "2"
    } else if d == 3 {
        "3"
    } else if d == 4 {
        "4"
    } else if d == 5 {
        "5"
    } else if d == 6 {
        "6"
    } else if d == 7 {
        "7"
    } else if d == 8 {
        "8"
    } else {
        "9"
    }
}

/// Where two texts first differ, the smaller character decides; a proper
/// prefix comes before the longer text.
pub proof fn lemma_text_order_first_difference(a: Seq<char>, b: Seq<char>, k: int)
    requires
        0 <= k <= a.len(),
        k <= b.len(),
        a.take(k) == b.take(k),
    ensures
        k < a.len() && k < b.len() && a[k] < b[k] ==> text_order(a, b) == Ordering::Less,
        k < a.len() && k < b.len() && a[k] > b[k] ==> text_order(a, b) == Ordering::Greater,
        k == a.len() && k < b.len() ==> text_order(a, b) == Ordering::Less,
        k == b.len() && k < a.len() ==> text_order(a, b) == Ordering::Greater,
    decreases k,
{
    if k > 0 {
        assert(a[0] == a.take(k)[0]);
        assert(b[0] == b.take(k)[0]);
        assert(a.drop_first().take(k - 1) =~= a.take(k).drop_first());
        assert(b.drop_first().take(k - 1) =~= b.take(k).drop_first());
        lemma_text_order_first_difference(a.drop_first(), b.drop_first(), k - 1);
    }
}

/// The value of a text of decimal digits.
pub open spec fn digits_value(s: Seq<char>) -> nat
    decreases s.len(),
{
    if s.len() == 0 {
        0
    } else {
        digits_value(s.drop_last()) * 10 + digit_value(s.last())
    }
}

/// The value of a decimal digit character.
pub open spec fn digit_value(c: char) -> nat {
    if c == '1' {
        1
    } else if c == '2' {
        2
    } else if c == '3' {
        3
    } else if c == '4' {
        4
    } else if c == '5' {
        5
    } else if c == '6' {
        6
    } else if c == '7' {
        7
    } else if c == '8' {
        8
    } else if c == '9' {
        9
    } else {
        0
    }
}

/// Whether a character is a decimal digit.
pub open spec fn is_digit(c: char) -> bool {
    '0' <= c && c <= '9'
}

/// The decimal notation of `n` is made of digits, reads back as `n`, and
/// has no leading zero.
pub proof fn lemma_decimal_reads_back(n: nat)
    ensures
        digits_value(decimal(n)) == n,
        decimal(n).len() >= 1,
        forall|i: int| 0 <= i < decimal(n).len() ==> is_digit(#[trigger] decimal(n)[i]),
        decimal(n).len() > 1 ==> decimal(n)[0] != '0',
    decreases n,
{
    let r = n % 10;
    assert(digit_value(digit_char(r)) == r && is_digit(digit_char(r)));
    if n >= 10 {
        lemma_decimal_reads_back(n / 10);
        let d = decimal(n / 10);
        assert(decimal(n).drop_last() =~= d);
        assert(decimal(n).last() == digit_char(r));
        assert(n == (n / 10) * 10 + r);
        assert(forall|i: int| 0 <= i < d.len() ==> decimal(n)[i] == d[i]);
        assert(digits_value(decimal(n)) == digits_value(d) * 10 + digit_value(digit_char(r)));
        assert(decimal(n)[0] == d[0]);
        if n / 10 < 10 {
            assert(d[0] == digit_char(n / 10));
            assert(d[0] != '0');
        } else {
            lemma_decimal_reads_back(n / 10 / 10);
            assert(d.len() > 1);
        }
        assert(digits_value(decimal(n)) == n);
    } else {
        assert(decimal(n) =~= seq![digit_char(n)]);
        assert(decimal(n).drop_last() =~= Seq::<char>::empty());
        assert(digit_value(digit_char(n)) == n);
        assert(digits_value(decimal(n)) == digits_value(Seq::<char>::empty()) * 10 + digit_value(
            digit_char(n),
        ));
    }
}

/// Appends the decimal notation of `n` to `out`.
pub fn push_decimal(out: &mut String, n: u64)
    ensures
        final(out)@ == old(out)@ + decimal(n as nat),
    decreases n,
{
    if n >= 10 {
        push_decimal(out, n / 10);
    }
    let ghost before = out@;
    out.append(digit_text(n % 10));
    proof {
        if n >= 10 {
            assert(before + seq![digit_char((n % 10) as nat)] =~= old(out)@ + decimal(n as nat));
        } else {
            assert(before + seq![digit_char((n % 10) as nat)] =~= old(out)@ + decimal(n as nat));
        }
    }
}

} // verus!
