//! Text helpers: comparison of strings and rendering of numbers.

use vstd::prelude::*;

verus! {

/// The lower-case hexadecimal digit of `d`.
pub open spec fn digit_char(d: nat) -> char {
    if d == 0 {
        '0'
    } else if d == 1 {
        '1'
    } else if d == 2 {
        '2'
    } else if d == 3 {
        '3'
    } else if d == 4 {
        '4'
    } else if d == 5 {
        '5'
    } else if d == 6 {
        '6'
    } else if d == 7 {
        '7'
    } else if d == 8 {
        '8'
    } else if d == 9 {
        '9'
    } else if d == 10 {
        'a'
    } else if d == 11 {
        'b'
    } else if d == 12 {
        'c'
    } else if d == 13 {
        'd'
    } else if d == 14 {
        'e'
    } else if d == 15 {
        'f'
    } else {
        '?'
    }
}

/// The upper-case hexadecimal digit of `d`.
pub open spec fn upper_digit_char(d: nat) -> char {
    if d == 0 {
        '0'
    } else if d == 1 {
        '1'
    } else if d == 2 {
        '2'
    } else if d == 3 {
        '3'
    } else if d == 4 {
        '4'
    } else if d == 5 {
        '5'
    } else if d == 6 {
        '6'
    } else if d == 7 {
        '7'
    } else if d == 8 {
        '8'
    } else if d == 9 {
        '9'
    } else if d == 10 {
        'A'
    } else if d == 11 {
        'B'
    } else if d == 12 {
        'C'
    } else if d == 13 {
        'D'
    } else if d == 14 {
        'E'
    } else if d == 15 {
        'F'
    } else {
        '?'
    }
}

/// The digit of `d` in the chosen case.
pub open spec fn hex_digit(d: nat, upper: bool) -> char {
    if upper {
        upper_digit_char(d)
    } else {
        digit_char(d)
    }
}

/// The decimal rendering of `n`, as `to_string` gives it.
pub open spec fn dec_chars(n: nat) -> Seq<char>
    decreases n,
{
    if n < 10 {
        seq![digit_char(n)]
    } else {
        dec_chars(n / 10).push(digit_char(n % 10))
    }
}

/// The hexadecimal rendering of `n` without prefix, as `{:x}` (or `{:X}`) gives it.
pub open spec fn hex_chars(n: nat, upper: bool) -> Seq<char>
    decreases n,
{
    if n < 16 {
        seq![hex_digit(n, upper)]
    } else {
        hex_chars(n / 16, upper).push(hex_digit(n % 16, upper))
    }
}

/// `s` padded on the left with `'0'` to at least `w` characters.
pub open spec fn zero_pad(s: Seq<char>, w: nat) -> Seq<char> {
    if s.len() >= w {
        s
    } else {
        Seq::new((w - s.len()) as nat, |i: int| '0') + s
    }
}

/// Whether two string slices hold the same characters.
pub(crate) fn str_eq(a: &str, b: &str) -> (r: bool)
    ensures
        r == (a@ == b@),
{
    let n = a.unicode_len();
    let m = b.unicode_len();
    if n != m {
        return false;
    }
    let mut i: usize = 0;
    while i < n
        invariant
            i <= n,
            n == a@.len(),
            m == b@.len(),
            n == m,
            forall|k: int| 0 <= k < i ==> a@[k] == b@[k],
        decreases n - i,
    {
        if a.get_char(i) != b.get_char(i) {
            return false;
        }
        i += 1;
    }
    assert(a@ =~= b@);
    true
}

fn digit_str(d: u128, upper: bool) -> (r: &'static str)
    requires
        d < 16,
    ensures
        r@ == seq![hex_digit(d as nat, upper)],
{
    if upper {
        if d == 0 {
            proof {
                reveal_strlit("0");
            }
            "0"
        } else if d == 1 {
            proof {
                reveal_strlit("1");
            }
            "1"
        } else if d == 2 {
            proof {
                reveal_strlit("2");
            }
            "2"
        } else if d == 3 {
            proof {
                reveal_strlit("3");
            }
            "3"
        } else if d == 4 {
            proof {
                reveal_strlit("4");
            }
            "4"
        } else if d == 5 {
            proof {
                reveal_strlit("5");
            }
            "5"
        } else if d == 6 {
            proof {
                reveal_strlit("6");
            }
            "6"
        } else if d == 7 {
            proof {
                reveal_strlit("7");
            }
            "7"
        } else if d == 8 {
            proof {
                reveal_strlit("8");
            }
            "8"
        } else if d == 9 {
            proof {
                reveal_strlit("9");
            }
            "9"
        } else if d == 10 {
            proof {
                reveal_strlit("A");
            }
            "A"
        } else if d == 11 {
            proof {
                reveal_strlit("B");
            }
            "B"
        } else if d == 12 {
            proof {
                reveal_strlit("C");
            }
            "C"
        } else if d == 13 {
            proof {
                reveal_strlit("D");
            }
            "D"
        } else if d == 14 {
            proof {
                reveal_strlit("E");
            }
            "E"
        } else {
            proof {
                reveal_strlit("F");
            }
            "F"
        }
    } else {
        if d == 0 {
            proof {
                reveal_strlit("0");
            }
            "0"
        } else if d == 1 {
            proof {
                reveal_strlit("1");
            }
            "1"
        } else if d == 2 {
            proof {
                reveal_strlit("2");
            }
            "2"
        } else if d == 3 {
            proof {
                reveal_strlit("3");
            }
            "3"
        } else if d == 4 {
            proof {
                reveal_strlit("4");
            }
            "4"
        } else if d == 5 {
            proof {
                reveal_strlit("5");
            }
            "5"
        } else if d == 6 {
            proof {
                reveal_strlit("6");
            }
            "6"
        } else if d == 7 {
            proof {
                reveal_strlit("7");
            }
            "7"
        } else if d == 8 {
            proof {
                reveal_strlit("8");
            }
            "8"
        } else if d == 9 {
            proof {
                reveal_strlit("9");
            }
            "9"
        } else if d == 10 {
            proof {
                reveal_strlit("a");
            }
            "a"
        } else if d == 11 {
            proof {
                reveal_strlit("b");
            }
            "b"
        } else if d == 12 {
            proof {
                reveal_strlit("c");
            }
            "c"
        } else if d == 13 {
            proof {
                reveal_strlit("d");
            }
            "d"
        } else if d == 14 {
            proof {
                reveal_strlit("e");
            }
            "e"
        } else {
            proof {
                reveal_strlit("f");
            }
            "f"
        }
    }
}

fn prepend(s: String, p: &str) -> (r: String)
    ensures
        r@ == p@ + s@,
{
    let mut t = String::from_str(p);
    t.append(s.as_str());
    t
}

/// Renders `n` in decimal.
pub fn dec_string(n: u128) -> (r: String)
    ensures
        r@ == dec_chars(n as nat),
{
    let mut s = String::new();
    let mut m = n;
    while m >= 10
        invariant
            dec_chars(n as nat) == dec_chars(m as nat) + s@,
        decreases m,
    {
        let d = m % 10;
        s = prepend(s, digit_str(d, false));
        proof {
            assert(dec_chars(m as nat) == dec_chars((m / 10) as nat).push(digit_char((m % 10) as nat)));
            assert(dec_chars(n as nat) =~= dec_chars((m / 10) as nat) + s@);
        }
        m = m / 10;
    }
    s = prepend(s, digit_str(m, false));
    assert(dec_chars(n as nat) =~= s@);
    s
}

/// Renders `n` in hexadecimal, in the chosen case, without prefix.
pub fn hex_string(n: u128, upper: bool) -> (r: String)
    ensures
        r@ == hex_chars(n as nat, upper),
{
    let mut s = String::new();
    let mut m = n;
    while m >= 16
        invariant
            hex_chars(n as nat, upper) == hex_chars(m as nat, upper) + s@,
        decreases m,
    {
        let d = m % 16;
        s = prepend(s, digit_str(d, upper));
        proof {
            assert(hex_chars(m as nat, upper) == hex_chars((m / 16) as nat, upper).push(
                hex_digit((m % 16) as nat, upper),
            ));
            assert(hex_chars(n as nat, upper) =~= hex_chars((m / 16) as nat, upper) + s@);
        }
        m = m / 16;
    }
    s = prepend(s, digit_str(m, upper));
    assert(hex_chars(n as nat, upper) =~= s@);
    s
}

spec fn pow16(k: nat) -> nat
    decreases k,
{
    if k == 0 {
        1
    } else {
        16 * pow16((k - 1) as nat)
    }
}

proof fn lemma_hex_len_le(n: nat, k: nat)
    requires
        n < pow16(k),
    ensures
        hex_chars(n, false).len() >= 1,
        k >= 1 ==> hex_chars(n, false).len() <= k,
    decreases n,
{
    if n >= 16 {
        if k >= 1 {
            assert(pow16(k) == 16 * pow16((k - 1) as nat));
            assert(n / 16 < pow16((k - 1) as nat));
            lemma_hex_len_le(n / 16, (k - 1) as nat);
            if k == 1 {
                assert(pow16(0) == 1);
            }
        } else {
            assert(pow16(0) == 1);
        }
    }
}

proof fn lemma_hex_nonempty(n: nat)
    ensures
        hex_chars(n, false).len() >= 1,
    decreases n,
{
    if n >= 16 {
        lemma_hex_nonempty(n / 16);
    }
}

proof fn lemma_hex_len(n: nat)
    ensures
        hex_chars(n, false).len() >= 1,
        n < 0x1_0000_0000 ==> hex_chars(n, false).len() <= 8,
{
    assert(pow16(8) == 0x1_0000_0000) by {
        reveal_with_fuel(pow16, 9);
    }
    if n < 0x1_0000_0000 {
        lemma_hex_len_le(n, 8);
    } else {
        lemma_hex_nonempty(n);
    }
}

/// Renders a 32-bit value as eight lower-case hexadecimal digits, as `{:08x}` does.
pub fn hex8_string(n: u32) -> (r: String)
    ensures
        r@ == zero_pad(hex_chars(n as nat, false), 8),
{
    let mut s = hex_string(n as u128, false);
    proof {
        lemma_hex_len(n as nat);
    }
    let ghost h = s@;
    let mut k: usize = 0;
    let start = s.as_str().unicode_len();
    while start + k < 8
        invariant
            h == hex_chars(n as nat, false),
            1 <= h.len() <= 8,
            start == h.len(),
            start + k <= 8,
            s@ == Seq::new(k as nat, |i: int| '0') + h,
        decreases 8 - start - k,
    {
        proof {
            reveal_strlit("0");
        }
        s = prepend(s, "0");
        k += 1;
        assert(s@ =~= Seq::new(k as nat, |i: int| '0') + h);
    }
    assert(s@ =~= zero_pad(h, 8));
    s
}

/// Whether `p` is a prefix of `s`.
pub fn has_prefix(s: &str, p: &str) -> (r: bool)
    ensures
        r == p@.is_prefix_of(s@),
{
    let n = s.unicode_len();
    let m = p.unicode_len();
    if m > n {
        return false;
    }
    let mut i: usize = 0;
    while i < m
        invariant
            i <= m <= n,
            n == s@.len(),
            m == p@.len(),
            forall|k: int| 0 <= k < i ==> s@[k] == p@[k],
        decreases m - i,
    {
        if s.get_char(i) != p.get_char(i) {
            return false;
        }
        i += 1;
    }
    true
}

/// The pieces joined with `sep` between each two.
pub open spec fn join_spec(v: Seq<Seq<char>>, sep: Seq<char>) -> Seq<char>
    decreases v.len(),
{
    if v.len() == 0 {
        Seq::empty()
    } else if v.len() == 1 {
        v[0]
    } else {
        join_spec(v.drop_last(), sep) + sep + v.last()
    }
}

/// Joins strings with a separator.
pub fn join_strings(v: &Vec<String>, sep: &str) -> (r: String)
    ensures
        r@ == join_spec(v@.map_values(|x: String| x@), sep@),
{
    let ghost views = v@.map_values(|x: String| x@);
    let mut r = String::new();
    let mut i: usize = 0;
    while i < v.len()
        invariant
            i <= v.len(),
            views == v@.map_values(|x: String| x@),
            r@ == join_spec(views.subrange(0, i as int), sep@),
        decreases v.len() - i,
    {
        if i > 0 {
            r.append(sep);
        }
        r.append(v[i].as_str());
        proof {
            assert(views.subrange(0, i + 1).drop_last() =~= views.subrange(0, i as int));
        }
        i += 1;
    }
    assert(views.subrange(0, v.len() as int) =~= views);
    r
}

/// The number of `'\n'` characters.
pub open spec fn newlines(s: Seq<char>) -> nat
    decreases s.len(),
{
    if s.len() == 0 {
        0
    } else {
        newlines(s.drop_last()) + if s.last() == '\n' {
            1nat
        } else {
            0nat
        }
    }
}

/// The number of lines of a text: a line ends at a newline or at the end of
/// the text, and a text that ends with a newline has no empty line after it.
pub open spec fn line_count(s: Seq<char>) -> nat {
    if s.len() == 0 {
        0
    } else if s.last() == '\n' {
        newlines(s)
    } else {
        newlines(s) + 1
    }
}

proof fn lemma_newlines_le(s: Seq<char>)
    ensures
        newlines(s) <= s.len(),
    decreases s.len(),
{
    if s.len() > 0 {
        lemma_newlines_le(s.drop_last());
    }
}

/// Counts the lines of a text, as `str::lines` enumerates them.
pub fn count_lines(s: &str) -> (r: usize)
    ensures
        r == line_count(s@),
{
    let n = s.unicode_len();
    let mut k: usize = 0;
    let mut i: usize = 0;
    while i < n
        invariant
            n == s@.len(),
            i <= n,
            k == newlines(s@.subrange(0, i as int)),
            k <= i,
        decreases n - i,
    {
        assert(s@.subrange(0, i + 1).drop_last() =~= s@.subrange(0, i as int));
        if s.get_char(i) == '\n' {
            k += 1;
        }
        i += 1;
    }
    assert(s@.subrange(0, n as int) =~= s@);
    if n == 0 || s.get_char(n - 1) == '\n' {
        k
    } else {
        proof {
            lemma_newlines_le(s@.drop_last());
        }
        k + 1
    }
}

/// Whether `p` occurs in `s` at position `i`.
pub open spec fn occurs_at(s: Seq<char>, p: Seq<char>, i: int) -> bool {
    0 <= i && i + p.len() <= s.len() && s.subrange(i, i + p.len()) == p
}

/// Whether `s` contains `p`.
pub fn contains_str(s: &str, p: &str) -> (r: bool)
    ensures
        r == exists|i: int| occurs_at(s@, p@, i),
{
    let n = s.unicode_len();
    let m = p.unicode_len();
    if m > n {
        assert(forall|i: int| !occurs_at(s@, p@, i));
        return false;
    }
    let mut i: usize = 0;
    while i <= n - m
        invariant
            n == s@.len(),
            m == p@.len(),
            m <= n,
            i <= n - m + 1,
            forall|j: int| 0 <= j < i ==> !occurs_at(s@, p@, j),
        decreases n - m + 1 - i,
    {
        let mut k: usize = 0;
        let mut same = true;
        while k < m
            invariant
                n == s@.len(),
                m == p@.len(),
                i + m <= n,
                k <= m,
                same == forall|q: int| 0 <= q < k ==> s@[i + q] == p@[q],
            decreases m - k,
        {
            if s.get_char(i + k) != p.get_char(k) {
                same = false;
            }
            k += 1;
        }
        if same {
            assert(s@.subrange(i as int, i + m) =~= p@);
            assert(occurs_at(s@, p@, i as int));
            return true;
        }
        assert(!(s@.subrange(i as int, i + m) =~= p@));
        i += 1;
    }
    assert(forall|j: int| !occurs_at(s@, p@, j));
    false
}

/// The part of `s` before its first `c` (all of `s` if there is none).
pub open spec fn before_char(s: Seq<char>, c: char) -> Seq<char>
    decreases s.len(),
{
    if s.len() == 0 {
        s
    } else if s[0] == c {
        Seq::empty()
    } else {
        seq![s[0]] + before_char(s.drop_first(), c)
    }
}

proof fn lemma_before_char(s: Seq<char>, c: char, i: int)
    requires
        0 <= i <= s.len(),
        forall|j: int| 0 <= j < i ==> s[j] != c,
    ensures
        before_char(s, c) == s.subrange(0, i) + before_char(s.subrange(i, s.len() as int), c),
    decreases i,
{
    if i > 0 {
        lemma_before_char(s.drop_first(), c, i - 1);
        assert(s.drop_first().subrange(0, i - 1) =~= s.subrange(1, i));
        assert(s.drop_first().subrange(i - 1, s.len() - 1) =~= s.subrange(i, s.len() as int));
        assert(seq![s[0]] + s.subrange(1, i) =~= s.subrange(0, i));
    } else {
        assert(s.subrange(0, 0) + before_char(s, c) =~= before_char(s, c));
        assert(s.subrange(0, s.len() as int) =~= s);
    }
}

/// The part of `s` before its first `c`.
pub fn prefix_before(s: &str, c: char) -> (r: String)
    ensures
        r@ == before_char(s@, c),
{
    let n = s.unicode_len();
    let mut i: usize = 0;
    while i < n && s.get_char(i) != c
        invariant
            n == s@.len(),
            i <= n,
            forall|j: int| 0 <= j < i ==> s@[j] != c,
        decreases n - i,
    {
        i += 1;
    }
    proof {
        lemma_before_char(s@, c, i as int);
        if i < n {
            assert(before_char(s@.subrange(i as int, n as int), c) =~= Seq::<char>::empty());
        } else {
            assert(s@.subrange(i as int, n as int) =~= Seq::<char>::empty());
        }
        assert(s@.subrange(0, i as int) + Seq::<char>::empty() =~= s@.subrange(0, i as int));
    }
    String::from_str(s.substring_char(0, i))
}

/// What `str::to_uppercase` gives for a text: the Unicode upper-case mapping.
pub uninterp spec fn upper_spec(s: Seq<char>) -> Seq<char>;

/// What `str::to_lowercase` gives for a text: the Unicode lower-case mapping.
pub uninterp spec fn lower_spec(s: Seq<char>) -> Seq<char>;

/// What `char::is_lowercase` says of a character: whether it has the
/// Unicode `Lowercase` property.
pub uninterp spec fn is_lower_spec(c: char) -> bool;

/// `str::to_uppercase`; the result is [`upper_spec`] of the text, a mapping
/// that this crate does not spell out.
#[verifier::external_body]
pub(crate) fn to_uppercase(s: &str) -> (r: String)
    ensures
        r@ == upper_spec(s@),
{
    s.to_uppercase()
}

/// `str::to_lowercase`; the result is [`lower_spec`] of the text.
#[verifier::external_body]
pub(crate) fn to_lowercase(s: &str) -> (r: String)
    ensures
        r@ == lower_spec(s@),
{
    s.to_lowercase()
}

/// `char::is_lowercase`; the result is [`is_lower_spec`] of the character.
#[verifier::external_body]
pub(crate) fn char_is_lowercase(c: char) -> (r: bool)
    ensures
        r == is_lower_spec(c),
{
    c.is_lowercase()
}

/// Whether two strings hold the same characters.
pub fn string_eq(a: &String, b: &String) -> (r: bool)
    ensures
        r == (a@ == b@),
{
    str_eq(a.as_str(), b.as_str())
}

} // verus!
