//! Text-level building blocks of the wire format: lowercase hex for byte
//! strings, JSON string escaping, and the specification-level parsers the
//! decoder is proved against. The parsers consume a prefix of the input from
//! a position and are shown to accept exactly what the corresponding
//! encoders emit.

use vstd::prelude::*;

verus! {

/// The lowercase hex digit for a value below 16.
pub open spec fn hex_char_of(n: u8) -> char
    recommends
        n < 16,
{
    if n == 0 {
        '0'
    } else if n == 1 {
        '1'
    } else if n == 2 {
        '2'
    } else if n == 3 {
        '3'
    } else if n == 4 {
        '4'
    } else if n == 5 {
        '5'
    } else if n == 6 {
        '6'
    } else if n == 7 {
        '7'
    } else if n == 8 {
        '8'
    } else if n == 9 {
        '9'
    } else if n == 10 {
        'a'
    } else if n == 11 {
        'b'
    } else if n == 12 {
        'c'
    } else if n == 13 {
        'd'
    } else if n == 14 {
        'e'
    } else {
        'f'
    }
}

/// A lowercase hex digit, the only digits the canonical encoding emits.
pub open spec fn is_hex_lower(c: char) -> bool {
    (('0' as u32) <= (c as u32) && (c as u32) <= ('9' as u32)) || (('a' as u32) <= (c as u32)
        && (c as u32) <= ('f' as u32))
}

/// A hex digit in either case, accepted when reading a token from a path.
pub open spec fn is_hex_any(c: char) -> bool {
    is_hex_lower(c) || (('A' as u32) <= (c as u32) && (c as u32) <= ('F' as u32))
}

/// The value of a hex digit of either case.
pub open spec fn hex_val(c: char) -> u8
    recommends
        is_hex_any(c),
{
    if (c as u32) <= ('9' as u32) {
        ((c as u32) - ('0' as u32)) as u8
    } else if (c as u32) <= ('F' as u32) {
        ((c as u32) - ('A' as u32) + 10) as u8
    } else {
        ((c as u32) - ('a' as u32) + 10) as u8
    }
}

/// The two lowercase hex digits of one byte.
pub open spec fn hex_of_byte(b: u8) -> Seq<char> {
    seq![hex_char_of(b / 16), hex_char_of(b % 16)]
}

/// The lowercase hex digits of a byte string, two per byte.
pub open spec fn hex_of(bs: Seq<u8>) -> Seq<char>
    decreases bs.len(),
{
    if bs.len() == 0 {
        Seq::empty()
    } else {
        hex_of_byte(bs[0]) + hex_of(bs.drop_first())
    }
}

/// The escaping of one character inside a JSON string: quote and backslash
/// take a leading backslash, everything else stands as itself.
pub open spec fn esc_char(c: char) -> Seq<char> {
    if c == '"' || c == '\\' {
        seq!['\\', c]
    } else {
        seq![c]
    }
}

/// The escaped form of a string body.
pub open spec fn escape(t: Seq<char>) -> Seq<char>
    decreases t.len(),
{
    if t.len() == 0 {
        Seq::empty()
    } else {
        esc_char(t[0]) + escape(t.drop_first())
    }
}

/// A fixed literal at position `i`: succeeds exactly when the literal is the
/// next run of characters, and moves past it.
pub open spec fn sp_lit(s: Seq<char>, i: int, lit: Seq<char>) -> Option<int> {
    if 0 <= i && i + lit.len() <= s.len() && s.subrange(i, i + lit.len()) == lit {
        Some(i + lit.len())
    } else {
        None
    }
}

/// `n` bytes of lowercase hex at position `i`.
pub open spec fn sp_hex(s: Seq<char>, i: int, n: nat) -> Option<(Seq<u8>, int)>
    decreases n,
{
    if i < 0 || i > s.len() {
        None
    } else if n == 0 {
        Some((Seq::empty(), i))
    } else if i + 2 <= s.len() && is_hex_lower(s[i]) && is_hex_lower(s[i + 1]) {
        match sp_hex(s, i + 2, (n - 1) as nat) {
            Some((bs, j)) => Some((seq![(hex_val(s[i]) * 16 + hex_val(s[i + 1])) as u8] + bs, j)),
            None => None,
        }
    } else {
        None
    }
}

/// `n` bytes of hex in either case at position `i`, as read from a URL path
/// segment.
pub open spec fn sp_hex_any(s: Seq<char>, i: int, n: nat) -> Option<(Seq<u8>, int)>
    decreases n,
{
    if i < 0 || i > s.len() {
        None
    } else if n == 0 {
        Some((Seq::empty(), i))
    } else if i + 2 <= s.len() && is_hex_any(s[i]) && is_hex_any(s[i + 1]) {
        match sp_hex_any(s, i + 2, (n - 1) as nat) {
            Some((bs, j)) => Some((seq![(hex_val(s[i]) * 16 + hex_val(s[i + 1])) as u8] + bs, j)),
            None => None,
        }
    } else {
        None
    }
}

/// An escaped string body at position `i`, up to and including the closing
/// quote; yields the unescaped text.
pub open spec fn sp_string(s: Seq<char>, i: int) -> Option<(Seq<char>, int)>
    decreases s.len() - i,
{
    if i < 0 || i >= s.len() {
        None
    } else if s[i] == '"' {
        Some((Seq::empty(), i + 1))
    } else if s[i] == '\\' {
        if i + 1 < s.len() && (s[i + 1] == '"' || s[i + 1] == '\\') {
            match sp_string(s, i + 2) {
                Some((t, j)) => Some((seq![s[i + 1]] + t, j)),
                None => None,
            }
        } else {
            None
        }
    } else {
        match sp_string(s, i + 1) {
            Some((t, j)) => Some((seq![s[i]] + t, j)),
            None => None,
        }
    }
}

/// Hex digits are what `hex_char_of` says they are, and reading one back
/// recovers the value.
pub proof fn lemma_hex_char_val(n: u8)
    requires
        n < 16,
    ensures
        is_hex_lower(hex_char_of(n)),
        hex_val(hex_char_of(n)) == n,
{
}

/// The hex form of a byte string is two characters per byte.
pub proof fn lemma_hex_of_len(bs: Seq<u8>)
    ensures
        hex_of(bs).len() == 2 * bs.len(),
    decreases bs.len(),
{
    if bs.len() > 0 {
        lemma_hex_of_len(bs.drop_first());
    }
}

/// Appending one byte appends its two digits.
pub proof fn lemma_hex_of_push(bs: Seq<u8>, b: u8)
    ensures
        hex_of(bs.push(b)) == hex_of(bs) + hex_of_byte(b),
    decreases bs.len(),
{
    assert(bs.push(b)[0] == if bs.len() == 0 {
        b
    } else {
        bs[0]
    });
    if bs.len() == 0 {
        assert(bs.push(b).drop_first() =~= Seq::<u8>::empty());
        assert(hex_of(bs.push(b)) == hex_of_byte(b) + hex_of(Seq::<u8>::empty()));
        assert(hex_of(bs.push(b)) =~= hex_of(bs) + hex_of_byte(b));
    } else {
        assert(bs.push(b).drop_first() =~= bs.drop_first().push(b));
        lemma_hex_of_push(bs.drop_first(), b);
        assert(hex_of(bs.push(b)) == hex_of_byte(bs[0]) + (hex_of(bs.drop_first()) + hex_of_byte(
            b,
        )));
        assert(hex_of(bs.push(b)) =~= hex_of(bs) + hex_of_byte(b));
    }
}

/// Appending one character appends its escaping.
pub proof fn lemma_escape_push(t: Seq<char>, c: char)
    ensures
        escape(t.push(c)) == escape(t) + esc_char(c),
    decreases t.len(),
{
    assert(t.push(c)[0] == if t.len() == 0 {
        c
    } else {
        t[0]
    });
    if t.len() == 0 {
        assert(t.push(c).drop_first() =~= Seq::<char>::empty());
        assert(escape(t.push(c)) == esc_char(c) + escape(Seq::<char>::empty()));
        assert(escape(t.push(c)) =~= escape(t) + esc_char(c));
    } else {
        assert(t.push(c).drop_first() =~= t.drop_first().push(c));
        lemma_escape_push(t.drop_first(), c);
        assert(escape(t.push(c)) == esc_char(t[0]) + (escape(t.drop_first()) + esc_char(c)));
        assert(escape(t.push(c)) =~= escape(t) + esc_char(c));
    }
}

/// A lowercase hex digit is the digit of its own value.
pub proof fn lemma_hex_char_inverse(c: char)
    requires
        is_hex_lower(c),
    ensures
        hex_val(c) < 16,
        hex_char_of(hex_val(c)) == c,
{
}

/// Two adjacent runs of the input glue to their concatenation.
pub proof fn lemma_glue2(s: Seq<char>, i: int, a: Seq<char>, b: Seq<char>)
    requires
        0 <= i,
        i + a.len() + b.len() <= s.len(),
        s.subrange(i, i + a.len()) == a,
        s.subrange(i + a.len(), i + a.len() + b.len()) == b,
    ensures
        s.subrange(i, i + a.len() + b.len()) == a + b,
{
    assert(s.subrange(i, i + a.len() + b.len()) =~= a + b) by {
        assert forall|k: int| 0 <= k < a.len() + b.len() implies s.subrange(
            i,
            i + a.len() + b.len(),
        )[k] == (a + b)[k] by {
            assert(s.subrange(i, i + a.len() + b.len())[k] == s[i + k]);
            if k < a.len() {
                assert(s[i + k] == s.subrange(i, i + a.len())[k]);
            } else {
                assert(s[i + k] == s.subrange(i + a.len(), i + a.len() + b.len())[k - a.len()]);
            }
        }
    }
}

/// What the hex parser accepts is the hex encoding of what it yields.
pub proof fn lemma_sp_hex_sound(s: Seq<char>, i: int, n: nat, bs: Seq<u8>, j: int)
    requires
        sp_hex(s, i, n) == Some((bs, j)),
    ensures
        0 <= i,
        bs.len() == n,
        j == i + 2 * n,
        j <= s.len(),
        s.subrange(i, j) == hex_of(bs),
    decreases n,
{
    if n == 0 {
        assert(s.subrange(i, i) =~= hex_of(bs));
    } else {
        let b = (hex_val(s[i]) * 16 + hex_val(s[i + 1])) as u8;
        let tail = sp_hex(s, i + 2, (n - 1) as nat);
        let (bs2, j2) = tail.unwrap();
        lemma_sp_hex_sound(s, i + 2, (n - 1) as nat, bs2, j2);
        assert(bs == seq![b] + bs2);
        assert(bs[0] == b);
        assert(bs.drop_first() =~= bs2);
        lemma_hex_char_inverse(s[i]);
        lemma_hex_char_inverse(s[i + 1]);
        assert(b / 16 == hex_val(s[i]) && b % 16 == hex_val(s[i + 1]));
        assert(hex_of_byte(b) == seq![s[i], s[i + 1]]);
        assert(s.subrange(i, i + 2) =~= hex_of_byte(b));
        lemma_glue2(s, i, hex_of_byte(b), hex_of(bs2));
        assert(hex_of(bs) == hex_of_byte(b) + hex_of(bs2));
    }
}

/// What the string parser accepts is the escaped form of what it yields,
/// closed by a quote.
pub proof fn lemma_sp_string_sound(s: Seq<char>, i: int, t: Seq<char>, j: int)
    requires
        sp_string(s, i) == Some((t, j)),
    ensures
        0 <= i,
        j == i + escape(t).len() + 1,
        j <= s.len(),
        s.subrange(i, j) == escape(t) + seq!['"'],
    decreases s.len() - i,
{
    if s[i] == '"' {
        assert(t =~= Seq::<char>::empty());
        assert(s.subrange(i, i + 1) =~= escape(t) + seq!['"']);
    } else if s[i] == '\\' {
        let tail = sp_string(s, i + 2);
        let (t2, j2) = tail.unwrap();
        lemma_sp_string_sound(s, i + 2, t2, j2);
        assert(t == seq![s[i + 1]] + t2);
        assert(t[0] == s[i + 1]);
        assert(t.drop_first() =~= t2);
        assert(esc_char(t[0]) == seq!['\\', s[i + 1]]);
        assert(escape(t) == esc_char(t[0]) + escape(t2));
        assert(s.subrange(i, i + 2) =~= esc_char(t[0]));
        lemma_glue2(s, i, esc_char(t[0]), escape(t2) + seq!['"']);
        assert(esc_char(t[0]) + (escape(t2) + seq!['"']) =~= escape(t) + seq!['"']);
    } else {
        let tail = sp_string(s, i + 1);
        let (t2, j2) = tail.unwrap();
        lemma_sp_string_sound(s, i + 1, t2, j2);
        assert(t == seq![s[i]] + t2);
        assert(t[0] == s[i]);
        assert(t.drop_first() =~= t2);
        assert(esc_char(t[0]) == seq![s[i]]);
        assert(escape(t) == esc_char(t[0]) + escape(t2));
        assert(s.subrange(i, i + 1) =~= esc_char(t[0]));
        lemma_glue2(s, i, esc_char(t[0]), escape(t2) + seq!['"']);
        assert(esc_char(t[0]) + (escape(t2) + seq!['"']) =~= escape(t) + seq!['"']);
    }
}

/// The hex parser accepts exactly the hex encoding of a byte string where it
/// stands in the input, and yields that byte string.
pub proof fn lemma_sp_hex_encode(s: Seq<char>, i: int, bs: Seq<u8>)
    requires
        0 <= i,
        i + 2 * bs.len() <= s.len(),
        s.subrange(i, i + 2 * bs.len()) == hex_of(bs),
    ensures
        sp_hex(s, i, bs.len()) == Some((bs, i + 2 * bs.len())),
    decreases bs.len(),
{
    lemma_hex_of_len(bs);
    if bs.len() == 0 {
    } else {
        let rest = bs.drop_first();
        lemma_hex_of_len(rest);
        assert(s[i] == s.subrange(i, i + 2 * bs.len())[0]);
        assert(s[i + 1] == s.subrange(i, i + 2 * bs.len())[1]);
        assert(hex_of(bs)[0] == hex_char_of(bs[0] / 16));
        assert(hex_of(bs)[1] == hex_char_of(bs[0] % 16));
        lemma_hex_char_val(bs[0] / 16);
        lemma_hex_char_val(bs[0] % 16);
        assert(hex_val(s[i]) * 16 + hex_val(s[i + 1]) == bs[0]);
        assert(s.subrange(i + 2, i + 2 + 2 * rest.len()) =~= hex_of(rest)) by {
            assert forall|k: int| 0 <= k < 2 * rest.len() implies s.subrange(
                i + 2,
                i + 2 + 2 * rest.len(),
            )[k] == hex_of(rest)[k] by {
                assert(s.subrange(i + 2, i + 2 + 2 * rest.len())[k] == s[i + 2 + k]);
                assert(s[i + 2 + k] == s.subrange(i, i + 2 * bs.len())[2 + k]);
                assert(hex_of(bs)[2 + k] == hex_of(rest)[k]);
            }
        }
        lemma_sp_hex_encode(s, i + 2, rest);
        assert(seq![bs[0]] + rest =~= bs);
    }
}

/// The string parser accepts exactly an escaped body followed by its closing
/// quote where it stands in the input, and yields the unescaped text.
pub proof fn lemma_sp_string_encode(s: Seq<char>, i: int, t: Seq<char>)
    requires
        0 <= i,
        i + escape(t).len() + 1 <= s.len(),
        s.subrange(i, i + escape(t).len() + 1) == escape(t) + seq!['"'],
    ensures
        sp_string(s, i) == Some((t, i + escape(t).len() + 1)),
    decreases t.len(),
{
    let w = escape(t) + seq!['"'];
    if t.len() == 0 {
        assert(s[i] == w[0]);
    } else {
        let rest = t.drop_first();
        let e0 = esc_char(t[0]);
        assert(escape(t) == e0 + escape(rest));
        assert(s[i] == w[0]);
        assert(w[0] == e0[0]);
        let i2 = i + e0.len();
        assert(s.subrange(i2, i2 + escape(rest).len() + 1) =~= escape(rest) + seq!['"']) by {
            assert forall|k: int| 0 <= k < escape(rest).len() + 1 implies s.subrange(
                i2,
                i2 + escape(rest).len() + 1,
            )[k] == (escape(rest) + seq!['"'])[k] by {
                assert(s.subrange(i2, i2 + escape(rest).len() + 1)[k] == s[i2 + k]);
                assert(s[i2 + k] == w[e0.len() + k]);
                assert(w[e0.len() + k] == (escape(rest) + seq!['"'])[k]);
            }
        }
        lemma_sp_string_encode(s, i2, rest);
        if t[0] == '"' || t[0] == '\\' {
            assert(s[i] == '\\');
            assert(s[i + 1] == w[1]);
            assert(w[1] == t[0]);
            assert(seq![s[i + 1]] + rest =~= t);
        } else {
            assert(s[i] == t[0]);
            assert(s[i] != '"' && s[i] != '\\');
            assert(seq![s[i]] + rest =~= t);
        }
    }
}

/// The lowercase hex digit for a value below 16.
pub fn hex_char(n: u8) -> (r: char)
    requires
        n < 16,
    ensures
        r == hex_char_of(n),
{
    if n == 0 {
        '0'
    } else if n == 1 {
        '1'
    } else if n == 2 {
        '2'
    } else if n == 3 {
        '3'
    } else if n == 4 {
        '4'
    } else if n == 5 {
        '5'
    } else if n == 6 {
        '6'
    } else if n == 7 {
        '7'
    } else if n == 8 {
        '8'
    } else if n == 9 {
        '9'
    } else if n == 10 {
        'a'
    } else if n == 11 {
        'b'
    } else if n == 12 {
        'c'
    } else if n == 13 {
        'd'
    } else if n == 14 {
        'e'
    } else {
        'f'
    }
}

/// Whether a character is a lowercase hex digit.
pub fn is_hex_digit_lower(c: char) -> (r: bool)
    ensures
        r == is_hex_lower(c),
{
    let u = c as u32;
    (48 <= u && u <= 57) || (97 <= u && u <= 102)
}

/// Whether a character is a hex digit of either case.
pub fn is_hex_digit_any(c: char) -> (r: bool)
    ensures
        r == is_hex_any(c),
{
    let u = c as u32;
    (48 <= u && u <= 57) || (97 <= u && u <= 102) || (65 <= u && u <= 70)
}

/// The value of a hex digit of either case.
pub fn hex_digit_val(c: char) -> (r: u8)
    requires
        is_hex_any(c),
    ensures
        r == hex_val(c),
        r < 16,
{
    let u = c as u32;
    if u <= 57 {
        (u - 48) as u8
    } else if u <= 70 {
        (u - 65 + 10) as u8
    } else {
        (u - 97 + 10) as u8
    }
}

/// Appends a literal to the output, character for character.
pub fn push_lit(out: &mut Vec<char>, lit: &str)
    ensures
        final(out)@ == old(out)@ + lit@,
{
    let n = lit.unicode_len();
    let mut k: usize = 0;
    while k < n
        invariant
            n == lit@.len(),
            k <= n,
            out@ == old(out)@ + lit@.take(k as int),
        decreases n - k,
    {
        let c = lit.get_char(k);
        out.push(c);
        assert(lit@.take(k + 1 as int) =~= lit@.take(k as int).push(lit@[k as int]));
        k = k + 1;
    }
    assert(lit@.take(n as int) =~= lit@);
}

/// Appends the lowercase hex form of a byte string to the output.
pub fn push_hex(out: &mut Vec<char>, bs: &Vec<u8>)
    ensures
        final(out)@ == old(out)@ + hex_of(bs@),
{
    let n = bs.len();
    let mut k: usize = 0;
    while k < n
        invariant
            n == bs@.len(),
            k <= n,
            out@ == old(out)@ + hex_of(bs@.take(k as int)),
        decreases n - k,
    {
        let b = bs[k];
        out.push(hex_char(b / 16));
        out.push(hex_char(b % 16));
        proof {
            lemma_hex_of_push(bs@.take(k as int), b);
            assert(bs@.take(k + 1 as int) =~= bs@.take(k as int).push(bs@[k as int]));
        }
        k = k + 1;
    }
    assert(bs@.take(n as int) =~= bs@);
}

/// Appends the escaped form of a string body to the output.
pub fn push_escaped(out: &mut Vec<char>, t: &str)
    ensures
        final(out)@ == old(out)@ + escape(t@),
{
    let n = t.unicode_len();
    let mut k: usize = 0;
    while k < n
        invariant
            n == t@.len(),
            k <= n,
            out@ == old(out)@ + escape(t@.take(k as int)),
        decreases n - k,
    {
        let c = t.get_char(k);
        if c == '"' || c == '\\' {
            out.push('\\');
        }
        out.push(c);
        proof {
            lemma_escape_push(t@.take(k as int), c);
            assert(t@.take(k + 1 as int) =~= t@.take(k as int).push(t@[k as int]));
        }
        k = k + 1;
    }
    assert(t@.take(n as int) =~= t@);
}

/// Reads a fixed literal at position `i`, as `sp_lit` says.
pub fn parse_lit(s: &Vec<char>, i: usize, lit: &str) -> (r: Option<usize>)
    ensures
        (match r {
            Some(j) => sp_lit(s@, i as int, lit@) == Some(j as int) && j <= s@.len(),
            None => sp_lit(s@, i as int, lit@) is None,
        }),
{
    let n = lit.unicode_len();
    let sl = s.len();
    if i > sl || sl - i < n {
        return None;
    }
    let mut k: usize = 0;
    while k < n
        invariant
            n == lit@.len(),
            k <= n,
            sl == s@.len(),
            i + n <= sl,
            forall|m: int| 0 <= m < k ==> s@[i + m] == lit@[m],
        decreases n - k,
    {
        if s[i + k] != lit.get_char(k) {
            proof {
                let w = s@.subrange(i as int, i + n);
                assert(w[k as int] == s@[i + k]);
                assert(w != lit@);
            }
            return None;
        }
        k = k + 1;
    }
    proof {
        assert(s@.subrange(i as int, i + n) =~= lit@);
    }
    Some(i + n)
}

/// Reads `n` bytes of lowercase hex at position `i`, as `sp_hex` says.
pub fn parse_hex_fixed(s: &Vec<char>, i: usize, n: usize) -> (r: Option<(Vec<u8>, usize)>)
    ensures
        (match r {
            Some(p) => sp_hex(s@, i as int, n as nat) == Some((p.0@, p.1 as int)) && p.1 <= s@.len()
                && p.0@.len() == n,
            None => sp_hex(s@, i as int, n as nat) is None,
        }),
{
    if i > s.len() {
        assert(sp_hex(s@, i as int, n as nat) is None);
        return None;
    }
    let mut acc: Vec<u8> = Vec::new();
    let mut j: usize = i;
    let mut k: usize = 0;
    while k < n
        invariant
            acc@.len() == k,
            k <= n,
            j == i + 2 * k,
            j <= s@.len(),
            sp_hex(s@, i as int, n as nat) == (match sp_hex(s@, j as int, (n - k) as nat) {
                Some((bs, m)) => Some::<(Seq<u8>, int)>((acc@ + bs, m)),
                None => None,
            }),
        decreases n - k,
    {
        if j > s.len() || s.len() - j < 2 {
            assert(sp_hex(s@, j as int, (n - k) as nat) is None);
            return None;
        }
        let c1 = s[j];
        let c2 = s[j + 1];
        if !is_hex_digit_lower(c1) || !is_hex_digit_lower(c2) {
            assert(sp_hex(s@, j as int, (n - k) as nat) is None);
            return None;
        }
        let b = hex_digit_val(c1) * 16 + hex_digit_val(c2);
        proof {
            let tail = sp_hex(s@, j + 2, (n - k - 1) as nat);
            assert(sp_hex(s@, j as int, (n - k) as nat) == (match tail {
                Some((bs, m)) => Some::<(Seq<u8>, int)>((seq![b] + bs, m)),
                None => None,
            }));
            if tail is Some {
                let (bs, m) = tail.unwrap();
                assert(acc@ + (seq![b] + bs) =~= acc@.push(b) + bs);
            }
        }
        acc.push(b);
        j = j + 2;
        k = k + 1;
    }
    assert(sp_hex(s@, j as int, 0) == Some::<(Seq<u8>, int)>((Seq::empty(), j as int)));
    assert(acc@ + Seq::<u8>::empty() =~= acc@);
    Some((acc, j))
}

/// Reads `n` bytes of hex of either case at position `i`, as `sp_hex_any`
/// says.
pub fn parse_hex_fixed_any(s: &Vec<char>, i: usize, n: usize) -> (r: Option<(Vec<u8>, usize)>)
    ensures
        (match r {
            Some(p) => sp_hex_any(s@, i as int, n as nat) == Some((p.0@, p.1 as int)) && p.1
                <= s@.len() && p.0@.len() == n,
            None => sp_hex_any(s@, i as int, n as nat) is None,
        }),
{
    if i > s.len() {
        assert(sp_hex_any(s@, i as int, n as nat) is None);
        return None;
    }
    let mut acc: Vec<u8> = Vec::new();
    let mut j: usize = i;
    let mut k: usize = 0;
    while k < n
        invariant
            acc@.len() == k,
            k <= n,
            j == i + 2 * k,
            j <= s@.len(),
            sp_hex_any(s@, i as int, n as nat) == (match sp_hex_any(s@, j as int, (n - k) as nat) {
                Some((bs, m)) => Some::<(Seq<u8>, int)>((acc@ + bs, m)),
                None => None,
            }),
        decreases n - k,
    {
        if j > s.len() || s.len() - j < 2 {
            assert(sp_hex_any(s@, j as int, (n - k) as nat) is None);
            return None;
        }
        let c1 = s[j];
        let c2 = s[j + 1];
        if !is_hex_digit_any(c1) || !is_hex_digit_any(c2) {
            assert(sp_hex_any(s@, j as int, (n - k) as nat) is None);
            return None;
        }
        let b = hex_digit_val(c1) * 16 + hex_digit_val(c2);
        proof {
            let tail = sp_hex_any(s@, j + 2, (n - k - 1) as nat);
            assert(sp_hex_any(s@, j as int, (n - k) as nat) == (match tail {
                Some((bs, m)) => Some::<(Seq<u8>, int)>((seq![b] + bs, m)),
                None => None,
            }));
            if tail is Some {
                let (bs, m) = tail.unwrap();
                assert(acc@ + (seq![b] + bs) =~= acc@.push(b) + bs);
            }
        }
        acc.push(b);
        j = j + 2;
        k = k + 1;
    }
    assert(sp_hex_any(s@, j as int, 0) == Some::<(Seq<u8>, int)>((Seq::empty(), j as int)));
    assert(acc@ + Seq::<u8>::empty() =~= acc@);
    Some((acc, j))
}

/// Reads an escaped string body at position `i` through its closing quote,
/// as `sp_string` says.
pub fn parse_string_body(s: &Vec<char>, i: usize) -> (r: Option<(Vec<char>, usize)>)
    ensures
        (match r {
            Some(p) => sp_string(s@, i as int) == Some((p.0@, p.1 as int)) && p.1 <= s@.len()
                && i < p.1,
            None => sp_string(s@, i as int) is None,
        }),
{
    let mut out: Vec<char> = Vec::new();
    let mut j: usize = i;
    loop
        invariant
            i <= j,
            sp_string(s@, i as int) == (match sp_string(s@, j as int) {
                Some((t, m)) => Some::<(Seq<char>, int)>((out@ + t, m)),
                None => None,
            }),
        decreases s@.len() - j,
    {
        if j >= s.len() {
            assert(sp_string(s@, j as int) is None);
            return None;
        }
        let c = s[j];
        if c == '"' {
            assert(sp_string(s@, j as int) == Some::<(Seq<char>, int)>((Seq::empty(), j + 1)));
            assert(out@ + Seq::<char>::empty() =~= out@);
            return Some((out, j + 1));
        }
        if c == '\\' {
            if j + 1 >= s.len() {
                assert(sp_string(s@, j as int) is None);
                return None;
            }
            let d = s[j + 1];
            if d == '"' || d == '\\' {
                proof {
                    let tail = sp_string(s@, j + 2);
                    if tail is Some {
                        let (t, m) = tail.unwrap();
                        assert(out@ + (seq![d] + t) =~= out@.push(d) + t);
                    }
                }
                out.push(d);
                j = j + 2;
            } else {
                assert(sp_string(s@, j as int) is None);
                return None;
            }
        } else {
            proof {
                let tail = sp_string(s@, j + 1);
                if tail is Some {
                    let (t, m) = tail.unwrap();
                    assert(out@ + (seq![c] + t) =~= out@.push(c) + t);
                }
            }
            out.push(c);
            j = j + 1;
        }
    }
}

/// The characters of a string, in order, as a vector.
pub fn chars_of_str(s: &str) -> (r: Vec<char>)
    ensures
        r@ == s@,
{
    let n = s.unicode_len();
    let mut out: Vec<char> = Vec::new();
    let mut k: usize = 0;
    while k < n
        invariant
            n == s@.len(),
            k <= n,
            out@ == s@.take(k as int),
        decreases n - k,
    {
        let c = s.get_char(k);
        out.push(c);
        assert(s@.take(k + 1 as int) =~= s@.take(k as int).push(s@[k as int]));
        k = k + 1;
    }
    assert(s@.take(n as int) =~= s@);
    out
}

/// Collects a vector of characters into a `String`.
///
/// Relies on `String`'s `FromIterator<char>`: collecting characters yields
/// the string of exactly those characters in order.
#[verifier::external_body]
pub fn string_of_chars(v: &Vec<char>) -> (r: String)
    ensures
        r@ == v@,
{
    v.iter().collect()
}

} // verus!
