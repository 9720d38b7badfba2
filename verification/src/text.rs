//! Text helpers: decimal rendering of integers, comparison of strings, and the
//! string pieces the rest of the library assembles into messages.

use vstd::prelude::*;

verus! {

pub open spec fn digit_char(d: int) -> char {
    if d == 0 {
        '0'
    } else if d == 1 {
        '1'
    } else if d == 2 {
        '2'
    } else if d == 3 {
        '3'
    } else if d == 4 {
        '4'
    } else if d == 5 {
        '5'
    } else if d == 6 {
        '6'
    } else if d == 7 {
        '7'
    } else if d == 8 {
        '8'
    } else {
        '9'
    }
}

/// The decimal digits of a natural number, most significant first, with no leading zeros.
pub open spec fn decimal(n: nat) -> Seq<char>
    decreases n,
{
    if n < 10 {
        seq![digit_char(n as int)]
    } else {
        decimal(n / 10).push(digit_char((n % 10) as int))
    }
}

/// `s` with `'0'` characters put in front until it is at least `width` long.
pub open spec fn zero_pad(s: Seq<char>, width: nat) -> Seq<char>
    decreases width - s.len(),
{
    if s.len() >= width {
        s
    } else {
        zero_pad(seq!['0'].add(s), width)
    }
}

/// The decimal text of an integer, with a `'-'` in front of a negative one.
pub open spec fn int_text(n: int) -> Seq<char> {
    if n < 0 {
        seq!['-'].add(decimal((-n) as nat))
    } else {
        decimal(n as nat)
    }
}

/// How `format!("{:0w}", n)` renders an integer: the sign first, then zeros up to
/// a total width of `w`, then the digits.
pub open spec fn padded_int_text(n: int, width: nat) -> Seq<char> {
    if n < 0 {
        seq!['-'].add(zero_pad(decimal((-n) as nat), (width - 1) as nat))
    } else {
        zero_pad(decimal(n as nat), width)
    }
}

/// `a` comes before `b` in the order that `str` comparison uses: at the first position
/// where they differ `a` has the smaller character, or `a` is a proper prefix of `b`.
pub open spec fn text_lt(a: Seq<char>, b: Seq<char>) -> bool {
    ||| exists|i: int|
        0 <= i < a.len() && i < b.len() && a.take(i) == b.take(i) && #[trigger] a[i] < b[i]
    ||| a.len() < b.len() && a == b.take(a.len() as int)
}

/// Putting the same text in front, and anything after, keeps the order of two texts of the
/// same length.
pub proof fn lemma_text_lt_extend(x: Seq<char>, a: Seq<char>, b: Seq<char>, y: Seq<char>, z: Seq<char>)
    requires
        text_lt(a, b),
        a.len() == b.len(),
    ensures
        text_lt(x + a + y, x + b + z),
{
    let i = choose|i: int|
        0 <= i < a.len() && i < b.len() && a.take(i) == b.take(i) && #[trigger] a[i] < b[i];
    let j = x.len() + i;
    let l = x + a + y;
    let r = x + b + z;
    assert(l.take(j) =~= x + a.take(i));
    assert(r.take(j) =~= x + b.take(i));
    assert(l[j] == a[i]);
    assert(r[j] == b[i]);
}

/// `k` zero characters.
pub open spec fn zeros(k: nat) -> Seq<char> {
    Seq::new(k, |i: int| '0')
}

pub proof fn lemma_zero_pad(s: Seq<char>, width: nat)
    ensures
        s.len() >= width ==> zero_pad(s, width) == s,
        s.len() < width ==> zero_pad(s, width) == zeros((width - s.len()) as nat).add(s),
    decreases width - s.len(),
{
    if s.len() < width {
        lemma_zero_pad(seq!['0'].add(s), width);
        assert(zeros((width - s.len()) as nat) =~= zeros((width - s.len() - 1) as nat).add(
            seq!['0'],
        ));
        if s.len() + 1 < width {
            assert(zeros((width - s.len() - 1) as nat).add(seq!['0'].add(s)) =~= zeros(
                (width - s.len()) as nat,
            ).add(s));
        } else {
            assert(seq!['0'].add(s) =~= zeros((width - s.len()) as nat).add(s));
        }
    }
}

fn digit_str(d: u64) -> (r: &'static str)
    requires
        d < 10,
    ensures
        r@ == seq![digit_char(d as int)],
{
    proof {
        reveal_strlit("0");
        reveal_strlit("1");
        reveal_strlit("2");
        reveal_strlit("3");
        reveal_strlit("4");
        reveal_strlit("5");
        reveal_strlit("6");
        reveal_strlit("7");
        reveal_strlit("8");
        reveal_strlit("9");
    }
    if d == 0 {
        "0"
    } else if d == 1 {
        "1"
    } else if d == 2 {
        "2"
    } else if d == 3 {
        "3"
    } else if d == 4 {
        "4"
    } else if d == 5 {
        "5"
    } else if d == 6 {
        "6"
    } else if d == 7 {
        "7"
    } else if d == 8 {
        "8"
    } else {
        "9"
    }
}

/// Appends the decimal digits of `n`.
pub fn push_decimal(s: &mut String, n: u64)
    ensures
        final(s)@ == old(s)@ + decimal(n as nat),
    decreases n,
{
    if n < 10 {
        s.append(digit_str(n));
    } else {
        push_decimal(s, n / 10);
        s.append(digit_str(n % 10));
        assert(final(s)@ =~= old(s)@ + decimal(n as nat));
    }
}

/// Appends the decimal digits of `n`, with zeros in front up to `width` characters.
pub fn push_zero_padded(s: &mut String, n: u64, width: usize)
    ensures
        final(s)@ == old(s)@ + zero_pad(decimal(n as nat), width as nat),
{
    let mut digits = String::new();
    push_decimal(&mut digits, n);
    let len = digits.as_str().unicode_len();
    proof {
        assert(digits@ =~= decimal(n as nat));
        lemma_zero_pad(decimal(n as nat), width as nat);
    }
    let ghost start = s@;
    let mut i = len;
    proof {
        reveal_strlit("0");
    }
    while i < width
        invariant
            len == decimal(n as nat).len(),
            len <= i <= width || (i == len && width < len),
            s@ == start + zeros((i - len) as nat),
        decreases width - i,
    {
        proof {
            reveal_strlit("0");
        }
        s.append("0");
        assert(s@ =~= start + zeros((i + 1 - len) as nat));
        i += 1;
    }
    s.append(digits.as_str());
    proof {
        if width as nat > len {
            assert(s@ =~= start + zeros((width - len) as nat).add(decimal(n as nat)));
        } else {
            assert(s@ =~= start + decimal(n as nat));
        }
    }
}

/// Appends `n` as `format!("{:0w}", n)` renders it, `w` being `width`.
pub fn push_padded_int(s: &mut String, n: i64, width: usize)
    requires
        width >= 1,
    ensures
        final(s)@ == old(s)@ + padded_int_text(n as int, width as nat),
{
    if n < 0 {
        proof {
            reveal_strlit("-");
        }
        s.append("-");
        let magnitude = ((-(n + 1)) as u64) + 1;
        push_zero_padded(s, magnitude, width - 1);
        assert(final(s)@ =~= old(s)@ + padded_int_text(n as int, width as nat));
    } else {
        push_zero_padded(s, n as u64, width);
    }
}

/// Appends the decimal text of `n`.
pub fn push_int(s: &mut String, n: i64)
    ensures
        final(s)@ == old(s)@ + int_text(n as int),
{
    if n < 0 {
        proof {
            reveal_strlit("-");
        }
        s.append("-");
        let magnitude = ((-(n + 1)) as u64) + 1;
        push_decimal(s, magnitude);
        assert(final(s)@ =~= old(s)@ + int_text(n as int));
    } else {
        push_decimal(s, n as u64);
    }
}

/// Texts joined with `sep` between each two, as `[String]::join` does.
pub open spec fn join_texts(parts: Seq<Seq<char>>, sep: Seq<char>) -> Seq<char>
    decreases parts.len(),
{
    if parts.len() == 0 {
        Seq::empty()
    } else if parts.len() == 1 {
        parts[0]
    } else {
        join_texts(parts.drop_last(), sep) + sep + parts.last()
    }
}

/// `"{n} {noun}"`, with an `s` after the noun unless `n` is one.
pub open spec fn count_phrase(n: int, noun: Seq<char>) -> Seq<char> {
    int_text(n) + seq![' '] + noun + (if n == 1 {
        Seq::<char>::empty()
    } else {
        seq!['s']
    })
}

/// The text `format!("{n} {noun}{s}")` gives, `s` being empty where `n` is one and `"s"`
/// otherwise.
pub fn count_phrase_text(n: i64, noun: &str) -> (r: String)
    ensures
        r@ == count_phrase(n as int, noun@),
{
    let mut s = String::new();
    push_int(&mut s, n);
    proof {
        reveal_strlit(" ");
        reveal_strlit("s");
        reveal_strlit("");
    }
    s.append(" ");
    s.append(noun);
    if n == 1 {
        s.append("");
    } else {
        s.append("s");
    }
    assert(s@ =~= count_phrase(n as int, noun@));
    s
}

/// The parts joined with `sep` between each two, as `[String]::join` does.
pub fn join_strings(parts: &Vec<String>, sep: &str) -> (r: String)
    ensures
        r@ == join_texts(parts@.map_values(|p: String| p@), sep@),
{
    let ghost texts = parts@.map_values(|p: String| p@);
    let mut out = String::new();
    let n = parts.len();
    let mut i: usize = 0;
    while i < n
        invariant
            n == parts@.len(),
            i <= n,
            texts == parts@.map_values(|p: String| p@),
            out@ == join_texts(texts.take(i as int), sep@),
        decreases n - i,
    {
        if i > 0 {
            out.append(sep);
        }
        out.append(parts[i].as_str());
        proof {
            assert(texts.take(i + 1).drop_last() =~= texts.take(i as int));
            assert(texts[i as int] == parts@[i as int]@);
            if i == 0 {
                assert(out@ =~= join_texts(texts.take(1), sep@));
            } else {
                assert(out@ =~= join_texts(texts.take(i + 1), sep@));
            }
        }
        i += 1;
    }
    assert(texts.take(n as int) =~= texts);
    out
}

/// The characters with the Unicode `White_Space` property, which `char::is_whitespace`
/// and `str::trim` go by.
pub open spec fn is_white_space(c: char) -> bool {
    let u = c as u32;
    ||| 0x09 <= u <= 0x0d
    ||| u == 0x20
    ||| u == 0x85
    ||| u == 0xa0
    ||| u == 0x1680
    ||| 0x2000 <= u <= 0x200a
    ||| u == 0x2028
    ||| u == 0x2029
    ||| u == 0x202f
    ||| u == 0x205f
    ||| u == 0x3000
}

fn char_is_white_space(c: char) -> (r: bool)
    ensures
        r == is_white_space(c),
{
    let u = c as u32;
    (0x09 <= u && u <= 0x0d) || u == 0x20 || u == 0x85 || u == 0xa0 || u == 0x1680 || (0x2000
        <= u && u <= 0x200a) || u == 0x2028 || u == 0x2029 || u == 0x202f || u == 0x205f || u
        == 0x3000
}

/// `s` without its leading white space.
pub open spec fn trim_start_text(s: Seq<char>) -> Seq<char>
    decreases s.len(),
{
    if s.len() > 0 && is_white_space(s[0]) {
        trim_start_text(s.drop_first())
    } else {
        s
    }
}

/// `s` without its trailing white space.
pub open spec fn trim_end_text(s: Seq<char>) -> Seq<char>
    decreases s.len(),
{
    if s.len() > 0 && is_white_space(s.last()) {
        trim_end_text(s.drop_last())
    } else {
        s
    }
}

/// `s` without leading and trailing white space, as `str::trim` gives it.
pub open spec fn trim_text(s: Seq<char>) -> Seq<char> {
    trim_end_text(trim_start_text(s))
}

/// The text of `s` without leading and trailing white space.
pub fn trimmed(s: &str) -> (r: String)
    ensures
        r@ == trim_text(s@),
{
    let n = s.unicode_len();
    let mut lo: usize = 0;
    assert(s@.subrange(0, n as int) =~= s@);
    while lo < n && char_is_white_space(s.get_char(lo))
        invariant
            n == s@.len(),
            lo <= n,
            trim_start_text(s@) == trim_start_text(s@.subrange(lo as int, n as int)),
        decreases n - lo,
    {
        assert(s@.subrange(lo as int, n as int).drop_first() =~= s@.subrange(lo + 1, n as int));
        lo += 1;
    }
    assert(trim_start_text(s@) == s@.subrange(lo as int, n as int));
    let mut hi: usize = n;
    while hi > lo && char_is_white_space(s.get_char(hi - 1))
        invariant
            n == s@.len(),
            lo <= hi <= n,
            trim_text(s@) == trim_end_text(s@.subrange(lo as int, hi as int)),
        decreases hi,
    {
        assert(s@.subrange(lo as int, hi as int).drop_last() =~= s@.subrange(lo as int, hi - 1));
        hi -= 1;
    }
    let piece = s.substring_char(lo, hi);
    String::from_str(piece)
}

/// Whether two strings hold the same characters.
pub fn text_eq(a: &str, b: &str) -> (r: bool)
    ensures
        r == (a@ == b@),
{
    let n = a.unicode_len();
    if n != b.unicode_len() {
        return false;
    }
    let mut i: usize = 0;
    while i < n
        invariant
            n == a@.len(),
            n == b@.len(),
            i <= n,
            forall|j: int| 0 <= j < i ==> a@[j] == b@[j],
        decreases n - i,
    {
        if a.get_char(i) != b.get_char(i) {
            return false;
        }
        i += 1;
    }
    assert(a@ =~= b@);
    true
}

} // verus!
